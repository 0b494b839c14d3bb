//! Secondary indexes: from an identity key to the positions of its records.
//!
//! An index keeps one entry for each key, in the order in which the keys were
//! first given to it, and finds the entry of a key by walking them. Its
//! mathematical value is the map from each key held to its positions.

use vstd::prelude::*;

use crate::identity::Identity;
use crate::record::Position;

verus! {

/// A key together with the positions recorded for it, in the order in which
/// they were recorded.
#[derive(Debug)]
pub struct IndexEntry {
    pub key: Identity,
    pub positions: Vec<Position>,
}

impl View for IndexEntry {
    type V = (Seq<u8>, Seq<Position>);

    open spec fn view(&self) -> (Seq<u8>, Seq<Position>) {
        (self.key@, self.positions@)
    }
}

/// The values of a sequence of entries, in order.
pub open spec fn pairs_of(entries: Seq<IndexEntry>) -> Seq<(Seq<u8>, Seq<Position>)> {
    entries.map_values(|e: IndexEntry| e@)
}

/// The index that results from inserting `pairs` one after the other into an
/// empty index. Where a key occurs more than once, its last pair stays.
pub open spec fn index_of_pairs(pairs: Seq<(Seq<u8>, Seq<Position>)>) -> Map<
    Seq<u8>,
    Seq<Position>,
>
    decreases pairs.len(),
{
    if pairs.len() == 0 {
        Map::empty()
    } else {
        index_of_pairs(pairs.drop_last()).insert(pairs.last().0, pairs.last().1)
    }
}

/// The values of a sequence of keys, in order.
pub open spec fn keys_of(keys: Seq<Identity>) -> Seq<Seq<u8>> {
    keys.map_values(|k: Identity| k@)
}

/// Whether every pair of `pairs` has at least one position.
pub open spec fn no_empty_entry(pairs: Seq<(Seq<u8>, Seq<Position>)>) -> bool {
    forall|i: int| 0 <= i < pairs.len() ==> (#[trigger] pairs[i]).1.len() > 0
}

/// Whether no key occurs twice in `pairs`.
pub open spec fn distinct_keys(pairs: Seq<(Seq<u8>, Seq<Position>)>) -> bool {
    forall|i: int, j: int| 0 <= i < j < pairs.len() ==> pairs[i].0 != pairs[j].0
}

/// The positions that `index` holds for `key`: none for a key it does not
/// hold.
pub open spec fn positions_in(index: Map<Seq<u8>, Seq<Position>>, key: Seq<u8>) -> Seq<Position> {
    if index.contains_key(key) {
        index[key]
    } else {
        Seq::empty()
    }
}

/// A key is held by the index of `pairs` exactly when one of the pairs has it.
pub proof fn lemma_index_of_pairs_keys(pairs: Seq<(Seq<u8>, Seq<Position>)>)
    ensures
        index_of_pairs(pairs).dom().finite(),
        forall|key: Seq<u8>|
            index_of_pairs(pairs).contains_key(key) <==> exists|i: int|
                0 <= i < pairs.len() && #[trigger] pairs[i].0 == key,
    decreases pairs.len(),
{
    if pairs.len() > 0 {
        let front = pairs.drop_last();
        lemma_index_of_pairs_keys(front);
        assert forall|key: Seq<u8>|
            index_of_pairs(pairs).contains_key(key) <==> exists|i: int|
                0 <= i < pairs.len() && #[trigger] pairs[i].0 == key by {
            if index_of_pairs(front).contains_key(key) {
                let i = choose|i: int| 0 <= i < front.len() && #[trigger] front[i].0 == key;
                assert(pairs[i].0 == key);
            }
            if exists|i: int| 0 <= i < pairs.len() && #[trigger] pairs[i].0 == key {
                let i = choose|i: int| 0 <= i < pairs.len() && #[trigger] pairs[i].0 == key;
                if i < pairs.len() - 1 {
                    assert(front[i].0 == key);
                }
            }
        }
    }
}

/// Where no key occurs twice, the index of `pairs` holds for each key the
/// positions of its pair.
pub proof fn lemma_index_of_pairs_value(pairs: Seq<(Seq<u8>, Seq<Position>)>, i: int)
    requires
        distinct_keys(pairs),
        0 <= i < pairs.len(),
    ensures
        index_of_pairs(pairs).contains_key(pairs[i].0),
        index_of_pairs(pairs)[pairs[i].0] == pairs[i].1,
    decreases pairs.len(),
{
    if i < pairs.len() - 1 {
        lemma_index_of_pairs_value(pairs.drop_last(), i);
    }
}

/// Where no key occurs twice, replacing the positions of one pair replaces
/// them in the index.
pub proof fn lemma_index_of_pairs_update(
    pairs: Seq<(Seq<u8>, Seq<Position>)>,
    i: int,
    positions: Seq<Position>,
)
    requires
        distinct_keys(pairs),
        0 <= i < pairs.len(),
    ensures
        distinct_keys(pairs.update(i, (pairs[i].0, positions))),
        index_of_pairs(pairs.update(i, (pairs[i].0, positions))) == index_of_pairs(pairs).insert(
            pairs[i].0,
            positions,
        ),
    decreases pairs.len(),
{
    let updated = pairs.update(i, (pairs[i].0, positions));
    if i < pairs.len() - 1 {
        lemma_index_of_pairs_update(pairs.drop_last(), i, positions);
        assert(updated.drop_last() == pairs.drop_last().update(i, (pairs[i].0, positions)));
    } else {
        assert(updated.drop_last() == pairs.drop_last());
    }
}

/// A mapping from identity keys to the positions recorded for each, in the
/// order in which they were recorded. A key is held only once a position has
/// been recorded for it.
#[derive(Debug)]
pub struct SecondaryIndex {
    entries: Vec<IndexEntry>,
}

impl View for SecondaryIndex {
    type V = Map<Seq<u8>, Seq<Position>>;

    closed spec fn view(&self) -> Map<Seq<u8>, Seq<Position>> {
        index_of_pairs(pairs_of(self.entries@))
    }
}

impl SecondaryIndex {
    /// The invariant of the representation: no key is stored twice, and none
    /// without a position.
    pub closed spec fn wf(&self) -> bool {
        &&& distinct_keys(pairs_of(self.entries@))
        &&& no_empty_entry(pairs_of(self.entries@))
    }

    /// The keys held, in the order in which the index enumerates them: the
    /// order in which they were first given to it.
    pub closed spec fn key_order(&self) -> Seq<Seq<u8>> {
        pairs_of(self.entries@).map_values(|pair: (Seq<u8>, Seq<Position>)| pair.0)
    }

    /// The positions recorded for `key`: none for a key that is not held.
    pub open spec fn positions(&self, key: Seq<u8>) -> Seq<Position> {
        positions_in(self@, key)
    }

    /// A well-formed index holds finitely many keys, each with at least one
    /// position, and enumerates each of them once.
    pub proof fn lemma_wf(&self)
        requires
            self.wf(),
        ensures
            self@.dom().finite(),
            forall|key: Seq<u8>| #[trigger] self@.contains_key(key) ==> self@[key].len() > 0,
            self.key_order().no_duplicates(),
            self.key_order().to_set() == self@.dom(),
    {
        let pairs = pairs_of(self.entries@);
        let order = self.key_order();
        lemma_index_of_pairs_keys(pairs);
        assert forall|key: Seq<u8>| #[trigger] self@.contains_key(key) implies self@[key].len()
            > 0 by {
            let i = choose|i: int| 0 <= i < pairs.len() && #[trigger] pairs[i].0 == key;
            lemma_index_of_pairs_value(pairs, i);
        }
        assert forall|key: Seq<u8>| order.to_set().contains(key) <==> self@.dom().contains(key) by {
            if order.to_set().contains(key) {
                let i = choose|i: int| 0 <= i < order.len() && order[i] == key;
                assert(pairs[i].0 == key);
            }
            if self@.dom().contains(key) {
                let i = choose|i: int| 0 <= i < pairs.len() && #[trigger] pairs[i].0 == key;
                assert(order[i] == key);
            }
        }
    }

    /// An index that holds no key.
    pub fn new() -> (index: SecondaryIndex)
        ensures
            index.wf(),
            index@ == Map::<Seq<u8>, Seq<Position>>::empty(),
            index.key_order() == Seq::<Seq<u8>>::empty(),
    {
        SecondaryIndex { entries: Vec::new() }
    }

    /// The slot of the entry of `key`, if there is one.
    fn find(&self, key: &Identity) -> (slot: Option<usize>)
        requires
            self.wf(),
        ensures
            match slot {
                Some(i) => {
                    &&& i < self.entries@.len()
                    &&& self.entries@[i as int].key@ == key@
                    &&& self@.contains_key(key@)
                    &&& self@[key@] == self.entries@[i as int].positions@
                },
                None => !self@.contains_key(key@),
            },
    {
        let mut i: usize = 0;
        while i < self.entries.len()
            invariant
                self.wf(),
                i <= self.entries@.len(),
                forall|j: int| 0 <= j < i ==> self.entries@[j].key@ != key@,
            decreases self.entries@.len() - i,
        {
            if self.entries[i].key.same(key) {
                proof {
                    lemma_index_of_pairs_value(pairs_of(self.entries@), i as int);
                }
                return Some(i);
            }
            i += 1;
        }
        proof {
            lemma_index_of_pairs_keys(pairs_of(self.entries@));
        }
        None
    }

    /// Replaces the positions of the entry in slot `i`.
    fn replace_positions(&mut self, i: usize, positions: Vec<Position>)
        requires
            old(self).wf(),
            i < old(self).entries@.len(),
            positions@.len() > 0,
        ensures
            final(self).wf(),
            final(self)@ == old(self)@.insert(old(self).entries@[i as int].key@, positions@),
            final(self).key_order() == old(self).key_order(),
    {
        proof {
            lemma_index_of_pairs_update(pairs_of(self.entries@), i as int, positions@);
        }
        self.entries[i].positions = positions;
        proof {
            let before = pairs_of(old(self).entries@);
            assert(pairs_of(self.entries@) == before.update(
                i as int,
                (before[i as int].0, positions@),
            ));
        }
    }

    /// Adds an entry for a key that is not held yet.
    fn push_entry(&mut self, key: Identity, positions: Vec<Position>)
        requires
            old(self).wf(),
            !old(self)@.contains_key(key@),
            positions@.len() > 0,
        ensures
            final(self).wf(),
            final(self)@ == old(self)@.insert(key@, positions@),
            final(self).key_order() == old(self).key_order().push(key@),
    {
        proof {
            lemma_index_of_pairs_keys(pairs_of(self.entries@));
        }
        self.entries.push(IndexEntry { key, positions });
        proof {
            let before = pairs_of(old(self).entries@);
            let after = pairs_of(self.entries@);
            assert(after.drop_last() == before);
            assert forall|i: int, j: int| 0 <= i < j < after.len() implies after[i].0
                != after[j].0 by {
                assert(before[i].0 == after[i].0);
                if j < before.len() {
                    assert(before[j].0 == after[j].0);
                }
            }
            assert forall|i: int| 0 <= i < after.len() implies (#[trigger] after[i]).1.len()
                > 0 by {
                if i < before.len() {
                    assert(before[i] == after[i]);
                }
            }
        }
    }

    /// Whether a position has been recorded for `key`.
    pub fn contains_key(&self, key: &Identity) -> (held: bool)
        requires
            self.wf(),
        ensures
            held == self@.contains_key(key@),
    {
        self.find(key).is_some()
    }

    /// Records `position` for `key`, after the positions already recorded
    /// for it. A key that was not held is held from now on, and enumerated
    /// last.
    pub fn append(&mut self, key: Identity, position: Position)
        requires
            old(self).wf(),
        ensures
            final(self).wf(),
            final(self)@ == old(self)@.insert(key@, old(self).positions(key@).push(position)),
            final(self).key_order() == if old(self)@.contains_key(key@) {
                old(self).key_order()
            } else {
                old(self).key_order().push(key@)
            },
    {
        match self.find(&key) {
            Some(i) => {
                proof {
                    lemma_index_of_pairs_update(
                        pairs_of(self.entries@),
                        i as int,
                        self.entries@[i as int].positions@.push(position),
                    );
                }
                self.entries[i].positions.push(position);
                proof {
                    let before = pairs_of(old(self).entries@);
                    assert(pairs_of(self.entries@) == before.update(
                        i as int,
                        (key@, before[i as int].1.push(position)),
                    ));
                }
            },
            None => {
                let mut positions: Vec<Position> = Vec::new();
                positions.push(position);
                self.push_entry(key, positions);
            },
        }
    }

    /// The positions recorded for `key`, in the order in which they were
    /// recorded. A key that was never observed has none: that is no error.
    pub fn lookup(&self, key: &Identity) -> (positions: &[Position])
        requires
            self.wf(),
        ensures
            positions@ == self.positions(key@),
    {
        match self.find(key) {
            Some(i) => self.entries[i].positions.as_slice(),
            None => {
                let none: &[Position] = &[];
                none
            },
        }
    }

    /// The number of keys held.
    pub fn key_count(&self) -> (count: usize)
        ensures
            count == self.key_order().len(),
    {
        self.entries.len()
    }

    /// The key in place `i` of the enumeration of the keys held, or nothing
    /// where fewer keys are held. The enumeration can be walked step by step,
    /// and started again at any place.
    pub fn key_at(&self, i: usize) -> (key: Option<&Identity>)
        ensures
            match key {
                Some(found) => i < self.key_order().len() && found@ == self.key_order()[i as int],
                None => i >= self.key_order().len(),
            },
    {
        if i < self.entries.len() {
            Some(&self.entries[i].key)
        } else {
            None
        }
    }

    /// The keys held, each once, in the order of their enumeration.
    pub fn keys(&self) -> (keys: Vec<Identity>)
        ensures
            keys_of(keys@) == self.key_order(),
    {
        let mut keys: Vec<Identity> = Vec::with_capacity(self.entries.len());
        let mut i: usize = 0;
        while i < self.entries.len()
            invariant
                i <= self.entries@.len(),
                keys_of(keys@) == self.key_order().take(i as int),
            decreases self.entries@.len() - i,
        {
            keys.push(self.entries[i].key.clone());
            assert(self.key_order().take(i + 1) == self.key_order().take(i as int).push(
                self.key_order()[i as int],
            ));
            i += 1;
        }
        keys
    }

    /// Sets the positions of `key` to `positions`, whether or not the key was
    /// held before. A key that was not held is enumerated last.
    pub fn insert(&mut self, key: Identity, positions: Vec<Position>)
        requires
            old(self).wf(),
            positions@.len() > 0,
        ensures
            final(self).wf(),
            final(self)@ == old(self)@.insert(key@, positions@),
            final(self).key_order() == if old(self)@.contains_key(key@) {
                old(self).key_order()
            } else {
                old(self).key_order().push(key@)
            },
    {
        match self.find(&key) {
            Some(i) => self.replace_positions(i, positions),
            None => self.push_entry(key, positions),
        }
    }

    /// The index that results from inserting `entries` one after the other
    /// into an empty index.
    pub fn from_entries(entries: Vec<IndexEntry>) -> (index: SecondaryIndex)
        requires
            no_empty_entry(pairs_of(entries@)),
        ensures
            index.wf(),
            index@ == index_of_pairs(pairs_of(entries@)),
    {
        let ghost all = entries@;
        let mut index = SecondaryIndex::new();
        for entry in it: entries
            invariant
                it.seq() == all,
                no_empty_entry(pairs_of(all)),
                index.wf(),
                index@ == index_of_pairs(pairs_of(all.take(it.index() as int))),
        {
            proof {
                let done = pairs_of(all.take(it.index() as int));
                let next = pairs_of(all.take(it.index() + 1));
                assert(next.drop_last() == done);
                assert(pairs_of(all)[it.index() as int] == entry@);
            }
            index.insert(entry.key, entry.positions);
        }
        assert(all.take(all.len() as int) == all);
        index
    }

    /// Gives the entries up: one for each key held, with its positions, in
    /// the order of the enumeration of the keys.
    pub fn into_entries(self) -> (entries: Vec<IndexEntry>)
        requires
            self.wf(),
        ensures
            distinct_keys(pairs_of(entries@)),
            no_empty_entry(pairs_of(entries@)),
            index_of_pairs(pairs_of(entries@)) == self@,
    {
        self.entries
    }
}

} // verus!
