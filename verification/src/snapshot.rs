//! The durable image of a log.
//!
//! A snapshot carries everything that a log holds, as plain data: the records
//! in the order of their positions, and each index flattened to a sequence of
//! entries. The order of the entries carries no meaning; the order of the
//! positions inside an entry does.

use vstd::prelude::*;

use crate::index::{distinct_keys, index_of_pairs, pairs_of, IndexEntry};
use crate::record::{records_of, Metadata, Position, Record};
use crate::state::{index_wf, LogState};
use crate::store::resolvable;

verus! {

/// The image of a log.
#[derive(Debug)]
pub struct Snapshot {
    /// The records; the index of each is its position.
    pub log: Vec<Metadata>,
    /// The entries of the index by subject.
    pub index_by_subject: Vec<IndexEntry>,
    /// The entries of the index by caller.
    pub index_by_caller: Vec<IndexEntry>,
}

/// The mathematical value of a [`Snapshot`].
pub struct Image {
    pub log: Seq<Record>,
    pub index_by_subject: Seq<(Seq<u8>, Seq<Position>)>,
    pub index_by_caller: Seq<(Seq<u8>, Seq<Position>)>,
}

impl View for Snapshot {
    type V = Image;

    open spec fn view(&self) -> Image {
        Image {
            log: records_of(self.log@),
            index_by_subject: pairs_of(self.index_by_subject@),
            index_by_caller: pairs_of(self.index_by_caller@),
        }
    }
}

/// Whether every pair of `pairs` can be an entry of an index over a log of
/// `len` records: it has a position, and none past the end of the log.
pub open spec fn pairs_valid(pairs: Seq<(Seq<u8>, Seq<Position>)>, len: int) -> bool {
    forall|i: int|
        0 <= i < pairs.len() ==> (#[trigger] pairs[i]).1.len() > 0 && resolvable(len, pairs[i].1)
}

impl Image {
    /// Whether the image can be applied: the entries of both indexes are
    /// valid over the log of the image.
    pub open spec fn valid(self) -> bool {
        &&& pairs_valid(self.index_by_subject, self.log.len() as int)
        &&& pairs_valid(self.index_by_caller, self.log.len() as int)
    }

    /// The state that applying the image gives: its log, and for each index
    /// the result of inserting its entries one after the other.
    pub open spec fn restored(self) -> LogState {
        LogState {
            log: self.log,
            by_subject: index_of_pairs(self.index_by_subject),
            by_caller: index_of_pairs(self.index_by_caller),
        }
    }

    /// Whether the image is one of `state`: it has the log of `state`, and for
    /// each index one entry for each key held, with the positions of that key.
    pub open spec fn captures(self, state: LogState) -> bool {
        &&& self.log == state.log
        &&& distinct_keys(self.index_by_subject)
        &&& distinct_keys(self.index_by_caller)
        &&& index_of_pairs(self.index_by_subject) == state.by_subject
        &&& index_of_pairs(self.index_by_caller) == state.by_caller
    }
}

/// Inserting valid pairs one after the other gives a sound index.
pub proof fn lemma_valid_pairs_give_sound_index(pairs: Seq<(Seq<u8>, Seq<Position>)>, len: int)
    requires
        pairs_valid(pairs, len),
    ensures
        index_wf(index_of_pairs(pairs), len),
    decreases pairs.len(),
{
    if pairs.len() > 0 {
        let front = pairs.drop_last();
        assert forall|i: int| 0 <= i < front.len() implies (#[trigger] front[i]).1.len() > 0
            && resolvable(len, front[i].1) by {
            assert(front[i] == pairs[i]);
        }
        lemma_valid_pairs_give_sound_index(front, len);
    }
}

/// Whether every position of `positions` names a record of a log of `len`
/// records.
pub fn all_below(positions: &[Position], len: usize) -> (below: bool)
    ensures
        below == resolvable(len as int, positions@),
{
    let mut i: usize = 0;
    while i < positions.len()
        invariant
            i <= positions@.len(),
            forall|j: int| 0 <= j < i ==> positions@[j] < len,
        decreases positions@.len() - i,
    {
        if positions[i] >= len {
            return false;
        }
        i += 1;
    }
    true
}

/// Whether `entries` can be the entries of an index over a log of `len`
/// records.
pub fn entries_valid(entries: &Vec<IndexEntry>, len: usize) -> (valid: bool)
    ensures
        valid == pairs_valid(pairs_of(entries@), len as int),
{
    let mut i: usize = 0;
    while i < entries.len()
        invariant
            i <= entries@.len(),
            forall|j: int|
                0 <= j < i ==> (#[trigger] pairs_of(entries@)[j]).1.len() > 0 && resolvable(
                    len as int,
                    pairs_of(entries@)[j].1,
                ),
        decreases entries@.len() - i,
    {
        let entry = &entries[i];
        if entry.positions.len() == 0 || !all_below(entry.positions.as_slice(), len) {
            assert(pairs_of(entries@)[i as int].1 == entry.positions@);
            return false;
        }
        i += 1;
    }
    true
}

} // verus!
