//! The log engine: the store and its two indexes, kept together.

use vstd::pervasive::unreached;
use vstd::prelude::*;

use crate::error::EngineError;
use crate::identity::Identity;
use crate::index::{keys_of, SecondaryIndex};
use crate::page::{last_n, page, page_len, recent_len};
use crate::record::{records_of, Metadata, Position};
use crate::snapshot::{entries_valid, lemma_valid_pairs_give_sound_index, Snapshot};
use crate::state::{IndexName, LogState};
use crate::store::EventStore;

verus! {

/// An append-only log of records with an index by subject and one by caller.
///
/// A log begins its life in [`Engine::new`], empty, or in [`Engine::restore`],
/// with what an image holds. While it lives, the only change to it is the
/// submission of a record; everything else reads. Its life ends in
/// [`Engine::snapshot`], which takes the engine and leaves its image: between
/// a snapshot and the restore of its image there is no engine to ask.
#[derive(Debug)]
pub struct Engine {
    store: EventStore,
    by_subject: SecondaryIndex,
    by_caller: SecondaryIndex,
}

impl View for Engine {
    type V = LogState;

    closed spec fn view(&self) -> LogState {
        LogState { log: self.store@, by_subject: self.by_subject@, by_caller: self.by_caller@ }
    }
}

impl Engine {
    /// The invariant of the representation of the two indexes.
    pub closed spec fn indexes_wf(&self) -> bool {
        self.by_subject.wf() && self.by_caller.wf()
    }

    /// The invariant of the engine: every position that an index holds names
    /// a record of the store, and no index holds a key without a position.
    pub open spec fn wf(&self) -> bool {
        self.indexes_wf() && self@.wf()
    }

    /// An engine to which nothing has been submitted.
    pub fn new() -> (engine: Engine)
        ensures
            engine.wf(),
            engine@ == LogState::empty(),
    {
        Engine {
            store: EventStore::new(),
            by_subject: SecondaryIndex::new(),
            by_caller: SecondaryIndex::new(),
        }
    }

    /// The number of records submitted so far.
    pub fn len(&self) -> (len: usize)
        ensures
            len == self@.log.len(),
    {
        self.store.len()
    }

    /// Appends `record` to the log and files its position under its subject
    /// and under its caller. Returns the position, which is the number of
    /// records submitted before. A submission does not fail.
    pub fn submit(&mut self, record: Metadata) -> (result: Result<Position, EngineError>)
        requires
            old(self).wf(),
        ensures
            final(self).wf(),
            final(self)@ == old(self)@.submit(record@),
            result == Ok::<Position, EngineError>(old(self)@.next_position()),
    {
        let subject = record.subject.clone();
        let caller = record.caller.clone();
        let position = self.store.append(record);
        self.by_subject.append(subject, position);
        self.by_caller.append(caller, position);
        proof {
            self.store.lemma_len_bounded();
        }
        Ok(position)
    }

    /// The index that `name` names.
    fn index(&self, name: IndexName) -> (index: &SecondaryIndex)
        ensures
            index@ == self@.index(name),
            self.indexes_wf() ==> index.wf(),
    {
        match name {
            IndexName::Subject => &self.by_subject,
            IndexName::Caller => &self.by_caller,
        }
    }

    /// One page of the records filed under `key` in the index `name`, oldest
    /// first. The page starts at `offset` and holds at most `limit` records,
    /// and never more than the maximum page size. An offset past the last
    /// record of the key, and a key that was never observed, give an empty
    /// page.
    pub fn by_key(&self, name: IndexName, key: &Identity, offset: usize, limit: usize) -> (records:
        Vec<Metadata>)
        requires
            self.wf(),
        ensures
            records_of(records@) == self@.by_key(name, key@, offset as int, limit as int),
            records@.len() == page_len(
                self@.positions(name, key@).len() as int,
                offset as int,
                limit as int,
            ),
    {
        let positions = self.index(name).lookup(key);
        match page(&self.store, positions, offset, limit) {
            Ok(records) => {
                assert(records@.len() == records_of(records@).len());
                records
            },
            Err(_) => unreached(),
        }
    }

    /// The `limit` most recently submitted records, oldest first, or all
    /// records where fewer were submitted. The limit is not capped.
    pub fn last_n(&self, limit: usize) -> (records: Vec<Metadata>)
        ensures
            records_of(records@) == self@.last_n(limit as int),
            records@.len() == recent_len(self@.log.len() as int, limit as int),
    {
        let records = self.store.tail(limit);
        assert(records@.len() == records_of(records@).len());
        records
    }

    /// The `limit` most recent records filed under `key` in the index `name`,
    /// oldest first, or all of them where there are fewer. The limit is not
    /// capped. A key that was never observed gives no records.
    pub fn last_n_by_key(&self, name: IndexName, key: &Identity, limit: usize) -> (records: Vec<
        Metadata,
    >)
        requires
            self.wf(),
        ensures
            records_of(records@) == self@.last_n_by_key(name, key@, limit as int),
            records@.len() == recent_len(self@.positions(name, key@).len() as int, limit as int),
    {
        let positions = self.index(name).lookup(key);
        match last_n(&self.store, positions, limit) {
            Ok(records) => {
                assert(records@.len() == records_of(records@).len());
                records
            },
            Err(_) => unreached(),
        }
    }

    /// The keys observed so far in the index `name`, each once. Their order
    /// carries no meaning.
    pub fn list_keys(&self, name: IndexName) -> (keys: Vec<Identity>)
        requires
            self.wf(),
        ensures
            keys_of(keys@).no_duplicates(),
            keys_of(keys@).to_set() == self@.keys(name),
    {
        let index = self.index(name);
        proof {
            index.lemma_wf();
        }
        index.keys()
    }

    /// Gives the engine up for its image: the records in the order of their
    /// positions and, for each index, one entry for each key held.
    pub fn snapshot(self) -> (snapshot: Snapshot)
        requires
            self.wf(),
        ensures
            snapshot@.captures(self@),
    {
        Snapshot {
            log: self.store.into_records(),
            index_by_subject: self.by_subject.into_entries(),
            index_by_caller: self.by_caller.into_entries(),
        }
    }

    /// Builds an engine from an image: its log becomes the store, and the
    /// entries of each index are inserted one after the other, a later entry
    /// replacing an earlier one of the same key. An image with an entry that
    /// has no position, or a position that its log does not hold, is not
    /// applied at all.
    pub fn restore(snapshot: Snapshot) -> (result: Result<Engine, EngineError>)
        ensures
            match result {
                Ok(engine) => {
                    &&& snapshot@.valid()
                    &&& engine.wf()
                    &&& engine@ == snapshot@.restored()
                },
                Err(error) => {
                    &&& !snapshot@.valid()
                    &&& error == EngineError::RestoreFailure
                },
            },
    {
        let Snapshot { log, index_by_subject, index_by_caller } = snapshot;
        let len = log.len();
        if !entries_valid(&index_by_subject, len) || !entries_valid(&index_by_caller, len) {
            return Err(EngineError::RestoreFailure);
        }
        proof {
            lemma_valid_pairs_give_sound_index(snapshot@.index_by_subject, len as int);
            lemma_valid_pairs_give_sound_index(snapshot@.index_by_caller, len as int);
        }
        Ok(
            Engine {
                store: EventStore::from_records(log),
                by_subject: SecondaryIndex::from_entries(index_by_subject),
                by_caller: SecondaryIndex::from_entries(index_by_caller),
            },
        )
    }
}

} // verus!
