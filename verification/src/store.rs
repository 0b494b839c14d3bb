//! The append-only store of records.

use vstd::prelude::*;

use crate::error::EngineError;
use crate::page::{last_of, recent_range};
use crate::record::{records_of, Metadata, Position, Record};

verus! {

/// Whether every position of `positions` names a record of a log of `len`
/// records.
pub open spec fn resolvable(len: int, positions: Seq<Position>) -> bool {
    forall|i: int| 0 <= i < positions.len() ==> positions[i] < len
}

/// The records of `log` that `positions` names, in the order of `positions`.
pub open spec fn deref(log: Seq<Record>, positions: Seq<Position>) -> Seq<Record> {
    positions.map_values(|p: Position| log[p as int])
}

/// An ordered, append-only sequence of records. The position of a record is
/// the number of records appended before it, and never changes.
#[derive(Debug)]
pub struct EventStore {
    records: Vec<Metadata>,
}

impl View for EventStore {
    type V = Seq<Record>;

    closed spec fn view(&self) -> Seq<Record> {
        records_of(self.records@)
    }
}

impl EventStore {
    /// The number of records of a store is a position.
    pub proof fn lemma_len_bounded(&self)
        ensures
            self@.len() <= usize::MAX,
    {
        assert(self.records.len() == self.records@.len());
    }

    /// An empty store.
    pub fn new() -> (store: EventStore)
        ensures
            store@ == Seq::<Record>::empty(),
    {
        EventStore { records: Vec::new() }
    }

    /// A store holding `records`, each at the position of its index.
    pub fn from_records(records: Vec<Metadata>) -> (store: EventStore)
        ensures
            store@ == records_of(records@),
    {
        EventStore { records }
    }

    /// Gives the records up, in the order of their positions.
    pub fn into_records(self) -> (records: Vec<Metadata>)
        ensures
            records_of(records@) == self@,
    {
        self.records
    }

    /// Appends `record` and returns the position it was given, which is the
    /// number of records that were there before.
    pub fn append(&mut self, record: Metadata) -> (position: Position)
        ensures
            final(self)@ == old(self)@.push(record@),
            position == old(self)@.len(),
    {
        let position: usize = self.records.len();
        self.records.push(record);
        position
    }

    /// The number of records.
    pub fn len(&self) -> (len: usize)
        ensures
            len == self@.len(),
    {
        self.records.len()
    }

    /// The record at `position`. A position that names no record is reported
    /// as [`EngineError::IndexCorruption`].
    pub fn get(&self, position: Position) -> (found: Result<&Metadata, EngineError>)
        ensures
            match found {
                Ok(record) => position < self@.len() && record@ == self@[position as int],
                Err(error) => position >= self@.len() && error == EngineError::IndexCorruption,
            },
    {
        if position < self.records.len() {
            Ok(&self.records[position])
        } else {
            Err(EngineError::IndexCorruption)
        }
    }

    /// Copies of the records that `positions` names, in the order of
    /// `positions`. Fails with [`EngineError::IndexCorruption`] exactly when
    /// one of the positions names no record.
    pub fn fetch(&self, positions: &[Position]) -> (fetched: Result<Vec<Metadata>, EngineError>)
        ensures
            match fetched {
                Ok(records) => resolvable(self@.len() as int, positions@) && records_of(records@)
                    == deref(self@, positions@),
                Err(error) => !resolvable(self@.len() as int, positions@) && error
                    == EngineError::IndexCorruption,
            },
    {
        let mut records: Vec<Metadata> = Vec::with_capacity(positions.len());
        let mut i: usize = 0;
        while i < positions.len()
            invariant
                i <= positions@.len(),
                resolvable(self@.len() as int, positions@.take(i as int)),
                records_of(records@) == deref(self@, positions@.take(i as int)),
            decreases positions@.len() - i,
        {
            match self.get(positions[i]) {
                Ok(record) => {
                    records.push(record.clone());
                },
                Err(error) => {
                    return Err(error);
                },
            }
            proof {
                let done = positions@.take(i as int);
                let next = positions@.take(i + 1);
                let found = self@[positions@[i as int] as int];
                assert(next == done.push(positions@[i as int]));
                assert(deref(self@, next) == deref(self@, done).push(found));
            }
            i += 1;
        }
        assert(positions@.take(positions@.len() as int) == positions@);
        Ok(records)
    }

    /// Copies of the last `n` records, oldest first, or of all records where
    /// there are fewer than `n`.
    pub fn tail(&self, n: usize) -> (recent: Vec<Metadata>)
        ensures
            records_of(recent@) == last_of(self@, n as int),
    {
        let (start, end) = recent_range(self.records.len(), n);
        let mut recent: Vec<Metadata> = Vec::with_capacity(end - start);
        let mut i: usize = start;
        while i < end
            invariant
                start <= i <= end,
                end == self.records@.len(),
                records_of(recent@) == self@.subrange(start as int, i as int),
            decreases end - i,
        {
            recent.push(self.records[i].clone());
            assert(self@.subrange(start as int, i + 1) == self@.subrange(
                start as int,
                i as int,
            ).push(self@[i as int]));
            i += 1;
        }
        recent
    }
}

} // verus!
