//! The mathematical state of the log, and what each operation means on it.
//!
//! A log is a sequence of records and two indexes. The model below defines
//! the effect of a submission and the answer to each query as plain functions
//! of that state: the contracts of the executable engine refer to them, and
//! the laws of the log are proved about them.

use vstd::prelude::*;

use crate::index::positions_in;
use crate::page::{last_of, page_of};
use crate::record::{Position, Record};
use crate::store::{deref, resolvable};

verus! {

/// Names one of the two secondary indexes.
#[derive(Debug, Clone, Copy, PartialEq, Eq, Structural)]
pub enum IndexName {
    /// The index keyed by the identity an event concerns.
    Subject,
    /// The index keyed by the identity that produced an event.
    Caller,
}

/// The key under which `name` files `record`.
pub open spec fn key_of(name: IndexName, record: Record) -> Seq<u8> {
    match name {
        IndexName::Subject => record.subject,
        IndexName::Caller => record.caller,
    }
}

/// Whether `index` is a sound index over a log of `len` records: it holds
/// finitely many keys, none without a position, and no position past the end
/// of the log.
pub open spec fn index_wf(index: Map<Seq<u8>, Seq<Position>>, len: int) -> bool {
    &&& index.dom().finite()
    &&& forall|key: Seq<u8>| #[trigger]
        index.contains_key(key) ==> index[key].len() > 0 && resolvable(len, index[key])
}

/// The index `index` after `position` has been recorded for `key`.
pub open spec fn index_append(
    index: Map<Seq<u8>, Seq<Position>>,
    key: Seq<u8>,
    position: Position,
) -> Map<Seq<u8>, Seq<Position>> {
    index.insert(key, positions_in(index, key).push(position))
}

/// The state of a log: its records, by position, and its two indexes.
pub struct LogState {
    pub log: Seq<Record>,
    pub by_subject: Map<Seq<u8>, Seq<Position>>,
    pub by_caller: Map<Seq<u8>, Seq<Position>>,
}

impl LogState {
    /// The state of a log to which nothing has been submitted.
    pub open spec fn empty() -> LogState {
        LogState { log: Seq::empty(), by_subject: Map::empty(), by_caller: Map::empty() }
    }

    /// The index that `name` names.
    pub open spec fn index(self, name: IndexName) -> Map<Seq<u8>, Seq<Position>> {
        match name {
            IndexName::Subject => self.by_subject,
            IndexName::Caller => self.by_caller,
        }
    }

    /// The invariant of a log: its length is a position, and both indexes are
    /// sound over it.
    pub open spec fn wf(self) -> bool {
        &&& self.log.len() <= usize::MAX
        &&& index_wf(self.by_subject, self.log.len() as int)
        &&& index_wf(self.by_caller, self.log.len() as int)
    }

    /// The position that the next submitted record is given.
    pub open spec fn next_position(self) -> Position {
        self.log.len() as Position
    }

    /// The state after `record` has been submitted: the record stands at the
    /// end of the log, and its position at the end of the positions of its
    /// subject and of its caller.
    pub open spec fn submit(self, record: Record) -> LogState {
        LogState {
            log: self.log.push(record),
            by_subject: index_append(self.by_subject, record.subject, self.next_position()),
            by_caller: index_append(self.by_caller, record.caller, self.next_position()),
        }
    }

    /// The positions recorded for `key` in the index `name`.
    pub open spec fn positions(self, name: IndexName, key: Seq<u8>) -> Seq<Position> {
        positions_in(self.index(name), key)
    }

    /// All records filed under `key` in the index `name`, oldest first.
    pub open spec fn all_by_key(self, name: IndexName, key: Seq<u8>) -> Seq<Record> {
        deref(self.log, self.positions(name, key))
    }

    /// The page at `offset` of the records filed under `key`.
    pub open spec fn by_key(self, name: IndexName, key: Seq<u8>, offset: int, limit: int) -> Seq<
        Record,
    > {
        deref(self.log, page_of(self.positions(name, key), offset, limit))
    }

    /// The `limit` most recent records of the log, oldest first.
    pub open spec fn last_n(self, limit: int) -> Seq<Record> {
        last_of(self.log, limit)
    }

    /// The `limit` most recent records filed under `key`, oldest first.
    pub open spec fn last_n_by_key(self, name: IndexName, key: Seq<u8>, limit: int) -> Seq<Record> {
        deref(self.log, last_of(self.positions(name, key), limit))
    }

    /// The keys that the index `name` holds.
    pub open spec fn keys(self, name: IndexName) -> Set<Seq<u8>> {
        self.index(name).dom()
    }
}

} // verus!
