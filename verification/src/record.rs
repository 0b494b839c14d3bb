//! The records the log stores.

use vstd::prelude::*;
use vstd::std_specs::cmp::PartialEqSpecImpl;

use crate::identity::{bytes_equal, Identity};

verus! {

/// A position in the log: the number of records appended before the record
/// it names.
pub type Position = usize;

/// A metadata record. The log reads `subject` and `caller` to index the
/// record; `payload` is carried through untouched.
#[derive(Debug)]
pub struct Metadata {
    /// The identity the event concerns.
    pub subject: Identity,
    /// The identity that produced the event.
    pub caller: Identity,
    /// The encoded remainder of the record.
    pub payload: Vec<u8>,
}

/// The mathematical value of a [`Metadata`] record.
pub struct Record {
    pub subject: Seq<u8>,
    pub caller: Seq<u8>,
    pub payload: Seq<u8>,
}

impl View for Metadata {
    type V = Record;

    open spec fn view(&self) -> Record {
        Record { subject: self.subject@, caller: self.caller@, payload: self.payload@ }
    }
}

/// The values of a sequence of records, in order.
pub open spec fn records_of(items: Seq<Metadata>) -> Seq<Record> {
    items.map_values(|m: Metadata| m@)
}

impl Metadata {
    /// Builds a record from its parts.
    pub fn new(subject: Identity, caller: Identity, payload: Vec<u8>) -> (record: Metadata)
        ensures
            record@ == (Record { subject: subject@, caller: caller@, payload: payload@ }),
    {
        Metadata { subject, caller, payload }
    }
}

impl Clone for Metadata {
    fn clone(&self) -> (copy: Metadata)
        ensures
            copy@ == self@,
    {
        Metadata {
            subject: self.subject.clone(),
            caller: self.caller.clone(),
            payload: self.payload.clone(),
        }
    }
}

impl PartialEq for Metadata {
    fn eq(&self, other: &Metadata) -> (equal: bool) {
        self.subject.same(&other.subject) && self.caller.same(&other.caller) && bytes_equal(
            self.payload.as_slice(),
            other.payload.as_slice(),
        )
    }
}

impl PartialEqSpecImpl for Metadata {
    open spec fn obeys_eq_spec() -> bool {
        true
    }

    open spec fn eq_spec(&self, other: &Metadata) -> bool {
        self@ == other@
    }
}

impl Eq for Metadata {

}

} // verus!
