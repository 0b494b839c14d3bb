//! An append-only event log with two secondary indexes.
//!
//! The log stores metadata records in the order of their submission and gives
//! each a position that never changes. Two indexes file every position under
//! the subject of its record and under its caller, so that the records of one
//! identity can be read page by page or most recent first. The whole log can
//! be taken down to a plain image and built up again from it.
//!
//! * [`store`]: the sequence of records.
//! * [`index`]: one secondary index.
//! * [`page`]: the windows that queries select, and the queries over a
//!   sequence of positions.
//! * [`engine`]: the store and the two indexes behind one interface.
//! * [`snapshot`]: the image of a log.
//! * [`state`]: the mathematical state of a log, which the contracts of the
//!   engine speak of.
//! * [`laws`]: what holds of every log, proved about that state.

pub mod engine;
pub mod error;
pub mod identity;
pub mod index;
pub mod laws;
pub mod page;
pub mod record;
pub mod snapshot;
pub mod state;
pub mod store;

pub use engine::Engine;
pub use error::EngineError;
pub use identity::Identity;
pub use index::{IndexEntry, SecondaryIndex};
pub use record::{Metadata, Position};
pub use snapshot::Snapshot;
pub use state::IndexName;
pub use store::EventStore;
