//! Offset/limit and recency windows over a sequence.
//!
//! Every query of the log selects a contiguous window of a sequence: a page,
//! chosen by an offset and a limit, or the most recent items, chosen by a
//! limit alone. The windows are defined here once, as mathematical bounds, and
//! computed by two functions that cannot overflow.

use vstd::prelude::*;
use vstd::slice::slice_subrange;

use crate::error::EngineError;
use crate::record::{records_of, Metadata, Position};
use crate::store::{deref, resolvable, EventStore};

verus! {

/// The largest number of items a page may hold.
pub const MAX_PAGE_SIZE: usize = 50;

/// The page size used for a requested `limit`: the limit itself, capped at
/// [`MAX_PAGE_SIZE`].
pub open spec fn clamp_limit(limit: int) -> int {
    if limit > MAX_PAGE_SIZE as int {
        MAX_PAGE_SIZE as int
    } else {
        limit
    }
}

/// The half-open range of indices that the page at `offset` covers in a
/// sequence of `len` items. An offset at or past the end selects nothing.
pub open spec fn page_bounds(len: int, offset: int, limit: int) -> (int, int) {
    if offset >= len {
        (len, len)
    } else if offset + clamp_limit(limit) < len {
        (offset, offset + clamp_limit(limit))
    } else {
        (offset, len)
    }
}

/// The half-open range of indices of the `limit` most recent items of a
/// sequence of `len` items, or of all of them where there are fewer.
pub open spec fn recent_bounds(len: int, limit: int) -> (int, int) {
    if limit >= len {
        (0, len)
    } else {
        (len - limit, len)
    }
}

/// The number of items of the page at `offset` of a sequence of `len` items:
/// as many as the limit, the maximum page size and the items from the offset
/// on allow.
pub open spec fn page_len(len: int, offset: int, limit: int) -> int {
    if offset >= len {
        0
    } else if clamp_limit(limit) <= len - offset {
        clamp_limit(limit)
    } else {
        len - offset
    }
}

/// The number of the `limit` most recent items of a sequence of `len` items.
pub open spec fn recent_len(len: int, limit: int) -> int {
    if limit <= len {
        limit
    } else {
        len
    }
}

/// The page of `items` at `offset`, holding at most `limit` and at most
/// [`MAX_PAGE_SIZE`] items, in the order of `items`.
pub open spec fn page_of<T>(items: Seq<T>, offset: int, limit: int) -> Seq<T> {
    let (start, end) = page_bounds(items.len() as int, offset, limit);
    items.subrange(start, end)
}

/// The last `limit` items of `items`, oldest first, or all of them where
/// there are fewer. The limit is not capped.
pub open spec fn last_of<T>(items: Seq<T>, limit: int) -> Seq<T> {
    let (start, end) = recent_bounds(items.len() as int, limit);
    items.subrange(start, end)
}

/// Caps a requested page size at [`MAX_PAGE_SIZE`].
pub fn clamped(limit: usize) -> (size: usize)
    ensures
        size == clamp_limit(limit as int),
{
    if limit > MAX_PAGE_SIZE {
        MAX_PAGE_SIZE
    } else {
        limit
    }
}

/// Computes the bounds of the page at `offset` in a sequence of `len` items.
pub fn page_range(len: usize, offset: usize, limit: usize) -> (range: (usize, usize))
    ensures
        (range.0 as int, range.1 as int) == page_bounds(len as int, offset as int, limit as int),
        range.0 <= range.1 <= len,
{
    if offset >= len {
        (len, len)
    } else {
        let size: usize = clamped(limit);
        if size < len - offset {
            (offset, offset + size)
        } else {
            (offset, len)
        }
    }
}

/// Computes the bounds of the `limit` most recent items of a sequence of
/// `len` items.
pub fn recent_range(len: usize, limit: usize) -> (range: (usize, usize))
    ensures
        (range.0 as int, range.1 as int) == recent_bounds(len as int, limit as int),
        range.0 <= range.1 <= len,
{
    if limit >= len {
        (0, len)
    } else {
        (len - limit, len)
    }
}

/// The records of `store` named by the page of `positions` at `offset`, in
/// the order of `positions`. Only the positions of the page are followed:
/// the call fails with [`EngineError::IndexCorruption`] exactly when one of
/// them names no record of `store`.
pub fn page(store: &EventStore, positions: &[Position], offset: usize, limit: usize) -> (found:
    Result<Vec<Metadata>, EngineError>)
    ensures
        match found {
            Ok(records) => {
                &&& resolvable(
                    store@.len() as int,
                    page_of(positions@, offset as int, limit as int),
                )
                &&& records_of(records@) == deref(
                    store@,
                    page_of(positions@, offset as int, limit as int),
                )
            },
            Err(error) => {
                &&& !resolvable(
                    store@.len() as int,
                    page_of(positions@, offset as int, limit as int),
                )
                &&& error == EngineError::IndexCorruption
            },
        },
{
    let (start, end) = page_range(positions.len(), offset, limit);
    store.fetch(slice_subrange(positions, start, end))
}

/// The records of `store` named by the last `limit` of `positions`, oldest
/// first. The limit is not capped. Only those positions are followed: the
/// call fails with [`EngineError::IndexCorruption`] exactly when one of them
/// names no record of `store`.
pub fn last_n(store: &EventStore, positions: &[Position], limit: usize) -> (found: Result<
    Vec<Metadata>,
    EngineError,
>)
    ensures
        match found {
            Ok(records) => {
                &&& resolvable(store@.len() as int, last_of(positions@, limit as int))
                &&& records_of(records@) == deref(store@, last_of(positions@, limit as int))
            },
            Err(error) => {
                &&& !resolvable(store@.len() as int, last_of(positions@, limit as int))
                &&& error == EngineError::IndexCorruption
            },
        },
{
    let (start, end) = recent_range(positions.len(), limit);
    store.fetch(slice_subrange(positions, start, end))
}

} // verus!
