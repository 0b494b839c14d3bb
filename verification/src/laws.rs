//! Laws of the log, proved about its mathematical state.
//!
//! The executable engine is tied to the state by its contracts: a new engine
//! has the empty state, and each submission takes the state `s` to
//! `s.submit(record)`. So what is proved here of every state that submissions
//! can reach holds of every engine.

use vstd::prelude::*;

use crate::index::{lemma_index_of_pairs_value, positions_in};
use crate::page::{clamp_limit, last_of, page_len, page_of, recent_len, MAX_PAGE_SIZE};
use crate::record::{Position, Record};
use crate::snapshot::Image;
use crate::state::{index_append, key_of, IndexName, LogState};
use crate::store::{deref, resolvable};

verus! {

/// The state of a log to which `records` have been submitted, in order,
/// starting from the empty log.
pub open spec fn replay(records: Seq<Record>) -> LogState
    decreases records.len(),
{
    if records.len() == 0 {
        LogState::empty()
    } else {
        replay(records.drop_last()).submit(records.last())
    }
}

/// The positions, in increasing order, of the records of `records` that the
/// index `name` files under `key`.
pub open spec fn positions_where(records: Seq<Record>, name: IndexName, key: Seq<u8>) -> Seq<
    Position,
>
    decreases records.len(),
{
    if records.len() == 0 {
        Seq::empty()
    } else if key_of(name, records.last()) == key {
        positions_where(records.drop_last(), name, key).push((records.len() - 1) as Position)
    } else {
        positions_where(records.drop_last(), name, key)
    }
}

/// The first `count` full-size pages of `items`, one after the other.
pub open spec fn pages_concat<T>(items: Seq<T>, count: nat) -> Seq<T>
    decreases count,
{
    if count == 0 {
        Seq::empty()
    } else {
        pages_concat(items, (count - 1) as nat) + page_of(
            items,
            (count - 1) * MAX_PAGE_SIZE,
            MAX_PAGE_SIZE as int,
        )
    }
}

/// The first `count` full-size pages of the records filed under `key`, one
/// after the other.
pub open spec fn key_pages(state: LogState, name: IndexName, key: Seq<u8>, count: nat) -> Seq<
    Record,
>
    decreases count,
{
    if count == 0 {
        Seq::empty()
    } else {
        key_pages(state, name, key, (count - 1) as nat) + state.by_key(
            name,
            key,
            (count - 1) * MAX_PAGE_SIZE,
            MAX_PAGE_SIZE as int,
        )
    }
}

/// Submitting a record keeps the invariant of the log.
pub proof fn lemma_submit_preserves_wf(state: LogState, record: Record)
    requires
        state.wf(),
        state.log.len() < usize::MAX,
    ensures
        state.submit(record).wf(),
{
    let after = state.submit(record);
    let len = after.log.len() as int;
    assert forall|key: Seq<u8>| #[trigger] after.by_subject.contains_key(key) implies {
        &&& after.by_subject[key].len() > 0
        &&& resolvable(len, after.by_subject[key])
    } by {
        if key != record.subject {
            assert(state.by_subject.contains_key(key));
        }
    }
    assert forall|key: Seq<u8>| #[trigger] after.by_caller.contains_key(key) implies {
        &&& after.by_caller[key].len() > 0
        &&& resolvable(len, after.by_caller[key])
    } by {
        if key != record.caller {
            assert(state.by_caller.contains_key(key));
        }
    }
}

/// Every state that submissions reach from the empty log satisfies the
/// invariant of the log, and its log holds the submitted records in order.
pub proof fn lemma_replay(records: Seq<Record>)
    requires
        records.len() <= usize::MAX,
    ensures
        replay(records).wf(),
        replay(records).log == records,
    decreases records.len(),
{
    if records.len() > 0 {
        lemma_replay(records.drop_last());
        lemma_submit_preserves_wf(replay(records.drop_last()), records.last());
    }
}

/// Counting from zero, the `k`-th submission to a new log is given the
/// position `k`, and the record it submits stands at that position.
pub proof fn law_monotonic_positions(records: Seq<Record>, k: int)
    requires
        records.len() <= usize::MAX,
        0 <= k < records.len(),
    ensures
        replay(records.take(k)).next_position() == k,
        replay(records.take(k + 1)) == replay(records.take(k)).submit(records[k]),
        replay(records.take(k + 1)).log[k] == records[k],
{
    lemma_replay(records.take(k));
    assert(records.take(k + 1).drop_last() == records.take(k));
}

/// Each index of a log reached by submissions holds, for every key, exactly
/// the positions of the records filed under that key, in increasing order;
/// and it holds a key exactly when a record is filed under it.
pub proof fn law_index_matches_log(records: Seq<Record>, name: IndexName, key: Seq<u8>)
    requires
        records.len() <= usize::MAX,
    ensures
        replay(records).positions(name, key) == positions_where(records, name, key),
        replay(records).keys(name).contains(key) <==> exists|p: int|
            0 <= p < records.len() && key_of(name, #[trigger] records[p]) == key,
        replay(records).all_by_key(name, key) == records.filter(
            |r: Record| key_of(name, r) == key,
        ),
    decreases records.len(),
{
    reveal(Seq::filter);
    if records.len() > 0 {
        let front = records.drop_last();
        law_index_matches_log(front, name, key);
        lemma_replay(front);
        lemma_positions_where(front, name, key);
        if replay(front).keys(name).contains(key) {
            let p = choose|p: int|
                0 <= p < front.len() && key_of(name, #[trigger] front[p]) == key;
            assert(key_of(name, records[p]) == key);
        }
        if exists|p: int| 0 <= p < records.len() && key_of(name, #[trigger] records[p]) == key {
            let p = choose|p: int|
                0 <= p < records.len() && key_of(name, #[trigger] records[p]) == key;
            if p < front.len() {
                assert(key_of(name, front[p]) == key);
            }
        }
        let here = positions_where(front, name, key);
        assert(deref(records, here) == deref(front, here));
    }
}

/// The positions filed under a key name records of the log that are filed
/// under that key, and they increase; no such record is left out.
pub proof fn lemma_positions_where(records: Seq<Record>, name: IndexName, key: Seq<u8>)
    requires
        records.len() <= usize::MAX,
    ensures
        forall|i: int|
            0 <= i < positions_where(records, name, key).len() ==> {
                &&& (#[trigger] positions_where(records, name, key)[i]) < records.len()
                &&& key_of(name, records[positions_where(records, name, key)[i] as int]) == key
            },
        forall|i: int, j: int|
            0 <= i < j < positions_where(records, name, key).len() ==> positions_where(
                records,
                name,
                key,
            )[i] < positions_where(records, name, key)[j],
        forall|p: int|
            0 <= p < records.len() && key_of(name, #[trigger] records[p]) == key
                ==> positions_where(records, name, key).contains(p as Position),
    decreases records.len(),
{
    if records.len() > 0 {
        let front = records.drop_last();
        lemma_positions_where(front, name, key);
        let here = positions_where(records, name, key);
        let there = positions_where(front, name, key);
        assert forall|p: int|
            0 <= p < records.len() && key_of(name, #[trigger] records[p])
                == key implies here.contains(p as Position) by {
            if p < front.len() {
                assert(key_of(name, front[p]) == key);
                let i = choose|i: int| 0 <= i < there.len() && there[i] == p as Position;
                assert(here[i] == p as Position);
            } else {
                assert(here[here.len() - 1] == p as Position);
            }
        }
    }
}

/// Once a record has been submitted, it is the last of the records filed
/// under its subject and under its caller, and its position is the last of
/// their positions.
pub proof fn law_index_consistency(state: LogState, record: Record, name: IndexName)
    requires
        state.log.len() <= usize::MAX,
    ensures
        ({
            let after = state.submit(record);
            let key = key_of(name, record);
            &&& after.keys(name).contains(key)
            &&& after.positions(name, key).last() == state.next_position()
            &&& after.log[state.next_position() as int] == record
            &&& after.all_by_key(name, key).last() == record
            &&& after.last_n_by_key(name, key, 1) == seq![record]
        }),
{
    let held = state.submit(record).positions(name, key_of(name, record));
    assert(last_of(held, 1) == seq![state.next_position()]);
}

/// Where the records filed under the key of a submitted record fit on one
/// page, the page at offset zero ends with that record.
pub proof fn law_first_page_ends_with_submitted(
    state: LogState,
    record: Record,
    name: IndexName,
    limit: int,
)
    requires
        state.log.len() <= usize::MAX,
        state.submit(record).positions(name, key_of(name, record)).len() <= clamp_limit(limit),
    ensures
        state.submit(record).by_key(name, key_of(name, record), 0, limit).last() == record,
{
    let held = state.submit(record).positions(name, key_of(name, record));
    law_index_consistency(state, record, name);
    assert(page_of(held, 0, limit) == held);
}

/// A key under which no record was submitted is held by no index, and every
/// query for it gives nothing.
pub proof fn law_unobserved_key(records: Seq<Record>, name: IndexName, key: Seq<u8>)
    requires
        records.len() <= usize::MAX,
        forall|p: int| 0 <= p < records.len() ==> key_of(name, #[trigger] records[p]) != key,
    ensures
        !replay(records).keys(name).contains(key),
        forall|offset: int, limit: int|
            0 <= offset && 0 <= limit ==> (#[trigger] replay(records).by_key(
                name,
                key,
                offset,
                limit,
            )).len() == 0,
        forall|limit: int|
            0 <= limit ==> (#[trigger] replay(records).last_n_by_key(name, key, limit)).len() == 0,
{
    law_index_matches_log(records, name, key);
}

/// A page holds as many items as the limit, the maximum page size and the
/// items from the offset on allow, and none where the offset is at or past
/// the end. Its items are those of the sequence from the offset on.
pub proof fn law_page_length<T>(items: Seq<T>, offset: int, limit: int)
    requires
        0 <= offset,
        0 <= limit,
    ensures
        page_of(items, offset, limit).len() == page_len(items.len() as int, offset, limit),
        page_of(items, offset, limit).len() <= MAX_PAGE_SIZE,
        forall|i: int|
            0 <= i < page_of(items, offset, limit).len() ==> page_of(items, offset, limit)[i]
                == items[offset + i],
{
}

/// A page of the records of a key holds as many records as the limit, the
/// maximum page size and the records of the key from the offset on allow.
pub proof fn law_by_key_length(
    state: LogState,
    name: IndexName,
    key: Seq<u8>,
    offset: int,
    limit: int,
)
    requires
        0 <= offset,
        0 <= limit,
    ensures
        state.by_key(name, key, offset, limit).len() == page_len(
            state.positions(name, key).len() as int,
            offset,
            limit,
        ),
{
}

/// The full-size pages of a sequence, taken one after the other from offset
/// zero, reproduce the sequence from its start, and all of it once they reach
/// its end.
pub proof fn law_pages_cover<T>(items: Seq<T>, count: nat)
    ensures
        count * MAX_PAGE_SIZE <= items.len() ==> pages_concat(items, count) == items.take(
            count * MAX_PAGE_SIZE,
        ),
        count * MAX_PAGE_SIZE >= items.len() ==> pages_concat(items, count) == items,
    decreases count,
{
    if count > 0 {
        law_pages_cover(items, (count - 1) as nat);
        let start = (count - 1) * MAX_PAGE_SIZE;
        let next = page_of(items, start, MAX_PAGE_SIZE as int);
        if start < items.len() <= count * MAX_PAGE_SIZE {
            assert(items.take(start) + next == items);
        } else if count * MAX_PAGE_SIZE <= items.len() {
            assert(items.take(start) + next == items.take(count * MAX_PAGE_SIZE));
        }
    }
}

/// The full-size pages of the records of a key, taken one after the other
/// from offset zero, reproduce all records filed under the key, in the order
/// of their positions.
pub proof fn law_key_pages_cover(state: LogState, name: IndexName, key: Seq<u8>, count: nat)
    ensures
        key_pages(state, name, key, count) == deref(
            state.log,
            pages_concat(state.positions(name, key), count),
        ),
        count * MAX_PAGE_SIZE >= state.positions(name, key).len() ==> key_pages(
            state,
            name,
            key,
            count,
        ) == state.all_by_key(name, key),
    decreases count,
{
    let held = state.positions(name, key);
    if count > 0 {
        law_key_pages_cover(state, name, key, (count - 1) as nat);
        let front = pages_concat(held, (count - 1) as nat);
        let next = page_of(held, (count - 1) * MAX_PAGE_SIZE, MAX_PAGE_SIZE as int);
        assert(deref(state.log, front + next) == deref(state.log, front) + deref(state.log, next));
    }
    law_pages_cover(held, count);
}

/// The query for the last `limit` records of a log reached by submissions
/// gives the most recently submitted records, as many as the limit and the
/// log allow, in the order of their submission.
pub proof fn law_recency(records: Seq<Record>, limit: int)
    requires
        records.len() <= usize::MAX,
        0 <= limit,
    ensures
        ({
            let recent = replay(records).last_n(limit);
            let count = recent_len(records.len() as int, limit);
            &&& recent.len() == count
            &&& forall|i: int| 0 <= i < count ==> recent[i] == records[records.len() - count + i]
        }),
{
    lemma_replay(records);
}

/// An image of a log can be applied, and applying it gives the state of that
/// log back, so that every query has the answer it had before the image was
/// taken.
pub proof fn law_round_trip(state: LogState, image: Image)
    requires
        state.wf(),
        image.captures(state),
    ensures
        image.valid(),
        image.restored() == state,
        forall|name: IndexName, key: Seq<u8>, offset: int, limit: int|
            #[trigger] image.restored().by_key(name, key, offset, limit) == state.by_key(
                name,
                key,
                offset,
                limit,
            ),
        forall|limit: int| #[trigger] image.restored().last_n(limit) == state.last_n(limit),
        forall|name: IndexName, key: Seq<u8>, limit: int|
            #[trigger] image.restored().last_n_by_key(name, key, limit) == state.last_n_by_key(
                name,
                key,
                limit,
            ),
        forall|name: IndexName| #[trigger] image.restored().keys(name) == state.keys(name),
{
    assert forall|i: int| 0 <= i < image.index_by_subject.len() implies (
    #[trigger] image.index_by_subject[i]).1.len() > 0 && resolvable(
        image.log.len() as int,
        image.index_by_subject[i].1,
    ) by {
        lemma_index_of_pairs_value(image.index_by_subject, i);
    }
    assert forall|i: int| 0 <= i < image.index_by_caller.len() implies (
    #[trigger] image.index_by_caller[i]).1.len() > 0 && resolvable(
        image.log.len() as int,
        image.index_by_caller[i].1,
    ) by {
        lemma_index_of_pairs_value(image.index_by_caller, i);
    }
}

/// An image of a log reached by submissions can be applied, and applying it
/// gives the state of that log back.
pub proof fn law_round_trip_after_submissions(records: Seq<Record>, image: Image)
    requires
        records.len() <= usize::MAX,
        image.captures(replay(records)),
    ensures
        image.valid(),
        image.restored() == replay(records),
{
    lemma_replay(records);
    law_round_trip(replay(records), image);
}

} // verus!
