//! The over-time series.

use vstd::prelude::*;
use crate::api::stats::OvertimeSlot;
use crate::convert::domains::{lemma_positions_filter, positions};
use crate::convert::queries::lemma_filter_push;
use crate::convert::tables::{clamp_count, max0};
use crate::layout::{
    decode_overtime, le_i32, le_i64, overtime_at, OvertimeRecord, OVERTIME_BLOCKED, OVERTIME_CACHED,
    OVERTIME_SIZE, OVERTIME_TIMESTAMP, OVERTIME_TOTAL,
};

verus! {

/// `a - b`, or 0 when `b` is larger.
pub open spec fn sat_sub(a: u32, b: u32) -> u32 {
    if a >= b {
        (a - b) as u32
    } else {
        0
    }
}

/// The slot that an over-time record stands for: counts below zero read as
/// zero, and forwarded queries are those neither blocked nor cached.
pub open spec fn slot_of(r: OvertimeRecord) -> OvertimeSlot {
    let total = max0(r.total);
    let blocked = max0(r.blocked);
    let cached = max0(r.cached);
    OvertimeSlot {
        timestamp: r.timestamp as u64,
        total,
        blocked,
        cached,
        forwarded: sat_sub(sat_sub(total, blocked), cached),
    }
}

/// Forwarded queries never exceed the total; when blocked and cached
/// queries fit in the total, the three parts add up to it, and otherwise
/// nothing counts as forwarded.
pub proof fn lemma_slot_parts(r: OvertimeRecord)
    ensures
        slot_of(r).forwarded <= slot_of(r).total,
        slot_of(r).blocked + slot_of(r).cached <= slot_of(r).total ==> slot_of(r).forwarded
            + slot_of(r).blocked + slot_of(r).cached == slot_of(r).total,
        slot_of(r).blocked + slot_of(r).cached >= slot_of(r).total ==> slot_of(r).forwarded == 0,
{
}

/// Number of whole records in an over-time segment of `len` bytes.
pub open spec fn overtime_slot_count(len: int) -> int {
    len / OVERTIME_SIZE as int
}

/// Positions of the over-time records that have started (timestamp above 0).
pub open spec fn started_slots(b: Seq<u8>) -> Seq<int> {
    positions(overtime_slot_count(b.len() as int)).filter(|i: int| overtime_at(b, i).timestamp > 0)
}

/// Converts an over-time record.
pub fn convert_overtime_slot(r: &OvertimeRecord) -> (s: OvertimeSlot)
    ensures
        s == slot_of(*r),
{
    let total = clamp_count(r.total);
    let blocked = clamp_count(r.blocked);
    let cached = clamp_count(r.cached);
    OvertimeSlot {
        timestamp: r.timestamp as u64,
        total,
        blocked,
        cached,
        forwarded: total.saturating_sub(blocked).saturating_sub(cached),
    }
}

/// The slots of the over-time segment `b` that have started, in segment order.
pub open spec fn overtime_slots(b: Seq<u8>) -> Seq<OvertimeSlot> {
    started_slots(b).map_values(|i: int| slot_of(overtime_at(b, i)))
}

/// The slots of the over-time segment that have started, in segment order.
pub fn overtime_data(b: &[u8]) -> (r: Vec<OvertimeSlot>)
    ensures
        r@ == overtime_slots(b@),
{
    let n = b.len() / OVERTIME_SIZE;
    let ghost pred = |i: int| overtime_at(b@, i).timestamp > 0;
    let mut out: Vec<OvertimeSlot> = Vec::new();
    let ghost mut ids: Seq<int> = seq![];
    let mut i: usize = 0;
    while i < n
        invariant
            n == overtime_slot_count(b@.len() as int),
            n * OVERTIME_SIZE <= b@.len(),
            i <= n,
            pred == (|i: int| overtime_at(b@, i).timestamp > 0),
            ids == positions(i as int).filter(pred),
            out@ == ids.map_values(|i: int| slot_of(overtime_at(b@, i))),
        decreases n - i,
    {
        let rec = decode_overtime(b, i);
        proof {
            assert(positions(i + 1) =~= positions(i as int).push(i as int));
            lemma_filter_push(positions(i as int), i as int, pred);
        }
        if rec.timestamp > 0 {
            out.push(convert_overtime_slot(&rec));
            proof {
                ids = ids.push(i as int);
                assert(out@ =~= ids.map_values(|i: int| slot_of(overtime_at(b@, i))));
            }
        }
        i = i + 1;
    }
    out
}

/// `s` is the slot of the started over-time record at position `i` of `b`:
/// a whole record whose timestamp field is above zero, with that
/// timestamp and the record's total, blocked and cached counts (below zero
/// read as zero).
pub open spec fn slot_reports(b: Seq<u8>, i: int, s: OvertimeSlot) -> bool {
    let o = i * OVERTIME_SIZE;
    &&& 0 <= i < overtime_slot_count(b.len() as int)
    &&& le_i64(b, o + OVERTIME_TIMESTAMP) > 0
    &&& s.timestamp == le_i64(b, o + OVERTIME_TIMESTAMP) as u64
    &&& s.total == max0(le_i32(b, o + OVERTIME_TOTAL))
    &&& s.blocked == max0(le_i32(b, o + OVERTIME_BLOCKED))
    &&& s.cached == max0(le_i32(b, o + OVERTIME_CACHED))
}

/// The series has a slot for every started record, whatever its counts,
/// and nothing else: each slot is that of a started record, and the slots
/// follow the records' order in the segment.
pub proof fn lemma_overtime_series(b: Seq<u8>)
    ensures
        forall|i: int|
            0 <= i < overtime_slot_count(b.len() as int) && le_i64(b, i * OVERTIME_SIZE + OVERTIME_TIMESTAMP) > 0
                ==> #[trigger] has_slot_for(b, i),
        forall|j: int| 0 <= j < overtime_slots(b).len() ==> slot_reports(b, #[trigger] started_slots(b)[j], overtime_slots(b)[j]),
        forall|j: int, k: int| 0 <= j < k < overtime_slots(b).len() ==> #[trigger] started_slots(b)[j] < #[trigger] started_slots(b)[k],
{
    let n = overtime_slot_count(b.len() as int);
    let pred = |i: int| overtime_at(b, i).timestamp > 0;
    lemma_positions_filter(n, pred);
    positions(n).filter_lemma(pred);
    assert forall|i: int|
        0 <= i < n && le_i64(b, i * OVERTIME_SIZE + OVERTIME_TIMESTAMP) > 0 implies #[trigger] has_slot_for(b, i) by {
        assert(pred(i));
        assert(started_slots(b).contains(i));
        let k = choose|k: int| 0 <= k < started_slots(b).len() && started_slots(b)[k] == i;
        assert(slot_reports(b, i, overtime_slots(b)[k]));
    }
    assert forall|j: int| 0 <= j < overtime_slots(b).len() implies slot_reports(b, #[trigger] started_slots(b)[j], overtime_slots(b)[j]) by {
        assert(pred(started_slots(b)[j]));
    }
}

/// The series holds a slot for the record at position `i`.
pub open spec fn has_slot_for(b: Seq<u8>, i: int) -> bool {
    exists|j: int| 0 <= j < overtime_slots(b).len() && #[trigger] slot_reports(b, i, overtime_slots(b)[j])
}

} // verus!
