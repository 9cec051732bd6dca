//! Per-upstream-server statistics.

use vstd::prelude::*;
use crate::api::stats::UpstreamStats;
use crate::convert::domains::{lemma_positions_filter, positions};
use crate::convert::queries::lemma_filter_push;
use crate::convert::tables::{
    clamp_count, max0, opt_view, read_owned, str_at, str_ok, str_read, upstream_count, Tables,
};
use crate::error::FtlError;
use crate::layout::{
    byte_at, count_records, decode_upstream, le_i32, le_u16, le_u64, read_u32, upstream_at,
    UpstreamRecord, COUNTERS_UPSTREAMS_MAX, UPSTREAM_COUNT, UPSTREAM_FAILED, UPSTREAM_IP_POS,
    UPSTREAM_LAST_QUERY, UPSTREAM_MAGIC, UPSTREAM_PORT, UPSTREAM_RTIME, UPSTREAM_SIZE,
};
use crate::raw::MAGICBYTE;

verus! {

/// `r` is the conversion of upstream record `u`.
pub open spec fn upstream_is(t: Tables, u: UpstreamRecord, r: UpstreamStats) -> bool {
    &&& r.ip@ == str_at(t, u.ip_pos)
    &&& opt_view(r.name) == (if u.name_pos > 0 && str_ok(t, u.name_pos) {
        Some(str_at(t, u.name_pos))
    } else {
        None
    })
    &&& r.port == u.port
    &&& r.count == max0(u.count)
    &&& r.failed == max0(u.failed)
    &&& r.response_time_avg_ms == u.rtime
    &&& r.last_query == u.last_query
}

/// Whether the upstream record at position `i` is listed: in use and its
/// address reads.
pub open spec fn upstream_selected(t: Tables, i: int) -> bool {
    upstream_at(t.upstreams@, i).magic == MAGICBYTE && str_ok(t, upstream_at(t.upstreams@, i).ip_pos)
}

/// Positions of the listed upstream records, in segment order.
pub open spec fn upstream_candidates(t: Tables) -> Seq<int> {
    positions(upstream_count(t)).filter(|i: int| upstream_selected(t, i))
}

/// Converts an upstream record: its address must read; a host name that
/// does not read is left out.
pub fn convert_upstream(t: &Tables, u: &UpstreamRecord) -> (r: Result<UpstreamStats, FtlError>)
    ensures
        r is Ok <==> str_ok(*t, u.ip_pos),
        r matches Ok(v) ==> upstream_is(*t, *u, v),
        r matches Err(e) ==> str_read(*t, u.ip_pos, Err(e)),
{
    let ip = match read_owned(t, u.ip_pos) {
        Ok(s) => s,
        Err(e) => return Err(e),
    };
    let name = if u.name_pos > 0 {
        match read_owned(t, u.name_pos) {
            Ok(s) => Some(s),
            Err(_) => None,
        }
    } else {
        None
    };
    Ok(UpstreamStats {
        ip,
        name,
        port: u.port,
        count: clamp_count(u.count),
        failed: clamp_count(u.failed),
        response_time_avg_ms: u.rtime,
        last_query: u.last_query,
    })
}

/// `r` lists, in segment order, the conversions of the upstream records
/// in use whose address reads.
pub open spec fn upstreams_are(t: Tables, r: Seq<UpstreamStats>) -> bool {
    &&& r.len() == upstream_candidates(t).len()
    &&& forall|j: int|
        0 <= j < r.len() ==> upstream_is(t, upstream_at(t.upstreams@, upstream_candidates(t)[j]), #[trigger] r[j])
}

/// Statistics of every upstream record in use whose address reads, in
/// segment order.
pub fn upstreams(t: &Tables) -> (r: Vec<UpstreamStats>)
    ensures
        upstreams_are(*t, r@),
{
    let n = count_records(t.upstreams.len(), UPSTREAM_SIZE, read_u32(t.counters, COUNTERS_UPSTREAMS_MAX) as usize);
    let ghost pred = |i: int| upstream_selected(*t, i);
    let mut out: Vec<UpstreamStats> = Vec::new();
    let ghost mut ids: Seq<int> = seq![];
    let mut i: usize = 0;
    while i < n
        invariant
            n == upstream_count(*t),
            n * UPSTREAM_SIZE <= t.upstreams@.len(),
            i <= n,
            pred == (|i: int| upstream_selected(*t, i)),
            ids == positions(i as int).filter(pred),
            out@.len() == ids.len(),
            forall|j: int| 0 <= j < ids.len() ==> upstream_is(*t, upstream_at(t.upstreams@, ids[j]), #[trigger] out@[j]),
        decreases n - i,
    {
        let rec = decode_upstream(t.upstreams, i);
        proof {
            assert(positions(i + 1) =~= positions(i as int).push(i as int));
            lemma_filter_push(positions(i as int), i as int, pred);
        }
        if rec.magic == MAGICBYTE {
            match convert_upstream(t, &rec) {
                Ok(us) => {
                    let ghost old_out = out@;
                    out.push(us);
                    proof {
                        ids = ids.push(i as int);
                        assert forall|j: int| 0 <= j < ids.len() implies upstream_is(*t, upstream_at(t.upstreams@, ids[j]), #[trigger] out@[j]) by {
                            if j < ids.len() - 1 {
                                assert(out@[j] == old_out[j]);
                            }
                        }
                    }
                },
                Err(_) => {},
            }
        }
        i = i + 1;
    }
    assert(ids == upstream_candidates(*t));
    out
}

/// `u` reports the upstream record at position `i` of the segment: a
/// record in use, within the announced count, whose address is the string
/// at its `ippos` and whose port, query and failure counts (below zero read
/// as zero), average response time (`rtime`) and last query time
/// (`lastQuery`) are the fields at their offsets in the record.
pub open spec fn reports_upstream(t: Tables, i: int, u: UpstreamStats) -> bool {
    let b = t.upstreams@;
    let o = i * UPSTREAM_SIZE;
    &&& 0 <= i < upstream_count(t)
    &&& byte_at(b, o + UPSTREAM_MAGIC) == MAGICBYTE
    &&& u.ip@ == str_at(t, le_u64(b, o + UPSTREAM_IP_POS))
    &&& u.port == le_u16(b, o + UPSTREAM_PORT)
    &&& u.count == max0(le_i32(b, o + UPSTREAM_COUNT))
    &&& u.failed == max0(le_i32(b, o + UPSTREAM_FAILED))
    &&& u.response_time_avg_ms.bits == le_u64(b, o + UPSTREAM_RTIME)
    &&& u.last_query.bits == le_u64(b, o + UPSTREAM_LAST_QUERY)
}

/// Each listed upstream reports one upstream record of the segment, the
/// listed records follow the segment's order, and every record in use whose
/// address reads is listed.
pub proof fn lemma_upstreams_fields(t: Tables, r: Seq<UpstreamStats>)
    requires
        upstreams_are(t, r),
    ensures
        forall|j: int| 0 <= j < r.len() ==> reports_upstream(t, upstream_candidates(t)[j], #[trigger] r[j]),
        forall|j: int, k: int| 0 <= j < k < r.len() ==> #[trigger] upstream_candidates(t)[j] < #[trigger] upstream_candidates(t)[k],
        forall|i: int| 0 <= i < upstream_count(t) && #[trigger] upstream_selected(t, i) ==> upstream_candidates(t).contains(i),
{
    let n = upstream_count(t);
    let pred = |i: int| upstream_selected(t, i);
    lemma_positions_filter(n, pred);
    positions(n).filter_lemma(pred);
    assert forall|j: int| 0 <= j < r.len() implies reports_upstream(t, upstream_candidates(t)[j], #[trigger] r[j]) by {
        assert(pred(upstream_candidates(t)[j]));
        assert(upstream_is(t, upstream_at(t.upstreams@, upstream_candidates(t)[j]), r[j]));
    }
    assert forall|i: int| 0 <= i < n && #[trigger] upstream_selected(t, i) implies upstream_candidates(t).contains(i) by {
        assert(pred(i));
    }
}

} // verus!
