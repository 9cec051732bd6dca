//! Per-domain statistics.

use vstd::prelude::*;
use crate::api::stats::DomainStats;
use crate::convert::queries::lemma_filter_push;
use crate::convert::tables::{
    clamp_count, domain_count, max0, read_owned, str_at, str_ok, str_read, Tables,
};
use crate::convert::top::{is_top_order, lemma_top_order_prefix, ranks_before, top_order};
use crate::error::FtlError;
use crate::layout::{
    count_records, decode_domain, domain_at, read_u32, DomainRecord, COUNTERS_DOMAINS_MAX,
    DOMAIN_SIZE,
};
use crate::raw::MAGICBYTE;

verus! {

/// The positions `0..n`.
pub open spec fn positions(n: int) -> Seq<int> {
    Seq::new(n as nat, |i: int| i)
}

/// What is kept of the positions `0..n` is a set of positions `0..n`, in
/// increasing order, and every position that passes the test is kept.
pub proof fn lemma_positions_filter(n: int, p: spec_fn(int) -> bool)
    requires
        0 <= n,
    ensures
        forall|k: int| 0 <= k < positions(n).filter(p).len() ==> 0 <= #[trigger] positions(n).filter(p)[k] < n,
        forall|a: int, b: int| 0 <= a < b < positions(n).filter(p).len() ==> #[trigger] positions(n).filter(p)[a] < #[trigger] positions(n).filter(p)[b],
        forall|i: int| 0 <= i < n && p(i) ==> #[trigger] positions(n).filter(p).contains(i),
    decreases n,
{
    if n > 0 {
        lemma_positions_filter(n - 1, p);
        assert(positions(n) =~= positions(n - 1).push(n - 1));
        lemma_filter_push(positions(n - 1), n - 1, p);
        let f = positions(n - 1).filter(p);
        assert forall|i: int| 0 <= i < n && p(i) implies #[trigger] positions(n).filter(p).contains(i) by {
            if i < n - 1 {
                assert(f.contains(i));
                let k = choose|k: int| 0 <= k < f.len() && f[k] == i;
                assert(positions(n).filter(p)[k] == i);
            } else {
                assert(positions(n).filter(p)[f.len() as int] == i);
            }
        }
    }
}

/// `r` is the conversion of domain record `d`.
pub open spec fn domain_is(t: Tables, d: DomainRecord, r: DomainStats) -> bool {
    &&& r.domain@ == str_at(t, d.domain_pos)
    &&& r.count == max0(d.count)
    &&& r.blocked_count == max0(d.blocked_count)
    &&& r.last_query == d.last_query
}

/// Whether the domain record at position `i` is listed: it is in use, its
/// name reads, and it has no blocked queries unless blocked ones are wanted.
pub open spec fn domain_selected(t: Tables, i: int, include_blocked: bool) -> bool {
    let d = domain_at(t.domains@, i);
    &&& d.magic == MAGICBYTE
    &&& str_ok(t, d.domain_pos)
    &&& include_blocked || max0(d.blocked_count) == 0
}

/// Positions of the listed domain records, in segment order.
pub open spec fn domain_candidates(t: Tables, include_blocked: bool) -> Seq<int> {
    positions(domain_count(t)).filter(|i: int| domain_selected(t, i, include_blocked))
}

/// Query counts of the domain records at positions `ids`.
pub open spec fn domain_counts(t: Tables, ids: Seq<int>) -> Seq<u32> {
    ids.map_values(|i: int| max0(domain_at(t.domains@, i).count))
}

/// Converts a domain record, reading its name.
pub fn convert_domain(t: &Tables, d: &DomainRecord) -> (r: Result<DomainStats, FtlError>)
    ensures
        r is Ok <==> str_ok(*t, d.domain_pos),
        r matches Ok(v) ==> domain_is(*t, *d, v),
        r matches Err(e) ==> str_read(*t, d.domain_pos, Err(e)),
{
    let domain = match read_owned(t, d.domain_pos) {
        Ok(s) => s,
        Err(e) => return Err(e),
    };
    Ok(DomainStats {
        domain,
        count: clamp_count(d.count),
        blocked_count: clamp_count(d.blocked_count),
        last_query: d.last_query,
    })
}

/// A copy of a domain's statistics.
pub fn copy_domain_stats(d: &DomainStats) -> (r: DomainStats)
    ensures
        r.domain@ == d.domain@,
        r.count == d.count,
        r.blocked_count == d.blocked_count,
        r.last_query == d.last_query,
{
    DomainStats {
        domain: d.domain.clone(),
        count: d.count,
        blocked_count: d.blocked_count,
        last_query: d.last_query,
    }
}

/// `r` lists the `limit` listed domains with the most queries, most first,
/// earlier records first among equal counts.
pub open spec fn top_domains_are(t: Tables, limit: int, include_blocked: bool, r: Seq<DomainStats>) -> bool {
    let ids = domain_candidates(t, include_blocked);
    exists|ord: Seq<usize>|
        {
            &&& is_top_order(domain_counts(t, ids), limit, ord)
            &&& r.len() == ord.len()
            &&& forall|q: int|
                0 <= q < ord.len() ==> domain_is(t, domain_at(t.domains@, ids[ord[q] as int]), #[trigger] r[q])
        }
}

/// Two domain results describe the same domain with the same figures.
pub open spec fn same_domain_stats(a: DomainStats, b: DomainStats) -> bool {
    &&& a.domain@ == b.domain@
    &&& a.count == b.count
    &&& a.blocked_count == b.blocked_count
    &&& a.last_query == b.last_query
}

/// On the same segments, a smaller limit gives a prefix of what a larger
/// limit gives (and limit 0 gives nothing).
pub proof fn lemma_top_domains_prefix(
    t: Tables,
    k1: int,
    k2: int,
    include_blocked: bool,
    r1: Seq<DomainStats>,
    r2: Seq<DomainStats>,
)
    requires
        0 <= k1 <= k2,
        top_domains_are(t, k1, include_blocked, r1),
        top_domains_are(t, k2, include_blocked, r2),
    ensures
        r1.len() == (if k1 < r2.len() { k1 } else { r2.len() as int }),
        forall|q: int| 0 <= q < r1.len() ==> same_domain_stats(#[trigger] r1[q], r2[q]),
{
    let ids = domain_candidates(t, include_blocked);
    let c = domain_counts(t, ids);
    let o1 = choose|ord: Seq<usize>|
        {
            &&& is_top_order(c, k1, ord)
            &&& r1.len() == ord.len()
            &&& forall|q: int|
                0 <= q < ord.len() ==> domain_is(t, domain_at(t.domains@, ids[ord[q] as int]), #[trigger] r1[q])
        };
    let o2 = choose|ord: Seq<usize>|
        {
            &&& is_top_order(c, k2, ord)
            &&& r2.len() == ord.len()
            &&& forall|q: int|
                0 <= q < ord.len() ==> domain_is(t, domain_at(t.domains@, ids[ord[q] as int]), #[trigger] r2[q])
        };
    positions(domain_count(t)).lemma_filter_len(|i: int| domain_selected(t, i, include_blocked));
    assert(ids.len() <= positions(domain_count(t)).len());
    lemma_top_order_prefix(c, k1, k2, o1, o2);
    assert forall|q: int| 0 <= q < r1.len() implies same_domain_stats(#[trigger] r1[q], r2[q]) by {
        assert(o1[q] == o2.take(o1.len() as int)[q]);
        assert(domain_is(t, domain_at(t.domains@, ids[o1[q] as int]), r1[q]));
        assert(domain_is(t, domain_at(t.domains@, ids[o2[q] as int]), r2[q]));
    }
}

/// The `limit` domains with the most queries, most first (a stable order
/// among equal counts: earlier records first). Only records in use whose
/// name reads are considered; with `include_blocked` false, only those
/// without blocked queries.
pub fn top_domains(t: &Tables, limit: usize, include_blocked: bool) -> (r: Vec<DomainStats>)
    ensures
        top_domains_are(*t, limit as int, include_blocked, r@),
        forall|a: int, b: int| 0 <= a < b < r@.len() ==> r@[a].count >= r@[b].count,
        !include_blocked ==> forall|q: int| 0 <= q < r@.len() ==> (#[trigger] r@[q]).blocked_count
            == 0,
{
    let n = count_records(t.domains.len(), DOMAIN_SIZE, read_u32(t.counters, COUNTERS_DOMAINS_MAX) as usize);
    let ghost pred = |i: int| domain_selected(*t, i, include_blocked);
    let mut items: Vec<DomainStats> = Vec::new();
    let mut counts: Vec<u32> = Vec::new();
    let ghost mut ids: Seq<int> = seq![];
    let mut i: usize = 0;
    while i < n
        invariant
            n == domain_count(*t),
            n * DOMAIN_SIZE <= t.domains@.len(),
            i <= n,
            pred == (|i: int| domain_selected(*t, i, include_blocked)),
            ids == positions(i as int).filter(pred),
            items@.len() == ids.len(),
            counts@ == domain_counts(*t, ids),
            forall|j: int| 0 <= j < ids.len() ==> domain_is(*t, domain_at(t.domains@, ids[j]), #[trigger] items@[j]),
        decreases n - i,
    {
        let rec = decode_domain(t.domains, i);
        proof {
            assert(positions(i + 1) =~= positions(i as int).push(i as int));
            lemma_filter_push(positions(i as int), i as int, pred);
        }
        if rec.magic == MAGICBYTE {
            match convert_domain(t, &rec) {
                Ok(ds) => {
                    if include_blocked || ds.blocked_count == 0 {
                        let ghost old_items = items@;
                        counts.push(ds.count);
                        items.push(ds);
                        proof {
                            ids = ids.push(i as int);
                            assert(counts@ =~= domain_counts(*t, ids));
                            assert forall|j: int| 0 <= j < ids.len() implies domain_is(*t, domain_at(t.domains@, ids[j]), #[trigger] items@[j]) by {
                                if j < ids.len() - 1 {
                                    assert(items@[j] == old_items[j]);
                                }
                            }
                        }
                    }
                },
                Err(_) => {},
            }
        }
        i = i + 1;
    }
    let ord = top_order(&counts, limit);
    let mut out: Vec<DomainStats> = Vec::new();
    let mut q: usize = 0;
    while q < ord.len()
        invariant
            is_top_order(counts@, limit as int, ord@),
            items@.len() == ids.len(),
            counts@ == domain_counts(*t, ids),
            forall|j: int| 0 <= j < ids.len() ==> domain_is(*t, domain_at(t.domains@, ids[j]), #[trigger] items@[j]),
            q <= ord.len(),
            out@.len() == q,
            forall|k: int| 0 <= k < q ==> domain_is(*t, domain_at(t.domains@, ids[ord@[k] as int]), #[trigger] out@[k]),
            forall|k: int| 0 <= k < q ==> (#[trigger] out@[k]).count == counts@[ord@[k] as int],
            forall|k: int| 0 <= k < q ==> (#[trigger] out@[k]).blocked_count == items@[ord@[k] as int].blocked_count,
            n == domain_count(*t),
            ids == positions(n as int).filter(pred),
        decreases ord.len() - q,
    {
        let p = ord[q];
        let d = copy_domain_stats(&items[p]);
        out.push(d);
        q = q + 1;
    }
    proof {
        assert(ids == domain_candidates(*t, include_blocked));
        assert(is_top_order(domain_counts(*t, ids), limit as int, ord@));
        assert(forall|k: int| 0 <= k < ord@.len() ==> domain_is(*t, domain_at(t.domains@, ids[ord@[k] as int]), #[trigger] out@[k]));
        assert forall|a: int, b: int| 0 <= a < b < out@.len() implies out@[a].count >= out@[b].count by {
            assert(ranks_before(counts@, ord@[a] as int, ord@[b] as int));
        }
        if !include_blocked {
            assert forall|k: int| 0 <= k < out@.len() implies (#[trigger] out@[k]).blocked_count == 0 by {
                let j = ord@[k] as int;
                positions(n as int).lemma_filter_pred(pred, j);
                assert(pred(ids[j]));
                assert(domain_is(*t, domain_at(t.domains@, ids[j]), items@[j]));
            }
        }
    }
    out
}

} // verus!
