//! Per-client statistics.

use vstd::prelude::*;
use crate::api::stats::ClientStats;
use crate::convert::domains::{lemma_positions_filter, positions};
use crate::convert::queries::lemma_filter_push;
use crate::convert::tables::{
    clamp_count, client_count_of, max0, opt_view, read_owned, str_at, str_ok, str_read, Tables,
};
use crate::convert::top::{is_top_order, lemma_top_order_prefix, ranks_before, top_order};
use crate::error::FtlError;
use crate::layout::{
    client_blocked, client_count, client_hwaddr, client_hwlen, client_ip_pos,
    client_last_query, client_name_pos, count_records, decode_client, le_i32, read_u32,
    CLIENT_BLOCKED, CLIENT_COUNT, CLIENT_SIZE, COUNTERS_CLIENTS_MAX,
};
use crate::raw::HWADDR_LEN;
use crate::text::{colon_hex, colon_hex_string};

verus! {

/// The hardware address of the client at position `i`, written as a MAC
/// address, when its recorded length is between 1 and the field's size.
pub open spec fn client_mac(b: Seq<u8>, i: int) -> Option<Seq<char>> {
    let len = client_hwlen(b, i);
    if len > 0 && len as int <= HWADDR_LEN {
        Some(colon_hex(client_hwaddr(b, i).take(len as int)))
    } else {
        None
    }
}

/// The host name of the client at position `i`, when it has one that reads.
pub open spec fn client_opt_name(t: Tables, i: int) -> Option<Seq<char>> {
    let pos = client_name_pos(t.clients@, i);
    if pos > 0 && str_ok(t, pos) {
        Some(str_at(t, pos))
    } else {
        None
    }
}

/// `r` is the conversion of the client record at position `i`.
pub open spec fn client_is(t: Tables, i: int, r: ClientStats) -> bool {
    &&& r.ip@ == str_at(t, client_ip_pos(t.clients@, i))
    &&& opt_view(r.name) == client_opt_name(t, i)
    &&& opt_view(r.mac) == client_mac(t.clients@, i)
    &&& r.count == max0(client_count(t.clients@, i))
    &&& r.blocked_count == max0(client_blocked(t.clients@, i))
    &&& r.last_query == client_last_query(t.clients@, i)
}

/// Positions of the client records whose address reads, in segment order.
pub open spec fn client_candidates(t: Tables) -> Seq<int> {
    positions(client_count_of(t)).filter(|i: int| str_ok(t, client_ip_pos(t.clients@, i)))
}

/// Query counts of the client records at positions `ids`.
pub open spec fn client_counts(t: Tables, ids: Seq<int>) -> Seq<u32> {
    ids.map_values(|i: int| max0(client_count(t.clients@, i)))
}

/// Converts the client record at position `i`: its address must read; a
/// host name that does not read is left out.
pub fn convert_client(t: &Tables, i: usize) -> (r: Result<ClientStats, FtlError>)
    requires
        i * CLIENT_SIZE + CLIENT_SIZE <= t.clients@.len(),
    ensures
        r is Ok <==> str_ok(*t, client_ip_pos(t.clients@, i as int)),
        r matches Ok(v) ==> client_is(*t, i as int, v),
        r matches Err(e) ==> str_read(*t, client_ip_pos(t.clients@, i as int), Err(e)),
{
    let c = decode_client(t.clients, i);
    let ip = match read_owned(t, c.ip_pos) {
        Ok(s) => s,
        Err(e) => return Err(e),
    };
    let name = if c.name_pos > 0 {
        match read_owned(t, c.name_pos) {
            Ok(s) => Some(s),
            Err(_) => None,
        }
    } else {
        None
    };
    let mac = if c.hwlen > 0 {
        let hwlen = c.hwlen as usize;
        if hwlen <= c.hwaddr.len() {
            let bytes = c.hwaddr.as_slice();
            let part = &bytes[0..hwlen];
            assert(part@ == client_hwaddr(t.clients@, i as int).take(hwlen as int));
            Some(colon_hex_string(part))
        } else {
            None
        }
    } else {
        None
    };
    Ok(ClientStats {
        ip,
        name,
        mac,
        count: clamp_count(c.count),
        blocked_count: clamp_count(c.blocked_count),
        last_query: c.last_query,
    })
}

/// A copy of optional text.
fn copy_opt_string(o: &Option<String>) -> (r: Option<String>)
    ensures
        opt_view(r) == opt_view(*o),
{
    match o {
        Some(s) => Some(s.clone()),
        None => None,
    }
}

/// A copy of a client's statistics.
pub fn copy_client_stats(c: &ClientStats) -> (r: ClientStats)
    ensures
        r.ip@ == c.ip@,
        opt_view(r.name) == opt_view(c.name),
        opt_view(r.mac) == opt_view(c.mac),
        r.count == c.count,
        r.blocked_count == c.blocked_count,
        r.last_query == c.last_query,
{
    ClientStats {
        ip: c.ip.clone(),
        name: copy_opt_string(&c.name),
        mac: copy_opt_string(&c.mac),
        count: c.count,
        blocked_count: c.blocked_count,
        last_query: c.last_query,
    }
}

/// `r` lists the `limit` clients (whose address reads) with the most
/// queries, most first, earlier records first among equal counts.
pub open spec fn top_clients_are(t: Tables, limit: int, r: Seq<ClientStats>) -> bool {
    let ids = client_candidates(t);
    exists|ord: Seq<usize>|
        {
            &&& is_top_order(client_counts(t, ids), limit, ord)
            &&& r.len() == ord.len()
            &&& forall|q: int| 0 <= q < ord.len() ==> client_is(t, ids[ord[q] as int], #[trigger] r[q])
        }
}

/// Two client results describe the same client with the same figures.
pub open spec fn same_client_stats(a: ClientStats, b: ClientStats) -> bool {
    &&& a.ip@ == b.ip@
    &&& opt_view(a.name) == opt_view(b.name)
    &&& opt_view(a.mac) == opt_view(b.mac)
    &&& a.count == b.count
    &&& a.blocked_count == b.blocked_count
    &&& a.last_query == b.last_query
}

/// On the same segments, a smaller limit gives a prefix of what a larger
/// limit gives (and limit 0 gives nothing).
pub proof fn lemma_top_clients_prefix(t: Tables, k1: int, k2: int, r1: Seq<ClientStats>, r2: Seq<ClientStats>)
    requires
        0 <= k1 <= k2,
        top_clients_are(t, k1, r1),
        top_clients_are(t, k2, r2),
    ensures
        r1.len() == (if k1 < r2.len() { k1 } else { r2.len() as int }),
        forall|q: int| 0 <= q < r1.len() ==> same_client_stats(#[trigger] r1[q], r2[q]),
{
    let ids = client_candidates(t);
    let c = client_counts(t, ids);
    let o1 = choose|ord: Seq<usize>|
        {
            &&& is_top_order(c, k1, ord)
            &&& r1.len() == ord.len()
            &&& forall|q: int| 0 <= q < ord.len() ==> client_is(t, ids[ord[q] as int], #[trigger] r1[q])
        };
    let o2 = choose|ord: Seq<usize>|
        {
            &&& is_top_order(c, k2, ord)
            &&& r2.len() == ord.len()
            &&& forall|q: int| 0 <= q < ord.len() ==> client_is(t, ids[ord[q] as int], #[trigger] r2[q])
        };
    positions(client_count_of(t)).lemma_filter_len(|i: int| str_ok(t, client_ip_pos(t.clients@, i)));
    assert(ids.len() <= positions(client_count_of(t)).len());
    lemma_top_order_prefix(c, k1, k2, o1, o2);
    assert forall|q: int| 0 <= q < r1.len() implies same_client_stats(#[trigger] r1[q], r2[q]) by {
        assert(o1[q] == o2.take(o1.len() as int)[q]);
        assert(client_is(t, ids[o1[q] as int], r1[q]));
        assert(client_is(t, ids[o2[q] as int], r2[q]));
    }
}

/// The `limit` clients with the most queries, most first (earlier records
/// first among equal counts). Clients whose address does not read are
/// left out.
pub fn top_clients(t: &Tables, limit: usize) -> (r: Vec<ClientStats>)
    ensures
        top_clients_are(*t, limit as int, r@),
        forall|a: int, b: int| 0 <= a < b < r@.len() ==> r@[a].count >= r@[b].count,
{
    let n = count_records(t.clients.len(), CLIENT_SIZE, read_u32(t.counters, COUNTERS_CLIENTS_MAX) as usize);
    let ghost pred = |i: int| str_ok(*t, client_ip_pos(t.clients@, i));
    let mut items: Vec<ClientStats> = Vec::new();
    let mut counts: Vec<u32> = Vec::new();
    let ghost mut ids: Seq<int> = seq![];
    let mut i: usize = 0;
    while i < n
        invariant
            n == client_count_of(*t),
            n * CLIENT_SIZE <= t.clients@.len(),
            i <= n,
            pred == (|i: int| str_ok(*t, client_ip_pos(t.clients@, i))),
            ids == positions(i as int).filter(pred),
            items@.len() == ids.len(),
            counts@ == client_counts(*t, ids),
            forall|j: int| 0 <= j < ids.len() ==> client_is(*t, ids[j], #[trigger] items@[j]),
        decreases n - i,
    {
        proof {
            assert(positions(i + 1) =~= positions(i as int).push(i as int));
            lemma_filter_push(positions(i as int), i as int, pred);
        }
        match convert_client(t, i) {
            Ok(cs) => {
                let ghost old_items = items@;
                counts.push(cs.count);
                items.push(cs);
                proof {
                    ids = ids.push(i as int);
                    assert(counts@ =~= client_counts(*t, ids));
                    assert forall|j: int| 0 <= j < ids.len() implies client_is(*t, ids[j], #[trigger] items@[j]) by {
                        if j < ids.len() - 1 {
                            assert(items@[j] == old_items[j]);
                        }
                    }
                }
            },
            Err(_) => {},
        }
        i = i + 1;
    }
    let ord = top_order(&counts, limit);
    let mut out: Vec<ClientStats> = Vec::new();
    let mut q: usize = 0;
    while q < ord.len()
        invariant
            is_top_order(counts@, limit as int, ord@),
            items@.len() == ids.len(),
            counts@ == client_counts(*t, ids),
            forall|j: int| 0 <= j < ids.len() ==> client_is(*t, ids[j], #[trigger] items@[j]),
            q <= ord.len(),
            out@.len() == q,
            forall|k: int| 0 <= k < q ==> client_is(*t, ids[ord@[k] as int], #[trigger] out@[k]),
            forall|k: int| 0 <= k < q ==> (#[trigger] out@[k]).count == counts@[ord@[k] as int],
        decreases ord.len() - q,
    {
        let p = ord[q];
        let c = copy_client_stats(&items[p]);
        out.push(c);
        q = q + 1;
    }
    proof {
        assert(ids == client_candidates(*t));
        assert(is_top_order(client_counts(*t, ids), limit as int, ord@));
        assert(forall|k: int| 0 <= k < ord@.len() ==> client_is(*t, ids[ord@[k] as int], #[trigger] out@[k]));
        assert forall|a: int, b: int| 0 <= a < b < out@.len() implies out@[a].count >= out@[b].count by {
            assert(ranks_before(counts@, ord@[a] as int, ord@[b] as int));
        }
    }
    out
}

/// `c` reports the client record at position `i` of the segment, within
/// the announced count: its query count and blocked count are the `count`
/// and `blockedcount` fields (offsets `CLIENT_COUNT` and `CLIENT_BLOCKED` of
/// the record, below zero read as zero) and its address is the string at the
/// record's `ippos`.
pub open spec fn reports_record(t: Tables, i: int, c: ClientStats) -> bool {
    &&& 0 <= i < client_count_of(t)
    &&& c.count == max0(le_i32(t.clients@, i * CLIENT_SIZE + CLIENT_COUNT))
    &&& c.blocked_count == max0(le_i32(t.clients@, i * CLIENT_SIZE + CLIENT_BLOCKED))
    &&& c.ip@ == str_at(t, client_ip_pos(t.clients@, i))
}

/// `c` reports some client record of the segment (see [`reports_record`]).
pub open spec fn reports_some_record(t: Tables, c: ClientStats) -> bool {
    exists|i: int| #[trigger] reports_record(t, i, c)
}

/// Each client that the top list reports is one client record of the
/// segment, with that record's counts and address.
pub proof fn lemma_top_clients_fields(t: Tables, limit: int, r: Seq<ClientStats>)
    requires
        top_clients_are(t, limit, r),
    ensures
        forall|q: int| 0 <= q < r.len() ==> reports_some_record(t, #[trigger] r[q]),
{
    assert forall|q: int| 0 <= q < r.len() implies reports_some_record(t, #[trigger] r[q]) by {
        lemma_top_client_record(t, limit, r, q);
    }
}

proof fn lemma_top_client_record(t: Tables, limit: int, r: Seq<ClientStats>, q: int)
    requires
        top_clients_are(t, limit, r),
        0 <= q < r.len(),
    ensures
        reports_some_record(t, r[q]),
{
    let ids = client_candidates(t);
    let ord = choose|ord: Seq<usize>|
        {
            &&& is_top_order(client_counts(t, ids), limit, ord)
            &&& r.len() == ord.len()
            &&& forall|q: int| 0 <= q < ord.len() ==> client_is(t, ids[ord[q] as int], #[trigger] r[q])
        };
    lemma_positions_filter(client_count_of(t), |i: int| str_ok(t, client_ip_pos(t.clients@, i)));
    assert(ord[q] < ids.len());
    let i = ids[ord[q] as int];
    assert(client_is(t, i, r[q]));
    assert(0 <= i < client_count_of(t));
    assert(reports_record(t, i, r[q]));
}

} // verus!
