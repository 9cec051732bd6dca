//! Summary figures computed from the counters segment.

use vstd::prelude::*;
use crate::api::stats::{QueryStatus, QueryType, ReplyType, StatsSummary};
use crate::convert::tables::{client_count_of, Tables};
use crate::layout::{
    client_count, client_magic, count_records, decode_counters,
    decode_settings, le_u32, le_u32_array, le_i32, read_i32, read_u32, read_u8, CLIENT_COUNT, CLIENT_MAGIC, CLIENT_SIZE, COUNTERS_CLIENTS, COUNTERS_CLIENTS_MAX,
    COUNTERS_DB_GRAVITY, COUNTERS_DOMAINS, COUNTERS_QUERIES, COUNTERS_QUERYTYPE, COUNTERS_REPLY,
    COUNTERS_STATUS, COUNTERS_UPSTREAMS, SETTINGS_QPS,
};
use crate::raw::{MAGICBYTE, QPS_AVGLEN, QUERY_CACHE, QUERY_FORWARDED, QUERY_REPLY_MAX, QUERY_STATUS_MAX, TYPE_MAX};
use crate::convert::{status_of, raw_status_to_enum};
use crate::convert::queries::{
    blocked_code, known_type_of, lemma_reply_codes, lemma_type_codes, reply_code, reply_of, type_code,
    convert_query_type, convert_reply_type,
};
use crate::raw::{
    QUERY_DENYLIST, QUERY_EXTERNAL_BLOCKED_IP, QUERY_EXTERNAL_BLOCKED_NULL,
    QUERY_EXTERNAL_BLOCKED_NXRA, QUERY_GRAVITY, QUERY_REGEX, REPLY_CNAME, REPLY_IP, REPLY_NODATA,
    REPLY_NXDOMAIN,
};

verus! {

/// Entry `i` of a counter array, 0 where the array has no such entry.
pub open spec fn entry(s: Seq<u32>, i: int) -> u32 {
    if 0 <= i < s.len() {
        s[i]
    } else {
        0
    }
}

/// Sum of the counters of the statuses that mean "blocked", modulo 2^32.
pub open spec fn blocked_total(status: Seq<u32>) -> int {
    (entry(status, QUERY_GRAVITY as int) + entry(status, QUERY_REGEX as int) + entry(
        status,
        QUERY_DENYLIST as int,
    ) + entry(status, QUERY_EXTERNAL_BLOCKED_IP as int) + entry(
        status,
        QUERY_EXTERNAL_BLOCKED_NULL as int,
    ) + entry(status, QUERY_EXTERNAL_BLOCKED_NXRA as int)) % 0x1_0000_0000
}

/// The distribution that results from visiting positions `0..n` of
/// `counts` in order and, for each position with a key and a nonzero count,
/// setting the key's entry to that count (a later position overwrites an
/// earlier one with the same key).
pub open spec fn tally<K>(counts: Seq<u32>, n: int, key: spec_fn(int) -> Option<K>) -> Map<K, u32>
    decreases n,
{
    if n <= 0 {
        Map::empty()
    } else {
        let m = tally(counts, n - 1, key);
        match key(n - 1) {
            Some(k) => if counts[n - 1] > 0 {
                m.insert(k, counts[n - 1])
            } else {
                m
            },
            None => m,
        }
    }
}

/// `v` lists the entries of `m`, each key once, in some order.
pub open spec fn lists_map<K>(v: Seq<(K, u32)>, m: Map<K, u32>) -> bool {
    &&& forall|i: int, j: int| 0 <= i < j < v.len() ==> #[trigger] v[i].0 != #[trigger] v[j].0
    &&& forall|j: int| 0 <= j < v.len() ==> m.contains_key(#[trigger] v[j].0) && m[v[j].0] == v[j].1
    &&& forall|k: K| #[trigger] m.contains_key(k) ==> exists|j: int| 0 <= j < v.len() && v[j].0 == k
}

/// Keys of the status distribution: every status code.
pub open spec fn status_key() -> spec_fn(int) -> Option<QueryStatus> {
    |i: int| Some(status_of(i as u32))
}

/// Keys of the query type distribution: the codes that name a known type.
pub open spec fn type_key() -> spec_fn(int) -> Option<QueryType> {
    |i: int| known_type_of(i)
}

/// Keys of the reply distribution: NODATA, NXDOMAIN, CNAME and IP replies.
pub open spec fn reply_key() -> spec_fn(int) -> Option<ReplyType> {
    |i: int|
        if i == REPLY_NODATA || i == REPLY_NXDOMAIN || i == REPLY_CNAME || i == REPLY_IP {
            Some(reply_of(i as u32))
        } else {
            None
        }
}

/// Sum of the counters of the first `n` status codes that mean "blocked".
pub open spec fn blocked_counts_sum(status: Seq<u32>, n: int) -> int
    decreases n,
{
    if n <= 0 {
        0
    } else {
        blocked_counts_sum(status, n - 1) + (if blocked_code((n - 1) as u32) {
            status[n - 1] as int
        } else {
            0
        })
    }
}

/// The blocked total is the sum, modulo 2^32, of the counters of exactly
/// those status codes that mean "blocked".
pub proof fn lemma_blocked_total_sums_blocking_codes(status: Seq<u32>)
    requires
        status.len() == QUERY_STATUS_MAX,
    ensures
        blocked_total(status) == blocked_counts_sum(status, status.len() as int) % 0x1_0000_0000,
{
    reveal_with_fuel(blocked_counts_sum, 20);
}

/// Every count that a distribution lists is above zero.
pub proof fn lemma_tally_positive<K>(counts: Seq<u32>, n: int, key: spec_fn(int) -> Option<K>, k: K)
    requires
        0 <= n <= counts.len(),
        tally(counts, n, key).contains_key(k),
    ensures
        tally(counts, n, key)[k] > 0,
    decreases n,
{
    if n > 0 {
        let m = tally(counts, n - 1, key);
        match key(n - 1) {
            Some(kk) => {
                if counts[n - 1] > 0 && kk == k {
                } else if m.contains_key(k) {
                    lemma_tally_positive(counts, n - 1, key, k);
                }
            },
            None => {
                lemma_tally_positive(counts, n - 1, key, k);
            },
        }
    }
}

/// Number of queries blocked by gravity, regex, denylist or upstream
/// (the sum wraps around at 2^32).
pub fn count_blocked_queries(status: &Vec<u32>) -> (r: u32)
    ensures
        r == blocked_total(status@),
{
    let mut sum: u64 = 0;
    let codes: [u32; 6] = [
        QUERY_GRAVITY,
        QUERY_REGEX,
        QUERY_DENYLIST,
        QUERY_EXTERNAL_BLOCKED_IP,
        QUERY_EXTERNAL_BLOCKED_NULL,
        QUERY_EXTERNAL_BLOCKED_NXRA,
    ];
    let ghost total: Seq<int> = seq![
        entry(status@, QUERY_GRAVITY as int) as int,
        entry(status@, QUERY_REGEX as int) as int,
        entry(status@, QUERY_DENYLIST as int) as int,
        entry(status@, QUERY_EXTERNAL_BLOCKED_IP as int) as int,
        entry(status@, QUERY_EXTERNAL_BLOCKED_NULL as int) as int,
        entry(status@, QUERY_EXTERNAL_BLOCKED_NXRA as int) as int,
    ];
    let mut i: usize = 0;
    while i < 6
        invariant
            i <= 6,
            codes@ == seq![
                QUERY_GRAVITY,
                QUERY_REGEX,
                QUERY_DENYLIST,
                QUERY_EXTERNAL_BLOCKED_IP,
                QUERY_EXTERNAL_BLOCKED_NULL,
                QUERY_EXTERNAL_BLOCKED_NXRA,
            ],
            sum <= i * 0xffff_ffff,
            sum == (if i >= 1 { entry(status@, QUERY_GRAVITY as int) as int } else { 0 }) + (if i
                >= 2 {
                entry(status@, QUERY_REGEX as int) as int
            } else {
                0
            }) + (if i >= 3 {
                entry(status@, QUERY_DENYLIST as int) as int
            } else {
                0
            }) + (if i >= 4 {
                entry(status@, QUERY_EXTERNAL_BLOCKED_IP as int) as int
            } else {
                0
            }) + (if i >= 5 {
                entry(status@, QUERY_EXTERNAL_BLOCKED_NULL as int) as int
            } else {
                0
            }) + (if i >= 6 {
                entry(status@, QUERY_EXTERNAL_BLOCKED_NXRA as int) as int
            } else {
                0
            }),
        decreases 6 - i,
    {
        let code = codes[i] as usize;
        if code < status.len() {
            sum = sum + status[code] as u64;
        }
        i = i + 1;
    }
    (sum % 0x1_0000_0000) as u32
}

/// Whether two statuses are the same.
fn same_status(a: &QueryStatus, b: &QueryStatus) -> (r: bool)
    ensures
        r <==> *a == *b,
{
    *a == *b
}

/// Whether two query types are the same.
fn same_type(a: &QueryType, b: &QueryType) -> (r: bool)
    ensures
        r <==> *a == *b,
{
    *a == *b
}

/// Whether two reply types are the same.
fn same_reply(a: &ReplyType, b: &ReplyType) -> (r: bool)
    ensures
        r <==> *a == *b,
{
    *a == *b
}

/// Sets the entry of key `k` in the listed distribution `v` to `c`: in
/// place where `k` is listed, else as a new last entry. `same` tells two
/// keys apart.
fn put_entry<K, F: Fn(&K, &K) -> bool>(v: &mut Vec<(K, u32)>, k: K, c: u32, same: F, Ghost(m): Ghost<Map<K, u32>>)
    requires
        forall|a: &K, b: &K| #[trigger] same.requires((a, b)),
        forall|a: &K, b: &K, r: bool| #[trigger] same.ensures((a, b), r) ==> (r <==> *a == *b),
        lists_map(old(v)@, m),
    ensures
        lists_map(final(v)@, m.insert(k, c)),
{
    let mut j: usize = 0;
    while j < v.len()
        invariant
            j <= v.len(),
            forall|a: &K, b: &K| #[trigger] same.requires((a, b)),
            forall|a: &K, b: &K, r: bool| #[trigger] same.ensures((a, b), r) ==> (r <==> *a == *b),
            lists_map(v@, m),
            forall|q: int| 0 <= q < j ==> #[trigger] v@[q].0 != k,
        decreases v.len() - j,
    {
        if same(&v[j].0, &k) {
            let ghost before = v@;
            v.set(j, (k, c));
            proof { lemma_lists_map_set(before, m, j as int, k, c); }
            return;
        }
        j = j + 1;
    }
    let ghost before = v@;
    v.push((k, c));
    proof { lemma_lists_map_push(before, m, k, c); }
}

proof fn lemma_lists_map_set<K>(v: Seq<(K, u32)>, m: Map<K, u32>, j: int, k: K, c: u32)
    requires
        lists_map(v, m),
        0 <= j < v.len(),
        v[j].0 == k,
    ensures
        lists_map(v.update(j, (k, c)), m.insert(k, c)),
{
    let w = v.update(j, (k, c));
    let m2 = m.insert(k, c);
    assert forall|i: int, l: int| 0 <= i < l < w.len() implies #[trigger] w[i].0 != #[trigger] w[l].0 by {
        assert(v[i].0 != v[l].0);
    }
    assert forall|l: int| 0 <= l < w.len() implies m2.contains_key(#[trigger] w[l].0) && m2[w[l].0]
        == w[l].1 by {
        if l != j {
            assert(v[l].0 != v[j].0 || l == j);
            if l < j {
                assert(v[l].0 != v[j].0);
            } else {
                assert(v[j].0 != v[l].0);
            }
        }
    }
    assert forall|key: K| #[trigger] m2.contains_key(key) implies exists|l: int|
        0 <= l < w.len() && w[l].0 == key by {
        if key == k {
            assert(w[j].0 == key);
        } else {
            assert(m.contains_key(key));
            let l = choose|l: int| 0 <= l < v.len() && v[l].0 == key;
            assert(w[l].0 == key);
        }
    }
}

proof fn lemma_lists_map_push<K>(v: Seq<(K, u32)>, m: Map<K, u32>, k: K, c: u32)
    requires
        lists_map(v, m),
        forall|q: int| 0 <= q < v.len() ==> #[trigger] v[q].0 != k,
    ensures
        lists_map(v.push((k, c)), m.insert(k, c)),
{
    let w = v.push((k, c));
    let m2 = m.insert(k, c);
    assert forall|i: int, l: int| 0 <= i < l < w.len() implies #[trigger] w[i].0 != #[trigger] w[l].0 by {
        if l < v.len() {
            assert(v[i].0 != v[l].0);
        } else {
            assert(v[i].0 != k);
        }
    }
    assert forall|l: int| 0 <= l < w.len() implies m2.contains_key(#[trigger] w[l].0) && m2[w[l].0]
        == w[l].1 by {
        if l < v.len() {
            assert(v[l].0 != k);
            assert(m.contains_key(v[l].0));
        }
    }
    assert forall|key: K| #[trigger] m2.contains_key(key) implies exists|l: int|
        0 <= l < w.len() && w[l].0 == key by {
        if key == k {
            assert(w[v.len() as int].0 == key);
        } else {
            assert(m.contains_key(key));
            let l = choose|l: int| 0 <= l < v.len() && v[l].0 == key;
            assert(w[l].0 == key);
        }
    }
}

/// Count per status: every status code with a nonzero counter contributes
/// its count; codes that share a status leave the count of the last one.
pub fn extract_status_distribution(status: &Vec<u32>) -> (r: Vec<(QueryStatus, u32)>)
    ensures
        lists_map(r@, tally(status@, status@.len() as int, status_key())),
{
    let mut v: Vec<(QueryStatus, u32)> = Vec::new();
    let mut i: usize = 0;
    while i < status.len()
        invariant
            i <= status.len(),
            lists_map(v@, tally(status@, i as int, status_key())),
        decreases status.len() - i,
    {
        let count = status[i];
        if count > 0 {
            let st = raw_status_to_enum(i as u32);
            put_entry(&mut v, st, count, same_status, Ghost(tally(status@, i as int, status_key())));
        }
        i = i + 1;
    }
    v
}

/// Count per known query type, read from the `querytype` counters at the
/// codes of the known types.
pub fn extract_query_types_from_queries(querytype: &Vec<u32>) -> (r: Vec<(QueryType, u32)>)
    ensures
        lists_map(r@, tally(querytype@, querytype@.len() as int, type_key())),
{
    let mut v: Vec<(QueryType, u32)> = Vec::new();
    let mut i: usize = 0;
    while i < querytype.len()
        invariant
            i <= querytype.len(),
            lists_map(v@, tally(querytype@, i as int, type_key())),
        decreases querytype.len() - i,
    {
        let count = querytype[i];
        if count > 0 && i <= 0xffff_ffff {
            let t = convert_query_type(i as u32);
            if is_known_type(t) {
                put_entry(&mut v, t, count, same_type, Ghost(tally(querytype@, i as int, type_key())));
            }
        }
        i = i + 1;
    }
    v
}

/// Whether a query type is one of the named types (not `Other`).
fn is_known_type(t: QueryType) -> (r: bool)
    ensures
        r == !(t is Other),
{
    match t {
        QueryType::Other(_) => false,
        _ => true,
    }
}

/// Count per reply type for NODATA, NXDOMAIN, CNAME and IP replies.
pub fn extract_reply_types(reply: &Vec<u32>) -> (r: Vec<(ReplyType, u32)>)
    ensures
        lists_map(r@, tally(reply@, reply@.len() as int, reply_key())),
{
    let mut v: Vec<(ReplyType, u32)> = Vec::new();
    let mut i: usize = 0;
    while i < reply.len()
        invariant
            i <= reply.len(),
            lists_map(v@, tally(reply@, i as int, reply_key())),
        decreases reply.len() - i,
    {
        let count = reply[i];
        if count > 0 && (i == REPLY_NODATA as usize || i == REPLY_NXDOMAIN as usize || i
            == REPLY_CNAME as usize || i == REPLY_IP as usize) {
            let t = convert_reply_type(i as u32);
            put_entry(&mut v, t, count, same_reply, Ghost(tally(reply@, i as int, reply_key())));
        }
        i = i + 1;
    }
    v
}

/// Number of client records among the first `n` that are in use and have
/// made at least one query.
pub open spec fn active_clients(b: Seq<u8>, n: int) -> int
    decreases n,
{
    if n <= 0 {
        0
    } else {
        active_clients(b, n - 1) + (if client_magic(b, n - 1) == MAGICBYTE && client_count(b, n - 1)
            > 0 {
            1int
        } else {
            0
        })
    }
}

/// There are never more active clients than client records.
pub proof fn lemma_active_clients_bound(b: Seq<u8>, n: int)
    requires
        0 <= n,
    ensures
        0 <= active_clients(b, n) <= n,
    decreases n,
{
    if n > 0 {
        lemma_active_clients_bound(b, n - 1);
    }
}

/// Number of clients that are in use and have made at least one query.
pub fn count_active_clients(t: &Tables) -> (r: u32)
    ensures
        r == active_clients(t.clients@, client_count_of(*t)),
{
    let n = count_records(t.clients.len(), CLIENT_SIZE, read_u32(t.counters, COUNTERS_CLIENTS_MAX) as usize);
    let mut active: u32 = 0;
    let mut i: usize = 0;
    let len = t.clients.len();
    while i < n
        invariant
            len == t.clients@.len(),
            n == client_count_of(*t),
            n <= u32::MAX,
            n * CLIENT_SIZE <= t.clients@.len(),
            i <= n,
            active == active_clients(t.clients@, i as int),
        decreases n - i,
    {
        proof {
            lemma_active_clients_bound(t.clients@, i as int);
        }
        let o = i * CLIENT_SIZE;
        if read_u8(t.clients, o + CLIENT_MAGIC) == MAGICBYTE && read_i32(t.clients, o + CLIENT_COUNT) > 0 {
            active = active + 1;
        }
        i = i + 1;
    }
    active
}

/// Sum of a sequence of counters.
pub open spec fn seq_sum(s: Seq<u32>) -> int
    decreases s.len(),
{
    if s.len() == 0 {
        0
    } else {
        seq_sum(s.drop_last()) + s.last()
    }
}

/// Sum of the per-second query counts of the averaging window (wrapping at 2^32).
pub fn qps_sum(qps: &Vec<u32>) -> (r: u32)
    requires
        qps@.len() <= QPS_AVGLEN,
    ensures
        r == seq_sum(qps@) % 0x1_0000_0000,
{
    let mut sum: u64 = 0;
    let mut i: usize = 0;
    while i < qps.len()
        invariant
            i <= qps@.len() <= QPS_AVGLEN,
            sum == seq_sum(qps@.take(i as int)),
            sum <= i * 0xffff_ffff,
        decreases qps@.len() - i,
    {
        assert(qps@.take(i + 1).drop_last() =~= qps@.take(i as int));
        sum = sum + qps[i] as u64;
        i = i + 1;
    }
    assert(qps@.take(qps@.len() as int) =~= qps@);
    (sum % 0x1_0000_0000) as u32
}

/// Entry `i` of a counter array, 0 where there is none.
pub fn counter_entry(s: &Vec<u32>, i: u32) -> (r: u32)
    ensures
        r == entry(s@, i as int),
{
    if (i as usize) < s.len() {
        s[i as usize]
    } else {
        0
    }
}

/// The status counters of a counters segment.
pub open spec fn status_counters(c: Seq<u8>) -> Seq<u32> {
    le_u32_array(c, COUNTERS_STATUS as int, QUERY_STATUS_MAX as int)
}

/// `r` is the summary of the settings segment `s` and the segments of `t`.
pub open spec fn summary_is(s: Seq<u8>, t: Tables, r: StatsSummary) -> bool {
    let c = t.counters@;
    let status = status_counters(c);
    let qt = le_u32_array(c, COUNTERS_QUERYTYPE as int, TYPE_MAX as int);
    let reply = le_u32_array(c, COUNTERS_REPLY as int, QUERY_REPLY_MAX as int);
    &&& r.queries_total == le_u32(c, COUNTERS_QUERIES as int)
    &&& r.queries_blocked == blocked_total(status)
    &&& r.queries_forwarded == entry(status, QUERY_FORWARDED as int)
    &&& r.queries_cached == entry(status, QUERY_CACHE as int)
    &&& r.domains_unique == le_u32(c, COUNTERS_DOMAINS as int)
    &&& r.clients_total == le_u32(c, COUNTERS_CLIENTS as int)
    &&& r.clients_active == active_clients(t.clients@, client_count_of(t))
    &&& r.upstreams_total == le_u32(c, COUNTERS_UPSTREAMS as int)
    &&& r.qps_window_sum == seq_sum(le_u32_array(s, SETTINGS_QPS as int, QPS_AVGLEN as int))
        % 0x1_0000_0000
    &&& lists_map(r.query_types@, tally(qt, qt.len() as int, type_key()))
    &&& lists_map(r.status_distribution@, tally(status, status.len() as int, status_key()))
    &&& lists_map(r.reply_types@, tally(reply, reply.len() as int, reply_key()))
    &&& r.gravity_size == le_i32(c, COUNTERS_DB_GRAVITY as int) as u32
}

/// General statistics from the settings segment `settings` and the
/// segments of `t`.
pub fn summary_of(settings: &[u8], t: &Tables) -> (r: StatsSummary)
    ensures
        summary_is(settings@, *t, r),
{
    let c = decode_counters(t.counters);
    let s = decode_settings(settings);
    StatsSummary {
        queries_total: c.queries,
        queries_blocked: count_blocked_queries(&c.status),
        queries_forwarded: counter_entry(&c.status, QUERY_FORWARDED),
        queries_cached: counter_entry(&c.status, QUERY_CACHE),
        domains_unique: c.domains,
        clients_total: c.clients,
        clients_active: count_active_clients(t),
        upstreams_total: c.upstreams,
        qps_window_sum: qps_sum(&s.qps),
        query_types: extract_query_types_from_queries(&c.querytype),
        status_distribution: extract_status_distribution(&c.status),
        reply_types: extract_reply_types(&c.reply),
        gravity_size: c.gravity as u32,
    }
}

/// When each position that has a key is the code of that key, a
/// distribution holds a key exactly when the counter at the key's code is
/// above zero, and then holds it with that counter.
pub proof fn lemma_tally_at<K>(counts: Seq<u32>, n: int, key: spec_fn(int) -> Option<K>, code: spec_fn(K) -> int, k: K)
    requires
        0 <= n <= counts.len(),
        forall|i: int| 0 <= i < n && (#[trigger] key(i)) is Some ==> code(key(i)->0) == i,
    ensures
        tally(counts, n, key).contains_key(k) <==> (0 <= code(k) < n && key(code(k)) == Some(k)
            && counts[code(k)] > 0),
        tally(counts, n, key).contains_key(k) ==> tally(counts, n, key)[k] == counts[code(k)],
    decreases n,
{
    if n > 0 {
        lemma_tally_at(counts, n - 1, key, code, k);
        let m = tally(counts, n - 1, key);
        if key(n - 1) is Some {
            assert(code(key(n - 1)->0) == n - 1);
        }
    }
}

/// The summary's per-type distribution pairs each listed query type with
/// the `querytype` counter at that type's DNS type number (the counter being
/// above zero, the type a named one), and lists every named type whose
/// counter is above zero.
pub proof fn lemma_summary_query_types(s: Seq<u8>, t: Tables, r: StatsSummary, q: QueryType)
    requires
        summary_is(s, t, r),
    ensures
        forall|j: int| 0 <= j < r.query_types@.len() ==> {
            let e = #[trigger] r.query_types@[j];
            &&& !(e.0 is Other)
            &&& 0 <= type_code(e.0) < TYPE_MAX
            &&& e.1 == le_u32(t.counters@, COUNTERS_QUERYTYPE + 4 * type_code(e.0))
            &&& e.1 > 0
        },
        !(q is Other) && type_code(q) < TYPE_MAX && le_u32(t.counters@, COUNTERS_QUERYTYPE + 4
            * type_code(q)) > 0 ==> exists|j: int| 0 <= j < r.query_types@.len() && (#[trigger] r.query_types@[j]).0 == q,
{
    let qt = le_u32_array(t.counters@, COUNTERS_QUERYTYPE as int, TYPE_MAX as int);
    let key = type_key();
    let code = |k: QueryType| type_code(k);
    assert forall|i: int| 0 <= i < TYPE_MAX && (#[trigger] key(i)) is Some implies code(key(i)->0) == i by {
        lemma_type_codes(i, QueryType::A);
    }
    let m = tally(qt, qt.len() as int, key);
    assert forall|j: int| 0 <= j < r.query_types@.len() implies {
        let e = #[trigger] r.query_types@[j];
        &&& !(e.0 is Other)
        &&& 0 <= type_code(e.0) < TYPE_MAX
        &&& e.1 == le_u32(t.counters@, COUNTERS_QUERYTYPE + 4 * type_code(e.0))
        &&& e.1 > 0
    } by {
        let e = r.query_types@[j];
        assert(m.contains_key(e.0));
        lemma_tally_at(qt, qt.len() as int, key, code, e.0);
        lemma_type_codes(type_code(e.0), e.0);
    }
    if !(q is Other) && type_code(q) < TYPE_MAX && le_u32(t.counters@, COUNTERS_QUERYTYPE + 4
        * type_code(q)) > 0 {
        lemma_type_codes(0, q);
        lemma_tally_at(qt, qt.len() as int, key, code, q);
        assert(m.contains_key(q));
    }
}

/// The summary's reply distribution pairs each listed reply type (NODATA,
/// NXDOMAIN, CNAME or IP) with the `reply` counter at that type's FTL code
/// (the counter being above zero), and lists each of these four whose
/// counter is above zero.
pub proof fn lemma_summary_reply_types(s: Seq<u8>, t: Tables, r: StatsSummary, k: ReplyType)
    requires
        summary_is(s, t, r),
    ensures
        forall|j: int| 0 <= j < r.reply_types@.len() ==> {
            let e = #[trigger] r.reply_types@[j];
            &&& e.0 == ReplyType::NoData || e.0 == ReplyType::NxDomain || e.0 == ReplyType::Cname
                || e.0 == ReplyType::Ip
            &&& e.1 == le_u32(t.counters@, COUNTERS_REPLY + 4 * reply_code(e.0))
            &&& e.1 > 0
        },
        (k == ReplyType::NoData || k == ReplyType::NxDomain || k == ReplyType::Cname || k
            == ReplyType::Ip) && le_u32(t.counters@, COUNTERS_REPLY + 4 * reply_code(k)) > 0
            ==> exists|j: int| 0 <= j < r.reply_types@.len() && (#[trigger] r.reply_types@[j]).0 == k,
{
    let rc = le_u32_array(t.counters@, COUNTERS_REPLY as int, QUERY_REPLY_MAX as int);
    let key = reply_key();
    let code = |x: ReplyType| reply_code(x) as int;
    assert forall|i: int| 0 <= i < QUERY_REPLY_MAX && (#[trigger] key(i)) is Some implies code(key(i)->0) == i by {
        lemma_reply_codes(i as u32, ReplyType::Unknown);
    }
    let m = tally(rc, rc.len() as int, key);
    assert forall|j: int| 0 <= j < r.reply_types@.len() implies {
        let e = #[trigger] r.reply_types@[j];
        &&& e.0 == ReplyType::NoData || e.0 == ReplyType::NxDomain || e.0 == ReplyType::Cname
            || e.0 == ReplyType::Ip
        &&& e.1 == le_u32(t.counters@, COUNTERS_REPLY + 4 * reply_code(e.0))
        &&& e.1 > 0
    } by {
        let e = r.reply_types@[j];
        assert(m.contains_key(e.0));
        lemma_tally_at(rc, rc.len() as int, key, code, e.0);
        lemma_reply_codes(reply_code(e.0), e.0);
    }
    if (k == ReplyType::NoData || k == ReplyType::NxDomain || k == ReplyType::Cname || k
        == ReplyType::Ip) && le_u32(t.counters@, COUNTERS_REPLY + 4 * reply_code(k)) > 0 {
        lemma_reply_codes(0, k);
        lemma_tally_at(rc, rc.len() as int, key, code, k);
        assert(m.contains_key(k));
    }
}

} // verus!
