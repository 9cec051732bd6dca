//! Conversion of query records.

use vstd::prelude::*;
use crate::api::stats::{DnssecStatus, Query, QueryStatus, QueryType, ReplyType};
use crate::convert::{status_of, validate_magic};
use crate::convert::tables::{
    client_info_err, client_info_ok, client_ip, client_name, domain_name, domain_name_ok,
    domain_name_read, opt_view, resolve_client_info, resolve_domain_name,
    resolve_upstream_name, upstream_name, upstream_name_ok, Tables,
};
use crate::error::FtlError;
use crate::layout::{
    count_records, decode_query, le_u32, query_at, read_u32, record_count, QueryRecord,
    COUNTERS_QUERIES_MAX, QUERY_SIZE,
};
use crate::raw::{MAGICBYTE, QUERY_REPLY_MAX};
use crate::raw::{
    DNSSEC_ABANDONED, DNSSEC_BOGUS, DNSSEC_INSECURE, DNSSEC_SECURE, QUERY_DENYLIST,
    QUERY_EXTERNAL_BLOCKED_IP, QUERY_EXTERNAL_BLOCKED_NULL, QUERY_EXTERNAL_BLOCKED_NXRA,
    QUERY_GRAVITY, QUERY_REGEX, REPLY_BLOB, REPLY_CNAME, REPLY_DNSSEC, REPLY_DOMAIN, REPLY_IP,
    REPLY_NODATA, REPLY_NONE, REPLY_NOTIMP, REPLY_NXDOMAIN, REPLY_OTHER, REPLY_REFUSED,
    REPLY_RRNAME, REPLY_SERVFAIL, REPLY_UNKNOWN, TYPE_A, TYPE_AAAA, TYPE_ANY, TYPE_DNSKEY, TYPE_DS, TYPE_HTTPS,
    TYPE_MX, TYPE_NAPTR, TYPE_NS, TYPE_PTR, TYPE_RRSIG, TYPE_SOA, TYPE_SRV, TYPE_SVCB, TYPE_TXT,
};

verus! {

/// The named query type of a code, if the code names one.
pub open spec fn known_type_of(code: int) -> Option<QueryType> {
    if code == TYPE_A {
        Some(QueryType::A)
    } else if code == TYPE_AAAA {
        Some(QueryType::AAAA)
    } else if code == TYPE_ANY {
        Some(QueryType::ANY)
    } else if code == TYPE_SRV {
        Some(QueryType::SRV)
    } else if code == TYPE_SOA {
        Some(QueryType::SOA)
    } else if code == TYPE_PTR {
        Some(QueryType::PTR)
    } else if code == TYPE_TXT {
        Some(QueryType::TXT)
    } else if code == TYPE_NAPTR {
        Some(QueryType::NAPTR)
    } else if code == TYPE_MX {
        Some(QueryType::MX)
    } else if code == TYPE_DS {
        Some(QueryType::DS)
    } else if code == TYPE_RRSIG {
        Some(QueryType::RRSIG)
    } else if code == TYPE_DNSKEY {
        Some(QueryType::DNSKEY)
    } else if code == TYPE_NS {
        Some(QueryType::NS)
    } else if code == TYPE_SVCB {
        Some(QueryType::SVCB)
    } else if code == TYPE_HTTPS {
        Some(QueryType::HTTPS)
    } else {
        None
    }
}

/// The query type of a raw code; unnamed codes keep their low 16 bits.
pub open spec fn type_of(code: u32) -> QueryType {
    match known_type_of(code as int) {
        Some(t) => t,
        None => QueryType::Other(code as u16),
    }
}

/// The reply type of a raw `reply_type` code.
pub open spec fn reply_of(code: u32) -> ReplyType {
    if code == REPLY_NODATA {
        ReplyType::NoData
    } else if code == REPLY_NXDOMAIN {
        ReplyType::NxDomain
    } else if code == REPLY_CNAME {
        ReplyType::Cname
    } else if code == REPLY_IP {
        ReplyType::Ip
    } else if code == REPLY_DOMAIN {
        ReplyType::Domain
    } else if code == REPLY_RRNAME {
        ReplyType::Rrname
    } else if code == REPLY_SERVFAIL {
        ReplyType::Servfail
    } else if code == REPLY_REFUSED {
        ReplyType::Refused
    } else if code == REPLY_NOTIMP {
        ReplyType::Notimp
    } else if code == REPLY_OTHER {
        ReplyType::Other
    } else if code == REPLY_DNSSEC {
        ReplyType::Dnssec
    } else if code == REPLY_NONE {
        ReplyType::NoneReply
    } else if code == REPLY_BLOB {
        ReplyType::Blob
    } else {
        ReplyType::Unknown
    }
}

/// The FTL `query_type` code (the DNS type number) of a query type;
/// `Other(c)` stands for code `c`.
pub open spec fn type_code(t: QueryType) -> int {
    match t {
        QueryType::A => TYPE_A as int,
        QueryType::AAAA => TYPE_AAAA as int,
        QueryType::ANY => TYPE_ANY as int,
        QueryType::SRV => TYPE_SRV as int,
        QueryType::SOA => TYPE_SOA as int,
        QueryType::PTR => TYPE_PTR as int,
        QueryType::TXT => TYPE_TXT as int,
        QueryType::NAPTR => TYPE_NAPTR as int,
        QueryType::MX => TYPE_MX as int,
        QueryType::DS => TYPE_DS as int,
        QueryType::RRSIG => TYPE_RRSIG as int,
        QueryType::DNSKEY => TYPE_DNSKEY as int,
        QueryType::NS => TYPE_NS as int,
        QueryType::SVCB => TYPE_SVCB as int,
        QueryType::HTTPS => TYPE_HTTPS as int,
        QueryType::Other(c) => c as int,
    }
}

/// Query type codes name their own types: a code that names a type is
/// that type's DNS type number, every named type is named by its number,
/// and any code up to 0xffff converts to the type whose number it is.
pub proof fn lemma_type_codes(code: int, t: QueryType)
    ensures
        known_type_of(code) matches Some(k) ==> type_code(k) == code && !(k is Other),
        !(t is Other) ==> known_type_of(type_code(t)) == Some(t),
        0 <= code <= 0xffff ==> type_code(type_of(code as u32)) == code,
{
}

/// The FTL `reply_type` code of a reply type.
pub open spec fn reply_code(r: ReplyType) -> u32 {
    match r {
        ReplyType::Unknown => REPLY_UNKNOWN,
        ReplyType::NoData => REPLY_NODATA,
        ReplyType::NxDomain => REPLY_NXDOMAIN,
        ReplyType::Cname => REPLY_CNAME,
        ReplyType::Ip => REPLY_IP,
        ReplyType::Domain => REPLY_DOMAIN,
        ReplyType::Rrname => REPLY_RRNAME,
        ReplyType::Servfail => REPLY_SERVFAIL,
        ReplyType::Refused => REPLY_REFUSED,
        ReplyType::Notimp => REPLY_NOTIMP,
        ReplyType::Other => REPLY_OTHER,
        ReplyType::Dnssec => REPLY_DNSSEC,
        ReplyType::NoneReply => REPLY_NONE,
        ReplyType::Blob => REPLY_BLOB,
    }
}

/// Reply codes name their own kinds: every FTL reply code converts to the
/// reply type whose code it is, codes past the last one are `Unknown`, and
/// every reply type is what its code converts to.
pub proof fn lemma_reply_codes(code: u32, r: ReplyType)
    ensures
        code < QUERY_REPLY_MAX ==> reply_code(reply_of(code)) == code,
        code >= QUERY_REPLY_MAX ==> reply_of(code) == ReplyType::Unknown,
        reply_of(reply_code(r)) == r,
{
}

/// The DNSSEC status of a raw `dnssec_status` code.
pub open spec fn dnssec_of(code: u32) -> DnssecStatus {
    if code == DNSSEC_SECURE {
        DnssecStatus::Secure
    } else if code == DNSSEC_INSECURE {
        DnssecStatus::Insecure
    } else if code == DNSSEC_BOGUS {
        DnssecStatus::Bogus
    } else if code == DNSSEC_ABANDONED {
        DnssecStatus::Abandoned
    } else {
        DnssecStatus::Unknown
    }
}

/// Whether a raw status code means the query was blocked.
pub open spec fn blocked_code(code: u32) -> bool {
    code == QUERY_GRAVITY || code == QUERY_REGEX || code == QUERY_DENYLIST || code
        == QUERY_EXTERNAL_BLOCKED_IP || code == QUERY_EXTERNAL_BLOCKED_NULL || code
        == QUERY_EXTERNAL_BLOCKED_NXRA
}

/// A status code counts as blocked exactly when it converts to one of the
/// blocking statuses (gravity, regex, denylist, blocked upstream).
pub proof fn lemma_blocked_iff_blocking_status(code: u32)
    ensures
        blocked_code(code) <==> (status_of(code) == QueryStatus::Gravity || status_of(code)
            == QueryStatus::Regex || status_of(code) == QueryStatus::Denylist || status_of(code)
            == QueryStatus::ExternalBlocked),
{
}

/// Converts a raw query type code.
pub fn convert_query_type(raw_type: u32) -> (r: QueryType)
    ensures
        r == type_of(raw_type),
{
    if raw_type == TYPE_A {
        QueryType::A
    } else if raw_type == TYPE_AAAA {
        QueryType::AAAA
    } else if raw_type == TYPE_ANY {
        QueryType::ANY
    } else if raw_type == TYPE_SRV {
        QueryType::SRV
    } else if raw_type == TYPE_SOA {
        QueryType::SOA
    } else if raw_type == TYPE_PTR {
        QueryType::PTR
    } else if raw_type == TYPE_TXT {
        QueryType::TXT
    } else if raw_type == TYPE_NAPTR {
        QueryType::NAPTR
    } else if raw_type == TYPE_MX {
        QueryType::MX
    } else if raw_type == TYPE_DS {
        QueryType::DS
    } else if raw_type == TYPE_RRSIG {
        QueryType::RRSIG
    } else if raw_type == TYPE_DNSKEY {
        QueryType::DNSKEY
    } else if raw_type == TYPE_NS {
        QueryType::NS
    } else if raw_type == TYPE_SVCB {
        QueryType::SVCB
    } else if raw_type == TYPE_HTTPS {
        QueryType::HTTPS
    } else {
        QueryType::Other(raw_type as u16)
    }
}

/// Converts a raw status code (same as [`crate::convert::raw_status_to_enum`]).
pub fn convert_query_status(status: u32) -> (r: crate::api::stats::QueryStatus)
    ensures
        r == crate::convert::status_of(status),
{
    crate::convert::raw_status_to_enum(status)
}

/// Converts a raw reply code.
pub fn convert_reply_type(reply: u32) -> (r: ReplyType)
    ensures
        r == reply_of(reply),
{
    if reply == REPLY_NODATA {
        ReplyType::NoData
    } else if reply == REPLY_NXDOMAIN {
        ReplyType::NxDomain
    } else if reply == REPLY_CNAME {
        ReplyType::Cname
    } else if reply == REPLY_IP {
        ReplyType::Ip
    } else if reply == REPLY_DOMAIN {
        ReplyType::Domain
    } else if reply == REPLY_RRNAME {
        ReplyType::Rrname
    } else if reply == REPLY_SERVFAIL {
        ReplyType::Servfail
    } else if reply == REPLY_REFUSED {
        ReplyType::Refused
    } else if reply == REPLY_NOTIMP {
        ReplyType::Notimp
    } else if reply == REPLY_OTHER {
        ReplyType::Other
    } else if reply == REPLY_DNSSEC {
        ReplyType::Dnssec
    } else if reply == REPLY_NONE {
        ReplyType::NoneReply
    } else if reply == REPLY_BLOB {
        ReplyType::Blob
    } else {
        ReplyType::Unknown
    }
}

/// Converts a raw DNSSEC code.
pub fn convert_dnssec_status(dnssec: u32) -> (r: DnssecStatus)
    ensures
        r == dnssec_of(dnssec),
{
    if dnssec == DNSSEC_SECURE {
        DnssecStatus::Secure
    } else if dnssec == DNSSEC_INSECURE {
        DnssecStatus::Insecure
    } else if dnssec == DNSSEC_BOGUS {
        DnssecStatus::Bogus
    } else if dnssec == DNSSEC_ABANDONED {
        DnssecStatus::Abandoned
    } else {
        DnssecStatus::Unknown
    }
}

/// Whether a raw status code means the query was blocked.
pub fn is_blocked(status: u32) -> (r: bool)
    ensures
        r == blocked_code(status),
{
    status == QUERY_GRAVITY || status == QUERY_REGEX || status == QUERY_DENYLIST || status
        == QUERY_EXTERNAL_BLOCKED_IP || status == QUERY_EXTERNAL_BLOCKED_NULL || status
        == QUERY_EXTERNAL_BLOCKED_NXRA
}

/// Whether a query record converts without error: it is in use, its
/// domain and client (and CNAME domain, if any) can be looked up.
pub open spec fn query_ok(t: Tables, q: QueryRecord) -> bool {
    &&& q.magic == MAGICBYTE
    &&& domain_name_ok(t, q.domain_id)
    &&& client_info_ok(t, q.client_id)
    &&& q.cname_domain_id >= 0 ==> domain_name_ok(t, q.cname_domain_id as u32)
}

/// The error that converting a failing query record gives.
pub open spec fn query_err(t: Tables, q: QueryRecord, e: FtlError) -> bool {
    if q.magic != MAGICBYTE {
        e == FtlError::InvalidMagicByte { expected: MAGICBYTE, found: q.magic }
    } else if !domain_name_ok(t, q.domain_id) {
        domain_name_read(t, q.domain_id, Err(e))
    } else if !client_info_ok(t, q.client_id) {
        client_info_err(t, q.client_id, e)
    } else {
        domain_name_read(t, q.cname_domain_id as u32, Err(e))
    }
}

/// `r` is the conversion of query record `q`.
pub open spec fn query_is(t: Tables, q: QueryRecord, r: Query) -> bool {
    &&& r.id == q.id
    &&& r.timestamp == q.timestamp
    &&& r.query_type == type_of(q.query_type)
    &&& r.domain@ == domain_name(t, q.domain_id)
    &&& r.client_ip@ == client_ip(t, q.client_id)
    &&& opt_view(r.client_name) == client_name(t, q.client_id)
    &&& r.status == status_of(q.status)
    &&& r.reply == reply_of(q.reply)
    &&& r.response_time == q.response
    &&& opt_view(r.upstream) == (if q.upstream_id >= 0 && upstream_name_ok(t, q.upstream_id as u32) {
        Some(upstream_name(t, q.upstream_id as u32))
    } else {
        None
    })
    &&& r.dnssec == dnssec_of(q.dnssec)
    &&& r.blocked == blocked_code(q.status)
    &&& opt_view(r.cname) == (if q.cname_domain_id >= 0 {
        Some(domain_name(t, q.cname_domain_id as u32))
    } else {
        None
    })
}

/// Converts a query record, looking up its domain, client, upstream and
/// CNAME target. An upstream that cannot be looked up is left out; any
/// other failed lookup is the error.
pub fn convert_query(t: &Tables, q: &QueryRecord) -> (r: Result<Query, FtlError>)
    ensures
        r is Ok <==> query_ok(*t, *q),
        r matches Ok(v) ==> query_is(*t, *q, v),
        r matches Err(e) ==> query_err(*t, *q, e),
{
    match validate_magic(q.magic) {
        Ok(()) => {},
        Err(e) => return Err(e),
    }
    let domain = match resolve_domain_name(t, q.domain_id) {
        Ok(d) => d,
        Err(e) => return Err(e),
    };
    let (client_ip, client_name) = match resolve_client_info(t, q.client_id) {
        Ok(p) => p,
        Err(e) => return Err(e),
    };
    let upstream = if q.upstream_id >= 0 {
        match resolve_upstream_name(t, q.upstream_id as u32) {
            Ok(u) => Some(u),
            Err(_) => None,
        }
    } else {
        None
    };
    let cname = if q.cname_domain_id >= 0 {
        match resolve_domain_name(t, q.cname_domain_id as u32) {
            Ok(c) => Some(c),
            Err(e) => return Err(e),
        }
    } else {
        None
    };
    Ok(Query {
        id: q.id,
        timestamp: q.timestamp,
        query_type: convert_query_type(q.query_type),
        domain,
        client_ip,
        client_name,
        status: convert_query_status(q.status),
        reply: convert_reply_type(q.reply),
        response_time: q.response,
        upstream,
        dnssec: convert_dnssec_status(q.dnssec),
        blocked: is_blocked(q.status),
        cname,
    })
}

/// Number of query records.
pub open spec fn query_count(t: Tables, queries: Seq<u8>) -> int {
    record_count(queries.len() as int, QUERY_SIZE as int, le_u32(t.counters@, COUNTERS_QUERIES_MAX as int) as int)
}

/// Positions in `lo..n` of the query records in use, newest (highest) first.
pub open spec fn in_use_desc(queries: Seq<u8>, n: int, lo: int) -> Seq<int>
    decreases n - lo,
{
    if lo >= n {
        seq![]
    } else {
        in_use_desc(queries, n, lo + 1) + (if query_at(queries, lo).magic == MAGICBYTE {
            seq![lo]
        } else {
            seq![]
        })
    }
}

/// The first `k` entries of `s` (all of `s` when it is shorter).
pub open spec fn first_k<T>(s: Seq<T>, k: int) -> Seq<T> {
    if k < s.len() {
        s.take(k)
    } else {
        s
    }
}

/// Positions of the `limit` newest query records in use, newest first.
pub open spec fn recent_positions(t: Tables, queries: Seq<u8>, limit: int) -> Seq<int> {
    first_k(in_use_desc(queries, query_count(t, queries), 0), limit)
}

/// Of the positions `ps`, those whose record converts without error.
pub open spec fn converting(t: Tables, queries: Seq<u8>, ps: Seq<int>) -> Seq<int> {
    ps.filter(|p: int| query_ok(t, query_at(queries, p)))
}

/// Filtering a sequence extended by one element.
pub proof fn lemma_filter_push<T>(s: Seq<T>, x: T, p: spec_fn(T) -> bool)
    ensures
        s.push(x).filter(p) == (if p(x) {
            s.filter(p).push(x)
        } else {
            s.filter(p)
        }),
{
    reveal(Seq::filter);
    assert(s.push(x).drop_last() =~= s);
}

proof fn lemma_in_use_desc_prefix(queries: Seq<u8>, n: int, lo: int, hi: int)
    requires
        0 <= lo <= hi,
    ensures
        in_use_desc(queries, n, hi).len() <= in_use_desc(queries, n, lo).len(),
        in_use_desc(queries, n, lo).take(in_use_desc(queries, n, hi).len() as int)
            == in_use_desc(queries, n, hi),
    decreases hi - lo,
{
    if lo < hi {
        lemma_in_use_desc_prefix(queries, n, lo + 1, hi);
        let a = in_use_desc(queries, n, lo);
        let b = in_use_desc(queries, n, lo + 1);
        let c = in_use_desc(queries, n, hi);
        if lo < n {
            assert(a.take(b.len() as int) =~= b);
        }
        assert(a.take(c.len() as int) =~= b.take(c.len() as int));
    } else {
        let a = in_use_desc(queries, n, lo);
        assert(a.take(a.len() as int) =~= a);
    }
}

proof fn lemma_in_use_desc_order(queries: Seq<u8>, n: int, lo: int)
    requires
        0 <= lo,
    ensures
        forall|a: int| 0 <= a < in_use_desc(queries, n, lo).len() ==> lo <= #[trigger] in_use_desc(queries, n, lo)[a] < n,
        forall|a: int, b: int| 0 <= a < b < in_use_desc(queries, n, lo).len() ==> #[trigger] in_use_desc(queries, n, lo)[a] > #[trigger] in_use_desc(queries, n, lo)[b],
        forall|a: int| 0 <= a < in_use_desc(queries, n, lo).len() ==> query_at(queries, #[trigger] in_use_desc(queries, n, lo)[a]).magic == MAGICBYTE,
    decreases n - lo,
{
    if lo < n {
        lemma_in_use_desc_order(queries, n, lo + 1);
        let a = in_use_desc(queries, n, lo + 1);
        let s = in_use_desc(queries, n, lo);
        assert forall|k: int| 0 <= k < a.len() implies #[trigger] s[k] == a[k] by {}
        if query_at(queries, lo).magic == MAGICBYTE {
            assert(s[a.len() as int] == lo);
            assert(s.len() == a.len() + 1);
        } else {
            assert(s =~= a);
        }
    }
}

proof fn lemma_filter_keeps_descending(s: Seq<int>, p: spec_fn(int) -> bool)
    requires
        forall|a: int, b: int| 0 <= a < b < s.len() ==> #[trigger] s[a] > #[trigger] s[b],
    ensures
        forall|a: int, b: int| 0 <= a < b < s.filter(p).len() ==> #[trigger] s.filter(p)[a] > #[trigger] s.filter(p)[b],
        forall|a: int| 0 <= a < s.filter(p).len() ==> s.contains(#[trigger] s.filter(p)[a]),
    decreases s.len(),
{
    reveal(Seq::filter);
    if s.len() > 0 {
        let d = s.drop_last();
        lemma_filter_keeps_descending(d, p);
        let f = d.filter(p);
        assert forall|a: int| 0 <= a < f.len() implies f[a] > s.last() by {
            let k = choose|k: int| 0 <= k < d.len() && d[k] == f[a];
            assert(s[k] == d[k]);
        }
        assert forall|a: int| 0 <= a < s.filter(p).len() implies s.contains(#[trigger] s.filter(p)[a]) by {
            if a < f.len() {
                let k = choose|k: int| 0 <= k < d.len() && d[k] == f[a];
                assert(s[k] == d[k]);
            } else {
                assert(s[s.len() - 1] == s.filter(p)[a]);
            }
        }
    }
}

/// The queries come newest first: the record positions behind the result
/// strictly decrease, and every one of them is in use.
pub proof fn lemma_recent_newest_first(t: Tables, queries: Seq<u8>, limit: int)
    requires
        0 <= limit,
    ensures
        ({
            let ks = converting(t, queries, recent_positions(t, queries, limit));
            &&& ks.len() <= limit
            &&& forall|a: int, b: int| 0 <= a < b < ks.len() ==> #[trigger] ks[a] > #[trigger] ks[b]
            &&& forall|a: int| 0 <= a < ks.len() ==> query_at(queries, #[trigger] ks[a]).magic == MAGICBYTE
        }),
{
    let n = query_count(t, queries);
    let all = in_use_desc(queries, n, 0);
    lemma_in_use_desc_order(queries, n, 0);
    let rp = recent_positions(t, queries, limit);
    assert forall|a: int, b: int| 0 <= a < b < rp.len() implies #[trigger] rp[a] > #[trigger] rp[b] by {
        assert(rp[a] == all[a] && rp[b] == all[b]);
    }
    let pred = |p: int| query_ok(t, query_at(queries, p));
    lemma_filter_keeps_descending(rp, pred);
    rp.lemma_filter_len(pred);
    let ks = rp.filter(pred);
    assert forall|a: int| 0 <= a < ks.len() implies query_at(queries, #[trigger] ks[a]).magic == MAGICBYTE by {
        let k = choose|k: int| 0 <= k < rp.len() && rp[k] == ks[a];
        assert(rp[k] == all[k]);
    }
}

/// `r` lists, in order, the conversions of the newest `limit` in-use
/// query records of `queries` that convert without error.
pub open spec fn recent_queries_are(t: Tables, queries: Seq<u8>, limit: int, r: Seq<Query>) -> bool {
    let ks = converting(t, queries, recent_positions(t, queries, limit));
    &&& r.len() == ks.len()
    &&& forall|j: int| 0 <= j < ks.len() ==> query_is(t, query_at(queries, ks[j]), #[trigger] r[j])
}

/// The newest `limit` in-use query records, newest first, converted; the
/// ones that fail to convert are left out (so fewer than `limit` may come back).
pub fn recent_queries(t: &Tables, queries: &[u8], limit: usize) -> (r: Vec<Query>)
    ensures
        recent_queries_are(*t, queries@, limit as int, r@),
{
    let n = count_records(queries.len(), QUERY_SIZE, read_u32(t.counters, COUNTERS_QUERIES_MAX) as usize);
    let ghost pred = |p: int| query_ok(*t, query_at(queries@, p));
    let mut out: Vec<Query> = Vec::new();
    let mut taken: usize = 0;
    let mut i: usize = n;
    let ghost mut ks: Seq<int> = seq![];
    while i > 0 && taken < limit
        invariant
            n == query_count(*t, queries@),
            n * QUERY_SIZE <= queries@.len(),
            i <= n,
            taken <= limit,
            taken == in_use_desc(queries@, n as int, i as int).len(),
            pred == (|p: int| query_ok(*t, query_at(queries@, p))),
            ks == in_use_desc(queries@, n as int, i as int).filter(pred),
            out@.len() == ks.len(),
            forall|j: int| 0 <= j < ks.len() ==> query_is(*t, query_at(queries@, ks[j]), #[trigger] out@[j]),
        decreases i,
    {
        i = i - 1;
        let rec = decode_query(queries, i);
        let ghost before = in_use_desc(queries@, n as int, (i + 1) as int);
        if rec.magic == MAGICBYTE {
            proof {
                assert(in_use_desc(queries@, n as int, i as int) == before.push(i as int));
                lemma_filter_push(before, i as int, pred);
            }
            taken = taken + 1;
            match convert_query(t, &rec) {
                Ok(q) => {
                    let ghost old_out = out@;
                    out.push(q);
                    proof {
                        ks = ks.push(i as int);
                        assert forall|j: int| 0 <= j < ks.len() implies query_is(*t, query_at(queries@, ks[j]), #[trigger] out@[j]) by {
                            if j < ks.len() - 1 {
                                assert(out@[j] == old_out[j]);
                            }
                        }
                    }
                },
                Err(_) => {},
            }
        } else {
            assert(in_use_desc(queries@, n as int, i as int) =~= before);
        }
    }
    proof {
        lemma_in_use_desc_prefix(queries@, n as int, 0, i as int);
        let all = in_use_desc(queries@, n as int, 0);
        let cur = in_use_desc(queries@, n as int, i as int);
        if i == 0 {
            assert(first_k(all, limit as int) == all);
        } else {
            assert(first_k(all, limit as int) == cur);
        }
    }
    out
}

} // verus!
