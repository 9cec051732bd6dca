//! Byte layout of FTL's shared-memory segments (format version 14) and safe
//! decoders for it.
//!
//! Platform: the offsets and record sizes below are those of a 64-bit
//! little-endian build of FTL (x86_64, aarch64), whose `time_t`, `size_t`
//! and pointers are 8 bytes wide. A 32-bit build (such as 32-bit ARM) lays
//! several records out with other sizes and padding; its segments are not
//! described by this module.
//!
//! Every read goes through [`byte_at`]: a byte past the end of a segment
//! reads as 0, as the unused tail of a mapped page does.

use vstd::prelude::*;
use crate::api::stats::F64Bits;
use crate::raw::{HWADDR_LEN, QPS_AVGLEN, QUERY_REPLY_MAX, QUERY_STATUS_MAX, TYPE_MAX};

verus! {

// ShmSettings
pub const SETTINGS_SIZE: usize = 136;
pub const SETTINGS_VERSION: usize = 0;
pub const SETTINGS_PID: usize = 4;
pub const SETTINGS_QPS: usize = 16;

// countersStruct
pub const COUNTERS_SIZE: usize = 284;
pub const COUNTERS_QUERIES: usize = 0;
pub const COUNTERS_UPSTREAMS: usize = 4;
pub const COUNTERS_CLIENTS: usize = 8;
pub const COUNTERS_DOMAINS: usize = 12;
pub const COUNTERS_QUERIES_MAX: usize = 16;
pub const COUNTERS_UPSTREAMS_MAX: usize = 20;
pub const COUNTERS_CLIENTS_MAX: usize = 24;
pub const COUNTERS_DOMAINS_MAX: usize = 28;
pub const COUNTERS_STRINGS_MAX: usize = 32;
pub const COUNTERS_DNS_CACHE_MAX: usize = 40;
pub const COUNTERS_QUERYTYPE: usize = 48;
pub const COUNTERS_STATUS: usize = 116;
pub const COUNTERS_REPLY: usize = 192;
pub const COUNTERS_DNS_CACHE_SIZE: usize = 248;
pub const COUNTERS_DB_GRAVITY: usize = 252;
pub const COUNTERS_DB_GROUPS: usize = 256;
pub const COUNTERS_DB_LISTS: usize = 260;

// queriesData
pub const QUERY_SIZE: usize = 88;
pub const QUERY_MAGIC: usize = 0;
pub const QUERY_STATUS: usize = 4;
pub const QUERY_TYPE: usize = 8;
pub const QUERY_REPLY: usize = 16;
pub const QUERY_DNSSEC: usize = 20;
pub const QUERY_DOMAIN_ID: usize = 28;
pub const QUERY_CLIENT_ID: usize = 32;
pub const QUERY_UPSTREAM_ID: usize = 36;
pub const QUERY_ID: usize = 44;
pub const QUERY_CNAME_DOMAIN_ID: usize = 48;
pub const QUERY_RESPONSE: usize = 56;
pub const QUERY_TIMESTAMP: usize = 64;

// domainsData
pub const DOMAIN_SIZE: usize = 32;
pub const DOMAIN_MAGIC: usize = 0;
pub const DOMAIN_COUNT: usize = 4;
pub const DOMAIN_BLOCKED: usize = 8;
pub const DOMAIN_POS: usize = 16;
pub const DOMAIN_LAST_QUERY: usize = 24;

// clientsData
pub const CLIENT_SIZE: usize = 672;
pub const CLIENT_MAGIC: usize = 0;
pub const CLIENT_HWLEN: usize = 2;
pub const CLIENT_HWADDR: usize = 3;
pub const CLIENT_COUNT: usize = 20;
pub const CLIENT_BLOCKED: usize = 24;
pub const CLIENT_IP_POS: usize = 632;
pub const CLIENT_NAME_POS: usize = 640;
pub const CLIENT_LAST_QUERY: usize = 664;

// upstreamsData
pub const UPSTREAM_SIZE: usize = 56;
pub const UPSTREAM_MAGIC: usize = 0;
pub const UPSTREAM_PORT: usize = 2;
pub const UPSTREAM_COUNT: usize = 4;
pub const UPSTREAM_FAILED: usize = 8;
pub const UPSTREAM_IP_POS: usize = 16;
pub const UPSTREAM_NAME_POS: usize = 24;
pub const UPSTREAM_RTIME: usize = 32;
pub const UPSTREAM_LAST_QUERY: usize = 48;

// overTimeData
pub const OVERTIME_SIZE: usize = 32;
pub const OVERTIME_TIMESTAMP: usize = 8;
pub const OVERTIME_TOTAL: usize = 16;
pub const OVERTIME_BLOCKED: usize = 20;
pub const OVERTIME_CACHED: usize = 24;

/// Byte `i` of a segment; 0 past its end.
pub open spec fn byte_at(b: Seq<u8>, i: int) -> u8 {
    if 0 <= i < b.len() {
        b[i]
    } else {
        0
    }
}

/// Little-endian 16-bit value at `off`.
pub open spec fn le_u16(b: Seq<u8>, off: int) -> u16 {
    (byte_at(b, off) + 0x100 * byte_at(b, off + 1)) as u16
}

/// Little-endian 32-bit value at `off`.
pub open spec fn le_u32(b: Seq<u8>, off: int) -> u32 {
    (byte_at(b, off) + 0x100 * byte_at(b, off + 1) + 0x1_0000 * byte_at(b, off + 2) + 0x100_0000
        * byte_at(b, off + 3)) as u32
}

/// Little-endian 64-bit value at `off`.
pub open spec fn le_u64(b: Seq<u8>, off: int) -> u64 {
    (le_u32(b, off) + 0x1_0000_0000 * le_u32(b, off + 4)) as u64
}

/// Little-endian two's-complement 32-bit value at `off`.
pub open spec fn le_i32(b: Seq<u8>, off: int) -> i32 {
    le_u32(b, off) as i32
}

/// Little-endian two's-complement 64-bit value at `off`.
pub open spec fn le_i64(b: Seq<u8>, off: int) -> i64 {
    le_u64(b, off) as i64
}

/// Number of records of `size` bytes to read: the count FTL announces,
/// but no more than the segment holds in full.
pub open spec fn record_count(len: int, size: int, max: int) -> int {
    if max < len / size {
        max
    } else {
        len / size
    }
}

/// Byte `i` of `b`, 0 past the end.
pub fn read_u8(b: &[u8], i: usize) -> (r: u8)
    ensures
        r == byte_at(b@, i as int),
{
    if i < b.len() {
        b[i]
    } else {
        0
    }
}

/// Reads a little-endian 16-bit value.
pub fn read_u16(b: &[u8], off: usize) -> (r: u16)
    requires
        off + 2 <= usize::MAX,
    ensures
        r == le_u16(b@, off as int),
{
    read_u8(b, off) as u16 + 0x100 * (read_u8(b, off + 1) as u16)
}

/// Reads a little-endian 32-bit value.
pub fn read_u32(b: &[u8], off: usize) -> (r: u32)
    requires
        off + 4 <= usize::MAX,
    ensures
        r == le_u32(b@, off as int),
{
    read_u8(b, off) as u32 + 0x100 * (read_u8(b, off + 1) as u32) + 0x1_0000 * (read_u8(
        b,
        off + 2,
    ) as u32) + 0x100_0000 * (read_u8(b, off + 3) as u32)
}

/// Reads a little-endian 64-bit value.
pub fn read_u64(b: &[u8], off: usize) -> (r: u64)
    requires
        off + 8 <= usize::MAX,
    ensures
        r == le_u64(b@, off as int),
{
    read_u32(b, off) as u64 + 0x1_0000_0000 * (read_u32(b, off + 4) as u64)
}

/// Reads a little-endian two's-complement 32-bit value.
pub fn read_i32(b: &[u8], off: usize) -> (r: i32)
    requires
        off + 4 <= usize::MAX,
    ensures
        r == le_i32(b@, off as int),
{
    read_u32(b, off) as i32
}

/// Reads a little-endian two's-complement 64-bit value.
pub fn read_i64(b: &[u8], off: usize) -> (r: i64)
    requires
        off + 8 <= usize::MAX,
    ensures
        r == le_i64(b@, off as int),
{
    read_u64(b, off) as i64
}

/// Reads the bit pattern of a double.
pub fn read_f64_bits(b: &[u8], off: usize) -> (r: F64Bits)
    requires
        off + 8 <= usize::MAX,
    ensures
        r.bits == le_u64(b@, off as int),
{
    F64Bits { bits: read_u64(b, off) }
}

/// Number of records of `size` bytes to read (see [`record_count`]).
pub fn count_records(len: usize, size: usize, max: usize) -> (r: usize)
    requires
        size > 0,
    ensures
        r == record_count(len as int, size as int, max as int),
{
    let whole = len / size;
    if max < whole {
        max
    } else {
        whole
    }
}

/// `n` consecutive little-endian 32-bit values starting at `off`.
pub open spec fn le_u32_array(b: Seq<u8>, off: int, n: int) -> Seq<u32> {
    Seq::new(n as nat, |i: int| le_u32(b, off + 4 * i))
}

/// Reads `n` consecutive little-endian 32-bit values.
pub fn read_u32_array(b: &[u8], off: usize, n: usize) -> (r: Vec<u32>)
    requires
        off + 4 * n + 4 <= usize::MAX,
    ensures
        r@ == le_u32_array(b@, off as int, n as int),
{
    let mut v: Vec<u32> = Vec::new();
    let mut i: usize = 0;
    while i < n
        invariant
            i <= n,
            off + 4 * n + 4 <= usize::MAX,
            v@ == le_u32_array(b@, off as int, i as int),
        decreases n - i,
    {
        v.push(read_u32(b, off + 4 * i));
        i = i + 1;
        assert(v@ =~= le_u32_array(b@, off as int, i as int));
    }
    v
}

/// The fields of the settings segment that the library reads.
#[derive(Debug, Clone)]
pub struct Settings {
    pub version: i32,
    pub pid: i32,
    /// Queries per second over the last [`QPS_AVGLEN`] seconds.
    pub qps: Vec<u32>,
}

/// The fields of the counters segment that the library reads.
#[derive(Debug, Clone)]
pub struct Counters {
    pub queries: u32,
    pub upstreams: u32,
    pub clients: u32,
    pub domains: u32,
    pub queries_max: u32,
    pub upstreams_max: u32,
    pub clients_max: u32,
    pub domains_max: u32,
    pub strings_max: u32,
    pub dns_cache_max: u32,
    pub dns_cache_size: u32,
    pub querytype: Vec<u32>,
    pub status: Vec<u32>,
    pub reply: Vec<u32>,
    pub gravity: i32,
    pub groups: i32,
    pub lists: i32,
}

/// A query record.
#[derive(Debug, Clone, Copy, PartialEq, Eq, Structural)]
pub struct QueryRecord {
    pub magic: u8,
    pub status: u32,
    pub query_type: u32,
    pub reply: u32,
    pub dnssec: u32,
    pub domain_id: u32,
    pub client_id: u32,
    pub upstream_id: i32,
    pub id: i32,
    pub cname_domain_id: i32,
    pub response: F64Bits,
    pub timestamp: F64Bits,
}

/// A domain record.
#[derive(Debug, Clone, Copy, PartialEq, Eq, Structural)]
pub struct DomainRecord {
    pub magic: u8,
    pub count: i32,
    pub blocked_count: i32,
    pub domain_pos: u64,
    pub last_query: F64Bits,
}

/// A client record.
#[derive(Debug, Clone)]
pub struct ClientRecord {
    pub magic: u8,
    pub hwlen: i8,
    pub hwaddr: Vec<u8>,
    pub count: i32,
    pub blocked_count: i32,
    pub ip_pos: u64,
    pub name_pos: u64,
    pub last_query: F64Bits,
}

/// An upstream server record.
#[derive(Debug, Clone, Copy, PartialEq, Eq, Structural)]
pub struct UpstreamRecord {
    pub magic: u8,
    pub port: u16,
    pub count: i32,
    pub failed: i32,
    pub ip_pos: u64,
    pub name_pos: u64,
    pub rtime: F64Bits,
    pub last_query: F64Bits,
}

/// An over-time slot record.
#[derive(Debug, Clone, Copy, PartialEq, Eq, Structural)]
pub struct OvertimeRecord {
    pub timestamp: i64,
    pub total: i32,
    pub blocked: i32,
    pub cached: i32,
}

/// The settings fields as stored in `b`.
pub open spec fn settings_fields(b: Seq<u8>, s: Settings) -> bool {
    &&& s.version == le_i32(b, SETTINGS_VERSION as int)
    &&& s.pid == le_i32(b, SETTINGS_PID as int)
    &&& s.qps@ == le_u32_array(b, SETTINGS_QPS as int, QPS_AVGLEN as int)
}

/// The counters fields as stored in `b`.
pub open spec fn counters_fields(b: Seq<u8>, c: Counters) -> bool {
    &&& c.queries == le_u32(b, COUNTERS_QUERIES as int)
    &&& c.upstreams == le_u32(b, COUNTERS_UPSTREAMS as int)
    &&& c.clients == le_u32(b, COUNTERS_CLIENTS as int)
    &&& c.domains == le_u32(b, COUNTERS_DOMAINS as int)
    &&& c.queries_max == le_u32(b, COUNTERS_QUERIES_MAX as int)
    &&& c.upstreams_max == le_u32(b, COUNTERS_UPSTREAMS_MAX as int)
    &&& c.clients_max == le_u32(b, COUNTERS_CLIENTS_MAX as int)
    &&& c.domains_max == le_u32(b, COUNTERS_DOMAINS_MAX as int)
    &&& c.strings_max == le_u32(b, COUNTERS_STRINGS_MAX as int)
    &&& c.dns_cache_max == le_u32(b, COUNTERS_DNS_CACHE_MAX as int)
    &&& c.dns_cache_size == le_u32(b, COUNTERS_DNS_CACHE_SIZE as int)
    &&& c.querytype@ == le_u32_array(b, COUNTERS_QUERYTYPE as int, TYPE_MAX as int)
    &&& c.status@ == le_u32_array(b, COUNTERS_STATUS as int, QUERY_STATUS_MAX as int)
    &&& c.reply@ == le_u32_array(b, COUNTERS_REPLY as int, QUERY_REPLY_MAX as int)
    &&& c.gravity == le_i32(b, COUNTERS_DB_GRAVITY as int)
    &&& c.groups == le_i32(b, COUNTERS_DB_GROUPS as int)
    &&& c.lists == le_i32(b, COUNTERS_DB_LISTS as int)
}

/// The query record at position `i` of a queries segment.
pub open spec fn query_at(b: Seq<u8>, i: int) -> QueryRecord {
    let o = i * QUERY_SIZE;
    QueryRecord {
        magic: byte_at(b, o + QUERY_MAGIC),
        status: le_u32(b, o + QUERY_STATUS),
        query_type: le_u32(b, o + QUERY_TYPE),
        reply: le_u32(b, o + QUERY_REPLY),
        dnssec: le_u32(b, o + QUERY_DNSSEC),
        domain_id: le_u32(b, o + QUERY_DOMAIN_ID),
        client_id: le_u32(b, o + QUERY_CLIENT_ID),
        upstream_id: le_i32(b, o + QUERY_UPSTREAM_ID),
        id: le_i32(b, o + QUERY_ID),
        cname_domain_id: le_i32(b, o + QUERY_CNAME_DOMAIN_ID),
        response: F64Bits { bits: le_u64(b, o + QUERY_RESPONSE) },
        timestamp: F64Bits { bits: le_u64(b, o + QUERY_TIMESTAMP) },
    }
}

/// The domain record at position `i` of a domains segment.
pub open spec fn domain_at(b: Seq<u8>, i: int) -> DomainRecord {
    let o = i * DOMAIN_SIZE;
    DomainRecord {
        magic: byte_at(b, o + DOMAIN_MAGIC),
        count: le_i32(b, o + DOMAIN_COUNT),
        blocked_count: le_i32(b, o + DOMAIN_BLOCKED),
        domain_pos: le_u64(b, o + DOMAIN_POS),
        last_query: F64Bits { bits: le_u64(b, o + DOMAIN_LAST_QUERY) },
    }
}

/// Marker byte of the client record at position `i`.
pub open spec fn client_magic(b: Seq<u8>, i: int) -> u8 {
    byte_at(b, i * CLIENT_SIZE + CLIENT_MAGIC)
}

/// Hardware address length of the client record at position `i`.
pub open spec fn client_hwlen(b: Seq<u8>, i: int) -> i8 {
    byte_at(b, i * CLIENT_SIZE + CLIENT_HWLEN) as i8
}

/// Hardware address bytes of the client record at position `i`.
pub open spec fn client_hwaddr(b: Seq<u8>, i: int) -> Seq<u8> {
    Seq::new(HWADDR_LEN as nat, |k: int| byte_at(b, i * CLIENT_SIZE + CLIENT_HWADDR + k))
}

/// Query count of the client record at position `i`.
pub open spec fn client_count(b: Seq<u8>, i: int) -> i32 {
    le_i32(b, i * CLIENT_SIZE + CLIENT_COUNT)
}

/// Blocked query count of the client record at position `i`.
pub open spec fn client_blocked(b: Seq<u8>, i: int) -> i32 {
    le_i32(b, i * CLIENT_SIZE + CLIENT_BLOCKED)
}

/// String-table offset of the IP address of the client record at position `i`.
pub open spec fn client_ip_pos(b: Seq<u8>, i: int) -> u64 {
    le_u64(b, i * CLIENT_SIZE + CLIENT_IP_POS)
}

/// String-table offset of the host name of the client record at position `i`.
pub open spec fn client_name_pos(b: Seq<u8>, i: int) -> u64 {
    le_u64(b, i * CLIENT_SIZE + CLIENT_NAME_POS)
}

/// Time of the last query of the client record at position `i`.
pub open spec fn client_last_query(b: Seq<u8>, i: int) -> F64Bits {
    F64Bits { bits: le_u64(b, i * CLIENT_SIZE + CLIENT_LAST_QUERY) }
}

/// The client record at position `i` of a clients segment, as stored in `b`.
pub open spec fn client_fields(b: Seq<u8>, i: int, c: ClientRecord) -> bool {
    &&& c.magic == client_magic(b, i)
    &&& c.hwlen == client_hwlen(b, i)
    &&& c.hwaddr@ == client_hwaddr(b, i)
    &&& c.count == client_count(b, i)
    &&& c.blocked_count == client_blocked(b, i)
    &&& c.ip_pos == client_ip_pos(b, i)
    &&& c.name_pos == client_name_pos(b, i)
    &&& c.last_query == client_last_query(b, i)
}

/// The upstream record at position `i` of an upstreams segment.
pub open spec fn upstream_at(b: Seq<u8>, i: int) -> UpstreamRecord {
    let o = i * UPSTREAM_SIZE;
    UpstreamRecord {
        magic: byte_at(b, o + UPSTREAM_MAGIC),
        port: le_u16(b, o + UPSTREAM_PORT),
        count: le_i32(b, o + UPSTREAM_COUNT),
        failed: le_i32(b, o + UPSTREAM_FAILED),
        ip_pos: le_u64(b, o + UPSTREAM_IP_POS),
        name_pos: le_u64(b, o + UPSTREAM_NAME_POS),
        rtime: F64Bits { bits: le_u64(b, o + UPSTREAM_RTIME) },
        last_query: F64Bits { bits: le_u64(b, o + UPSTREAM_LAST_QUERY) },
    }
}

/// The over-time record at position `i` of an over-time segment.
pub open spec fn overtime_at(b: Seq<u8>, i: int) -> OvertimeRecord {
    let o = i * OVERTIME_SIZE;
    OvertimeRecord {
        timestamp: le_i64(b, o + OVERTIME_TIMESTAMP),
        total: le_i32(b, o + OVERTIME_TOTAL),
        blocked: le_i32(b, o + OVERTIME_BLOCKED),
        cached: le_i32(b, o + OVERTIME_CACHED),
    }
}

/// Decodes the settings segment.
pub fn decode_settings(b: &[u8]) -> (s: Settings)
    ensures
        settings_fields(b@, s),
{
    Settings {
        version: read_i32(b, SETTINGS_VERSION),
        pid: read_i32(b, SETTINGS_PID),
        qps: read_u32_array(b, SETTINGS_QPS, QPS_AVGLEN),
    }
}

/// Decodes the counters segment.
pub fn decode_counters(b: &[u8]) -> (c: Counters)
    ensures
        counters_fields(b@, c),
{
    Counters {
        queries: read_u32(b, COUNTERS_QUERIES),
        upstreams: read_u32(b, COUNTERS_UPSTREAMS),
        clients: read_u32(b, COUNTERS_CLIENTS),
        domains: read_u32(b, COUNTERS_DOMAINS),
        queries_max: read_u32(b, COUNTERS_QUERIES_MAX),
        upstreams_max: read_u32(b, COUNTERS_UPSTREAMS_MAX),
        clients_max: read_u32(b, COUNTERS_CLIENTS_MAX),
        domains_max: read_u32(b, COUNTERS_DOMAINS_MAX),
        strings_max: read_u32(b, COUNTERS_STRINGS_MAX),
        dns_cache_max: read_u32(b, COUNTERS_DNS_CACHE_MAX),
        dns_cache_size: read_u32(b, COUNTERS_DNS_CACHE_SIZE),
        querytype: read_u32_array(b, COUNTERS_QUERYTYPE, TYPE_MAX),
        status: read_u32_array(b, COUNTERS_STATUS, QUERY_STATUS_MAX),
        reply: read_u32_array(b, COUNTERS_REPLY, QUERY_REPLY_MAX),
        gravity: read_i32(b, COUNTERS_DB_GRAVITY),
        groups: read_i32(b, COUNTERS_DB_GROUPS),
        lists: read_i32(b, COUNTERS_DB_LISTS),
    }
}

/// Decodes the query record at position `i`.
pub fn decode_query(b: &[u8], i: usize) -> (r: QueryRecord)
    requires
        i * QUERY_SIZE + QUERY_SIZE <= b.len(),
    ensures
        r == query_at(b@, i as int),
{
    let o = i * QUERY_SIZE;
    QueryRecord {
        magic: read_u8(b, o + QUERY_MAGIC),
        status: read_u32(b, o + QUERY_STATUS),
        query_type: read_u32(b, o + QUERY_TYPE),
        reply: read_u32(b, o + QUERY_REPLY),
        dnssec: read_u32(b, o + QUERY_DNSSEC),
        domain_id: read_u32(b, o + QUERY_DOMAIN_ID),
        client_id: read_u32(b, o + QUERY_CLIENT_ID),
        upstream_id: read_i32(b, o + QUERY_UPSTREAM_ID),
        id: read_i32(b, o + QUERY_ID),
        cname_domain_id: read_i32(b, o + QUERY_CNAME_DOMAIN_ID),
        response: read_f64_bits(b, o + QUERY_RESPONSE),
        timestamp: read_f64_bits(b, o + QUERY_TIMESTAMP),
    }
}

/// Decodes the domain record at position `i`.
pub fn decode_domain(b: &[u8], i: usize) -> (r: DomainRecord)
    requires
        i * DOMAIN_SIZE + DOMAIN_SIZE <= b.len(),
    ensures
        r == domain_at(b@, i as int),
{
    let o = i * DOMAIN_SIZE;
    DomainRecord {
        magic: read_u8(b, o + DOMAIN_MAGIC),
        count: read_i32(b, o + DOMAIN_COUNT),
        blocked_count: read_i32(b, o + DOMAIN_BLOCKED),
        domain_pos: read_u64(b, o + DOMAIN_POS),
        last_query: read_f64_bits(b, o + DOMAIN_LAST_QUERY),
    }
}

/// Decodes the client record at position `i`.
pub fn decode_client(b: &[u8], i: usize) -> (r: ClientRecord)
    requires
        i * CLIENT_SIZE + CLIENT_SIZE <= b.len(),
    ensures
        client_fields(b@, i as int, r),
{
    let o = i * CLIENT_SIZE;
    let mut hwaddr: Vec<u8> = Vec::new();
    let mut k: usize = 0;
    while k < HWADDR_LEN
        invariant
            k <= HWADDR_LEN,
            o == i * CLIENT_SIZE,
            o + CLIENT_SIZE <= b.len(),
            hwaddr@ == Seq::new(k as nat, |j: int| byte_at(b@, o + CLIENT_HWADDR + j)),
        decreases HWADDR_LEN - k,
    {
        hwaddr.push(read_u8(b, o + CLIENT_HWADDR + k));
        k = k + 1;
        assert(hwaddr@ =~= Seq::new(k as nat, |j: int| byte_at(b@, o + CLIENT_HWADDR + j)));
    }
    assert(hwaddr@ =~= client_hwaddr(b@, i as int));
    ClientRecord {
        magic: read_u8(b, o + CLIENT_MAGIC),
        hwlen: read_u8(b, o + CLIENT_HWLEN) as i8,
        hwaddr,
        count: read_i32(b, o + CLIENT_COUNT),
        blocked_count: read_i32(b, o + CLIENT_BLOCKED),
        ip_pos: read_u64(b, o + CLIENT_IP_POS),
        name_pos: read_u64(b, o + CLIENT_NAME_POS),
        last_query: read_f64_bits(b, o + CLIENT_LAST_QUERY),
    }
}

/// Decodes the upstream record at position `i`.
pub fn decode_upstream(b: &[u8], i: usize) -> (r: UpstreamRecord)
    requires
        i * UPSTREAM_SIZE + UPSTREAM_SIZE <= b.len(),
    ensures
        r == upstream_at(b@, i as int),
{
    let o = i * UPSTREAM_SIZE;
    UpstreamRecord {
        magic: read_u8(b, o + UPSTREAM_MAGIC),
        port: read_u16(b, o + UPSTREAM_PORT),
        count: read_i32(b, o + UPSTREAM_COUNT),
        failed: read_i32(b, o + UPSTREAM_FAILED),
        ip_pos: read_u64(b, o + UPSTREAM_IP_POS),
        name_pos: read_u64(b, o + UPSTREAM_NAME_POS),
        rtime: read_f64_bits(b, o + UPSTREAM_RTIME),
        last_query: read_f64_bits(b, o + UPSTREAM_LAST_QUERY),
    }
}

/// Decodes the over-time record at position `i`.
pub fn decode_overtime(b: &[u8], i: usize) -> (r: OvertimeRecord)
    requires
        i * OVERTIME_SIZE + OVERTIME_SIZE <= b.len(),
    ensures
        r == overtime_at(b@, i as int),
{
    let o = i * OVERTIME_SIZE;
    OvertimeRecord {
        timestamp: read_i64(b, o + OVERTIME_TIMESTAMP),
        total: read_i32(b, o + OVERTIME_TOTAL),
        blocked: read_i32(b, o + OVERTIME_BLOCKED),
        cached: read_i32(b, o + OVERTIME_CACHED),
    }
}

} // verus!
