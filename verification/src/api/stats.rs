//! Statistics handed out by the library.

use vstd::prelude::*;

verus! {

/// DNS query type.
#[derive(Debug, Clone, Copy, PartialEq, Eq, Hash, Structural)]
pub enum QueryType {
    A,
    AAAA,
    ANY,
    SRV,
    SOA,
    PTR,
    TXT,
    NAPTR,
    MX,
    DS,
    RRSIG,
    DNSKEY,
    NS,
    SVCB,
    HTTPS,
    Other(u16),
}

/// How FTL handled a query.
#[derive(Debug, Clone, Copy, PartialEq, Eq, Hash, Structural)]
pub enum QueryStatus {
    Unknown,
    Gravity,
    Forwarded,
    Cache,
    Regex,
    Denylist,
    ExternalBlocked,
    DatabaseBusy,
    SpecialDomain,
    CacheStale,
    InProgress,
    Other(u32),
}

/// Kind of reply FTL sent.
#[derive(Debug, Clone, Copy, PartialEq, Eq, Hash, Structural)]
pub enum ReplyType {
    Unknown,
    NoData,
    NxDomain,
    Cname,
    Ip,
    Domain,
    Rrname,
    Servfail,
    Refused,
    Notimp,
    Other,
    Dnssec,
    NoneReply,
    Blob,
}

/// DNSSEC validation outcome.
#[derive(Debug, Clone, Copy, PartialEq, Eq, Structural)]
pub enum DnssecStatus {
    Unknown,
    Secure,
    Insecure,
    Bogus,
    Abandoned,
}

/// The bit pattern of an IEEE-754 double stored by FTL (a timestamp in
/// seconds since the Unix epoch, or a duration in seconds). The library
/// carries it unchanged; `f64::from_bits` gives the number.
#[derive(Debug, Clone, Copy, PartialEq, Eq, Structural)]
pub struct F64Bits {
    pub bits: u64,
}

/// General statistics. The blocked percentage is
/// `queries_blocked / queries_total * 100` (0 when there are no queries) and
/// the queries per second are `qps_window_sum / QPS_AVGLEN`.
#[derive(Debug, Clone)]
pub struct StatsSummary {
    pub queries_total: u32,
    pub queries_blocked: u32,
    pub queries_forwarded: u32,
    pub queries_cached: u32,
    pub domains_unique: u32,
    pub clients_total: u32,
    pub clients_active: u32,
    pub upstreams_total: u32,
    /// Sum of the per-second query counts over the averaging window.
    pub qps_window_sum: u32,
    /// Count per query type; each type occurs at most once.
    pub query_types: Vec<(QueryType, u32)>,
    /// Count per status; each status occurs at most once.
    pub status_distribution: Vec<(QueryStatus, u32)>,
    /// Count per reply type; each reply type occurs at most once.
    pub reply_types: Vec<(ReplyType, u32)>,
    pub gravity_size: u32,
}

/// A single DNS query.
#[derive(Debug, Clone)]
pub struct Query {
    pub id: i32,
    pub timestamp: F64Bits,
    pub query_type: QueryType,
    pub domain: String,
    pub client_ip: String,
    pub client_name: Option<String>,
    pub status: QueryStatus,
    pub reply: ReplyType,
    /// Response time in seconds, as FTL stores it.
    pub response_time: F64Bits,
    pub upstream: Option<String>,
    pub dnssec: DnssecStatus,
    pub blocked: bool,
    pub cname: Option<String>,
}

/// Statistics of one domain.
#[derive(Debug, Clone)]
pub struct DomainStats {
    pub domain: String,
    pub count: u32,
    pub blocked_count: u32,
    pub last_query: F64Bits,
}

/// Statistics of one client.
#[derive(Debug, Clone)]
pub struct ClientStats {
    pub ip: String,
    pub name: Option<String>,
    pub mac: Option<String>,
    pub count: u32,
    pub blocked_count: u32,
    pub last_query: F64Bits,
}

/// Statistics of one upstream server.
#[derive(Debug, Clone)]
pub struct UpstreamStats {
    pub ip: String,
    pub name: Option<String>,
    pub port: u16,
    pub count: u32,
    pub failed: u32,
    /// Average response time in milliseconds.
    pub response_time_avg_ms: F64Bits,
    pub last_query: F64Bits,
}

/// One ten-minute slot of the over-time series.
#[derive(Debug, Clone, Copy, PartialEq, Eq, Structural)]
pub struct OvertimeSlot {
    /// Start of the slot, in seconds since the Unix epoch.
    pub timestamp: u64,
    pub total: u32,
    pub blocked: u32,
    pub cached: u32,
    pub forwarded: u32,
}

} // verus!
