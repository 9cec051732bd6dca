//! Numeric constants of FTL's shared-memory format (version 14).

use vstd::prelude::*;

verus! {

/// Version of the shared-memory format this library understands.
pub const SHARED_MEMORY_VERSION: i32 = 14;

/// Marker byte that FTL writes into every record in use.
pub const MAGICBYTE: u8 = 0x57;

/// Number of one-second slots in the queries-per-second window of the settings segment.
pub const QPS_AVGLEN: usize = 30;

/// Length of the `querytype` counter array.
pub const TYPE_MAX: usize = 17;

/// Length of the `status` counter array.
pub const QUERY_STATUS_MAX: usize = 19;

/// Length of the `reply` counter array.
pub const QUERY_REPLY_MAX: usize = 14;

/// Length of a hardware address field of a client record.
pub const HWADDR_LEN: usize = 16;

// enum query_status
pub const QUERY_UNKNOWN: u32 = 0;
pub const QUERY_GRAVITY: u32 = 1;
pub const QUERY_FORWARDED: u32 = 2;
pub const QUERY_CACHE: u32 = 3;
pub const QUERY_REGEX: u32 = 4;
pub const QUERY_DENYLIST: u32 = 5;
pub const QUERY_EXTERNAL_BLOCKED_IP: u32 = 6;
pub const QUERY_EXTERNAL_BLOCKED_NULL: u32 = 7;
pub const QUERY_EXTERNAL_BLOCKED_NXRA: u32 = 8;

// enum reply_type
pub const REPLY_UNKNOWN: u32 = 0;
pub const REPLY_NODATA: u32 = 1;
pub const REPLY_NXDOMAIN: u32 = 2;
pub const REPLY_CNAME: u32 = 3;
pub const REPLY_IP: u32 = 4;
pub const REPLY_DOMAIN: u32 = 5;
pub const REPLY_RRNAME: u32 = 6;
pub const REPLY_SERVFAIL: u32 = 7;
pub const REPLY_REFUSED: u32 = 8;
pub const REPLY_NOTIMP: u32 = 9;
pub const REPLY_OTHER: u32 = 10;
pub const REPLY_DNSSEC: u32 = 11;
pub const REPLY_NONE: u32 = 12;
pub const REPLY_BLOB: u32 = 13;

// enum dnssec_status
pub const DNSSEC_UNKNOWN: u32 = 0;
pub const DNSSEC_SECURE: u32 = 1;
pub const DNSSEC_INSECURE: u32 = 2;
pub const DNSSEC_BOGUS: u32 = 3;
pub const DNSSEC_ABANDONED: u32 = 4;

// enum query_type, as fixed for FTL v6 (stable across the 6.x releases)
pub const TYPE_A: u32 = 1;
pub const TYPE_AAAA: u32 = 2;
pub const TYPE_ANY: u32 = 3;
pub const TYPE_SRV: u32 = 4;
pub const TYPE_SOA: u32 = 5;
pub const TYPE_PTR: u32 = 6;
pub const TYPE_TXT: u32 = 7;
pub const TYPE_NAPTR: u32 = 8;
pub const TYPE_MX: u32 = 9;
pub const TYPE_DS: u32 = 10;
pub const TYPE_RRSIG: u32 = 11;
pub const TYPE_DNSKEY: u32 = 12;
pub const TYPE_NS: u32 = 13;
pub const TYPE_SVCB: u32 = 15;
pub const TYPE_HTTPS: u32 = 16;

} // verus!
