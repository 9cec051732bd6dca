//! Conversions from FTL's raw codes to the library's types.

pub mod clients;
pub mod counters;
pub mod domains;
pub mod overtime;
pub mod queries;
pub mod tables;
pub mod top;
pub mod upstreams;

use vstd::prelude::*;
use crate::api::stats::QueryStatus;
use crate::error::FtlError;
use crate::raw::{
    MAGICBYTE, QUERY_CACHE, QUERY_DENYLIST, QUERY_EXTERNAL_BLOCKED_IP, QUERY_EXTERNAL_BLOCKED_NULL,
    QUERY_EXTERNAL_BLOCKED_NXRA, QUERY_FORWARDED, QUERY_GRAVITY, QUERY_REGEX,
};

verus! {

/// The status that a raw `query_status` code stands for.
pub open spec fn status_of(code: u32) -> QueryStatus {
    if code == QUERY_GRAVITY {
        QueryStatus::Gravity
    } else if code == QUERY_FORWARDED {
        QueryStatus::Forwarded
    } else if code == QUERY_CACHE {
        QueryStatus::Cache
    } else if code == QUERY_REGEX {
        QueryStatus::Regex
    } else if code == QUERY_DENYLIST {
        QueryStatus::Denylist
    } else if code == QUERY_EXTERNAL_BLOCKED_IP || code == QUERY_EXTERNAL_BLOCKED_NULL
        || code == QUERY_EXTERNAL_BLOCKED_NXRA {
        QueryStatus::ExternalBlocked
    } else {
        QueryStatus::Other(code)
    }
}

/// `x` with its two bytes exchanged.
pub open spec fn swap_bytes16(x: u16) -> u16 {
    ((x % 0x100) * 0x100 + x / 0x100) as u16
}

/// Converts from network byte order through `u16::from_be`, which leaves
/// the value as it is on a big-endian machine and exchanges its two bytes
/// on a little-endian one.
#[verifier::external_body]
fn u16_from_be(x: u16) -> (r: u16)
    ensures
        r == x || r == swap_bytes16(x),
{
    u16::from_be(x)
}

/// Converts a port number from network byte order to the machine's.
pub fn port_to_u16(port: libc::in_port_t) -> (r: u16)
    ensures
        r == port || r == swap_bytes16(port),
{
    u16_from_be(port)
}

/// Checks a record's marker byte.
pub fn validate_magic(magic: u8) -> (r: Result<(), FtlError>)
    ensures
        r is Ok <==> magic == MAGICBYTE,
        r is Err ==> r == Err::<(), FtlError>(
            FtlError::InvalidMagicByte { expected: MAGICBYTE, found: magic },
        ),
{
    if magic != MAGICBYTE {
        return Err(FtlError::InvalidMagicByte { expected: MAGICBYTE, found: magic });
    }
    Ok(())
}

/// Converts a raw `query_status` code.
pub fn raw_status_to_enum(status: u32) -> (r: QueryStatus)
    ensures
        r == status_of(status),
{
    if status == QUERY_GRAVITY {
        QueryStatus::Gravity
    } else if status == QUERY_FORWARDED {
        QueryStatus::Forwarded
    } else if status == QUERY_CACHE {
        QueryStatus::Cache
    } else if status == QUERY_REGEX {
        QueryStatus::Regex
    } else if status == QUERY_DENYLIST {
        QueryStatus::Denylist
    } else if status == QUERY_EXTERNAL_BLOCKED_IP {
        QueryStatus::ExternalBlocked
    } else if status == QUERY_EXTERNAL_BLOCKED_NULL {
        QueryStatus::ExternalBlocked
    } else if status == QUERY_EXTERNAL_BLOCKED_NXRA {
        QueryStatus::ExternalBlocked
    } else {
        QueryStatus::Other(status)
    }
}

} // verus!
