//! Lookups across segments: the records that a query refers to and the
//! strings that records point to.

use vstd::prelude::*;
use crate::error::FtlError;
use crate::layout::{
    client_ip_pos, client_name_pos, count_records, decode_client, decode_domain,
    decode_upstream, domain_at, le_u32, read_u32, record_count, upstream_at, CLIENT_SIZE,
    COUNTERS_CLIENTS_MAX, COUNTERS_DOMAINS_MAX, COUNTERS_UPSTREAMS_MAX,
    DOMAIN_SIZE, UPSTREAM_SIZE,
};
use crate::shmem::strings::{read_c_str, string_at, string_ok, string_read};

verus! {

/// Byte images of the segments that conversions look things up in.
pub struct Tables<'a> {
    pub counters: &'a [u8],
    pub domains: &'a [u8],
    pub clients: &'a [u8],
    pub upstreams: &'a [u8],
    pub strings: &'a [u8],
    /// Usable size of the string table.
    pub strings_max: usize,
}

/// A count stored as a signed number, with negative values read as 0.
pub open spec fn max0(x: i32) -> u32 {
    if x < 0 {
        0
    } else {
        x as u32
    }
}

/// A count stored as a signed number, with negative values read as 0.
pub fn clamp_count(x: i32) -> (r: u32)
    ensures
        r == max0(x),
{
    if x < 0 {
        0
    } else {
        x as u32
    }
}

/// Number of domain records.
pub open spec fn domain_count(t: Tables) -> int {
    record_count(t.domains@.len() as int, DOMAIN_SIZE as int, le_u32(t.counters@, COUNTERS_DOMAINS_MAX as int) as int)
}

/// Number of client records.
pub open spec fn client_count_of(t: Tables) -> int {
    record_count(t.clients@.len() as int, CLIENT_SIZE as int, le_u32(t.counters@, COUNTERS_CLIENTS_MAX as int) as int)
}

/// Number of upstream records.
pub open spec fn upstream_count(t: Tables) -> int {
    record_count(t.upstreams@.len() as int, UPSTREAM_SIZE as int, le_u32(t.counters@, COUNTERS_UPSTREAMS_MAX as int) as int)
}

/// Whether the string at table offset `pos` reads without error.
pub open spec fn str_ok(t: Tables, pos: u64) -> bool {
    string_ok(t.strings@, t.strings_max, pos as usize)
}

/// The string at table offset `pos`.
pub open spec fn str_at(t: Tables, pos: u64) -> Seq<char> {
    string_at(t.strings@, pos as usize)
}

/// Reading the string at table offset `pos` gives `r`.
pub open spec fn str_read(t: Tables, pos: u64, r: Result<Seq<char>, FtlError>) -> bool {
    string_read(t.strings@, t.strings_max, pos as usize, r)
}

/// View of an owned string result.
pub open spec fn owned_result_view(r: Result<String, FtlError>) -> Result<Seq<char>, FtlError> {
    match r {
        Ok(s) => Ok(s@),
        Err(e) => Err(e),
    }
}

/// View of an optional owned string.
pub open spec fn opt_view(o: Option<String>) -> Option<Seq<char>> {
    match o {
        Some(s) => Some(s@),
        None => None,
    }
}

/// Whether the domain with this id exists and its name reads.
pub open spec fn domain_name_ok(t: Tables, id: u32) -> bool {
    id < domain_count(t) && str_ok(t, domain_at(t.domains@, id as int).domain_pos)
}

/// The name of the domain with this id.
pub open spec fn domain_name(t: Tables, id: u32) -> Seq<char> {
    str_at(t, domain_at(t.domains@, id as int).domain_pos)
}

/// Looking up the name of domain `id` gives `r`.
pub open spec fn domain_name_read(t: Tables, id: u32, r: Result<Seq<char>, FtlError>) -> bool {
    if id >= domain_count(t) {
        r == Err::<Seq<char>, FtlError>(
            FtlError::OutOfBounds { index: id as usize, max: domain_count(t) as usize },
        )
    } else {
        str_read(t, domain_at(t.domains@, id as int).domain_pos, r)
    }
}

/// Whether the client with this id exists and its address and name read.
pub open spec fn client_info_ok(t: Tables, id: u32) -> bool {
    &&& id < client_count_of(t)
    &&& str_ok(t, client_ip_pos(t.clients@, id as int))
    &&& client_name_pos(t.clients@, id as int) > 0 ==> str_ok(
        t,
        client_name_pos(t.clients@, id as int),
    )
}

/// The address of the client with this id.
pub open spec fn client_ip(t: Tables, id: u32) -> Seq<char> {
    str_at(t, client_ip_pos(t.clients@, id as int))
}

/// The host name of the client with this id, if it has one.
pub open spec fn client_name(t: Tables, id: u32) -> Option<Seq<char>> {
    if client_name_pos(t.clients@, id as int) > 0 {
        Some(str_at(t, client_name_pos(t.clients@, id as int)))
    } else {
        None
    }
}

/// The error of looking up client `id` is `e`.
pub open spec fn client_info_err(t: Tables, id: u32, e: FtlError) -> bool {
    if id >= client_count_of(t) {
        e == FtlError::OutOfBounds { index: id as usize, max: client_count_of(t) as usize }
    } else if !str_ok(t, client_ip_pos(t.clients@, id as int)) {
        str_read(t, client_ip_pos(t.clients@, id as int), Err(e))
    } else {
        str_read(t, client_name_pos(t.clients@, id as int), Err(e))
    }
}

/// Whether the upstream with this id exists and its name reads.
pub open spec fn upstream_name_ok(t: Tables, id: u32) -> bool {
    let u = upstream_at(t.upstreams@, id as int);
    &&& id < upstream_count(t)
    &&& u.ip_pos > 0 ==> str_ok(t, u.ip_pos)
    &&& u.ip_pos == 0 && u.name_pos > 0 ==> str_ok(t, u.name_pos)
}

/// The name of the upstream with this id: its address, else its host
/// name, else `unknown`.
pub open spec fn upstream_name(t: Tables, id: u32) -> Seq<char> {
    let u = upstream_at(t.upstreams@, id as int);
    if u.ip_pos > 0 {
        str_at(t, u.ip_pos)
    } else if u.name_pos > 0 {
        str_at(t, u.name_pos)
    } else {
        "unknown"@
    }
}

/// Looking up the name of upstream `id` gives `r`.
pub open spec fn upstream_name_read(t: Tables, id: u32, r: Result<Seq<char>, FtlError>) -> bool {
    let u = upstream_at(t.upstreams@, id as int);
    if id >= upstream_count(t) {
        r == Err::<Seq<char>, FtlError>(
            FtlError::OutOfBounds { index: id as usize, max: upstream_count(t) as usize },
        )
    } else if u.ip_pos > 0 {
        str_read(t, u.ip_pos, r)
    } else if u.name_pos > 0 {
        str_read(t, u.name_pos, r)
    } else {
        r == Ok::<Seq<char>, FtlError>("unknown"@)
    }
}

/// Reads the string at table offset `pos` into an owned string.
pub fn read_owned(t: &Tables, pos: u64) -> (r: Result<String, FtlError>)
    ensures
        str_read(*t, pos, owned_result_view(r)),
        r is Ok <==> str_ok(*t, pos),
        r matches Ok(s) ==> s@ == str_at(*t, pos),
{
    let r = read_c_str(t.strings, t.strings_max, pos as usize);
    match r {
        Ok(s) => Ok(s.to_owned()),
        Err(e) => Err(e),
    }
}

/// Name of the domain with this id.
pub fn resolve_domain_name(t: &Tables, domain_id: u32) -> (r: Result<String, FtlError>)
    ensures
        domain_name_read(*t, domain_id, owned_result_view(r)),
        r is Ok <==> domain_name_ok(*t, domain_id),
        r matches Ok(s) ==> s@ == domain_name(*t, domain_id),
{
    let n = count_records(t.domains.len(), DOMAIN_SIZE, read_u32(t.counters, COUNTERS_DOMAINS_MAX) as usize);
    if domain_id as usize >= n {
        return Err(FtlError::OutOfBounds { index: domain_id as usize, max: n });
    }
    let d = decode_domain(t.domains, domain_id as usize);
    read_owned(t, d.domain_pos)
}

/// Address and, where the record has one, host name of the client with this id.
pub fn resolve_client_info(t: &Tables, client_id: u32) -> (r: Result<(String, Option<String>), FtlError>)
    ensures
        r is Ok <==> client_info_ok(*t, client_id),
        r matches Ok(p) ==> p.0@ == client_ip(*t, client_id) && opt_view(p.1) == client_name(
            *t,
            client_id,
        ),
        r matches Err(e) ==> client_info_err(*t, client_id, e),
{
    let n = count_records(t.clients.len(), CLIENT_SIZE, read_u32(t.counters, COUNTERS_CLIENTS_MAX) as usize);
    if client_id as usize >= n {
        return Err(FtlError::OutOfBounds { index: client_id as usize, max: n });
    }
    let c = decode_client(t.clients, client_id as usize);
    let ip = match read_owned(t, c.ip_pos) {
        Ok(s) => s,
        Err(e) => return Err(e),
    };
    let name = if c.name_pos > 0 {
        match read_owned(t, c.name_pos) {
            Ok(s) => Some(s),
            Err(e) => return Err(e),
        }
    } else {
        None
    };
    Ok((ip, name))
}

/// Name of the upstream with this id: its address, else its host name,
/// else `unknown`.
pub fn resolve_upstream_name(t: &Tables, upstream_id: u32) -> (r: Result<String, FtlError>)
    ensures
        upstream_name_read(*t, upstream_id, owned_result_view(r)),
        r is Ok <==> upstream_name_ok(*t, upstream_id),
        r matches Ok(s) ==> s@ == upstream_name(*t, upstream_id),
{
    let n = count_records(t.upstreams.len(), UPSTREAM_SIZE, read_u32(t.counters, COUNTERS_UPSTREAMS_MAX) as usize);
    if upstream_id as usize >= n {
        return Err(FtlError::OutOfBounds { index: upstream_id as usize, max: n });
    }
    let u = decode_upstream(t.upstreams, upstream_id as usize);
    if u.ip_pos > 0 {
        read_owned(t, u.ip_pos)
    } else if u.name_pos > 0 {
        read_owned(t, u.name_pos)
    } else {
        proof {
            reveal_strlit("unknown");
        }
        Ok("unknown".to_owned())
    }
}

} // verus!
