//! Access to FTL's shared-memory segments.

pub mod pid;
pub mod reader;
pub mod strings;
pub mod version;

use vstd::prelude::*;
use memmap2::Mmap;
use crate::text::{decimal, push_decimal};

verus! {

/// The shared-memory segments of FTL.
#[derive(Debug, Clone, Copy, PartialEq, Eq, Structural)]
pub enum ShmSegment {
    Lock,
    Strings,
    Counters,
    Domains,
    Clients,
    Queries,
    Upstreams,
    OverTime,
    Settings,
    DnsCache,
    PerClientRegex,
    FifoLog,
    ClientsLookup,
    DomainsLookup,
    DnsCacheLookup,
    Recycler,
}

/// Name of a segment as it appears in its file name.
pub open spec fn segment_name(s: ShmSegment) -> Seq<char> {
    match s {
        ShmSegment::Lock => "lock"@,
        ShmSegment::Strings => "strings"@,
        ShmSegment::Counters => "counters"@,
        ShmSegment::Domains => "domains"@,
        ShmSegment::Clients => "clients"@,
        ShmSegment::Queries => "queries"@,
        ShmSegment::Upstreams => "upstreams"@,
        ShmSegment::OverTime => "overTime"@,
        ShmSegment::Settings => "settings"@,
        ShmSegment::DnsCache => "dns-cache"@,
        ShmSegment::PerClientRegex => "per-client-regex"@,
        ShmSegment::FifoLog => "fifo-log"@,
        ShmSegment::ClientsLookup => "clients-lookup"@,
        ShmSegment::DomainsLookup => "domains-lookup"@,
        ShmSegment::DnsCacheLookup => "dns-cache-lookup"@,
        ShmSegment::Recycler => "recycler"@,
    }
}

/// File name of a segment of process `pid`: `FTL-<pid>-<name>`.
pub open spec fn segment_file(pid: u32, s: ShmSegment) -> Seq<char> {
    "FTL-"@ + decimal(pid as nat) + "-"@ + segment_name(s)
}

impl ShmSegment {
    /// Name of the segment as it appears in its file name.
    pub fn name(&self) -> (r: &'static str)
        ensures
            r@ == segment_name(*self),
    {
        match self {
            ShmSegment::Lock => "lock",
            ShmSegment::Strings => "strings",
            ShmSegment::Counters => "counters",
            ShmSegment::Domains => "domains",
            ShmSegment::Clients => "clients",
            ShmSegment::Queries => "queries",
            ShmSegment::Upstreams => "upstreams",
            ShmSegment::OverTime => "overTime",
            ShmSegment::Settings => "settings",
            ShmSegment::DnsCache => "dns-cache",
            ShmSegment::PerClientRegex => "per-client-regex",
            ShmSegment::FifoLog => "fifo-log",
            ShmSegment::ClientsLookup => "clients-lookup",
            ShmSegment::DomainsLookup => "domains-lookup",
            ShmSegment::DnsCacheLookup => "dns-cache-lookup",
            ShmSegment::Recycler => "recycler",
        }
    }
}

/// File name of a segment of process `pid` under the shared-memory directory.
pub fn segment_file_name(pid: u32, segment: ShmSegment) -> (r: String)
    ensures
        r@ == segment_file(pid, segment),
{
    let mut s = "FTL-".to_owned();
    push_decimal(&mut s, pid);
    s.append("-");
    s.append(segment.name());
    s
}

/// Declares `memmap2::Mmap`, the read-only mapping of a segment file.
#[verifier::external_type_specification]
#[verifier::external_body]
pub struct ExMmap(Mmap);

/// `mapped_image(m, b)`: `b` is what the mapping `m` held at some moment of
/// a read. A relation, not a function of `m`: FTL keeps writing to its
/// segments, so two reads of one mapping may give different bytes, and each
/// of them is an image of that mapping.
pub uninterp spec fn mapped_image(m: Mmap, b: Seq<u8>) -> bool;

/// The bytes of a mapped segment, through `<memmap2::Mmap as Deref>::deref`
/// (the whole mapping as a slice). Claimed: they are an image of `m`, the
/// mapping handed in. Not claimed: which bytes they are, since FTL writes to
/// the segment while it is read.
#[verifier::external_body]
pub(crate) fn mapped_bytes(m: &Mmap) -> (r: &[u8])
    ensures
        mapped_image(*m, r@),
{
    &m[..]
}

} // verus!
