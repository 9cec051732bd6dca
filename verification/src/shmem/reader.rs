//! Reading FTL's shared-memory segments.

use vstd::prelude::*;
use memmap2::Mmap;
use crate::api::stats::{ClientStats, DomainStats, OvertimeSlot, Query, StatsSummary, UpstreamStats};
use crate::convert::clients::{top_clients, top_clients_are};
use crate::convert::counters::{summary_is, summary_of};
use crate::convert::domains::{top_domains, top_domains_are};
use crate::convert::overtime::{overtime_data, overtime_slot_count, overtime_slots};
use crate::convert::queries::{recent_queries, recent_queries_are};
use crate::convert::tables::Tables;
use crate::convert::upstreams::{upstreams, upstreams_are};
use crate::error::FtlError;
use crate::layout::{
    count_records, counters_fields, decode_client, decode_counters, decode_domain,
    decode_overtime, decode_query, decode_settings, decode_upstream, domain_at, le_i32, le_u32,
    overtime_at, query_at, read_u32, record_count, upstream_at, client_fields,
    settings_fields, ClientRecord, Counters, DomainRecord, OvertimeRecord, QueryRecord, Settings,
    UpstreamRecord, CLIENT_SIZE, COUNTERS_CLIENTS_MAX, COUNTERS_DOMAINS_MAX, COUNTERS_QUERIES_MAX,
    COUNTERS_STRINGS_MAX, COUNTERS_UPSTREAMS_MAX, DOMAIN_SIZE, OVERTIME_SIZE, QUERY_SIZE,
    SETTINGS_PID, SETTINGS_SIZE, SETTINGS_VERSION, UPSTREAM_SIZE,
};
use crate::raw::SHARED_MEMORY_VERSION;
use crate::shmem::{mapped_bytes, mapped_image};
use crate::shmem::strings::StringBuffer;
use crate::shmem::version::FtlVersion;

verus! {

/// Shared-memory directory used when none is configured.
pub const DEFAULT_SHM_PATH: &'static str = "/dev/shm";

/// Where to find FTL's segments.
pub struct ShmemConfig {
    pub pid: u32,
    pub shm_path: String,
}

impl ShmemConfig {
    /// Segments of process `pid`, in the directory named by the
    /// `FTL_SHM_PATH` environment variable (its value, if set, is
    /// `env_shm_path`) or else in `/dev/shm`.
    pub fn with_pid(pid: u32, env_shm_path: Option<String>) -> (r: ShmemConfig)
        ensures
            r.pid == pid,
            r.shm_path@ == (match env_shm_path {
                Some(p) => p@,
                None => DEFAULT_SHM_PATH@,
            }),
    {
        let shm_path = match env_shm_path {
            Some(p) => p,
            None => DEFAULT_SHM_PATH.to_owned(),
        };
        ShmemConfig { pid, shm_path }
    }

    /// The same configuration with another shared-memory directory.
    pub fn with_shm_path(self, path: String) -> (r: ShmemConfig)
        ensures
            r.pid == self.pid,
            r.shm_path@ == path@,
    {
        ShmemConfig { pid: self.pid, shm_path: path }
    }
}

/// The outcome of checking the settings segment: too small, an unsupported
/// format version, or the version found.
pub open spec fn settings_check(b: Seq<u8>, r: Result<FtlVersion, FtlError>) -> bool {
    if b.len() < SETTINGS_SIZE {
        r == Err::<FtlVersion, FtlError>(
            FtlError::ShmemTooSmall { expected: SETTINGS_SIZE, actual: b.len() as usize },
        )
    } else if le_i32(b, SETTINGS_VERSION as int) != SHARED_MEMORY_VERSION {
        r == Err::<FtlVersion, FtlError>(
            FtlError::VersionMismatch {
                expected: SHARED_MEMORY_VERSION,
                found: le_i32(b, SETTINGS_VERSION as int),
            },
        )
    } else {
        r == Ok::<FtlVersion, FtlError>(
            FtlVersion {
                shmem_version: le_i32(b, SETTINGS_VERSION as int),
                pid: le_i32(b, SETTINGS_PID as int) as u32,
            },
        )
    }
}

/// Reads the settings segment, which must hold a whole settings record.
pub fn read_settings(b: &[u8]) -> (r: Result<Settings, FtlError>)
    ensures
        b@.len() < SETTINGS_SIZE ==> r == Err::<Settings, FtlError>(
            FtlError::ShmemTooSmall { expected: SETTINGS_SIZE, actual: b@.len() as usize },
        ),
        b@.len() >= SETTINGS_SIZE ==> (r matches Ok(s) && settings_fields(b@, s)),
{
    if b.len() < SETTINGS_SIZE {
        return Err(FtlError::ShmemTooSmall { expected: SETTINGS_SIZE, actual: b.len() });
    }
    Ok(decode_settings(b))
}

/// Checks the settings segment and returns the version it announces, when
/// this library supports it.
pub fn check_settings(b: &[u8]) -> (r: Result<FtlVersion, FtlError>)
    ensures
        settings_check(b@, r),
{
    let settings = match read_settings(b) {
        Ok(s) => s,
        Err(e) => return Err(e),
    };
    let version = FtlVersion::from_settings(settings.version, settings.pid);
    if !version.is_supported() {
        return Err(FtlError::VersionMismatch {
            expected: SHARED_MEMORY_VERSION,
            found: version.shmem_version,
        });
    }
    Ok(version)
}

/// Usable size of the string table, as the counters segment announces it.
pub fn strings_max_of(counters: &[u8]) -> (r: usize)
    ensures
        r == le_u32(counters@, COUNTERS_STRINGS_MAX as int) as usize,
{
    read_u32(counters, COUNTERS_STRINGS_MAX) as usize
}

/// The mapped segments of a running FTL.
pub struct ShmemReader {
    pub pid: u32,
    pub shm_path: String,
    pub version: FtlVersion,
    pub settings: Mmap,
    pub counters: Mmap,
    pub queries: Mmap,
    pub clients: Mmap,
    pub domains: Mmap,
    pub upstreams: Mmap,
    pub overtime: Mmap,
    pub dns_cache: Mmap,
    pub strings: StringBuffer,
}

impl ShmemReader {
    /// Assembles a reader from the opened segments, each in its own field;
    /// the string table's usable size is the `strings_MAX` that the counters
    /// segment announces at the time of the call, read from an image of
    /// `counters`.
    pub fn from_segments(
        config: ShmemConfig,
        version: FtlVersion,
        settings: Mmap,
        counters: Mmap,
        strings: Mmap,
        queries: Mmap,
        clients: Mmap,
        domains: Mmap,
        upstreams: Mmap,
        overtime: Mmap,
        dns_cache: Mmap,
    ) -> (r: ShmemReader)
        ensures
            r.pid == config.pid,
            r.shm_path@ == config.shm_path@,
            r.version == version,
            r.settings == settings,
            r.counters == counters,
            r.queries == queries,
            r.clients == clients,
            r.domains == domains,
            r.upstreams == upstreams,
            r.overtime == overtime,
            r.dns_cache == dns_cache,
            r.strings.mapping() == strings,
            exists|c: Seq<u8>|
                #[trigger] mapped_image(counters, c) && r.strings.max_size() == le_u32(c, COUNTERS_STRINGS_MAX as int) as usize,
    {
        let c = mapped_bytes(&counters);
        let strings_max = strings_max_of(c);
        assert(mapped_image(counters, c@) && strings_max == le_u32(c@, COUNTERS_STRINGS_MAX as int) as usize);
        ShmemReader {
            pid: config.pid,
            shm_path: config.shm_path,
            version,
            settings,
            counters,
            queries,
            clients,
            domains,
            upstreams,
            overtime,
            dns_cache,
            strings: StringBuffer::new(strings, strings_max),
        }
    }

    /// `t` holds an image of each segment that the conversions read: the
    /// counters, domains, clients and upstreams segments and the string
    /// table, with the table's usable size found when connecting.
    pub open spec fn images(&self, t: Tables) -> bool {
        &&& mapped_image(self.counters, t.counters@)
        &&& mapped_image(self.domains, t.domains@)
        &&& mapped_image(self.clients, t.clients@)
        &&& mapped_image(self.upstreams, t.upstreams@)
        &&& mapped_image(self.strings.mapping(), t.strings@)
        &&& t.strings_max == self.strings.max_size()
    }

    /// The segments as they are now, for the conversions.
    pub fn tables(&self) -> (r: Tables<'_>)
        ensures
            self.images(r),
    {
        Tables {
            counters: mapped_bytes(&self.counters),
            domains: mapped_bytes(&self.domains),
            clients: mapped_bytes(&self.clients),
            upstreams: mapped_bytes(&self.upstreams),
            strings: self.strings.bytes(),
            strings_max: self.strings.max_len(),
        }
    }

    /// The settings segment's fields as they are now.
    pub fn settings(&self) -> (r: Settings)
        ensures
            exists|b: Seq<u8>| #[trigger] mapped_image(self.settings, b) && settings_fields(b, r),
    {
        let b = mapped_bytes(&self.settings);
        let r = decode_settings(b);
        assert(settings_fields(b@, r));
        r
    }

    /// The counters segment's fields as they are now.
    pub fn counters(&self) -> (r: Counters)
        ensures
            exists|b: Seq<u8>| #[trigger] mapped_image(self.counters, b) && counters_fields(b, r),
    {
        let b = mapped_bytes(&self.counters);
        let r = decode_counters(b);
        assert(counters_fields(b@, r));
        r
    }

    /// The query records that the counters announce and the segment holds.
    pub fn queries_array(&self) -> (r: Vec<QueryRecord>)
        ensures
            exists|c: Seq<u8>, b: Seq<u8>|
                {
                    &&& #[trigger] mapped_image(self.counters, c)
                    &&& #[trigger] mapped_image(self.queries, b)
                    &&& r@.len() == record_count(b.len() as int, QUERY_SIZE as int, le_u32(c, COUNTERS_QUERIES_MAX as int) as int)
                    &&& forall|i: int| 0 <= i < r@.len() ==> #[trigger] r@[i] == query_at(b, i)
                },
    {
        let c = mapped_bytes(&self.counters);
        let b = mapped_bytes(&self.queries);
        let n = count_records(b.len(), QUERY_SIZE, read_u32(c, COUNTERS_QUERIES_MAX) as usize);
        let mut v: Vec<QueryRecord> = Vec::new();
        let mut i: usize = 0;
        let len = b.len();
        while i < n
            invariant
                len == b@.len(),
                n * QUERY_SIZE <= len,
                n == record_count(b@.len() as int, QUERY_SIZE as int, le_u32(c@, COUNTERS_QUERIES_MAX as int) as int),
                i <= n,
                v@.len() == i,
                forall|k: int| 0 <= k < i ==> #[trigger] v@[k] == query_at(b@, k),
            decreases n - i,
        {
            v.push(decode_query(b, i));
            i = i + 1;
        }
        assert(v@.len() == record_count(b@.len() as int, QUERY_SIZE as int, le_u32(c@, COUNTERS_QUERIES_MAX as int) as int));
        v
    }

    /// The client records that the counters announce and the segment holds.
    pub fn clients_array(&self) -> (r: Vec<ClientRecord>)
        ensures
            exists|c: Seq<u8>, b: Seq<u8>|
                {
                    &&& #[trigger] mapped_image(self.counters, c)
                    &&& #[trigger] mapped_image(self.clients, b)
                    &&& r@.len() == record_count(b.len() as int, CLIENT_SIZE as int, le_u32(c, COUNTERS_CLIENTS_MAX as int) as int)
                    &&& forall|i: int| 0 <= i < r@.len() ==> client_fields(b, i, #[trigger] r@[i])
                },
    {
        let c = mapped_bytes(&self.counters);
        let b = mapped_bytes(&self.clients);
        let n = count_records(b.len(), CLIENT_SIZE, read_u32(c, COUNTERS_CLIENTS_MAX) as usize);
        let mut v: Vec<ClientRecord> = Vec::new();
        let mut i: usize = 0;
        let len = b.len();
        while i < n
            invariant
                len == b@.len(),
                n * CLIENT_SIZE <= len,
                n == record_count(b@.len() as int, CLIENT_SIZE as int, le_u32(c@, COUNTERS_CLIENTS_MAX as int) as int),
                i <= n,
                v@.len() == i,
                forall|k: int| 0 <= k < i ==> client_fields(b@, k, #[trigger] v@[k]),
            decreases n - i,
        {
            v.push(decode_client(b, i));
            i = i + 1;
        }
        assert(v@.len() == record_count(b@.len() as int, CLIENT_SIZE as int, le_u32(c@, COUNTERS_CLIENTS_MAX as int) as int));
        v
    }

    /// The domain records that the counters announce and the segment holds.
    pub fn domains_array(&self) -> (r: Vec<DomainRecord>)
        ensures
            exists|c: Seq<u8>, b: Seq<u8>|
                {
                    &&& #[trigger] mapped_image(self.counters, c)
                    &&& #[trigger] mapped_image(self.domains, b)
                    &&& r@.len() == record_count(b.len() as int, DOMAIN_SIZE as int, le_u32(c, COUNTERS_DOMAINS_MAX as int) as int)
                    &&& forall|i: int| 0 <= i < r@.len() ==> #[trigger] r@[i] == domain_at(b, i)
                },
    {
        let c = mapped_bytes(&self.counters);
        let b = mapped_bytes(&self.domains);
        let n = count_records(b.len(), DOMAIN_SIZE, read_u32(c, COUNTERS_DOMAINS_MAX) as usize);
        let mut v: Vec<DomainRecord> = Vec::new();
        let mut i: usize = 0;
        let len = b.len();
        while i < n
            invariant
                len == b@.len(),
                n * DOMAIN_SIZE <= len,
                n == record_count(b@.len() as int, DOMAIN_SIZE as int, le_u32(c@, COUNTERS_DOMAINS_MAX as int) as int),
                i <= n,
                v@.len() == i,
                forall|k: int| 0 <= k < i ==> #[trigger] v@[k] == domain_at(b@, k),
            decreases n - i,
        {
            v.push(decode_domain(b, i));
            i = i + 1;
        }
        assert(v@.len() == record_count(b@.len() as int, DOMAIN_SIZE as int, le_u32(c@, COUNTERS_DOMAINS_MAX as int) as int));
        v
    }

    /// The upstream records that the counters announce and the segment holds.
    pub fn upstreams_array(&self) -> (r: Vec<UpstreamRecord>)
        ensures
            exists|c: Seq<u8>, b: Seq<u8>|
                {
                    &&& #[trigger] mapped_image(self.counters, c)
                    &&& #[trigger] mapped_image(self.upstreams, b)
                    &&& r@.len() == record_count(b.len() as int, UPSTREAM_SIZE as int, le_u32(c, COUNTERS_UPSTREAMS_MAX as int) as int)
                    &&& forall|i: int| 0 <= i < r@.len() ==> #[trigger] r@[i] == upstream_at(b, i)
                },
    {
        let c = mapped_bytes(&self.counters);
        let b = mapped_bytes(&self.upstreams);
        let n = count_records(b.len(), UPSTREAM_SIZE, read_u32(c, COUNTERS_UPSTREAMS_MAX) as usize);
        let mut v: Vec<UpstreamRecord> = Vec::new();
        let mut i: usize = 0;
        let len = b.len();
        while i < n
            invariant
                len == b@.len(),
                n * UPSTREAM_SIZE <= len,
                n == record_count(b@.len() as int, UPSTREAM_SIZE as int, le_u32(c@, COUNTERS_UPSTREAMS_MAX as int) as int),
                i <= n,
                v@.len() == i,
                forall|k: int| 0 <= k < i ==> #[trigger] v@[k] == upstream_at(b@, k),
            decreases n - i,
        {
            v.push(decode_upstream(b, i));
            i = i + 1;
        }
        assert(v@.len() == record_count(b@.len() as int, UPSTREAM_SIZE as int, le_u32(c@, COUNTERS_UPSTREAMS_MAX as int) as int));
        v
    }

    /// Every whole record of the over-time segment.
    pub fn overtime_array(&self) -> (r: Vec<OvertimeRecord>)
        ensures
            exists|b: Seq<u8>|
                {
                    &&& #[trigger] mapped_image(self.overtime, b)
                    &&& r@.len() == overtime_slot_count(b.len() as int)
                    &&& forall|i: int| 0 <= i < r@.len() ==> #[trigger] r@[i] == overtime_at(b, i)
                },
    {
        let b = mapped_bytes(&self.overtime);
        let n = b.len() / OVERTIME_SIZE;
        let mut v: Vec<OvertimeRecord> = Vec::new();
        let mut i: usize = 0;
        let len = b.len();
        while i < n
            invariant
                len == b@.len(),
                n * OVERTIME_SIZE <= len,
                n == overtime_slot_count(b@.len() as int),
                i <= n,
                v@.len() == i,
                forall|k: int| 0 <= k < i ==> #[trigger] v@[k] == overtime_at(b@, k),
            decreases n - i,
        {
            v.push(decode_overtime(b, i));
            i = i + 1;
        }
        assert(v@.len() == overtime_slot_count(b@.len() as int));
        v
    }

    /// The version found when the reader was built.
    pub fn ftl_version(&self) -> (r: &FtlVersion)
        ensures
            *r == self.version,
    {
        &self.version
    }

    /// General statistics, from the segments as they are now.
    pub fn summary(&self) -> (r: StatsSummary)
        ensures
            exists|s: Seq<u8>, t: Tables|
                mapped_image(self.settings, s) && self.images(t) && #[trigger] summary_is(s, t, r),
    {
        let t = self.tables();
        let s = mapped_bytes(&self.settings);
        let r = summary_of(s, &t);
        assert(summary_is(s@, t, r));
        r
    }

    /// The newest `limit` queries, newest first (see
    /// [`crate::convert::queries::recent_queries`]).
    pub fn recent_queries(&self, limit: usize) -> (r: Vec<Query>)
        ensures
            exists|t: Tables, q: Seq<u8>|
                self.images(t) && mapped_image(self.queries, q) && #[trigger] recent_queries_are(t, q, limit as int, r@),
    {
        let t = self.tables();
        let q = mapped_bytes(&self.queries);
        let r = recent_queries(&t, q, limit);
        assert(recent_queries_are(t, q@, limit as int, r@));
        r
    }

    /// The `limit` domains with the most queries (see
    /// [`crate::convert::domains::top_domains`]).
    pub fn top_domains(&self, limit: usize, include_blocked: bool) -> (r: Vec<DomainStats>)
        ensures
            exists|t: Tables| #[trigger] self.images(t) && top_domains_are(t, limit as int, include_blocked, r@),
            forall|a: int, b: int| 0 <= a < b < r@.len() ==> r@[a].count >= r@[b].count,
            !include_blocked ==> forall|q: int| 0 <= q < r@.len() ==> (#[trigger] r@[q]).blocked_count
                == 0,
    {
        let t = self.tables();
        let r = top_domains(&t, limit, include_blocked);
        assert(top_domains_are(t, limit as int, include_blocked, r@));
        r
    }

    /// The `limit` clients with the most queries (see
    /// [`crate::convert::clients::top_clients`]).
    pub fn top_clients(&self, limit: usize) -> (r: Vec<ClientStats>)
        ensures
            exists|t: Tables| #[trigger] self.images(t) && top_clients_are(t, limit as int, r@),
            forall|a: int, b: int| 0 <= a < b < r@.len() ==> r@[a].count >= r@[b].count,
    {
        let t = self.tables();
        let r = top_clients(&t, limit);
        assert(top_clients_are(t, limit as int, r@));
        r
    }

    /// Every upstream server in use (see [`crate::convert::upstreams::upstreams`]).
    pub fn upstreams(&self) -> (r: Vec<UpstreamStats>)
        ensures
            exists|t: Tables| #[trigger] self.images(t) && upstreams_are(t, r@),
    {
        let t = self.tables();
        let r = upstreams(&t);
        assert(upstreams_are(t, r@));
        r
    }

    /// The started over-time slots (see [`crate::convert::overtime::overtime_data`]).
    pub fn overtime_data(&self) -> (r: Vec<OvertimeSlot>)
        ensures
            exists|b: Seq<u8>| #[trigger] mapped_image(self.overtime, b) && r@ == overtime_slots(b),
            forall|j: int| 0 <= j < r@.len() ==> (#[trigger] r@[j]).timestamp > 0,
    {
        let b = mapped_bytes(&self.overtime);
        let r = overtime_data(b);
        assert(mapped_image(self.overtime, b@) && r@ == overtime_slots(b@));
        r
    }
}

} // verus!
