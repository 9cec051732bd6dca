//! Reader for the statistics that Pi-hole FTL publishes in shared memory.
//!
//! The verified core decodes the byte images of FTL's shared-memory segments
//! (version 14 layout, see [`layout`]) and turns them into the statistics of
//! [`api::stats`]. Opening the segments, reading the PID file and the
//! environment are left to the caller.

pub mod api;
pub mod convert;
pub mod error;
pub mod layout;
pub mod raw;
pub mod shmem;
pub mod text;


use vstd::prelude::*;
use crate::api::stats::{ClientStats, DomainStats, OvertimeSlot, Query, StatsSummary, UpstreamStats};
use crate::convert::clients::top_clients_are;
use crate::convert::counters::summary_is;
use crate::convert::domains::top_domains_are;
use crate::convert::overtime::overtime_slots;
use crate::convert::queries::recent_queries_are;
use crate::convert::tables::Tables;
use crate::convert::upstreams::upstreams_are;
use crate::layout::{counters_fields, Counters};
use crate::shmem::mapped_image;
use crate::shmem::reader::{ShmemConfig, ShmemReader};

pub use crate::error::{FtlError, Result};

verus! {

/// Statistics of a running FTL, read from its shared memory.
pub struct FtlStats {
    reader: ShmemReader,
}

impl FtlStats {
    /// Wraps a reader over FTL's segments.
    pub fn from_reader(reader: ShmemReader) -> (r: FtlStats)
        ensures
            r.pid() == reader.pid,
            r.segments() == reader,
    {
        FtlStats { reader }
    }

    /// PID of the FTL process.
    pub closed spec fn pid(&self) -> u32 {
        self.reader.pid
    }

    /// The segments that the statistics are read from.
    pub closed spec fn segments(&self) -> ShmemReader {
        self.reader
    }

    /// Starts a custom configuration.
    pub fn builder() -> (r: FtlStatsBuilder)
        ensures
            r.requested_pid() is None,
            r.requested_shm_path() is None,
    {
        FtlStatsBuilder { pid: None, shm_path: None }
    }

    /// PID of the FTL process.
    pub fn ftl_pid(&self) -> (r: u32)
        ensures
            r == self.pid(),
    {
        self.reader.pid
    }

    /// General statistics, from the segments as they are now.
    pub fn summary(&self) -> (r: StatsSummary)
        ensures
            exists|s: Seq<u8>, t: Tables|
                mapped_image(self.segments().settings, s) && self.segments().images(t) && #[trigger] summary_is(s, t, r),
    {
        proof {
            assert(self.segments() == self.reader);
        }
        self.reader.summary()
    }

    /// The newest `limit` queries, newest first.
    pub fn recent_queries(&self, limit: usize) -> (r: Vec<Query>)
        ensures
            exists|t: Tables, q: Seq<u8>|
                self.segments().images(t) && mapped_image(self.segments().queries, q)
                    && #[trigger] recent_queries_are(t, q, limit as int, r@),
    {
        proof {
            assert(self.segments() == self.reader);
        }
        self.reader.recent_queries(limit)
    }

    /// The `limit` domains with the most queries, most first; blocked
    /// domains only when `include_blocked`.
    pub fn top_domains(&self, limit: usize, include_blocked: bool) -> (r: Vec<DomainStats>)
        ensures
            exists|t: Tables|
                #[trigger] self.segments().images(t) && top_domains_are(t, limit as int, include_blocked, r@),
            forall|a: int, b: int| 0 <= a < b < r@.len() ==> r@[a].count >= r@[b].count,
            !include_blocked ==> forall|q: int| 0 <= q < r@.len() ==> (#[trigger] r@[q]).blocked_count
                == 0,
    {
        proof {
            assert(self.segments() == self.reader);
        }
        self.reader.top_domains(limit, include_blocked)
    }

    /// The `limit` clients with the most queries, most first.
    pub fn top_clients(&self, limit: usize) -> (r: Vec<ClientStats>)
        ensures
            exists|t: Tables| #[trigger] self.segments().images(t) && top_clients_are(t, limit as int, r@),
            forall|a: int, b: int| 0 <= a < b < r@.len() ==> r@[a].count >= r@[b].count,
    {
        proof {
            assert(self.segments() == self.reader);
        }
        self.reader.top_clients(limit)
    }

    /// Every upstream server in use.
    pub fn upstreams(&self) -> (r: Vec<UpstreamStats>)
        ensures
            exists|t: Tables| #[trigger] self.segments().images(t) && upstreams_are(t, r@),
    {
        proof {
            assert(self.segments() == self.reader);
        }
        self.reader.upstreams()
    }

    /// The started ten-minute slots of the over-time series.
    pub fn overtime_data(&self) -> (r: Vec<OvertimeSlot>)
        ensures
            exists|b: Seq<u8>| #[trigger] mapped_image(self.segments().overtime, b) && r@ == overtime_slots(b),
    {
        proof {
            assert(self.segments() == self.reader);
        }
        self.reader.overtime_data()
    }

    /// The fields of the counters segment, as they are now.
    pub fn raw_counters(&self) -> (r: Counters)
        ensures
            exists|b: Seq<u8>| #[trigger] mapped_image(self.segments().counters, b) && counters_fields(b, r),
    {
        proof {
            assert(self.segments() == self.reader);
        }
        self.reader.counters()
    }
}

/// Custom configuration of an [`FtlStats`].
pub struct FtlStatsBuilder {
    pid: Option<u32>,
    shm_path: Option<String>,
}

/// View of an optional path.
pub open spec fn opt_path_view(o: Option<String>) -> Option<Seq<char>> {
    match o {
        Some(s) => Some(s@),
        None => None,
    }
}

impl Default for FtlStatsBuilder {
    /// A builder that asks for nothing.
    fn default() -> (r: FtlStatsBuilder)
        ensures
            r.requested_pid() is None,
            r.requested_shm_path() is None,
    {
        FtlStatsBuilder { pid: None, shm_path: None }
    }
}

impl FtlStatsBuilder {
    /// The PID asked for, if any.
    pub closed spec fn requested_pid(&self) -> Option<u32> {
        self.pid
    }

    /// The shared-memory directory asked for, if any.
    pub closed spec fn requested_shm_path(&self) -> Option<Seq<char>> {
        opt_path_view(self.shm_path)
    }

    /// Uses the FTL process with this PID.
    pub fn pid(self, pid: u32) -> (r: FtlStatsBuilder)
        ensures
            r.requested_pid() == Some(pid),
            r.requested_shm_path() == self.requested_shm_path(),
    {
        FtlStatsBuilder { pid: Some(pid), shm_path: self.shm_path }
    }

    /// Looks for the segments in this directory.
    pub fn shm_path(self, path: String) -> (r: FtlStatsBuilder)
        ensures
            r.requested_pid() == self.requested_pid(),
            r.requested_shm_path() == Some(path@),
    {
        FtlStatsBuilder { pid: self.pid, shm_path: Some(path) }
    }

    /// The PID asked for, if any.
    pub fn pid_setting(&self) -> (r: Option<u32>)
        ensures
            r == self.requested_pid(),
    {
        self.pid
    }

    /// The configuration to open: the PID asked for (else the one found in
    /// FTL's PID file, `discovered_pid`) and the directory asked for (else
    /// the one from the environment, else `/dev/shm`).
    pub fn config(self, discovered_pid: u32, env_shm_path: Option<String>) -> (r: ShmemConfig)
        ensures
            r.pid == (match self.requested_pid() {
                Some(p) => p,
                None => discovered_pid,
            }),
            r.shm_path@ == (match self.requested_shm_path() {
                Some(p) => p,
                None => match env_shm_path {
                    Some(e) => e@,
                    None => crate::shmem::reader::DEFAULT_SHM_PATH@,
                },
            }),
    {
        let pid = match self.pid {
            Some(p) => p,
            None => discovered_pid,
        };
        let config = ShmemConfig::with_pid(pid, env_shm_path);
        match self.shm_path {
            Some(path) => config.with_shm_path(path),
            None => config,
        }
    }
}

} // verus!
