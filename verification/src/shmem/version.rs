//! Version of FTL's shared memory.

use vstd::prelude::*;
use crate::raw::SHARED_MEMORY_VERSION;
use crate::text::{decimal, signed_decimal, push_decimal, push_signed_decimal};

verus! {

/// Version of the shared-memory format and PID of the FTL process.
#[derive(Debug, Clone, Copy, PartialEq, Eq, Structural)]
pub struct FtlVersion {
    /// Format version (from the settings segment).
    pub shmem_version: i32,
    /// PID of the FTL process.
    pub pid: u32,
}

/// The description of a version: `FTL (shmem v<version>, PID <pid>)`.
pub open spec fn version_description(v: FtlVersion) -> Seq<char> {
    "FTL (shmem v"@ + signed_decimal(v.shmem_version as int) + ", PID "@ + decimal(v.pid as nat)
        + ")"@
}

impl FtlVersion {
    /// Builds the version from the settings fields; the PID is taken as unsigned.
    pub fn from_settings(version: i32, pid: i32) -> (r: FtlVersion)
        ensures
            r.shmem_version == version,
            r.pid == pid as u32,
    {
        FtlVersion { shmem_version: version, pid: pid as u32 }
    }

    /// Whether this library can read this format version (only version 14).
    pub fn is_supported(&self) -> (r: bool)
        ensures
            r == (self.shmem_version == SHARED_MEMORY_VERSION),
    {
        self.shmem_version == SHARED_MEMORY_VERSION
    }

    /// Human-readable description of the version.
    pub fn description(&self) -> (r: String)
        ensures
            r@ == version_description(*self),
    {
        let mut s = "FTL (shmem v".to_owned();
        push_signed_decimal(&mut s, self.shmem_version);
        s.append(", PID ");
        push_decimal(&mut s, self.pid);
        s.append(")");
        s
    }
}

} // verus!
