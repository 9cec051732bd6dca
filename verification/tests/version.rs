use ftl_stats::shmem::version::FtlVersion;
use ftl_stats::shmem::{segment_file_name, ShmSegment};

#[test]
fn version_from_settings() {
    let v = FtlVersion::from_settings(14, 1234);
    assert_eq!(v.shmem_version, 14);
    assert_eq!(v.pid, 1234);
    assert!(v.is_supported());
    let w = FtlVersion::from_settings(13, -1);
    assert_eq!(w.pid, 4294967295);
    assert!(!w.is_supported());
}

#[test]
fn version_description() {
    assert_eq!(FtlVersion::from_settings(14, 1234).description(), "FTL (shmem v14, PID 1234)");
    assert_eq!(FtlVersion::from_settings(-3, 0).description(), "FTL (shmem v-3, PID 0)");
    assert_eq!(
        FtlVersion::from_settings(i32::MIN, 7).description(),
        "FTL (shmem v-2147483648, PID 7)"
    );
}

#[test]
fn segment_names() {
    assert_eq!(ShmSegment::Lock.name(), "lock");
    assert_eq!(ShmSegment::OverTime.name(), "overTime");
    assert_eq!(ShmSegment::DnsCacheLookup.name(), "dns-cache-lookup");
    assert_eq!(ShmSegment::PerClientRegex.name(), "per-client-regex");
    assert_eq!(segment_file_name(123, ShmSegment::Counters), "FTL-123-counters");
    assert_eq!(segment_file_name(0, ShmSegment::DnsCache), "FTL-0-dns-cache");
}
