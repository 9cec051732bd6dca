use ftl_stats::shmem::reader::ShmemConfig;
use ftl_stats::FtlStats;

#[test]
fn config_paths() {
    let c = ShmemConfig::with_pid(42, None);
    assert_eq!(c.pid, 42);
    assert_eq!(c.shm_path, "/dev/shm");
    let c = ShmemConfig::with_pid(42, Some("/tmp/x".to_string()));
    assert_eq!(c.shm_path, "/tmp/x");
    let c = c.with_shm_path("/custom/shm".to_string());
    assert_eq!(c.pid, 42);
    assert_eq!(c.shm_path, "/custom/shm");
}

#[test]
fn builder_choices() {
    let c = FtlStats::builder().pid(12345).shm_path("/custom/shm".to_string()).config(1, Some("/env".to_string()));
    assert_eq!(c.pid, 12345);
    assert_eq!(c.shm_path, "/custom/shm");
    let b = FtlStats::builder();
    assert_eq!(b.pid_setting(), None);
    let c = b.config(77, Some("/env".to_string()));
    assert_eq!(c.pid, 77);
    assert_eq!(c.shm_path, "/env");
    let c = FtlStats::builder().pid(5).config(77, None);
    assert_eq!(c.pid, 5);
    assert_eq!(c.shm_path, "/dev/shm");
}

#[test]
fn default_builder_asks_nothing() {
    let b = ftl_stats::FtlStatsBuilder::default();
    assert_eq!(b.pid_setting(), None);
    let c = b.config(3, None);
    assert_eq!((c.pid, c.shm_path.as_str()), (3, "/dev/shm"));
}
