use ftl_stats::shmem::pid::{is_process_running, parse_pid, proc_dir_path};
use ftl_stats::text::u32_to_decimal;
use ftl_stats::FtlError;

#[test]
fn test_is_process_running() {
    assert!(is_process_running(1));
    assert!(!is_process_running(99999));
}

#[test]
fn proc_dir_path_is_decimal() {
    assert_eq!(proc_dir_path(1), "/proc/1");
    assert_eq!(proc_dir_path(4294967295), "/proc/4294967295");
}

#[test]
fn parse_pid_trims_and_parses() {
    assert_eq!(parse_pid("1234\n").unwrap(), 1234);
    assert_eq!(parse_pid("  \t42 \r\n").unwrap(), 42);
    assert_eq!(parse_pid("+7").unwrap(), 7);
    assert_eq!(parse_pid("007").unwrap(), 7);
    assert_eq!(parse_pid("4294967295").unwrap(), 4294967295);
}

#[test]
fn parse_pid_rejects_bad_text() {
    for (input, trimmed) in [
        ("abc\n", "abc"),
        ("", ""),
        ("   ", ""),
        ("+", "+"),
        ("-5", "-5"),
        ("4294967296", "4294967296"),
        ("12 34", "12 34"),
        ("\u{3000}99x\u{2009}", "99x"),
    ] {
        match parse_pid(input) {
            Err(FtlError::InvalidPid(s)) => assert_eq!(s, trimmed),
            other => panic!("unexpected result for {:?}: {:?}", input, other),
        }
    }
}

#[test]
fn pid_written_in_decimal_parses_back() {
    for pid in [0u32, 1, 9, 10, 99, 12345, 4294967295] {
        let text = u32_to_decimal(pid);
        assert_eq!(parse_pid(&text).unwrap(), pid);
    }
}
