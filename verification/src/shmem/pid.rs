//! Finding the FTL process.

use vstd::prelude::*;
use crate::error::FtlError;
use crate::text::{
    all_digits, decimal, digit_char, digit_value, digits_value, is_digit, parse_u32,
    parse_u32_str, push_decimal, trim, trim_end, trim_start, trimmed, without_plus,
};

verus! {

/// Where FTL writes its PID.
pub const DEFAULT_PID_FILE: &'static str = "/run/pihole-FTL.pid";

/// The `/proc` directory of process `pid`.
pub open spec fn proc_dir(pid: u32) -> Seq<char> {
    "/proc/"@ + decimal(pid as nat)
}

/// The `/proc` directory of process `pid`.
pub fn proc_dir_path(pid: u32) -> (r: String)
    ensures
        r@ == proc_dir(pid),
{
    let mut s = "/proc/".to_owned();
    push_decimal(&mut s, pid);
    s
}

/// Whether something exists at `path`, through `std::path::Path::exists`.
/// The answer depends on the file system at the time of the call, so nothing
/// is stated of it.
#[verifier::external_body]
fn path_exists(path: &str) -> bool {
    std::path::Path::new(path).exists()
}

/// Whether a process with this PID exists (its `/proc` directory exists).
pub fn is_process_running(pid: u32) -> bool {
    let path = proc_dir_path(pid);
    path_exists(path.as_str())
}

/// Reads a PID from the content of a PID file: the trimmed text must be an
/// unsigned decimal number; otherwise the trimmed text comes back in
/// `InvalidPid`.
pub fn parse_pid(content: &str) -> (r: Result<u32, FtlError>)
    ensures
        parse_u32(trimmed(content@)) matches Some(p) ==> r == Ok::<u32, FtlError>(p),
        parse_u32(trimmed(content@)) is None ==> (r matches Err(FtlError::InvalidPid(s))
            && s@ == trimmed(content@)),
{
    let pid_str = trim(content);
    match parse_u32_str(pid_str) {
        Some(p) => Ok(p),
        None => Err(FtlError::InvalidPid(pid_str.to_owned())),
    }
}

proof fn lemma_digit_char(d: int)
    requires
        0 <= d < 10,
    ensures
        is_digit(digit_char(d)),
        digit_value(digit_char(d)) == d,
{
}

proof fn lemma_decimal_digits(n: nat)
    ensures
        decimal(n).len() >= 1,
        all_digits(decimal(n)),
        digits_value(decimal(n)) == n,
    decreases n,
{
    lemma_digit_char((n % 10) as int);
    if n < 10 {
        let d = decimal(n);
        assert(d.drop_last() =~= Seq::<char>::empty());
        assert(digits_value(d.drop_last()) == 0);
    } else {
        assert(n == (n / 10) * 10 + n % 10);
        lemma_decimal_digits(n / 10);
        let d = decimal(n);
        assert(d.drop_last() =~= decimal(n / 10));
        assert forall|i: int| 0 <= i < d.len() implies is_digit(#[trigger] d[i]) by {
            if i < d.len() - 1 {
                assert(d[i] == decimal(n / 10)[i]);
            }
        }
        assert(digits_value(d) == digits_value(decimal(n / 10)) * 10 + digit_value(d.last()));
    }
}

/// A PID written the way this library writes PIDs (in segment file names
/// and `/proc` paths) reads back as the same PID.
pub proof fn lemma_pid_text_roundtrip(pid: u32)
    ensures
        parse_u32(trimmed(decimal(pid as nat))) == Some(pid),
{
    let s = decimal(pid as nat);
    lemma_decimal_digits(pid as nat);
    assert(is_digit(s[0]));
    assert(is_digit(s[s.len() - 1]));
    assert(trim_start(s, 0) == 0);
    assert(trim_end(s, s.len() as int) == s.len());
    assert(trimmed(s) =~= s);
    assert(without_plus(s) == s);
}

} // verus!
