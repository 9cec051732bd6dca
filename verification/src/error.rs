//! Errors of the library.

use vstd::prelude::*;

verus! {

/// Declares `std::path::PathBuf`, carried through unchanged.
#[verifier::external_type_specification]
#[verifier::external_body]
pub struct ExPathBuf(std::path::PathBuf);

/// Declares `std::io::Error`, carried through unchanged.
#[verifier::external_type_specification]
#[verifier::external_body]
pub struct ExIoError(std::io::Error);

/// Declares `std::str::Utf8Error`, carried through unchanged.
#[verifier::external_type_specification]
#[verifier::external_body]
pub struct ExUtf8Error(std::str::Utf8Error);

/// Everything that can go wrong while reading FTL's statistics.
#[derive(Debug)]
pub enum FtlError {
    FtlNotRunning,
    PidFileNotFound(std::path::PathBuf),
    PidFileReadError(std::io::Error),
    InvalidPid(String),
    VersionMismatch { expected: i32, found: i32 },
    InvalidMagicByte { expected: u8, found: u8 },
    ShmemNotFound { pid: u32, segment: String },
    ShmemOpenError(std::io::Error),
    ShmemTooSmall { expected: usize, actual: usize },
    InvalidStringOffset { offset: usize, buffer_size: usize },
    Utf8Error { offset: usize, source: std::str::Utf8Error },
    OutOfBounds { index: usize, max: usize },
    InvalidArraySize { field: String, value: u32 },
}

/// Result type of the library.
pub type Result<T> = core::result::Result<T, FtlError>;

} // verus!
