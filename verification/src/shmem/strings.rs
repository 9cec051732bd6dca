//! The shared string table.

use vstd::prelude::*;
use vstd::utf8::{decode_utf8, valid_utf8};
use memmap2::Mmap;
use crate::error::FtlError;
use crate::shmem::{mapped_bytes, mapped_image};

verus! {

/// Position of the first NUL byte at or after `off`, or the end of `b`.
pub open spec fn nul_end(b: Seq<u8>, off: int) -> int
    decreases b.len() - off,
{
    if off >= b.len() {
        b.len() as int
    } else if b[off] == 0 {
        off
    } else {
        nul_end(b, off + 1)
    }
}

/// The bytes of the NUL-terminated string that starts at `off`, without
/// the terminator (up to the end of `b` when there is none).
pub open spec fn c_str_bytes(b: Seq<u8>, off: int) -> Seq<u8> {
    b.subrange(off, nul_end(b, off))
}

/// What reading the string at `offset` of `b`, a table of `max_size`
/// usable bytes, gives: an offset error, a UTF-8 error or the text.
pub open spec fn string_read(b: Seq<u8>, max_size: usize, offset: usize, r: Result<Seq<char>, FtlError>) -> bool {
    if offset >= max_size {
        r == Err::<Seq<char>, FtlError>(
            FtlError::InvalidStringOffset { offset, buffer_size: max_size },
        )
    } else if offset >= b.len() {
        r == Err::<Seq<char>, FtlError>(
            FtlError::InvalidStringOffset { offset, buffer_size: b.len() as usize },
        )
    } else if !valid_utf8(c_str_bytes(b, offset as int)) {
        r matches Err(FtlError::Utf8Error { offset: o, .. }) && o == offset
    } else {
        r == Ok::<Seq<char>, FtlError>(decode_utf8(c_str_bytes(b, offset as int)))
    }
}

/// Whether reading the string at `offset` succeeds.
pub open spec fn string_ok(b: Seq<u8>, max_size: usize, offset: usize) -> bool {
    offset < max_size && offset < b.len() && valid_utf8(c_str_bytes(b, offset as int))
}

/// The text read at `offset` when [`string_ok`] holds.
pub open spec fn string_at(b: Seq<u8>, offset: usize) -> Seq<char> {
    decode_utf8(c_str_bytes(b, offset as int))
}

/// The view of a string result.
pub open spec fn str_result_view(r: Result<&str, FtlError>) -> Result<Seq<char>, FtlError> {
    match r {
        Ok(s) => Ok(s@),
        Err(e) => Err(e),
    }
}

/// Decodes UTF-8 through `std::str::from_utf8`, which succeeds exactly on
/// valid UTF-8 and then yields the characters that the bytes encode.
#[verifier::external_body]
fn str_from_utf8(v: &[u8]) -> (r: core::result::Result<&str, std::str::Utf8Error>)
    ensures
        r is Ok <==> valid_utf8(v@),
        r matches Ok(s) ==> s@ == decode_utf8(v@),
{
    std::str::from_utf8(v)
}

/// Position of the first NUL byte at or after `offset`, or the end.
pub fn find_nul(b: &[u8], offset: usize) -> (r: usize)
    requires
        offset <= b@.len(),
    ensures
        r == nul_end(b@, offset as int),
        offset <= r <= b@.len(),
{
    let mut i = offset;
    while i < b.len() && b[i] != 0
        invariant
            offset <= i <= b@.len(),
            nul_end(b@, i as int) == nul_end(b@, offset as int),
        decreases b@.len() - i,
    {
        i = i + 1;
    }
    i
}

/// Reads the NUL-terminated string at `offset` of a string table whose
/// usable size is `max_size`.
pub fn read_c_str(b: &[u8], max_size: usize, offset: usize) -> (r: Result<&str, FtlError>)
    ensures
        string_read(b@, max_size, offset, str_result_view(r)),
        r is Ok <==> string_ok(b@, max_size, offset),
        r matches Ok(s) ==> s@ == string_at(b@, offset),
{
    if offset >= max_size {
        return Err(FtlError::InvalidStringOffset { offset, buffer_size: max_size });
    }
    if offset >= b.len() {
        return Err(FtlError::InvalidStringOffset { offset, buffer_size: b.len() });
    }
    let end = find_nul(b, offset);
    let bytes = &b[offset..end];
    match str_from_utf8(bytes) {
        Ok(s) => Ok(s),
        Err(e) => Err(FtlError::Utf8Error { offset, source: e }),
    }
}

/// What taking the C string at `offset` of `b` (a table of `max_size`
/// usable bytes), terminator included, gives.
pub open spec fn c_str_bytes_read(b: Seq<u8>, max_size: usize, offset: usize, r: Result<Seq<u8>, FtlError>) -> bool {
    if offset >= max_size {
        r == Err::<Seq<u8>, FtlError>(FtlError::InvalidStringOffset { offset, buffer_size: max_size })
    } else if offset >= b.len() || nul_end(b, offset as int) == b.len() {
        r == Err::<Seq<u8>, FtlError>(
            FtlError::InvalidStringOffset { offset, buffer_size: b.len() as usize },
        )
    } else {
        r == Ok::<Seq<u8>, FtlError>(b.subrange(offset as int, nul_end(b, offset as int) + 1))
    }
}

/// The view of a byte-slice result.
pub open spec fn bytes_result_view(r: Result<&[u8], FtlError>) -> Result<Seq<u8>, FtlError> {
    match r {
        Ok(s) => Ok(s@),
        Err(e) => Err(e),
    }
}

/// The bytes of the C string at `offset`, terminator included, after the
/// same offset checks as [`read_c_str`]; an `InvalidStringOffset` error
/// when the table holds no terminator after `offset`.
pub fn read_c_str_bytes(b: &[u8], max_size: usize, offset: usize) -> (r: Result<&[u8], FtlError>)
    ensures
        c_str_bytes_read(b@, max_size, offset, bytes_result_view(r)),
{
    if offset >= max_size {
        return Err(FtlError::InvalidStringOffset { offset, buffer_size: max_size });
    }
    if offset >= b.len() {
        return Err(FtlError::InvalidStringOffset { offset, buffer_size: b.len() });
    }
    let end = find_nul(b, offset);
    if end >= b.len() {
        return Err(FtlError::InvalidStringOffset { offset, buffer_size: b.len() });
    }
    Ok(&b[offset..end + 1])
}

/// The shared string table, of which the first `max_size` bytes are in use.
pub struct StringBuffer {
    mmap: Mmap,
    max_size: usize,
}

impl StringBuffer {
    /// Wraps the mapped string segment.
    pub fn new(mmap: Mmap, max_size: usize) -> (r: StringBuffer)
        ensures
            r.max_size() == max_size,
            r.mapping() == mmap,
    {
        StringBuffer { mmap, max_size }
    }

    /// The mapped string segment.
    pub closed spec fn mapping(&self) -> Mmap {
        self.mmap
    }

    /// Usable size of the table.
    pub closed spec fn max_size(&self) -> usize {
        self.max_size
    }

    /// Usable size of the table.
    pub fn max_len(&self) -> (r: usize)
        ensures
            r == self.max_size(),
    {
        self.max_size
    }

    /// The mapped bytes of the table, as they are at the time of the call.
    pub(crate) fn bytes(&self) -> (r: &[u8])
        ensures
            mapped_image(self.mapping(), r@),
    {
        mapped_bytes(&self.mmap)
    }

    /// Reads the string at `offset` (see [`read_c_str`]) from the table as
    /// it is at the time of the call.
    pub fn read_string(&self, offset: usize) -> (r: Result<&str, FtlError>)
        ensures
            exists|b: Seq<u8>|
                #[trigger] mapped_image(self.mapping(), b) && string_read(b, self.max_size(), offset, str_result_view(r)),
    {
        let b = mapped_bytes(&self.mmap);
        let r = read_c_str(b, self.max_size, offset);
        assert(mapped_image(self.mapping(), b@) && string_read(b@, self.max_size(), offset, str_result_view(r)));
        r
    }

    /// The bytes of the C string at `offset`, terminator included (see
    /// [`read_c_str_bytes`]).
    pub fn read_cstr_bytes(&self, offset: usize) -> (r: Result<&[u8], FtlError>)
        ensures
            exists|b: Seq<u8>|
                #[trigger] mapped_image(self.mapping(), b) && c_str_bytes_read(b, self.max_size(), offset, bytes_result_view(r)),
    {
        let b = mapped_bytes(&self.mmap);
        let r = read_c_str_bytes(b, self.max_size, offset);
        assert(mapped_image(self.mapping(), b@) && c_str_bytes_read(b@, self.max_size(), offset, bytes_result_view(r)));
        r
    }
}

} // verus!
