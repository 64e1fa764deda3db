//! A read cursor over a byte buffer, with the primitive ROOT field readers:
//! big-endian integers, length-prefixed strings, and version headers.

use vstd::prelude::*;
use crate::codec::{find_byte, get_u16, get_u32, get_u64, index_of, u16_at, u32_at, u64_at};
use crate::error::{Error, Issue};

verus! {

/// `kByteCountMask`: the bit that marks a leading word as a byte count.
pub const K_BYTE_COUNT_MASK: u32 = 0x4000_0000;

/// Where a ROOT `TString` starting at byte `p` of `s` keeps its characters:
/// `[start, end)`, or `None` when the buffer ends first. A length byte of 255
/// is followed by a big-endian `u32` length.
pub open spec fn tstring_at(s: Seq<u8>, p: int) -> Option<(int, int)> {
    if p < 0 || p + 1 > s.len() {
        None
    } else if s[p] == 255 {
        if p + 5 > s.len() {
            None
        } else if p + 5 + u32_at(s, p + 1) > s.len() {
            None
        } else {
            Some((p + 5, p + 5 + u32_at(s, p + 1)))
        }
    } else if p + 1 + s[p] > s.len() {
        None
    } else {
        Some((p + 1, p + 1 + s[p]))
    }
}

/// An object's `{byte count, version}` header: its class version and, when it
/// carries a byte count, the offset just past the object.
#[derive(Debug, Clone, Copy, PartialEq, Eq, Structural)]
pub struct VersionHeader {
    pub version: u16,
    pub end: Option<usize>,
}

/// The version header at byte `p` of `s`, and where reading continues:
/// a leading word with [`K_BYTE_COUNT_MASK`] set is a byte count (the object
/// ends `4 + count` bytes after it) followed by the version; otherwise the
/// header is the bare two-byte version.
pub open spec fn version_at(s: Seq<u8>, p: int) -> Option<(VersionHeader, int)> {
    if p < 0 {
        None
    } else if p + 4 <= s.len() && u32_at(s, p) & K_BYTE_COUNT_MASK != 0 {
        if p + 6 > s.len() {
            None
        } else {
            let end = p + 4 + (u32_at(s, p) & !K_BYTE_COUNT_MASK);
            if end > usize::MAX {
                None
            } else {
                Some((VersionHeader { version: u16_at(s, p + 4), end: Some(end as usize) }, p + 6))
            }
        }
    } else if p + 2 <= s.len() {
        Some((VersionHeader { version: u16_at(s, p), end: None }, p + 2))
    } else {
        None
    }
}

/// Where a NUL-terminated string starting at byte `p` of `s` ends: the
/// position of its terminating zero, or `None` when there is none.
pub open spec fn cstring_end(s: Seq<u8>, p: int) -> Option<int> {
    match index_of(s.subrange(p, s.len() as int), 0) {
        Some(i) => Some(p + i),
        None => None,
    }
}

/// A read position over a borrowed byte buffer.
pub struct RBuffer<'a> {
    data: &'a [u8],
    pos: usize,
}

impl<'a> RBuffer<'a> {
    /// The bytes being read.
    pub closed spec fn buf(&self) -> Seq<u8> {
        self.data@
    }

    /// The offset of the next byte to read.
    pub closed spec fn cursor(&self) -> int {
        self.pos as int
    }

    #[verifier::type_invariant]
    closed spec fn inv(&self) -> bool {
        self.pos <= self.data@.len()
    }

    /// A cursor at the start of `data`.
    pub fn new(data: &'a [u8]) -> (r: RBuffer<'a>)
        ensures
            r.buf() == data@,
            r.cursor() == 0,
    {
        RBuffer { data, pos: 0 }
    }

    /// The offset of the next byte to read.
    pub fn pos(&self) -> (r: usize)
        ensures
            r == self.cursor(),
    {
        self.pos
    }

    /// How many bytes are left to read.
    pub fn remaining(&self) -> (r: usize)
        ensures
            r == self.buf().len() - self.cursor(),
            self.buf().len() <= usize::MAX,
    {
        proof {
            use_type_invariant(self);
        }
        self.data.len() - self.pos
    }

    /// Move the cursor to offset `p`; fails, leaving it, when `p` is past the end.
    pub fn seek(&mut self, p: usize) -> (r: Result<(), Error>)
        ensures
            final(self).buf() == old(self).buf(),
            r is Ok <==> p <= old(self).buf().len(),
            r is Ok ==> final(self).cursor() == p,
            r is Err ==> final(self).cursor() == old(self).cursor() && r == Err::<(), Error>(
                Error::Format(Issue::SeekOutOfRange),
            ),
    {
        if p <= self.data.len() {
            self.pos = p;
            Ok(())
        } else {
            Err(Error::Format(Issue::SeekOutOfRange))
        }
    }

    /// Step over `n` bytes; fails, leaving the cursor, when fewer remain.
    pub fn skip(&mut self, n: usize) -> (r: Result<(), Error>)
        ensures
            final(self).buf() == old(self).buf(),
            r is Ok <==> old(self).cursor() + n <= old(self).buf().len(),
            r is Ok ==> final(self).cursor() == old(self).cursor() + n,
            r is Err ==> final(self).cursor() == old(self).cursor() && r == Err::<(), Error>(
                Error::UnexpectedEnd,
            ),
    {
        proof {
            use_type_invariant(&*self);
        }
        if n <= self.data.len() - self.pos {
            self.pos = self.pos + n;
            Ok(())
        } else {
            Err(Error::UnexpectedEnd)
        }
    }

    /// The next `n` bytes, as a slice of the buffer.
    pub fn take(&mut self, n: usize) -> (r: Result<&'a [u8], Error>)
        ensures
            final(self).buf() == old(self).buf(),
            r is Ok <==> old(self).cursor() + n <= old(self).buf().len(),
            r matches Ok(b) ==> b@ == old(self).buf().subrange(
                old(self).cursor(),
                old(self).cursor() + n,
            ) && final(self).cursor() == old(self).cursor() + n,
            r is Err ==> final(self).cursor() == old(self).cursor() && r == Err::<&'a [u8], Error>(
                Error::UnexpectedEnd,
            ),
    {
        proof {
            use_type_invariant(&*self);
        }
        if n <= self.data.len() - self.pos {
            let b = vstd::slice::slice_subrange(self.data, self.pos, self.pos + n);
            self.pos = self.pos + n;
            Ok(b)
        } else {
            Err(Error::UnexpectedEnd)
        }
    }

    /// The next byte.
    pub fn u8(&mut self) -> (r: Result<u8, Error>)
        ensures
            final(self).buf() == old(self).buf(),
            r is Ok <==> old(self).cursor() + 1 <= old(self).buf().len(),
            r matches Ok(x) ==> x == old(self).buf()[old(self).cursor()] && final(self).cursor()
                == old(self).cursor() + 1,
            r is Err ==> final(self).cursor() == old(self).cursor() && r == Err::<u8, Error>(
                Error::UnexpectedEnd,
            ),
    {
        proof {
            use_type_invariant(&*self);
        }
        if self.pos < self.data.len() {
            let x = self.data[self.pos];
            self.pos = self.pos + 1;
            Ok(x)
        } else {
            Err(Error::UnexpectedEnd)
        }
    }

    /// The next big-endian `u16`.
    pub fn be_u16(&mut self) -> (r: Result<u16, Error>)
        ensures
            final(self).buf() == old(self).buf(),
            r is Ok <==> old(self).cursor() + 2 <= old(self).buf().len(),
            r matches Ok(x) ==> x == u16_at(old(self).buf(), old(self).cursor())
                && final(self).cursor() == old(self).cursor() + 2,
            r is Err ==> final(self).cursor() == old(self).cursor() && r == Err::<u16, Error>(
                Error::UnexpectedEnd,
            ),
    {
        proof {
            use_type_invariant(&*self);
        }
        if self.data.len() - self.pos >= 2 {
            let x = get_u16(self.data, self.pos);
            self.pos = self.pos + 2;
            Ok(x)
        } else {
            Err(Error::UnexpectedEnd)
        }
    }

    /// The next big-endian `i16`.
    pub fn be_i16(&mut self) -> (r: Result<i16, Error>)
        ensures
            final(self).buf() == old(self).buf(),
            r is Ok <==> old(self).cursor() + 2 <= old(self).buf().len(),
            r matches Ok(x) ==> x == u16_at(old(self).buf(), old(self).cursor()) as i16
                && final(self).cursor() == old(self).cursor() + 2,
            r is Err ==> final(self).cursor() == old(self).cursor() && r == Err::<i16, Error>(
                Error::UnexpectedEnd,
            ),
    {
        match self.be_u16() {
            Ok(x) => Ok(x as i16),
            Err(e) => Err(e),
        }
    }

    /// The next big-endian `u32`.
    pub fn be_u32(&mut self) -> (r: Result<u32, Error>)
        ensures
            final(self).buf() == old(self).buf(),
            r is Ok <==> old(self).cursor() + 4 <= old(self).buf().len(),
            r matches Ok(x) ==> x == u32_at(old(self).buf(), old(self).cursor())
                && final(self).cursor() == old(self).cursor() + 4,
            r is Err ==> final(self).cursor() == old(self).cursor() && r == Err::<u32, Error>(
                Error::UnexpectedEnd,
            ),
    {
        proof {
            use_type_invariant(&*self);
        }
        if self.data.len() - self.pos >= 4 {
            let x = get_u32(self.data, self.pos);
            self.pos = self.pos + 4;
            Ok(x)
        } else {
            Err(Error::UnexpectedEnd)
        }
    }

    /// The next big-endian `i32`.
    pub fn be_i32(&mut self) -> (r: Result<i32, Error>)
        ensures
            final(self).buf() == old(self).buf(),
            r is Ok <==> old(self).cursor() + 4 <= old(self).buf().len(),
            r matches Ok(x) ==> x == u32_at(old(self).buf(), old(self).cursor()) as i32
                && final(self).cursor() == old(self).cursor() + 4,
            r is Err ==> final(self).cursor() == old(self).cursor() && r == Err::<i32, Error>(
                Error::UnexpectedEnd,
            ),
    {
        match self.be_u32() {
            Ok(x) => Ok(x as i32),
            Err(e) => Err(e),
        }
    }

    /// The next big-endian `u64`.
    pub fn be_u64(&mut self) -> (r: Result<u64, Error>)
        ensures
            final(self).buf() == old(self).buf(),
            r is Ok <==> old(self).cursor() + 8 <= old(self).buf().len(),
            r matches Ok(x) ==> x == u64_at(old(self).buf(), old(self).cursor())
                && final(self).cursor() == old(self).cursor() + 8,
            r is Err ==> final(self).cursor() == old(self).cursor() && r == Err::<u64, Error>(
                Error::UnexpectedEnd,
            ),
    {
        proof {
            use_type_invariant(&*self);
        }
        if self.data.len() - self.pos >= 8 {
            let x = get_u64(self.data, self.pos);
            self.pos = self.pos + 8;
            Ok(x)
        } else {
            Err(Error::UnexpectedEnd)
        }
    }

    /// The next big-endian `i64`.
    pub fn be_i64(&mut self) -> (r: Result<i64, Error>)
        ensures
            final(self).buf() == old(self).buf(),
            r is Ok <==> old(self).cursor() + 8 <= old(self).buf().len(),
            r matches Ok(x) ==> x == u64_at(old(self).buf(), old(self).cursor()) as i64
                && final(self).cursor() == old(self).cursor() + 8,
            r is Err ==> final(self).cursor() == old(self).cursor() && r == Err::<i64, Error>(
                Error::UnexpectedEnd,
            ),
    {
        match self.be_u64() {
            Ok(x) => Ok(x as i64),
            Err(e) => Err(e),
        }
    }

    /// The bytes of the next `TString`.
    pub fn string_bytes(&mut self) -> (r: Result<&'a [u8], Error>)
        ensures
            final(self).buf() == old(self).buf(),
            r is Ok <==> tstring_at(old(self).buf(), old(self).cursor()) is Some,
            r matches Ok(b) ==> ({
                let (a, e) = tstring_at(old(self).buf(), old(self).cursor())->0;
                b@ == old(self).buf().subrange(a, e) && final(self).cursor() == e
            }),
            r is Err ==> final(self).cursor() == old(self).cursor() && r == Err::<&'a [u8], Error>(
                Error::UnexpectedEnd,
            ),
    {
        proof {
            use_type_invariant(&*self);
        }
        let start = self.pos;
        let n0 = self.u8()?;
        let n: usize;
        if n0 == 255 {
            match self.be_u32() {
                Ok(l) => {
                    n = l as usize;
                },
                Err(e) => {
                    self.pos = start;
                    return Err(e);
                },
            }
        } else {
            n = n0 as usize;
        }
        match self.take(n) {
            Ok(b) => Ok(b),
            Err(e) => {
                self.pos = start;
                Err(e)
            },
        }
    }

    /// The next `TString`, as text.
    pub fn string(&mut self) -> (r: Result<String, Error>)
        ensures
            final(self).buf() == old(self).buf(),
            r is Ok <==> tstring_at(old(self).buf(), old(self).cursor()) is Some,
            r matches Ok(t) ==> ({
                let (a, e) = tstring_at(old(self).buf(), old(self).cursor())->0;
                t@ == crate::text::text_of(old(self).buf().subrange(a, e))
                    && t@ == crate::text::utf8_lossy(old(self).buf().subrange(a, e))
                    && (vstd::utf8::valid_utf8(old(self).buf().subrange(a, e)) ==> t@
                    == vstd::utf8::decode_utf8(old(self).buf().subrange(a, e)))
                    && final(self).cursor() == e
            }),
            r is Err ==> final(self).cursor() == old(self).cursor() && r == Err::<String, Error>(
                Error::UnexpectedEnd,
            ),
    {
        let b = self.string_bytes()?;
        Ok(crate::text::text_from_bytes(b))
    }

    /// The bytes of the next NUL-terminated string, the terminator consumed.
    pub fn cstring_bytes(&mut self) -> (r: Result<&'a [u8], Error>)
        ensures
            final(self).buf() == old(self).buf(),
            match cstring_end(old(self).buf(), old(self).cursor()) {
                None => r == Err::<&'a [u8], Error>(Error::UnexpectedEnd) && final(self).cursor()
                    == old(self).cursor(),
                Some(z) => r matches Ok(b) && b@ == old(self).buf().subrange(old(self).cursor(), z)
                    && final(self).cursor() == z + 1,
            },
    {
        proof {
            use_type_invariant(&*self);
        }
        let n = self.data.len();
        match find_byte(self.data, self.pos, 0) {
            None => Err(Error::UnexpectedEnd),
            Some(z) => {
                let b = vstd::slice::slice_subrange(self.data, self.pos, z);
                self.pos = z + 1;
                Ok(b)
            },
        }
    }

    /// The next object version header.
    pub fn read_version(&mut self) -> (r: Result<VersionHeader, Error>)
        ensures
            final(self).buf() == old(self).buf(),
            r is Ok <==> version_at(old(self).buf(), old(self).cursor()) is Some,
            r matches Ok(h) ==> version_at(old(self).buf(), old(self).cursor()) == Some(
                (h, final(self).cursor()),
            ),
            r is Err ==> final(self).cursor() == old(self).cursor() && r == Err::<
                VersionHeader,
                Error,
            >(Error::UnexpectedEnd),
    {
        proof {
            use_type_invariant(&*self);
        }
        let start = self.pos;
        if self.data.len() - self.pos >= 4 {
            let w = get_u32(self.data, self.pos);
            if w & K_BYTE_COUNT_MASK != 0 {
                if self.data.len() - self.pos < 6 {
                    return Err(Error::UnexpectedEnd);
                }
                let count = (w & !K_BYTE_COUNT_MASK) as usize;
                if count > usize::MAX - 4 || start > usize::MAX - 4 - count {
                    return Err(Error::UnexpectedEnd);
                }
                let version = get_u16(self.data, self.pos + 4);
                self.pos = self.pos + 6;
                return Ok(VersionHeader { version, end: Some(start + 4 + count) });
            }
        }
        if self.data.len() - self.pos >= 2 {
            let version = get_u16(self.data, self.pos);
            self.pos = self.pos + 2;
            Ok(VersionHeader { version, end: None })
        } else {
            Err(Error::UnexpectedEnd)
        }
    }
}

} // verus!
