//! Reading ROOT's object framing: the byte-count/class-tag header before a
//! streamed object, the `TObject` base, and `TNamed`.
//!
//! An object pointer is streamed as an optional byte count (a leading word
//! with [`K_BYTE_COUNT_MASK`] set), then a tag: 0 for a null pointer, a
//! reference to an object already read, [`K_NEW_CLASS_TAG`] followed by the
//! class name (NUL-terminated) the first time a class appears, or a
//! reference to that first appearance ([`K_CLASS_MASK`] set). A
//! [`TagReader`] remembers the classes seen in one buffer.

use vstd::prelude::*;
use crate::codec::{u16_at, u32_at};
use crate::error::Error;
use crate::rbuffer::{cstring_end, tstring_at, version_at, RBuffer, K_BYTE_COUNT_MASK};
use crate::text::text_of;

verus! {

/// The tag announcing a class seen for the first time.
pub const K_NEW_CLASS_TAG: u32 = 0xFFFF_FFFF;

/// The bit marking a tag as a class reference.
pub const K_CLASS_MASK: u32 = 0x8000_0000;

/// `kByteCountVMask`: the bit a `TObject` version carries when it is preceded
/// by a byte count.
pub const K_BYTE_COUNT_VMASK: u16 = 0x4000;

/// `kIsReferenced`: a `TObject` whose `fBits` carry it is followed by its
/// process id.
pub const K_IS_REFERENCED: u32 = 0x10;

/// What an object header says: the object's class (when the tag names one)
/// and, when it carries a byte count, the offset just past the object.
#[derive(Debug)]
pub struct ObjHeader {
    /// The class name's bytes.
    pub class_name: Option<Vec<u8>>,
    /// The offset just past the object.
    pub end: Option<usize>,
}

/// The class recorded under key `k`, the latest recording winning.
pub open spec fn lookup_class(m: Seq<(u128, Seq<u8>)>, k: u128) -> Option<Seq<u8>>
    decreases m.len(),
{
    if m.len() == 0 {
        None
    } else if m.last().0 == k {
        Some(m.last().1)
    } else {
        lookup_class(m.drop_last(), k)
    }
}

/// The object header at byte `p` of `s` of a buffer whose offsets are
/// counted from `base` bytes before it, with classes `m` seen so far: the
/// class it names, where the object ends, where reading goes on, and the
/// classes seen after it. `None` when the buffer ends first.
pub open spec fn header_at(s: Seq<u8>, p: int, base: u128, m: Seq<(u128, Seq<u8>)>) -> Option<
    (Option<Seq<u8>>, Option<int>, int, Seq<(u128, Seq<u8>)>),
> {
    if p < 0 || p + 4 > s.len() {
        None
    } else {
        let w = u32_at(s, p);
        let counted = w & K_BYTE_COUNT_MASK != 0 && w != K_NEW_CLASS_TAG;
        if counted && p + 8 > s.len() {
            None
        } else {
            let tag = if counted { u32_at(s, p + 4) } else { w };
            let q = if counted { p + 8 } else { p + 4 };
            let end: Option<int> = if counted { Some(p + 4 + (w & !K_BYTE_COUNT_MASK)) } else { None };
            if counted && p + 4 + (w & !K_BYTE_COUNT_MASK) > usize::MAX {
                None
            } else if tag & K_CLASS_MASK == 0 {
                Some((None, end, q, m))
            } else if tag == K_NEW_CLASS_TAG {
                match cstring_end(s, q) {
                    None => None,
                    Some(z) => {
                        let key: u128 = if counted { (p + 4 + base + 2) as u128 } else { (m.len() + 1) as u128 };
                        Some((Some(s.subrange(q, z)), end, z + 1, m.push((key, s.subrange(q, z)))))
                    },
                }
            } else {
                Some((lookup_class(m, (tag & !K_CLASS_MASK) as u128), end, q, m))
            }
        }
    }
}

/// The optional bytes of an optional byte vector.
pub open spec fn opt_bytes(c: Option<Vec<u8>>) -> Option<Seq<u8>> {
    match c {
        Some(v) => Some(v@),
        None => None,
    }
}

/// Copy a byte slice.
pub fn bytes_to_vec(s: &[u8]) -> (r: Vec<u8>)
    ensures
        r@ == s@,
{
    let mut out: Vec<u8> = Vec::new();
    let mut i: usize = 0;
    while i < s.len()
        invariant
            i <= s@.len(),
            out@ == s@.subrange(0, i as int),
        decreases s@.len() - i,
    {
        out.push(s[i]);
        i += 1;
        assert(out@ =~= s@.subrange(0, i as int));
    }
    assert(s@.subrange(0, i as int) == s@);
    out
}

/// The classes seen while reading one object buffer.
pub struct TagReader {
    base: u64,
    classes: Vec<(u128, Vec<u8>)>,
}

/// The classes as keys and name bytes.
pub open spec fn class_views(c: Seq<(u128, Vec<u8>)>) -> Seq<(u128, Seq<u8>)> {
    c.map_values(|e: (u128, Vec<u8>)| (e.0, e.1@))
}

impl TagReader {
    /// How many bytes precede the buffer in the offsets tags refer to.
    pub closed spec fn key_base(&self) -> u128 {
        self.base as u128
    }

    /// The classes seen so far, with their keys.
    pub closed spec fn seen(&self) -> Seq<(u128, Seq<u8>)> {
        class_views(self.classes@)
    }

    /// A reader for an object buffer that follows a key header of `keylen`
    /// bytes (object offsets count from the key's start).
    pub fn new(keylen: usize) -> (r: TagReader)
        ensures
            r.key_base() == keylen,
            r.seen() == Seq::<(u128, Seq<u8>)>::empty(),
    {
        let r = TagReader { base: keylen as u64, classes: Vec::new() };
        assert(class_views(r.classes@) =~= Seq::<(u128, Seq<u8>)>::empty());
        r
    }

    /// The class recorded under `k`.
    fn lookup(&self, k: u128) -> (r: Option<Vec<u8>>)
        ensures
            opt_bytes(r) == lookup_class(self.seen(), k),
    {
        let mut i = self.classes.len();
        assert(self.classes@.take(i as int) == self.classes@);
        while i > 0
            invariant
                i <= self.classes@.len(),
                lookup_class(self.seen(), k) == lookup_class(class_views(self.classes@.take(i as int)), k),
            decreases i,
        {
            let ghost t = class_views(self.classes@.take(i as int));
            assert(class_views(self.classes@.take(i - 1)) == t.drop_last());
            assert(t.last() == (self.classes@[i - 1].0, self.classes@[i - 1].1@));
            if self.classes[i - 1].0 == k {
                return Some(bytes_to_vec(self.classes[i - 1].1.as_slice()));
            }
            i -= 1;
        }
        None
    }

    /// Read the object header at `r`'s cursor, recording a newly named class.
    pub fn read_header(&mut self, r: &mut RBuffer) -> (res: Result<ObjHeader, Error>)
        ensures
            final(r).buf() == old(r).buf(),
            final(self).key_base() == old(self).key_base(),
            match header_at(old(r).buf(), old(r).cursor(), old(self).key_base(), old(self).seen()) {
                None => res == Err::<ObjHeader, Error>(Error::UnexpectedEnd),
                Some((c, e, q, m)) => res matches Ok(h) && opt_bytes(h.class_name) == c && match e {
                    Some(x) => h.end == Some(x as usize),
                    None => h.end is None,
                } && final(r).cursor() == q && final(self).seen() == m,
            },
    {
        let ghost s = r.buf();
        let start = r.pos();
        let w = r.be_u32()?;
        let counted = w & K_BYTE_COUNT_MASK != 0 && w != K_NEW_CLASS_TAG;
        let tag = if counted {
            r.be_u32()?
        } else {
            w
        };
        let mut end: Option<usize> = None;
        if counted {
            let bc = (w & !K_BYTE_COUNT_MASK) as usize;
            if bc > usize::MAX - 4 || start > usize::MAX - 4 - bc {
                return Err(Error::UnexpectedEnd);
            }
            end = Some(start + 4 + bc);
        }
        if tag & K_CLASS_MASK == 0 {
            return Ok(ObjHeader { class_name: None, end });
        }
        if tag == K_NEW_CLASS_TAG {
            let name = r.cstring_bytes()?;
            let key: u128 = if counted {
                start as u128 + 4 + self.base as u128 + 2
            } else {
                self.classes.len() as u128 + 1
            };
            let v = bytes_to_vec(name);
            let ghost before = self.classes@;
            self.classes.push((key, v));
            proof {
                assert(class_views(self.classes@) =~= class_views(before).push((key, name@)));
            }
            return Ok(ObjHeader { class_name: Some(bytes_to_vec(name)), end });
        }
        let k = (tag & !K_CLASS_MASK) as u128;
        let c = self.lookup(k);
        Ok(ObjHeader { class_name: c, end })
    }
}

/// Where a streamed `TObject` starting at byte `p` of `s` ends: a 2-byte
/// version (6 bytes when a byte count precedes it), `fUniqueID`, `fBits`, and
/// a 2-byte process id when `fBits` has [`K_IS_REFERENCED`].
pub open spec fn tobject_end(s: Seq<u8>, p: int) -> Option<int> {
    if p < 0 || p + 2 > s.len() {
        None
    } else {
        let q = if u16_at(s, p) & K_BYTE_COUNT_VMASK != 0 { p + 6 } else { p + 2 };
        if q + 8 > s.len() {
            None
        } else if u32_at(s, q + 4) & K_IS_REFERENCED != 0 {
            if q + 10 > s.len() {
                None
            } else {
                Some(q + 10)
            }
        } else {
            Some(q + 8)
        }
    }
}

/// Step over a streamed `TObject`.
pub fn read_tobject(r: &mut RBuffer) -> (res: Result<(), Error>)
    ensures
        final(r).buf() == old(r).buf(),
        match tobject_end(old(r).buf(), old(r).cursor()) {
            None => res == Err::<(), Error>(Error::UnexpectedEnd),
            Some(e) => res is Ok && final(r).cursor() == e,
        },
{
    let ghost s = r.buf();
    let start = r.pos();
    let ghost p = r.cursor();
    let v = r.be_u16()?;
    assert(v == u16_at(s, p));
    if v & K_BYTE_COUNT_VMASK != 0 {
        r.skip(4)?;
    }
    let ghost q = r.cursor();
    assert(q == if u16_at(s, p) & K_BYTE_COUNT_VMASK != 0 { p + 6 } else { p + 2 });
    r.be_u32()?;
    let bits = r.be_u32()?;
    assert(bits == u32_at(s, q + 4));
    if bits & K_IS_REFERENCED != 0 {
        r.be_u16()?;
    }
    Ok(())
}

/// A `TNamed`'s name and title.
#[derive(Debug)]
pub struct TNamed {
    pub name: String,
    pub title: String,
}

/// A streamed `TNamed` at byte `p` of `s`: its name and title, and where
/// reading goes on (the end its byte count gives, else just past the title).
pub open spec fn tnamed_at(s: Seq<u8>, p: int) -> Option<(Seq<char>, Seq<char>, int)> {
    match version_at(s, p) {
        None => None,
        Some((vh, q)) => match tobject_end(s, q) {
            None => None,
            Some(q2) => match tstring_at(s, q2) {
                None => None,
                Some((a1, e1)) => match tstring_at(s, e1) {
                    None => None,
                    Some((a2, e2)) => match vh.end {
                        Some(end) => if end <= s.len() {
                            Some((text_of(s.subrange(a1, e1)), text_of(s.subrange(a2, e2)), end as int))
                        } else {
                            None
                        },
                        None => Some((text_of(s.subrange(a1, e1)), text_of(s.subrange(a2, e2)), e2)),
                    },
                },
            },
        },
    }
}

/// Read a streamed `TNamed`.
pub fn read_tnamed(r: &mut RBuffer) -> (res: Result<TNamed, Error>)
    ensures
        final(r).buf() == old(r).buf(),
        match tnamed_at(old(r).buf(), old(r).cursor()) {
            None => res is Err,
            Some((n, t, q)) => res matches Ok(v) && v.name@ == n && v.title@ == t && final(r).cursor() == q,
        },
{
    let _start = r.pos();
    let vh = r.read_version()?;
    read_tobject(r)?;
    let name = r.string()?;
    let title = r.string()?;
    if let Some(end) = vh.end {
        r.seek(end)?;
    }
    Ok(TNamed { name, title })
}

} // verus!
