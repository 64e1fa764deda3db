//! Reading a `TBasket` — the unit of branch data on disk.
//!
//! A basket is a `TKey` whose `fKeyLen` *includes* a 19-byte TBasket extension
//! after the title strings: `fVersion(u16) fBufferSize(i32) fNevBufSize(i32)
//! fNevBuf(i32) fLast(i32) flag(u8)`. The data starts at `fSeekKey + fKeyLen`
//! and is compressed iff its on-disk size differs from the key's `fObjLen`. The
//! uncompressed buffer holds the entry data in `[0, border)` (`border = fLast −
//! fKeyLen`); for variable-length branches `[border, fObjLen)` is the
//! `fEntryOffset` array.
//!
//! Fetching the record and inflating a compressed payload happen outside this
//! module: [`BasketKey::parse`] reads the key header (which tells how many
//! bytes the record has and whether its payload is compressed), and
//! [`Basket::from_buffer`] takes the uncompressed buffer.

use vstd::prelude::*;
use crate::codec::{i32_at, u16_at, u32_at};
use crate::error::{Error, Issue};
use crate::rbuffer::{tstring_at, RBuffer};

verus! {

/// Key version at or above which a `TKey` uses 64-bit seek pointers.
pub const KEY_BIG_VERSION: u16 = 1000;

/// What a basket's key header says: the record's on-disk size, the
/// uncompressed size, the key length, and the basket's entry bookkeeping.
#[derive(Debug, Clone, Copy, PartialEq, Eq, Structural)]
pub struct BasketKey {
    /// `|fNbytes|`: the whole record's on-disk size.
    pub record_len: u32,
    /// `fObjLen`: the uncompressed buffer size.
    pub obj_len: u32,
    /// `fKeyLen`: bytes of key header before the (possibly compressed) data.
    pub key_len: u16,
    /// `fNevBuf` (negative read as 0): the entries this basket holds.
    pub n_entries: u32,
    /// `fLast` (negative read as 0): where the entry data ends, from the key start.
    pub last: u32,
}

/// Non-negative part of an `i32`.
pub open spec fn clamp0(x: i32) -> u32 {
    if x < 0 { 0 } else { x as u32 }
}

/// Where the three key strings of a basket header end, when the header holds
/// them: the fixed fields take 26 bytes, or 34 for a key version above 1000.
pub open spec fn key_strings_end(s: Seq<u8>) -> Option<int> {
    if s.len() < 18 {
        None
    } else {
        let p0: int = if u16_at(s, 4) > KEY_BIG_VERSION { 34 } else { 26 };
        if p0 > s.len() {
            None
        } else {
            match tstring_at(s, p0) {
                None => None,
                Some((_, e1)) => match tstring_at(s, e1) {
                    None => None,
                    Some((_, e2)) => match tstring_at(s, e2) {
                        None => None,
                        Some((_, e3)) => Some(e3),
                    },
                },
            }
        }
    }
}

/// The key a basket header `s` describes, when the header is complete
/// (the three key strings and the 19-byte basket extension are all present).
pub open spec fn spec_basket_key(s: Seq<u8>) -> Option<BasketKey> {
    match key_strings_end(s) {
        None => None,
        Some(e) => if e + 19 > s.len() {
            None
        } else {
            let nbytes = i32_at(s, 0);
            Some(
                BasketKey {
                    record_len: if nbytes < 0 { (-(nbytes as int)) as u32 } else { nbytes as u32 },
                    obj_len: u32_at(s, 6),
                    key_len: u16_at(s, 14),
                    n_entries: clamp0(i32_at(s, e + 10)),
                    last: clamp0(i32_at(s, e + 14)),
                },
            )
        },
    }
}

impl BasketKey {
    /// Parse the key header at the start of a basket record. Fails when the
    /// header is cut short, or when `fKeyLen` exceeds the record length.
    pub fn parse(head: &[u8]) -> (r: Result<BasketKey, Error>)
        ensures
            match spec_basket_key(head@) {
                None => r == Err::<BasketKey, Error>(Error::UnexpectedEnd),
                Some(k) => if k.key_len > k.record_len {
                    r == Err::<BasketKey, Error>(Error::Format(Issue::KeyLongerThanRecord))
                } else {
                    r == Ok::<BasketKey, Error>(k)
                },
            },
    {
        let mut r = RBuffer::new(head);
        let nbytes = r.be_i32()?;
        let key_version = r.be_u16()?;
        let obj_len = r.be_u32()?;
        let _datime = r.be_u32()?;
        let key_len = r.be_u16()?;
        let _cycle = r.be_u16()?;
        if key_version > KEY_BIG_VERSION {
            r.be_u64()?;
            r.be_u64()?;
        } else {
            r.be_u32()?;
            r.be_u32()?;
        }
        r.string_bytes()?;  // "TBasket"
        r.string_bytes()?;  // branch name
        r.string_bytes()?;  // tree name
        let e = r.pos();
        r.be_u16()?;  // basket version
        r.be_i32()?;  // fBufferSize
        r.be_i32()?;  // fNevBufSize
        let n_entries = r.be_i32()?;
        let last = r.be_i32()?;
        r.u8()?;  // flag
        assert(e + 19 <= head@.len());
        let record_len: u32 = if nbytes < 0 {
            if nbytes == i32::MIN {
                0x8000_0000u32
            } else {
                (-nbytes) as u32
            }
        } else {
            nbytes as u32
        };
        let n_entries: u32 = if n_entries < 0 { 0 } else { n_entries as u32 };
        let last: u32 = if last < 0 { 0 } else { last as u32 };
        if (key_len as u32) > record_len {
            return Err(Error::Format(Issue::KeyLongerThanRecord));
        }
        Ok(BasketKey { record_len, obj_len, key_len, n_entries, last })
    }

    /// The on-disk size of the data after the key.
    pub fn on_disk(&self) -> (r: u32)
        requires
            self.key_len <= self.record_len,
        ensures
            r == self.record_len - self.key_len,
    {
        self.record_len - self.key_len as u32
    }

    /// Whether the data after the key is compressed (its on-disk size differs
    /// from the uncompressed size).
    pub fn is_compressed(&self) -> (r: bool)
        requires
            self.key_len <= self.record_len,
        ensures
            r == (self.record_len - self.key_len != self.obj_len),
    {
        self.on_disk() != self.obj_len
    }
}

/// A decoded basket: its entry count and uncompressed buffer.
#[derive(Debug)]
pub struct Basket {
    /// Number of entries in this basket (`fNevBuf`).
    pub n_entries: u32,
    /// Byte offset within `data` where entry data ends and the `fEntryOffset`
    /// array begins (`fLast − fKeyLen`); equals `data.len()` for fixed branches.
    pub border: usize,
    /// The uncompressed basket buffer (`fObjLen` bytes).
    pub data: Vec<u8>,
    /// For variable-length branches, the per-entry byte offsets into the entry
    /// region (`fEntryOffset`, made relative to the data buffer and clamped to
    /// `[0, border]`): `n_entries` start offsets, then `border`, so
    /// `n_entries + 1` in all. `None` for fixed/scalar branches.
    pub entry_offsets: Option<Vec<usize>>,
}

/// The boundary between entry data and the offset array: `fLast − fKeyLen`
/// (0 when negative), clamped to the buffer.
pub open spec fn spec_border(last: u32, key_len: u16, data_len: nat) -> int {
    let b: int = if last >= key_len { last - key_len } else { 0 };
    if b <= data_len { b } else { data_len as int }
}

/// The clamped entry offsets a variable basket's `fEntryOffset` tail `t`
/// (the buffer after the border) records: its leading count (0 when
/// negative), then that many basket-relative offsets, each made
/// buffer-relative and clamped to `[0, border]`, of which the first
/// `n_entries` are kept, then `border` itself. `None` when `t` ends before
/// the offsets do.
pub open spec fn spec_entry_offsets(t: Seq<u8>, key_len: u16, n_entries: u32, border: int) -> Option<
    Seq<usize>,
> {
    if t.len() < 4 {
        None
    } else {
        let count = clamp0(i32_at(t, 0));
        if 4 + 4 * count > t.len() {
            None
        } else {
            let kept: int = if count <= n_entries { count as int } else { n_entries as int };
            Some(
                Seq::new(
                    kept as nat,
                    |i: int|
                        {
                            let raw = i32_at(t, 4 + 4 * i) - key_len;
                            (if raw < 0 { 0 } else if raw > border { border } else { raw }) as usize
                        },
                ).push(border as usize),
            )
        }
    }
}

/// Why a variable basket's `fEntryOffset` tail `t` cannot be read: it ends
/// before its count or its offsets do, or it records fewer offsets than
/// the basket's `n_entries` entries.
pub open spec fn spec_offsets_error(t: Seq<u8>, n_entries: u32) -> Option<Error> {
    if t.len() < 4 || 4 + 4 * clamp0(i32_at(t, 0)) > t.len() {
        Some(Error::UnexpectedEnd)
    } else if clamp0(i32_at(t, 0)) < n_entries {
        Some(Error::Format(Issue::TooFewEntryOffsets))
    } else {
        None
    }
}

/// `b` is what [`Basket::from_buffer`] builds from `key` and the
/// uncompressed buffer `data`: the border `fLast − fKeyLen` (clamped), and,
/// when the buffer goes on past the border, the entry offsets read there.
pub open spec fn read_back(key: BasketKey, data: Seq<u8>, b: Basket) -> bool {
    let border = spec_border(key.last, key.key_len, data.len());
    if border < data.len() {
        match spec_entry_offsets(data.subrange(border, data.len() as int), key.key_len, key.n_entries, border) {
            None => false,
            Some(offs) => b.holds(key.n_entries, border, data, Some(offs)),
        }
    } else {
        b.holds(key.n_entries, border, data, None)
    }
}

impl Basket {
    /// The border lies within the buffer.
    pub open spec fn wf(&self) -> bool {
        self.border <= self.data@.len()
    }

    /// The entry-data region of the buffer.
    pub open spec fn entry_bytes(&self) -> Seq<u8> {
        self.data@.subrange(0, self.border as int)
    }

    /// This basket has the given entry count, border, buffer and offsets.
    pub open spec fn holds(
        &self,
        n_entries: u32,
        border: int,
        data: Seq<u8>,
        offsets: Option<Seq<usize>>,
    ) -> bool {
        &&& self.n_entries == n_entries
        &&& self.border == border
        &&& self.data@ == data
        &&& match offsets {
            None => self.entry_offsets is None,
            Some(o) => self.entry_offsets matches Some(v) && v@ == o,
        }
    }

    /// Build a basket from its key and uncompressed buffer: locate the border
    /// between entry data and the `fEntryOffset` array, and read that array
    /// when present. ROOT stores `n_entries + 1` offsets whose last is a
    /// sentinel, so the last entry always ends at the border. A basket that
    /// records fewer offsets than entries is refused.
    pub fn from_buffer(key: &BasketKey, data: Vec<u8>) -> (r: Result<Basket, Error>)
        ensures
            r matches Ok(b) ==> read_back(*key, data@, b) && b.wf(),
            r matches Ok(b) ==> (b.entry_offsets matches Some(o) ==> o@.len() == b.n_entries + 1),
            ({
                let border = spec_border(key.last, key.key_len, data@.len());
                if border < data@.len() && spec_offsets_error(data@.subrange(border, data@.len() as int), key.n_entries)
                    is Some {
                    r == Err::<Basket, Error>(
                        spec_offsets_error(data@.subrange(border, data@.len() as int), key.n_entries)->0,
                    )
                } else if border < data@.len() {
                    match spec_entry_offsets(
                        data@.subrange(border, data@.len() as int),
                        key.key_len,
                        key.n_entries,
                        border,
                    ) {
                        None => r == Err::<Basket, Error>(Error::UnexpectedEnd),
                        Some(offs) => r matches Ok(b) && b.holds(
                            key.n_entries,
                            border,
                            data@,
                            Some(offs),
                        ),
                    }
                } else {
                    r matches Ok(b) && b.holds(key.n_entries, border, data@, None)
                }
            }),
    {
        let key_len = key.key_len as usize;
        let last = key.last as usize;
        let b0 = if last >= key_len { last - key_len } else { 0 };
        let border = if b0 <= data.len() { b0 } else { data.len() };
        if border < data.len() {
            let tail = vstd::slice::slice_subrange(data.as_slice(), border, data.len());
            let mut o = RBuffer::new(tail);
            let c = o.be_i32()?;
            let count: u32 = if c < 0 { 0 } else { c as u32 };
            if (count as usize) > (o.remaining()) / 4 {
                return Err(Error::UnexpectedEnd);
            }
            if count < key.n_entries {
                return Err(Error::Format(Issue::TooFewEntryOffsets));
            }
            let kept = if count <= key.n_entries { count } else { key.n_entries };
            let ghost t = tail@;
            let mut offs: Vec<usize> = Vec::new();
            let mut i: u32 = 0;
            while i < kept
                invariant
                    i <= kept,
                    kept <= count,
                    o.buf() == t,
                    t.len() >= 4 + 4 * count,
                    o.cursor() == 4 + 4 * i,
                    border < t.len() + border,
                    offs@.len() == i,
                    forall|j: int|
                        0 <= j < i ==> #[trigger] offs@[j] == ({
                            let raw = i32_at(t, 4 + 4 * j) - key.key_len;
                            (if raw < 0 {
                                0
                            } else if raw > border {
                                border as int
                            } else {
                                raw
                            }) as usize
                        }),
                decreases kept - i,
            {
                let v = o.be_i32()?;
                let raw: i64 = v as i64 - key.key_len as i64;
                let c: usize = if raw < 0 {
                    0
                } else {
                    let ru = raw as usize;
                    if ru > border {
                        border
                    } else {
                        ru
                    }
                };
                offs.push(c);
                i += 1;
            }
            offs.push(border);
            proof {
                let s = spec_entry_offsets(t, key.key_len, key.n_entries, border as int);
                assert(s is Some);
                assert(offs@ =~= s->0);
            }
            Ok(Basket { n_entries: key.n_entries, border, data, entry_offsets: Some(offs) })
        } else {
            Ok(Basket { n_entries: key.n_entries, border, data, entry_offsets: None })
        }
    }

    /// The entry-data region (before any `fEntryOffset` array).
    pub fn entry_data(&self) -> (r: &[u8])
        requires
            self.wf(),
        ensures
            r@ == self.entry_bytes(),
    {
        vstd::slice::slice_subrange(self.data.as_slice(), 0, self.border)
    }
}

} // verus!
