//! The `TTree` object as ROOT streams it: the tree, its `TBranch` and
//! `TBranchElement` records, and their `TLeaf*` leaves.
//!
//! Each record is written into one growing buffer. A record with a byte
//! count is begun with a placeholder word and its version, and the count —
//! the bytes after the word — is filled in when it ends. A leaf or branch
//! that a later record points at is remembered under its name, as the
//! object reference ROOT resolves it by: the position of its byte count in
//! the object, plus the object key's length, plus `kMapOffset`.

use vstd::prelude::*;
use vstd::utf8::encode_utf8;
use crate::codec::{i16_bytes, i32_bytes, i64_bytes, put_u16, put_u32, put_u64, u16_bytes, u32_bytes, u64_bytes};
use crate::rbuffer::K_BYTE_COUNT_MASK;
use crate::text::str_eq;
use super::baskets::{put_tstring, BasketRec};
use super::branch::{Branch, BranchKind};
use super::content::tstring_bytes;
use super::layout::{base_leaf, spec_leaf_max, spec_str_len, stl_info_of, strings_fit, Kind};
use crate::text::concat_str;
use crate::value::Column;

verus! {

/// `fBits` ROOT writes for an embedded `TObject`.
pub const OBJ_BITS: u32 = 0x0300_0000;

/// ROOT's object-map displacement (`kMapOffset`).
pub const K_MAP_OFFSET: u32 = 2;

/// A record with a byte count: the count of the bytes after the count word
/// (with [`K_BYTE_COUNT_MASK`] set), the version, then the body.
pub open spec fn counted(v: u16, body: Seq<u8>) -> Seq<u8> {
    u32_bytes(((body.len() + 2) as u32) | K_BYTE_COUNT_MASK) + u16_bytes(v) + body
}

/// Begin a record of version `v`: a placeholder for its byte count, then the
/// version. Returns where the placeholder is.
pub fn begin_object(w: &mut Vec<u8>, v: u16) -> (tok: usize)
    ensures
        tok == old(w)@.len(),
        final(w)@ == old(w)@ + seq![0u8, 0u8, 0u8, 0u8] + u16_bytes(v),
{
    let tok = w.len();
    w.push(0);
    w.push(0);
    w.push(0);
    w.push(0);
    put_u16(w, v);
    assert(w@ =~= old(w)@ + seq![0u8, 0u8, 0u8, 0u8] + u16_bytes(v));
    tok
}

/// End the record begun at `tok`: fill in its byte count.
pub fn end_object(w: &mut Vec<u8>, tok: usize)
    requires
        tok + 4 <= old(w)@.len(),
    ensures
        final(w)@ == old(w)@.subrange(0, tok as int) + u32_bytes(((old(w)@.len() - tok - 4) as u32) | K_BYTE_COUNT_MASK)
            + old(w)@.subrange(tok + 4, old(w)@.len() as int),
{
    let n = ((w.len() - tok - 4) as u32) | K_BYTE_COUNT_MASK;
    w.set(tok, (n >> 24u32) as u8);
    w.set(tok + 1, (n >> 16u32) as u8);
    w.set(tok + 2, (n >> 8u32) as u8);
    w.set(tok + 3, n as u8);
    assert(w@ =~= old(w)@.subrange(0, tok as int) + u32_bytes(n) + old(w)@.subrange(tok + 4, old(w)@.len() as int));
}

/// Ending a record whose body followed its header gives the counted record.
pub proof fn lemma_counted(pre: Seq<u8>, v: u16, body: Seq<u8>)
    ensures
        ({
            let s = pre + seq![0u8, 0u8, 0u8, 0u8] + u16_bytes(v) + body;
            s.subrange(0, pre.len() as int) + u32_bytes(((s.len() - pre.len() - 4) as u32) | K_BYTE_COUNT_MASK)
                + s.subrange(pre.len() as int + 4, s.len() as int) == pre + counted(v, body)
        }),
{
    let s = pre + seq![0u8, 0u8, 0u8, 0u8] + u16_bytes(v) + body;
    assert(s.subrange(0, pre.len() as int) =~= pre);
    assert(s.subrange(pre.len() as int + 4, s.len() as int) =~= u16_bytes(v) + body);
    assert(s.len() - pre.len() - 4 == body.len() + 2);
    assert(pre + counted(v, body) =~= pre + u32_bytes(((body.len() + 2) as u32) | K_BYTE_COUNT_MASK) + (u16_bytes(v)
        + body));
}

/// A streamed `TObject`: version 1, `fUniqueID` 0 and `fBits`.
pub open spec fn tobject_bytes(bits: u32) -> Seq<u8> {
    u16_bytes(1) + u32_bytes(0) + u32_bytes(bits)
}

/// Write a `TObject`.
pub fn write_tobject(w: &mut Vec<u8>, bits: u32)
    ensures
        final(w)@ == old(w)@ + tobject_bytes(bits),
{
    put_u16(w, 1);
    put_u32(w, 0);
    put_u32(w, bits);
    assert(w@ =~= old(w)@ + tobject_bytes(bits));
}

/// A streamed `TNamed`: a counted record of version 1 holding the `TObject`,
/// the name and the title.
pub open spec fn tnamed_bytes(bits: u32, name: Seq<char>, title: Seq<char>) -> Seq<u8> {
    counted(1, tobject_bytes(bits) + tstring_bytes(name) + tstring_bytes(title))
}

/// Write a `TNamed`.
pub fn write_tnamed(w: &mut Vec<u8>, bits: u32, name: &str, title: &str)
    ensures
        final(w)@ == old(w)@ + tnamed_bytes(bits, name@, title@),
{
    let tok = begin_object(w, 1);
    write_tobject(w, bits);
    put_tstring(w, name);
    put_tstring(w, title);
    proof {
        lemma_counted(old(w)@, 1, tobject_bytes(bits) + tstring_bytes(name@) + tstring_bytes(title@));
        assert(w@ =~= old(w)@ + seq![0u8, 0u8, 0u8, 0u8] + u16_bytes(1) + (tobject_bytes(bits) + tstring_bytes(name@)
            + tstring_bytes(title@)));
    }
    end_object(w, tok);
}

/// `TAttLine` as a tree writes it: color 602, style 1, width 1.
pub open spec fn attline_bytes() -> Seq<u8> {
    counted(2, i16_bytes(602) + i16_bytes(1) + i16_bytes(1))
}

/// `TAttFill` as a tree writes it: color 0, style 1001.
pub open spec fn attfill_bytes() -> Seq<u8> {
    counted(2, i16_bytes(0) + i16_bytes(1001))
}

/// `TAttMarker` as a tree writes it: color 1, style 1, size 1.0 (the
/// `float` bit pattern `0x3F80_0000`).
pub open spec fn attmarker_bytes() -> Seq<u8> {
    counted(2, i16_bytes(1) + i16_bytes(1) + u32_bytes(0x3F80_0000))
}

/// `ROOT::TIOFeatures`: a counted record of version 1 with `fIOBits` 0.
pub open spec fn iofeatures_bytes() -> Seq<u8> {
    counted(1, seq![0u8])
}

/// Append a big-endian `i16`.
pub fn put_i16(w: &mut Vec<u8>, x: i16)
    ensures
        final(w)@ == old(w)@ + i16_bytes(x),
{
    put_u16(w, x as u16);
    assert(u16_bytes(x as u16) =~= i16_bytes(x));
}

/// Append a big-endian `i32`.
pub fn put_i32(w: &mut Vec<u8>, x: i32)
    ensures
        final(w)@ == old(w)@ + i32_bytes(x),
{
    put_u32(w, x as u32);
    assert(u32_bytes(x as u32) =~= i32_bytes(x));
}

/// Append a big-endian `i64`.
pub fn put_i64(w: &mut Vec<u8>, x: i64)
    ensures
        final(w)@ == old(w)@ + i64_bytes(x),
{
    put_u64(w, x as u64);
    assert(u64_bytes(x as u64) =~= i64_bytes(x));
}

/// Write the `TAttLine` of a tree.
pub fn write_attline(w: &mut Vec<u8>)
    ensures
        final(w)@ == old(w)@ + attline_bytes(),
{
    let tok = begin_object(w, 2);
    put_i16(w, 602);
    put_i16(w, 1);
    put_i16(w, 1);
    proof {
        lemma_counted(old(w)@, 2, i16_bytes(602) + i16_bytes(1) + i16_bytes(1));
        assert(w@ =~= old(w)@ + seq![0u8, 0u8, 0u8, 0u8] + u16_bytes(2) + (i16_bytes(602) + i16_bytes(1) + i16_bytes(1)));
    }
    end_object(w, tok);
}

/// Write a `TAttFill`.
pub fn write_attfill(w: &mut Vec<u8>)
    ensures
        final(w)@ == old(w)@ + attfill_bytes(),
{
    let tok = begin_object(w, 2);
    put_i16(w, 0);
    put_i16(w, 1001);
    proof {
        lemma_counted(old(w)@, 2, i16_bytes(0) + i16_bytes(1001));
        assert(w@ =~= old(w)@ + seq![0u8, 0u8, 0u8, 0u8] + u16_bytes(2) + (i16_bytes(0) + i16_bytes(1001)));
    }
    end_object(w, tok);
}

/// Write the `TAttMarker` of a tree.
pub fn write_attmarker(w: &mut Vec<u8>)
    ensures
        final(w)@ == old(w)@ + attmarker_bytes(),
{
    let tok = begin_object(w, 2);
    put_i16(w, 1);
    put_i16(w, 1);
    put_u32(w, 0x3F80_0000);
    proof {
        lemma_counted(old(w)@, 2, i16_bytes(1) + i16_bytes(1) + u32_bytes(0x3F80_0000));
        assert(w@ =~= old(w)@ + seq![0u8, 0u8, 0u8, 0u8] + u16_bytes(2) + (i16_bytes(1) + i16_bytes(1) + u32_bytes(
            0x3F80_0000,
        )));
    }
    end_object(w, tok);
}

/// Write `ROOT::TIOFeatures`.
pub fn write_iofeatures(w: &mut Vec<u8>)
    ensures
        final(w)@ == old(w)@ + iofeatures_bytes(),
{
    let tok = begin_object(w, 1);
    w.push(0);
    proof {
        lemma_counted(old(w)@, 1, seq![0u8]);
        assert(w@ =~= old(w)@ + seq![0u8, 0u8, 0u8, 0u8] + u16_bytes(1) + seq![0u8]);
    }
    end_object(w, tok);
}

/// The start of a `TObjArray` of `size` entries: the `TObject` (bits 0), an
/// empty name, the size and `fLowerBound` 0.
pub open spec fn array_head_bytes(size: i32) -> Seq<u8> {
    tobject_bytes(0) + tstring_bytes(Seq::empty()) + i32_bytes(size) + i32_bytes(0)
}

/// A `TObjArray` (version 3) of `size` entries whose bytes are `items`.
pub open spec fn obj_array(size: i32, items: Seq<u8>) -> Seq<u8> {
    counted(3, array_head_bytes(size) + items)
}

/// Begin a `TObjArray` of `size` entries; its entries follow.
pub fn begin_array(w: &mut Vec<u8>, size: i32) -> (tok: usize)
    ensures
        tok == old(w)@.len(),
        final(w)@ == old(w)@ + seq![0u8, 0u8, 0u8, 0u8] + u16_bytes(3) + array_head_bytes(size),
{
    let tok = begin_object(w, 3);
    write_tobject(w, 0);
    let empty = String::new();
    put_tstring(w, empty.as_str());
    put_i32(w, size);
    put_i32(w, 0);
    assert(w@ =~= old(w)@ + seq![0u8, 0u8, 0u8, 0u8] + u16_bytes(3) + array_head_bytes(size));
    tok
}

/// End a `TObjArray` begun at `tok` whose entries' bytes are `items`.
pub fn end_array(w: &mut Vec<u8>, tok: usize, Ghost(size): Ghost<i32>, Ghost(items): Ghost<Seq<u8>>)
    requires
        tok <= old(w)@.len(),
        old(w)@ == old(w)@.subrange(0, tok as int) + seq![0u8, 0u8, 0u8, 0u8] + u16_bytes(3) + array_head_bytes(size)
            + items,
    ensures
        final(w)@ == old(w)@.subrange(0, tok as int) + obj_array(size, items),
{
    let ghost pre = old(w)@.subrange(0, tok as int);
    proof {
        lemma_counted(pre, 3, array_head_bytes(size) + items);
        assert(old(w)@ =~= pre + seq![0u8, 0u8, 0u8, 0u8] + u16_bytes(3) + (array_head_bytes(size) + items));
    }
    end_object(w, tok);
}

/// An empty `TObjArray`.
pub fn write_empty_array(w: &mut Vec<u8>)
    ensures
        final(w)@ == old(w)@ + obj_array(0, Seq::empty()),
{
    let tok = begin_array(w, 0);
    assert(w@.subrange(0, tok as int) =~= old(w)@);
    assert(w@ =~= w@.subrange(0, tok as int) + seq![0u8, 0u8, 0u8, 0u8] + u16_bytes(3) + array_head_bytes(0)
        + Seq::<u8>::empty());
    end_array(w, tok, Ghost(0), Ghost(Seq::empty()));
}

/// An object written with a fresh class tag, as `ReadObjectAny` reads it: a
/// byte count covering everything after it, `kNewClassTag`, the class
/// name with its terminating zero, then the object.
pub open spec fn any_bytes(class: Seq<u8>, body: Seq<u8>) -> Seq<u8> {
    u32_bytes(((4 + class.len() + 1 + body.len()) as u32) | K_BYTE_COUNT_MASK) + u32_bytes(0xFFFF_FFFF) + class
        + seq![0u8] + body
}

/// Begin an object with a fresh class tag.
pub fn begin_any(w: &mut Vec<u8>, class: &str) -> (tok: usize)
    ensures
        tok == old(w)@.len(),
        final(w)@ == old(w)@ + seq![0u8, 0u8, 0u8, 0u8] + u32_bytes(0xFFFF_FFFF) + encode_utf8(class@) + seq![0u8],
{
    let tok = w.len();
    w.push(0);
    w.push(0);
    w.push(0);
    w.push(0);
    put_u32(w, 0xFFFF_FFFF);
    let b = class.as_bytes();
    let ghost before = w@;
    let mut i: usize = 0;
    while i < b.len()
        invariant
            i <= b@.len(),
            w@ == before + b@.take(i as int),
        decreases b@.len() - i,
    {
        w.push(b[i]);
        assert(w@ =~= before + b@.take(i as int + 1));
        i += 1;
    }
    w.push(0);
    assert(b@.take(b@.len() as int) =~= b@);
    assert(w@ =~= old(w)@ + seq![0u8, 0u8, 0u8, 0u8] + u32_bytes(0xFFFF_FFFF) + encode_utf8(class@) + seq![0u8]);
    tok
}

/// End an object begun with [`begin_any`] at `tok`.
pub fn end_any(w: &mut Vec<u8>, tok: usize, Ghost(class): Ghost<Seq<u8>>, Ghost(body): Ghost<Seq<u8>>)
    requires
        tok <= old(w)@.len(),
        old(w)@ == old(w)@.subrange(0, tok as int) + seq![0u8, 0u8, 0u8, 0u8] + u32_bytes(0xFFFF_FFFF) + class + seq![0u8]
            + body,
    ensures
        final(w)@ == old(w)@.subrange(0, tok as int) + any_bytes(class, body),
{
    let ghost pre = old(w)@.subrange(0, tok as int);
    end_object(w, tok);
    proof {
        let s = old(w)@;
        assert(s.subrange(0, tok as int) =~= pre);
        assert(s.subrange(tok + 4, s.len() as int) =~= u32_bytes(0xFFFF_FFFF) + class + seq![0u8] + body);
        assert(s.len() - tok - 4 == 4 + class.len() + 1 + body.len());
        assert(w@ =~= pre + any_bytes(class, body));
    }
}


/// Recorded object references, by the name of the leaf or branch they point
/// at, in the order recorded.
pub type RefSeq = Seq<(Seq<char>, u32)>;

/// The reference first recorded for `name` (0, a null reference, when none
/// is).
pub open spec fn ref_of(m: RefSeq, name: Seq<char>) -> u32
    decreases m.len(),
{
    if m.len() == 0 {
        0
    } else if m[0].0 == name {
        m[0].1
    } else {
        ref_of(m.drop_first(), name)
    }
}

/// `m` with `v` recorded for `name`, unless a reference is recorded for it
/// already (the first one stays).
pub open spec fn with_ref(m: RefSeq, name: Seq<char>, v: u32) -> RefSeq {
    if exists|i: int| 0 <= i < m.len() && m[i].0 == name {
        m
    } else {
        m.push((name, v))
    }
}

/// The object references of the leaves and branches written so far.
pub struct Refs {
    entries: Vec<(String, u32)>,
}

impl View for Refs {
    type V = RefSeq;

    closed spec fn view(&self) -> RefSeq {
        self.entries@.map_values(|e: (String, u32)| (e.0@, e.1))
    }
}

impl Refs {
    /// No references.
    pub fn new() -> (r: Refs)
        ensures
            r@ == Seq::<(Seq<char>, u32)>::empty(),
    {
        let r = Refs { entries: Vec::new() };
        assert(r@ =~= Seq::<(Seq<char>, u32)>::empty());
        r
    }

    /// The reference recorded for `name` (0 when none is).
    pub fn get(&self, name: &str) -> (r: u32)
        ensures
            r == ref_of(self@, name@),
    {
        let ghost m = self@;
        let mut i: usize = 0;
        assert(m.skip(0) =~= m);
        while i < self.entries.len()
            invariant
                i <= self.entries@.len(),
                m == self@,
                ref_of(m, name@) == ref_of(m.skip(i as int), name@),
            decreases self.entries@.len() - i,
        {
            proof {
                assert(m.skip(i as int).drop_first() =~= m.skip(i as int + 1));
                assert(m.skip(i as int)[0] == (self.entries@[i as int].0@, self.entries@[i as int].1));
            }
            if str_eq(self.entries[i].0.as_str(), name) {
                return self.entries[i].1;
            }
            i += 1;
        }
        assert(m.skip(m.len() as int) =~= Seq::<(Seq<char>, u32)>::empty());
        0
    }

    /// Record `v` for `name`, unless a reference is recorded for it already.
    pub fn remember(&mut self, name: String, v: u32)
        ensures
            final(self)@ == with_ref(old(self)@, name@, v),
    {
        let ghost m = self@;
        let mut i: usize = 0;
        while i < self.entries.len()
            invariant
                i <= self.entries@.len(),
                m == self@,
                forall|j: int| 0 <= j < i ==> m[j].0 != name@,
            decreases self.entries@.len() - i,
        {
            if str_eq(self.entries[i].0.as_str(), name.as_str()) {
                assert(m[i as int].0 == name@);
                return;
            }
            i += 1;
        }
        let ghost n = name@;
        self.entries.push((name, v));
        assert(self@ =~= m.push((n, v)));
    }
}

/// The reference a record whose byte count is at `pos` in an object, whose
/// key is `keylen` bytes long, is known by: `pos + keylen + kMapOffset`,
/// modulo 2^32.
pub open spec fn ref_value(pos: int, keylen: u32) -> u32 {
    (((pos as u32) as int + keylen as int + K_MAP_OFFSET as int) % 0x1_0000_0000) as u32
}

/// The reference of a record at `pos`.
pub fn ref_at(pos: usize, keylen: u32) -> (r: u32)
    ensures
        r == ref_value(pos as int, keylen),
{
    (pos as u32).wrapping_add(keylen).wrapping_add(K_MAP_OFFSET)
}

/// The character of decimal digit `d`.
pub open spec fn digit_char(d: int) -> char {
    (48 + d) as char
}

/// The decimal digits of `n`.
pub open spec fn digits(n: nat) -> Seq<char>
    decreases n,
{
    if n < 10 {
        seq![digit_char(n as int)]
    } else {
        digits(n / 10) + seq![digit_char((n % 10) as int)]
    }
}

/// The one-character text of digit `d`.
fn digit_str(d: usize) -> (r: &'static str)
    requires
        d < 10,
    ensures
        r@ == seq![digit_char(d as int)],
{
    proof {
        reveal_strlit("0");
        reveal_strlit("1");
        reveal_strlit("2");
        reveal_strlit("3");
        reveal_strlit("4");
        reveal_strlit("5");
        reveal_strlit("6");
        reveal_strlit("7");
        reveal_strlit("8");
        reveal_strlit("9");
    }
    match d {
        0 => "0",
        1 => "1",
        2 => "2",
        3 => "3",
        4 => "4",
        5 => "5",
        6 => "6",
        7 => "7",
        8 => "8",
        _ => "9",
    }
}

/// `n` in decimal.
pub fn decimal(n: usize) -> (r: String)
    ensures
        r@ == digits(n as nat),
    decreases n,
{
    if n < 10 {
        String::from_str(digit_str(n))
    } else {
        let head = decimal(n / 10);
        concat_str(head.as_str(), digit_str(n % 10))
    }
}

/// Whether `c` is a leaflist type code.
pub open spec fn is_code(c: char) -> bool {
    c == 'O' || c == 'B' || c == 'b' || c == 'S' || c == 's' || c == 'I' || c == 'i' || c == 'L' || c == 'l'
        || c == 'F' || c == 'D' || c == 'C'
}

/// The one-character text of a type code.
fn code_str(c: char) -> (r: &'static str)
    requires
        is_code(c),
    ensures
        r@ == seq![c],
{
    proof {
        reveal_strlit("O");
        reveal_strlit("B");
        reveal_strlit("b");
        reveal_strlit("S");
        reveal_strlit("s");
        reveal_strlit("I");
        reveal_strlit("i");
        reveal_strlit("L");
        reveal_strlit("l");
        reveal_strlit("F");
        reveal_strlit("D");
        reveal_strlit("C");
    }
    match c {
        'O' => "O",
        'B' => "B",
        'b' => "b",
        'S' => "S",
        's' => "s",
        'I' => "I",
        'i' => "i",
        'L' => "L",
        'l' => "l",
        'F' => "F",
        'D' => "D",
        _ => "C",
    }
}

/// A leaf's `fMinimum` (0) and `fMaximum` (`max`), in the element width.
pub open spec fn minmax_bytes(size: i32, max: i64) -> Seq<u8> {
    if size == 1 {
        seq![0u8, max as u8]
    } else if size == 2 {
        i16_bytes(0) + i16_bytes(max as i16)
    } else if size == 8 {
        i64_bytes(0) + i64_bytes(max)
    } else {
        i32_bytes(0) + i32_bytes(max as i32)
    }
}

/// Write a leaf's `fMinimum` and `fMaximum`.
fn write_minmax(w: &mut Vec<u8>, size: i32, max: i64)
    ensures
        final(w)@ == old(w)@ + minmax_bytes(size, max),
{
    if size == 1 {
        w.push(0);
        w.push(max as u8);
        assert(w@ =~= old(w)@ + seq![0u8, max as u8]);
    } else if size == 2 {
        put_i16(w, 0);
        put_i16(w, max as i16);
    } else if size == 8 {
        put_i64(w, 0);
        put_i64(w, max);
    } else {
        put_i32(w, 0);
        put_i32(w, max as i32);
    }
}

/// The title a branch's leaf carries: `name[N]` for a fixed array,
/// `name[count]` for a jagged array, else the name.
pub open spec fn leaf_title(b: Branch) -> Seq<char> {
    match b.spec_kind() {
        Kind::FixedArray(n) => b.name_of() + "["@ + digits(n as nat) + "]"@,
        Kind::Jagged => b.name_of() + "["@ + ("n"@ + b.name_of()) + "]"@,
        _ => b.name_of(),
    }
}

/// The class a branch's leaf is written as.
pub open spec fn leaf_class(b: Branch) -> Seq<char> {
    if b.kind_of() is StlVector {
        "TLeafElement"@
    } else {
        base_leaf(b.values_of()).0
    }
}

/// The `TLeaf` base of a leaf: the name and title, `fLen`, `fLenType`,
/// `fOffset` 0, `fIsRange`, `fIsUnsigned` and the `fLeafCount` reference.
pub open spec fn tleaf_bytes(
    name: Seq<char>,
    title: Seq<char>,
    len: i32,
    len_type: i32,
    range: bool,
    unsigned: bool,
    count: u32,
) -> Seq<u8> {
    counted(
        2,
        tnamed_bytes(OBJ_BITS, name, title) + i32_bytes(len) + i32_bytes(len_type) + i32_bytes(0) + seq![
            if range {
                1u8
            } else {
                0u8
            },
            if unsigned {
                1u8
            } else {
                0u8
            },
        ] + u32_bytes(count),
    )
}

/// The fields a branch's `TLeaf*` carries: `fLen` (the element count, a
/// string's longest length + 1), `fLenType` (the element width, 1 for a
/// string), `fIsRange` (set for a count leaf), `fIsUnsigned`, the
/// `fLeafCount` reference (to the count leaf of a jagged array), and the
/// width and value of `fMaximum` (the largest count of a count leaf or a
/// string's longest length + 1, else 0).
pub struct LeafFields {
    pub len: i32,
    pub len_type: i32,
    pub range: bool,
    pub unsigned: bool,
    pub count: u32,
    pub size: i32,
    pub max: i64,
}

/// The fields of a branch's `TLeaf*` (see [`LeafFields`]).
pub open spec fn leaf_fields(b: Branch, refs: RefSeq) -> LeafFields {
    let (class, code, size, unsigned) = base_leaf(b.values_of());
    let is_str = code == 'C';
    let is_count = b.kind_of() is Count;
    LeafFields {
        len: if is_str {
            spec_str_len(b.values_of())
        } else {
            b.spec_flen()
        },
        len_type: if is_str {
            1
        } else {
            size as i32
        },
        range: is_count,
        unsigned,
        count: if b.spec_kind() is Jagged {
            ref_of(refs, "n"@ + b.name_of())
        } else {
            0
        },
        size: if is_str {
            4
        } else {
            size as i32
        },
        max: if is_count || is_str {
            spec_leaf_max(b.values_of())
        } else {
            0
        },
    }
}

/// A branch's leaf as written: a `std::vector` branch's `TLeafElement`
/// (`fID` and `fType` -1); else the `TLeaf*` with the fields
/// [`leaf_fields`] gives, then `fMinimum` and `fMaximum`.
pub open spec fn leaf_bytes(b: Branch, refs: RefSeq) -> Seq<u8> {
    let name = b.name_of();
    if b.kind_of() is StlVector {
        counted(1, tleaf_bytes(name, name, 1, 0, false, false, 0) + i32_bytes(-1i32) + i32_bytes(-1i32))
    } else {
        let f = leaf_fields(b, refs);
        counted(
            1,
            tleaf_bytes(name, leaf_title(b), f.len, f.len_type, f.range, f.unsigned, f.count) + minmax_bytes(
                f.size,
                f.max,
            ),
        )
    }
}

/// The title of a branch's leaf.
fn leaf_title_of(b: &Branch) -> (r: String)
    ensures
        r@ == leaf_title(*b),
{
    let name = b.name.as_str();
    match b.kind() {
        Kind::FixedArray(n) => {
            let t = concat_str(name, "[");
            let d = decimal(n);
            let t = concat_str(t.as_str(), d.as_str());
            concat_str(t.as_str(), "]")
        },
        Kind::Jagged => {
            let c = b.count_name();
            let t = concat_str(name, "[");
            let t = concat_str(t.as_str(), c.as_str());
            concat_str(t.as_str(), "]")
        },
        _ => String::from_str(name),
    }
}

/// The fields of a branch's `TLeaf*`.
fn leaf_fields_of(b: &Branch, refs: &Refs) -> (r: LeafFields)
    requires
        strings_fit(b.values_of()),
    ensures
        r == leaf_fields(*b, refs@),
{
    let leaf = b.leaf();
    let is_str = leaf.code == 'C';
    let is_count = match b.kind {
        BranchKind::Count => true,
        _ => false,
    };
    let count: u32 = match b.kind() {
        Kind::Jagged => refs.get(b.count_name().as_str()),
        _ => 0,
    };
    LeafFields {
        len: if is_str { b.str_len() } else { b.flen() },
        len_type: if is_str { 1 } else { leaf.size },
        range: is_count,
        unsigned: leaf.unsigned,
        count,
        size: if is_str { 4 } else { leaf.size },
        max: if is_count || is_str { b.leaf_max() } else { 0 },
    }
}

/// Write the `TLeaf` base of a leaf.
pub(crate) fn write_tleaf(w: &mut Vec<u8>, name: &str, title: &str, len: i32, len_type: i32, range: bool, unsigned: bool, count: u32)
    ensures
        final(w)@ == old(w)@ + tleaf_bytes(name@, title@, len, len_type, range, unsigned, count),
{
    let tok = begin_object(w, 2);
    write_tnamed(w, OBJ_BITS, name, title);
    put_i32(w, len);
    put_i32(w, len_type);
    put_i32(w, 0);
    w.push(if range { 1 } else { 0 });
    w.push(if unsigned { 1 } else { 0 });
    put_u32(w, count);
    proof {
        let body = tnamed_bytes(OBJ_BITS, name@, title@) + i32_bytes(len) + i32_bytes(len_type) + i32_bytes(0) + seq![
            if range {
                1u8
            } else {
                0u8
            },
            if unsigned {
                1u8
            } else {
                0u8
            },
        ] + u32_bytes(count);
        lemma_counted(old(w)@, 2, body);
        assert(w@ =~= old(w)@ + seq![0u8, 0u8, 0u8, 0u8] + u16_bytes(2) + body);
    }
    end_object(w, tok);
}

/// Write a branch's leaf (see [`leaf_bytes`]).
pub fn write_leaf(w: &mut Vec<u8>, b: &Branch, refs: &Refs)
    requires
        strings_fit(b.values_of()),
    ensures
        final(w)@ == old(w)@ + leaf_bytes(*b, refs@),
{
    let name = b.name.as_str();
    if b.stl_vector() {
        let tok = begin_object(w, 1);
        write_tleaf(w, name, name, 1, 0, false, false, 0);
        put_i32(w, -1);
        put_i32(w, -1);
        proof {
            let body = tleaf_bytes(name@, name@, 1, 0, false, false, 0) + i32_bytes(-1i32) + i32_bytes(-1i32);
            lemma_counted(old(w)@, 1, body);
            assert(w@ =~= old(w)@ + seq![0u8, 0u8, 0u8, 0u8] + u16_bytes(1) + body);
        }
        end_object(w, tok);
        return;
    }
    let title = leaf_title_of(b);
    let f = leaf_fields_of(b, refs);
    let tok = begin_object(w, 1);
    write_tleaf(w, name, title.as_str(), f.len, f.len_type, f.range, f.unsigned, f.count);
    write_minmax(w, f.size, f.max);
    proof {
        let body = tleaf_bytes(name@, title@, f.len, f.len_type, f.range, f.unsigned, f.count) + minmax_bytes(f.size, f.max);
        lemma_counted(old(w)@, 1, body);
        assert(w@ =~= old(w)@ + seq![0u8, 0u8, 0u8, 0u8] + u16_bytes(1) + body);
    }
    end_object(w, tok);
}


/// The words `f(0)`, …, `f(n - 1)`, one after another.
pub open spec fn words(n: nat, f: spec_fn(int) -> Seq<u8>) -> Seq<u8>
    decreases n,
{
    if n == 0 {
        Seq::empty()
    } else {
        words((n - 1) as nat, f) + f(n - 1)
    }
}

/// The entries before basket `i` of `group`, as ROOT's cumulative
/// `fBasketEntry` holds them (modulo 2^64).
pub open spec fn cumulative(group: Seq<BasketRec>, i: int) -> i64
    decreases i,
{
    if i <= 0 {
        0
    } else {
        cumulative(group, i - 1).wrapping_add(group[i - 1].n_entries as i64)
    }
}

/// The `fBasketBytes`, `fBasketEntry` and `fBasketSeek` arrays of a branch
/// whose baskets are `group`, each of `max` slots behind a marker byte: the
/// basket sizes, the cumulative entry starts (with the total after the last
/// basket) and the seek positions, the unused slots 0.
pub open spec fn basket_arrays_bytes(group: Seq<BasketRec>, max: i32) -> Seq<u8> {
    let cap = (max as usize) as nat;
    seq![1u8] + words(cap, size_word(group)) + seq![1u8] + words(cap, entry_word(group)) + seq![1u8] + words(
        cap,
        seek_word(group),
    )
}

/// Slot `k` of `fBasketBytes`.
pub open spec fn size_word(group: Seq<BasketRec>) -> spec_fn(int) -> Seq<u8> {
    |k: int|
        i32_bytes(
            if 0 <= k < group.len() {
                group[k].nbytes as i32
            } else {
                0i32
            },
        )
}

/// Slot `k` of `fBasketEntry`.
pub open spec fn entry_word(group: Seq<BasketRec>) -> spec_fn(int) -> Seq<u8> {
    |k: int|
        i64_bytes(
            if 0 <= k <= group.len() {
                cumulative(group, k)
            } else {
                0i64
            },
        )
}

/// Slot `k` of `fBasketSeek`.
pub open spec fn seek_word(group: Seq<BasketRec>) -> spec_fn(int) -> Seq<u8> {
    |k: int|
        i64_bytes(
            if 0 <= k < group.len() {
                group[k].seek as i64
            } else {
                0i64
            },
        )
}

/// Write a branch's basket arrays (see [`basket_arrays_bytes`]).
pub fn write_basket_arrays(w: &mut Vec<u8>, group: &[BasketRec], max: i32)
    ensures
        final(w)@ == old(w)@ + basket_arrays_bytes(group@, max),
{
    let cap = max as usize;
    let ghost g = group@;
    let mut cum: Vec<i64> = Vec::new();
    let mut acc: i64 = 0;
    cum.push(0);
    let mut i: usize = 0;
    while i < group.len()
        invariant
            i <= g.len(),
            g == group@,
            cum@.len() == i + 1,
            acc == cumulative(g, i as int),
            forall|j: int| 0 <= j <= i ==> #[trigger] cum@[j] == cumulative(g, j),
        decreases g.len() - i,
    {
        acc = acc.wrapping_add(group[i].n_entries as i64);
        cum.push(acc);
        i += 1;
    }
    let ghost f1 = size_word(g);
    let ghost f2 = entry_word(g);
    let ghost f3 = seek_word(g);
    w.push(1);
    let ghost b1 = w@;
    let mut k: usize = 0;
    while k < cap
        invariant
            k <= cap,
            w@ == b1 + words(k as nat, f1),
            f1 == size_word(g),
            g == group@,
        decreases cap - k,
    {
        let v: i32 = if k < group.len() { group[k].nbytes as i32 } else { 0 };
        assert(f1(k as int) == i32_bytes(v));
        put_i32(w, v);
        assert(words((k + 1) as nat, f1) == words(k as nat, f1) + f1(k as int));
        assert(w@ =~= b1 + words((k + 1) as nat, f1));
        k += 1;
    }
    w.push(1);
    let ghost b2 = w@;
    let mut k: usize = 0;
    while k < cap
        invariant
            k <= cap,
            w@ == b2 + words(k as nat, f2),
            f2 == entry_word(g),
            g == group@,
            cum@.len() == g.len() + 1,
            forall|j: int| 0 <= j <= g.len() ==> #[trigger] cum@[j] == cumulative(g, j),
        decreases cap - k,
    {
        let v: i64 = if k < cum.len() { cum[k] } else { 0 };
        assert(f2(k as int) == i64_bytes(v));
        put_i64(w, v);
        assert(words((k + 1) as nat, f2) == words(k as nat, f2) + f2(k as int));
        assert(w@ =~= b2 + words((k + 1) as nat, f2));
        k += 1;
    }
    w.push(1);
    let ghost b3 = w@;
    let mut k: usize = 0;
    while k < cap
        invariant
            k <= cap,
            w@ == b3 + words(k as nat, f3),
            f3 == seek_word(g),
            g == group@,
        decreases cap - k,
    {
        let v: i64 = if k < group.len() { group[k].seek as i64 } else { 0 };
        assert(f3(k as int) == i64_bytes(v));
        put_i64(w, v);
        assert(words((k + 1) as nat, f3) == words(k as nat, f3) + f3(k as int));
        assert(w@ =~= b3 + words((k + 1) as nat, f3));
        k += 1;
    }
    assert(w@ =~= old(w)@ + basket_arrays_bytes(group@, max));
}

/// The total size of the baskets (modulo 2^64).
pub open spec fn total_bytes(group: Seq<BasketRec>, i: int) -> i64
    decreases i,
{
    if i <= 0 {
        0
    } else {
        total_bytes(group, i - 1).wrapping_add(group[i - 1].nbytes as i64)
    }
}

/// The total size of the baskets.
fn sum_bytes(group: &[BasketRec]) -> (r: i64)
    ensures
        r == total_bytes(group@, group@.len() as int),
{
    let mut acc: i64 = 0;
    let mut i: usize = 0;
    while i < group.len()
        invariant
            i <= group@.len(),
            acc == total_bytes(group@, i as int),
        decreases group@.len() - i,
    {
        acc = acc.wrapping_add(group[i].nbytes as i64);
        i += 1;
    }
    acc
}

/// A branch's title, which tells its layout: `name/CODE` for a scalar,
/// `name[N]/CODE` for a fixed array, `name[count]/CODE` for a jagged array,
/// `name/C` for strings, and the bare name for a `std::vector`.
pub open spec fn branch_title(b: Branch) -> Seq<char> {
    let code = seq![base_leaf(b.values_of()).1];
    match b.spec_kind() {
        Kind::Scalar => b.name_of() + "/"@ + code,
        Kind::FixedArray(n) => b.name_of() + "["@ + digits(n as nat) + "]/"@ + code,
        Kind::Jagged => b.name_of() + "["@ + ("n"@ + b.name_of()) + "]/"@ + code,
        Kind::StlVector => b.name_of(),
        Kind::Str => b.name_of() + "/C"@,
    }
}

/// The title of a branch.
fn branch_title_of(b: &Branch) -> (r: String)
    ensures
        r@ == branch_title(*b),
{
    let name = b.name.as_str();
    let code = code_str(b.leaf().code);
    match b.kind() {
        Kind::Scalar => {
            let t = concat_str(name, "/");
            concat_str(t.as_str(), code)
        },
        Kind::FixedArray(n) => {
            let t = concat_str(name, "[");
            let d = decimal(n);
            let t = concat_str(t.as_str(), d.as_str());
            let t = concat_str(t.as_str(), "]/");
            concat_str(t.as_str(), code)
        },
        Kind::Jagged => {
            let c = b.count_name();
            let t = concat_str(name, "[");
            let t = concat_str(t.as_str(), c.as_str());
            let t = concat_str(t.as_str(), "]/");
            concat_str(t.as_str(), code)
        },
        Kind::StlVector => String::from_str(name),
        Kind::Str => concat_str(name, "/C"),
    }
}

/// The `fMaxBaskets` of a branch: its basket count, at least 10.
pub open spec fn max_baskets(group: Seq<BasketRec>) -> i32 {
    let n = group.len() as i32;
    if n > 10 {
        n
    } else {
        10
    }
}

/// A `TBranch`'s members before its `fLeaves`: the name and title, the
/// `TAttFill`, `fCompress` 0, `fBasketSize` 32000, `fEntryOffsetLen`,
/// `fWriteBasket`, `fEntryNumber`, `TIOFeatures`, `fOffset` 0,
/// `fMaxBaskets`, `fSplitLevel`, `fEntries`, `fFirstEntry` 0, `fTotBytes`
/// and `fZipBytes`, and an empty `fBranches`.
pub open spec fn head_bytes(
    name: Seq<char>,
    title: Seq<char>,
    eol: i32,
    n_baskets: i32,
    n_entries: i64,
    max: i32,
    split: i32,
    tot: i64,
) -> Seq<u8> {
    tnamed_bytes(OBJ_BITS, name, title) + attfill_bytes() + i32_bytes(0) + i32_bytes(32000) + i32_bytes(eol)
        + i32_bytes(n_baskets) + i64_bytes(n_entries) + iofeatures_bytes() + i32_bytes(0) + i32_bytes(max)
        + i32_bytes(split) + i64_bytes(n_entries) + i64_bytes(0) + i64_bytes(tot) + i64_bytes(tot) + obj_array(
        0,
        Seq::empty(),
    )
}

/// The `TBranch` members of branch `b` before its `fLeaves` (see
/// [`head_bytes`]): `fEntryOffsetLen` is 1000 for a variable layout, else
/// 0, and `fSplitLevel` 99 for a `std::vector`, else 0.
pub open spec fn branch_head(b: Branch, group: Seq<BasketRec>, n_entries: i64) -> Seq<u8> {
    let k = b.spec_kind();
    let eol: i32 = if k is Str || k is Jagged || k is StlVector {
        1000
    } else {
        0
    };
    let split: i32 = if k is StlVector {
        99
    } else {
        0
    };
    head_bytes(
        b.name_of(),
        branch_title(b),
        eol,
        group.len() as i32,
        n_entries,
        max_baskets(group),
        split,
        total_bytes(group, group.len() as int),
    )
}

/// A branch's `fLeaves`: a `TObjArray` holding its one leaf.
pub open spec fn leaf_array_bytes(b: Branch, refs: RefSeq) -> Seq<u8> {
    obj_array(1, any_bytes(encode_utf8(leaf_class(b)), leaf_bytes(b, refs)))
}

/// A `TBranch` (version 13) written at offset `base` of the tree object,
/// whose key is `keylen` bytes long, with references `refs` recorded so
/// far: the record, and the references with this branch's leaf (first
/// written here) recorded under the branch name.
#[verifier::opaque]
pub open spec fn branch_bytes(
    b: Branch,
    group: Seq<BasketRec>,
    n_entries: i64,
    keylen: u32,
    refs: RefSeq,
    base: int,
) -> (Seq<u8>, RefSeq) {
    let head = branch_head(b, group, n_entries);
    let body = head + leaf_array_bytes(b, refs) + obj_array(0, Seq::empty()) + basket_arrays_bytes(
        group,
        max_baskets(group),
    ) + tstring_bytes(Seq::empty());
    (counted(13, body), with_ref(refs, b.name_of(), ref_value(base + 6 + head.len() + 25, keylen)))
}

/// Write a branch's `fLeaves`, recording its leaf's reference.
fn write_leaf_array(w: &mut Vec<u8>, b: &Branch, keylen: u32, refs: &mut Refs)
    requires
        strings_fit(b.values_of()),
    ensures
        final(w)@ == old(w)@ + leaf_array_bytes(*b, old(refs)@),
        final(refs)@ == with_ref(old(refs)@, b.name_of(), ref_value((old(w)@.len() + 25) as int, keylen)),
{
    let tok = begin_array(w, 1);
    let pos = w.len();
    let leaf = b.leaf();
    let t = begin_any(w, leaf.class);
    let ghost before_leaf = w@;
    write_leaf(w, b, refs);
    let ghost lb = leaf_bytes(*b, old(refs)@);
    proof {
        assert(w@.subrange(0, t as int) =~= old(w)@ + seq![0u8, 0u8, 0u8, 0u8] + u16_bytes(3) + array_head_bytes(1));
        assert(w@ =~= w@.subrange(0, t as int) + seq![0u8, 0u8, 0u8, 0u8] + u32_bytes(0xFFFF_FFFF) + encode_utf8(leaf.class@)
            + seq![0u8] + lb);
    }
    end_any(w, t, Ghost(encode_utf8(leaf.class@)), Ghost(lb));
    let ghost item = any_bytes(encode_utf8(leaf_class(*b)), lb);
    proof {
        assert(w@.subrange(0, tok as int) =~= old(w)@);
        assert(w@ =~= w@.subrange(0, tok as int) + seq![0u8, 0u8, 0u8, 0u8] + u16_bytes(3) + array_head_bytes(1) + item);
    }
    end_array(w, tok, Ghost(1), Ghost(item));
    refs.remember(b.name.clone(), ref_at(pos, keylen));
    assert(pos == old(w)@.len() + 25);
}

/// Write the members of [`head_bytes`].
#[verifier::rlimit(40)]
pub(crate) fn write_head_fields(
    w: &mut Vec<u8>,
    name: &str,
    title: &str,
    eol: i32,
    n_baskets: i32,
    n_entries: i64,
    max: i32,
    split: i32,
    tot: i64,
)
    ensures
        final(w)@ == old(w)@ + head_bytes(name@, title@, eol, n_baskets, n_entries, max, split, tot),
{
    write_tnamed(w, OBJ_BITS, name, title);
    write_attfill(w);
    put_i32(w, 0);
    put_i32(w, 32000);
    put_i32(w, eol);
    put_i32(w, n_baskets);
    put_i64(w, n_entries);
    let ghost mid = w@;
    assert(mid =~= old(w)@ + (tnamed_bytes(OBJ_BITS, name@, title@) + attfill_bytes() + i32_bytes(0) + i32_bytes(
        32000,
    ) + i32_bytes(eol) + i32_bytes(n_baskets) + i64_bytes(n_entries)));
    write_iofeatures(w);
    put_i32(w, 0);
    put_i32(w, max);
    put_i32(w, split);
    put_i64(w, n_entries);
    put_i64(w, 0);
    put_i64(w, tot);
    put_i64(w, tot);
    write_empty_array(w);
    assert(w@ =~= mid + (iofeatures_bytes() + i32_bytes(0) + i32_bytes(max) + i32_bytes(split) + i64_bytes(n_entries)
        + i64_bytes(0) + i64_bytes(tot) + i64_bytes(tot) + obj_array(0, Seq::empty())));
    assert(w@ =~= old(w)@ + head_bytes(name@, title@, eol, n_baskets, n_entries, max, split, tot));
}

/// Write a `TBranch`'s members before its `fLeaves` (see [`branch_head`]).
fn write_branch_head(w: &mut Vec<u8>, b: &Branch, group: &[BasketRec], n_entries: i64)
    ensures
        final(w)@ == old(w)@ + branch_head(*b, group@, n_entries),
{
    let k = b.kind();
    let eol: i32 = match k {
        Kind::Str | Kind::Jagged | Kind::StlVector => 1000,
        _ => 0,
    };
    let split: i32 = match k {
        Kind::StlVector => 99,
        _ => 0,
    };
    let n = group.len() as i32;
    let maxb: i32 = if n > 10 {
        n
    } else {
        10
    };
    let tot = sum_bytes(group);
    let title = branch_title_of(b);
    write_head_fields(w, b.name.as_str(), title.as_str(), eol, n, n_entries, maxb, split, tot);
}

/// Write one `TBranch` at the end of the tree object (see
/// [`branch_bytes`]).
#[verifier::spinoff_prover]
#[verifier::rlimit(40)]
pub fn write_branch(w: &mut Vec<u8>, b: &Branch, group: &[BasketRec], n_entries: i64, keylen: u32, refs: &mut Refs)
    requires
        strings_fit(b.values_of()),
    ensures
        final(w)@ == old(w)@ + branch_bytes(*b, group@, n_entries, keylen, old(refs)@, old(w)@.len() as int).0,
        final(refs)@ == branch_bytes(*b, group@, n_entries, keylen, old(refs)@, old(w)@.len() as int).1,
{
    reveal(branch_bytes);
    let n = group.len() as i32;
    let maxb: i32 = if n > 10 {
        n
    } else {
        10
    };
    let tok = begin_object(w, 13);
    let ghost w1 = w@;
    write_branch_head(w, b, group, n_entries);
    let ghost head = branch_head(*b, group@, n_entries);
    let ghost w2 = w@;
    let ghost refs0 = refs@;
    write_leaf_array(w, b, keylen, refs);
    let ghost w3 = w@;
    write_empty_array(w);
    write_basket_arrays(w, group, maxb);
    let empty = String::new();
    put_tstring(w, empty.as_str());
    proof {
        let body = head + leaf_array_bytes(*b, refs0) + obj_array(0, Seq::empty()) + basket_arrays_bytes(
            group@,
            max_baskets(group@),
        ) + tstring_bytes(Seq::empty());
        assert(w1 =~= old(w)@ + seq![0u8, 0u8, 0u8, 0u8] + u16_bytes(13));
        assert(w2.len() == old(w)@.len() + 6 + head.len());
        lemma_counted(old(w)@, 13, body);
        assert(w@ =~= old(w)@ + seq![0u8, 0u8, 0u8, 0u8] + u16_bytes(13) + body);
    }
    end_object(w, tok);
}
/// The `TBranchElement` members that follow its `TBranch` base: the class,
/// parent and clones names, the checksum, the class version, `fID`, `fType`,
/// `fStreamerType`, `fMaximum`, `fBranchCount` and `fBranchCount2`.
pub open spec fn element_tail(
    class: Seq<char>,
    parent: Seq<char>,
    clones: Seq<char>,
    checksum: u32,
    version: u16,
    id: i32,
    kind: i32,
    streamer_type: i32,
    maximum: i32,
    count_ref: u32,
) -> Seq<u8> {
    tstring_bytes(class) + tstring_bytes(parent) + tstring_bytes(clones) + u32_bytes(checksum) + u16_bytes(version)
        + i32_bytes(id) + i32_bytes(kind) + i32_bytes(streamer_type) + i32_bytes(maximum) + u32_bytes(count_ref)
        + u32_bytes(0)
}

/// Write the members of [`element_tail`].
pub(crate) fn write_element_tail(
    w: &mut Vec<u8>,
    class: &str,
    parent: &str,
    clones: &str,
    checksum: u32,
    version: u16,
    id: i32,
    kind: i32,
    streamer_type: i32,
    maximum: i32,
    count_ref: u32,
)
    ensures
        final(w)@ == old(w)@ + element_tail(
            class@,
            parent@,
            clones@,
            checksum,
            version,
            id,
            kind,
            streamer_type,
            maximum,
            count_ref,
        ),
{
    put_tstring(w, class);
    put_tstring(w, parent);
    put_tstring(w, clones);
    put_u32(w, checksum);
    put_u16(w, version);
    let ghost mid = w@;
    assert(mid =~= old(w)@ + (tstring_bytes(class@) + tstring_bytes(parent@) + tstring_bytes(clones@) + u32_bytes(
        checksum,
    ) + u16_bytes(version)));
    put_i32(w, id);
    put_i32(w, kind);
    put_i32(w, streamer_type);
    put_i32(w, maximum);
    put_u32(w, count_ref);
    put_u32(w, 0);
    assert(w@ =~= mid + (i32_bytes(id) + i32_bytes(kind) + i32_bytes(streamer_type) + i32_bytes(maximum) + u32_bytes(
        count_ref,
    ) + u32_bytes(0)));
    assert(w@ =~= old(w)@ + element_tail(
        class@,
        parent@,
        clones@,
        checksum,
        version,
        id,
        kind,
        streamer_type,
        maximum,
        count_ref,
    ));
}

/// A `TBranchElement` (version 10) for a `std::vector<T>` branch written at
/// offset `base`: its `TBranch` base, then the vector's class name and
/// checksum, class version 6, `fID` -1, `fType` 0, `fStreamerType` -1 and
/// null branch counts; with the references the base records.
#[verifier::opaque]
pub open spec fn branch_element_bytes(
    b: Branch,
    group: Seq<BasketRec>,
    n_entries: i64,
    keylen: u32,
    refs: RefSeq,
    base: int,
) -> (Seq<u8>, RefSeq) {
    let (inner, m) = branch_bytes(b, group, n_entries, keylen, refs, base + 6);
    let (class, checksum) = stl_info_of(b.values_of());
    (
        counted(
            10,
            inner + element_tail(class@, Seq::empty(), Seq::empty(), checksum, 6u16, -1i32, 0i32, -1i32, 0i32, 0u32),
        ),
        m,
    )
}

/// Write a `std::vector<T>` branch as a `TBranchElement` (see
/// [`branch_element_bytes`]).
pub fn write_branch_element(
    w: &mut Vec<u8>,
    b: &Branch,
    group: &[BasketRec],
    n_entries: i64,
    keylen: u32,
    refs: &mut Refs,
)
    requires
        strings_fit(b.values_of()),
    ensures
        final(w)@ == old(w)@ + branch_element_bytes(*b, group@, n_entries, keylen, old(refs)@, old(w)@.len() as int).0,
        final(refs)@ == branch_element_bytes(*b, group@, n_entries, keylen, old(refs)@, old(w)@.len() as int).1,
{
    reveal(branch_element_bytes);
    let tok = begin_object(w, 10);
    let ghost w1 = w@;
    write_branch(w, b, group, n_entries, keylen, refs);
    let ghost w2 = w@;
    let (class, checksum) = b.stl_info();
    let empty = String::new();
    write_element_tail(w, class, empty.as_str(), empty.as_str(), checksum, 6, -1, 0, -1, 0, 0);
    proof {
        let inner = branch_bytes(*b, group@, n_entries, keylen, old(refs)@, (old(w)@.len() + 6) as int).0;
        let body = inner + element_tail(class@, Seq::empty(), Seq::empty(), checksum, 6u16, -1i32, 0i32, -1i32, 0i32, 0u32);
        assert(w1 =~= old(w)@ + seq![0u8, 0u8, 0u8, 0u8] + u16_bytes(10));
        lemma_counted(old(w)@, 10, body);
        assert(w@ =~= old(w)@ + seq![0u8, 0u8, 0u8, 0u8] + u16_bytes(10) + body);
    }
    end_object(w, tok);
}

/// A `TLeafElement` (version 1): a `TLeaf` base with `fLen` 1, the given
/// `fLenType`, `fOffset` 0, neither range nor unsigned and `fLeafCount`
/// written as given, then `fID` and `fType`.
pub open spec fn leaf_element_bytes(
    name: Seq<char>,
    title: Seq<char>,
    len_type: i32,
    id: i32,
    kind: i32,
    leaf_count: u32,
) -> Seq<u8> {
    counted(1, tleaf_bytes(name, title, 1, len_type, false, false, leaf_count) + i32_bytes(id) + i32_bytes(kind))
}

/// Write a `TLeafElement` (see [`leaf_element_bytes`]).
pub fn write_leaf_element(
    w: &mut Vec<u8>,
    name: &str,
    title: &str,
    len_type: i32,
    id: i32,
    kind: i32,
    leaf_count: u32,
)
    ensures
        final(w)@ == old(w)@ + leaf_element_bytes(name@, title@, len_type, id, kind, leaf_count),
{
    let tok = begin_object(w, 1);
    let ghost w1 = w@;
    write_tleaf(w, name, title, 1, len_type, false, false, leaf_count);
    put_i32(w, id);
    put_i32(w, kind);
    proof {
        let body = tleaf_bytes(name@, title@, 1, len_type, false, false, leaf_count) + i32_bytes(id) + i32_bytes(
            kind,
        );
        assert(w1 =~= old(w)@ + seq![0u8, 0u8, 0u8, 0u8] + u16_bytes(1));
        lemma_counted(old(w)@, 1, body);
        assert(w@ =~= old(w)@ + seq![0u8, 0u8, 0u8, 0u8] + u16_bytes(1) + body);
    }
    end_object(w, tok);
}
} // verus!
