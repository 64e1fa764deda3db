//! Writing branch data into `TBasket` records.
//!
//! A basket record is a big-format `TKey` header with the `TBasket` fields
//! appended, then the payload: the entry data and, for a variable-length
//! branch, the `fEntryOffset` array (`n_entries + 1` basket-relative
//! offsets). Compressing the payload is left to the caller: [`basket_buffer`]
//! gives the uncompressed payload and [`basket_record`] frames any payload.

use vstd::prelude::*;
use vstd::utf8::encode_utf8;
use super::branch::{Branch, BranchKind};
use super::content::{content_data, content_offsets, entry_ends, lemma_u8_row_bytes, stl_fn, tstring_bytes, tstring_fn};
use super::layout::Kind;
use crate::codec::{concat_map, i32_bytes, lemma_concat_map_prefix, lemma_concat_map_push, put_u16, put_u32, put_u64, u16_bytes, u32_bytes, u64_bytes};
use crate::column::{row_fn, write_elems};
use crate::value::Column;

verus! {

/// One basket's recorded location, for the branch metadata.
#[derive(Debug, Clone, Copy, PartialEq, Eq, Structural)]
pub struct BasketRec {
    /// Where the record starts in the file.
    pub seek: u64,
    /// The record's size on disk.
    pub nbytes: u32,
    /// Number of entries the basket holds (for the cumulative `fBasketEntry`).
    pub n_entries: u32,
}

/// How one entry offset is stored: made basket-relative by adding the key
/// length.
pub open spec fn offset_word_fn(klen: u32) -> spec_fn(u32) -> Seq<u8> {
    |o: u32| i32_bytes((o + klen) as u32 as i32)
}

/// The `fEntryOffset` array after the entry data: its length, then each
/// data-relative offset plus the key length.
pub open spec fn offsets_bytes(o: Seq<u32>, klen: u32) -> Seq<u8> {
    i32_bytes(o.len() as i32) + concat_map(o, offset_word_fn(klen))
}

/// A branch's uncompressed basket buffer: the entry data, then the offsets
/// array of a variable-length branch.
pub open spec fn buffer_of(values: Column, kind: &BranchKind, klen: u32) -> Seq<u8> {
    content_data(values, kind) + match content_offsets(values, kind) {
        Some(o) => offsets_bytes(o, klen),
        None => Seq::empty(),
    }
}

/// The class name `TBasket` as a `TString`.
pub open spec fn basket_class_bytes() -> Seq<u8> {
    seq![7u8, 84u8, 66u8, 97u8, 115u8, 107u8, 101u8, 116u8]
}

/// The key length of a basket record: the big key's 34 fixed bytes, its
/// class, name and title strings, and the 19 bytes of `TBasket` fields.
pub open spec fn basket_key_len(name: Seq<char>, tree: Seq<char>) -> int {
    (34 + basket_class_bytes().len() + tstring_bytes(name).len() + tstring_bytes(tree).len() + 19) as int
}

/// `fNevBufSize`: ROOT's default 1000 for a string, jagged or `std::vector`
/// basket, else the bytes of one entry.
pub open spec fn nev_buf_size(kind: Kind, flen: i32, size: i32) -> i32 {
    match kind {
        Kind::Str | Kind::Jagged | Kind::StlVector => 1000,
        _ => (flen * size) as i32,
    }
}

/// The bytes of a basket record.
pub open spec fn record_bytes(
    klen: u32,
    obj_len: u32,
    datime: u32,
    seek: u64,
    seek_pdir: u64,
    name: Seq<char>,
    tree: Seq<char>,
    nev: i32,
    n_entries: u32,
    f_last: u32,
    payload: Seq<u8>,
) -> Seq<u8> {
    i32_bytes((klen + payload.len()) as u32 as i32) + u16_bytes(1004u16) + u32_bytes(obj_len)
        + u32_bytes(datime) + u16_bytes(klen as u16) + u16_bytes(0u16) + u64_bytes(seek) + u64_bytes(
        seek_pdir,
    ) + basket_class_bytes() + tstring_bytes(name) + tstring_bytes(tree) + u16_bytes(3u16)
        + i32_bytes(32000i32) + i32_bytes(nev) + i32_bytes(n_entries as i32) + i32_bytes(
        f_last as i32,
    ) + seq![0u8] + payload
}

/// The bytes `s` is stored as in a `TString`.
fn tstring_len(s: &str) -> (r: u64)
    requires
        encode_utf8(s@).len() <= u32::MAX,
    ensures
        r == tstring_bytes(s@).len(),
{
    let n = s.as_bytes().len() as u64;
    if n < 255 {
        n + 1
    } else {
        n + 5
    }
}

/// Append `s` as a `TString`.
pub fn put_tstring(out: &mut Vec<u8>, s: &str)
    ensures
        final(out)@ == old(out)@ + tstring_bytes(s@),
{
    let b = s.as_bytes();
    if b.len() < 255 {
        out.push(b.len() as u8);
    } else {
        out.push(255u8);
        put_u32(out, b.len() as u32);
    }
    write_elems(out, b);
    proof {
        lemma_u8_row_bytes(b@);
        assert(final(out)@ =~= old(out)@ + tstring_bytes(s@));
    }
}

proof fn lemma_ends_within<T>(x: Seq<T>, f: spec_fn(T) -> Seq<u8>)
    requires
        concat_map(x, f).len() <= u32::MAX,
    ensures
        forall|i: int|
            0 <= i < entry_ends(x, f).len() ==> #[trigger] entry_ends(x, f)[i] <= concat_map(x, f).len(),
        entry_ends(x, f).len() == x.len() + 1,
{
    assert forall|i: int| 0 <= i < entry_ends(x, f).len() implies #[trigger] entry_ends(x, f)[i]
        <= concat_map(x, f).len() by {
        lemma_concat_map_prefix(x, i, f);
    }
}

/// Every entry offset of a branch's basket lies within its entry data.
pub proof fn lemma_offsets_within(values: Column, kind: &BranchKind)
    requires
        content_data(values, kind).len() <= u32::MAX,
    ensures
        content_offsets(values, kind) matches Some(o) ==> (forall|i: int|
            0 <= i < o.len() ==> #[trigger] o[i] <= content_data(values, kind).len()),
{
    if kind is StlVector {
        match values {
            Column::VecI8(r) => lemma_ends_within(r, stl_fn::<i8>()),
            Column::VecU8(r) => lemma_ends_within(r, stl_fn::<u8>()),
            Column::VecI16(r) => lemma_ends_within(r, stl_fn::<i16>()),
            Column::VecU16(r) => lemma_ends_within(r, stl_fn::<u16>()),
            Column::VecI32(r) => lemma_ends_within(r, stl_fn::<i32>()),
            Column::VecU32(r) => lemma_ends_within(r, stl_fn::<u32>()),
            Column::VecI64(r) => lemma_ends_within(r, stl_fn::<i64>()),
            Column::VecU64(r) => lemma_ends_within(r, stl_fn::<u64>()),
            Column::VecF32(r) => lemma_ends_within(r, stl_fn::<u32>()),
            Column::VecF64(r) => lemma_ends_within(r, stl_fn::<u64>()),
            _ => {},
        }
    } else if values is Str {
        lemma_ends_within(values->Str_0, tstring_fn());
    } else if kind is Jagged {
        match values {
            Column::VecBool(r) => lemma_ends_within(r, row_fn::<bool>()),
            Column::VecI8(r) => lemma_ends_within(r, row_fn::<i8>()),
            Column::VecU8(r) => lemma_ends_within(r, row_fn::<u8>()),
            Column::VecI16(r) => lemma_ends_within(r, row_fn::<i16>()),
            Column::VecU16(r) => lemma_ends_within(r, row_fn::<u16>()),
            Column::VecI32(r) => lemma_ends_within(r, row_fn::<i32>()),
            Column::VecU32(r) => lemma_ends_within(r, row_fn::<u32>()),
            Column::VecI64(r) => lemma_ends_within(r, row_fn::<i64>()),
            Column::VecU64(r) => lemma_ends_within(r, row_fn::<u64>()),
            Column::VecF32(r) => lemma_ends_within(r, row_fn::<u32>()),
            Column::VecF64(r) => lemma_ends_within(r, row_fn::<u64>()),
            _ => {},
        }
    }
}

/// A branch's uncompressed basket buffer for a key of `klen` bytes: the
/// entry data, then (for a variable branch) the `fEntryOffset` array —
/// `int32 count (= n_entries + 1)` followed by the data-relative offsets
/// plus `klen` — and the border, where the entry data ends.
pub fn basket_buffer(branch: &Branch, klen: u32) -> (r: (Vec<u8>, u32))
    requires
        !(branch.values_of() is VecStr),
        !(branch.values_of() is Nested),
        content_data(branch.values_of(), branch.kind_of()).len() + klen <= u32::MAX,
    ensures
        r.0@ == buffer_of(branch.values_of(), branch.kind_of(), klen),
        r.1 == content_data(branch.values_of(), branch.kind_of()).len(),
{
    let (data, offsets) = branch.basket_content();
    let ghost d = data@;
    proof {
        lemma_offsets_within(branch.values_of(), branch.kind_of());
    }
    let border = data.len() as u32;
    let mut buffer = data;
    match &offsets {
        Some(offs) => {
            put_u32(&mut buffer, offs.len() as i32 as u32);
            let ghost head = buffer@;
            let ghost o = offs@;
            let mut i: usize = 0;
            assert(o.take(0) == Seq::<u32>::empty());
            assert(content_offsets(branch.values_of(), branch.kind_of()) == Some(o));
            assert(d == content_data(branch.values_of(), branch.kind_of()));
            proof {
                lemma_offsets_within(branch.values_of(), branch.kind_of());
                assert forall|j: int| 0 <= j < o.len() implies #[trigger] o[j] <= d.len() by {
                    let co = content_offsets(branch.values_of(), branch.kind_of())->0;
                    assert(co == o);
                    assert(co[j] <= content_data(branch.values_of(), branch.kind_of()).len());
                }
            }
            while i < offs.len()
                invariant
                    i <= o.len(),
                    o == offs@,
                    border == d.len(),
                    d.len() + klen <= u32::MAX,
                    forall|j: int| 0 <= j < o.len() ==> #[trigger] o[j] <= d.len(),
                    buffer@ == head + concat_map(o.take(i as int), offset_word_fn(klen)),
                decreases o.len() - i,
            {
                let v = offs[i];
                assert(v <= d.len());
                proof {
                    lemma_concat_map_push(o.take(i as int), v, offset_word_fn(klen));
                    assert(o.take(i as int).push(v) == o.take(i + 1));
                }
                put_u32(&mut buffer, (v + klen) as i32 as u32);
                i += 1;
            }
            assert(o.take(i as int) == o);
            assert(buffer@ =~= d + offsets_bytes(o, klen));
        },
        None => {
            assert(buffer@ =~= d + Seq::<u8>::empty());
        },
    }
    (buffer, border)
}

/// Frame `payload` (the basket buffer, compressed or not) as a basket
/// record: the big-format key header (`fNbytes`, key version 1004,
/// `fObjLen`, `fDatime`, `fKeyLen`, cycle 0, `fSeekKey`, `fSeekPdir`, the
/// `TBasket` class, branch and tree names), then the `TBasket` fields
/// (version 3, `fBufferSize` 32000, `fNevBufSize`, `fNevBuf`, `fLast`, flag
/// 0), then the payload.
pub fn basket_record(
    klen: u32,
    obj_len: u32,
    datime: u32,
    seek: u64,
    seek_pdir: u64,
    name: &str,
    tree: &str,
    nev: i32,
    n_entries: u32,
    f_last: u32,
    payload: &[u8],
) -> (r: Vec<u8>)
    requires
        klen + payload@.len() <= u32::MAX,
        encode_utf8(name@).len() <= u32::MAX,
        encode_utf8(tree@).len() <= u32::MAX,
    ensures
        r@ == record_bytes(klen, obj_len, datime, seek, seek_pdir, name@, tree@, nev, n_entries, f_last, payload@),
{
    let mut w: Vec<u8> = Vec::new();
    let nbytes = klen + payload.len() as u32;
    put_u32(&mut w, nbytes as i32 as u32);
    put_u16(&mut w, 1004);
    put_u32(&mut w, obj_len);
    put_u32(&mut w, datime);
    put_u16(&mut w, klen as u16);
    put_u16(&mut w, 0);
    put_u64(&mut w, seek);
    put_u64(&mut w, seek_pdir);
    let ghost before_class = w@;
    w.push(7u8);
    w.push(84u8);
    w.push(66u8);
    w.push(97u8);
    w.push(115u8);
    w.push(107u8);
    w.push(101u8);
    w.push(116u8);
    assert(w@ =~= before_class + basket_class_bytes());
    put_tstring(&mut w, name);
    put_tstring(&mut w, tree);
    put_u16(&mut w, 3);
    put_u32(&mut w, 32000i32 as u32);
    put_u32(&mut w, nev as u32);
    put_u32(&mut w, n_entries as i32 as u32);
    put_u32(&mut w, f_last as i32 as u32);
    w.push(0u8);
    let ghost before_payload = w@;
    write_elems(&mut w, payload);
    proof {
        lemma_u8_row_bytes(payload@);
        assert(w@ =~= record_bytes(klen, obj_len, datime, seek, seek_pdir, name@, tree@, nev, n_entries, f_last, payload@));
    }
    w
}

/// The on-disk bytes of one uncompressed `TBasket` of `branch` in tree
/// `tree_name`, written as if it begins at absolute file offset `seek` (baked
/// into the key's `fSeekKey`), plus its [`BasketRec`]. `seek_pdir` is the
/// offset of the tree's directory and `datime` the key's timestamp.
pub fn basket_bytes(branch: &Branch, tree_name: &str, datime: u32, seek: u64, seek_pdir: u64) -> (r: (Vec<u8>, BasketRec))
    requires
        !(branch.values_of() is VecStr),
        !(branch.values_of() is Nested),
        encode_utf8(branch.name_of()).len() <= u32::MAX,
        encode_utf8(tree_name@).len() <= u32::MAX,
        basket_key_len(branch.name_of(), tree_name@) + buffer_of(branch.values_of(), branch.kind_of(), basket_key_len(branch.name_of(), tree_name@) as u32).len() <= u32::MAX,
        i32::MIN <= branch.spec_flen() * crate::writer::layout::base_leaf(branch.values_of()).2 <= i32::MAX,
    ensures
        ({
            let klen = basket_key_len(branch.name_of(), tree_name@) as u32;
            let buffer = buffer_of(branch.values_of(), branch.kind_of(), klen);
            let border = content_data(branch.values_of(), branch.kind_of()).len() as u32;
            &&& r.0@ == record_bytes(
                klen,
                buffer.len() as u32,
                datime,
                seek,
                seek_pdir,
                branch.name_of(),
                tree_name@,
                nev_buf_size(branch.spec_kind(), branch.spec_flen(), crate::writer::layout::base_leaf(branch.values_of()).2 as i32),
                branch.entries() as u32,
                (klen + border) as u32,
                buffer,
            )
            &&& r.1 == BasketRec { seek, nbytes: (klen + buffer.len()) as u32, n_entries: branch.entries() as u32 }
        }),
{
    let n_entries = branch.n_entries();
    let leaf = branch.leaf();
    let nev = match branch.kind() {
        Kind::Str | Kind::Jagged | Kind::StlVector => 1000,
        _ => branch.flen() * leaf.size,
    };
    let klen64: u64 = 34 + 8 + tstring_len(branch.name.as_str()) + tstring_len(tree_name) + 19;
    let klen = klen64 as u32;
    let (buffer, border) = basket_buffer(branch, klen);
    let obj_len = buffer.len() as u32;
    let f_last = klen + border;
    let bytes = basket_record(
        klen,
        obj_len,
        datime,
        seek,
        seek_pdir,
        branch.name.as_str(),
        tree_name,
        nev,
        n_entries,
        f_last,
        buffer.as_slice(),
    );
    let nbytes = klen + obj_len;
    (bytes, BasketRec { seek, nbytes, n_entries })
}

} // verus!
