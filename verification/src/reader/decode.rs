//! Decoding branch data: from basket payloads to [`BranchValues`] columns.

use vstd::prelude::*;
use crate::basket::Basket;
use crate::reader::Branch;
use crate::column::{elem_rows, elems_of, read_elems, read_rows, Elem};
use crate::codec::{get_u32, u32_at};
use crate::error::{Error, Issue};
use crate::rbuffer::{tstring_at, RBuffer};
use crate::text::text_of;
use crate::reader::objects::{decode_object_members, object_model};
use crate::value::{rows, texts, text_rows, BranchValues, Column, Jagged, LeafType};

verus! {

/// The bytes of each region.
pub open spec fn region_views(rs: Seq<&[u8]>) -> Seq<Seq<u8>> {
    rs.map_values(|r: &[u8]| r@)
}

/// The column that contiguous big-endian `leaf`-typed values `s` decode to.
pub open spec fn scalar_model(leaf: LeafType, s: Seq<u8>) -> Column {
    match leaf {
        LeafType::Bool => Column::Bool(elems_of::<bool>(s)),
        LeafType::I8 => Column::I8(elems_of::<i8>(s)),
        LeafType::U8 => Column::U8(elems_of::<u8>(s)),
        LeafType::I16 => Column::I16(elems_of::<i16>(s)),
        LeafType::U16 => Column::U16(elems_of::<u16>(s)),
        LeafType::I32 => Column::I32(elems_of::<i32>(s)),
        LeafType::U32 => Column::U32(elems_of::<u32>(s)),
        LeafType::I64 => Column::I64(elems_of::<i64>(s)),
        LeafType::U64 => Column::U64(elems_of::<u64>(s)),
        LeafType::F32 => Column::F32(elems_of::<u32>(s)),
        LeafType::F64 => Column::F64(elems_of::<u64>(s)),
        LeafType::Str => Column::Str(Seq::empty()),
    }
}

/// The column of per-entry arrays that the regions `rs` decode to.
pub open spec fn array_model(leaf: LeafType, rs: Seq<Seq<u8>>) -> Column {
    match leaf {
        LeafType::Bool => Column::VecBool(elem_rows::<bool>(rs)),
        LeafType::I8 => Column::VecI8(elem_rows::<i8>(rs)),
        LeafType::U8 => Column::VecU8(elem_rows::<u8>(rs)),
        LeafType::I16 => Column::VecI16(elem_rows::<i16>(rs)),
        LeafType::U16 => Column::VecU16(elem_rows::<u16>(rs)),
        LeafType::I32 => Column::VecI32(elem_rows::<i32>(rs)),
        LeafType::U32 => Column::VecU32(elem_rows::<u32>(rs)),
        LeafType::I64 => Column::VecI64(elem_rows::<i64>(rs)),
        LeafType::U64 => Column::VecU64(elem_rows::<u64>(rs)),
        LeafType::F32 => Column::VecF32(elem_rows::<u32>(rs)),
        LeafType::F64 => Column::VecF64(elem_rows::<u64>(rs)),
        LeafType::Str => Column::VecStr(Seq::empty()),
    }
}

/// Decode `bytes` as a contiguous big-endian array of `leaf`-typed scalars.
pub fn decode_scalar(leaf: LeafType, bytes: &[u8]) -> (r: Result<BranchValues, Error>)
    ensures
        leaf == LeafType::Str ==> r == Err::<BranchValues, Error>(
            Error::Format(Issue::StringAsNumbers),
        ),
        leaf != LeafType::Str ==> (r matches Ok(v) && v@ == scalar_model(leaf, bytes@)),
{
    match leaf {
        LeafType::Bool => Ok(BranchValues::Bool(read_elems::<bool>(bytes))),
        LeafType::I8 => Ok(BranchValues::I8(read_elems::<i8>(bytes))),
        LeafType::U8 => Ok(BranchValues::U8(read_elems::<u8>(bytes))),
        LeafType::I16 => Ok(BranchValues::I16(read_elems::<i16>(bytes))),
        LeafType::U16 => Ok(BranchValues::U16(read_elems::<u16>(bytes))),
        LeafType::I32 => Ok(BranchValues::I32(read_elems::<i32>(bytes))),
        LeafType::U32 => Ok(BranchValues::U32(read_elems::<u32>(bytes))),
        LeafType::I64 => Ok(BranchValues::I64(read_elems::<i64>(bytes))),
        LeafType::U64 => Ok(BranchValues::U64(read_elems::<u64>(bytes))),
        LeafType::F32 => Ok(BranchValues::F32(read_elems::<u32>(bytes))),
        LeafType::F64 => Ok(BranchValues::F64(read_elems::<u64>(bytes))),
        LeafType::Str => Err(Error::Format(Issue::StringAsNumbers)),
    }
}

/// Decode each per-entry region into a vector of `leaf`-typed values, yielding
/// one inner vector per entry.
pub fn decode_array(leaf: LeafType, regions: &[&[u8]]) -> (r: Result<BranchValues, Error>)
    ensures
        leaf == LeafType::Str ==> r == Err::<BranchValues, Error>(
            Error::Format(Issue::StringAsNumbers),
        ),
        leaf != LeafType::Str ==> (r matches Ok(v) && v@ == array_model(
            leaf,
            region_views(regions@),
        )),
{
    match leaf {
        LeafType::Bool => Ok(BranchValues::VecBool(read_rows::<bool>(regions))),
        LeafType::I8 => Ok(BranchValues::VecI8(read_rows::<i8>(regions))),
        LeafType::U8 => Ok(BranchValues::VecU8(read_rows::<u8>(regions))),
        LeafType::I16 => Ok(BranchValues::VecI16(read_rows::<i16>(regions))),
        LeafType::U16 => Ok(BranchValues::VecU16(read_rows::<u16>(regions))),
        LeafType::I32 => Ok(BranchValues::VecI32(read_rows::<i32>(regions))),
        LeafType::U32 => Ok(BranchValues::VecU32(read_rows::<u32>(regions))),
        LeafType::I64 => Ok(BranchValues::VecI64(read_rows::<i64>(regions))),
        LeafType::U64 => Ok(BranchValues::VecU64(read_rows::<u64>(regions))),
        LeafType::F32 => Ok(BranchValues::VecF32(read_rows::<u32>(regions))),
        LeafType::F64 => Ok(BranchValues::VecF64(read_rows::<u64>(regions))),
        LeafType::Str => Err(Error::Format(Issue::StringAsNumbers)),
    }
}

/// Every basket's border lies within its buffer.
pub open spec fn baskets_wf(bs: Seq<Basket>) -> bool {
    forall|k: int| 0 <= k < bs.len() ==> #[trigger] bs[k].wf()
}

/// Offset `i` of `o`, or `d` past its end.
pub open spec fn bound_at(o: Seq<usize>, i: int, d: usize) -> int {
    if 0 <= i < o.len() {
        o[i] as int
    } else {
        d as int
    }
}

/// `s[a..c]`, or nothing when that range does not lie within `s`.
pub open spec fn slice_or_empty(s: Seq<u8>, a: int, c: int) -> Seq<u8> {
    if 0 <= a <= c <= s.len() {
        s.subrange(a, c)
    } else {
        Seq::empty()
    }
}

/// Entry `i`'s bytes in a variable basket with offsets `o`: from offset `i`
/// to offset `i + 1` (the border standing in for a missing offset).
pub open spec fn entry_region(b: Basket, o: Seq<usize>, i: int) -> Seq<u8> {
    slice_or_empty(b.data@, bound_at(o, i, b.border), bound_at(o, i + 1, b.border))
}

/// The per-entry regions of one variable basket; `None` without offsets.
pub open spec fn basket_regions(b: Basket) -> Option<Seq<Seq<u8>>> {
    match b.entry_offsets {
        None => None,
        Some(o) => Some(Seq::new(b.n_entries as nat, |i: int| entry_region(b, o@, i))),
    }
}

/// The per-entry regions of variable baskets, in order; `None` when one of
/// them has no offsets.
pub open spec fn variable_regions(bs: Seq<Basket>) -> Option<Seq<Seq<u8>>>
    decreases bs.len(),
{
    if bs.len() == 0 {
        Some(Seq::empty())
    } else {
        match (variable_regions(bs.drop_last()), basket_regions(bs.last())) {
            (Some(a), Some(b)) => Some(a + b),
            _ => None,
        }
    }
}

proof fn lemma_variable_none(bs: Seq<Basket>, k: int)
    requires
        0 <= k <= bs.len(),
        variable_regions(bs.take(k)) is None,
    ensures
        variable_regions(bs) is None,
    decreases bs.len() - k,
{
    if k < bs.len() {
        assert(bs.take(k + 1).drop_last() == bs.take(k));
        lemma_variable_none(bs, k + 1);
    } else {
        assert(bs.take(k) == bs);
    }
}

/// Per-entry byte regions of a variable-length branch, from each basket's
/// `fEntryOffset` array.
pub fn entry_regions_variable(baskets: &[Basket]) -> (r: Result<Vec<&[u8]>, Error>)
    ensures
        match variable_regions(baskets@) {
            None => r == Err::<Vec<&[u8]>, Error>(Error::Format(Issue::MissingEntryOffsets)),
            Some(rs) => r matches Ok(v) && region_views(v@) == rs,
        },
{
    let mut regions: Vec<&[u8]> = Vec::new();
    let mut k: usize = 0;
    assert(baskets@.take(0) == Seq::<Basket>::empty());
    while k < baskets.len()
        invariant
            k <= baskets@.len(),
            variable_regions(baskets@.take(k as int)) == Some(region_views(regions@)),
        decreases baskets@.len() - k,
    {
        let b = &baskets[k];
        assert(baskets@.take(k + 1).drop_last() == baskets@.take(k as int));
        assert(baskets@.take(k + 1).last() == *b);
        let offs = match &b.entry_offsets {
            Some(o) => o,
            None => {
                proof {
                    lemma_variable_none(baskets@, k + 1);
                }
                return Err(Error::Format(Issue::MissingEntryOffsets));
            },
        };
        let ghost before = regions@;
        let n = b.n_entries as usize;
        let mut i: usize = 0;
        while i < n
            invariant
                i <= n,
                n == b.n_entries,
                b.entry_offsets == Some(*offs),
                regions@.len() == before.len() + i,
                forall|j: int| 0 <= j < before.len() ==> #[trigger] regions@[j] == before[j],
                forall|j: int|
                    0 <= j < i ==> #[trigger] regions@[before.len() + j]@ == entry_region(
                        *b,
                        offs@,
                        j,
                    ),
            decreases n - i,
        {
            let a = if i < offs.len() { offs[i] } else { b.border };
            let c = if i + 1 < offs.len() { offs[i + 1] } else { b.border };
            let reg: &[u8] = if a <= c && c <= b.data.len() {
                vstd::slice::slice_subrange(b.data.as_slice(), a, c)
            } else {
                vstd::slice::slice_subrange(b.data.as_slice(), 0, 0)
            };
            assert(reg@ == entry_region(*b, offs@, i as int));
            regions.push(reg);
            i += 1;
        }
        proof {
            let br = basket_regions(*b)->0;
            assert(br == Seq::new(b.n_entries as nat, |i: int| entry_region(*b, offs@, i)));
            assert forall|t: int| 0 <= t < region_views(regions@).len() implies region_views(
                regions@,
            )[t] == (region_views(before) + br)[t] by {
                if t >= before.len() {
                    let j = t - before.len();
                    assert(regions@[before.len() + j]@ == entry_region(*b, offs@, j));
                }
            }
            assert(region_views(regions@) =~= region_views(before) + br);
        }
        k += 1;
    }
    assert(baskets@.take(k as int) == baskets@);
    Ok(regions)
}

/// `s` cut into consecutive `w`-byte chunks, a shorter tail dropped.
pub open spec fn chunks(s: Seq<u8>, w: nat) -> Seq<Seq<u8>> {
    if w == 0 {
        Seq::empty()
    } else {
        Seq::new(s.len() / w, |i: int| s.subrange(i * w, i * w + w))
    }
}

/// Every basket's entry data cut into `w`-byte chunks, in order.
pub open spec fn chunk_model(bs: Seq<Basket>, w: nat) -> Seq<Seq<u8>>
    decreases bs.len(),
{
    if bs.len() == 0 {
        Seq::empty()
    } else {
        chunk_model(bs.drop_last(), w) + chunks(bs.last().entry_bytes(), w)
    }
}

/// Per-entry byte regions of a fixed-size array branch: each basket's entry
/// data split into `stride`-byte chunks.
pub fn chunk_regions(baskets: &[Basket], stride: usize) -> (r: Vec<&[u8]>)
    requires
        baskets_wf(baskets@),
    ensures
        region_views(r@) == chunk_model(baskets@, stride as nat),
{
    let mut regions: Vec<&[u8]> = Vec::new();
    let mut k: usize = 0;
    assert(baskets@.take(0) == Seq::<Basket>::empty());
    while k < baskets.len()
        invariant
            k <= baskets@.len(),
            baskets_wf(baskets@),
            chunk_model(baskets@.take(k as int), stride as nat) == region_views(regions@),
        decreases baskets@.len() - k,
    {
        let b = &baskets[k];
        assert(baskets@.take(k + 1).drop_last() == baskets@.take(k as int));
        assert(baskets@.take(k + 1).last() == *b);
        assert(b.wf());
        let ghost before = regions@;
        if stride > 0 {
            let ed = b.entry_data();
            let mut p: usize = 0;
            let ghost mut j: int = 0;
            while ed.len() - p >= stride
                invariant
                    stride > 0,
                    p <= ed@.len(),
                    p == j * stride,
                    0 <= j,
                    ed@ == b.entry_bytes(),
                    regions@.len() == before.len() + j,
                    forall|t: int| 0 <= t < before.len() ==> #[trigger] regions@[t] == before[t],
                    forall|t: int|
                        0 <= t < j ==> #[trigger] regions@[before.len() + t]@ == ed@.subrange(
                            t * stride,
                            t * stride + stride,
                        ),
                decreases ed@.len() - p,
            {
                let reg = vstd::slice::slice_subrange(ed, p, p + stride);
                regions.push(reg);
                proof {
                    assert((j + 1) * stride == j * stride + stride) by (nonlinear_arith);
                    j = j + 1;
                }
                p = p + stride;
            }
            proof {
                let len = ed@.len() as int;
                let w = stride as int;
                assert(j == len / w) by (nonlinear_arith)
                    requires
                        p == j * w,
                        p <= len,
                        len < p + w,
                        w > 0,
                        0 <= j,
                ;
                let ch = chunks(ed@, stride as nat);
                assert forall|t: int| 0 <= t < region_views(regions@).len() implies region_views(
                    regions@,
                )[t] == (region_views(before) + ch)[t] by {
                    if t >= before.len() {
                        let u = t - before.len();
                        assert(regions@[before.len() + u]@ == ed@.subrange(
                            u * stride,
                            u * stride + stride,
                        ));
                    }
                }
                assert(region_views(regions@) =~= region_views(before) + ch);
            }
        } else {
            assert(chunks(b.entry_bytes(), 0) == Seq::<Seq<u8>>::empty());
            assert(region_views(regions@) =~= region_views(before) + Seq::<Seq<u8>>::empty());
        }
        k += 1;
    }
    assert(baskets@.take(k as int) == baskets@);
    regions
}

/// `x` after the entries `g`, when there is an `x`.
pub open spec fn after_prefix<T>(g: Seq<T>, x: Option<Seq<T>>) -> Option<Seq<T>> {
    match x {
        None => None,
        Some(rest) => Some(g + rest),
    }
}

/// The text of `n` consecutive `TString`s starting at byte `p` of `s`;
/// `None` when the buffer ends first.
pub open spec fn strings_at(s: Seq<u8>, p: int, n: nat) -> Option<Seq<Seq<char>>>
    decreases n,
{
    if n == 0 {
        Some(Seq::empty())
    } else {
        match tstring_at(s, p) {
            None => None,
            Some((a, e)) => after_prefix(seq![text_of(s.subrange(a, e))], strings_at(s, e, (n - 1) as nat)),
        }
    }
}

/// The strings one `TLeafC` basket holds: one per entry, read in turn from
/// its entry data.
pub open spec fn basket_strings(b: Basket) -> Option<Seq<Seq<char>>> {
    strings_at(b.entry_bytes(), 0, b.n_entries as nat)
}

/// The strings of `TLeafC` baskets, in order.
pub open spec fn strings_model(bs: Seq<Basket>) -> Option<Seq<Seq<char>>>
    decreases bs.len(),
{
    if bs.len() == 0 {
        Some(Seq::empty())
    } else {
        match (strings_model(bs.drop_last()), basket_strings(bs.last())) {
            (Some(a), Some(b)) => Some(a + b),
            _ => None,
        }
    }
}

proof fn lemma_strings_none(bs: Seq<Basket>, k: int)
    requires
        0 <= k <= bs.len(),
        strings_model(bs.take(k)) is None,
    ensures
        strings_model(bs) is None,
    decreases bs.len() - k,
{
    if k < bs.len() {
        assert(bs.take(k + 1).drop_last() == bs.take(k));
        lemma_strings_none(bs, k + 1);
    } else {
        assert(bs.take(k) == bs);
    }
}

/// Read `n` strings from `r` onto `out`.
fn read_strings(r: &mut RBuffer, n: usize, out: &mut Vec<String>) -> (res: Result<(), Error>)
    ensures
        final(r).buf() == old(r).buf(),
        match strings_at(old(r).buf(), old(r).cursor(), n as nat) {
            None => res == Err::<(), Error>(Error::UnexpectedEnd),
            Some(t) => res is Ok && texts(final(out)@) == texts(old(out)@) + t,
        },
{
    let ghost s = r.buf();
    let ghost start = r.cursor();
    let ghost before = out@;
    let ghost mut got: Seq<Seq<char>> = Seq::empty();
    let mut i: usize = 0;
    assert(texts(out@) == texts(before) + got);
    while i < n
        invariant
            i <= n,
            r.buf() == s,
            old(r).buf() == s,
            old(r).cursor() == start,
            old(out)@ == before,
            texts(out@) == texts(before) + got,
            strings_at(s, start, n as nat) == after_prefix(
                got,
                strings_at(s, r.cursor(), (n - i) as nat),
            ),
        decreases n - i,
    {
        let ghost cur = r.cursor();
        let t = match r.string() {
            Ok(t) => t,
            Err(e) => {
                return Err(e);
            },
        };
        proof {
            let rest = strings_at(s, r.cursor(), (n - i - 1) as nat);
            let one: Seq<Seq<char>> = seq![t@];
            match rest {
                Some(x) => {
                    assert(got + (one + x) == (got + one) + x);
                },
                None => {},
            }
            got = got + one;
        }
        let ghost old_out = out@;
        out.push(t);
        proof {
            assert(out@ == old_out.push(t));
            assert(texts(out@) =~= texts(old_out).push(t@));
            assert(texts(out@) =~= texts(before) + got);
        }
        i += 1;
    }
    assert(got + Seq::<Seq<char>>::empty() == got);
    Ok(())
}

/// Decode `TLeafC` baskets: each entry is one ROOT-encoded (length-prefixed)
/// string, read sequentially from the entry data.
pub fn decode_strings(baskets: &[Basket]) -> (r: Result<BranchValues, Error>)
    requires
        baskets_wf(baskets@),
    ensures
        match strings_model(baskets@) {
            None => r == Err::<BranchValues, Error>(Error::UnexpectedEnd),
            Some(t) => r matches Ok(v) && v@ == Column::Str(t),
        },
{
    let mut out: Vec<String> = Vec::new();
    let mut k: usize = 0;
    assert(baskets@.take(0) == Seq::<Basket>::empty());
    assert(texts(out@) == Seq::<Seq<char>>::empty());
    while k < baskets.len()
        invariant
            k <= baskets@.len(),
            baskets_wf(baskets@),
            strings_model(baskets@.take(k as int)) == Some(texts(out@)),
        decreases baskets@.len() - k,
    {
        let b = &baskets[k];
        assert(baskets@.take(k + 1).drop_last() == baskets@.take(k as int));
        assert(baskets@.take(k + 1).last() == *b);
        assert(b.wf());
        let mut r = RBuffer::new(b.entry_data());
        match read_strings(&mut r, b.n_entries as usize, &mut out) {
            Ok(()) => {},
            Err(e) => {
                proof {
                    lemma_strings_none(baskets@, k + 1);
                }
                return Err(e);
            },
        }
        k += 1;
    }
    assert(baskets@.take(k as int) == baskets@);
    Ok(BranchValues::Str(out))
}

/// The strings of one `std::vector<std::string>` entry: a 10-byte streamer
/// header whose last four bytes count the strings, then the strings; an
/// entry shorter than the header holds none.
pub open spec fn vec_string_row(r: Seq<u8>) -> Option<Seq<Seq<char>>> {
    if r.len() >= 10 {
        strings_at(r, 10, u32_at(r, 6) as nat)
    } else {
        Some(Seq::empty())
    }
}

/// The rows of `std::vector<std::string>` entries, in order.
pub open spec fn vec_strings_model(rs: Seq<Seq<u8>>) -> Option<Seq<Seq<Seq<char>>>>
    decreases rs.len(),
{
    if rs.len() == 0 {
        Some(Seq::empty())
    } else {
        match (vec_strings_model(rs.drop_last()), vec_string_row(rs.last())) {
            (Some(a), Some(b)) => Some(a.push(b)),
            _ => None,
        }
    }
}

proof fn lemma_vec_strings_none(rs: Seq<Seq<u8>>, k: int)
    requires
        0 <= k <= rs.len(),
        vec_strings_model(rs.take(k)) is None,
    ensures
        vec_strings_model(rs) is None,
    decreases rs.len() - k,
{
    if k < rs.len() {
        assert(rs.take(k + 1).drop_last() == rs.take(k));
        lemma_vec_strings_none(rs, k + 1);
    } else {
        assert(rs.take(k) == rs);
    }
}

/// Decode `std::vector<std::string>` entries: each region is a 10-byte
/// streamer header (byte count + version + `u32` element count) followed by
/// that many ROOT-encoded strings.
pub fn decode_vec_strings(regions: &[&[u8]]) -> (r: Result<BranchValues, Error>)
    ensures
        match vec_strings_model(region_views(regions@)) {
            None => r == Err::<BranchValues, Error>(Error::UnexpectedEnd),
            Some(t) => r matches Ok(v) && v@ == Column::VecStr(t),
        },
{
    let ghost rs = region_views(regions@);
    let mut out: Vec<Vec<String>> = Vec::new();
    let mut k: usize = 0;
    assert(rs.take(0) == Seq::<Seq<u8>>::empty());
    assert(text_rows(out@) == Seq::<Seq<Seq<char>>>::empty());
    while k < regions.len()
        invariant
            k <= regions@.len(),
            rs == region_views(regions@),
            vec_strings_model(rs.take(k as int)) == Some(text_rows(out@)),
        decreases regions@.len() - k,
    {
        let reg = regions[k];
        assert(rs.take(k + 1).drop_last() == rs.take(k as int));
        assert(rs.take(k + 1).last() == reg@);
        let mut buf = RBuffer::new(reg);
        let mut row: Vec<String> = Vec::new();
        if buf.remaining() >= 10 {
            let _ = buf.be_u32();
            let _ = buf.be_u16();
            let count = match buf.be_u32() {
                Ok(c) => c,
                Err(e) => {
                    return Err(e);
                },
            };
            assert(count == u32_at(reg@, 6));
            match read_strings(&mut buf, count as usize, &mut row) {
                Ok(()) => {},
                Err(e) => {
                    proof {
                        lemma_vec_strings_none(rs, k + 1);
                    }
                    return Err(e);
                },
            }
            assert(texts(row@) =~= vec_string_row(reg@)->0);
        } else {
            assert(texts(row@) =~= Seq::<Seq<char>>::empty());
        }
        out.push(row);
        assert(text_rows(out@) =~= text_rows(out@.drop_last()).push(texts(row@)));
        k += 1;
    }
    assert(rs.take(k as int) == rs);
    Ok(BranchValues::VecStr(out))
}

/// The inner vectors of a `std::vector<std::vector<T>>` entry `r`: `k`
/// blocks from byte `pos`, each a big-endian `u32` element count then that
/// many `w`-byte elements; `None` when the entry ends mid-block.
pub open spec fn inner_vectors(r: Seq<u8>, pos: int, k: nat, w: nat) -> Option<Seq<Seq<u8>>>
    decreases k,
{
    if k == 0 {
        Some(Seq::empty())
    } else if pos < 0 || pos + 4 > r.len() {
        None
    } else {
        let e = pos + 4 + u32_at(r, pos) * w;
        if e > r.len() {
            None
        } else {
            after_prefix(seq![r.subrange(pos + 4, e)], inner_vectors(r, e, (k - 1) as nat, w))
        }
    }
}

/// One `std::vector<std::vector<T>>` entry: the outer vector's 10-byte
/// streamer header (whose last four bytes count the inner vectors), then the
/// inner vectors. An entry shorter than the header holds none.
pub open spec fn nested_entry(r: Seq<u8>, w: nat) -> Option<(Seq<Seq<u8>>, u32)> {
    if r.len() >= 10 {
        match inner_vectors(r, 10, u32_at(r, 6) as nat, w) {
            Some(v) => Some((v, u32_at(r, 6))),
            None => None,
        }
    } else {
        Some((Seq::empty(), 0u32))
    }
}

/// The inner-vector regions of nested entries, flattened, and the running
/// count of inner vectors before each entry and after the last.
pub open spec fn nested_parts(rs: Seq<Seq<u8>>, w: nat) -> Result<(Seq<Seq<u8>>, Seq<u64>), Error>
    decreases rs.len(),
{
    if rs.len() == 0 {
        Ok((Seq::empty(), seq![0u64]))
    } else {
        match nested_parts(rs.drop_last(), w) {
            Err(e) => Err(e),
            Ok((a, t)) => match nested_entry(rs.last(), w) {
                None => Err(Error::Format(Issue::NestedEntryTruncated)),
                Some((v, c)) => if t.last() + c > usize::MAX {
                    Err(Error::Format(Issue::SizeOverflow))
                } else {
                    Ok((a + v, t.push((t.last() + c) as u64)))
                },
            },
        }
    }
}

proof fn lemma_nested_err(rs: Seq<Seq<u8>>, w: nat, k: int)
    requires
        0 <= k <= rs.len(),
        nested_parts(rs.take(k), w) is Err,
    ensures
        nested_parts(rs, w) == nested_parts(rs.take(k), w),
    decreases rs.len() - k,
{
    if k < rs.len() {
        assert(rs.take(k + 1).drop_last() == rs.take(k));
        lemma_nested_err(rs, w, k + 1);
    } else {
        assert(rs.take(k) == rs);
    }
}

proof fn lemma_nested_parts_ok(rs: Seq<Seq<u8>>, w: nat)
    ensures
        nested_parts(rs, w) matches Ok((items, o)) ==> o.len() > 0 && o[0] == 0 && nondecreasing(o)
            && forall|i: int| 0 <= i < o.len() ==> #[trigger] o[i] <= usize::MAX,
    decreases rs.len(),
{
    if rs.len() > 0 {
        lemma_nested_parts_ok(rs.drop_last(), w);
    }
}

/// Split one nested entry into its inner-vector regions, appended to
/// `inner`; returns the entry's inner-vector count.
fn nested_entry_regions<'a>(reg: &'a [u8], w: usize, inner: &mut Vec<&'a [u8]>) -> (r: Result<u32, Error>)
    requires
        1 <= w <= 8,
    ensures
        match nested_entry(reg@, w as nat) {
            None => r == Err::<u32, Error>(Error::Format(Issue::NestedEntryTruncated)),
            Some((v, c)) => r == Ok::<u32, Error>(c) && region_views(final(inner)@) == region_views(
                old(inner)@,
            ) + v,
        },
{
    if reg.len() < 10 {
        assert(region_views(inner@) =~= region_views(inner@) + Seq::<Seq<u8>>::empty());
        return Ok(0);
    }
    let outer = get_u32(reg, 6);
    let ghost before = inner@;
    let ghost mut got: Seq<Seq<u8>> = Seq::empty();
    let mut pos: usize = 10;
    let mut j: u32 = 0;
    assert(region_views(inner@) =~= region_views(before) + got);
    while j < outer
        invariant
            1 <= w <= 8,
            j <= outer,
            outer == u32_at(reg@, 6),
            reg@.len() >= 10,
            pos <= reg@.len(),
            old(inner)@ == before,
            region_views(inner@) == region_views(before) + got,
            inner_vectors(reg@, 10, outer as nat, w as nat) == after_prefix(
                got,
                inner_vectors(reg@, pos as int, (outer - j) as nat, w as nat),
            ),
        decreases outer - j,
    {
        if reg.len() - pos < 4 {
            return Err(Error::Format(Issue::NestedEntryTruncated));
        }
        let count = get_u32(reg, pos);
        assert(count as u64 * w as u64 <= 0xffff_ffffu64 * 8) by (nonlinear_arith)
            requires
                count <= 0xffff_ffffu32,
                w <= 8,
        ;
        let nbytes: u64 = count as u64 * w as u64;
        if ((reg.len() - pos - 4) as u64) < nbytes {
            return Err(Error::Format(Issue::NestedEntryTruncated));
        }
        let e = pos + 4 + nbytes as usize;
        let part = vstd::slice::slice_subrange(reg, pos + 4, e);
        proof {
            let rest = inner_vectors(reg@, e as int, (outer - j - 1) as nat, w as nat);
            let one: Seq<Seq<u8>> = seq![part@];
            match rest {
                Some(x) => {
                    assert(got + (one + x) == (got + one) + x);
                },
                None => {},
            }
            got = got + one;
        }
        let ghost old_inner = inner@;
        inner.push(part);
        proof {
            assert(inner@ == old_inner.push(part));
            assert(region_views(inner@) =~= region_views(old_inner).push(part@));
            assert(region_views(inner@) =~= region_views(before) + got);
        }
        pos = e;
        j += 1;
    }
    assert(got + Seq::<Seq<u8>>::empty() == got);
    Ok(outer)
}

/// Decode `std::vector<std::vector<T>>` entries into a [`BranchValues::Nested`].
/// Each region is the outer vector's 10-byte streamer header (byte count +
/// version + outer count) followed by that many inner vectors, each a `u32`
/// element count then the contiguous big-endian elements. The flattened inner
/// vectors become `items` (a `Vec*` of element type `elem`), partitioned per
/// entry by the cumulative `offsets`.
pub fn decode_nested_vec(regions: &[&[u8]], elem: LeafType) -> (r: Result<BranchValues, Error>)
    ensures
        match nested_parts(region_views(regions@), elem.width()) {
            Err(e) => r == Err::<BranchValues, Error>(e),
            Ok((items, offs)) => if elem == LeafType::Str {
                r == Err::<BranchValues, Error>(Error::Format(Issue::StringAsNumbers))
            } else {
                r matches Ok(v) && v@ == Column::Nested(offs, Box::new(array_model(elem, items)))
            },
        },
{
    let ghost rs = region_views(regions@);
    let w = elem.size();
    let mut offsets: Vec<u64> = Vec::new();
    offsets.push(0);
    let mut total: u64 = 0;
    let mut inner: Vec<&[u8]> = Vec::new();
    let mut k: usize = 0;
    assert(rs.take(0) == Seq::<Seq<u8>>::empty());
    assert(offsets@ == seq![0u64]);
    assert(region_views(inner@) =~= Seq::<Seq<u8>>::empty());
    while k < regions.len()
        invariant
            k <= regions@.len(),
            rs == region_views(regions@),
            w == elem.width(),
            1 <= w <= 8,
            offsets@.len() > 0,
            total == offsets@.last(),
            nested_parts(rs.take(k as int), w as nat) == Ok::<
                (Seq<Seq<u8>>, Seq<u64>),
                Error,
            >((region_views(inner@), offsets@)),
        decreases regions@.len() - k,
    {
        let reg = regions[k];
        assert(rs.take(k + 1).drop_last() == rs.take(k as int));
        assert(rs.take(k + 1).last() == reg@);
        let c = match nested_entry_regions(reg, w, &mut inner) {
            Ok(c) => c,
            Err(e) => {
                proof {
                    lemma_nested_err(rs, w as nat, k + 1);
                }
                return Err(e);
            },
        };
        total = match total.checked_add(c as u64) {
            Some(t) if t <= usize::MAX as u64 => t,
            _ => {
                proof {
                    lemma_nested_err(rs, w as nat, k + 1);
                }
                return Err(Error::Format(Issue::SizeOverflow));
            },
        };
        offsets.push(total);
        k += 1;
    }
    assert(rs.take(k as int) == rs);
    let items = decode_array(elem, inner.as_slice())?;
    Ok(BranchValues::Nested { offsets, items: Box::new(items) })
}

/// A numeric decode of `s` as scalars: an error for a string leaf.
pub open spec fn scalar_result(leaf: LeafType, s: Seq<u8>) -> Result<Column, Error> {
    if leaf == LeafType::Str {
        Err(Error::Format(Issue::StringAsNumbers))
    } else {
        Ok(scalar_model(leaf, s))
    }
}

/// A numeric decode of regions as per-entry arrays: an error for a string leaf.
pub open spec fn array_result(leaf: LeafType, rs: Seq<Seq<u8>>) -> Result<Column, Error> {
    if leaf == LeafType::Str {
        Err(Error::Format(Issue::StringAsNumbers))
    } else {
        Ok(array_model(leaf, rs))
    }
}

/// The bytes of one leaf of a leaflist entry `c`: `width` bytes from
/// `offset`, cut at the entry's end.
pub open spec fn leaf_field(c: Seq<u8>, offset: int, width: int) -> Seq<u8> {
    let end = if offset + width <= c.len() { offset + width } else { c.len() as int };
    if offset <= end {
        c.subrange(offset, end)
    } else {
        Seq::empty()
    }
}

/// One leaf's bytes in every `stride`-byte entry of every basket.
pub open spec fn leaflist_model(bs: Seq<Basket>, offset: int, stride: nat, width: int) -> Seq<
    Seq<u8>,
> {
    chunk_model(bs, stride).map_values(|c: Seq<u8>| leaf_field(c, offset, width))
}

/// The bytes one element block of a branch takes: `max(fLen, 1)` elements.
pub open spec fn leaf_width(br: Branch) -> int {
    (if br.leaf_len > 1 { br.leaf_len as int } else { 1 }) * br.leaf_type.width()
}

/// Whether any basket carries an `fEntryOffset` array.
pub open spec fn any_variable(bs: Seq<Basket>) -> bool {
    exists|k: int| 0 <= k < bs.len() && (#[trigger] bs[k]).entry_offsets is Some
}

/// Every region without its first `h` bytes.
pub open spec fn strip_headers(rs: Seq<Seq<u8>>, h: int) -> Seq<Seq<u8>> {
    rs.map_values(|r: Seq<u8>| r.subrange(if h <= r.len() { h } else { r.len() as int }, r.len() as int))
}

/// Every basket's entry data, concatenated.
pub open spec fn all_entry_bytes(bs: Seq<Basket>) -> Seq<u8>
    decreases bs.len(),
{
    if bs.len() == 0 {
        Seq::empty()
    } else {
        all_entry_bytes(bs.drop_last()) + bs.last().entry_bytes()
    }
}

/// The entries of all baskets together.
pub open spec fn total_entries(bs: Seq<Basket>) -> int
    decreases bs.len(),
{
    if bs.len() == 0 {
        0
    } else {
        total_entries(bs.drop_last()) + bs.last().n_entries
    }
}

/// What a branch that is not an object member's column decodes to (see
/// [`decode_model`]).
pub open spec fn decode_plain_model(br: Branch, bs: Seq<Basket>) -> Result<Column, Error> {
    match br.leaflist {
        Some((offset, stride)) => if stride == 0 {
            scalar_result(br.leaf_type, Seq::empty())
        } else {
            let rs = leaflist_model(bs, offset as int, stride as nat, leaf_width(br));
            if br.leaf_len > 1 {
                array_result(br.leaf_type, rs)
            } else {
                scalar_result(br.leaf_type, rs.flatten())
            }
        },
        None => match br.nested_elem {
            Some(e) => match variable_regions(bs) {
                None => Err(Error::Format(Issue::MissingEntryOffsets)),
                Some(rs) => match nested_parts(rs, e.width()) {
                    Err(err) => Err(err),
                    Ok((items, offs)) => match array_result(e, items) {
                        Err(err) => Err(err),
                        Ok(c) => Ok(Column::Nested(offs, Box::new(c))),
                    },
                },
            },
            None => if br.leaf_type == LeafType::Str {
                if br.elem_header > 0 {
                    match variable_regions(bs) {
                        None => Err(Error::Format(Issue::MissingEntryOffsets)),
                        Some(rs) => match vec_strings_model(rs) {
                            None => Err(Error::UnexpectedEnd),
                            Some(t) => Ok(Column::VecStr(t)),
                        },
                    }
                } else {
                    match strings_model(bs) {
                        None => Err(Error::UnexpectedEnd),
                        Some(t) => Ok(Column::Str(t)),
                    }
                }
            } else if any_variable(bs) {
                match variable_regions(bs) {
                    None => Err(Error::Format(Issue::MissingEntryOffsets)),
                    Some(rs) => Ok(array_model(br.leaf_type, strip_headers(rs, br.elem_header as int))),
                }
            } else if br.leaf_len > 1 {
                Ok(array_model(br.leaf_type, chunk_model(bs, (br.leaf_len * br.leaf_type.width()) as nat)))
            } else if all_entry_bytes(bs).len() != total_entries(bs) * br.leaf_type.width() {
                Err(Error::Format(Issue::ScalarSizeMismatch))
            } else {
                Ok(scalar_model(br.leaf_type, all_entry_bytes(bs)))
            },
        },
    }
}

/// The column a branch's baskets decode to, or the error met: an object
/// member's column takes its member out of each entry's object; any other
/// branch decodes as [`decode_plain_model`] says.
pub open spec fn decode_model(br: Branch, bs: Seq<Basket>) -> Result<Column, Error> {
    match br.object_member {
        Some(om) => match variable_regions(bs) {
            None => Err(Error::Format(Issue::MissingEntryOffsets)),
            Some(rs) => object_model(br.leaf_type, rs, om.member@, om.class_elements@),
        },
        None => decode_plain_model(br, bs),
    }
}

/// The bytes of one leaf's field in each `stride`-byte entry of each basket.
pub fn leaflist_regions(baskets: &[Basket], offset: usize, stride: usize, width: u64) -> (r: Vec<&[u8]>)
    requires
        baskets_wf(baskets@),
        stride > 0,
    ensures
        region_views(r@) == leaflist_model(baskets@, offset as int, stride as nat, width as int),
{
    let chunks = chunk_regions(baskets, stride);
    let mut out: Vec<&[u8]> = Vec::new();
    let mut i: usize = 0;
    while i < chunks.len()
        invariant
            i <= chunks@.len(),
            out@.len() == i,
            forall|j: int|
                0 <= j < i ==> #[trigger] out@[j]@ == leaf_field(chunks@[j]@, offset as int, width as int),
        decreases chunks@.len() - i,
    {
        let c = chunks[i];
        let f: &[u8] = if offset > c.len() {
            vstd::slice::slice_subrange(c, 0, 0)
        } else if width >= (c.len() - offset) as u64 {
            vstd::slice::slice_subrange(c, offset, c.len())
        } else {
            vstd::slice::slice_subrange(c, offset, offset + width as usize)
        };
        assert(f@ == leaf_field(c@, offset as int, width as int));
        out.push(f);
        i += 1;
    }
    proof {
        let m = leaflist_model(baskets@, offset as int, stride as nat, width as int);
        assert(region_views(chunks@) == chunk_model(baskets@, stride as nat));
        assert forall|j: int| 0 <= j < out@.len() implies region_views(out@)[j] == m[j] by {
            assert(region_views(chunks@)[j] == chunks@[j]@);
        }
        assert(region_views(out@) =~= m);
    }
    out
}

/// Append the bytes of `s` to `out`.
fn append_bytes(out: &mut Vec<u8>, s: &[u8])
    ensures
        final(out)@ == old(out)@ + s@,
{
    let mut i: usize = 0;
    while i < s.len()
        invariant
            i <= s@.len(),
            out@ == old(out)@ + s@.subrange(0, i as int),
        decreases s@.len() - i,
    {
        out.push(s[i]);
        i += 1;
        assert(out@ =~= old(out)@ + s@.subrange(0, i as int));
    }
    assert(s@.subrange(0, i as int) == s@);
}

proof fn lemma_chunk_model_wide(bs: Seq<Basket>, w: nat)
    requires
        baskets_wf(bs),
        w > usize::MAX,
    ensures
        chunk_model(bs, w) == Seq::<Seq<u8>>::empty(),
    decreases bs.len(),
{
    if bs.len() > 0 {
        assert(bs.drop_last().len() == bs.len() - 1);
        assert forall|k: int| 0 <= k < bs.drop_last().len() implies #[trigger] bs.drop_last()[k].wf() by {
            assert(bs[k].wf());
        }
        lemma_chunk_model_wide(bs.drop_last(), w);
        assert(bs[bs.len() - 1].wf());
        let e = bs.last().entry_bytes();
        assert(e.len() <= usize::MAX);
        assert(e.len() / w == 0) by (nonlinear_arith)
            requires
                e.len() < w,
        ;
        assert(chunks(e, w) =~= Seq::<Seq<u8>>::empty());
        assert(chunk_model(bs, w) =~= Seq::<Seq<u8>>::empty());
    }
}

/// Concatenate every basket's entry data, and count their entries.
fn gather_entries(baskets: &[Basket]) -> (r: (Vec<u8>, Option<u64>))
    requires
        baskets_wf(baskets@),
    ensures
        r.0@ == all_entry_bytes(baskets@),
        match r.1 {
            Some(t) => t == total_entries(baskets@),
            None => total_entries(baskets@) > u64::MAX,
        },
{
    let mut bytes: Vec<u8> = Vec::new();
    let mut total: Option<u64> = Some(0);
    let mut k: usize = 0;
    assert(baskets@.take(0) == Seq::<Basket>::empty());
    while k < baskets.len()
        invariant
            k <= baskets@.len(),
            baskets_wf(baskets@),
            bytes@ == all_entry_bytes(baskets@.take(k as int)),
            total_entries(baskets@.take(k as int)) >= 0,
            match total {
                Some(t) => t == total_entries(baskets@.take(k as int)),
                None => total_entries(baskets@.take(k as int)) > u64::MAX,
            },
        decreases baskets@.len() - k,
    {
        let b = &baskets[k];
        assert(baskets@.take(k + 1).drop_last() == baskets@.take(k as int));
        assert(baskets@.take(k + 1).last() == *b);
        assert(b.wf());
        append_bytes(&mut bytes, b.entry_data());
        total = match total {
            Some(t) => t.checked_add(b.n_entries as u64),
            None => None,
        };
        k += 1;
    }
    assert(baskets@.take(k as int) == baskets@);
    (bytes, total)
}

/// Concatenate regions.
fn flatten_regions(rs: &Vec<&[u8]>) -> (r: Vec<u8>)
    ensures
        r@ == region_views(rs@).flatten(),
{
    let mut out: Vec<u8> = Vec::new();
    let mut i: usize = 0;
    assert(region_views(rs@).take(0) == Seq::<Seq<u8>>::empty());
    while i < rs.len()
        invariant
            i <= rs@.len(),
            out@ == region_views(rs@).take(i as int).flatten(),
        decreases rs@.len() - i,
    {
        proof {
            region_views(rs@).take(i as int).lemma_flatten_push(rs@[i as int]@);
            assert(region_views(rs@).take(i as int).push(rs@[i as int]@) == region_views(rs@).take(
                i + 1,
            ));
        }
        append_bytes(&mut out, rs[i]);
        i += 1;
    }
    assert(region_views(rs@).take(i as int) == region_views(rs@));
    out
}

/// Decode the given (contiguous, in-order) baskets of `branch` into per-entry
/// [`BranchValues`]: a leaflist leaf takes its bytes out of each entry's
/// fixed stride; a `std::vector<std::vector<T>>` decodes to a nested column;
/// strings are read one per entry (or per `std::vector<std::string>` row);
/// variable-length branches split at the `fEntryOffset` boundaries (after
/// any per-entry streamer header); fixed arrays split into `fLen`-element
/// chunks; and scalars decode the concatenated entry data, whose size must
/// be the entry count times the element width.
pub fn decode_baskets(branch: &Branch, baskets: &[Basket]) -> (r: Result<BranchValues, Error>)
    requires
        baskets_wf(baskets@),
    ensures
        match decode_model(*branch, baskets@) {
            Err(e) => r == Err::<BranchValues, Error>(e),
            Ok(c) => r matches Ok(v) && v@ == c,
        },
{
    if let Some(om) = &branch.object_member {
        let regions = entry_regions_variable(baskets)?;
        return decode_object_members(branch.leaf_type, om, regions.as_slice());
    }
    let leaf = branch.leaf_type;
    let size = leaf.size();
    if let Some((offset, stride)) = branch.leaflist {
        if stride == 0 {
            let empty: Vec<u8> = Vec::new();
            return decode_scalar(leaf, empty.as_slice());
        }
        let n: u64 = if branch.leaf_len > 1 { branch.leaf_len as u64 } else { 1 };
        assert(n * size <= 0x7fff_ffffu64 * 8) by (nonlinear_arith)
            requires
                n <= 0x7fff_ffffu64,
                size <= 8,
        ;
        let width: u64 = n * size as u64;
        let regions = leaflist_regions(baskets, offset, stride, width);
        if branch.leaf_len > 1 {
            return decode_array(leaf, regions.as_slice());
        }
        let bytes = flatten_regions(&regions);
        return decode_scalar(leaf, bytes.as_slice());
    }
    if let Some(e) = branch.nested_elem {
        let regions = entry_regions_variable(baskets)?;
        return decode_nested_vec(regions.as_slice(), e);
    }
    if leaf == LeafType::Str {
        if branch.elem_header > 0 {
            let regions = entry_regions_variable(baskets)?;
            return decode_vec_strings(regions.as_slice());
        }
        return decode_strings(baskets);
    }
    let mut variable = false;
    let mut k: usize = 0;
    while k < baskets.len()
        invariant
            k <= baskets@.len(),
            variable ==> any_variable(baskets@),
            !variable ==> forall|j: int| 0 <= j < k ==> (#[trigger] baskets@[j]).entry_offsets is None,
        decreases baskets@.len() - k,
    {
        if baskets[k].entry_offsets.is_some() {
            variable = true;
        }
        k += 1;
    }
    if variable {
        let regions = entry_regions_variable(baskets)?;
        let h = branch.elem_header;
        let mut stripped: Vec<&[u8]> = Vec::new();
        let mut i: usize = 0;
        while i < regions.len()
            invariant
                i <= regions@.len(),
                stripped@.len() == i,
                forall|j: int|
                    0 <= j < i ==> #[trigger] stripped@[j]@ == regions@[j]@.subrange(
                        if h <= regions@[j]@.len() { h as int } else { regions@[j]@.len() as int },
                        regions@[j]@.len() as int,
                    ),
            decreases regions@.len() - i,
        {
            let reg = regions[i];
            let a = if h <= reg.len() { h } else { reg.len() };
            stripped.push(vstd::slice::slice_subrange(reg, a, reg.len()));
            i += 1;
        }
        proof {
            let want = strip_headers(region_views(regions@), h as int);
            assert forall|j: int| 0 <= j < stripped@.len() implies region_views(stripped@)[j]
                == want[j] by {
                assert(region_views(regions@)[j] == regions@[j]@);
            }
            assert(region_views(stripped@) =~= want);
        }
        return decode_array(leaf, stripped.as_slice());
    }
    proof {
        assert(!any_variable(baskets@));
    }
    if branch.leaf_len > 1 {
        assert(branch.leaf_len as u64 * size <= 0x7fff_ffffu64 * 8) by (nonlinear_arith)
            requires
                branch.leaf_len <= 0x7fff_ffffi32,
                branch.leaf_len > 1,
                size <= 8,
        ;
        let stride: u64 = branch.leaf_len as u64 * size as u64;
        if stride <= usize::MAX as u64 {
            let regions = chunk_regions(baskets, stride as usize);
            return decode_array(leaf, regions.as_slice());
        }
        proof {
            lemma_chunk_model_wide(baskets@, stride as nat);
        }
        let none: Vec<&[u8]> = Vec::new();
        assert(region_views(none@) =~= Seq::<Seq<u8>>::empty());
        return decode_array(leaf, none.as_slice());
    }
    let (bytes, total) = gather_entries(baskets);
    let blen = bytes.len();
    let fits = match total {
        Some(t) => match t.checked_mul(size as u64) {
            Some(m) => m == bytes.len() as u64,
            None => false,
        },
        None => false,
    };
    if !fits {
        proof {
            let tot = total_entries(baskets@);
            let w = leaf.width() as int;
            assert(1 <= w <= 8);
            assert(tot >= 0) by {
                if total is Some {
                } else {
                }
            }
            assert(tot <= tot * w) by (nonlinear_arith)
                requires
                    tot >= 0,
                    w >= 1,
            ;
            assert(bytes@.len() == blen);
            assert(all_entry_bytes(baskets@).len() != tot * w);
        }
        return Err(Error::Format(Issue::ScalarSizeMismatch));
    }
    decode_scalar(leaf, bytes.as_slice())
}

/// Where a clamped range `[offset, offset + len)` ends in `n` items.
pub open spec fn clamp_end(offset: int, len: int, n: int) -> int {
    if offset + len < n {
        offset + len
    } else {
        n
    }
}

/// `x` restricted to `[offset, offset + len)`, clamped to its length.
pub open spec fn cut<T>(x: Seq<T>, offset: int, len: int) -> Seq<T> {
    let e = clamp_end(offset, len, x.len() as int);
    x.subrange(if offset < e { offset } else { e }, e)
}

/// Whether `o` never decreases.
pub open spec fn nondecreasing(o: Seq<u64>) -> bool {
    forall|i: int, j: int| 0 <= i <= j < o.len() ==> o[i] <= o[j]
}

/// Whether every nested level of `c` has at least one offset, offsets that
/// never decrease, and offsets that fit in a `usize`.
pub open spec fn nested_ok(c: Column) -> bool
    decreases c,
{
    match c {
        Column::Nested(o, items) => o.len() > 0 && nondecreasing(o) && (forall|i: int|
            0 <= i < o.len() ==> #[trigger] o[i] <= usize::MAX) && nested_ok(*items),
        _ => true,
    }
}

/// A column restricted to the entries `[offset, offset + len)` (clamped); a
/// nested column keeps the covered inner vectors, its offsets rebased to 0.
pub open spec fn slice_model(c: Column, offset: int, len: int) -> Column
    decreases c,
{
    match c {
        Column::Bool(x) => Column::Bool(cut(x, offset, len)),
        Column::I8(x) => Column::I8(cut(x, offset, len)),
        Column::U8(x) => Column::U8(cut(x, offset, len)),
        Column::I16(x) => Column::I16(cut(x, offset, len)),
        Column::U16(x) => Column::U16(cut(x, offset, len)),
        Column::I32(x) => Column::I32(cut(x, offset, len)),
        Column::U32(x) => Column::U32(cut(x, offset, len)),
        Column::I64(x) => Column::I64(cut(x, offset, len)),
        Column::U64(x) => Column::U64(cut(x, offset, len)),
        Column::F32(x) => Column::F32(cut(x, offset, len)),
        Column::F64(x) => Column::F64(cut(x, offset, len)),
        Column::VecBool(x) => Column::VecBool(cut(x, offset, len)),
        Column::VecI8(x) => Column::VecI8(cut(x, offset, len)),
        Column::VecU8(x) => Column::VecU8(cut(x, offset, len)),
        Column::VecI16(x) => Column::VecI16(cut(x, offset, len)),
        Column::VecU16(x) => Column::VecU16(cut(x, offset, len)),
        Column::VecI32(x) => Column::VecI32(cut(x, offset, len)),
        Column::VecU32(x) => Column::VecU32(cut(x, offset, len)),
        Column::VecI64(x) => Column::VecI64(cut(x, offset, len)),
        Column::VecU64(x) => Column::VecU64(cut(x, offset, len)),
        Column::VecF32(x) => Column::VecF32(cut(x, offset, len)),
        Column::VecF64(x) => Column::VecF64(cut(x, offset, len)),
        Column::Str(x) => Column::Str(cut(x, offset, len)),
        Column::VecStr(x) => Column::VecStr(cut(x, offset, len)),
        Column::Nested(o, items) => {
            let n = if o.len() == 0 { 0 } else { o.len() - 1 };
            let e = clamp_end(offset, len, n);
            let st = if offset < e { offset } else { e };
            let base = o[st];
            Column::Nested(
                o.subrange(st, e + 1).map_values(|v: u64| (v - base) as u64),
                Box::new(slice_model(*items, o[st] as int, o[e] - o[st])),
            )
        },
    }
}

/// The bounds `[start, end)` of `[offset, offset + len)` clamped to `n`.
fn clamp(offset: usize, len: usize, n: usize) -> (r: (usize, usize))
    ensures
        r.1 == clamp_end(offset as int, len as int, n as int),
        r.0 == (if offset < r.1 { offset } else { r.1 }),
        r.0 <= r.1 <= n,
{
    let end = if offset < n && len < n - offset { offset + len } else { n };
    let start = if offset < end { offset } else { end };
    (start, end)
}

/// `v[start..end]`, taking `v`.
fn take_range<T>(v: Vec<T>, start: usize, end: usize) -> (r: Vec<T>)
    requires
        start <= end <= v@.len(),
    ensures
        r@ == v@.subrange(start as int, end as int),
{
    let mut v = v;
    v.truncate(end);
    v.split_off(start)
}

/// `v` restricted to `[offset, offset + len)`, clamped.
fn cut_vec<T>(v: Vec<T>, offset: usize, len: usize) -> (r: Vec<T>)
    ensures
        r@ == cut(v@, offset as int, len as int),
{
    let (s, e) = clamp(offset, len, v.len());
    take_range(v, s, e)
}

/// Slice a decoded branch's values to the sub-range `[offset, offset + len)`
/// (clamped), preserving the variant.
pub fn slice_values(bv: BranchValues, offset: usize, len: usize) -> (r: BranchValues)
    requires
        nested_ok(bv@),
    ensures
        r@ == slice_model(bv@, offset as int, len as int),
        nested_ok(r@),
    decreases bv,
{
    match bv {
        BranchValues::Bool(v) => BranchValues::Bool(cut_vec(v, offset, len)),
        BranchValues::I8(v) => BranchValues::I8(cut_vec(v, offset, len)),
        BranchValues::U8(v) => BranchValues::U8(cut_vec(v, offset, len)),
        BranchValues::I16(v) => BranchValues::I16(cut_vec(v, offset, len)),
        BranchValues::U16(v) => BranchValues::U16(cut_vec(v, offset, len)),
        BranchValues::I32(v) => BranchValues::I32(cut_vec(v, offset, len)),
        BranchValues::U32(v) => BranchValues::U32(cut_vec(v, offset, len)),
        BranchValues::I64(v) => BranchValues::I64(cut_vec(v, offset, len)),
        BranchValues::U64(v) => BranchValues::U64(cut_vec(v, offset, len)),
        BranchValues::F32(v) => BranchValues::F32(cut_vec(v, offset, len)),
        BranchValues::F64(v) => BranchValues::F64(cut_vec(v, offset, len)),
        BranchValues::VecBool(v) => {
            let r = cut_vec(v, offset, len);
            assert(rows(r@) =~= cut(rows(v@), offset as int, len as int));
            BranchValues::VecBool(r)
        },
        BranchValues::VecI8(v) => {
            let r = cut_vec(v, offset, len);
            assert(rows(r@) =~= cut(rows(v@), offset as int, len as int));
            BranchValues::VecI8(r)
        },
        BranchValues::VecU8(v) => {
            let r = cut_vec(v, offset, len);
            assert(rows(r@) =~= cut(rows(v@), offset as int, len as int));
            BranchValues::VecU8(r)
        },
        BranchValues::VecI16(v) => {
            let r = cut_vec(v, offset, len);
            assert(rows(r@) =~= cut(rows(v@), offset as int, len as int));
            BranchValues::VecI16(r)
        },
        BranchValues::VecU16(v) => {
            let r = cut_vec(v, offset, len);
            assert(rows(r@) =~= cut(rows(v@), offset as int, len as int));
            BranchValues::VecU16(r)
        },
        BranchValues::VecI32(v) => {
            let r = cut_vec(v, offset, len);
            assert(rows(r@) =~= cut(rows(v@), offset as int, len as int));
            BranchValues::VecI32(r)
        },
        BranchValues::VecU32(v) => {
            let r = cut_vec(v, offset, len);
            assert(rows(r@) =~= cut(rows(v@), offset as int, len as int));
            BranchValues::VecU32(r)
        },
        BranchValues::VecI64(v) => {
            let r = cut_vec(v, offset, len);
            assert(rows(r@) =~= cut(rows(v@), offset as int, len as int));
            BranchValues::VecI64(r)
        },
        BranchValues::VecU64(v) => {
            let r = cut_vec(v, offset, len);
            assert(rows(r@) =~= cut(rows(v@), offset as int, len as int));
            BranchValues::VecU64(r)
        },
        BranchValues::VecF32(v) => {
            let r = cut_vec(v, offset, len);
            assert(rows(r@) =~= cut(rows(v@), offset as int, len as int));
            BranchValues::VecF32(r)
        },
        BranchValues::VecF64(v) => {
            let r = cut_vec(v, offset, len);
            assert(rows(r@) =~= cut(rows(v@), offset as int, len as int));
            BranchValues::VecF64(r)
        },
        BranchValues::Str(v) => {
            let r = cut_vec(v, offset, len);
            assert(texts(r@) =~= cut(texts(v@), offset as int, len as int));
            BranchValues::Str(r)
        },
        BranchValues::VecStr(v) => {
            let r = cut_vec(v, offset, len);
            assert(text_rows(r@) =~= cut(text_rows(v@), offset as int, len as int));
            BranchValues::VecStr(r)
        },
        BranchValues::Nested { offsets, items } => {
            let n = offsets.len() - 1;
            let (start, end) = clamp(offset, len, n);
            let base = offsets[start];
            let item_start = offsets[start] as usize;
            let item_end = offsets[end] as usize;
            let ghost o = offsets@;
            let olen = offsets.len();
            let mut new_offsets: Vec<u64> = Vec::new();
            let mut i = start;
            while i <= end
                invariant
                    start <= i <= end + 1,
                    end < olen,
                    olen == o.len(),
                    o == offsets@,
                    base == o[start as int],
                    nondecreasing(o),
                    new_offsets@.len() == i - start,
                    forall|j: int|
                        0 <= j < i - start ==> #[trigger] new_offsets@[j] == (o[start + j] - base) as u64,
                decreases end + 1 - i,
            {
                new_offsets.push(offsets[i] - base);
                i += 1;
            }
            assert(new_offsets@ =~= o.subrange(start as int, end + 1).map_values(|v: u64| (v - base) as u64));
            let sub = slice_values(*items, item_start, item_end - item_start);
            proof {
                assert forall|a: int, b: int| 0 <= a <= b < new_offsets@.len() implies new_offsets@[a]
                    <= new_offsets@[b] by {
                    assert(o[start + a] <= o[start + b]);
                }
                assert forall|j: int| 0 <= j < new_offsets@.len() implies #[trigger] new_offsets@[j]
                    <= usize::MAX by {
                    assert(o[start + j] <= usize::MAX);
                }
            }
            BranchValues::Nested { offsets: new_offsets, items: Box::new(sub) }
        },
    }
}

/// The per-entry byte regions of a numeric branch's baskets: a leaflist
/// leaf's field in each entry; each variable entry (after its streamer
/// header), none at all when a basket lacks offsets; or `max(fLen, 1)`
/// elements per entry.
pub open spec fn entry_regions_model(br: Branch, bs: Seq<Basket>) -> Seq<Seq<u8>> {
    match br.leaflist {
        Some((offset, stride)) => if stride == 0 {
            Seq::empty()
        } else {
            leaflist_model(bs, offset as int, stride as nat, leaf_width(br))
        },
        None => if any_variable(bs) {
            match variable_regions(bs) {
                None => Seq::empty(),
                Some(rs) => strip_headers(rs, br.elem_header as int),
            }
        } else {
            chunk_model(bs, leaf_width(br) as nat)
        },
    }
}

/// Per-entry byte regions of a numeric branch (the shared shape behind the
/// jagged/array/scalar read paths), for the flat view.
pub fn entry_regions<'a>(branch: &Branch, baskets: &'a [Basket]) -> (r: Vec<&'a [u8]>)
    requires
        baskets_wf(baskets@),
    ensures
        region_views(r@) == entry_regions_model(*branch, baskets@),
{
    let size = branch.leaf_type.size();
    let n: u64 = if branch.leaf_len > 1 { branch.leaf_len as u64 } else { 1 };
    assert(n * size <= 0x7fff_ffffu64 * 8) by (nonlinear_arith)
        requires
            n <= 0x7fff_ffffu64,
            size <= 8,
    ;
    let width: u64 = n * size as u64;
    if let Some((offset, stride)) = branch.leaflist {
        if stride == 0 {
            let none: Vec<&[u8]> = Vec::new();
            assert(region_views(none@) =~= Seq::<Seq<u8>>::empty());
            return none;
        }
        return leaflist_regions(baskets, offset, stride, width);
    }
    let mut variable = false;
    let mut k: usize = 0;
    while k < baskets.len()
        invariant
            k <= baskets@.len(),
            variable ==> any_variable(baskets@),
            !variable ==> forall|j: int| 0 <= j < k ==> (#[trigger] baskets@[j]).entry_offsets is None,
        decreases baskets@.len() - k,
    {
        if baskets[k].entry_offsets.is_some() {
            variable = true;
        }
        k += 1;
    }
    if variable {
        let regions = match entry_regions_variable(baskets) {
            Ok(v) => v,
            Err(_) => {
                let none: Vec<&[u8]> = Vec::new();
                assert(region_views(none@) =~= Seq::<Seq<u8>>::empty());
                return none;
            },
        };
        let h = branch.elem_header;
        let mut stripped: Vec<&[u8]> = Vec::new();
        let mut i: usize = 0;
        while i < regions.len()
            invariant
                i <= regions@.len(),
                stripped@.len() == i,
                forall|j: int|
                    0 <= j < i ==> #[trigger] stripped@[j]@ == regions@[j]@.subrange(
                        if h <= regions@[j]@.len() { h as int } else { regions@[j]@.len() as int },
                        regions@[j]@.len() as int,
                    ),
            decreases regions@.len() - i,
        {
            let reg = regions[i];
            let a = if h <= reg.len() { h } else { reg.len() };
            stripped.push(vstd::slice::slice_subrange(reg, a, reg.len()));
            i += 1;
        }
        proof {
            let want = strip_headers(region_views(regions@), h as int);
            assert forall|j: int| 0 <= j < stripped@.len() implies region_views(stripped@)[j]
                == want[j] by {
                assert(region_views(regions@)[j] == regions@[j]@);
            }
            assert(region_views(stripped@) =~= want);
        }
        return stripped;
    }
    assert(!any_variable(baskets@));
    if width <= usize::MAX as u64 {
        return chunk_regions(baskets, width as usize);
    }
    proof {
        lemma_chunk_model_wide(baskets@, width as nat);
    }
    let none: Vec<&[u8]> = Vec::new();
    assert(region_views(none@) =~= Seq::<Seq<u8>>::empty());
    none
}

/// The running element counts of regions of `w`-byte elements: 0, then the
/// total after each region.
pub open spec fn element_ends(rs: Seq<Seq<u8>>, w: nat) -> Seq<u64>
    decreases rs.len(),
{
    if rs.len() == 0 {
        seq![0u64]
    } else {
        let e = element_ends(rs.drop_last(), w);
        e.push((e.last() + rs.last().len() / w) as u64)
    }
}

/// Read a numeric branch as a [`Jagged`] view — cumulative `offsets` over one
/// flat scalar column — without a vector per entry. String branches have no
/// such view.
pub fn flat_values(branch: &Branch, baskets: &[Basket]) -> (r: Result<Jagged, Error>)
    requires
        baskets_wf(baskets@),
    ensures
        branch.leaf_type == LeafType::Str ==> r == Err::<Jagged, Error>(
            Error::InvalidInput(Issue::FlatViewOfStrings),
        ),
        branch.leaf_type != LeafType::Str && branch.object_member is Some ==> r == Err::<Jagged, Error>(
            Error::InvalidInput(Issue::FlatViewOfObjectMember),
        ),
        branch.leaf_type != LeafType::Str && branch.object_member is None ==> (r matches Ok(j) && {
            let rs = entry_regions_model(*branch, baskets@);
            &&& j.offsets@ == element_ends(rs, branch.leaf_type.width())
            &&& j.values@ == scalar_model(branch.leaf_type, rs.flatten())
        }),
{
    if branch.leaf_type == LeafType::Str {
        return Err(Error::InvalidInput(Issue::FlatViewOfStrings));
    }
    if branch.object_member.is_some() {
        return Err(Error::InvalidInput(Issue::FlatViewOfObjectMember));
    }
    let regions = entry_regions(branch, baskets);
    let ghost rs = region_views(regions@);
    let size = branch.leaf_type.size();
    let mut offsets: Vec<u64> = Vec::new();
    offsets.push(0);
    let mut bytes: Vec<u8> = Vec::new();
    let mut acc: u64 = 0;
    let mut i: usize = 0;
    assert(rs.take(0) == Seq::<Seq<u8>>::empty());
    assert(offsets@ == seq![0u64]);
    while i < regions.len()
        invariant
            i <= regions@.len(),
            rs == region_views(regions@),
            size == branch.leaf_type.width(),
            1 <= size <= 8,
            offsets@ == element_ends(rs.take(i as int), size as nat),
            acc == offsets@.last(),
            acc <= bytes@.len(),
            bytes@ == rs.take(i as int).flatten(),
        decreases regions@.len() - i,
    {
        let reg = regions[i];
        proof {
            rs.take(i as int).lemma_flatten_push(reg@);
            assert(rs.take(i as int).push(reg@) == rs.take(i + 1));
            assert(rs.take(i + 1).drop_last() == rs.take(i as int));
            assert(rs.take(i + 1).last() == reg@);
        }
        append_bytes(&mut bytes, reg);
        let bl = bytes.len();
        let q = reg.len() / size;
        assert(q <= reg@.len()) by (nonlinear_arith)
            requires
                size >= 1,
                q == reg@.len() as int / (size as int),
        ;
        acc = acc + q as u64;
        offsets.push(acc);
        i += 1;
    }
    assert(rs.take(i as int) == rs);
    let values = decode_scalar(branch.leaf_type, bytes.as_slice())?;
    Ok(Jagged { offsets, values })
}

/// Where basket `i` of a branch starts: its `fBasketEntry` (0 when negative
/// or missing).
pub open spec fn basket_start(br: Branch, i: int) -> u64 {
    if 0 <= i < br.basket_entry@.len() {
        let e = br.basket_entry@[i];
        if e < 0 {
            0
        } else {
            e as u64
        }
    } else {
        0
    }
}

/// Where basket `i` ends: the next basket's start, or the tree's entry
/// count for the last.
pub open spec fn basket_stop(br: Branch, entries: u64, i: int) -> u64 {
    if i + 1 < br.basket_entry@.len() {
        basket_start(br, i + 1)
    } else {
        entries
    }
}

/// Whether basket `i` is needed for entries `[start, stop)`: always, when the
/// branch does not record one start per basket.
pub open spec fn keeps_basket(br: Branch, entries: u64, start: u64, stop: u64, i: int) -> bool {
    br.basket_entry@.len() != br.n_baskets || (basket_start(br, i) < stop && basket_stop(
        br,
        entries,
        i,
    ) > start)
}

/// The baskets among the first `n` that entries `[start, stop)` need, in order.
pub open spec fn kept_baskets(br: Branch, entries: u64, start: u64, stop: u64, n: nat) -> Seq<
    usize,
>
    decreases n,
{
    if n == 0 {
        Seq::empty()
    } else {
        let k = kept_baskets(br, entries, start, stop, (n - 1) as nat);
        if keeps_basket(br, entries, start, stop, n - 1) {
            k.push((n - 1) as usize)
        } else {
            k
        }
    }
}

/// Where basket `i` of `branch` is read from: its file offset
/// (`fBasketSeek`), and its exact record size (`fBasketBytes`) when the
/// branch records a positive one (else `None`, and the reader reads the
/// record's header for its size). A basket with no recorded offset is
/// refused.
pub fn basket_location(branch: &Branch, i: usize) -> (r: Result<(u64, Option<usize>), Error>)
    ensures
        i >= branch.basket_seek@.len() ==> r == Err::<(u64, Option<usize>), Error>(Error::Format(Issue::MissingBasketSeek)),
        i < branch.basket_seek@.len() ==> (r matches Ok((seek, size)) && seek == branch.basket_seek@[i as int] && size == (
            if i < branch.basket_bytes@.len() && branch.basket_bytes@[i as int] > 0 {
                Some(branch.basket_bytes@[i as int] as usize)
            } else {
                None
            })),
{
    if i >= branch.basket_seek.len() {
        return Err(Error::Format(Issue::MissingBasketSeek));
    }
    let seek = branch.basket_seek[i];
    let size = if i < branch.basket_bytes.len() && branch.basket_bytes[i] > 0 {
        Some(branch.basket_bytes[i] as usize)
    } else {
        None
    };
    Ok((seek, size))
}

/// The baskets to fetch for entries `[start, stop)` of a tree of `entries`
/// entries (`stop` clamped to `entries`, `start` to `stop`), and the entry
/// the first of them starts at (0 when none is kept or the branch records no
/// per-basket starts).
pub fn select_baskets(branch: &Branch, entries: u64, start: u64, stop: u64) -> (r: (Vec<usize>, u64))
    ensures
        ({
            let stop1 = if stop < entries { stop } else { entries };
            let start1 = if start < stop1 { start } else { stop1 };
            let ks = kept_baskets(*branch, entries, start1, stop1, branch.n_baskets as nat);
            &&& r.0@ == ks
            &&& r.1 == (if ks.len() > 0 && branch.basket_entry@.len() == branch.n_baskets {
                basket_start(*branch, ks[0] as int)
            } else {
                0
            })
        }),
{
    let stop = if stop < entries { stop } else { entries };
    let start = if start < stop { start } else { stop };
    let have_bounds = branch.basket_entry.len() == branch.n_baskets;
    let mut indices: Vec<usize> = Vec::new();
    let mut first_entry: u64 = 0;
    let mut i: usize = 0;
    while i < branch.n_baskets
        invariant
            i <= branch.n_baskets,
            have_bounds == (branch.basket_entry@.len() == branch.n_baskets),
            indices@ == kept_baskets(*branch, entries, start, stop, i as nat),
            first_entry == (if indices@.len() > 0 && have_bounds {
                basket_start(*branch, indices@[0] as int)
            } else {
                0
            }),
        decreases branch.n_baskets - i,
    {
        let bstart: u64 = if i < branch.basket_entry.len() {
            let e = branch.basket_entry[i];
            if e < 0 { 0 } else { e as u64 }
        } else {
            0
        };
        let bstop: u64 = if i + 1 < branch.basket_entry.len() {
            let e = branch.basket_entry[i + 1];
            if e < 0 { 0 } else { e as u64 }
        } else {
            entries
        };
        assert(bstart == basket_start(*branch, i as int));
        assert(bstop == basket_stop(*branch, entries, i as int));
        let keep = !have_bounds || (bstart < stop && bstop > start);
        if keep {
            if indices.len() == 0 {
                first_entry = if have_bounds { bstart } else { 0 };
            }
            indices.push(i);
        }
        i += 1;
    }
    (indices, first_entry)
}

/// Every column the baskets decode to can be sliced.
pub proof fn lemma_decoded_nested_ok(br: Branch, bs: Seq<Basket>)
    ensures
        decode_model(br, bs) matches Ok(c) ==> nested_ok(c),
{
    if br.leaflist is None {
        if let Some(e) = br.nested_elem {
            if let Some(rs) = variable_regions(bs) {
                lemma_nested_parts_ok(rs, e.width());
                if let Ok((items, offs)) = nested_parts(rs, e.width()) {
                    assert(nested_ok(array_model(e, items)));
                    if e != LeafType::Str {
                        assert(nested_ok(Column::Nested(offs, Box::new(array_model(e, items)))));
                    }
                }
            }
        }
    }
}

/// Decode the baskets read for entries `[start, stop)` (the first of them
/// starting at entry `first_entry`) and slice out exactly that window.
pub fn range_values(
    branch: &Branch,
    baskets: &[Basket],
    first_entry: u64,
    start: u64,
    stop: u64,
) -> (r: Result<BranchValues, Error>)
    requires
        baskets_wf(baskets@),
        start <= stop,
    ensures
        match decode_model(*branch, baskets@) {
            Err(e) => r == Err::<BranchValues, Error>(e),
            Ok(c) => (r matches Ok(v) && v@ == slice_model(
                c,
                (if start > first_entry { (start - first_entry) as usize } else { 0usize }) as int,
                ((stop - start) as usize) as int,
            )),
        },
{
    let values = decode_baskets(branch, baskets)?;
    proof {
        lemma_decoded_nested_ok(*branch, baskets@);
    }
    let off: usize = if start > first_entry { (start - first_entry) as usize } else { 0 };
    let len: usize = (stop - start) as usize;
    Ok(slice_values(values, off, len))
}

/// Decoding two byte runs one after the other, the first a whole number of
/// values, gives the values of each in turn.
proof fn lemma_elems_append<T: Elem>(a: Seq<u8>, b: Seq<u8>)
    requires
        a.len() % T::width() == 0,
    ensures
        elems_of::<T>(a + b) =~= elems_of::<T>(a) + elems_of::<T>(b),
{
    T::lemma_width();
    let w = T::width();
    let na = a.len() / w;
    let nb = b.len() / w;
    assert(w * na == a.len()) by (nonlinear_arith)
        requires
            w >= 1,
            a.len() % w == 0,
            na == a.len() / w,
    ;
    assert((a.len() + b.len()) / w == na + nb) by (nonlinear_arith)
        requires
            w >= 1,
            w * na == a.len(),
            nb == b.len() / w,
    ;
    let x = elems_of::<T>(a + b);
    let y = elems_of::<T>(a) + elems_of::<T>(b);
    assert forall|i: int| 0 <= i < x.len() implies x[i] == y[i] by {
        if i < na {
            assert(w * i + w <= a.len()) by (nonlinear_arith)
                requires
                    w >= 1,
                    0 <= i < na,
                    w * na == a.len(),
            ;
            assert((a + b).subrange(w * i, w * i + w) =~= a.subrange(w * i, w * i + w));
        } else {
            let j = i - na;
            assert(w * i == a.len() + w * j) by (nonlinear_arith)
                requires
                    w * na == a.len(),
                    j == i - na,
            ;
            assert(w * j + w <= b.len()) by (nonlinear_arith)
                requires
                    w >= 1,
                    0 <= j < nb,
                    nb == b.len() / w,
            ;
            assert((a + b).subrange(w * i, w * i + w) =~= b.subrange(w * j, w * j + w));
        }
    }
}

/// Whether every region holds a whole number of `w`-byte values.
pub open spec fn whole_regions(rs: Seq<Seq<u8>>, w: nat) -> bool {
    forall|i: int| 0 <= i < rs.len() ==> #[trigger] rs[i].len() % w == 0
}

/// The running value counts of whole regions are the counts of their rows,
/// and the values of all regions together, cut at those counts, are the
/// rows.
proof fn lemma_flat_rows<T: Elem>(rs: Seq<Seq<u8>>)
    requires
        whole_regions(rs, T::width()),
        rs.flatten().len() <= u64::MAX,
    ensures
        element_ends(rs, T::width()).len() == rs.len() + 1,
        element_ends(rs, T::width())[0] == 0,
        element_ends(rs, T::width()).last() == elems_of::<T>(rs.flatten()).len(),
        forall|i: int|
            0 <= i <= rs.len() ==> #[trigger] element_ends(rs, T::width())[i] <= element_ends(
                rs,
                T::width(),
            ).last(),
        forall|i: int|
            0 <= i < rs.len() ==> #[trigger] element_ends(rs, T::width())[i + 1] == element_ends(
                rs,
                T::width(),
            )[i] + elem_rows::<T>(rs)[i].len(),
        forall|i: int|
            0 <= i < rs.len() ==> #[trigger] elem_rows::<T>(rs)[i] == elems_of::<T>(rs.flatten()).subrange(
                element_ends(rs, T::width())[i] as int,
                element_ends(rs, T::width())[i + 1] as int,
            ),
    decreases rs.len(),
{
    T::lemma_width();
    let w = T::width();
    if rs.len() == 0 {
        assert(rs.flatten() =~= Seq::<u8>::empty());
        assert(elems_of::<T>(rs.flatten()).len() == 0);
    } else {
        let p = rs.drop_last();
        let l = rs.last();
        assert(p.push(l) =~= rs);
        p.lemma_flatten_push(l);
        assert(rs.flatten() =~= p.flatten() + l);
        assert(whole_regions(p, w)) by {
            assert forall|i: int| 0 <= i < p.len() implies #[trigger] p[i].len() % w == 0 by {
                assert(p[i] == rs[i]);
            }
        }
        lemma_flat_rows::<T>(p);
        let e = element_ends(p, w);
        assert(p.flatten().len() % w == 0) by {
            lemma_whole_flatten(p, w);
        }
        lemma_elems_append::<T>(p.flatten(), l);
        let flat = elems_of::<T>(rs.flatten());
        assert(flat =~= elems_of::<T>(p.flatten()) + elems_of::<T>(l));
        assert(l.len() / w <= l.len()) by (nonlinear_arith)
            requires
                w >= 1,
        ;
        assert(elems_of::<T>(p.flatten()).len() <= p.flatten().len()) by (nonlinear_arith)
            requires
                w >= 1,
                elems_of::<T>(p.flatten()).len() == p.flatten().len() / w,
        ;
        let ee = element_ends(rs, w);
        assert(ee == e.push((e.last() + l.len() / w) as u64));
        assert forall|i: int| 0 <= i <= rs.len() implies #[trigger] ee[i] <= ee.last() by {
            if i < rs.len() {
                assert(ee[i] == e[i]);
            }
        }
        assert forall|i: int| 0 <= i < rs.len() implies #[trigger] ee[i + 1] == ee[i] + elem_rows::<T>(rs)[i].len() by {
            if i < p.len() {
                assert(elem_rows::<T>(rs)[i] == elem_rows::<T>(p)[i]);
                assert(ee[i + 1] == e[i + 1]);
            }
        }
        assert forall|i: int| 0 <= i < rs.len() implies #[trigger] elem_rows::<T>(rs)[i] == flat.subrange(
            ee[i] as int,
            ee[i + 1] as int,
        ) by {
            if i < p.len() {
                assert(elem_rows::<T>(rs)[i] == elem_rows::<T>(p)[i]);
                assert(ee[i] == e[i]);
                assert(ee[i + 1] == e[i + 1]);
                assert(flat.subrange(ee[i] as int, ee[i + 1] as int) =~= elems_of::<T>(p.flatten()).subrange(
                    e[i] as int,
                    e[i + 1] as int,
                ));
            } else {
                assert(elem_rows::<T>(rs)[i] == elems_of::<T>(l));
                assert(flat.subrange(ee[i] as int, ee[i + 1] as int) =~= elems_of::<T>(l));
            }
        }
    }
}

/// Regions of whole values flatten to whole values.
proof fn lemma_whole_flatten(rs: Seq<Seq<u8>>, w: nat)
    requires
        w >= 1,
        whole_regions(rs, w),
    ensures
        rs.flatten().len() % w == 0,
    decreases rs.len(),
{
    if rs.len() > 0 {
        let p = rs.drop_last();
        assert(p.push(rs.last()) =~= rs);
        p.lemma_flatten_push(rs.last());
        assert(whole_regions(p, w)) by {
            assert forall|i: int| 0 <= i < p.len() implies #[trigger] p[i].len() % w == 0 by {
                assert(p[i] == rs[i]);
            }
        }
        lemma_whole_flatten(p, w);
        let a = p.flatten().len();
        let b = rs.last().len();
        vstd::arithmetic::div_mod::lemma_add_mod_noop(a as int, b as int, w as int);
        assert(0int % (w as int) == 0) by (nonlinear_arith)
            requires
                w >= 1,
        ;
        assert(rs.flatten().len() == a + b);
    } else {
        assert(rs.flatten() =~= Seq::<u8>::empty());
    }
}

/// Whether `o` cuts the flat values `v` into the rows `r`: one offset more
/// than rows, the first 0 and the last the number of values, never
/// decreasing, and row `i` exactly the values from offset `i` to offset
/// `i + 1`.
pub open spec fn rows_cut<T>(r: Seq<Seq<T>>, o: Seq<u64>, v: Seq<T>) -> bool {
    &&& o.len() == r.len() + 1
    &&& o[0] == 0
    &&& o.last() == v.len()
    &&& forall|i: int| 0 <= i < r.len() ==> #[trigger] o[i] <= o[i + 1]
    &&& forall|i: int| 0 <= i < r.len() ==> #[trigger] r[i] == v.subrange(o[i] as int, o[i + 1] as int)
}

/// Whether the flat view `offsets` over `values` holds the per-entry arrays
/// of the column `arr`, entry by entry (see [`rows_cut`]).
pub open spec fn flat_matches(arr: Column, offsets: Seq<u64>, values: Column) -> bool {
    match (arr, values) {
        (Column::VecBool(r), Column::Bool(v)) => rows_cut(r, offsets, v),
        (Column::VecI8(r), Column::I8(v)) => rows_cut(r, offsets, v),
        (Column::VecU8(r), Column::U8(v)) => rows_cut(r, offsets, v),
        (Column::VecI16(r), Column::I16(v)) => rows_cut(r, offsets, v),
        (Column::VecU16(r), Column::U16(v)) => rows_cut(r, offsets, v),
        (Column::VecI32(r), Column::I32(v)) => rows_cut(r, offsets, v),
        (Column::VecU32(r), Column::U32(v)) => rows_cut(r, offsets, v),
        (Column::VecI64(r), Column::I64(v)) => rows_cut(r, offsets, v),
        (Column::VecU64(r), Column::U64(v)) => rows_cut(r, offsets, v),
        (Column::VecF32(r), Column::F32(v)) => rows_cut(r, offsets, v),
        (Column::VecF64(r), Column::F64(v)) => rows_cut(r, offsets, v),
        _ => false,
    }
}

/// [`lemma_flat_rows`] in the shape of [`rows_cut`].
proof fn lemma_rows_cut<T: Elem>(rs: Seq<Seq<u8>>)
    requires
        whole_regions(rs, T::width()),
        rs.flatten().len() <= u64::MAX,
    ensures
        rows_cut(elem_rows::<T>(rs), element_ends(rs, T::width()), elems_of::<T>(rs.flatten())),
{
    lemma_flat_rows::<T>(rs);
    let o = element_ends(rs, T::width());
    assert forall|i: int| 0 <= i < elem_rows::<T>(rs).len() implies #[trigger] o[i] <= o[i + 1] by {
        assert(o[i + 1] == o[i] + elem_rows::<T>(rs)[i].len());
    }
}

/// The flat view of a numeric array branch matches its nested read. When a
/// branch of per-entry arrays (a variable-length array, a fixed array
/// `x[N]`, or such a leaflist leaf) decodes, and each entry's bytes hold a
/// whole number of values, the offsets and values that [`flat_values`]
/// returns cut exactly the nested read's arrays: entry `i` is the values
/// between offsets `i` and `i + 1`.
pub proof fn lemma_flat_view_matches_nested(br: Branch, bs: Seq<Basket>)
    requires
        br.object_member is None,
        br.nested_elem is None,
        br.leaf_type != LeafType::Str,
        br.leaflist is None ==> any_variable(bs) || br.leaf_len > 1,
        br.leaflist matches Some((_, stride)) ==> stride > 0 && br.leaf_len > 1,
        whole_regions(entry_regions_model(br, bs), br.leaf_type.width()),
        entry_regions_model(br, bs).flatten().len() <= u64::MAX,
        decode_model(br, bs) is Ok,
    ensures
        flat_matches(
            decode_model(br, bs)->Ok_0,
            element_ends(entry_regions_model(br, bs), br.leaf_type.width()),
            scalar_model(br.leaf_type, entry_regions_model(br, bs).flatten()),
        ),
{
    let rs = entry_regions_model(br, bs);
    assert(decode_model(br, bs) == Ok::<Column, Error>(array_model(br.leaf_type, rs)));
    match br.leaf_type {
        LeafType::Bool => lemma_rows_cut::<bool>(rs),
        LeafType::I8 => lemma_rows_cut::<i8>(rs),
        LeafType::U8 => lemma_rows_cut::<u8>(rs),
        LeafType::I16 => lemma_rows_cut::<i16>(rs),
        LeafType::U16 => lemma_rows_cut::<u16>(rs),
        LeafType::I32 => lemma_rows_cut::<i32>(rs),
        LeafType::U32 => lemma_rows_cut::<u32>(rs),
        LeafType::I64 => lemma_rows_cut::<i64>(rs),
        LeafType::U64 => lemma_rows_cut::<u64>(rs),
        LeafType::F32 => lemma_rows_cut::<u32>(rs),
        LeafType::F64 => lemma_rows_cut::<u64>(rs),
        LeafType::Str => {},
    }
}

} // verus!
