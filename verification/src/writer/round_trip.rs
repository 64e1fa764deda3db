//! What reading back a written basket gives: the values it was written from.

use vstd::prelude::*;
use vstd::utf8::{decode_utf8, encode_utf8, encode_utf8_decode_utf8, encode_utf8_valid_utf8};
use super::content::{entry_ends, stl_entry, stl_fn, tstring_bytes, tstring_fn};
use crate::basket::Basket;
use crate::codec::{concat_map, i32_at, i32_bytes, lemma_concat_map_append, lemma_concat_map_fixed, lemma_concat_map_prefix, lemma_concat_map_push, lemma_i32_roundtrip, lemma_u16_roundtrip, lemma_u32_roundtrip, u16_at, u16_bytes, u32_at, u32_bytes, u64_bytes};
use crate::basket::{key_strings_end, spec_basket_key, BasketKey};
use super::baskets::{basket_class_bytes, basket_key_len, buffer_of, lemma_offsets_within, nev_buf_size, offset_word_fn, offsets_bytes, record_bytes};
use super::branch::Branch;
use crate::basket::{clamp0, read_back, spec_border, spec_entry_offsets};
use crate::column::{elem_rows, lemma_elems_roundtrip, lemma_row_bytes_layout, row_bytes, row_fn, Elem};
use crate::rbuffer::tstring_at;
use crate::reader::decode::{all_entry_bytes, any_variable, array_model, basket_regions, chunk_model, chunks, decode_model, scalar_model, strings_at, strings_model, strip_headers, total_entries, variable_regions};
use crate::reader::Branch as BranchMeta;
use crate::value::{Column, LeafType};
use crate::column::{elems_of, rows_bytes};
use super::branch::BranchKind;
use super::content::{content_data, content_offsets};
use crate::text::text_of;

verus! {

/// Entry end offsets as buffer offsets.
pub open spec fn ends_usize(e: Seq<u32>) -> Seq<usize> {
    e.map_values(|v: u32| v as usize)
}

/// Entry `i` lies between its end offsets and is `f(x[i])`.
pub proof fn lemma_end_region<T>(x: Seq<T>, f: spec_fn(T) -> Seq<u8>, i: int)
    requires
        0 <= i < x.len(),
        concat_map(x, f).len() <= u32::MAX,
    ensures
        entry_ends(x, f)[i] <= entry_ends(x, f)[i + 1] <= concat_map(x, f).len(),
        entry_ends(x, f)[i + 1] - entry_ends(x, f)[i] == f(x[i]).len(),
        concat_map(x, f).subrange(entry_ends(x, f)[i] as int, entry_ends(x, f)[i + 1] as int) == f(
            x[i],
        ),
{
    lemma_concat_map_prefix(x, i + 1, f);
    lemma_concat_map_prefix(x, i, f);
    lemma_concat_map_push(x.take(i), x[i], f);
    assert(x.take(i).push(x[i]) == x.take(i + 1));
    let a = concat_map(x.take(i), f);
    let b = f(x[i]);
    let c = concat_map(x, f);
    assert(c == (a + b) + concat_map(x.skip(i + 1), f));
    assert(c.subrange(a.len() as int, (a.len() + b.len()) as int) =~= b);
}

/// The regions of a variable basket holding the entries `x`, encoded by
/// `f`, with the entry ends as offsets, are the entries' encodings.
pub proof fn lemma_variable_basket<T>(b: Basket, x: Seq<T>, f: spec_fn(T) -> Seq<u8>)
    requires
        concat_map(x, f).len() <= u32::MAX,
        b.n_entries == x.len(),
        b.border == concat_map(x, f).len(),
        b.data@.len() >= b.border,
        b.data@.subrange(0, b.border as int) == concat_map(x, f),
        b.entry_offsets matches Some(v) && v@ == ends_usize(entry_ends(x, f)),
    ensures
        basket_regions(b) == Some(x.map_values(f)),
{
    let o = b.entry_offsets->0@;
    let rs = Seq::new(b.n_entries as nat, |i: int| crate::reader::decode::entry_region(b, o, i));
    assert forall|i: int| 0 <= i < x.len() implies rs[i] == x.map_values(f)[i] by {
        lemma_end_region(x, f, i);
        let e = entry_ends(x, f);
        assert(o[i] == e[i] as usize);
        assert(o[i + 1] == e[i + 1] as usize);
        assert(b.data@.subrange(e[i] as int, e[i + 1] as int) =~= concat_map(x, f).subrange(
            e[i] as int,
            e[i + 1] as int,
        ));
    }
    assert(rs =~= x.map_values(f));
}

/// Decoding every row's encoding gives back the rows.
pub proof fn lemma_rows_decode<T: Elem>(x: Seq<Seq<T>>)
    ensures
        elem_rows::<T>(x.map_values(row_fn::<T>())) == x,
{
    assert forall|i: int| 0 <= i < x.len() implies #[trigger] elem_rows::<T>(
        x.map_values(row_fn::<T>()),
    )[i] == x[i] by {
        lemma_elems_roundtrip(x[i]);
    }
    assert(elem_rows::<T>(x.map_values(row_fn::<T>())) =~= x);
}

/// A streamed `std::vector` entry without its 10-byte header is its elements.
pub proof fn lemma_stl_body<T: Elem>(row: Seq<T>)
    ensures
        stl_entry::<T>(row).len() >= 10,
        stl_entry::<T>(row).subrange(10, stl_entry::<T>(row).len() as int) == row_bytes(row),
{
    let h = u32_bytes(((6 + row.len() * T::width()) as u32) | crate::writer::content::STL_BYTE_COUNT_MASK)
        + crate::codec::u16_bytes(10u16) + u32_bytes(row.len() as u32);
    assert(h.len() == 10);
    assert(stl_entry::<T>(row) == h + row_bytes(row));
    assert(stl_entry::<T>(row).subrange(10, stl_entry::<T>(row).len() as int) =~= row_bytes(row));
}

/// Rows of `n` values each, encoded one after another, cut into chunks of
/// one row's bytes, are the rows' encodings.
pub proof fn lemma_fixed_chunks<T: Elem>(x: Seq<Seq<T>>, n: nat)
    requires
        n >= 1,
        forall|i: int| 0 <= i < x.len() ==> (#[trigger] x[i]).len() == n,
    ensures
        chunks(concat_map(x, row_fn::<T>()), n * T::width()) == x.map_values(row_fn::<T>()),
{
    let w = T::width();
    T::lemma_width();
    assert forall|i: int| 0 <= i < x.len() implies #[trigger] row_fn::<T>()(x[i]).len() == n * w by {
        lemma_row_bytes_layout(x[i]);
        assert(w * x[i].len() == n * w) by (nonlinear_arith)
            requires
                x[i].len() == n,
        ;
    }
    lemma_concat_map_fixed(x, row_fn::<T>(), n * w);
    let c = concat_map(x, row_fn::<T>());
    assert(n * w >= 1) by (nonlinear_arith)
        requires
            n >= 1,
            w >= 1,
    ;
    assert(c.len() / (n * w) == x.len()) by (nonlinear_arith)
        requires
            c.len() == (n * w) * x.len(),
            n * w >= 1,
    ;
    let ch = chunks(c, n * w);
    assert forall|i: int| 0 <= i < x.len() implies ch[i] == x.map_values(row_fn::<T>())[i] by {
        assert(i * (n * w) == (n * w) * i) by (nonlinear_arith);
    }
    assert(ch =~= x.map_values(row_fn::<T>()));
}

/// Reading `ss.len()` strings from where their `TString` encodings start
/// gives back the strings.
pub proof fn lemma_strings_read(ss: Seq<Seq<char>>, s: Seq<u8>, p: int)
    requires
        0 <= p,
        p + concat_map(ss, tstring_fn()).len() <= s.len(),
        s.subrange(p, p + concat_map(ss, tstring_fn()).len()) == concat_map(ss, tstring_fn()),
        forall|i: int| 0 <= i < ss.len() ==> encode_utf8(#[trigger] ss[i]).len() <= u32::MAX,
    ensures
        strings_at(s, p, ss.len()) == Some(ss),
    decreases ss.len(),
{
    if ss.len() > 0 {
        let first = ss[0];
        let rest = ss.skip(1);
        assert(seq![first] + rest == ss);
        lemma_concat_map_append(seq![first], rest, tstring_fn());
        assert(seq![first].drop_last() == Seq::<Seq<char>>::empty());
        assert(seq![first].last() == first);
        assert(concat_map(Seq::<Seq<char>>::empty(), tstring_fn()) == Seq::<u8>::empty());
        assert(tstring_fn()(first) == tstring_bytes(first));
        assert(concat_map(seq![first], tstring_fn()) =~= tstring_bytes(first));
        let t = tstring_bytes(first);
        let b = encode_utf8(first);
        let cm = concat_map(ss, tstring_fn());
        assert(cm == t + concat_map(rest, tstring_fn()));
        assert(s.subrange(p, p + t.len()) =~= t) by {
            assert(s.subrange(p, p + t.len()) =~= cm.subrange(0, t.len() as int));
        }
        let h: int = if b.len() < 255 { 1 } else { 5 };
        if b.len() < 255 {
            assert(s[p] == t[0]);
        } else {
            assert(s[p] == t[0]);
            assert(t == seq![255u8] + u32_bytes(b.len() as u32) + b);
            assert(t.subrange(1, 5) =~= u32_bytes(b.len() as u32));
            assert(s.subrange(p + 1, p + 5) =~= t.subrange(1, 5));
            lemma_u32_roundtrip(b.len() as u32, s, p + 1);
        }
        assert(tstring_at(s, p) == Some((p + h, p + t.len())));
        assert(t.subrange(h, t.len() as int) =~= b) by {
            if b.len() < 255 {
                assert(t == seq![b.len() as u8] + b);
            } else {
                assert(t == seq![255u8] + u32_bytes(b.len() as u32) + b);
            }
        }
        assert(s.subrange(p + h, p + t.len()) =~= t.subrange(h, t.len() as int));
        encode_utf8_valid_utf8(first);
        encode_utf8_decode_utf8(first);
        assert(text_of(b) == first);
        assert forall|i: int| 0 <= i < rest.len() implies encode_utf8(#[trigger] rest[i]).len() <= u32::MAX by {
            assert(rest[i] == ss[i + 1]);
        }
        let cr = concat_map(rest, tstring_fn());
        assert(s.subrange(p + t.len(), p + t.len() + cr.len()) =~= cr) by {
            assert(s.subrange(p + t.len(), p + t.len() + cr.len()) =~= cm.subrange(
                t.len() as int,
                cm.len() as int,
            ));
        }
        lemma_strings_read(rest, s, p + t.len());
        assert(seq![first] + rest == ss);
    }
}

/// The leaf type a column's values are written with.
pub open spec fn leaf_of(c: Column) -> LeafType {
    match c {
        Column::Bool(_) | Column::VecBool(_) => LeafType::Bool,
        Column::I8(_) | Column::VecI8(_) => LeafType::I8,
        Column::U8(_) | Column::VecU8(_) => LeafType::U8,
        Column::I16(_) | Column::VecI16(_) => LeafType::I16,
        Column::U16(_) | Column::VecU16(_) => LeafType::U16,
        Column::I32(_) | Column::VecI32(_) => LeafType::I32,
        Column::U32(_) | Column::VecU32(_) => LeafType::U32,
        Column::I64(_) | Column::VecI64(_) => LeafType::I64,
        Column::U64(_) | Column::VecU64(_) => LeafType::U64,
        Column::F32(_) | Column::VecF32(_) => LeafType::F32,
        Column::F64(_) | Column::VecF64(_) => LeafType::F64,
        _ => LeafType::Str,
    }
}

/// Every row has `n` elements.
pub open spec fn rows_of_len(l: Seq<int>, n: int) -> bool {
    forall|i: int| 0 <= i < l.len() ==> #[trigger] l[i] == n
}

/// A layout whose basket reads back as written: a `std::vector` of numbers,
/// a jagged array, a fixed array of more than one element per entry (every
/// row the same length), a scalar or a string column.
pub open spec fn reads_back(values: Column, kind: &BranchKind, flen: i32) -> bool {
    &&& !(values is VecStr)
    &&& !(values is Nested)
    &&& !(kind is Split)
    &&& (kind is StlVector ==> values.is_rows() && !(values is VecBool))
    &&& (kind is Jagged ==> values.is_rows())
    &&& (!(kind is StlVector) && !(kind is Jagged) && values.is_rows() ==> flen > 1
        && rows_of_len(values.lens(), flen as int))
    &&& (!values.is_rows() ==> flen <= 1)
}

/// The metadata a reader holds for a branch written with `values` and
/// `kind`, whose leaf records `flen` elements per entry.
pub open spec fn describes(meta: BranchMeta, values: Column, kind: &BranchKind, flen: i32) -> bool {
    &&& meta.leaflist is None
    &&& meta.nested_elem is None
    &&& meta.object_member is None
    &&& meta.leaf_type == leaf_of(values)
    &&& meta.leaf_len == flen
    &&& meta.elem_header == (if kind is StlVector { 10usize } else { 0usize })
}

/// A basket holds a branch's written content: its entries, its entry data
/// before the border, and its entry end offsets (or none, and nothing after
/// the border, for a fixed-size layout).
pub open spec fn holds_content(b: Basket, values: Column, kind: &BranchKind) -> bool {
    let d = content_data(values, kind);
    &&& b.n_entries == values.entries()
    &&& b.border == d.len()
    &&& b.data@.len() >= d.len()
    &&& b.data@.subrange(0, d.len() as int) == d
    &&& match content_offsets(values, kind) {
        None => b.entry_offsets is None && b.data@.len() == d.len(),
        Some(o) => b.entry_offsets matches Some(v) && v@ == ends_usize(o),
    }
}

proof fn lemma_single_variable(b: Basket)
    requires
        basket_regions(b) is Some,
    ensures
        variable_regions(seq![b]) == basket_regions(b),
        any_variable(seq![b]),
{
    assert(seq![b].drop_last() == Seq::<Basket>::empty());
    assert(seq![b].last() == b);
    assert(seq![b][0] == b);
    assert(variable_regions(Seq::<Basket>::empty()) == Some(Seq::<Seq<u8>>::empty()));
    assert(Seq::<Seq<u8>>::empty() + basket_regions(b)->0 == basket_regions(b)->0);
}

proof fn lemma_single_fixed(b: Basket)
    requires
        b.entry_offsets is None,
        b.wf(),
    ensures
        !any_variable(seq![b]),
        all_entry_bytes(seq![b]) == b.entry_bytes(),
        total_entries(seq![b]) == b.n_entries,
        forall|w: nat| chunk_model(seq![b], w) == chunks(b.entry_bytes(), w),
{
    assert(seq![b].drop_last() == Seq::<Basket>::empty());
    assert(seq![b].last() == b);
    assert(seq![b][0] == b);
    assert(all_entry_bytes(Seq::<Basket>::empty()) == Seq::<u8>::empty());
    assert(total_entries(Seq::<Basket>::empty()) == 0);
    assert(Seq::<u8>::empty() + b.entry_bytes() == b.entry_bytes());
    assert forall|w: nat| chunk_model(seq![b], w) == chunks(b.entry_bytes(), w) by {
        assert(chunk_model(Seq::<Basket>::empty(), w) == Seq::<Seq<u8>>::empty());
        assert(Seq::<Seq<u8>>::empty() + chunks(b.entry_bytes(), w) == chunks(b.entry_bytes(), w));
    }
}

proof fn lemma_jagged_rows<T: Elem>(b: Basket, r: Seq<Seq<T>>)
    requires
        concat_map(r, row_fn::<T>()).len() <= u32::MAX,
        b.n_entries == r.len(),
        b.border == concat_map(r, row_fn::<T>()).len(),
        b.data@.len() >= b.border,
        b.data@.subrange(0, b.border as int) == concat_map(r, row_fn::<T>()),
        b.entry_offsets matches Some(v) && v@ == ends_usize(entry_ends(r, row_fn::<T>())),
    ensures
        variable_regions(seq![b]) == Some(r.map_values(row_fn::<T>())),
        any_variable(seq![b]),
        strip_headers(r.map_values(row_fn::<T>()), 0) == r.map_values(row_fn::<T>()),
        elem_rows::<T>(r.map_values(row_fn::<T>())) == r,
{
    lemma_variable_basket(b, r, row_fn::<T>());
    lemma_single_variable(b);
    lemma_rows_decode(r);
    let rs = r.map_values(row_fn::<T>());
    assert forall|i: int| 0 <= i < rs.len() implies #[trigger] strip_headers(rs, 0)[i] == rs[i] by {
        assert(rs[i].subrange(0, rs[i].len() as int) =~= rs[i]);
    }
    assert(strip_headers(rs, 0) =~= rs);
}

proof fn lemma_stl_rows<T: Elem>(b: Basket, r: Seq<Seq<T>>)
    requires
        concat_map(r, stl_fn::<T>()).len() <= u32::MAX,
        b.n_entries == r.len(),
        b.border == concat_map(r, stl_fn::<T>()).len(),
        b.data@.len() >= b.border,
        b.data@.subrange(0, b.border as int) == concat_map(r, stl_fn::<T>()),
        b.entry_offsets matches Some(v) && v@ == ends_usize(entry_ends(r, stl_fn::<T>())),
    ensures
        variable_regions(seq![b]) == Some(r.map_values(stl_fn::<T>())),
        any_variable(seq![b]),
        strip_headers(r.map_values(stl_fn::<T>()), 10) == r.map_values(row_fn::<T>()),
        elem_rows::<T>(r.map_values(row_fn::<T>())) == r,
{
    lemma_variable_basket(b, r, stl_fn::<T>());
    lemma_single_variable(b);
    lemma_rows_decode(r);
    assert forall|i: int| 0 <= i < r.len() implies #[trigger] strip_headers(
        r.map_values(stl_fn::<T>()),
        10,
    )[i] == r.map_values(row_fn::<T>())[i] by {
        lemma_stl_body(r[i]);
    }
    assert(strip_headers(r.map_values(stl_fn::<T>()), 10) =~= r.map_values(row_fn::<T>()));
}

proof fn lemma_fixed_rows<T: Elem>(b: Basket, r: Seq<Seq<T>>, n: nat)
    requires
        n >= 1,
        forall|i: int| 0 <= i < r.len() ==> (#[trigger] r[i]).len() == n,
        b.entry_offsets is None,
        b.wf(),
        b.entry_bytes() == concat_map(r, row_fn::<T>()),
    ensures
        !any_variable(seq![b]),
        chunk_model(seq![b], n * T::width()) == r.map_values(row_fn::<T>()),
        elem_rows::<T>(r.map_values(row_fn::<T>())) == r,
{
    lemma_single_fixed(b);
    lemma_fixed_chunks(r, n);
    lemma_rows_decode(r);
}

proof fn lemma_scalar_elems<T: Elem>(b: Basket, x: Seq<T>)
    requires
        b.entry_offsets is None,
        b.wf(),
        b.n_entries == x.len(),
        b.entry_bytes() == row_bytes(x),
    ensures
        !any_variable(seq![b]),
        all_entry_bytes(seq![b]) == row_bytes(x),
        all_entry_bytes(seq![b]).len() == total_entries(seq![b]) * T::width(),
        elems_of::<T>(row_bytes(x)) == x,
{
    lemma_single_fixed(b);
    lemma_row_bytes_layout(x);
    lemma_elems_roundtrip(x);
}

/// Decoding the basket that holds a branch's written content, with the
/// metadata a reader holds for that branch, gives back the branch's values.
#[verifier::spinoff_prover]
#[verifier::rlimit(100)]
pub proof fn lemma_decode_written(values: Column, kind: &BranchKind, flen: i32, meta: BranchMeta, b: Basket)
    requires
        reads_back(values, kind, flen),
        describes(meta, values, kind, flen),
        holds_content(b, values, kind),
        content_data(values, kind).len() <= u32::MAX,
    ensures
        decode_model(meta, seq![b]) == Ok::<Column, crate::error::Error>(values),
{
    match values {
        Column::Bool(x) => {
            lemma_scalar_elems::<bool>(b, x);
        },
        Column::I8(x) => {
            lemma_scalar_elems::<i8>(b, x);
        },
        Column::U8(x) => {
            lemma_scalar_elems::<u8>(b, x);
        },
        Column::I16(x) => {
            lemma_scalar_elems::<i16>(b, x);
        },
        Column::U16(x) => {
            lemma_scalar_elems::<u16>(b, x);
        },
        Column::I32(x) => {
            lemma_scalar_elems::<i32>(b, x);
        },
        Column::U32(x) => {
            lemma_scalar_elems::<u32>(b, x);
        },
        Column::I64(x) => {
            lemma_scalar_elems::<i64>(b, x);
        },
        Column::U64(x) => {
            lemma_scalar_elems::<u64>(b, x);
        },
        Column::F32(x) => {
            lemma_scalar_elems::<u32>(b, x);
        },
        Column::F64(x) => {
            lemma_scalar_elems::<u64>(b, x);
        },
        Column::VecBool(r) => {
            if kind is Jagged {
                lemma_jagged_rows::<bool>(b, r);
            } else {
                assert forall|i: int| 0 <= i < r.len() implies (#[trigger] r[i]).len() == flen as nat by {
                    assert(values.lens()[i] == flen);
                }
                lemma_fixed_rows::<bool>(b, r, flen as nat);
            }
        },
        Column::VecI8(r) => {
            if kind is StlVector {
                lemma_stl_rows::<i8>(b, r);
            } else if kind is Jagged {
                lemma_jagged_rows::<i8>(b, r);
            } else {
                assert forall|i: int| 0 <= i < r.len() implies (#[trigger] r[i]).len() == flen as nat by {
                    assert(values.lens()[i] == flen);
                }
                lemma_fixed_rows::<i8>(b, r, flen as nat);
            }
        },
        Column::VecU8(r) => {
            if kind is StlVector {
                lemma_stl_rows::<u8>(b, r);
            } else if kind is Jagged {
                lemma_jagged_rows::<u8>(b, r);
            } else {
                assert forall|i: int| 0 <= i < r.len() implies (#[trigger] r[i]).len() == flen as nat by {
                    assert(values.lens()[i] == flen);
                }
                lemma_fixed_rows::<u8>(b, r, flen as nat);
            }
        },
        Column::VecI16(r) => {
            if kind is StlVector {
                lemma_stl_rows::<i16>(b, r);
            } else if kind is Jagged {
                lemma_jagged_rows::<i16>(b, r);
            } else {
                assert forall|i: int| 0 <= i < r.len() implies (#[trigger] r[i]).len() == flen as nat by {
                    assert(values.lens()[i] == flen);
                }
                lemma_fixed_rows::<i16>(b, r, flen as nat);
            }
        },
        Column::VecU16(r) => {
            if kind is StlVector {
                lemma_stl_rows::<u16>(b, r);
            } else if kind is Jagged {
                lemma_jagged_rows::<u16>(b, r);
            } else {
                assert forall|i: int| 0 <= i < r.len() implies (#[trigger] r[i]).len() == flen as nat by {
                    assert(values.lens()[i] == flen);
                }
                lemma_fixed_rows::<u16>(b, r, flen as nat);
            }
        },
        Column::VecI32(r) => {
            if kind is StlVector {
                lemma_stl_rows::<i32>(b, r);
            } else if kind is Jagged {
                lemma_jagged_rows::<i32>(b, r);
            } else {
                assert forall|i: int| 0 <= i < r.len() implies (#[trigger] r[i]).len() == flen as nat by {
                    assert(values.lens()[i] == flen);
                }
                lemma_fixed_rows::<i32>(b, r, flen as nat);
            }
        },
        Column::VecU32(r) => {
            if kind is StlVector {
                lemma_stl_rows::<u32>(b, r);
            } else if kind is Jagged {
                lemma_jagged_rows::<u32>(b, r);
            } else {
                assert forall|i: int| 0 <= i < r.len() implies (#[trigger] r[i]).len() == flen as nat by {
                    assert(values.lens()[i] == flen);
                }
                lemma_fixed_rows::<u32>(b, r, flen as nat);
            }
        },
        Column::VecI64(r) => {
            if kind is StlVector {
                lemma_stl_rows::<i64>(b, r);
            } else if kind is Jagged {
                lemma_jagged_rows::<i64>(b, r);
            } else {
                assert forall|i: int| 0 <= i < r.len() implies (#[trigger] r[i]).len() == flen as nat by {
                    assert(values.lens()[i] == flen);
                }
                lemma_fixed_rows::<i64>(b, r, flen as nat);
            }
        },
        Column::VecU64(r) => {
            if kind is StlVector {
                lemma_stl_rows::<u64>(b, r);
            } else if kind is Jagged {
                lemma_jagged_rows::<u64>(b, r);
            } else {
                assert forall|i: int| 0 <= i < r.len() implies (#[trigger] r[i]).len() == flen as nat by {
                    assert(values.lens()[i] == flen);
                }
                lemma_fixed_rows::<u64>(b, r, flen as nat);
            }
        },
        Column::VecF32(r) => {
            if kind is StlVector {
                lemma_stl_rows::<u32>(b, r);
            } else if kind is Jagged {
                lemma_jagged_rows::<u32>(b, r);
            } else {
                assert forall|i: int| 0 <= i < r.len() implies (#[trigger] r[i]).len() == flen as nat by {
                    assert(values.lens()[i] == flen);
                }
                lemma_fixed_rows::<u32>(b, r, flen as nat);
            }
        },
        Column::VecF64(r) => {
            if kind is StlVector {
                lemma_stl_rows::<u64>(b, r);
            } else if kind is Jagged {
                lemma_jagged_rows::<u64>(b, r);
            } else {
                assert forall|i: int| 0 <= i < r.len() implies (#[trigger] r[i]).len() == flen as nat by {
                    assert(values.lens()[i] == flen);
                }
                lemma_fixed_rows::<u64>(b, r, flen as nat);
            }
        },
        Column::Str(ss) => {
            let cm = concat_map(ss, tstring_fn());
            assert forall|i: int| 0 <= i < ss.len() implies encode_utf8(#[trigger] ss[i]).len()
                <= u32::MAX by {
                lemma_end_region(ss, tstring_fn(), i);
            }
            assert(b.entry_bytes().subrange(0, cm.len() as int) =~= cm);
            lemma_strings_read(ss, b.entry_bytes(), 0);
            assert(seq![b].drop_last() == Seq::<Basket>::empty());
            assert(seq![b].last() == b);
            assert(strings_model(Seq::<Basket>::empty()) == Some(Seq::<Seq<char>>::empty()));
            assert(Seq::<Seq<char>>::empty() + ss == ss);
        },
        _ => {},
    }
}

/// A `TString` encoding of `t` at byte `p` reads back as `t`'s bytes.
pub proof fn lemma_tstring_at(s: Seq<u8>, p: int, t: Seq<char>)
    requires
        0 <= p,
        p + tstring_bytes(t).len() <= s.len(),
        s.subrange(p, p + tstring_bytes(t).len()) == tstring_bytes(t),
        encode_utf8(t).len() <= u32::MAX,
    ensures
        tstring_at(s, p) == Some(
            ((p + if encode_utf8(t).len() < 255 { 1int } else { 5int }), p + tstring_bytes(t).len()),
        ),
        s.subrange(p + if encode_utf8(t).len() < 255 { 1int } else { 5int }, p + tstring_bytes(t).len())
            == encode_utf8(t),
{
    let ts = tstring_bytes(t);
    let b = encode_utf8(t);
    let h: int = if b.len() < 255 { 1 } else { 5 };
    assert(s[p] == ts[0]);
    if b.len() >= 255 {
        assert(ts == seq![255u8] + u32_bytes(b.len() as u32) + b);
        assert(ts.subrange(1, 5) =~= u32_bytes(b.len() as u32));
        assert(s.subrange(p + 1, p + 5) =~= ts.subrange(1, 5));
        lemma_u32_roundtrip(b.len() as u32, s, p + 1);
    }
    assert(ts.subrange(h, ts.len() as int) =~= b) by {
        if b.len() < 255 {
            assert(ts == seq![b.len() as u8] + b);
        } else {
            assert(ts == seq![255u8] + u32_bytes(b.len() as u32) + b);
        }
    }
    assert(s.subrange(p + h, p + ts.len()) =~= ts.subrange(h, ts.len() as int));
}

/// The key a basket record is written with.
pub open spec fn written_key(klen: u32, n_entries: u32, f_last: u32, obj_len: u32, payload_len: nat) -> BasketKey {
    BasketKey {
        record_len: (klen + payload_len) as u32,
        obj_len,
        key_len: klen as u16,
        n_entries,
        last: f_last,
    }
}

/// The key header of a basket record parses back to the key it was written
/// with, and the payload follows the key.
#[verifier::spinoff_prover]
#[verifier::rlimit(100)]
pub proof fn lemma_record_key(
    klen: u32,
    obj_len: u32,
    datime: u32,
    seek: u64,
    seek_pdir: u64,
    name: Seq<char>,
    tree: Seq<char>,
    nev: i32,
    n_entries: u32,
    f_last: u32,
    payload: Seq<u8>,
)
    requires
        klen == basket_key_len(name, tree),
        klen <= u16::MAX,
        klen + payload.len() <= i32::MAX,
        n_entries <= i32::MAX,
        f_last <= i32::MAX,
        encode_utf8(name).len() <= u32::MAX,
        encode_utf8(tree).len() <= u32::MAX,
    ensures
        ({
            let rec = record_bytes(klen, obj_len, datime, seek, seek_pdir, name, tree, nev, n_entries, f_last, payload);
            &&& rec.len() == klen + payload.len()
            &&& rec.subrange(klen as int, rec.len() as int) == payload
            &&& spec_basket_key(rec) == Some(written_key(klen, n_entries, f_last, obj_len, payload.len()))
        }),
{
    let rec = record_bytes(klen, obj_len, datime, seek, seek_pdir, name, tree, nev, n_entries, f_last, payload);
    let tn = tstring_bytes(name);
    let tt = tstring_bytes(tree);
    let nbytes = (klen + payload.len()) as u32 as i32;
    let head = i32_bytes(nbytes) + u16_bytes(1004u16) + u32_bytes(obj_len) + u32_bytes(datime)
        + u16_bytes(klen as u16) + u16_bytes(0u16) + u64_bytes(seek) + u64_bytes(seek_pdir);
    assert(head.len() == 34);
    let a: int = tn.len() as int;
    let e: int = 42 + a + tt.len();
    let tail = u16_bytes(3u16) + i32_bytes(32000i32) + i32_bytes(nev) + i32_bytes(n_entries as i32)
        + i32_bytes(f_last as i32) + seq![0u8];
    assert(tail.len() == 19);
    assert(rec == head + basket_class_bytes() + tn + tt + tail + payload);
    assert(e + 19 == klen);
    assert(rec.len() == klen + payload.len());
    assert(rec.subrange(klen as int, rec.len() as int) =~= payload);
    // fixed fields
    assert(rec.subrange(0, 4) =~= i32_bytes(nbytes));
    lemma_i32_roundtrip(nbytes, rec, 0);
    assert(rec.subrange(4, 6) =~= u16_bytes(1004u16));
    lemma_u16_roundtrip(1004u16, rec, 4);
    assert(rec.subrange(6, 10) =~= u32_bytes(obj_len));
    lemma_u32_roundtrip(obj_len, rec, 6);
    assert(rec.subrange(14, 16) =~= u16_bytes(klen as u16));
    lemma_u16_roundtrip(klen as u16, rec, 14);
    // the three strings
    assert(rec[34] == 7u8);
    assert(tstring_at(rec, 34) == Some((35int, 42int)));
    assert(rec.subrange(42, 42 + a) =~= tn);
    lemma_tstring_at(rec, 42, name);
    assert(rec.subrange(42 + a, e) =~= tt);
    lemma_tstring_at(rec, 42 + a, tree);
    assert(key_strings_end(rec) == Some(e));
    // the basket fields
    assert(rec.subrange(e + 10, e + 14) =~= i32_bytes(n_entries as i32));
    lemma_i32_roundtrip(n_entries as i32, rec, e + 10);
    assert(rec.subrange(e + 14, e + 18) =~= i32_bytes(f_last as i32));
    lemma_i32_roundtrip(f_last as i32, rec, e + 14);
    assert((klen + payload.len()) as u32 as i32 == klen + payload.len());
}

proof fn lemma_ends_shape<T>(x: Seq<T>, f: spec_fn(T) -> Seq<u8>)
    requires
        concat_map(x, f).len() <= u32::MAX,
    ensures
        entry_ends(x, f).len() == x.len() + 1,
        entry_ends(x, f)[x.len() as int] == concat_map(x, f).len(),
{
    assert(x.take(x.len() as int) == x);
}

/// A branch's entry end offsets, one per entry and one more, end at the end
/// of its entry data.
pub proof fn lemma_offsets_shape(values: Column, kind: &BranchKind)
    requires
        content_data(values, kind).len() <= u32::MAX,
        !(values is VecStr),
        !(values is Nested),
        kind is StlVector ==> values.is_rows() && !(values is VecBool),
        kind is Jagged ==> values.is_rows(),
    ensures
        content_offsets(values, kind) matches Some(o) ==> o.len() == values.entries() + 1 && o[o.len()
            - 1] == content_data(values, kind).len(),
{
    if kind is StlVector {
        match values {
            Column::VecI8(r) => lemma_ends_shape(r, stl_fn::<i8>()),
            Column::VecU8(r) => lemma_ends_shape(r, stl_fn::<u8>()),
            Column::VecI16(r) => lemma_ends_shape(r, stl_fn::<i16>()),
            Column::VecU16(r) => lemma_ends_shape(r, stl_fn::<u16>()),
            Column::VecI32(r) => lemma_ends_shape(r, stl_fn::<i32>()),
            Column::VecU32(r) => lemma_ends_shape(r, stl_fn::<u32>()),
            Column::VecI64(r) => lemma_ends_shape(r, stl_fn::<i64>()),
            Column::VecU64(r) => lemma_ends_shape(r, stl_fn::<u64>()),
            Column::VecF32(r) => lemma_ends_shape(r, stl_fn::<u32>()),
            Column::VecF64(r) => lemma_ends_shape(r, stl_fn::<u64>()),
            _ => {},
        }
    } else if values is Str {
        lemma_ends_shape(values->Str_0, tstring_fn());
    } else if kind is Jagged {
        match values {
            Column::VecBool(r) => lemma_ends_shape(r, row_fn::<bool>()),
            Column::VecI8(r) => lemma_ends_shape(r, row_fn::<i8>()),
            Column::VecU8(r) => lemma_ends_shape(r, row_fn::<u8>()),
            Column::VecI16(r) => lemma_ends_shape(r, row_fn::<i16>()),
            Column::VecU16(r) => lemma_ends_shape(r, row_fn::<u16>()),
            Column::VecI32(r) => lemma_ends_shape(r, row_fn::<i32>()),
            Column::VecU32(r) => lemma_ends_shape(r, row_fn::<u32>()),
            Column::VecI64(r) => lemma_ends_shape(r, row_fn::<i64>()),
            Column::VecU64(r) => lemma_ends_shape(r, row_fn::<u64>()),
            Column::VecF32(r) => lemma_ends_shape(r, row_fn::<u32>()),
            Column::VecF64(r) => lemma_ends_shape(r, row_fn::<u64>()),
            _ => {},
        }
    }
}

/// The `fEntryOffset` array written after the entry data reads back as the
/// entry end offsets.
#[verifier::spinoff_prover]
pub proof fn lemma_offsets_read(o: Seq<u32>, klen: u32, n: u32, border: int)
    requires
        o.len() == n + 1,
        n + 1 <= i32::MAX,
        klen <= u16::MAX,
        0 <= border,
        border + klen <= i32::MAX,
        forall|i: int| 0 <= i < o.len() ==> #[trigger] o[i] <= border,
        o[n as int] == border,
    ensures
        spec_entry_offsets(offsets_bytes(o, klen), klen as u16, n, border) == Some(ends_usize(o)),
{
    let t = offsets_bytes(o, klen);
    let f = offset_word_fn(klen);
    let body = concat_map(o, f);
    assert forall|i: int| 0 <= i < o.len() implies #[trigger] f(o[i]).len() == 4 by {}
    lemma_concat_map_fixed(o, f, 4);
    assert(t == i32_bytes(o.len() as i32) + body);
    assert(t.subrange(0, 4) =~= i32_bytes(o.len() as i32));
    lemma_i32_roundtrip(o.len() as i32, t, 0);
    assert(clamp0(i32_at(t, 0)) == o.len());
    let want = Seq::new(
        n as nat,
        |i: int|
            {
                let raw = i32_at(t, 4 + 4 * i) - klen as u16;
                (if raw < 0 {
                    0
                } else if raw > border {
                    border
                } else {
                    raw
                }) as usize
            },
    ).push(border as usize);
    assert forall|i: int| 0 <= i < want.len() implies want[i] == ends_usize(o)[i] by {
        if i < n {
            assert(body.subrange(4 * i, 4 * i + 4) == f(o[i]));
            assert(t.subrange(4 + 4 * i, 4 + 4 * i + 4) =~= body.subrange(4 * i, 4 * i + 4));
            lemma_i32_roundtrip((o[i] + klen) as u32 as i32, t, 4 + 4 * i);
        }
    }
    assert(want =~= ends_usize(o));
}

/// A basket written for a branch, its key parsed back and its buffer read
/// back, decodes to the branch's values: for a scalar, a fixed-size array of
/// more than one element per entry, a jagged array, a `std::vector` of
/// numbers or a string branch, whose sizes fit the record's 32-bit fields.
#[verifier::spinoff_prover]
#[verifier::rlimit(50)]
pub proof fn lemma_basket_round_trip(
    wb: &Branch,
    tree: Seq<char>,
    datime: u32,
    seek: u64,
    seek_pdir: u64,
    meta: BranchMeta,
    b: Basket,
)
    requires
        reads_back(wb.values_of(), wb.kind_of(), wb.spec_flen()),
        describes(meta, wb.values_of(), wb.kind_of(), wb.spec_flen()),
        encode_utf8(wb.name_of()).len() <= u32::MAX,
        encode_utf8(tree).len() <= u32::MAX,
        basket_key_len(wb.name_of(), tree) <= u16::MAX,
        basket_key_len(wb.name_of(), tree) + buffer_of(
            wb.values_of(),
            wb.kind_of(),
            basket_key_len(wb.name_of(), tree) as u32,
        ).len() <= i32::MAX,
        wb.values_of().entries() < i32::MAX,
        ({
            let klen = basket_key_len(wb.name_of(), tree) as u32;
            let buffer = buffer_of(wb.values_of(), wb.kind_of(), klen);
            let border = content_data(wb.values_of(), wb.kind_of()).len();
            read_back(
                written_key(klen, wb.values_of().entries() as u32, (klen + border) as u32, buffer.len() as u32, buffer.len()),
                buffer,
                b,
            )
        }),
    ensures
        ({
            let klen = basket_key_len(wb.name_of(), tree) as u32;
            let buffer = buffer_of(wb.values_of(), wb.kind_of(), klen);
            let border = content_data(wb.values_of(), wb.kind_of()).len();
            let rec = record_bytes(
                klen,
                buffer.len() as u32,
                datime,
                seek,
                seek_pdir,
                wb.name_of(),
                tree,
                nev_buf_size(wb.spec_kind(), wb.spec_flen(), crate::writer::layout::base_leaf(wb.values_of()).2 as i32),
                wb.values_of().entries() as u32,
                (klen + border) as u32,
                buffer,
            );
            &&& spec_basket_key(rec) == Some(
                written_key(klen, wb.values_of().entries() as u32, (klen + border) as u32, buffer.len() as u32, buffer.len()),
            )
            &&& rec.subrange(klen as int, rec.len() as int) == buffer
            &&& decode_model(meta, seq![b]) == Ok::<Column, crate::error::Error>(wb.values_of())
        }),
{
    let values = wb.values_of();
    let kind = wb.kind_of();
    let klen = basket_key_len(wb.name_of(), tree) as u32;
    let buffer = buffer_of(values, kind, klen);
    let d = content_data(values, kind);
    let border = d.len();
    let n = values.entries() as u32;
    lemma_record_key(
        klen,
        buffer.len() as u32,
        datime,
        seek,
        seek_pdir,
        wb.name_of(),
        tree,
        nev_buf_size(wb.spec_kind(), wb.spec_flen(), crate::writer::layout::base_leaf(values).2 as i32),
        n,
        (klen + border) as u32,
        buffer,
    );
    lemma_offsets_within(values, kind);
    lemma_offsets_shape(values, kind);
    let key = written_key(klen, n, (klen + border) as u32, buffer.len() as u32, buffer.len());
    assert(spec_border(key.last, key.key_len, buffer.len()) == border);
    assert(buffer.subrange(0, border as int) =~= d);
    match content_offsets(values, kind) {
        None => {
            assert(buffer =~= d);
        },
        Some(o) => {
            let t = offsets_bytes(o, klen);
            assert(buffer == d + t);
            assert(buffer.subrange(border as int, buffer.len() as int) =~= t);
            lemma_offsets_read(o, klen, n, border as int);
        },
    }
    assert(holds_content(b, values, kind));
    lemma_decode_written(values, kind, wb.spec_flen(), meta, b);
}

} // verus!
