//! The uncompressed contents of a branch's basket: its entry data and, for
//! variable-length branches, the offset at which each entry ends.

use vstd::prelude::*;
use vstd::utf8::encode_utf8;
use super::branch::{Branch, BranchKind};
use crate::codec::{concat_map, lemma_concat_map_prefix, lemma_concat_map_push, put_u16, put_u32, u16_bytes, u32_bytes};
use crate::column::{lemma_row_bytes_layout, row_bytes, row_fn, rows_bytes, write_elems, write_rows, Elem};
use crate::value::{rows, texts, BranchValues, Column};

verus! {

/// `kByteCountMask`, flagging the leading word of a streamed collection.
pub const STL_BYTE_COUNT_MASK: u32 = 0x4000_0000;

/// The bytes a string is stored as in a `TLeafC` entry: a length byte (or 255
/// and a big-endian `u32` length), then the UTF-8 bytes.
pub open spec fn tstring_bytes(s: Seq<char>) -> Seq<u8> {
    let b = encode_utf8(s);
    if b.len() < 255 {
        seq![b.len() as u8] + b
    } else {
        seq![255u8] + u32_bytes(b.len() as u32) + b
    }
}

/// How a string entry is encoded.
pub open spec fn tstring_fn() -> spec_fn(Seq<char>) -> Seq<u8> {
    |s: Seq<char>| tstring_bytes(s)
}

/// One `std::vector<T>` entry as ROOT streams it: a masked byte count (of
/// what follows it), the collection version 10, the element count, then the
/// elements.
pub open spec fn stl_entry<T: Elem>(row: Seq<T>) -> Seq<u8> {
    u32_bytes(((6 + row.len() * T::width()) as u32) | STL_BYTE_COUNT_MASK) + u16_bytes(10u16)
        + u32_bytes(row.len() as u32) + row_bytes(row)
}

/// How a `std::vector<T>` entry is encoded.
pub open spec fn stl_fn<T: Elem>() -> spec_fn(Seq<T>) -> Seq<u8> {
    |row: Seq<T>| stl_entry::<T>(row)
}

/// The offset at which the first `i` entries end, for `i` from 0 to the entry count.
pub open spec fn entry_ends<T>(x: Seq<T>, f: spec_fn(T) -> Seq<u8>) -> Seq<u32> {
    Seq::new(x.len() + 1, |i: int| concat_map(x.take(i), f).len() as u32)
}

proof fn lemma_entry_ends_step<T>(x: Seq<T>, i: int, f: spec_fn(T) -> Seq<u8>)
    requires
        0 <= i < x.len(),
    ensures
        entry_ends(x.take(i + 1), f) == entry_ends(x.take(i), f).push(
            concat_map(x.take(i + 1), f).len() as u32,
        ),
        concat_map(x.take(i + 1), f) == concat_map(x.take(i), f) + f(x[i]),
{
    let a = entry_ends(x.take(i + 1), f);
    let b = entry_ends(x.take(i), f).push(concat_map(x.take(i + 1), f).len() as u32);
    assert forall|j: int| 0 <= j < a.len() implies a[j] == b[j] by {
        if j <= i {
            assert(x.take(i + 1).take(j) =~= x.take(i).take(j));
        } else {
            assert(x.take(i + 1).take(j) =~= x.take(i + 1));
        }
    }
    assert(a =~= b);
    assert(x.take(i).push(x[i]) =~= x.take(i + 1));
    lemma_concat_map_push(x.take(i), x[i], f);
}

/// Entry data and end offsets of `std::vector<T>` rows.
fn stl_content<T: Elem>(r: &Vec<Vec<T>>) -> (out: (Vec<u8>, Vec<u32>))
    requires
        concat_map(rows(r@), stl_fn::<T>()).len() <= u32::MAX,
    ensures
        out.0@ == concat_map(rows(r@), stl_fn::<T>()),
        out.1@ == entry_ends(rows(r@), stl_fn::<T>()),
{
    let ghost rs = rows(r@);
    let w = T::size();
    proof {
        T::lemma_width();
    }
    let mut data: Vec<u8> = Vec::new();
    let mut offsets: Vec<u32> = Vec::new();
    offsets.push(0);
    proof {
        assert(rs.take(0) =~= Seq::<Seq<T>>::empty());
        assert(offsets@ =~= entry_ends(rs.take(0), stl_fn::<T>()));
    }
    let mut i: usize = 0;
    while i < r.len()
        invariant
            i <= r@.len(),
            rs == rows(r@),
            w == T::width(),
            1 <= w <= 8,
            concat_map(rs, stl_fn::<T>()).len() <= u32::MAX,
            data@ == concat_map(rs.take(i as int), stl_fn::<T>()),
            offsets@ == entry_ends(rs.take(i as int), stl_fn::<T>()),
        decreases r@.len() - i,
    {
        proof {
            lemma_entry_ends_step(rs, i as int, stl_fn::<T>());
            lemma_concat_map_prefix(rs, i + 1, stl_fn::<T>());
            lemma_row_bytes_layout(rs[i as int]);
            assert(rs[i as int] == r@[i as int]@);
        }
        let row = &r[i];
        let n = row.len();
        proof {
            assert(rs[i as int].len() == n);
            assert(stl_entry::<T>(rs[i as int]).len() == 10 + w * n);
            assert(concat_map(rs.take(i + 1), stl_fn::<T>()).len() <= u32::MAX);
            assert(stl_fn::<T>()(rs[i as int]) == stl_entry::<T>(rs[i as int]));
            assert(10 + w * n <= u32::MAX);
            assert(n <= w * n) by (nonlinear_arith)
                requires
                    w >= 1,
            ;
        }
        let nn = n as u32;
        assert((w as u32) * nn == w * n);
        let bc: u32 = (6 + (w as u32) * nn) | STL_BYTE_COUNT_MASK;
        put_u32(&mut data, bc);
        put_u16(&mut data, 10u16);
        put_u32(&mut data, nn);
        write_elems(&mut data, row.as_slice());
        let end = data.len() as u32;
        offsets.push(end);
        i += 1;
        proof {
            assert(data@ =~= concat_map(rs.take(i as int), stl_fn::<T>()));
        }
    }
    proof {
        assert(rs.take(rs.len() as int) =~= rs);
    }
    (data, offsets)
}

/// End offsets of numeric rows written one after another.
fn row_ends<T: Elem>(r: &Vec<Vec<T>>) -> (out: Vec<u32>)
    requires
        rows_bytes(rows(r@)).len() <= u32::MAX,
    ensures
        out@ == entry_ends(rows(r@), row_fn::<T>()),
{
    let ghost rs = rows(r@);
    let w = T::size();
    proof {
        T::lemma_width();
    }
    let mut acc: u32 = 0;
    let mut offsets: Vec<u32> = Vec::new();
    offsets.push(0);
    proof {
        assert(rs.take(0) =~= Seq::<Seq<T>>::empty());
        assert(offsets@ =~= entry_ends(rs.take(0), row_fn::<T>()));
    }
    let mut i: usize = 0;
    while i < r.len()
        invariant
            i <= r@.len(),
            rs == rows(r@),
            w == T::width(),
            1 <= w <= 8,
            concat_map(rs, row_fn::<T>()).len() <= u32::MAX,
            acc == concat_map(rs.take(i as int), row_fn::<T>()).len(),
            offsets@ == entry_ends(rs.take(i as int), row_fn::<T>()),
        decreases r@.len() - i,
    {
        proof {
            lemma_entry_ends_step(rs, i as int, row_fn::<T>());
            lemma_concat_map_prefix(rs, i + 1, row_fn::<T>());
            lemma_row_bytes_layout(rs[i as int]);
            assert(rs[i as int] == r@[i as int]@);
        }
        let n = r[i].len();
        proof {
            assert(rs[i as int].len() == n);
            assert(row_fn::<T>()(rs[i as int]) == row_bytes(rs[i as int]));
            assert(concat_map(rs.take(i + 1), row_fn::<T>()).len() == acc + w * n);
            assert(concat_map(rs.take(i + 1), row_fn::<T>()).len() <= u32::MAX);
            assert(n <= w * n) by (nonlinear_arith)
                requires
                    w >= 1,
            ;
        }
        let nn = n as u32;
        assert((w as u32) * nn == w * n);
        acc = acc + (w as u32) * nn;
        offsets.push(acc);
        i += 1;
    }
    proof {
        assert(rs.take(rs.len() as int) =~= rs);
    }
    offsets
}

/// Every byte of `x` encodes to itself.
pub proof fn lemma_u8_row_bytes(x: Seq<u8>)
    ensures
        row_bytes(x) == x,
    decreases x.len(),
{
    if x.len() > 0 {
        lemma_u8_row_bytes(x.drop_last());
        assert(x.drop_last().push(x.last()) =~= x);
        assert(row_bytes(x) =~= x);
    }
}

/// Entry data and end offsets of `TLeafC` strings.
fn string_content(v: &Vec<String>) -> (out: (Vec<u8>, Vec<u32>))
    requires
        concat_map(texts(v@), tstring_fn()).len() <= u32::MAX,
    ensures
        out.0@ == concat_map(texts(v@), tstring_fn()),
        out.1@ == entry_ends(texts(v@), tstring_fn()),
{
    let ghost ss = texts(v@);
    let mut data: Vec<u8> = Vec::new();
    let mut offsets: Vec<u32> = Vec::new();
    offsets.push(0);
    proof {
        assert(ss.take(0) =~= Seq::<Seq<char>>::empty());
        assert(offsets@ =~= entry_ends(ss.take(0), tstring_fn()));
    }
    let mut i: usize = 0;
    while i < v.len()
        invariant
            i <= v@.len(),
            ss == texts(v@),
            concat_map(ss, tstring_fn()).len() <= u32::MAX,
            data@ == concat_map(ss.take(i as int), tstring_fn()),
            offsets@ == entry_ends(ss.take(i as int), tstring_fn()),
        decreases v@.len() - i,
    {
        proof {
            lemma_entry_ends_step(ss, i as int, tstring_fn());
            lemma_concat_map_prefix(ss, i + 1, tstring_fn());
            assert(ss[i as int] == v@[i as int]@);
        }
        let b = v[i].as_str().as_bytes();
        if b.len() < 255 {
            data.push(b.len() as u8);
        } else {
            data.push(255u8);
            put_u32(&mut data, b.len() as u32);
        }
        write_elems(&mut data, b);
        proof {
            lemma_u8_row_bytes(b@);
        }
        let end = data.len() as u32;
        offsets.push(end);
        i += 1;
        proof {
            assert(data@ =~= concat_map(ss.take(i as int), tstring_fn()));
        }
    }
    proof {
        assert(ss.take(ss.len() as int) =~= ss);
    }
    (data, offsets)
}

/// The entry data a branch's basket holds.
pub open spec fn content_data(values: Column, kind: &BranchKind) -> Seq<u8> {
    if kind is StlVector {
        match values {
            Column::VecI8(r) => concat_map(r, stl_fn::<i8>()),
            Column::VecU8(r) => concat_map(r, stl_fn::<u8>()),
            Column::VecI16(r) => concat_map(r, stl_fn::<i16>()),
            Column::VecU16(r) => concat_map(r, stl_fn::<u16>()),
            Column::VecI32(r) => concat_map(r, stl_fn::<i32>()),
            Column::VecU32(r) => concat_map(r, stl_fn::<u32>()),
            Column::VecI64(r) => concat_map(r, stl_fn::<i64>()),
            Column::VecU64(r) => concat_map(r, stl_fn::<u64>()),
            Column::VecF32(r) => concat_map(r, stl_fn::<u32>()),
            Column::VecF64(r) => concat_map(r, stl_fn::<u64>()),
            _ => Seq::empty(),
        }
    } else {
        match values {
            Column::Bool(x) => row_bytes::<bool>(x),
            Column::I8(x) => row_bytes::<i8>(x),
            Column::U8(x) => row_bytes::<u8>(x),
            Column::I16(x) => row_bytes::<i16>(x),
            Column::U16(x) => row_bytes::<u16>(x),
            Column::I32(x) => row_bytes::<i32>(x),
            Column::U32(x) => row_bytes::<u32>(x),
            Column::I64(x) => row_bytes::<i64>(x),
            Column::U64(x) => row_bytes::<u64>(x),
            Column::F32(x) => row_bytes::<u32>(x),
            Column::F64(x) => row_bytes::<u64>(x),
            Column::VecBool(r) => rows_bytes::<bool>(r),
            Column::VecI8(r) => rows_bytes::<i8>(r),
            Column::VecU8(r) => rows_bytes::<u8>(r),
            Column::VecI16(r) => rows_bytes::<i16>(r),
            Column::VecU16(r) => rows_bytes::<u16>(r),
            Column::VecI32(r) => rows_bytes::<i32>(r),
            Column::VecU32(r) => rows_bytes::<u32>(r),
            Column::VecI64(r) => rows_bytes::<i64>(r),
            Column::VecU64(r) => rows_bytes::<u64>(r),
            Column::VecF32(r) => rows_bytes::<u32>(r),
            Column::VecF64(r) => rows_bytes::<u64>(r),
            Column::Str(s) => concat_map(s, tstring_fn()),
            _ => Seq::empty(),
        }
    }
}

/// The entry end offsets a branch's basket records: for each entry count
/// `i`, where the first `i` entries end — for a `std::vector`, string or
/// jagged branch; `None` for a fixed-size one.
pub open spec fn content_offsets(values: Column, kind: &BranchKind) -> Option<Seq<u32>> {
    if kind is StlVector {
        Some(
            match values {
                Column::VecI8(r) => entry_ends(r, stl_fn::<i8>()),
                Column::VecU8(r) => entry_ends(r, stl_fn::<u8>()),
                Column::VecI16(r) => entry_ends(r, stl_fn::<i16>()),
                Column::VecU16(r) => entry_ends(r, stl_fn::<u16>()),
                Column::VecI32(r) => entry_ends(r, stl_fn::<i32>()),
                Column::VecU32(r) => entry_ends(r, stl_fn::<u32>()),
                Column::VecI64(r) => entry_ends(r, stl_fn::<i64>()),
                Column::VecU64(r) => entry_ends(r, stl_fn::<u64>()),
                Column::VecF32(r) => entry_ends(r, stl_fn::<u32>()),
                Column::VecF64(r) => entry_ends(r, stl_fn::<u64>()),
                _ => seq![0u32],
            },
        )
    } else if values is Str {
        Some(entry_ends(values->Str_0, tstring_fn()))
    } else if kind is Jagged {
        Some(
            match values {
                Column::VecBool(r) => entry_ends(r, row_fn::<bool>()),
                Column::VecI8(r) => entry_ends(r, row_fn::<i8>()),
                Column::VecU8(r) => entry_ends(r, row_fn::<u8>()),
                Column::VecI16(r) => entry_ends(r, row_fn::<i16>()),
                Column::VecU16(r) => entry_ends(r, row_fn::<u16>()),
                Column::VecI32(r) => entry_ends(r, row_fn::<i32>()),
                Column::VecU32(r) => entry_ends(r, row_fn::<u32>()),
                Column::VecI64(r) => entry_ends(r, row_fn::<i64>()),
                Column::VecU64(r) => entry_ends(r, row_fn::<u64>()),
                Column::VecF32(r) => entry_ends(r, row_fn::<u32>()),
                Column::VecF64(r) => entry_ends(r, row_fn::<u64>()),
                _ => seq![0u32],
            },
        )
    } else {
        None
    }
}

impl Branch {
    /// Entry data + `fEntryOffset` for a `std::vector<T>` branch: each row is a
    /// streamed collection — `[byte count | mask](4) [0x000a](2) [size n](4)`
    /// then `n` big-endian elements.
    pub fn stl_basket_content(&self) -> (r: (Vec<u8>, Vec<u32>))
        requires
            content_data(self.values_of(), &BranchKind::StlVector).len() <= u32::MAX,
        ensures
            r.0@ == content_data(self.values_of(), &BranchKind::StlVector),
            Some(r.1@) == content_offsets(self.values_of(), &BranchKind::StlVector),
    {
        match &self.values {
            BranchValues::VecI8(r) => stl_content::<i8>(r),
            BranchValues::VecU8(r) => stl_content::<u8>(r),
            BranchValues::VecI16(r) => stl_content::<i16>(r),
            BranchValues::VecU16(r) => stl_content::<u16>(r),
            BranchValues::VecI32(r) => stl_content::<i32>(r),
            BranchValues::VecU32(r) => stl_content::<u32>(r),
            BranchValues::VecI64(r) => stl_content::<i64>(r),
            BranchValues::VecU64(r) => stl_content::<u64>(r),
            BranchValues::VecF32(r) => stl_content::<u32>(r),
            BranchValues::VecF64(r) => stl_content::<u64>(r),
            _ => {
                let mut offsets: Vec<u32> = Vec::new();
                offsets.push(0);
                assert(offsets@ =~= seq![0u32]);
                (Vec::new(), offsets)
            },
        }
    }

    /// The basket's uncompressed entry data, plus (for variable branches) the
    /// data-relative `fEntryOffset` array (`n_entries + 1` offsets).
    pub fn basket_content(&self) -> (r: (Vec<u8>, Option<Vec<u32>>))
        requires
            !(self.values_of() is VecStr),
            !(self.values_of() is Nested),
            content_data(self.values_of(), self.kind_of()).len() <= u32::MAX,
        ensures
            r.0@ == content_data(self.values_of(), self.kind_of()),
            content_offsets(self.values_of(), self.kind_of()) == match r.1 {
                Some(o) => Some(o@),
                None => None::<Seq<u32>>,
            },
    {
        if self.stl_vector() {
            let (data, offsets) = self.stl_basket_content();
            return (data, Some(offsets));
        }
        let mut data: Vec<u8> = Vec::new();
        match &self.values {
            BranchValues::Bool(x) => write_elems::<bool>(&mut data, x.as_slice()),
            BranchValues::I8(x) => write_elems::<i8>(&mut data, x.as_slice()),
            BranchValues::U8(x) => write_elems::<u8>(&mut data, x.as_slice()),
            BranchValues::I16(x) => write_elems::<i16>(&mut data, x.as_slice()),
            BranchValues::U16(x) => write_elems::<u16>(&mut data, x.as_slice()),
            BranchValues::I32(x) => write_elems::<i32>(&mut data, x.as_slice()),
            BranchValues::U32(x) => write_elems::<u32>(&mut data, x.as_slice()),
            BranchValues::I64(x) => write_elems::<i64>(&mut data, x.as_slice()),
            BranchValues::U64(x) => write_elems::<u64>(&mut data, x.as_slice()),
            BranchValues::F32(x) => write_elems::<u32>(&mut data, x.as_slice()),
            BranchValues::F64(x) => write_elems::<u64>(&mut data, x.as_slice()),
            BranchValues::VecBool(r) => write_rows::<bool>(&mut data, r.as_slice()),
            BranchValues::VecI8(r) => write_rows::<i8>(&mut data, r.as_slice()),
            BranchValues::VecU8(r) => write_rows::<u8>(&mut data, r.as_slice()),
            BranchValues::VecI16(r) => write_rows::<i16>(&mut data, r.as_slice()),
            BranchValues::VecU16(r) => write_rows::<u16>(&mut data, r.as_slice()),
            BranchValues::VecI32(r) => write_rows::<i32>(&mut data, r.as_slice()),
            BranchValues::VecU32(r) => write_rows::<u32>(&mut data, r.as_slice()),
            BranchValues::VecI64(r) => write_rows::<i64>(&mut data, r.as_slice()),
            BranchValues::VecU64(r) => write_rows::<u64>(&mut data, r.as_slice()),
            BranchValues::VecF32(r) => write_rows::<u32>(&mut data, r.as_slice()),
            BranchValues::VecF64(r) => write_rows::<u64>(&mut data, r.as_slice()),
            BranchValues::Str(s) => {
                let (d, o) = string_content(s);
                return (d, Some(o));
            },
            _ => {},
        }
        if self.jagged() {
            let offsets: Vec<u32> = match &self.values {
                BranchValues::VecBool(r) => row_ends::<bool>(r),
                BranchValues::VecI8(r) => row_ends::<i8>(r),
                BranchValues::VecU8(r) => row_ends::<u8>(r),
                BranchValues::VecI16(r) => row_ends::<i16>(r),
                BranchValues::VecU16(r) => row_ends::<u16>(r),
                BranchValues::VecI32(r) => row_ends::<i32>(r),
                BranchValues::VecU32(r) => row_ends::<u32>(r),
                BranchValues::VecI64(r) => row_ends::<i64>(r),
                BranchValues::VecU64(r) => row_ends::<u64>(r),
                BranchValues::VecF32(r) => row_ends::<u32>(r),
                BranchValues::VecF64(r) => row_ends::<u64>(r),
                _ => {
                    let mut o: Vec<u32> = Vec::new();
                    o.push(0);
                    assert(o@ =~= seq![0u32]);
                    o
                },
            };
            return (data, Some(offsets));
        }
        (data, None)
    }
}

} // verus!
