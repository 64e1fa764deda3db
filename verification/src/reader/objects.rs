//! Member columns of an unsplit `TBranchObject`: each entry holds one whole
//! object, from which a column takes one member.

use vstd::prelude::*;
use crate::codec::u32_at;
use crate::error::{Error, Issue};
use crate::rbuffer::{tstring_at, version_at, RBuffer, K_BYTE_COUNT_MASK};
use crate::reader::members::{
    lookup, model_int, MemberModel, MemberVal, Members, StreamerElement, StreamerRegistry,
};
use crate::reader::walk::{walk_at, walk_members, Sink, SinkView, Src, St, Walker};
use crate::reader::ObjectMember;
use crate::tags::TagReader;
use crate::value::{BranchValues, Column, LeafType};

verus! {

/// Where padding ends: up to `k` more bytes are stepped over until the word
/// at the cursor is a byte count (or fewer than 4 bytes remain).
pub open spec fn pad_at(s: Seq<u8>, p: int, k: int) -> int
    decreases k,
{
    if k <= 0 || p + 4 > s.len() {
        p
    } else if u32_at(s, p) & K_BYTE_COUNT_MASK != 0 {
        p
    } else {
        pad_at(s, p + 1, k - 1)
    }
}

/// Where an entry's object starts, the entry starting at `p`: after the
/// class name a "virtual" leaf writes first (a small leading byte, not a
/// byte count, marks one) and up to four bytes of padding.
pub open spec fn locate_at(s: Seq<u8>, p: int) -> int {
    if p + 4 > s.len() {
        p
    } else {
        let p1 = if u32_at(s, p) & K_BYTE_COUNT_MASK == 0 {
            match tstring_at(s, p) {
                Some((_, e)) => e,
                None => p,
            }
        } else {
            p
        };
        pad_at(s, p1, 4)
    }
}

/// Move the cursor to an entry's object (see [`locate_at`]).
pub fn locate_object(r: &mut RBuffer)
    ensures
        final(r).buf() == old(r).buf(),
        final(r).cursor() == locate_at(old(r).buf(), old(r).cursor()),
{
    let ghost s = r.buf();
    let start = r.pos();
    if r.remaining() < 4 {
        return;
    }
    let first = match r.be_u32() {
        Ok(x) => x,
        Err(_) => 0,
    };
    let _ = r.seek(start);
    if first & K_BYTE_COUNT_MASK == 0 {
        let _ = r.string_bytes();
    }
    let ghost p1 = r.cursor();
    assert(pad_at(s, p1, 4) == locate_at(s, start as int));
    let mut k: usize = 0;
    while k < 4
        invariant
            k <= 4,
            r.buf() == s,
            old(r).buf() == s,
            old(r).cursor() == start,
            pad_at(s, p1, 4) == locate_at(s, start as int),
            pad_at(s, p1, 4) == pad_at(s, r.cursor(), 4 - k),
        decreases 4 - k,
    {
        let _p0 = r.pos();
        if r.remaining() < 4 {
            return;
        }
        let p = r.pos();
        let word = match r.be_u32() {
            Ok(x) => x,
            Err(_) => 0,
        };
        let _ = r.seek(p);
        if word & K_BYTE_COUNT_MASK != 0 {
            return;
        }
        let _ = r.seek(p + 1);
        k += 1;
    }
}

/// The value member `member` takes in one entry's object `region` of a
/// class with elements `els`: the object's version header, then its
/// members walked (object members stepped over); a member the walk did not
/// meet reads as the integer 0. `None` when the walk fails.
pub open spec fn object_value_at(region: Seq<u8>, member: Seq<char>, els: Seq<StreamerElement>) -> Option<MemberModel> {
    let p = locate_at(region, 0);
    match version_at(region, p) {
        None => None,
        Some((_, q)) => match walk_at(
            Src { s: region, reg: Seq::empty(), kb: 0 },
            els,
            0,
            St { pos: q, seen: Seq::empty(), skipped: Seq::empty() },
            Seq::empty(),
            SinkView::Skip,
            Seq::empty(),
        ) {
            None => None,
            Some((_, mem, _)) => Some(
                match lookup(mem, member) {
                    Some(v) => v,
                    None => MemberModel::Int(0),
                },
            ),
        },
    }
}

/// The member's value in each entry, when every entry's object reads.
pub open spec fn object_values(rs: Seq<Seq<u8>>, member: Seq<char>, els: Seq<StreamerElement>) -> Option<
    Seq<MemberModel>,
> {
    if forall|i: int| 0 <= i < rs.len() ==> #[trigger] object_value_at(rs[i], member, els) is Some {
        Some(Seq::new(rs.len(), |i: int| object_value_at(rs[i], member, els)->0))
    } else {
        None
    }
}

/// The text a member holds (empty for any other kind).
pub open spec fn model_text(m: MemberModel) -> Seq<char> {
    match m {
        MemberModel::Str(t) => t,
        _ => Seq::empty(),
    }
}

/// The `float` bit pattern a member fills a `float` column with, when no
/// floating-point conversion is needed: a `float` member's bits, and 0 for
/// an integer 0 or a member that is not a number.
pub open spec fn f32_bits_of(m: MemberModel) -> Option<u32> {
    match m {
        MemberModel::Float32(b) => Some(b),
        MemberModel::Float64(_) => None,
        MemberModel::Int(v) => if v == 0 {
            Some(0)
        } else {
            None
        },
        _ => Some(0),
    }
}

/// The `double` bit pattern a member fills a `double` column with, when no
/// floating-point conversion is needed.
pub open spec fn f64_bits_of(m: MemberModel) -> Option<u64> {
    match m {
        MemberModel::Float64(b) => Some(b),
        MemberModel::Float32(_) => None,
        MemberModel::Int(v) => if v == 0 {
            Some(0)
        } else {
            None
        },
        _ => Some(0),
    }
}

/// The column of `lt`-typed values the members fill: text for a string
/// column, integers converted to the column's width, and the bit patterns
/// of floating members. An error when a value would need a floating-point
/// conversion.
pub open spec fn member_column_model(lt: LeafType, vals: Seq<MemberModel>) -> Result<Column, Error> {
    match lt {
        LeafType::Str => Ok(Column::Str(vals.map_values(|m: MemberModel| model_text(m)))),
        LeafType::Bool => Ok(Column::Bool(vals.map_values(|m: MemberModel| model_int(m) != 0))),
        LeafType::I8 => Ok(Column::I8(vals.map_values(|m: MemberModel| model_int(m) as i8))),
        LeafType::U8 => Ok(Column::U8(vals.map_values(|m: MemberModel| model_int(m) as u8))),
        LeafType::I16 => Ok(Column::I16(vals.map_values(|m: MemberModel| model_int(m) as i16))),
        LeafType::U16 => Ok(Column::U16(vals.map_values(|m: MemberModel| model_int(m) as u16))),
        LeafType::I32 => Ok(Column::I32(vals.map_values(|m: MemberModel| model_int(m) as i32))),
        LeafType::U32 => Ok(Column::U32(vals.map_values(|m: MemberModel| model_int(m) as u32))),
        LeafType::I64 => Ok(Column::I64(vals.map_values(|m: MemberModel| model_int(m)))),
        LeafType::U64 => Ok(Column::U64(vals.map_values(|m: MemberModel| model_int(m) as u64))),
        LeafType::F32 => if forall|i: int| 0 <= i < vals.len() ==> #[trigger] f32_bits_of(vals[i]) is Some {
            Ok(Column::F32(vals.map_values(|m: MemberModel| f32_bits_of(m)->0)))
        } else {
            Err(Error::Unsupported(Issue::FloatMemberConversion))
        },
        LeafType::F64 => if forall|i: int| 0 <= i < vals.len() ==> #[trigger] f64_bits_of(vals[i]) is Some {
            Ok(Column::F64(vals.map_values(|m: MemberModel| f64_bits_of(m)->0)))
        } else {
            Err(Error::Unsupported(Issue::FloatMemberConversion))
        },
    }
}

/// The column an object-member branch of type `lt` reads from the entry
/// regions `rs`: member `member` of each entry's object of a class with
/// elements `els`.
pub open spec fn object_model(lt: LeafType, rs: Seq<Seq<u8>>, member: Seq<char>, els: Seq<StreamerElement>) -> Result<
    Column,
    Error,
> {
    match object_values(rs, member, els) {
        None => Err(Error::Format(Issue::ObjectMemberUnreadable)),
        Some(vals) => member_column_model(lt, vals),
    }
}

/// The value member `member` takes in one entry's object (see
/// [`object_value_at`]).
pub fn object_value(region: &[u8], om: &ObjectMember) -> (r: Result<MemberVal, Error>)
    ensures
        match object_value_at(region@, om.member@, om.class_elements@) {
            None => r == Err::<MemberVal, Error>(Error::Format(Issue::ObjectMemberUnreadable)),
            Some(v) => r matches Ok(x) && x@ == v,
        },
{
    let reg = StreamerRegistry { infos: Vec::new() };
    let mut w = Walker { tags: TagReader::new(0), skipped: Vec::new() };
    let mut r = RBuffer::new(region);
    locate_object(&mut r);
    if r.read_version().is_err() {
        return Err(Error::Format(Issue::ObjectMemberUnreadable));
    }
    assert(reg.infos@ =~= Seq::<crate::reader::members::StreamerInfo>::empty());
    assert(crate::reader::skipped_views(w.skipped@) =~= Seq::<crate::reader::SkippedView>::empty());
    let no_stop = String::new();
    match walk_members(
        &mut r,
        &mut w,
        &reg,
        om.class_elements.as_slice(),
        Members::new(),
        Sink::Skip,
        no_stop.as_str(),
    ) {
        Err(_) => Err(Error::Format(Issue::ObjectMemberUnreadable)),
        Ok((mem, _)) => match mem.take(om.member.as_str()) {
            Some(v) => Ok(v),
            None => Ok(MemberVal::Int(0)),
        },
    }
}


/// The member values as views.
pub open spec fn member_views(v: Seq<MemberVal>) -> Seq<MemberModel> {
    v.map_values(|m: MemberVal| m@)
}

/// The integer each member holds (0 for any other kind).
fn member_ints_of(vals: &Vec<MemberVal>) -> (r: Vec<i64>)
    ensures
        r@ == member_views(vals@).map_values(|m: MemberModel| model_int(m)),
{
    let mut out: Vec<i64> = Vec::new();
    let mut i: usize = 0;
    while i < vals.len()
        invariant
            i <= vals@.len(),
            out@ == member_views(vals@).take(i as int).map_values(|m: MemberModel| model_int(m)),
        decreases vals@.len() - i,
    {
        out.push(vals[i].as_int());
        proof {
            let mv = member_views(vals@);
            assert(mv.take(i as int + 1) =~= mv.take(i as int).push(mv[i as int]));
        }
        assert(out@ =~= member_views(vals@).take(i as int + 1).map_values(|m: MemberModel| model_int(m)));
        i += 1;
    }
    assert(member_views(vals@).take(vals@.len() as int) =~= member_views(vals@));
    out
}

/// The integers as `bool`.
fn ints_as_bool(v: &Vec<i64>) -> (r: Vec<bool>)
    ensures
        r@ == v@.map_values(|x: i64| x != 0),
{
    let mut out: Vec<bool> = Vec::new();
    let mut i: usize = 0;
    while i < v.len()
        invariant
            i <= v@.len(),
            out@ == v@.take(i as int).map_values(|x: i64| x != 0),
        decreases v@.len() - i,
    {
        let x = v[i];
        out.push(x != 0);
        assert(v@.take(i as int + 1) =~= v@.take(i as int).push(v@[i as int]));
        assert(out@ =~= v@.take(i as int + 1).map_values(|x: i64| x != 0));
        i += 1;
    }
    assert(v@.take(v@.len() as int) =~= v@);
    out
}

/// The integers as `i8`.
fn ints_as_i8(v: &Vec<i64>) -> (r: Vec<i8>)
    ensures
        r@ == v@.map_values(|x: i64| x as i8),
{
    let mut out: Vec<i8> = Vec::new();
    let mut i: usize = 0;
    while i < v.len()
        invariant
            i <= v@.len(),
            out@ == v@.take(i as int).map_values(|x: i64| x as i8),
        decreases v@.len() - i,
    {
        let x = v[i];
        out.push(x as i8);
        assert(v@.take(i as int + 1) =~= v@.take(i as int).push(v@[i as int]));
        assert(out@ =~= v@.take(i as int + 1).map_values(|x: i64| x as i8));
        i += 1;
    }
    assert(v@.take(v@.len() as int) =~= v@);
    out
}

/// The integers as `u8`.
fn ints_as_u8(v: &Vec<i64>) -> (r: Vec<u8>)
    ensures
        r@ == v@.map_values(|x: i64| x as u8),
{
    let mut out: Vec<u8> = Vec::new();
    let mut i: usize = 0;
    while i < v.len()
        invariant
            i <= v@.len(),
            out@ == v@.take(i as int).map_values(|x: i64| x as u8),
        decreases v@.len() - i,
    {
        let x = v[i];
        out.push(x as u8);
        assert(v@.take(i as int + 1) =~= v@.take(i as int).push(v@[i as int]));
        assert(out@ =~= v@.take(i as int + 1).map_values(|x: i64| x as u8));
        i += 1;
    }
    assert(v@.take(v@.len() as int) =~= v@);
    out
}

/// The integers as `i16`.
fn ints_as_i16(v: &Vec<i64>) -> (r: Vec<i16>)
    ensures
        r@ == v@.map_values(|x: i64| x as i16),
{
    let mut out: Vec<i16> = Vec::new();
    let mut i: usize = 0;
    while i < v.len()
        invariant
            i <= v@.len(),
            out@ == v@.take(i as int).map_values(|x: i64| x as i16),
        decreases v@.len() - i,
    {
        let x = v[i];
        out.push(x as i16);
        assert(v@.take(i as int + 1) =~= v@.take(i as int).push(v@[i as int]));
        assert(out@ =~= v@.take(i as int + 1).map_values(|x: i64| x as i16));
        i += 1;
    }
    assert(v@.take(v@.len() as int) =~= v@);
    out
}

/// The integers as `u16`.
fn ints_as_u16(v: &Vec<i64>) -> (r: Vec<u16>)
    ensures
        r@ == v@.map_values(|x: i64| x as u16),
{
    let mut out: Vec<u16> = Vec::new();
    let mut i: usize = 0;
    while i < v.len()
        invariant
            i <= v@.len(),
            out@ == v@.take(i as int).map_values(|x: i64| x as u16),
        decreases v@.len() - i,
    {
        let x = v[i];
        out.push(x as u16);
        assert(v@.take(i as int + 1) =~= v@.take(i as int).push(v@[i as int]));
        assert(out@ =~= v@.take(i as int + 1).map_values(|x: i64| x as u16));
        i += 1;
    }
    assert(v@.take(v@.len() as int) =~= v@);
    out
}

/// The integers as `i32`.
fn ints_as_i32(v: &Vec<i64>) -> (r: Vec<i32>)
    ensures
        r@ == v@.map_values(|x: i64| x as i32),
{
    let mut out: Vec<i32> = Vec::new();
    let mut i: usize = 0;
    while i < v.len()
        invariant
            i <= v@.len(),
            out@ == v@.take(i as int).map_values(|x: i64| x as i32),
        decreases v@.len() - i,
    {
        let x = v[i];
        out.push(x as i32);
        assert(v@.take(i as int + 1) =~= v@.take(i as int).push(v@[i as int]));
        assert(out@ =~= v@.take(i as int + 1).map_values(|x: i64| x as i32));
        i += 1;
    }
    assert(v@.take(v@.len() as int) =~= v@);
    out
}

/// The integers as `u32`.
fn ints_as_u32(v: &Vec<i64>) -> (r: Vec<u32>)
    ensures
        r@ == v@.map_values(|x: i64| x as u32),
{
    let mut out: Vec<u32> = Vec::new();
    let mut i: usize = 0;
    while i < v.len()
        invariant
            i <= v@.len(),
            out@ == v@.take(i as int).map_values(|x: i64| x as u32),
        decreases v@.len() - i,
    {
        let x = v[i];
        out.push(x as u32);
        assert(v@.take(i as int + 1) =~= v@.take(i as int).push(v@[i as int]));
        assert(out@ =~= v@.take(i as int + 1).map_values(|x: i64| x as u32));
        i += 1;
    }
    assert(v@.take(v@.len() as int) =~= v@);
    out
}

/// The integers as `u64`.
fn ints_as_u64(v: &Vec<i64>) -> (r: Vec<u64>)
    ensures
        r@ == v@.map_values(|x: i64| x as u64),
{
    let mut out: Vec<u64> = Vec::new();
    let mut i: usize = 0;
    while i < v.len()
        invariant
            i <= v@.len(),
            out@ == v@.take(i as int).map_values(|x: i64| x as u64),
        decreases v@.len() - i,
    {
        let x = v[i];
        out.push(x as u64);
        assert(v@.take(i as int + 1) =~= v@.take(i as int).push(v@[i as int]));
        assert(out@ =~= v@.take(i as int + 1).map_values(|x: i64| x as u64));
        i += 1;
    }
    assert(v@.take(v@.len() as int) =~= v@);
    out
}

/// The `float` bit patterns the members fill a `float` column with, when
/// none needs a floating-point conversion.
fn members_f32(vals: &Vec<MemberVal>) -> (r: Option<Vec<u32>>)
    ensures
        match r {
            Some(v) => (forall|i: int| 0 <= i < vals@.len() ==> #[trigger] f32_bits_of(member_views(vals@)[i]) is Some)
                && v@ == member_views(vals@).map_values(|m: MemberModel| f32_bits_of(m)->0),
            None => !(forall|i: int| 0 <= i < vals@.len() ==> #[trigger] f32_bits_of(member_views(vals@)[i]) is Some),
        },
{
    let ghost mv = member_views(vals@);
    let mut out: Vec<u32> = Vec::new();
    let mut i: usize = 0;
    while i < vals.len()
        invariant
            i <= vals@.len(),
            mv == member_views(vals@),
            forall|j: int| 0 <= j < i ==> #[trigger] f32_bits_of(mv[j]) is Some,
            out@ == mv.take(i as int).map_values(|m: MemberModel| f32_bits_of(m)->0),
        decreases vals@.len() - i,
    {
        let b: u32 = match &vals[i] {
            MemberVal::Float32(b) => *b,
            MemberVal::Float64(_) => {
                assert(f32_bits_of(mv[i as int]) is None);
                return None;
            },
            MemberVal::Int(v) => if *v == 0 {
                0
            } else {
                assert(f32_bits_of(mv[i as int]) is None);
                return None;
            },
            _ => 0,
        };
        out.push(b);
        assert(mv.take(i as int + 1) =~= mv.take(i as int).push(mv[i as int]));
        assert(out@ =~= mv.take(i as int + 1).map_values(|m: MemberModel| f32_bits_of(m)->0));
        i += 1;
    }
    assert(mv.take(mv.len() as int) =~= mv);
    Some(out)
}

/// The `double` bit patterns the members fill a `double` column with, when
/// none needs a floating-point conversion.
fn members_f64(vals: &Vec<MemberVal>) -> (r: Option<Vec<u64>>)
    ensures
        match r {
            Some(v) => (forall|i: int| 0 <= i < vals@.len() ==> #[trigger] f64_bits_of(member_views(vals@)[i]) is Some)
                && v@ == member_views(vals@).map_values(|m: MemberModel| f64_bits_of(m)->0),
            None => !(forall|i: int| 0 <= i < vals@.len() ==> #[trigger] f64_bits_of(member_views(vals@)[i]) is Some),
        },
{
    let ghost mv = member_views(vals@);
    let mut out: Vec<u64> = Vec::new();
    let mut i: usize = 0;
    while i < vals.len()
        invariant
            i <= vals@.len(),
            mv == member_views(vals@),
            forall|j: int| 0 <= j < i ==> #[trigger] f64_bits_of(mv[j]) is Some,
            out@ == mv.take(i as int).map_values(|m: MemberModel| f64_bits_of(m)->0),
        decreases vals@.len() - i,
    {
        let b: u64 = match &vals[i] {
            MemberVal::Float64(b) => *b,
            MemberVal::Float32(_) => {
                assert(f64_bits_of(mv[i as int]) is None);
                return None;
            },
            MemberVal::Int(v) => if *v == 0 {
                0
            } else {
                assert(f64_bits_of(mv[i as int]) is None);
                return None;
            },
            _ => 0,
        };
        out.push(b);
        assert(mv.take(i as int + 1) =~= mv.take(i as int).push(mv[i as int]));
        assert(out@ =~= mv.take(i as int + 1).map_values(|m: MemberModel| f64_bits_of(m)->0));
        i += 1;
    }
    assert(mv.take(mv.len() as int) =~= mv);
    Some(out)
}

/// The text each member holds (empty for any other kind).
fn members_text(vals: &Vec<MemberVal>) -> (r: Vec<String>)
    ensures
        crate::value::texts(r@) == member_views(vals@).map_values(|m: MemberModel| model_text(m)),
{
    let ghost mv = member_views(vals@);
    let mut out: Vec<String> = Vec::new();
    let mut i: usize = 0;
    while i < vals.len()
        invariant
            i <= vals@.len(),
            mv == member_views(vals@),
            crate::value::texts(out@) == mv.take(i as int).map_values(|m: MemberModel| model_text(m)),
        decreases vals@.len() - i,
    {
        let t = match &vals[i] {
            MemberVal::Str(s) => s.clone(),
            _ => String::new(),
        };
        let ghost before = out@;
        out.push(t);
        assert(crate::value::texts(out@) =~= crate::value::texts(before).push(model_text(mv[i as int])));
        assert(mv.take(i as int + 1) =~= mv.take(i as int).push(mv[i as int]));
        assert(crate::value::texts(out@) =~= mv.take(i as int + 1).map_values(|m: MemberModel| model_text(m)));
        i += 1;
    }
    assert(mv.take(mv.len() as int) =~= mv);
    out
}

/// The column of `leaf_type` values the members fill (see
/// [`member_column_model`]).
pub fn member_column(leaf_type: LeafType, vals: &Vec<MemberVal>) -> (r: Result<BranchValues, Error>)
    ensures
        match member_column_model(leaf_type, member_views(vals@)) {
            Err(e) => r == Err::<BranchValues, Error>(e),
            Ok(c) => r matches Ok(v) && v@ == c,
        },
{
    let ghost mv = member_views(vals@);
    match leaf_type {
        LeafType::Str => Ok(BranchValues::Str(members_text(vals))),
        LeafType::F32 => match members_f32(vals) {
            Some(v) => Ok(BranchValues::F32(v)),
            None => Err(Error::Unsupported(Issue::FloatMemberConversion)),
        },
        LeafType::F64 => match members_f64(vals) {
            Some(v) => Ok(BranchValues::F64(v)),
            None => Err(Error::Unsupported(Issue::FloatMemberConversion)),
        },
        _ => {
            let ints = member_ints_of(vals);
            let r = match leaf_type {
                LeafType::Bool => BranchValues::Bool(ints_as_bool(&ints)),
                LeafType::I8 => BranchValues::I8(ints_as_i8(&ints)),
                LeafType::U8 => BranchValues::U8(ints_as_u8(&ints)),
                LeafType::I16 => BranchValues::I16(ints_as_i16(&ints)),
                LeafType::U16 => BranchValues::U16(ints_as_u16(&ints)),
                LeafType::I32 => BranchValues::I32(ints_as_i32(&ints)),
                LeafType::U32 => BranchValues::U32(ints_as_u32(&ints)),
                LeafType::U64 => BranchValues::U64(ints_as_u64(&ints)),
                _ => BranchValues::I64(ints),
            };
            proof {
                assert(mv.map_values(|m: MemberModel| model_int(m)).map_values(|x: i64| x != 0) =~= mv.map_values(|m: MemberModel| model_int(m) != 0));
                assert(mv.map_values(|m: MemberModel| model_int(m)).map_values(|x: i64| x as i8) =~= mv.map_values(|m: MemberModel| model_int(m) as i8));
                assert(mv.map_values(|m: MemberModel| model_int(m)).map_values(|x: i64| x as u8) =~= mv.map_values(|m: MemberModel| model_int(m) as u8));
                assert(mv.map_values(|m: MemberModel| model_int(m)).map_values(|x: i64| x as i16) =~= mv.map_values(|m: MemberModel| model_int(m) as i16));
                assert(mv.map_values(|m: MemberModel| model_int(m)).map_values(|x: i64| x as u16) =~= mv.map_values(|m: MemberModel| model_int(m) as u16));
                assert(mv.map_values(|m: MemberModel| model_int(m)).map_values(|x: i64| x as i32) =~= mv.map_values(|m: MemberModel| model_int(m) as i32));
                assert(mv.map_values(|m: MemberModel| model_int(m)).map_values(|x: i64| x as u32) =~= mv.map_values(|m: MemberModel| model_int(m) as u32));
                assert(mv.map_values(|m: MemberModel| model_int(m)).map_values(|x: i64| x as u64) =~= mv.map_values(|m: MemberModel| model_int(m) as u64));
            }
            Ok(r)
        },
    }
}

/// Decode an object-member branch's entries: member `om.member` of each
/// entry's object (see [`object_model`]).
pub fn decode_object_members(leaf_type: LeafType, om: &ObjectMember, regions: &[&[u8]]) -> (r: Result<BranchValues, Error>)
    ensures
        match object_model(leaf_type, crate::reader::decode::region_views(regions@), om.member@, om.class_elements@) {
            Err(e) => r == Err::<BranchValues, Error>(e),
            Ok(c) => r matches Ok(v) && v@ == c,
        },
{
    let ghost rs = crate::reader::decode::region_views(regions@);
    let mut vals: Vec<MemberVal> = Vec::new();
    let mut i: usize = 0;
    while i < regions.len()
        invariant
            i <= regions@.len(),
            rs == crate::reader::decode::region_views(regions@),
            member_views(vals@) == Seq::new(i as nat, |j: int| object_value_at(rs[j], om.member@, om.class_elements@)->0),
            forall|j: int| 0 <= j < i ==> #[trigger] object_value_at(rs[j], om.member@, om.class_elements@) is Some,
        decreases regions@.len() - i,
    {
        let v = match object_value(regions[i], om) {
            Ok(v) => v,
            Err(e) => {
                assert(object_value_at(rs[i as int], om.member@, om.class_elements@) is None);
                assert(object_values(rs, om.member@, om.class_elements@) is None);
                return Err(e);
            },
        };
        let ghost before = vals@;
        vals.push(v);
        assert(member_views(vals@) =~= member_views(before).push(v@));
        assert(member_views(vals@) =~= Seq::new((i + 1) as nat, |j: int| object_value_at(rs[j], om.member@, om.class_elements@)->0));
        i += 1;
    }
    assert(object_values(rs, om.member@, om.class_elements@) == Some(member_views(vals@)));
    member_column(leaf_type, &vals)
}
} // verus!
