//! Concatenating a branch's values read from several trees, the way ROOT's
//! `TChain` spans a dataset split over many files.

use vstd::prelude::*;
use crate::error::{Error, Issue};
use crate::value::{rows, texts, text_rows, BranchValues, Column};

verus! {

/// `a` followed by `b`, when they hold the same kind of values (nested
/// columns are joined by [`concat_model`] instead).
pub open spec fn append_col(a: Column, b: Column) -> Option<Column> {
    match (a, b) {
        (Column::Bool(x), Column::Bool(y)) => Some(Column::Bool(x + y)),
        (Column::I8(x), Column::I8(y)) => Some(Column::I8(x + y)),
        (Column::U8(x), Column::U8(y)) => Some(Column::U8(x + y)),
        (Column::I16(x), Column::I16(y)) => Some(Column::I16(x + y)),
        (Column::U16(x), Column::U16(y)) => Some(Column::U16(x + y)),
        (Column::I32(x), Column::I32(y)) => Some(Column::I32(x + y)),
        (Column::U32(x), Column::U32(y)) => Some(Column::U32(x + y)),
        (Column::I64(x), Column::I64(y)) => Some(Column::I64(x + y)),
        (Column::U64(x), Column::U64(y)) => Some(Column::U64(x + y)),
        (Column::F32(x), Column::F32(y)) => Some(Column::F32(x + y)),
        (Column::F64(x), Column::F64(y)) => Some(Column::F64(x + y)),
        (Column::VecBool(x), Column::VecBool(y)) => Some(Column::VecBool(x + y)),
        (Column::VecI8(x), Column::VecI8(y)) => Some(Column::VecI8(x + y)),
        (Column::VecU8(x), Column::VecU8(y)) => Some(Column::VecU8(x + y)),
        (Column::VecI16(x), Column::VecI16(y)) => Some(Column::VecI16(x + y)),
        (Column::VecU16(x), Column::VecU16(y)) => Some(Column::VecU16(x + y)),
        (Column::VecI32(x), Column::VecI32(y)) => Some(Column::VecI32(x + y)),
        (Column::VecU32(x), Column::VecU32(y)) => Some(Column::VecU32(x + y)),
        (Column::VecI64(x), Column::VecI64(y)) => Some(Column::VecI64(x + y)),
        (Column::VecU64(x), Column::VecU64(y)) => Some(Column::VecU64(x + y)),
        (Column::VecF32(x), Column::VecF32(y)) => Some(Column::VecF32(x + y)),
        (Column::VecF64(x), Column::VecF64(y)) => Some(Column::VecF64(x + y)),
        (Column::Str(x), Column::Str(y)) => Some(Column::Str(x + y)),
        (Column::VecStr(x), Column::VecStr(y)) => Some(Column::VecStr(x + y)),
        _ => None,
    }
}

/// `acc` followed by every column of `rest` in turn; an error at the first
/// column of another kind.
pub open spec fn flat_fold(acc: Column, rest: Seq<Column>) -> Result<Column, Error>
    decreases rest.len(),
{
    if rest.len() == 0 {
        Ok(acc)
    } else {
        match append_col(acc, rest[0]) {
            None => Err(Error::Format(Issue::InconsistentTypes)),
            Some(c) => flat_fold(c, rest.subrange(1, rest.len() as int)),
        }
    }
}

/// The columns of the values.
pub open spec fn views(v: Seq<BranchValues>) -> Seq<Column> {
    v.map_values(|b: BranchValues| b@)
}

/// How deeply a column nests.
pub open spec fn depth(c: Column) -> nat
    decreases c,
{
    match c {
        Column::Nested(_, items) => 1 + depth(*items),
        _ => 0,
    }
}

/// `o` without its first element (nothing when empty).
pub open spec fn after_first(o: Seq<u64>) -> Seq<u64> {
    if o.len() == 0 {
        Seq::empty()
    } else {
        o.subrange(1, o.len() as int)
    }
}

/// The nested columns' offsets joined: each later column's offsets after its
/// leading 0, rebased onto the running total; an error at the first column
/// that is not nested, or when a rebased offset exceeds `u64`.
pub open spec fn nested_offsets(acc: Seq<u64>, rest: Seq<Column>) -> Result<Seq<u64>, Error>
    decreases rest.len(),
{
    if rest.len() == 0 {
        Ok(acc)
    } else {
        match rest[0] {
            Column::Nested(o, _) => {
                let base: int = if acc.len() == 0 { 0 } else { acc.last() as int };
                if exists|j: int| 1 <= j < o.len() && o[j] + base > u64::MAX {
                    Err(Error::Format(Issue::SizeOverflow))
                } else {
                    nested_offsets(
                        acc + after_first(o).map_values(|v: u64| (v + base) as u64),
                        rest.subrange(1, rest.len() as int),
                    )
                }
            },
            _ => Err(Error::Format(Issue::InconsistentTypes)),
        }
    }
}

/// The inner columns of nested columns.
pub open spec fn inner_columns(parts: Seq<Column>) -> Seq<Column> {
    parts.map_values(|c: Column| match c {
        Column::Nested(_, items) => *items,
        _ => c,
    })
}

/// The values of several trees' reads of one branch, concatenated in order:
/// an error when there are none, or when they are not all of one kind.
pub open spec fn concat_model(parts: Seq<Column>) -> Result<Column, Error>
    decreases (if parts.len() > 0 { depth(parts[0]) } else { 0 }),
{
    if parts.len() == 0 {
        Err(Error::Format(Issue::NoTrees))
    } else {
        match parts[0] {
            Column::Nested(o, items) => match nested_offsets(o, parts.subrange(1, parts.len() as int)) {
                Err(e) => Err(e),
                Ok(off) => {
                    let inner = inner_columns(parts);
                    proof {
                        assert(inner[0] == *items);
                    }
                    match concat_model(inner) {
                        Err(e) => Err(e),
                        Ok(c) => Ok(Column::Nested(off, Box::new(c))),
                    }
                }
            },
            _ => flat_fold(parts[0], parts.subrange(1, parts.len() as int)),
        }
    }
}

/// Concatenate same-variant [`BranchValues`] into one: the values of one
/// branch read from each tree of a chain, in order.
pub fn concat_values(parts: Vec<BranchValues>) -> (r: Result<BranchValues, Error>)
    ensures
        match concat_model(views(parts@)) {
            Err(e) => r == Err::<BranchValues, Error>(e),
            Ok(c) => r matches Ok(v) && v@ == c,
        },
    decreases (if parts@.len() > 0 { depth(parts@[0]@) } else { 0 }), 1nat,
{
    let mut parts = parts;
    if parts.len() == 0 {
        return Err(Error::Format(Issue::NoTrees));
    }
    let ghost all = views(parts@);
    let first = parts.remove(0);
    let ghost f = first@;
    let ghost tail = views(parts@);
    proof {
        assert(all[0] == first@);
        assert(tail =~= all.subrange(1, all.len() as int));
    }
    match first {
        BranchValues::Bool(acc) => cat_bool(acc, parts),
        BranchValues::I8(acc) => cat_i8(acc, parts),
        BranchValues::U8(acc) => cat_u8(acc, parts),
        BranchValues::I16(acc) => cat_i16(acc, parts),
        BranchValues::U16(acc) => cat_u16(acc, parts),
        BranchValues::I32(acc) => cat_i32(acc, parts),
        BranchValues::U32(acc) => cat_u32(acc, parts),
        BranchValues::I64(acc) => cat_i64(acc, parts),
        BranchValues::U64(acc) => cat_u64(acc, parts),
        BranchValues::F32(acc) => cat_f32(acc, parts),
        BranchValues::F64(acc) => cat_f64(acc, parts),
        BranchValues::VecBool(acc) => cat_vecbool(acc, parts),
        BranchValues::VecI8(acc) => cat_veci8(acc, parts),
        BranchValues::VecU8(acc) => cat_vecu8(acc, parts),
        BranchValues::VecI16(acc) => cat_veci16(acc, parts),
        BranchValues::VecU16(acc) => cat_vecu16(acc, parts),
        BranchValues::VecI32(acc) => cat_veci32(acc, parts),
        BranchValues::VecU32(acc) => cat_vecu32(acc, parts),
        BranchValues::VecI64(acc) => cat_veci64(acc, parts),
        BranchValues::VecU64(acc) => cat_vecu64(acc, parts),
        BranchValues::VecF32(acc) => cat_vecf32(acc, parts),
        BranchValues::VecF64(acc) => cat_vecf64(acc, parts),
        BranchValues::Str(acc) => cat_str(acc, parts),
        BranchValues::VecStr(acc) => cat_vecstr(acc, parts),
        BranchValues::Nested { offsets, items } => {
            proof {
                assert(all == seq![Column::Nested(offsets@, Box::new((*items)@))] + tail);
            }
            nested_concat(offsets, items, parts)
        },
    }
}

/// Join the values of nested columns: the first's offsets and inner values,
/// then each later column's.
#[verifier::loop_isolation(false)]
fn nested_concat(offsets: Vec<u64>, items: Box<BranchValues>, rest: Vec<BranchValues>) -> (r: Result<BranchValues, Error>)
    ensures
        match concat_model(seq![Column::Nested(offsets@, Box::new((*items)@))] + views(rest@)) {
            Err(e) => r == Err::<BranchValues, Error>(e),
            Ok(c) => r matches Ok(v) && v@ == c,
        },
    decreases depth((*items)@) + 1, 0nat,
{
    let ghost n0 = Column::Nested(offsets@, Box::new((*items)@));
    let ghost all = seq![n0] + views(rest@);
    let ghost tail0 = views(rest@);
    let ghost off0 = offsets@;
    let mut acc_off = offsets;
    let mut acc_items: Vec<BranchValues> = Vec::new();
    acc_items.push(*items);
    let mut rest = rest;
    proof {
        assert(all.subrange(1, all.len() as int) =~= tail0);
        assert(inner_columns(all) =~= views(acc_items@) + inner_columns(views(rest@)));
    }
    while rest.len() > 0
        invariant
            nested_offsets(off0, tail0) == nested_offsets(acc_off@, views(rest@)),
            inner_columns(all) == views(acc_items@) + inner_columns(views(rest@)),
            acc_items@.len() > 0,
            acc_items@[0]@ == (*items)@,
        decreases rest@.len(),
    {
        let ghost before_rest = views(rest@);
        let p = rest.remove(0);
        proof {
            assert(views(rest@) =~= before_rest.subrange(1, before_rest.len() as int));
            assert(before_rest[0] == p@);
        }
        match p {
            BranchValues::Nested { offsets: o, items: it } => {
                let base: u64 = if acc_off.len() == 0 { 0 } else { acc_off[acc_off.len() - 1] };
                let ghost acc0 = acc_off@;
                let mut j: usize = 1;
                while j < o.len()
                    invariant
                        1 <= j,
                        j <= o@.len() || j == 1,
                        base as int == (if acc0.len() == 0 { 0 } else { acc0.last() as int }),
                        acc_off@ == acc0 + after_first(o@).take(j - 1).map_values(
                            |v: u64| (v + base) as u64,
                        ),
                        forall|k: int| 1 <= k < j && k < o@.len() ==> o@[k] + base <= u64::MAX,
                    decreases o@.len() - j,
                {
                    match o[j].checked_add(base) {
                        Some(v) => {
                            acc_off.push(v);
                        },
                        None => {
                            return Err(Error::Format(Issue::SizeOverflow));
                        },
                    }
                    j += 1;
                    assert(acc_off@ =~= acc0 + after_first(o@).take(j - 1).map_values(|v: u64| (v + base) as u64));
                }
                proof {
                    assert(after_first(o@).take(j - 1) =~= after_first(o@));
                }
                let ghost old_items = acc_items@;
                acc_items.push(*it);
                proof {
                    assert(views(acc_items@) =~= views(old_items).push((*it)@));
                    assert(inner_columns(before_rest) =~= seq![(*it)@] + inner_columns(views(rest@)));
                    assert(views(acc_items@) + inner_columns(views(rest@)) =~= views(old_items) + inner_columns(before_rest));
                }
            },
            _ => {
                return Err(Error::Format(Issue::InconsistentTypes));
            },
        }
    }
    proof {
        assert(inner_columns(all) == views(acc_items@));
    }
    let inner = concat_values(acc_items)?;
    Ok(BranchValues::Nested { offsets: acc_off, items: Box::new(inner) })
}

/// Append the `Bool` values of every later tree to `acc`.
#[verifier::loop_isolation(false)]
fn cat_bool(acc: Vec<bool>, rest: Vec<BranchValues>) -> (r: Result<BranchValues, Error>)
    ensures
        match flat_fold(Column::Bool(acc@), views(rest@)) {
            Err(e) => r == Err::<BranchValues, Error>(e),
            Ok(c) => r matches Ok(v) && v@ == c,
        },
{
    let ghost start = flat_fold(Column::Bool(acc@), views(rest@));
    let mut acc = acc;
    let mut rest = rest;
    while rest.len() > 0
        invariant
            start == flat_fold(Column::Bool(acc@), views(rest@)),
        decreases rest@.len(),
    {
        let ghost before = views(rest@);
        let p = rest.remove(0);
        proof {
            assert(views(rest@) =~= before.subrange(1, before.len() as int));
            assert(before[0] == p@);
        }
        match p {
            BranchValues::Bool(more) => {
                let mut more = more;
                let ghost a = acc@;
                let ghost b = more@;
                acc.append(&mut more);
                assert(acc@ =~= a + b);
            },
            _ => {
                return Err(Error::Format(Issue::InconsistentTypes));
            },
        }
    }
    Ok(BranchValues::Bool(acc))
}

/// Append the `I8` values of every later tree to `acc`.
#[verifier::loop_isolation(false)]
fn cat_i8(acc: Vec<i8>, rest: Vec<BranchValues>) -> (r: Result<BranchValues, Error>)
    ensures
        match flat_fold(Column::I8(acc@), views(rest@)) {
            Err(e) => r == Err::<BranchValues, Error>(e),
            Ok(c) => r matches Ok(v) && v@ == c,
        },
{
    let ghost start = flat_fold(Column::I8(acc@), views(rest@));
    let mut acc = acc;
    let mut rest = rest;
    while rest.len() > 0
        invariant
            start == flat_fold(Column::I8(acc@), views(rest@)),
        decreases rest@.len(),
    {
        let ghost before = views(rest@);
        let p = rest.remove(0);
        proof {
            assert(views(rest@) =~= before.subrange(1, before.len() as int));
            assert(before[0] == p@);
        }
        match p {
            BranchValues::I8(more) => {
                let mut more = more;
                let ghost a = acc@;
                let ghost b = more@;
                acc.append(&mut more);
                assert(acc@ =~= a + b);
            },
            _ => {
                return Err(Error::Format(Issue::InconsistentTypes));
            },
        }
    }
    Ok(BranchValues::I8(acc))
}

/// Append the `U8` values of every later tree to `acc`.
#[verifier::loop_isolation(false)]
fn cat_u8(acc: Vec<u8>, rest: Vec<BranchValues>) -> (r: Result<BranchValues, Error>)
    ensures
        match flat_fold(Column::U8(acc@), views(rest@)) {
            Err(e) => r == Err::<BranchValues, Error>(e),
            Ok(c) => r matches Ok(v) && v@ == c,
        },
{
    let ghost start = flat_fold(Column::U8(acc@), views(rest@));
    let mut acc = acc;
    let mut rest = rest;
    while rest.len() > 0
        invariant
            start == flat_fold(Column::U8(acc@), views(rest@)),
        decreases rest@.len(),
    {
        let ghost before = views(rest@);
        let p = rest.remove(0);
        proof {
            assert(views(rest@) =~= before.subrange(1, before.len() as int));
            assert(before[0] == p@);
        }
        match p {
            BranchValues::U8(more) => {
                let mut more = more;
                let ghost a = acc@;
                let ghost b = more@;
                acc.append(&mut more);
                assert(acc@ =~= a + b);
            },
            _ => {
                return Err(Error::Format(Issue::InconsistentTypes));
            },
        }
    }
    Ok(BranchValues::U8(acc))
}

/// Append the `I16` values of every later tree to `acc`.
#[verifier::loop_isolation(false)]
fn cat_i16(acc: Vec<i16>, rest: Vec<BranchValues>) -> (r: Result<BranchValues, Error>)
    ensures
        match flat_fold(Column::I16(acc@), views(rest@)) {
            Err(e) => r == Err::<BranchValues, Error>(e),
            Ok(c) => r matches Ok(v) && v@ == c,
        },
{
    let ghost start = flat_fold(Column::I16(acc@), views(rest@));
    let mut acc = acc;
    let mut rest = rest;
    while rest.len() > 0
        invariant
            start == flat_fold(Column::I16(acc@), views(rest@)),
        decreases rest@.len(),
    {
        let ghost before = views(rest@);
        let p = rest.remove(0);
        proof {
            assert(views(rest@) =~= before.subrange(1, before.len() as int));
            assert(before[0] == p@);
        }
        match p {
            BranchValues::I16(more) => {
                let mut more = more;
                let ghost a = acc@;
                let ghost b = more@;
                acc.append(&mut more);
                assert(acc@ =~= a + b);
            },
            _ => {
                return Err(Error::Format(Issue::InconsistentTypes));
            },
        }
    }
    Ok(BranchValues::I16(acc))
}

/// Append the `U16` values of every later tree to `acc`.
#[verifier::loop_isolation(false)]
fn cat_u16(acc: Vec<u16>, rest: Vec<BranchValues>) -> (r: Result<BranchValues, Error>)
    ensures
        match flat_fold(Column::U16(acc@), views(rest@)) {
            Err(e) => r == Err::<BranchValues, Error>(e),
            Ok(c) => r matches Ok(v) && v@ == c,
        },
{
    let ghost start = flat_fold(Column::U16(acc@), views(rest@));
    let mut acc = acc;
    let mut rest = rest;
    while rest.len() > 0
        invariant
            start == flat_fold(Column::U16(acc@), views(rest@)),
        decreases rest@.len(),
    {
        let ghost before = views(rest@);
        let p = rest.remove(0);
        proof {
            assert(views(rest@) =~= before.subrange(1, before.len() as int));
            assert(before[0] == p@);
        }
        match p {
            BranchValues::U16(more) => {
                let mut more = more;
                let ghost a = acc@;
                let ghost b = more@;
                acc.append(&mut more);
                assert(acc@ =~= a + b);
            },
            _ => {
                return Err(Error::Format(Issue::InconsistentTypes));
            },
        }
    }
    Ok(BranchValues::U16(acc))
}

/// Append the `I32` values of every later tree to `acc`.
#[verifier::loop_isolation(false)]
fn cat_i32(acc: Vec<i32>, rest: Vec<BranchValues>) -> (r: Result<BranchValues, Error>)
    ensures
        match flat_fold(Column::I32(acc@), views(rest@)) {
            Err(e) => r == Err::<BranchValues, Error>(e),
            Ok(c) => r matches Ok(v) && v@ == c,
        },
{
    let ghost start = flat_fold(Column::I32(acc@), views(rest@));
    let mut acc = acc;
    let mut rest = rest;
    while rest.len() > 0
        invariant
            start == flat_fold(Column::I32(acc@), views(rest@)),
        decreases rest@.len(),
    {
        let ghost before = views(rest@);
        let p = rest.remove(0);
        proof {
            assert(views(rest@) =~= before.subrange(1, before.len() as int));
            assert(before[0] == p@);
        }
        match p {
            BranchValues::I32(more) => {
                let mut more = more;
                let ghost a = acc@;
                let ghost b = more@;
                acc.append(&mut more);
                assert(acc@ =~= a + b);
            },
            _ => {
                return Err(Error::Format(Issue::InconsistentTypes));
            },
        }
    }
    Ok(BranchValues::I32(acc))
}

/// Append the `U32` values of every later tree to `acc`.
#[verifier::loop_isolation(false)]
fn cat_u32(acc: Vec<u32>, rest: Vec<BranchValues>) -> (r: Result<BranchValues, Error>)
    ensures
        match flat_fold(Column::U32(acc@), views(rest@)) {
            Err(e) => r == Err::<BranchValues, Error>(e),
            Ok(c) => r matches Ok(v) && v@ == c,
        },
{
    let ghost start = flat_fold(Column::U32(acc@), views(rest@));
    let mut acc = acc;
    let mut rest = rest;
    while rest.len() > 0
        invariant
            start == flat_fold(Column::U32(acc@), views(rest@)),
        decreases rest@.len(),
    {
        let ghost before = views(rest@);
        let p = rest.remove(0);
        proof {
            assert(views(rest@) =~= before.subrange(1, before.len() as int));
            assert(before[0] == p@);
        }
        match p {
            BranchValues::U32(more) => {
                let mut more = more;
                let ghost a = acc@;
                let ghost b = more@;
                acc.append(&mut more);
                assert(acc@ =~= a + b);
            },
            _ => {
                return Err(Error::Format(Issue::InconsistentTypes));
            },
        }
    }
    Ok(BranchValues::U32(acc))
}

/// Append the `I64` values of every later tree to `acc`.
#[verifier::loop_isolation(false)]
fn cat_i64(acc: Vec<i64>, rest: Vec<BranchValues>) -> (r: Result<BranchValues, Error>)
    ensures
        match flat_fold(Column::I64(acc@), views(rest@)) {
            Err(e) => r == Err::<BranchValues, Error>(e),
            Ok(c) => r matches Ok(v) && v@ == c,
        },
{
    let ghost start = flat_fold(Column::I64(acc@), views(rest@));
    let mut acc = acc;
    let mut rest = rest;
    while rest.len() > 0
        invariant
            start == flat_fold(Column::I64(acc@), views(rest@)),
        decreases rest@.len(),
    {
        let ghost before = views(rest@);
        let p = rest.remove(0);
        proof {
            assert(views(rest@) =~= before.subrange(1, before.len() as int));
            assert(before[0] == p@);
        }
        match p {
            BranchValues::I64(more) => {
                let mut more = more;
                let ghost a = acc@;
                let ghost b = more@;
                acc.append(&mut more);
                assert(acc@ =~= a + b);
            },
            _ => {
                return Err(Error::Format(Issue::InconsistentTypes));
            },
        }
    }
    Ok(BranchValues::I64(acc))
}

/// Append the `U64` values of every later tree to `acc`.
#[verifier::loop_isolation(false)]
fn cat_u64(acc: Vec<u64>, rest: Vec<BranchValues>) -> (r: Result<BranchValues, Error>)
    ensures
        match flat_fold(Column::U64(acc@), views(rest@)) {
            Err(e) => r == Err::<BranchValues, Error>(e),
            Ok(c) => r matches Ok(v) && v@ == c,
        },
{
    let ghost start = flat_fold(Column::U64(acc@), views(rest@));
    let mut acc = acc;
    let mut rest = rest;
    while rest.len() > 0
        invariant
            start == flat_fold(Column::U64(acc@), views(rest@)),
        decreases rest@.len(),
    {
        let ghost before = views(rest@);
        let p = rest.remove(0);
        proof {
            assert(views(rest@) =~= before.subrange(1, before.len() as int));
            assert(before[0] == p@);
        }
        match p {
            BranchValues::U64(more) => {
                let mut more = more;
                let ghost a = acc@;
                let ghost b = more@;
                acc.append(&mut more);
                assert(acc@ =~= a + b);
            },
            _ => {
                return Err(Error::Format(Issue::InconsistentTypes));
            },
        }
    }
    Ok(BranchValues::U64(acc))
}

/// Append the `F32` values of every later tree to `acc`.
#[verifier::loop_isolation(false)]
fn cat_f32(acc: Vec<u32>, rest: Vec<BranchValues>) -> (r: Result<BranchValues, Error>)
    ensures
        match flat_fold(Column::F32(acc@), views(rest@)) {
            Err(e) => r == Err::<BranchValues, Error>(e),
            Ok(c) => r matches Ok(v) && v@ == c,
        },
{
    let ghost start = flat_fold(Column::F32(acc@), views(rest@));
    let mut acc = acc;
    let mut rest = rest;
    while rest.len() > 0
        invariant
            start == flat_fold(Column::F32(acc@), views(rest@)),
        decreases rest@.len(),
    {
        let ghost before = views(rest@);
        let p = rest.remove(0);
        proof {
            assert(views(rest@) =~= before.subrange(1, before.len() as int));
            assert(before[0] == p@);
        }
        match p {
            BranchValues::F32(more) => {
                let mut more = more;
                let ghost a = acc@;
                let ghost b = more@;
                acc.append(&mut more);
                assert(acc@ =~= a + b);
            },
            _ => {
                return Err(Error::Format(Issue::InconsistentTypes));
            },
        }
    }
    Ok(BranchValues::F32(acc))
}

/// Append the `F64` values of every later tree to `acc`.
#[verifier::loop_isolation(false)]
fn cat_f64(acc: Vec<u64>, rest: Vec<BranchValues>) -> (r: Result<BranchValues, Error>)
    ensures
        match flat_fold(Column::F64(acc@), views(rest@)) {
            Err(e) => r == Err::<BranchValues, Error>(e),
            Ok(c) => r matches Ok(v) && v@ == c,
        },
{
    let ghost start = flat_fold(Column::F64(acc@), views(rest@));
    let mut acc = acc;
    let mut rest = rest;
    while rest.len() > 0
        invariant
            start == flat_fold(Column::F64(acc@), views(rest@)),
        decreases rest@.len(),
    {
        let ghost before = views(rest@);
        let p = rest.remove(0);
        proof {
            assert(views(rest@) =~= before.subrange(1, before.len() as int));
            assert(before[0] == p@);
        }
        match p {
            BranchValues::F64(more) => {
                let mut more = more;
                let ghost a = acc@;
                let ghost b = more@;
                acc.append(&mut more);
                assert(acc@ =~= a + b);
            },
            _ => {
                return Err(Error::Format(Issue::InconsistentTypes));
            },
        }
    }
    Ok(BranchValues::F64(acc))
}

/// Append the `VecBool` values of every later tree to `acc`.
#[verifier::loop_isolation(false)]
fn cat_vecbool(acc: Vec<Vec<bool>>, rest: Vec<BranchValues>) -> (r: Result<BranchValues, Error>)
    ensures
        match flat_fold(Column::VecBool(rows(acc@)), views(rest@)) {
            Err(e) => r == Err::<BranchValues, Error>(e),
            Ok(c) => r matches Ok(v) && v@ == c,
        },
{
    let ghost start = flat_fold(Column::VecBool(rows(acc@)), views(rest@));
    let mut acc = acc;
    let mut rest = rest;
    while rest.len() > 0
        invariant
            start == flat_fold(Column::VecBool(rows(acc@)), views(rest@)),
        decreases rest@.len(),
    {
        let ghost before = views(rest@);
        let p = rest.remove(0);
        proof {
            assert(views(rest@) =~= before.subrange(1, before.len() as int));
            assert(before[0] == p@);
        }
        match p {
            BranchValues::VecBool(more) => {
                let mut more = more;
                let ghost a = rows(acc@);
                let ghost b = rows(more@);
                acc.append(&mut more);
                assert(rows(acc@) =~= a + b);
            },
            _ => {
                return Err(Error::Format(Issue::InconsistentTypes));
            },
        }
    }
    Ok(BranchValues::VecBool(acc))
}

/// Append the `VecI8` values of every later tree to `acc`.
#[verifier::loop_isolation(false)]
fn cat_veci8(acc: Vec<Vec<i8>>, rest: Vec<BranchValues>) -> (r: Result<BranchValues, Error>)
    ensures
        match flat_fold(Column::VecI8(rows(acc@)), views(rest@)) {
            Err(e) => r == Err::<BranchValues, Error>(e),
            Ok(c) => r matches Ok(v) && v@ == c,
        },
{
    let ghost start = flat_fold(Column::VecI8(rows(acc@)), views(rest@));
    let mut acc = acc;
    let mut rest = rest;
    while rest.len() > 0
        invariant
            start == flat_fold(Column::VecI8(rows(acc@)), views(rest@)),
        decreases rest@.len(),
    {
        let ghost before = views(rest@);
        let p = rest.remove(0);
        proof {
            assert(views(rest@) =~= before.subrange(1, before.len() as int));
            assert(before[0] == p@);
        }
        match p {
            BranchValues::VecI8(more) => {
                let mut more = more;
                let ghost a = rows(acc@);
                let ghost b = rows(more@);
                acc.append(&mut more);
                assert(rows(acc@) =~= a + b);
            },
            _ => {
                return Err(Error::Format(Issue::InconsistentTypes));
            },
        }
    }
    Ok(BranchValues::VecI8(acc))
}

/// Append the `VecU8` values of every later tree to `acc`.
#[verifier::loop_isolation(false)]
fn cat_vecu8(acc: Vec<Vec<u8>>, rest: Vec<BranchValues>) -> (r: Result<BranchValues, Error>)
    ensures
        match flat_fold(Column::VecU8(rows(acc@)), views(rest@)) {
            Err(e) => r == Err::<BranchValues, Error>(e),
            Ok(c) => r matches Ok(v) && v@ == c,
        },
{
    let ghost start = flat_fold(Column::VecU8(rows(acc@)), views(rest@));
    let mut acc = acc;
    let mut rest = rest;
    while rest.len() > 0
        invariant
            start == flat_fold(Column::VecU8(rows(acc@)), views(rest@)),
        decreases rest@.len(),
    {
        let ghost before = views(rest@);
        let p = rest.remove(0);
        proof {
            assert(views(rest@) =~= before.subrange(1, before.len() as int));
            assert(before[0] == p@);
        }
        match p {
            BranchValues::VecU8(more) => {
                let mut more = more;
                let ghost a = rows(acc@);
                let ghost b = rows(more@);
                acc.append(&mut more);
                assert(rows(acc@) =~= a + b);
            },
            _ => {
                return Err(Error::Format(Issue::InconsistentTypes));
            },
        }
    }
    Ok(BranchValues::VecU8(acc))
}

/// Append the `VecI16` values of every later tree to `acc`.
#[verifier::loop_isolation(false)]
fn cat_veci16(acc: Vec<Vec<i16>>, rest: Vec<BranchValues>) -> (r: Result<BranchValues, Error>)
    ensures
        match flat_fold(Column::VecI16(rows(acc@)), views(rest@)) {
            Err(e) => r == Err::<BranchValues, Error>(e),
            Ok(c) => r matches Ok(v) && v@ == c,
        },
{
    let ghost start = flat_fold(Column::VecI16(rows(acc@)), views(rest@));
    let mut acc = acc;
    let mut rest = rest;
    while rest.len() > 0
        invariant
            start == flat_fold(Column::VecI16(rows(acc@)), views(rest@)),
        decreases rest@.len(),
    {
        let ghost before = views(rest@);
        let p = rest.remove(0);
        proof {
            assert(views(rest@) =~= before.subrange(1, before.len() as int));
            assert(before[0] == p@);
        }
        match p {
            BranchValues::VecI16(more) => {
                let mut more = more;
                let ghost a = rows(acc@);
                let ghost b = rows(more@);
                acc.append(&mut more);
                assert(rows(acc@) =~= a + b);
            },
            _ => {
                return Err(Error::Format(Issue::InconsistentTypes));
            },
        }
    }
    Ok(BranchValues::VecI16(acc))
}

/// Append the `VecU16` values of every later tree to `acc`.
#[verifier::loop_isolation(false)]
fn cat_vecu16(acc: Vec<Vec<u16>>, rest: Vec<BranchValues>) -> (r: Result<BranchValues, Error>)
    ensures
        match flat_fold(Column::VecU16(rows(acc@)), views(rest@)) {
            Err(e) => r == Err::<BranchValues, Error>(e),
            Ok(c) => r matches Ok(v) && v@ == c,
        },
{
    let ghost start = flat_fold(Column::VecU16(rows(acc@)), views(rest@));
    let mut acc = acc;
    let mut rest = rest;
    while rest.len() > 0
        invariant
            start == flat_fold(Column::VecU16(rows(acc@)), views(rest@)),
        decreases rest@.len(),
    {
        let ghost before = views(rest@);
        let p = rest.remove(0);
        proof {
            assert(views(rest@) =~= before.subrange(1, before.len() as int));
            assert(before[0] == p@);
        }
        match p {
            BranchValues::VecU16(more) => {
                let mut more = more;
                let ghost a = rows(acc@);
                let ghost b = rows(more@);
                acc.append(&mut more);
                assert(rows(acc@) =~= a + b);
            },
            _ => {
                return Err(Error::Format(Issue::InconsistentTypes));
            },
        }
    }
    Ok(BranchValues::VecU16(acc))
}

/// Append the `VecI32` values of every later tree to `acc`.
#[verifier::loop_isolation(false)]
fn cat_veci32(acc: Vec<Vec<i32>>, rest: Vec<BranchValues>) -> (r: Result<BranchValues, Error>)
    ensures
        match flat_fold(Column::VecI32(rows(acc@)), views(rest@)) {
            Err(e) => r == Err::<BranchValues, Error>(e),
            Ok(c) => r matches Ok(v) && v@ == c,
        },
{
    let ghost start = flat_fold(Column::VecI32(rows(acc@)), views(rest@));
    let mut acc = acc;
    let mut rest = rest;
    while rest.len() > 0
        invariant
            start == flat_fold(Column::VecI32(rows(acc@)), views(rest@)),
        decreases rest@.len(),
    {
        let ghost before = views(rest@);
        let p = rest.remove(0);
        proof {
            assert(views(rest@) =~= before.subrange(1, before.len() as int));
            assert(before[0] == p@);
        }
        match p {
            BranchValues::VecI32(more) => {
                let mut more = more;
                let ghost a = rows(acc@);
                let ghost b = rows(more@);
                acc.append(&mut more);
                assert(rows(acc@) =~= a + b);
            },
            _ => {
                return Err(Error::Format(Issue::InconsistentTypes));
            },
        }
    }
    Ok(BranchValues::VecI32(acc))
}

/// Append the `VecU32` values of every later tree to `acc`.
#[verifier::loop_isolation(false)]
fn cat_vecu32(acc: Vec<Vec<u32>>, rest: Vec<BranchValues>) -> (r: Result<BranchValues, Error>)
    ensures
        match flat_fold(Column::VecU32(rows(acc@)), views(rest@)) {
            Err(e) => r == Err::<BranchValues, Error>(e),
            Ok(c) => r matches Ok(v) && v@ == c,
        },
{
    let ghost start = flat_fold(Column::VecU32(rows(acc@)), views(rest@));
    let mut acc = acc;
    let mut rest = rest;
    while rest.len() > 0
        invariant
            start == flat_fold(Column::VecU32(rows(acc@)), views(rest@)),
        decreases rest@.len(),
    {
        let ghost before = views(rest@);
        let p = rest.remove(0);
        proof {
            assert(views(rest@) =~= before.subrange(1, before.len() as int));
            assert(before[0] == p@);
        }
        match p {
            BranchValues::VecU32(more) => {
                let mut more = more;
                let ghost a = rows(acc@);
                let ghost b = rows(more@);
                acc.append(&mut more);
                assert(rows(acc@) =~= a + b);
            },
            _ => {
                return Err(Error::Format(Issue::InconsistentTypes));
            },
        }
    }
    Ok(BranchValues::VecU32(acc))
}

/// Append the `VecI64` values of every later tree to `acc`.
#[verifier::loop_isolation(false)]
fn cat_veci64(acc: Vec<Vec<i64>>, rest: Vec<BranchValues>) -> (r: Result<BranchValues, Error>)
    ensures
        match flat_fold(Column::VecI64(rows(acc@)), views(rest@)) {
            Err(e) => r == Err::<BranchValues, Error>(e),
            Ok(c) => r matches Ok(v) && v@ == c,
        },
{
    let ghost start = flat_fold(Column::VecI64(rows(acc@)), views(rest@));
    let mut acc = acc;
    let mut rest = rest;
    while rest.len() > 0
        invariant
            start == flat_fold(Column::VecI64(rows(acc@)), views(rest@)),
        decreases rest@.len(),
    {
        let ghost before = views(rest@);
        let p = rest.remove(0);
        proof {
            assert(views(rest@) =~= before.subrange(1, before.len() as int));
            assert(before[0] == p@);
        }
        match p {
            BranchValues::VecI64(more) => {
                let mut more = more;
                let ghost a = rows(acc@);
                let ghost b = rows(more@);
                acc.append(&mut more);
                assert(rows(acc@) =~= a + b);
            },
            _ => {
                return Err(Error::Format(Issue::InconsistentTypes));
            },
        }
    }
    Ok(BranchValues::VecI64(acc))
}

/// Append the `VecU64` values of every later tree to `acc`.
#[verifier::loop_isolation(false)]
fn cat_vecu64(acc: Vec<Vec<u64>>, rest: Vec<BranchValues>) -> (r: Result<BranchValues, Error>)
    ensures
        match flat_fold(Column::VecU64(rows(acc@)), views(rest@)) {
            Err(e) => r == Err::<BranchValues, Error>(e),
            Ok(c) => r matches Ok(v) && v@ == c,
        },
{
    let ghost start = flat_fold(Column::VecU64(rows(acc@)), views(rest@));
    let mut acc = acc;
    let mut rest = rest;
    while rest.len() > 0
        invariant
            start == flat_fold(Column::VecU64(rows(acc@)), views(rest@)),
        decreases rest@.len(),
    {
        let ghost before = views(rest@);
        let p = rest.remove(0);
        proof {
            assert(views(rest@) =~= before.subrange(1, before.len() as int));
            assert(before[0] == p@);
        }
        match p {
            BranchValues::VecU64(more) => {
                let mut more = more;
                let ghost a = rows(acc@);
                let ghost b = rows(more@);
                acc.append(&mut more);
                assert(rows(acc@) =~= a + b);
            },
            _ => {
                return Err(Error::Format(Issue::InconsistentTypes));
            },
        }
    }
    Ok(BranchValues::VecU64(acc))
}

/// Append the `VecF32` values of every later tree to `acc`.
#[verifier::loop_isolation(false)]
fn cat_vecf32(acc: Vec<Vec<u32>>, rest: Vec<BranchValues>) -> (r: Result<BranchValues, Error>)
    ensures
        match flat_fold(Column::VecF32(rows(acc@)), views(rest@)) {
            Err(e) => r == Err::<BranchValues, Error>(e),
            Ok(c) => r matches Ok(v) && v@ == c,
        },
{
    let ghost start = flat_fold(Column::VecF32(rows(acc@)), views(rest@));
    let mut acc = acc;
    let mut rest = rest;
    while rest.len() > 0
        invariant
            start == flat_fold(Column::VecF32(rows(acc@)), views(rest@)),
        decreases rest@.len(),
    {
        let ghost before = views(rest@);
        let p = rest.remove(0);
        proof {
            assert(views(rest@) =~= before.subrange(1, before.len() as int));
            assert(before[0] == p@);
        }
        match p {
            BranchValues::VecF32(more) => {
                let mut more = more;
                let ghost a = rows(acc@);
                let ghost b = rows(more@);
                acc.append(&mut more);
                assert(rows(acc@) =~= a + b);
            },
            _ => {
                return Err(Error::Format(Issue::InconsistentTypes));
            },
        }
    }
    Ok(BranchValues::VecF32(acc))
}

/// Append the `VecF64` values of every later tree to `acc`.
#[verifier::loop_isolation(false)]
fn cat_vecf64(acc: Vec<Vec<u64>>, rest: Vec<BranchValues>) -> (r: Result<BranchValues, Error>)
    ensures
        match flat_fold(Column::VecF64(rows(acc@)), views(rest@)) {
            Err(e) => r == Err::<BranchValues, Error>(e),
            Ok(c) => r matches Ok(v) && v@ == c,
        },
{
    let ghost start = flat_fold(Column::VecF64(rows(acc@)), views(rest@));
    let mut acc = acc;
    let mut rest = rest;
    while rest.len() > 0
        invariant
            start == flat_fold(Column::VecF64(rows(acc@)), views(rest@)),
        decreases rest@.len(),
    {
        let ghost before = views(rest@);
        let p = rest.remove(0);
        proof {
            assert(views(rest@) =~= before.subrange(1, before.len() as int));
            assert(before[0] == p@);
        }
        match p {
            BranchValues::VecF64(more) => {
                let mut more = more;
                let ghost a = rows(acc@);
                let ghost b = rows(more@);
                acc.append(&mut more);
                assert(rows(acc@) =~= a + b);
            },
            _ => {
                return Err(Error::Format(Issue::InconsistentTypes));
            },
        }
    }
    Ok(BranchValues::VecF64(acc))
}

/// Append the `Str` values of every later tree to `acc`.
#[verifier::loop_isolation(false)]
fn cat_str(acc: Vec<String>, rest: Vec<BranchValues>) -> (r: Result<BranchValues, Error>)
    ensures
        match flat_fold(Column::Str(texts(acc@)), views(rest@)) {
            Err(e) => r == Err::<BranchValues, Error>(e),
            Ok(c) => r matches Ok(v) && v@ == c,
        },
{
    let ghost start = flat_fold(Column::Str(texts(acc@)), views(rest@));
    let mut acc = acc;
    let mut rest = rest;
    while rest.len() > 0
        invariant
            start == flat_fold(Column::Str(texts(acc@)), views(rest@)),
        decreases rest@.len(),
    {
        let ghost before = views(rest@);
        let p = rest.remove(0);
        proof {
            assert(views(rest@) =~= before.subrange(1, before.len() as int));
            assert(before[0] == p@);
        }
        match p {
            BranchValues::Str(more) => {
                let mut more = more;
                let ghost a = texts(acc@);
                let ghost b = texts(more@);
                acc.append(&mut more);
                assert(texts(acc@) =~= a + b);
            },
            _ => {
                return Err(Error::Format(Issue::InconsistentTypes));
            },
        }
    }
    Ok(BranchValues::Str(acc))
}

/// Append the `VecStr` values of every later tree to `acc`.
#[verifier::loop_isolation(false)]
fn cat_vecstr(acc: Vec<Vec<String>>, rest: Vec<BranchValues>) -> (r: Result<BranchValues, Error>)
    ensures
        match flat_fold(Column::VecStr(text_rows(acc@)), views(rest@)) {
            Err(e) => r == Err::<BranchValues, Error>(e),
            Ok(c) => r matches Ok(v) && v@ == c,
        },
{
    let ghost start = flat_fold(Column::VecStr(text_rows(acc@)), views(rest@));
    let mut acc = acc;
    let mut rest = rest;
    while rest.len() > 0
        invariant
            start == flat_fold(Column::VecStr(text_rows(acc@)), views(rest@)),
        decreases rest@.len(),
    {
        let ghost before = views(rest@);
        let p = rest.remove(0);
        proof {
            assert(views(rest@) =~= before.subrange(1, before.len() as int));
            assert(before[0] == p@);
        }
        match p {
            BranchValues::VecStr(more) => {
                let mut more = more;
                let ghost a = text_rows(acc@);
                let ghost b = text_rows(more@);
                acc.append(&mut more);
                assert(text_rows(acc@) =~= a + b);
            },
            _ => {
                return Err(Error::Format(Issue::InconsistentTypes));
            },
        }
    }
    Ok(BranchValues::VecStr(acc))
}


/// Joining the values read from a single tree gives those values back.
pub proof fn lemma_concat_single(c: Column)
    ensures
        concat_model(seq![c]) == Ok::<Column, Error>(c),
    decreases depth(c),
{
    let parts = seq![c];
    assert(parts.subrange(1, 1) =~= Seq::<Column>::empty());
    if let Column::Nested(o, items) = c {
        assert(inner_columns(parts) =~= seq![*items]);
        lemma_concat_single(*items);
    }
}

/// What joining `c` with one more column `x` gives: `c`'s values followed
/// by `x`'s, or an error when they are of different kinds.
pub open spec fn then_append(r: Result<Column, Error>, x: Column) -> Result<Column, Error> {
    match r {
        Err(e) => Err(e),
        Ok(c) => match append_col(c, x) {
            Some(d) => Ok(d),
            None => Err(Error::Format(Issue::InconsistentTypes)),
        },
    }
}

/// Folding one more column appends it to the fold so far.
proof fn lemma_fold_push(acc: Column, rest: Seq<Column>, x: Column)
    ensures
        flat_fold(acc, rest.push(x)) == then_append(flat_fold(acc, rest), x),
    decreases rest.len(),
{
    let rx = rest.push(x);
    if rest.len() == 0 {
        assert(rx.subrange(1, rx.len() as int) =~= Seq::<Column>::empty());
        if let Some(c) = append_col(acc, x) {
            assert(flat_fold(c, Seq::<Column>::empty()) == Ok::<Column, Error>(c));
        }
    } else {
        assert(rx[0] == rest[0]);
        if let Some(c) = append_col(acc, rest[0]) {
            let tail = rest.subrange(1, rest.len() as int);
            assert(rx.subrange(1, rx.len() as int) =~= tail.push(x));
            lemma_fold_push(c, tail, x);
        }
    }
}

/// Chaining one more tree appends its entries. For a branch whose values
/// are not doubly nested, joining the reads of `parts` and then of `x`
/// gives the join of `parts` followed entry by entry by `x`'s values, and
/// an error exactly when the join of `parts` is one or `x` holds another
/// kind of values.
pub proof fn lemma_concat_push(parts: Seq<Column>, x: Column)
    requires
        parts.len() > 0,
        !(parts[0] is Nested),
    ensures
        concat_model(parts.push(x)) == then_append(concat_model(parts), x),
{
    let px = parts.push(x);
    assert(px[0] == parts[0]);
    assert(px.subrange(1, px.len() as int) =~= parts.subrange(1, parts.len() as int).push(x));
    lemma_fold_push(parts[0], parts.subrange(1, parts.len() as int), x);
}

} // verus!
