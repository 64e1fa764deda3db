//! Splitting a branch into baskets of a bounded number of entries.

use vstd::prelude::*;
use super::branch::{Branch, BranchKind, SplitMember};
use super::collection::sub_name;
use super::layout::{entry_count, lens_i32, vec_row_lengths};
use crate::text::concat_str;
use crate::chain::{append_col, concat_model, flat_fold};
use crate::error::Error;
use crate::reader::decode::{clamp_end, cut, slice_model};
use crate::value::Column;
use crate::value::{rows, texts, text_rows, BranchValues};

verus! {

/// The bounds `[s, e)` of `[start, start + len)` clamped to `n` items.
fn clamp_range(start: usize, len: usize, n: usize) -> (r: (usize, usize))
    requires
        start + len <= usize::MAX,
    ensures
        r.1 == clamp_end(start as int, len as int, n as int),
        r.0 == (if start < r.1 { start } else { r.1 }),
        r.0 <= r.1 <= n,
{
    let end = if start + len < n { start + len } else { n };
    let s = if start < end { start } else { end };
    (s, end)
}

/// A copy of `v[s..e]`.
fn copy_range<T: Copy>(v: &Vec<T>, s: usize, e: usize) -> (r: Vec<T>)
    requires
        s <= e <= v@.len(),
    ensures
        r@ == v@.subrange(s as int, e as int),
{
    let mut out: Vec<T> = Vec::new();
    let mut i = s;
    while i < e
        invariant
            s <= i <= e <= v@.len(),
            out@ == v@.subrange(s as int, i as int),
        decreases e - i,
    {
        out.push(v[i]);
        i += 1;
        assert(out@ =~= v@.subrange(s as int, i as int));
    }
    out
}

/// A copy of the rows `v[s..e]`.
fn copy_rows<T: Copy>(v: &Vec<Vec<T>>, s: usize, e: usize) -> (r: Vec<Vec<T>>)
    requires
        s <= e <= v@.len(),
    ensures
        rows(r@) == rows(v@).subrange(s as int, e as int),
{
    let mut out: Vec<Vec<T>> = Vec::new();
    let mut i = s;
    while i < e
        invariant
            s <= i <= e <= v@.len(),
            rows(out@) == rows(v@).subrange(s as int, i as int),
        decreases e - i,
    {
        let row = &v[i];
        let copy = copy_range(row, 0, row.len());
        assert(copy@ == row@);
        let ghost before = out@;
        out.push(copy);
        assert(rows(out@) =~= rows(before).push(copy@));
        i += 1;
        assert(rows(out@) =~= rows(v@).subrange(s as int, i as int));
    }
    out
}

/// A copy of the strings `v[s..e]`.
fn copy_strings(v: &Vec<String>, s: usize, e: usize) -> (r: Vec<String>)
    requires
        s <= e <= v@.len(),
    ensures
        texts(r@) == texts(v@).subrange(s as int, e as int),
{
    let mut out: Vec<String> = Vec::new();
    let mut i = s;
    while i < e
        invariant
            s <= i <= e <= v@.len(),
            texts(out@) == texts(v@).subrange(s as int, i as int),
        decreases e - i,
    {
        let copy = v[i].clone();
        let ghost before = out@;
        out.push(copy);
        assert(texts(out@) =~= texts(before).push(copy@));
        i += 1;
        assert(texts(out@) =~= texts(v@).subrange(s as int, i as int));
    }
    out
}

/// A copy of the string rows `v[s..e]`.
fn copy_string_rows(v: &Vec<Vec<String>>, s: usize, e: usize) -> (r: Vec<Vec<String>>)
    requires
        s <= e <= v@.len(),
    ensures
        text_rows(r@) == text_rows(v@).subrange(s as int, e as int),
{
    let mut out: Vec<Vec<String>> = Vec::new();
    let mut i = s;
    while i < e
        invariant
            s <= i <= e <= v@.len(),
            text_rows(out@) == text_rows(v@).subrange(s as int, i as int),
        decreases e - i,
    {
        let row = &v[i];
        let copy = copy_strings(row, 0, row.len());
        assert(texts(row@).subrange(0, row@.len() as int) == texts(row@));
        let ghost before = out@;
        out.push(copy);
        assert(text_rows(out@) =~= text_rows(before).push(texts(copy@)));
        i += 1;
        assert(text_rows(out@) =~= text_rows(v@).subrange(s as int, i as int));
    }
    out
}

/// Slice a [`BranchValues`] to `[start, start+len)` (clamped), preserving
/// the variant; the original is left as it is.
pub fn chunk_values(bv: &BranchValues, start: usize, len: usize) -> (r: BranchValues)
    requires
        !(bv@ is Nested),
        start + len <= usize::MAX,
    ensures
        r@ == slice_model(bv@, start as int, len as int),
{
    match bv {
        BranchValues::Bool(x) => {
            let (s, e) = clamp_range(start, len, x.len());
            BranchValues::Bool(copy_range(x, s, e))
        },
        BranchValues::I8(x) => {
            let (s, e) = clamp_range(start, len, x.len());
            BranchValues::I8(copy_range(x, s, e))
        },
        BranchValues::U8(x) => {
            let (s, e) = clamp_range(start, len, x.len());
            BranchValues::U8(copy_range(x, s, e))
        },
        BranchValues::I16(x) => {
            let (s, e) = clamp_range(start, len, x.len());
            BranchValues::I16(copy_range(x, s, e))
        },
        BranchValues::U16(x) => {
            let (s, e) = clamp_range(start, len, x.len());
            BranchValues::U16(copy_range(x, s, e))
        },
        BranchValues::I32(x) => {
            let (s, e) = clamp_range(start, len, x.len());
            BranchValues::I32(copy_range(x, s, e))
        },
        BranchValues::U32(x) => {
            let (s, e) = clamp_range(start, len, x.len());
            BranchValues::U32(copy_range(x, s, e))
        },
        BranchValues::I64(x) => {
            let (s, e) = clamp_range(start, len, x.len());
            BranchValues::I64(copy_range(x, s, e))
        },
        BranchValues::U64(x) => {
            let (s, e) = clamp_range(start, len, x.len());
            BranchValues::U64(copy_range(x, s, e))
        },
        BranchValues::F32(x) => {
            let (s, e) = clamp_range(start, len, x.len());
            BranchValues::F32(copy_range(x, s, e))
        },
        BranchValues::F64(x) => {
            let (s, e) = clamp_range(start, len, x.len());
            BranchValues::F64(copy_range(x, s, e))
        },
        BranchValues::VecBool(x) => {
            let (s, e) = clamp_range(start, len, x.len());
            BranchValues::VecBool(copy_rows(x, s, e))
        },
        BranchValues::VecI8(x) => {
            let (s, e) = clamp_range(start, len, x.len());
            BranchValues::VecI8(copy_rows(x, s, e))
        },
        BranchValues::VecU8(x) => {
            let (s, e) = clamp_range(start, len, x.len());
            BranchValues::VecU8(copy_rows(x, s, e))
        },
        BranchValues::VecI16(x) => {
            let (s, e) = clamp_range(start, len, x.len());
            BranchValues::VecI16(copy_rows(x, s, e))
        },
        BranchValues::VecU16(x) => {
            let (s, e) = clamp_range(start, len, x.len());
            BranchValues::VecU16(copy_rows(x, s, e))
        },
        BranchValues::VecI32(x) => {
            let (s, e) = clamp_range(start, len, x.len());
            BranchValues::VecI32(copy_rows(x, s, e))
        },
        BranchValues::VecU32(x) => {
            let (s, e) = clamp_range(start, len, x.len());
            BranchValues::VecU32(copy_rows(x, s, e))
        },
        BranchValues::VecI64(x) => {
            let (s, e) = clamp_range(start, len, x.len());
            BranchValues::VecI64(copy_rows(x, s, e))
        },
        BranchValues::VecU64(x) => {
            let (s, e) = clamp_range(start, len, x.len());
            BranchValues::VecU64(copy_rows(x, s, e))
        },
        BranchValues::VecF32(x) => {
            let (s, e) = clamp_range(start, len, x.len());
            BranchValues::VecF32(copy_rows(x, s, e))
        },
        BranchValues::VecF64(x) => {
            let (s, e) = clamp_range(start, len, x.len());
            BranchValues::VecF64(copy_rows(x, s, e))
        },
        BranchValues::Str(x) => {
            let (s, e) = clamp_range(start, len, x.len());
            BranchValues::Str(copy_strings(x, s, e))
        },
        BranchValues::VecStr(x) => {
            let (s, e) = clamp_range(start, len, x.len());
            BranchValues::VecStr(copy_string_rows(x, s, e))
        },
        BranchValues::Nested { .. } => BranchValues::I32(Vec::new()),
    }
}

/// A sub-range `[start, start+len)` of a non-split branch's entries, as a
/// fresh `Branch` — used to split a branch into multiple baskets.
pub fn chunk_branch(branch: &Branch, start: usize, len: usize) -> (r: Branch)
    requires
        !(branch.values_of() is Nested),
        start + len <= usize::MAX,
    ensures
        r.name_of() == branch.name_of(),
        r.values_of() == slice_model(branch.values_of(), start as int, len as int),
        match branch.kind_of() {
            BranchKind::Jagged => r.kind_of() is Jagged,
            BranchKind::StlVector => r.kind_of() is StlVector,
            BranchKind::Count => r.kind_of() is Count,
            _ => r.kind_of() is Plain,
        },
{
    Branch { name: branch.name.clone(), values: chunk_values(&branch.values, start, len), kind: branch.chunk_kind() }
}

/// The basket size a branch of `n` entries is cut at: `entries_per_basket`,
/// or the whole branch (at least one entry) when it is 0.
pub open spec fn range_unit(n: nat, epb: nat) -> int {
    if epb == 0 {
        if n == 0 {
            1
        } else {
            n as int
        }
    } else {
        epb as int
    }
}

/// The entry ranges `(start, len)` a branch of `n` entries is written in:
/// consecutive runs of [`range_unit`] entries, the last one shorter. An
/// empty branch has no range (it is still written as one empty basket).
pub open spec fn spec_basket_ranges(n: nat, epb: nat) -> Seq<(usize, usize)> {
    let e = range_unit(n, epb);
    Seq::new(
        ((n + e - 1) / e) as nat,
        |k: int| ((k * e) as usize, (if n - k * e < e { n - k * e } else { e }) as usize),
    )
}

/// The entry ranges a branch of `n` entries is split into for baskets of at
/// most `entries_per_basket` entries (0 = one basket).
pub fn basket_ranges(n: usize, entries_per_basket: usize) -> (r: Vec<(usize, usize)>)
    ensures
        r@ == spec_basket_ranges(n as nat, entries_per_basket as nat),
{
    let epb: usize = if entries_per_basket == 0 {
        if n == 0 { 1 } else { n }
    } else {
        entries_per_basket
    };
    let ghost e: int = epb as int;
    let mut out: Vec<(usize, usize)> = Vec::new();
    let mut start: usize = 0;
    let ghost mut k: int = 0;
    while start < n
        invariant
            e == epb,
            e == range_unit(n as nat, entries_per_basket as nat),
            e >= 1,
            0 <= k,
            start == (if k * e <= n { k * e } else { n as int }),
            k == 0 || (k - 1) * e < n,
            out@.len() == k,
            forall|j: int| 0 <= j < k ==> #[trigger] out@[j] == ((j * e) as usize, (if n - j * e < e {
                n - j * e
            } else {
                e
            }) as usize),
        decreases n - start,
    {
        proof {
            assert(k * e < n) by {
                if k * e > n {
                }
            }
        }
        let len = if epb < n - start { epb } else { n - start };
        out.push((start, len));
        proof {
            assert((k + 1) * e == k * e + e) by (nonlinear_arith);
            k = k + 1;
        }
        start = start + len;
    }
    proof {
        let q = (n + e - 1) / e;
        assert(k == q) by (nonlinear_arith)
            requires
                k * e >= n,
                k == 0 || (k - 1) * e < n,
                e >= 1,
                k >= 0,
                q == (n + e - 1) / e,
        ;
    }
    assert(out@ =~= spec_basket_ranges(n as nat, entries_per_basket as nat));
    out
}


/// Where the `k`-th basket of a branch of `n` entries, `e` per basket,
/// starts (the end of the entries for `k` past the last).
pub open spec fn piece_start(n: int, e: int, k: int) -> int {
    if k * e < n {
        k * e
    } else {
        n
    }
}

/// The slices a column is written in: one per range of
/// [`spec_basket_ranges`].
pub open spec fn basket_pieces(c: Column, epb: nat) -> Seq<Column> {
    spec_basket_ranges(c.entries(), epb).map_values(
        |r: (usize, usize)| slice_model(c, r.0 as int, r.1 as int),
    )
}

/// The `k`-th range of [`spec_basket_ranges`] cuts out
/// `[piece_start(k), piece_start(k + 1))`.
proof fn lemma_cut_piece<T>(x: Seq<T>, e: int, k: int)
    requires
        e >= 1,
        0 <= k,
        k * e < x.len(),
    ensures
        cut(x, k * e, (if x.len() - k * e < e { x.len() - k * e } else { e }))
            == x.subrange(piece_start(x.len() as int, e, k), piece_start(x.len() as int, e, k + 1)),
{
    assert((k + 1) * e == k * e + e) by (nonlinear_arith);
}

/// Folding the pieces from the `k`-th on onto the entries before it gives
/// the whole column.
proof fn lemma_fold_pieces<T>(mk: spec_fn(Seq<T>) -> Column, x: Seq<T>, ps: Seq<Column>, e: int, k: int)
    requires
        e >= 1,
        0 <= k <= ps.len(),
        ps.len() * e >= x.len(),
        forall|a: Seq<T>, b: Seq<T>| #[trigger] append_col(mk(a), mk(b)) == Some(mk(a + b)),
        forall|j: int|
            0 <= j < ps.len() ==> #[trigger] ps[j] == mk(
                x.subrange(piece_start(x.len() as int, e, j), piece_start(x.len() as int, e, j + 1)),
            ),
    ensures
        flat_fold(mk(x.subrange(0, piece_start(x.len() as int, e, k))), ps.subrange(k, ps.len() as int))
            == Ok::<Column, Error>(mk(x)),
    decreases ps.len() - k,
{
    let n = x.len() as int;
    if k == ps.len() {
        assert(piece_start(n, e, k) == n);
        assert(x.subrange(0, n) =~= x);
    } else {
        let rest = ps.subrange(k, ps.len() as int);
        assert(rest[0] == ps[k]);
        assert(rest.subrange(1, rest.len() as int) =~= ps.subrange(k + 1, ps.len() as int));
        assert((k + 1) * e == k * e + e) by (nonlinear_arith);
        assert(piece_start(n, e, k) <= piece_start(n, e, k + 1));
        assert(x.subrange(0, piece_start(n, e, k)) + x.subrange(piece_start(n, e, k), piece_start(n, e, k + 1))
            =~= x.subrange(0, piece_start(n, e, k + 1)));
        lemma_fold_pieces(mk, x, ps, e, k + 1);
    }
}

/// The rejoining law for one kind of column.
proof fn lemma_rejoin_kind<T>(mk: spec_fn(Seq<T>) -> Column, c: Column, x: Seq<T>, epb: nat)
    requires
        c == mk(x),
        c.entries() == x.len(),
        0 < x.len() <= usize::MAX,
        epb <= usize::MAX,
        forall|a: Seq<T>, b: Seq<T>| #[trigger] append_col(mk(a), mk(b)) == Some(mk(a + b)),
        forall|o: int, l: int| #[trigger] slice_model(c, o, l) == mk(cut(x, o, l)),
        forall|a: Seq<T>| !(#[trigger] mk(a) is Nested),
    ensures
        concat_model(basket_pieces(c, epb)) == Ok::<Column, Error>(c),
{
    let n = x.len() as int;
    let e = range_unit(x.len(), epb);
    let ps = basket_pieces(c, epb);
    let m = (n + e - 1) / e;
    assert(m * e >= n && m >= 1 && (m - 1) * e < n) by (nonlinear_arith)
        requires
            m == (n + e - 1) / e,
            e >= 1,
            n >= 1,
    ;
    assert forall|j: int| 0 <= j < ps.len() implies #[trigger] ps[j] == mk(
        x.subrange(piece_start(n, e, j), piece_start(n, e, j + 1)),
    ) by {
        assert(j * e <= (m - 1) * e) by (nonlinear_arith)
            requires
                0 <= j <= m - 1,
                e >= 1,
        ;
        lemma_cut_piece(x, e, j);
    }
    assert(ps.len() == m);
    lemma_fold_pieces(mk, x, ps, e, 1);
    assert(piece_start(n, e, 0) == 0);
    assert(ps[0] == mk(x.subrange(0, piece_start(n, e, 1))));
    assert(!(ps[0] is Nested));
}

/// Splitting a branch's values into baskets of at most `epb` entries (0 =
/// one basket) and joining the pieces back in order gives the values again:
/// what several baskets are written from, a chain of reads restores.
pub proof fn lemma_pieces_rejoin(c: Column, epb: nat)
    requires
        !(c is Nested),
        0 < c.entries() <= usize::MAX,
        epb <= usize::MAX,
    ensures
        concat_model(basket_pieces(c, epb)) == Ok::<Column, Error>(c),
{
    match c {
        Column::Bool(x) => lemma_rejoin_kind(|s: Seq<bool>| Column::Bool(s), c, x, epb),
        Column::I8(x) => lemma_rejoin_kind(|s: Seq<i8>| Column::I8(s), c, x, epb),
        Column::U8(x) => lemma_rejoin_kind(|s: Seq<u8>| Column::U8(s), c, x, epb),
        Column::I16(x) => lemma_rejoin_kind(|s: Seq<i16>| Column::I16(s), c, x, epb),
        Column::U16(x) => lemma_rejoin_kind(|s: Seq<u16>| Column::U16(s), c, x, epb),
        Column::I32(x) => lemma_rejoin_kind(|s: Seq<i32>| Column::I32(s), c, x, epb),
        Column::U32(x) => lemma_rejoin_kind(|s: Seq<u32>| Column::U32(s), c, x, epb),
        Column::I64(x) => lemma_rejoin_kind(|s: Seq<i64>| Column::I64(s), c, x, epb),
        Column::U64(x) => lemma_rejoin_kind(|s: Seq<u64>| Column::U64(s), c, x, epb),
        Column::F32(x) => lemma_rejoin_kind(|s: Seq<u32>| Column::F32(s), c, x, epb),
        Column::F64(x) => lemma_rejoin_kind(|s: Seq<u64>| Column::F64(s), c, x, epb),
        Column::VecBool(x) => lemma_rejoin_kind(|s: Seq<Seq<bool>>| Column::VecBool(s), c, x, epb),
        Column::VecI8(x) => lemma_rejoin_kind(|s: Seq<Seq<i8>>| Column::VecI8(s), c, x, epb),
        Column::VecU8(x) => lemma_rejoin_kind(|s: Seq<Seq<u8>>| Column::VecU8(s), c, x, epb),
        Column::VecI16(x) => lemma_rejoin_kind(|s: Seq<Seq<i16>>| Column::VecI16(s), c, x, epb),
        Column::VecU16(x) => lemma_rejoin_kind(|s: Seq<Seq<u16>>| Column::VecU16(s), c, x, epb),
        Column::VecI32(x) => lemma_rejoin_kind(|s: Seq<Seq<i32>>| Column::VecI32(s), c, x, epb),
        Column::VecU32(x) => lemma_rejoin_kind(|s: Seq<Seq<u32>>| Column::VecU32(s), c, x, epb),
        Column::VecI64(x) => lemma_rejoin_kind(|s: Seq<Seq<i64>>| Column::VecI64(s), c, x, epb),
        Column::VecU64(x) => lemma_rejoin_kind(|s: Seq<Seq<u64>>| Column::VecU64(s), c, x, epb),
        Column::VecF32(x) => lemma_rejoin_kind(|s: Seq<Seq<u32>>| Column::VecF32(s), c, x, epb),
        Column::VecF64(x) => lemma_rejoin_kind(|s: Seq<Seq<u64>>| Column::VecF64(s), c, x, epb),
        Column::Str(x) => lemma_rejoin_kind(|s: Seq<Seq<char>>| Column::Str(s), c, x, epb),
        Column::VecStr(x) => lemma_rejoin_kind(|s: Seq<Seq<Seq<char>>>| Column::VecStr(s), c, x, epb),
        Column::Nested(..) => {},
    }
}

/// Every range of [`spec_basket_ranges`] ends within the entries.
proof fn lemma_range_fits(n: nat, epb: nat, k: int)
    requires
        0 <= k < spec_basket_ranges(n, epb).len(),
        n <= usize::MAX,
    ensures
        spec_basket_ranges(n, epb)[k].0 + spec_basket_ranges(n, epb)[k].1 <= n,
{
    let e = range_unit(n, epb);
    assert(e >= 1);
    assert(k * e < n) by (nonlinear_arith)
        requires
            e >= 1,
            0 <= k < (n + e - 1) / e,
    {
        assert(k + 1 <= (n + e - 1) / e);
        assert((k + 1) * e <= ((n + e - 1) / e) * e);
        assert(((n + e - 1) / e) * e <= n + e - 1);
    }
}

/// Cutting all of a sequence keeps it whole.
proof fn lemma_cut_whole<T>(x: Seq<T>)
    ensures
        cut(x, 0, x.len() as int) == x,
{
    assert(cut(x, 0, x.len() as int) =~= x);
}

/// A column sliced to all its entries is the column itself.
pub proof fn lemma_slice_whole(c: Column)
    requires
        !(c is Nested),
    ensures
        slice_model(c, 0, c.entries() as int) == c,
{
    match c {
        Column::Bool(x) => lemma_cut_whole(x),
        Column::I8(x) => lemma_cut_whole(x),
        Column::U8(x) => lemma_cut_whole(x),
        Column::I16(x) => lemma_cut_whole(x),
        Column::U16(x) => lemma_cut_whole(x),
        Column::I32(x) => lemma_cut_whole(x),
        Column::U32(x) => lemma_cut_whole(x),
        Column::I64(x) => lemma_cut_whole(x),
        Column::U64(x) => lemma_cut_whole(x),
        Column::F32(x) => lemma_cut_whole(x),
        Column::F64(x) => lemma_cut_whole(x),
        Column::VecBool(x) => lemma_cut_whole(x),
        Column::VecI8(x) => lemma_cut_whole(x),
        Column::VecU8(x) => lemma_cut_whole(x),
        Column::VecI16(x) => lemma_cut_whole(x),
        Column::VecU16(x) => lemma_cut_whole(x),
        Column::VecI32(x) => lemma_cut_whole(x),
        Column::VecU32(x) => lemma_cut_whole(x),
        Column::VecI64(x) => lemma_cut_whole(x),
        Column::VecU64(x) => lemma_cut_whole(x),
        Column::VecF32(x) => lemma_cut_whole(x),
        Column::VecF64(x) => lemma_cut_whole(x),
        Column::Str(x) => lemma_cut_whole(x),
        Column::VecStr(x) => lemma_cut_whole(x),
        Column::Nested(_, _) => {},
    }
}

/// The values of a split collection's count basket: each entry's element
/// count as a one-element `Int_t` row.
pub open spec fn count_rows(lens: Seq<i32>) -> Seq<Seq<i32>> {
    lens.map_values(|n: i32| seq![n])
}

/// A split collection's count-basket branch: the collection's name,
/// holding each entry's element count of the first member as a jagged
/// `Int_t` row.
pub open spec fn split_count_branch(b: Branch, first: SplitMember) -> (Seq<char>, Column) {
    (b.name_of(), Column::VecI32(count_rows(lens_i32(first.values_of().lens()))))
}

/// The branches whose baskets hold branch `b`, in order. A split
/// collection's are its count branch, then one jagged branch per member,
/// named `parent.member` and holding the member's values. Any other
/// branch's are its slices of at most `entries_per_basket` entries (see
/// [`basket_pieces`]), or the branch itself when it has no entries.
pub fn basket_branches(b: &Branch, entries_per_basket: usize) -> (r: Vec<Branch>)
    requires
        !(b.values_of() is Nested),
        b.kind_of() matches BranchKind::Split(s) ==> s.members_of().len() > 0 && forall|k: int|
            0 <= k < s.members_of().len() ==> !(#[trigger] s.members_of()[k].values_of() is Nested),
    ensures
        match b.kind_of() {
            BranchKind::Split(s) => {
                &&& r@.len() == s.members_of().len() + 1
                &&& (r@[0].name_of(), r@[0].values_of()) == split_count_branch(*b, s.members_of()[0])
                &&& r@[0].kind_of() is Jagged
                &&& forall|k: int|
                    0 <= k < s.members_of().len() ==> {
                        &&& (#[trigger] r@[k + 1]).name_of() == sub_name(b.name_of(), s.members_of()[k].name_of())
                        &&& r@[k + 1].values_of() == s.members_of()[k].values_of()
                        &&& r@[k + 1].kind_of() is Jagged
                    }
            },
            _ => {
                let pieces = basket_pieces(b.values_of(), entries_per_basket as nat);
                &&& r@.len() == (if pieces.len() == 0 {
                    1
                } else {
                    pieces.len()
                })
                &&& forall|k: int|
                    0 <= k < r@.len() ==> {
                        &&& (#[trigger] r@[k]).name_of() == b.name_of()
                        &&& r@[k].values_of() == (if pieces.len() == 0 {
                            b.values_of()
                        } else {
                            pieces[k]
                        })
                        &&& r@[k].kind_of() == b.kind_of()
                    }
            },
        },
{
    match b.split() {
        Some(spec) => {
            let lens = vec_row_lengths(&spec.members[0].values);
            let mut counts: Vec<Vec<i32>> = Vec::new();
            let mut i: usize = 0;
            while i < lens.len()
                invariant
                    i <= lens@.len(),
                    rows(counts@) == count_rows(lens@.take(i as int)),
                decreases lens@.len() - i,
            {
                let ghost before = counts@;
                let row: Vec<i32> = vec![lens[i]];
                assert(row@ =~= seq![lens@[i as int]]);
                counts.push(row);
                proof {
                    assert(lens@.take(i + 1) =~= lens@.take(i as int).push(lens@[i as int]));
                    assert(rows(counts@) =~= rows(before).push(seq![lens@[i as int]]));
                    assert(rows(counts@) =~= count_rows(lens@.take(i + 1)));
                }
                i += 1;
            }
            assert(lens@.take(i as int) =~= lens@);
            let mut out: Vec<Branch> = Vec::new();
            out.push(Branch { name: b.name.clone(), values: BranchValues::VecI32(counts), kind: BranchKind::Jagged });
            let mut k: usize = 0;
            while k < spec.members.len()
                invariant
                    k <= spec.members@.len(),
                    out@.len() == k + 1,
                    b.kind_of() == BranchKind::Split(*spec),
                    forall|j: int|
                        0 <= j < spec.members@.len() ==> !(#[trigger] spec.members@[j].values_of() is Nested),
                    (out@[0].name_of(), out@[0].values_of()) == split_count_branch(*b, spec.members@[0]),
                    out@[0].kind_of() is Jagged,
                    forall|j: int|
                        0 <= j < k ==> {
                            &&& (#[trigger] out@[j + 1]).name_of() == sub_name(b.name_of(), spec.members@[j].name_of())
                            &&& out@[j + 1].values_of() == spec.members@[j].values_of()
                            &&& out@[j + 1].kind_of() is Jagged
                        },
                decreases spec.members@.len() - k,
            {
                let m = &spec.members[k];
                let n0 = concat_str(b.name.as_str(), ".");
                let name = concat_str(n0.as_str(), m.name.as_str());
                let n = entry_count(&m.values);
                let values = chunk_values(&m.values, 0, n);
                proof {
                    lemma_slice_whole(m.values_of());
                }
                out.push(Branch { name, values, kind: BranchKind::Jagged });
                k += 1;
            }
            out
        },
        None => {
            let n = entry_count(&b.values);
            let ranges = basket_ranges(n, entries_per_basket);
            let ghost pieces = basket_pieces(b.values_of(), entries_per_basket as nat);
            let mut out: Vec<Branch> = Vec::new();
            let mut k: usize = 0;
            while k < ranges.len()
                invariant
                    k <= ranges@.len(),
                    !(b.values_of() is Nested),
                    !(b.kind_of() is Split),
                    n == b.values_of().entries(),
                    ranges@ == spec_basket_ranges(n as nat, entries_per_basket as nat),
                    pieces == basket_pieces(b.values_of(), entries_per_basket as nat),
                    out@.len() == k,
                    forall|j: int|
                        0 <= j < k ==> {
                            &&& (#[trigger] out@[j]).name_of() == b.name_of()
                            &&& out@[j].values_of() == pieces[j]
                            &&& out@[j].kind_of() == b.kind_of()
                        },
                decreases ranges@.len() - k,
            {
                let (start, len) = ranges[k];
                proof {
                    lemma_range_fits(n as nat, entries_per_basket as nat, k as int);
                }
                let piece = chunk_branch(b, start, len);
                out.push(piece);
                k += 1;
            }
            if out.len() == 0 {
                proof {
                    lemma_slice_whole(b.values_of());
                }
                out.push(chunk_branch(b, 0, n));
            }
            out
        },
    }
}

} // verus!
