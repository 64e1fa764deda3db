//! The `TTree` object itself: its members, the `fBranches` array holding
//! one record per branch, and the tree-level `fLeaves`, which refers back
//! to the leaves the branches wrote.

use vstd::prelude::*;
use vstd::utf8::encode_utf8;
use crate::codec::{i32_bytes, i64_bytes, put_u32, put_u64, u16_bytes, u32_bytes, u64_bytes};
use super::content::tstring_bytes;
use super::baskets::BasketRec;
use super::branch::{Branch, BranchKind, SplitMember};
use super::collection::{split_parent_bytes, sub_name, write_split_parent};
use crate::text::concat_str;
use super::layout::{lens_i32, strings_fit};
use crate::value::Column;
use super::serialize::{
    any_bytes, array_head_bytes, attfill_bytes, attline_bytes, attmarker_bytes, begin_any, begin_array, begin_object,
    counted, end_object, iofeatures_bytes, lemma_counted, put_i32, put_i64, tnamed_bytes, write_attfill, write_attline,
    write_attmarker, write_iofeatures, write_tnamed, OBJ_BITS, branch_bytes, branch_element_bytes, end_any, end_array,
    obj_array, ref_at, ref_of, ref_value, words, write_branch, write_branch_element, Refs, RefSeq,
};

verus! {

/// What a branch's record needs of its baskets: a split collection has at
/// least one member and a basket for its counter and for each member; the
/// strings of any other branch fit the lengths they are written with.
pub open spec fn record_ok(b: Branch, group: Seq<BasketRec>) -> bool {
    match b.kind_of() {
        BranchKind::Split(s) => s.members_of().len() > 0 && group.len() > s.members_of().len(),
        _ => strings_fit(b.values_of()),
    }
}

/// A branch's entry of `fBranches`, written with a fresh class tag at
/// offset `at`: the parent `TBranchElement` of a split collection (which
/// its members refer back to by the reference of `at`), a
/// `TBranchElement` for a `std::vector`, else a `TBranch`; with the
/// references after it.
pub open spec fn branch_record(
    b: Branch,
    group: Seq<BasketRec>,
    n_entries: i64,
    keylen: u32,
    refs: RefSeq,
    at: int,
) -> (Seq<u8>, RefSeq) {
    let element = encode_utf8("TBranchElement"@);
    let plain = encode_utf8("TBranch"@);
    match b.kind_of() {
        BranchKind::Split(_) => {
            let r = split_parent_bytes(b, group, n_entries, keylen, ref_value(at, keylen), refs, at + 9 + element.len());
            (any_bytes(element, r.0), r.1)
        },
        BranchKind::StlVector => {
            let r = branch_element_bytes(b, group, n_entries, keylen, refs, at + 9 + element.len());
            (any_bytes(element, r.0), r.1)
        },
        _ => {
            let r = branch_bytes(b, group, n_entries, keylen, refs, at + 9 + plain.len());
            (any_bytes(plain, r.0), r.1)
        },
    }
}

/// The views of the branches' basket groups.
pub open spec fn group_views(gs: Seq<Vec<BasketRec>>) -> Seq<Seq<BasketRec>> {
    gs.map_values(|g: Vec<BasketRec>| g@)
}

/// The records of the first `k` branches, one after another from offset
/// `base`, and the references after them.
pub open spec fn branch_records(
    bs: Seq<Branch>,
    gs: Seq<Seq<BasketRec>>,
    n_entries: i64,
    keylen: u32,
    refs: RefSeq,
    base: int,
    k: nat,
) -> (Seq<u8>, RefSeq)
    decreases k,
{
    if k == 0 {
        (Seq::empty(), refs)
    } else {
        let prev = branch_records(bs, gs, n_entries, keylen, refs, base, (k - 1) as nat);
        let r = branch_record(bs[k - 1], gs[k - 1], n_entries, keylen, prev.1, base + prev.0.len());
        (prev.0 + r.0, r.1)
    }
}

/// Write the parent of a split collection with a fresh class tag.
#[verifier::spinoff_prover]
fn write_split_record(w: &mut Vec<u8>, b: &Branch, group: &[BasketRec], n_entries: i64, keylen: u32, refs: &mut Refs)
    requires
        b.kind_of() is Split,
        record_ok(*b, group@),
    ensures
        final(w)@ == old(w)@ + any_bytes(
            encode_utf8("TBranchElement"@),
            split_parent_bytes(
                *b,
                group@,
                n_entries,
                keylen,
                ref_value(old(w)@.len() as int, keylen),
                old(refs)@,
                (old(w)@.len() + 9 + encode_utf8("TBranchElement"@).len()) as int,
            ).0,
        ),
        final(refs)@ == split_parent_bytes(
            *b,
            group@,
            n_entries,
            keylen,
            ref_value(old(w)@.len() as int, keylen),
            old(refs)@,
            (old(w)@.len() + 9 + encode_utf8("TBranchElement"@).len()) as int,
        ).1,
{
    let parent_ref = ref_at(w.len(), keylen);
    let t = begin_any(w, "TBranchElement");
    let ghost w1 = w@;
    let ghost refs0 = refs@;
    write_split_parent(w, b, group, n_entries, keylen, parent_ref, refs);
    let ghost x = split_parent_bytes(*b, group@, n_entries, keylen, parent_ref, refs0, w1.len() as int).0;
    proof {
        assert(w@.subrange(0, t as int) =~= old(w)@);
        assert(w@ =~= w@.subrange(0, t as int) + seq![0u8, 0u8, 0u8, 0u8] + u32_bytes(0xFFFF_FFFF) + encode_utf8(
            "TBranchElement"@,
        ) + seq![0u8] + x);
    }
    end_any(w, t, Ghost(encode_utf8("TBranchElement"@)), Ghost(x));
}

/// Write a `std::vector` branch's `TBranchElement` with a fresh class tag.
#[verifier::spinoff_prover]
fn write_element_record(w: &mut Vec<u8>, b: &Branch, group: &[BasketRec], n_entries: i64, keylen: u32, refs: &mut Refs)
    requires
        strings_fit(b.values_of()),
    ensures
        final(w)@ == old(w)@ + any_bytes(
            encode_utf8("TBranchElement"@),
            branch_element_bytes(
                *b,
                group@,
                n_entries,
                keylen,
                old(refs)@,
                (old(w)@.len() + 9 + encode_utf8("TBranchElement"@).len()) as int,
            ).0,
        ),
        final(refs)@ == branch_element_bytes(
            *b,
            group@,
            n_entries,
            keylen,
            old(refs)@,
            (old(w)@.len() + 9 + encode_utf8("TBranchElement"@).len()) as int,
        ).1,
{
    let t = begin_any(w, "TBranchElement");
    let ghost w1 = w@;
    let ghost refs0 = refs@;
    write_branch_element(w, b, group, n_entries, keylen, refs);
    let ghost x = branch_element_bytes(*b, group@, n_entries, keylen, refs0, w1.len() as int).0;
    proof {
        assert(w@.subrange(0, t as int) =~= old(w)@);
        assert(w@ =~= w@.subrange(0, t as int) + seq![0u8, 0u8, 0u8, 0u8] + u32_bytes(0xFFFF_FFFF) + encode_utf8(
            "TBranchElement"@,
        ) + seq![0u8] + x);
    }
    end_any(w, t, Ghost(encode_utf8("TBranchElement"@)), Ghost(x));
}

/// Write a plain branch's `TBranch` with a fresh class tag.
#[verifier::spinoff_prover]
fn write_plain_record(w: &mut Vec<u8>, b: &Branch, group: &[BasketRec], n_entries: i64, keylen: u32, refs: &mut Refs)
    requires
        strings_fit(b.values_of()),
    ensures
        final(w)@ == old(w)@ + any_bytes(
            encode_utf8("TBranch"@),
            branch_bytes(*b, group@, n_entries, keylen, old(refs)@, (old(w)@.len() + 9 + encode_utf8("TBranch"@).len()) as int).0,
        ),
        final(refs)@ == branch_bytes(
            *b,
            group@,
            n_entries,
            keylen,
            old(refs)@,
            (old(w)@.len() + 9 + encode_utf8("TBranch"@).len()) as int,
        ).1,
{
    let t = begin_any(w, "TBranch");
    let ghost w1 = w@;
    let ghost refs0 = refs@;
    write_branch(w, b, group, n_entries, keylen, refs);
    let ghost x = branch_bytes(*b, group@, n_entries, keylen, refs0, w1.len() as int).0;
    proof {
        assert(w@.subrange(0, t as int) =~= old(w)@);
        assert(w@ =~= w@.subrange(0, t as int) + seq![0u8, 0u8, 0u8, 0u8] + u32_bytes(0xFFFF_FFFF) + encode_utf8(
            "TBranch"@,
        ) + seq![0u8] + x);
    }
    end_any(w, t, Ghost(encode_utf8("TBranch"@)), Ghost(x));
}

/// Write one branch's record (see [`branch_record`]).
fn write_record(w: &mut Vec<u8>, b: &Branch, group: &[BasketRec], n_entries: i64, keylen: u32, refs: &mut Refs)
    requires
        record_ok(*b, group@),
    ensures
        final(w)@ == old(w)@ + branch_record(*b, group@, n_entries, keylen, old(refs)@, old(w)@.len() as int).0,
        final(refs)@ == branch_record(*b, group@, n_entries, keylen, old(refs)@, old(w)@.len() as int).1,
{
    if b.split().is_some() {
        write_split_record(w, b, group, n_entries, keylen, refs);
    } else if b.stl_vector() {
        write_element_record(w, b, group, n_entries, keylen, refs);
    } else {
        write_plain_record(w, b, group, n_entries, keylen, refs);
    }
}

/// The number of branches written: one per branch that has a basket
/// group.
pub open spec fn written(bs: Seq<Branch>, gs: Seq<Seq<BasketRec>>) -> nat {
    if bs.len() < gs.len() {
        bs.len()
    } else {
        gs.len()
    }
}

/// `fBranches`: a `TObjArray` sized by the branch count, holding the
/// records of the branches that have a basket group, written at offset
/// `base`; with the references after them.
pub open spec fn branch_array_bytes(
    bs: Seq<Branch>,
    gs: Seq<Seq<BasketRec>>,
    n_entries: i64,
    keylen: u32,
    refs: RefSeq,
    base: int,
) -> (Seq<u8>, RefSeq) {
    let r = branch_records(bs, gs, n_entries, keylen, refs, base + 25, written(bs, gs));
    (obj_array(bs.len() as i32, r.0), r.1)
}

/// The branches some references point at.
pub open spec fn derefs(bs: Seq<&Branch>) -> Seq<Branch> {
    bs.map_values(|b: &Branch| *b)
}

/// Write `fBranches` (see [`branch_array_bytes`]).
fn write_branch_array(
    w: &mut Vec<u8>,
    bs: &[&Branch],
    gs: &[Vec<BasketRec>],
    n_entries: i64,
    keylen: u32,
    refs: &mut Refs,
)
    requires
        forall|i: int| 0 <= i < written(derefs(bs@), group_views(gs@)) ==> #[trigger] record_ok(derefs(bs@)[i], gs@[i]@),
    ensures
        final(w)@ == old(w)@ + branch_array_bytes(derefs(bs@), group_views(gs@), n_entries, keylen, old(refs)@, old(w)@.len() as int).0,
        final(refs)@ == branch_array_bytes(derefs(bs@), group_views(gs@), n_entries, keylen, old(refs)@, old(w)@.len() as int).1,
{
    let ghost gv = group_views(gs@);
    let tok = begin_array(w, bs.len() as i32);
    let ghost w0 = w@;
    let ghost r0 = refs@;
    let n = if bs.len() < gs.len() {
        bs.len()
    } else {
        gs.len()
    };
    let mut i: usize = 0;
    while i < n
        invariant
            i <= n,
            n == written(derefs(bs@), gv),
            gv == group_views(gs@),
            forall|j: int| 0 <= j < written(derefs(bs@), gv) ==> #[trigger] record_ok(derefs(bs@)[j], gs@[j]@),
            w@ == w0 + branch_records(derefs(bs@), gv, n_entries, keylen, r0, w0.len() as int, i as nat).0,
            refs@ == branch_records(derefs(bs@), gv, n_entries, keylen, r0, w0.len() as int, i as nat).1,
        decreases n - i,
    {
        let ghost before = w@;
        let ghost refs1 = refs@;
        assert(gv[i as int] == gs@[i as int]@);
        assert(derefs(bs@)[i as int] == *bs@[i as int]);
        assert(record_ok(derefs(bs@)[i as int], gs@[i as int]@));
        write_record(w, bs[i], gs[i].as_slice(), n_entries, keylen, refs);
        proof {
            let prev = branch_records(derefs(bs@), gv, n_entries, keylen, r0, w0.len() as int, i as nat);
            assert(before.len() == w0.len() + prev.0.len());
            assert(w@ =~= w0 + (prev.0 + branch_record(derefs(bs@)[i as int], gv[i as int], n_entries, keylen, refs1, before.len() as int).0));
        }
        i += 1;
    }
    let ghost items = branch_records(derefs(bs@), gv, n_entries, keylen, r0, w0.len() as int, n as nat).0;
    proof {
        assert(w@.subrange(0, tok as int) =~= old(w)@);
        assert(w@ =~= w@.subrange(0, tok as int) + seq![0u8, 0u8, 0u8, 0u8] + u16_bytes(3) + array_head_bytes(
            derefs(bs@).len() as i32,
        ) + items);
    }
    end_array(w, tok, Ghost(derefs(bs@).len() as i32), Ghost(items));
}

/// The leaves a branch contributes to the tree-level `fLeaves`: the
/// counter leaf `name_` and then each member leaf `name.member` of a split
/// collection; the branch's own leaf otherwise.
pub open spec fn leaf_names(b: Branch) -> Seq<Seq<char>> {
    match b.kind_of() {
        BranchKind::Split(s) => seq![b.name_of() + "_"@] + s.members_of().map_values(
            |m: SplitMember| sub_name(b.name_of(), m.name_of()),
        ),
        _ => seq![b.name_of()],
    }
}

/// The leaves all of `bs` contribute, in order.
pub open spec fn all_leaf_names(bs: Seq<Branch>) -> Seq<Seq<char>>
    decreases bs.len(),
{
    if bs.len() == 0 {
        Seq::empty()
    } else {
        all_leaf_names(bs.drop_last()) + leaf_names(bs.last())
    }
}

/// The views of some strings.
pub open spec fn string_views(v: Seq<String>) -> Seq<Seq<char>> {
    v.map_values(|s: String| s@)
}

/// Append the names of the leaves `b` contributes (see [`leaf_names`]).
fn push_leaf_names(out: &mut Vec<String>, b: &Branch)
    ensures
        string_views(final(out)@) == string_views(old(out)@) + leaf_names(*b),
{
    match b.split() {
        Some(spec) => {
            out.push(concat_str(b.name.as_str(), "_"));
            let ghost start = out@;
            let mut i: usize = 0;
            while i < spec.members.len()
                invariant
                    i <= spec.members@.len(),
                    string_views(out@) == string_views(start) + spec.members@.take(i as int).map_values(
                        |m: SplitMember| sub_name(b.name_of(), m.name_of()),
                    ),
                decreases spec.members@.len() - i,
            {
                let n0 = concat_str(b.name.as_str(), ".");
                let name = concat_str(n0.as_str(), spec.members[i].name.as_str());
                let ghost before = out@;
                out.push(name);
                assert(spec.members@.take(i + 1) =~= spec.members@.take(i as int).push(spec.members@[i as int]));
                assert(string_views(out@) =~= string_views(before).push(name@));
                assert(string_views(out@) =~= string_views(start) + spec.members@.take(i + 1).map_values(
                    |m: SplitMember| sub_name(b.name_of(), m.name_of()),
                ));
                i += 1;
            }
            assert(spec.members@.take(i as int) =~= spec.members@);
            assert(string_views(out@) =~= string_views(old(out)@) + leaf_names(*b));
        },
        None => {
            out.push(b.name.clone());
            assert(string_views(out@) =~= string_views(old(out)@) + leaf_names(*b));
        },
    }
}

/// The reference words of the tree-level `fLeaves`: one per leaf name.
pub open spec fn leaf_ref_word(names: Seq<Seq<char>>, refs: RefSeq) -> spec_fn(int) -> Seq<u8> {
    |k: int| u32_bytes(ref_of(refs, names[k]))
}

/// The tree-level `fLeaves`: a `TObjArray` of a reference to each leaf the
/// branches wrote, looked up by name in `refs` (a null reference for one
/// that was not written).
pub open spec fn tree_leaves_bytes(bs: Seq<Branch>, refs: RefSeq) -> Seq<u8> {
    let names = all_leaf_names(bs);
    obj_array(names.len() as i32, words(names.len(), leaf_ref_word(names, refs)))
}

/// Write the tree-level `fLeaves` (see [`tree_leaves_bytes`]).
fn write_tree_leaf_array(w: &mut Vec<u8>, bs: &[&Branch], refs: &Refs)
    ensures
        final(w)@ == old(w)@ + tree_leaves_bytes(derefs(bs@), refs@),
{
    let mut names: Vec<String> = Vec::new();
    let mut i: usize = 0;
    while i < bs.len()
        invariant
            i <= derefs(bs@).len(),
            string_views(names@) == all_leaf_names(derefs(bs@).take(i as int)),
        decreases derefs(bs@).len() - i,
    {
        push_leaf_names(&mut names, bs[i]);
        assert(derefs(bs@).take(i + 1).drop_last() =~= derefs(bs@).take(i as int));
        i += 1;
    }
    assert(derefs(bs@).take(i as int) =~= derefs(bs@));
    let ghost nv = string_views(names@);
    let ghost f = leaf_ref_word(nv, refs@);
    let tok = begin_array(w, names.len() as i32);
    let ghost w0 = w@;
    let mut k: usize = 0;
    while k < names.len()
        invariant
            k <= names@.len(),
            nv == string_views(names@),
            f == leaf_ref_word(nv, refs@),
            w@ == w0 + words(k as nat, f),
        decreases names@.len() - k,
    {
        let r = refs.get(names[k].as_str());
        assert(f(k as int) == u32_bytes(r));
        put_u32(w, r);
        assert(words((k + 1) as nat, f) == words(k as nat, f) + f(k as int));
        assert(w@ =~= w0 + words((k + 1) as nat, f));
        k += 1;
    }
    let ghost items = words(names@.len(), f);
    proof {
        assert(w@.subrange(0, tok as int) =~= old(w)@);
        assert(w@ =~= w@.subrange(0, tok as int) + seq![0u8, 0u8, 0u8, 0u8] + u16_bytes(3) + array_head_bytes(
            names@.len() as i32,
        ) + items);
    }
    end_array(w, tok, Ghost(names@.len() as i32), Ghost(items));
}

/// The bytes of `fWeight`, the `Double_t` 1.0, in big-endian order.
pub const WEIGHT_ONE_BITS: u64 = 0x3FF0_0000_0000_0000;

/// The key length of a tree's object record: the key's fixed fields (34
/// bytes with the 64-bit seeks of a big file, else 26), then its class
/// `TTree`, the tree's name and an empty title as `TString`s.
pub open spec fn tree_key_len(name: Seq<char>, big: bool) -> int {
    (if big {
        34int
    } else {
        26int
    }) + tree_class_bytes().len() + tstring_bytes(name).len() + tstring_bytes(Seq::empty()).len()
}

/// The class name `TTree` as a `TString`.
pub open spec fn tree_class_bytes() -> Seq<u8> {
    seq![5u8, 84u8, 84u8, 114u8, 101u8, 101u8]
}

/// The key length of a tree's object record (see [`tree_key_len`]).
fn tree_keylen(name: &str, big: bool) -> (r: u32)
    requires
        encode_utf8(name@).len() < u32::MAX - 64,
    ensures
        r == tree_key_len(name@, big),
{
    let fixed: u64 = if big {
        34
    } else {
        26
    };
    let n = name.as_bytes().len() as u64;
    let named: u64 = if n < 255 {
        n + 1
    } else {
        n + 5
    };
    (fixed + 6 + named + 1) as u32
}

/// The `TTree` members before `fClusterRangeEnd`: its name with an empty
/// title, the line, fill and marker attributes, `fEntries`, `fTotBytes`
/// and `fZipBytes`, `fSavedBytes` and `fFlushedBytes` 0, `fWeight` 1.0,
/// `fTimerInterval` 0, `fScanField` 25, `fUpdate` 0,
/// `fDefaultEntryOffsetLen` 1000 and `fNClusterRange` 0.
pub open spec fn tree_head_bytes(name: Seq<char>, n_entries: i64, tot: i64) -> Seq<u8> {
    tnamed_bytes(OBJ_BITS, name, Seq::empty()) + attline_bytes() + attfill_bytes() + attmarker_bytes()
        + i64_bytes(n_entries) + i64_bytes(tot) + i64_bytes(tot) + i64_bytes(0) + i64_bytes(0) + u64_bytes(
        WEIGHT_ONE_BITS,
    ) + i32_bytes(0) + i32_bytes(25) + i32_bytes(0) + i32_bytes(1000) + i32_bytes(0)
}

/// Write the members of [`tree_head_bytes`].
fn write_tree_head(w: &mut Vec<u8>, name: &str, n_entries: i64, tot: i64)
    ensures
        final(w)@ == old(w)@ + tree_head_bytes(name@, n_entries, tot),
{
    let empty = String::new();
    write_tnamed(w, OBJ_BITS, name, empty.as_str());
    write_attline(w);
    write_attfill(w);
    write_attmarker(w);
    let ghost mid = w@;
    put_i64(w, n_entries);
    put_i64(w, tot);
    put_i64(w, tot);
    put_i64(w, 0);
    put_i64(w, 0);
    put_u64(w, WEIGHT_ONE_BITS);
    put_i32(w, 0);
    put_i32(w, 25);
    put_i32(w, 0);
    put_i32(w, 1000);
    put_i32(w, 0);
    assert(w@ =~= mid + (i64_bytes(n_entries) + i64_bytes(tot) + i64_bytes(tot) + i64_bytes(0) + i64_bytes(0)
        + u64_bytes(WEIGHT_ONE_BITS) + i32_bytes(0) + i32_bytes(25) + i32_bytes(0) + i32_bytes(1000) + i32_bytes(
        0,
    )));
    assert(w@ =~= old(w)@ + tree_head_bytes(name@, n_entries, tot));
}

/// `fMaxEntries` and `fMaxEntryLoop` 10^12, `fMaxVirtualSize` 0,
/// `fAutoSave` -300000000, `fAutoFlush` -30000000, `fEstimate` 1000000,
/// empty `fClusterRangeEnd` and `fClusterSize` arrays, and the
/// `TIOFeatures`.
pub open spec fn tree_limits_bytes() -> Seq<u8> {
    i64_bytes(1_000_000_000_000i64) + i64_bytes(1_000_000_000_000i64) + i64_bytes(0i64) + i64_bytes(-300_000_000i64)
        + i64_bytes(-30_000_000i64) + i64_bytes(1_000_000i64) + seq![0u8, 0u8] + iofeatures_bytes()
}

/// Write the members of [`tree_limits_bytes`].
fn write_tree_limits(w: &mut Vec<u8>)
    ensures
        final(w)@ == old(w)@ + tree_limits_bytes(),
{
    put_i64(w, 1_000_000_000_000);
    put_i64(w, 1_000_000_000_000);
    put_i64(w, 0);
    put_i64(w, -300_000_000);
    put_i64(w, -30_000_000);
    put_i64(w, 1_000_000);
    w.push(0);
    w.push(0);
    write_iofeatures(w);
    assert(w@ =~= old(w)@ + tree_limits_bytes());
}

/// The null `fAliases`, empty `fIndexValues` and `fIndex`, and null
/// `fTreeIndex`, `fFriends`, `fUserInfo` and `fBranchRef`.
pub open spec fn tree_tail_bytes() -> Seq<u8> {
    u32_bytes(0) + i32_bytes(0) + i32_bytes(0) + u32_bytes(0) + u32_bytes(0) + u32_bytes(0) + u32_bytes(0)
}

/// Write the members of [`tree_tail_bytes`].
fn write_tree_tail(w: &mut Vec<u8>)
    ensures
        final(w)@ == old(w)@ + tree_tail_bytes(),
{
    put_u32(w, 0);
    put_i32(w, 0);
    put_i32(w, 0);
    put_u32(w, 0);
    put_u32(w, 0);
    put_u32(w, 0);
    put_u32(w, 0);
    assert(w@ =~= old(w)@ + tree_tail_bytes());
}

/// The `TTree` object (version 20) of a tree named `name` with branches
/// `bs` written in the basket groups `gs`, as stored under a key
/// `keylen` bytes long: [`tree_head_bytes`], [`tree_limits_bytes`],
/// `fBranches` (see [`branch_array_bytes`]), the tree-level `fLeaves`
/// (see [`tree_leaves_bytes`]) and [`tree_tail_bytes`].
pub open spec fn tree_object_bytes(
    name: Seq<char>,
    bs: Seq<Branch>,
    gs: Seq<Seq<BasketRec>>,
    n_entries: i64,
    tot: i64,
    keylen: u32,
) -> Seq<u8> {
    let head = tree_head_bytes(name, n_entries, tot) + tree_limits_bytes();
    let branches = branch_array_bytes(bs, gs, n_entries, keylen, Seq::empty(), (6 + head.len()) as int);
    counted(20, head + branches.0 + tree_leaves_bytes(bs, branches.1) + tree_tail_bytes())
}

/// Build the `TTree` object of a tree named `tree_name` whose branches
/// were written in the basket groups `baskets` (see
/// [`tree_object_bytes`]); `big` tells whether its key has 64-bit seeks.
#[verifier::spinoff_prover]
#[verifier::rlimit(40)]
pub fn build_tree_object(
    tree_name: &str,
    branches: &[&Branch],
    baskets: &[Vec<BasketRec>],
    n_entries: i64,
    tot_bytes: i64,
    big: bool,
) -> (r: Vec<u8>)
    requires
        encode_utf8(tree_name@).len() < u32::MAX - 64,
        forall|i: int|
            0 <= i < written(derefs(branches@), group_views(baskets@)) ==> #[trigger] record_ok(derefs(branches@)[i], baskets@[i]@),
    ensures
        r@ == tree_object_bytes(
            tree_name@,
            derefs(branches@),
            group_views(baskets@),
            n_entries,
            tot_bytes,
            tree_key_len(tree_name@, big) as u32,
        ),
{
    let keylen = tree_keylen(tree_name, big);
    let mut refs = Refs::new();
    let mut w: Vec<u8> = Vec::new();
    let tok = begin_object(&mut w, 20);
    write_tree_head(&mut w, tree_name, n_entries, tot_bytes);
    write_tree_limits(&mut w);
    let ghost w1 = w@;
    let ghost refs0 = refs@;
    write_branch_array(&mut w, branches, baskets, n_entries, keylen, &mut refs);
    let ghost w2 = w@;
    write_tree_leaf_array(&mut w, branches, &refs);
    write_tree_tail(&mut w);
    proof {
        let head = tree_head_bytes(tree_name@, n_entries, tot_bytes) + tree_limits_bytes();
        let branch_part = branch_array_bytes(
            derefs(branches@),
            group_views(baskets@),
            n_entries,
            keylen,
            refs0,
            w1.len() as int,
        );
        let body = head + branch_part.0 + tree_leaves_bytes(derefs(branches@), branch_part.1) + tree_tail_bytes();
        assert(w1 =~= seq![0u8, 0u8, 0u8, 0u8] + u16_bytes(20) + head);
        lemma_counted(Seq::empty(), 20, body);
        assert(w@ =~= Seq::<u8>::empty() + seq![0u8, 0u8, 0u8, 0u8] + u16_bytes(20) + body);
    }
    end_object(&mut w, tok);
    proof {
        assert(refs0 =~= Seq::<(Seq<char>, u32)>::empty());
    }
    w
}

/// The number of jagged branches among `bs`.
pub open spec fn jagged_count(bs: Seq<Branch>) -> nat
    decreases bs.len(),
{
    if bs.len() == 0 {
        0
    } else {
        jagged_count(bs.drop_last()) + if bs.last().kind_of() is Jagged {
            1nat
        } else {
            0nat
        }
    }
}

/// `c` is the count branch of the jagged branch `b`: `n<name>`, holding
/// each row's length as an `Int_t`.
pub open spec fn counts_rows_of(c: Branch, b: Branch) -> bool {
    &&& c.name_of() == "n"@ + b.name_of()
    &&& c.values_of() == Column::I32(lens_i32(b.values_of().lens()))
    &&& c.kind_of() is Count
}

/// The count branches of the jagged branches among `branches`, in order.
pub fn count_branches(branches: &[Branch]) -> (r: Vec<Branch>)
    ensures
        r@.len() == jagged_count(branches@),
        forall|i: int|
            0 <= i < branches@.len() && (#[trigger] branches@[i]).kind_of() is Jagged ==> counts_rows_of(
                r@[jagged_count(branches@.take(i)) as int],
                branches@[i],
            ),
{
    let mut out: Vec<Branch> = Vec::new();
    let mut i: usize = 0;
    while i < branches.len()
        invariant
            i <= branches@.len(),
            out@.len() == jagged_count(branches@.take(i as int)),
            forall|j: int|
                0 <= j < i && (#[trigger] branches@[j]).kind_of() is Jagged ==> counts_rows_of(
                    out@[jagged_count(branches@.take(j)) as int],
                    branches@[j],
                ),
        decreases branches@.len() - i,
    {
        assert(branches@.take(i + 1).drop_last() =~= branches@.take(i as int));
        let ghost before = out@;
        proof {
            assert forall|j: int| 0 <= j < i && (#[trigger] branches@[j]).kind_of() is Jagged implies jagged_count(
                branches@.take(j),
            ) < before.len() by {
                lemma_jagged_count_prefix(branches@.take(i as int), j);
                assert(branches@.take(i as int).take(j) =~= branches@.take(j));
            }
        }
        match branches[i].count_branch() {
            Some(c) => {
                out.push(c);
                assert(forall|j: int| 0 <= j < before.len() ==> out@[j] == before[j]);
            },
            None => {},
        }
        i += 1;
    }
    assert(branches@.take(i as int) =~= branches@);
    out
}

/// The branches a tree is written as: each jagged branch preceded by its
/// count branch, the `k`-th jagged branch's being `counts[k]`.
pub open spec fn with_counts(bs: Seq<Branch>, counts: Seq<Branch>) -> Seq<Branch>
    decreases bs.len(),
{
    if bs.len() == 0 {
        Seq::empty()
    } else {
        let prev = with_counts(bs.drop_last(), counts);
        if bs.last().kind_of() is Jagged {
            prev + seq![counts[jagged_count(bs.drop_last()) as int], bs.last()]
        } else {
            prev.push(bs.last())
        }
    }
}

/// The branches a tree is written as (see [`with_counts`]).
pub fn effective_branches<'a>(branches: &'a [Branch], counts: &'a [Branch]) -> (r: Vec<&'a Branch>)
    requires
        counts@.len() >= jagged_count(branches@),
    ensures
        derefs(r@) == with_counts(branches@, counts@),
{
    let mut eff: Vec<&'a Branch> = Vec::new();
    let mut ci: usize = 0;
    let mut i: usize = 0;
    while i < branches.len()
        invariant
            i <= branches@.len(),
            counts@.len() >= jagged_count(branches@),
            ci == jagged_count(branches@.take(i as int)),
            derefs(eff@) == with_counts(branches@.take(i as int), counts@),
        decreases branches@.len() - i,
    {
        proof {
            assert(branches@.take(i + 1).drop_last() =~= branches@.take(i as int));
            lemma_jagged_count_prefix(branches@, i + 1);
        }
        let ghost before = eff@;
        if branches[i].jagged() {
            eff.push(&counts[ci]);
            ci += 1;
        }
        eff.push(&branches[i]);
        proof {
            if branches@[i as int].kind_of() is Jagged {
                assert(derefs(eff@) =~= derefs(before) + seq![counts@[jagged_count(branches@.take(i as int)) as int], branches@[i as int]]);
            } else {
                assert(derefs(eff@) =~= derefs(before).push(branches@[i as int]));
            }
        }
        i += 1;
    }
    assert(branches@.take(i as int) =~= branches@);
    eff
}

/// A prefix holds no more jagged branches than the whole.
proof fn lemma_jagged_count_prefix(bs: Seq<Branch>, n: int)
    requires
        0 <= n <= bs.len(),
    ensures
        jagged_count(bs.take(n)) <= jagged_count(bs),
        n < bs.len() && bs[n].kind_of() is Jagged ==> jagged_count(bs.take(n)) < jagged_count(bs),
    decreases bs.len(),
{
    if n < bs.len() {
        assert(bs.drop_last().take(n) =~= bs.take(n));
        if n < bs.len() - 1 {
            lemma_jagged_count_prefix(bs.drop_last(), n);
        } else {
            assert(bs.take(n) =~= bs.drop_last());
        }
    } else {
        assert(bs.take(n) =~= bs);
    }
}

/// The total size of the basket records of all groups.
pub open spec fn total_size(gs: Seq<Seq<BasketRec>>) -> int
    decreases gs.len(),
{
    if gs.len() == 0 {
        0
    } else {
        total_size(gs.drop_last()) + group_size(gs.last(), gs.last().len() as int)
    }
}

/// The total size of the first `k` records of a group.
pub open spec fn group_size(g: Seq<BasketRec>, k: int) -> int
    decreases k,
{
    if k <= 0 {
        0
    } else {
        group_size(g, k - 1) + g[k - 1].nbytes
    }
}

/// The `TTree` object of a tree written as the branches `eff` (see
/// [`effective_branches`]) whose baskets went into the groups `groups`:
/// its entry count is the first branch's (0 without branches) and its
/// `fTotBytes` the size of all basket records (see
/// [`tree_object_bytes`]).
pub fn tree_object_of(tree_name: &str, eff: &[&Branch], groups: &[Vec<BasketRec>], big: bool) -> (r: Vec<u8>)
    requires
        encode_utf8(tree_name@).len() < u32::MAX - 64,
        eff@.len() > 0 ==> !(eff@[0].values_of() is Nested),
        total_size(group_views(groups@)) <= i64::MAX,
        forall|i: int|
            0 <= i < written(derefs(eff@), group_views(groups@)) ==> #[trigger] record_ok(
                derefs(eff@)[i],
                groups@[i]@,
            ),
    ensures
        r@ == tree_object_bytes(
            tree_name@,
            derefs(eff@),
            group_views(groups@),
            if eff@.len() == 0 {
                0i64
            } else {
                eff@[0].entries() as u32 as i64
            },
            total_size(group_views(groups@)) as i64,
            tree_key_len(tree_name@, big) as u32,
        ),
{
    let n_entries: i64 = if eff.len() == 0 {
        0
    } else {
        eff[0].n_entries() as i64
    };
    let ghost gv = group_views(groups@);
    let mut tot: i64 = 0;
    let mut i: usize = 0;
    while i < groups.len()
        invariant
            i <= groups@.len(),
            gv == group_views(groups@),
            total_size(gv) <= i64::MAX,
            tot == total_size(gv.take(i as int)),
        decreases groups@.len() - i,
    {
        let g = &groups[i];
        let mut k: usize = 0;
        proof {
            lemma_total_size_prefix(gv, i as int + 1);
            assert(gv.take(i + 1).drop_last() =~= gv.take(i as int));
            assert(gv.take(i + 1).last() == g@);
        }
        while k < g.len()
            invariant
                k <= g@.len(),
                i < groups@.len(),
                gv == group_views(groups@),
                g@ == gv[i as int],
                total_size(gv.take(i as int)) + group_size(g@, g@.len() as int) <= i64::MAX,
                tot == total_size(gv.take(i as int)) + group_size(g@, k as int),
            decreases g@.len() - k,
        {
            proof {
                lemma_group_size_mono(g@, k as int + 1, g@.len() as int);
            }
            tot = tot + g[k].nbytes as i64;
            k += 1;
        }
        i += 1;
    }
    assert(gv.take(i as int) =~= gv);
    build_tree_object(tree_name, eff, groups, n_entries, tot, big)
}

/// A group's first records are no larger than all of them.
pub proof fn lemma_group_size_mono(g: Seq<BasketRec>, k: int, n: int)
    requires
        0 <= k <= n,
    ensures
        group_size(g, k) <= group_size(g, n),
    decreases n - k,
{
    if k < n {
        lemma_group_size_mono(g, k, n - 1);
    }
}

/// The first groups' records are no larger than all of them.
pub proof fn lemma_total_size_prefix(gs: Seq<Seq<BasketRec>>, n: int)
    requires
        0 <= n <= gs.len(),
    ensures
        total_size(gs.take(n)) <= total_size(gs),
    decreases gs.len(),
{
    if n < gs.len() {
        assert(gs.drop_last().take(n) =~= gs.take(n));
        lemma_total_size_prefix(gs.drop_last(), n);
        lemma_group_size_mono(gs.last(), 0, gs.last().len() as int);
    } else {
        assert(gs.take(n) =~= gs);
    }
}

} // verus!
