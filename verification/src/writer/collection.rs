//! The records of a split `std::vector<MyStruct>` branch: the collection's
//! parent `TBranchElement`, one `TBranchElement` per struct member, and the
//! counter leaf (`name_`) they share.
//!
//! The counter leaf is written in full once, as the `fLeafCount` of the
//! first member's leaf, and referenced everywhere else, so every reference
//! to it resolves to one object.

use vstd::prelude::*;
use vstd::utf8::encode_utf8;
use crate::codec::{i32_bytes, put_u16, put_u32, u16_bytes, u32_bytes};
use super::baskets::{put_tstring, BasketRec};
use super::branch::{Branch, BranchKind, SplitMember, SplitSpec};
use super::content::tstring_bytes;
use super::serialize::{
    any_bytes, array_head_bytes, basket_arrays_bytes, begin_any, begin_array, begin_object, counted,
    element_tail, end_any, end_array, end_object, head_bytes, lemma_counted, leaf_element_bytes, obj_array,
    put_i32, ref_at, ref_of, ref_value, tnamed_bytes, with_ref, write_basket_arrays, write_element_tail,
    write_empty_array, write_head_fields, write_leaf_element, write_tnamed, Refs, RefSeq, OBJ_BITS,
};
use super::split::{checksum_feed, class_checksum, member_type_info, members_bytes, spec_member_type};
use super::layout::{lens_i32, vec_row_lengths};
use crate::text::concat_str;

verus! {

/// The `fLeafCount` of a member's leaf: the counter leaf itself, written
/// with a fresh class tag, for the first member; a reference to it for
/// the others.
pub open spec fn count_field(counter: Seq<char>, inline: bool, refs: RefSeq) -> Seq<u8> {
    if inline {
        any_bytes(encode_utf8("TLeafElement"@), leaf_element_bytes(counter, counter, 0i32, -1i32, -1i32, 0u32))
    } else {
        u32_bytes(ref_of(refs, counter))
    }
}

/// A member's `TLeafElement` (version 1): a `TLeaf` base with `fLen` 1,
/// `fLenType` the element size, `fOffset` 0, neither range nor unsigned,
/// and `count` as its `fLeafCount`; then `fID` (the member's index) and
/// `fType` (its type code).
pub open spec fn member_leaf_bytes(
    name: Seq<char>,
    title: Seq<char>,
    size: i32,
    index: i32,
    code: i32,
    count: Seq<u8>,
) -> Seq<u8> {
    counted(
        1,
        counted(
            2,
            tnamed_bytes(OBJ_BITS, name, title) + i32_bytes(1) + i32_bytes(size) + i32_bytes(0) + seq![0u8, 0u8]
                + count,
        ) + i32_bytes(index) + i32_bytes(code),
    )
}

/// Where the counter leaf starts when it is written inside a member leaf
/// whose record starts at `pos`.
pub open spec fn count_pos(pos: int, name: Seq<char>, title: Seq<char>) -> int {
    pos + 9 + encode_utf8("TLeafElement"@).len() + 12 + tnamed_bytes(OBJ_BITS, name, title).len() + 14
}

/// The references after a member leaf is written at `pos`: the counter
/// leaf's, when it is written there, then the member leaf's own.
pub open spec fn member_leaf_refs(
    name: Seq<char>,
    title: Seq<char>,
    counter: Seq<char>,
    inline: bool,
    keylen: u32,
    refs: RefSeq,
    pos: int,
) -> RefSeq {
    let r = if inline {
        with_ref(refs, counter, ref_value(count_pos(pos, name, title), keylen))
    } else {
        refs
    };
    with_ref(r, name, ref_value(pos, keylen))
}

/// Write a member's leaf with a fresh class tag (see [`member_leaf_bytes`]
/// and [`count_field`]), recording the references of [`member_leaf_refs`].
pub fn write_member_leaf(
    w: &mut Vec<u8>,
    name: &str,
    title: &str,
    size: i32,
    index: i32,
    code: i32,
    counter: &str,
    inline: bool,
    keylen: u32,
    refs: &mut Refs,
)
    ensures
        final(w)@ == old(w)@ + any_bytes(
            encode_utf8("TLeafElement"@),
            member_leaf_bytes(name@, title@, size, index, code, count_field(counter@, inline, old(refs)@)),
        ),
        final(refs)@ == member_leaf_refs(name@, title@, counter@, inline, keylen, old(refs)@, old(w)@.len() as int),
{
    let ghost class = encode_utf8("TLeafElement"@);
    let ghost count = count_field(counter@, inline, old(refs)@);
    let pos = w.len();
    let t = begin_any(w, "TLeafElement");
    let ghost w0 = w@;
    let outer = begin_object(w, 1);
    let ghost w1 = w@;
    let base = begin_object(w, 2);
    let ghost w2 = w@;
    write_tnamed(w, OBJ_BITS, name, title);
    put_i32(w, 1);
    put_i32(w, size);
    put_i32(w, 0);
    w.push(0);
    w.push(0);
    let ghost w3 = w@;
    assert(w3 =~= w2 + (tnamed_bytes(OBJ_BITS, name@, title@) + i32_bytes(1) + i32_bytes(size) + i32_bytes(0)
        + seq![0u8, 0u8]));
    if inline {
        let cpos = w.len();
        let c = begin_any(w, "TLeafElement");
        let ghost lb = leaf_element_bytes(counter@, counter@, 0i32, -1i32, -1i32, 0u32);
        write_leaf_element(w, counter, counter, 0, -1, -1, 0);
        assert(w@.subrange(0, c as int) =~= w3);
        assert(w@ =~= w@.subrange(0, c as int) + seq![0u8, 0u8, 0u8, 0u8] + u32_bytes(0xFFFF_FFFF) + class + seq![0u8]
            + lb);
        end_any(w, c, Ghost(class), Ghost(lb));
        assert(cpos == count_pos(pos as int, name@, title@));
        refs.remember(String::from_str(counter), ref_at(cpos, keylen));
    } else {
        let r = refs.get(counter);
        put_u32(w, r);
    }
    assert(w@ =~= w3 + count);
    let ghost body2 = tnamed_bytes(OBJ_BITS, name@, title@) + i32_bytes(1) + i32_bytes(size) + i32_bytes(0) + seq![
        0u8,
        0u8,
    ] + count;
    proof {
        assert(w2 =~= w1 + seq![0u8, 0u8, 0u8, 0u8] + u16_bytes(2));
        lemma_counted(w1, 2, body2);
        assert(w@ =~= w1 + seq![0u8, 0u8, 0u8, 0u8] + u16_bytes(2) + body2);
    }
    end_object(w, base);
    put_i32(w, index);
    put_i32(w, code);
    let ghost body1 = counted(2, body2) + i32_bytes(index) + i32_bytes(code);
    proof {
        assert(w1 =~= w0 + seq![0u8, 0u8, 0u8, 0u8] + u16_bytes(1));
        lemma_counted(w0, 1, body1);
        assert(w@ =~= w0 + seq![0u8, 0u8, 0u8, 0u8] + u16_bytes(1) + body1);
    }
    end_object(w, outer);
    let ghost leaf = member_leaf_bytes(name@, title@, size, index, code, count);
    proof {
        assert(w@ =~= w0 + leaf);
        assert(w@.subrange(0, t as int) =~= old(w)@);
        assert(w@ =~= w@.subrange(0, t as int) + seq![0u8, 0u8, 0u8, 0u8] + u32_bytes(0xFFFF_FFFF) + class + seq![0u8]
            + leaf);
    }
    end_any(w, t, Ghost(class), Ghost(leaf));
    refs.remember(String::from_str(name), ref_at(pos, keylen));
}

/// A member branch's name: `parent.member`.
pub open spec fn sub_name(parent: Seq<char>, member: Seq<char>) -> Seq<char> {
    parent + "."@ + member
}

/// A member branch's title: `member[counter]`.
pub open spec fn sub_title(member: Seq<char>, counter: Seq<char>) -> Seq<char> {
    member + "["@ + counter + "]"@
}

/// The `TBranchElement` (version 10, `fType` 41) of member `index` of a
/// split collection, written at offset `base`: a `TBranch` base holding
/// one basket, its [`member_leaf_bytes`] leaf, then the struct's class
/// name as class and parent, its checksum, class version 1, the member's
/// index and type code, and a reference to the parent collection; with
/// the references of [`member_leaf_refs`].
#[verifier::opaque]
pub open spec fn split_sub_bytes(
    parent: Seq<char>,
    counter: Seq<char>,
    class: Seq<char>,
    checksum: u32,
    member: SplitMember,
    index: i32,
    basket: BasketRec,
    n_entries: i64,
    keylen: u32,
    parent_ref: u32,
    refs: RefSeq,
    inline: bool,
    base: int,
) -> (Seq<u8>, RefSeq) {
    let name = sub_name(parent, member.name_of());
    let title = sub_title(member.name_of(), counter);
    let ty = spec_member_type(member.values_of());
    let head = head_bytes(name, title, 1000i32, 1i32, n_entries, 10i32, 0i32, basket.nbytes as i64);
    let leaf = any_bytes(
        encode_utf8("TLeafElement"@),
        member_leaf_bytes(name, title, ty.2, index, ty.0, count_field(counter, inline, refs)),
    );
    let tb = counted(
        13,
        head + obj_array(1, leaf) + obj_array(0, Seq::empty()) + basket_arrays_bytes(seq![basket], 10i32)
            + tstring_bytes(Seq::empty()),
    );
    (
        counted(10, tb + element_tail(class, class, Seq::empty(), checksum, 1u16, index, 41i32, ty.0, 0i32, parent_ref)),
        member_leaf_refs(name, title, counter, inline, keylen, refs, base + 12 + head.len() + 25),
    )
}

/// The `TBranch` base of a member branch: one basket, the member's leaf
/// ([`member_leaf_bytes`] with [`count_field`] as its `fLeafCount`).
pub open spec fn sub_branch_bytes(
    name: Seq<char>,
    title: Seq<char>,
    size: i32,
    index: i32,
    code: i32,
    counter: Seq<char>,
    inline: bool,
    basket: BasketRec,
    n_entries: i64,
    refs: RefSeq,
) -> Seq<u8> {
    let head = head_bytes(name, title, 1000i32, 1i32, n_entries, 10i32, 0i32, basket.nbytes as i64);
    let leaf = any_bytes(
        encode_utf8("TLeafElement"@),
        member_leaf_bytes(name, title, size, index, code, count_field(counter, inline, refs)),
    );
    counted(
        13,
        head + obj_array(1, leaf) + obj_array(0, Seq::empty()) + basket_arrays_bytes(seq![basket], 10i32)
            + tstring_bytes(Seq::empty()),
    )
}

/// Write the `TBranch` base of a member branch (see [`sub_branch_bytes`]).
#[verifier::spinoff_prover]
#[verifier::rlimit(60)]
fn write_sub_branch(
    w: &mut Vec<u8>,
    name: &str,
    title: &str,
    size: i32,
    index: i32,
    code: i32,
    counter: &str,
    inline: bool,
    basket: &BasketRec,
    n_entries: i64,
    keylen: u32,
    refs: &mut Refs,
)
    ensures
        final(w)@ == old(w)@ + sub_branch_bytes(name@, title@, size, index, code, counter@, inline, *basket, n_entries, old(refs)@),
        final(refs)@ == member_leaf_refs(
            name@,
            title@,
            counter@,
            inline,
            keylen,
            old(refs)@,
            (old(w)@.len() + 6 + head_bytes(name@, title@, 1000i32, 1i32, n_entries, 10i32, 0i32, basket.nbytes as i64).len()
                + 25) as int,
        ),
{
    let ghost head = head_bytes(name@, title@, 1000i32, 1i32, n_entries, 10i32, 0i32, basket.nbytes as i64);
    let tb = begin_object(w, 13);
    let ghost w1 = w@;
    write_head_fields(w, name, title, 1000, 1, n_entries, 10, 0, basket.nbytes as i64);
    let ghost w2 = w@;
    let la = begin_array(w, 1);
    let ghost refs0 = refs@;
    write_member_leaf(w, name, title, size, index, code, counter, inline, keylen, refs);
    let ghost leaf = any_bytes(
        encode_utf8("TLeafElement"@),
        member_leaf_bytes(name@, title@, size, index, code, count_field(counter@, inline, refs0)),
    );
    proof {
        assert(w@.subrange(0, la as int) =~= w2);
        assert(w@ =~= w@.subrange(0, la as int) + seq![0u8, 0u8, 0u8, 0u8] + u16_bytes(3) + array_head_bytes(1)
            + leaf);
    }
    end_array(w, la, Ghost(1), Ghost(leaf));
    write_empty_array(w);
    let one: Vec<BasketRec> = vec![*basket];
    assert(one@ =~= seq![*basket]);
    write_basket_arrays(w, one.as_slice(), 10);
    let empty = String::new();
    put_tstring(w, empty.as_str());
    let ghost body13 = head + obj_array(1, leaf) + obj_array(0, Seq::empty()) + basket_arrays_bytes(
        seq![*basket],
        10i32,
    ) + tstring_bytes(Seq::empty());
    proof {
        assert(w1 =~= old(w)@ + seq![0u8, 0u8, 0u8, 0u8] + u16_bytes(13));
        lemma_counted(old(w)@, 13, body13);
        assert(w@ =~= old(w)@ + seq![0u8, 0u8, 0u8, 0u8] + u16_bytes(13) + body13);
    }
    end_object(w, tb);
}

/// Write member `index` of a split collection (see [`split_sub_bytes`]).
pub fn write_split_sub(
    w: &mut Vec<u8>,
    parent: &str,
    counter: &str,
    class: &str,
    checksum: u32,
    member: &SplitMember,
    index: i32,
    basket: &BasketRec,
    n_entries: i64,
    keylen: u32,
    parent_ref: u32,
    refs: &mut Refs,
    inline: bool,
)
    ensures
        final(w)@ == old(w)@ + split_sub_bytes(
            parent@,
            counter@,
            class@,
            checksum,
            *member,
            index,
            *basket,
            n_entries,
            keylen,
            parent_ref,
            old(refs)@,
            inline,
            old(w)@.len() as int,
        ).0,
        final(refs)@ == split_sub_bytes(
            parent@,
            counter@,
            class@,
            checksum,
            *member,
            index,
            *basket,
            n_entries,
            keylen,
            parent_ref,
            old(refs)@,
            inline,
            old(w)@.len() as int,
        ).1,
{
    reveal(split_sub_bytes);
    let (code, _spelling, size) = member_type_info(&member.values);
    let n0 = concat_str(parent, ".");
    let name = concat_str(n0.as_str(), member.name.as_str());
    let t0 = concat_str(member.name.as_str(), "[");
    let t1 = concat_str(t0.as_str(), counter);
    let title = concat_str(t1.as_str(), "]");
    let te = begin_object(w, 10);
    let ghost w0 = w@;
    let ghost refs0 = refs@;
    write_sub_branch(w, name.as_str(), title.as_str(), size, index, code, counter, inline, basket, n_entries, keylen, refs);
    let ghost tb = sub_branch_bytes(name@, title@, size, index, code, counter@, inline, *basket, n_entries, refs0);
    let empty = String::new();
    write_element_tail(w, class, class, empty.as_str(), checksum, 1, index, 41, code, 0, parent_ref);
    let ghost body10 = tb + element_tail(
        class@,
        class@,
        Seq::empty(),
        checksum,
        1u16,
        index,
        41i32,
        code,
        0i32,
        parent_ref,
    );
    proof {
        lemma_counted(old(w)@, 10, body10);
        assert(w@ =~= old(w)@ + seq![0u8, 0u8, 0u8, 0u8] + u16_bytes(10) + body10);
    }
    end_object(w, te);
}

/// The member branches of a split collection, each written with a fresh
/// class tag, from offset `base` on: the first `k` of them, and the
/// references after them. Member `i` holds basket `i + 1` of `group`;
/// the first writes the counter leaf in full.
pub open spec fn subs_bytes(
    parent: Seq<char>,
    counter: Seq<char>,
    class: Seq<char>,
    checksum: u32,
    ms: Seq<SplitMember>,
    group: Seq<BasketRec>,
    n_entries: i64,
    keylen: u32,
    parent_ref: u32,
    refs: RefSeq,
    base: int,
    k: nat,
) -> (Seq<u8>, RefSeq)
    decreases k,
{
    if k == 0 {
        (Seq::empty(), refs)
    } else {
        let (prev, r) = subs_bytes(
            parent,
            counter,
            class,
            checksum,
            ms,
            group,
            n_entries,
            keylen,
            parent_ref,
            refs,
            base,
            (k - 1) as nat,
        );
        let at = base + prev.len() + 9 + encode_utf8("TBranchElement"@).len();
        let (sub, r2) = split_sub_bytes(
            parent,
            counter,
            class,
            checksum,
            ms[k - 1],
            (k - 1) as i32,
            group[k as int],
            n_entries,
            keylen,
            parent_ref,
            r,
            k == 1,
            at,
        );
        (prev + any_bytes(encode_utf8("TBranchElement"@), sub), r2)
    }
}

/// Write the member branches of a split collection (see [`subs_bytes`]).
#[verifier::spinoff_prover]
#[verifier::rlimit(40)]
fn write_subs(
    w: &mut Vec<u8>,
    parent: &str,
    counter: &str,
    class: &str,
    checksum: u32,
    ms: &[SplitMember],
    group: &[BasketRec],
    n_entries: i64,
    keylen: u32,
    parent_ref: u32,
    refs: &mut Refs,
)
    requires
        group@.len() > ms@.len(),
    ensures
        final(w)@ == old(w)@ + subs_bytes(
            parent@,
            counter@,
            class@,
            checksum,
            ms@,
            group@,
            n_entries,
            keylen,
            parent_ref,
            old(refs)@,
            old(w)@.len() as int,
            ms@.len(),
        ).0,
        final(refs)@ == subs_bytes(
            parent@,
            counter@,
            class@,
            checksum,
            ms@,
            group@,
            n_entries,
            keylen,
            parent_ref,
            old(refs)@,
            old(w)@.len() as int,
            ms@.len(),
        ).1,
{
    let ghost w0 = w@;
    let ghost r0 = refs@;
    let ghost class_tag = encode_utf8("TBranchElement"@);
    let mut i: usize = 0;
    while i < ms.len()
        invariant
            i <= ms@.len(),
            group@.len() > ms@.len(),
            class_tag == encode_utf8("TBranchElement"@),
            w@ == w0 + subs_bytes(
                parent@,
                counter@,
                class@,
                checksum,
                ms@,
                group@,
                n_entries,
                keylen,
                parent_ref,
                r0,
                w0.len() as int,
                i as nat,
            ).0,
            refs@ == subs_bytes(
                parent@,
                counter@,
                class@,
                checksum,
                ms@,
                group@,
                n_entries,
                keylen,
                parent_ref,
                r0,
                w0.len() as int,
                i as nat,
            ).1,
        decreases ms@.len() - i,
    {
        let ghost before = w@;
        let at = begin_any(w, "TBranchElement");
        let ghost w1 = w@;
        let ghost refs1 = refs@;
        write_split_sub(
            w,
            parent,
            counter,
            class,
            checksum,
            &ms[i],
            i as i32,
            &group[i + 1],
            n_entries,
            keylen,
            parent_ref,
            refs,
            i == 0,
        );
        let ghost sub = split_sub_bytes(
            parent@,
            counter@,
            class@,
            checksum,
            ms@[i as int],
            i as i32,
            group@[i + 1],
            n_entries,
            keylen,
            parent_ref,
            refs1,
            i == 0,
            w1.len() as int,
        ).0;
        proof {
            assert(w@.subrange(0, at as int) =~= before);
            assert(w@ =~= w@.subrange(0, at as int) + seq![0u8, 0u8, 0u8, 0u8] + u32_bytes(0xFFFF_FFFF) + class_tag
                + seq![0u8] + sub);
        }
        end_any(w, at, Ghost(class_tag), Ghost(sub));
        proof {
            let prev = subs_bytes(
                parent@,
                counter@,
                class@,
                checksum,
                ms@,
                group@,
                n_entries,
                keylen,
                parent_ref,
                r0,
                w0.len() as int,
                i as nat,
            );
            assert(before == w0 + prev.0);
            assert(w1.len() == w0.len() + prev.0.len() + 9 + class_tag.len());
            assert(subs_bytes(
                parent@,
                counter@,
                class@,
                checksum,
                ms@,
                group@,
                n_entries,
                keylen,
                parent_ref,
                r0,
                w0.len() as int,
                (i + 1) as nat,
            ) == (prev.0 + any_bytes(class_tag, sub), refs@));
            assert(w@ =~= w0 + (prev.0 + any_bytes(class_tag, sub)));
        }
        i += 1;
    }
}

/// The largest of `lens` (0 when there is none).
pub open spec fn max_count(lens: Seq<i32>) -> i32
    decreases lens.len(),
{
    if lens.len() == 0 {
        0
    } else if lens.len() == 1 {
        lens[0]
    } else {
        let m = max_count(lens.drop_last());
        if lens.last() > m {
            lens.last()
        } else {
            m
        }
    }
}

/// The largest of `lens` (0 when there is none).
fn largest(lens: &Vec<i32>) -> (r: i32)
    ensures
        r == max_count(lens@),
{
    let mut m: i32 = 0;
    let mut i: usize = 0;
    while i < lens.len()
        invariant
            i <= lens@.len(),
            m == max_count(lens@.take(i as int)),
        decreases lens@.len() - i,
    {
        assert(lens@.take(i + 1).drop_last() =~= lens@.take(i as int));
        if i == 0 || lens[i] > m {
            m = lens[i];
        }
        i += 1;
    }
    assert(lens@.take(i as int) =~= lens@);
    m
}

/// The `TBranch` base of a split collection's parent, written at offset
/// `base`: titled by the counter name, holding basket 0 of `group`, the
/// member branches in `fBranches` (see [`subs_bytes`]) and a reference to
/// the counter leaf in `fLeaves`; with the references after the members.
pub open spec fn parent_branch_bytes(
    name: Seq<char>,
    counter: Seq<char>,
    class: Seq<char>,
    checksum: u32,
    ms: Seq<SplitMember>,
    group: Seq<BasketRec>,
    n_entries: i64,
    keylen: u32,
    parent_ref: u32,
    refs: RefSeq,
    base: int,
) -> (Seq<u8>, RefSeq) {
    let head = head_bytes(name, counter, 1000i32, 1i32, n_entries, 10i32, 99i32, group[0].nbytes as i64);
    let (subs, r) = subs_bytes(
        name,
        counter,
        class,
        checksum,
        ms,
        group,
        n_entries,
        keylen,
        parent_ref,
        refs,
        base + 6 + head.len() + 25,
        ms.len(),
    );
    (
        counted(
            13,
            head + obj_array(ms.len() as i32, subs) + obj_array(1, u32_bytes(ref_of(r, counter))) + obj_array(
                0,
                Seq::empty(),
            ) + basket_arrays_bytes(seq![group[0]], 10i32) + tstring_bytes(Seq::empty()),
        ),
        r,
    )
}

/// Write the `TBranch` base of a split collection's parent (see
/// [`parent_branch_bytes`]).
#[verifier::spinoff_prover]
#[verifier::rlimit(40)]
fn write_parent_branch(
    w: &mut Vec<u8>,
    name: &str,
    counter: &str,
    class: &str,
    checksum: u32,
    ms: &[SplitMember],
    group: &[BasketRec],
    n_entries: i64,
    keylen: u32,
    parent_ref: u32,
    refs: &mut Refs,
)
    requires
        group@.len() > ms@.len(),
    ensures
        final(w)@ == old(w)@ + parent_branch_bytes(
            name@,
            counter@,
            class@,
            checksum,
            ms@,
            group@,
            n_entries,
            keylen,
            parent_ref,
            old(refs)@,
            old(w)@.len() as int,
        ).0,
        final(refs)@ == parent_branch_bytes(
            name@,
            counter@,
            class@,
            checksum,
            ms@,
            group@,
            n_entries,
            keylen,
            parent_ref,
            old(refs)@,
            old(w)@.len() as int,
        ).1,
{
    let ghost head = head_bytes(name@, counter@, 1000i32, 1i32, n_entries, 10i32, 99i32, group@[0].nbytes as i64);
    let tb = begin_object(w, 13);
    let ghost w1 = w@;
    write_head_fields(w, name, counter, 1000, 1, n_entries, 10, 99, group[0].nbytes as i64);
    let ghost w2 = w@;
    let arr = begin_array(w, ms.len() as i32);
    let ghost w3 = w@;
    let ghost refs0 = refs@;
    write_subs(w, name, counter, class, checksum, ms, group, n_entries, keylen, parent_ref, refs);
    let ghost subs = subs_bytes(
        name@,
        counter@,
        class@,
        checksum,
        ms@,
        group@,
        n_entries,
        keylen,
        parent_ref,
        refs0,
        w3.len() as int,
        ms@.len(),
    ).0;
    proof {
        assert(w@.subrange(0, arr as int) =~= w2);
        assert(w@ =~= w@.subrange(0, arr as int) + seq![0u8, 0u8, 0u8, 0u8] + u16_bytes(3) + array_head_bytes(
            ms@.len() as i32,
        ) + subs);
    }
    end_array(w, arr, Ghost(ms@.len() as i32), Ghost(subs));
    let ghost w4 = w@;
    let la = begin_array(w, 1);
    let r = refs.get(counter);
    put_u32(w, r);
    proof {
        assert(w@.subrange(0, la as int) =~= w4);
        assert(w@ =~= w@.subrange(0, la as int) + seq![0u8, 0u8, 0u8, 0u8] + u16_bytes(3) + array_head_bytes(1)
            + u32_bytes(r));
    }
    end_array(w, la, Ghost(1), Ghost(u32_bytes(r)));
    write_empty_array(w);
    let one: Vec<BasketRec> = vec![group[0]];
    assert(one@ =~= seq![group@[0]]);
    write_basket_arrays(w, one.as_slice(), 10);
    let empty = String::new();
    put_tstring(w, empty.as_str());
    let ghost body = head + obj_array(ms@.len() as i32, subs) + obj_array(1, u32_bytes(r)) + obj_array(
        0,
        Seq::empty(),
    ) + basket_arrays_bytes(seq![group@[0]], 10i32) + tstring_bytes(Seq::empty());
    proof {
        assert(w1 =~= old(w)@ + seq![0u8, 0u8, 0u8, 0u8] + u16_bytes(13));
        lemma_counted(old(w)@, 13, body);
        assert(w@ =~= old(w)@ + seq![0u8, 0u8, 0u8, 0u8] + u16_bytes(13) + body);
    }
    end_object(w, tb);
}

/// The struct a split collection holds.
pub open spec fn split_of(b: Branch) -> SplitSpec {
    match b.kind_of() {
        BranchKind::Split(s) => *s,
        _ => arbitrary(),
    }
}

/// The parent `TBranchElement` (version 10, `fType` 4) of the split
/// collection branch `b`, written at offset `base`: its `TBranch` base
/// (see [`parent_branch_bytes`], titled `name_`), then `vector<Class>` as
/// class, the struct's class name as clones name, checksum 0, class
/// version 6, `fID` -1, `fStreamerType` -1, the largest element count of
/// the first member as `fMaximum`, and null branch counts.
#[verifier::opaque]
pub open spec fn split_parent_bytes(
    b: Branch,
    group: Seq<BasketRec>,
    n_entries: i64,
    keylen: u32,
    parent_ref: u32,
    refs: RefSeq,
    base: int,
) -> (Seq<u8>, RefSeq) {
    let spec = split_of(b);
    let counter = b.name_of() + "_"@;
    let class = spec.class_of();
    let ms = spec.members_of();
    let checksum = checksum_feed(0, encode_utf8(class) + members_bytes(ms));
    let (tb, r) = parent_branch_bytes(
        b.name_of(),
        counter,
        class,
        checksum,
        ms,
        group,
        n_entries,
        keylen,
        parent_ref,
        refs,
        base + 6,
    );
    let top = max_count(lens_i32(ms[0].values_of().lens()));
    (
        counted(
            10,
            tb + element_tail(
                "vector<"@ + class + ">"@,
                Seq::empty(),
                class,
                0u32,
                6u16,
                -1i32,
                4i32,
                -1i32,
                top,
                0u32,
            ),
        ),
        r,
    )
}

/// Write the parent of a split collection branch (see
/// [`split_parent_bytes`]). `parent_ref` is the reference its members
/// point back at.
pub fn write_split_parent(
    w: &mut Vec<u8>,
    b: &Branch,
    group: &[BasketRec],
    n_entries: i64,
    keylen: u32,
    parent_ref: u32,
    refs: &mut Refs,
)
    requires
        b.kind_of() is Split,
        split_of(*b).members_of().len() > 0,
        group@.len() > split_of(*b).members_of().len(),
    ensures
        final(w)@ == old(w)@ + split_parent_bytes(*b, group@, n_entries, keylen, parent_ref, old(refs)@, old(w)@.len() as int).0,
        final(refs)@ == split_parent_bytes(*b, group@, n_entries, keylen, parent_ref, old(refs)@, old(w)@.len() as int).1,
{
    reveal(split_parent_bytes);
    let spec = match b.split() {
        Some(s) => s,
        None => {
            proof {
                assert(false);
            }
            return;
        },
    };
    let counter = concat_str(b.name.as_str(), "_");
    let checksum = class_checksum(spec.class_name.as_str(), spec.members.as_slice());
    let lens = vec_row_lengths(&spec.members[0].values);
    let top = largest(&lens);
    let te = begin_object(w, 10);
    let ghost w0 = w@;
    let ghost refs0 = refs@;
    write_parent_branch(
        w,
        b.name.as_str(),
        counter.as_str(),
        spec.class_name.as_str(),
        checksum,
        spec.members.as_slice(),
        group,
        n_entries,
        keylen,
        parent_ref,
        refs,
    );
    let ghost tb = parent_branch_bytes(
        b.name_of(),
        counter@,
        spec.class_of(),
        checksum,
        spec.members_of(),
        group@,
        n_entries,
        keylen,
        parent_ref,
        refs0,
        w0.len() as int,
    ).0;
    let c0 = concat_str("vector<", spec.class_name.as_str());
    let vclass = concat_str(c0.as_str(), ">");
    let empty = String::new();
    write_element_tail(w, vclass.as_str(), empty.as_str(), spec.class_name.as_str(), 0, 6, -1, 4, -1, top, 0);
    let ghost body = tb + element_tail(
        vclass@,
        Seq::empty(),
        spec.class_of(),
        0u32,
        6u16,
        -1i32,
        4i32,
        -1i32,
        top,
        0u32,
    );
    proof {
        lemma_counted(old(w)@, 10, body);
        assert(w@ =~= old(w)@ + seq![0u8, 0u8, 0u8, 0u8] + u16_bytes(10) + body);
    }
    end_object(w, te);
}

} // verus!
