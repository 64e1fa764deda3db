//! What the reader reads back of the object headers, `TNamed`s and leaves
//! the writer emits.

use vstd::prelude::*;
use vstd::utf8::{encode_utf8, encode_utf8_decode_utf8, encode_utf8_valid_utf8};
use crate::codec::{i32_bytes, lemma_i32_roundtrip, lemma_u16_roundtrip, lemma_u32_roundtrip, u16_bytes, u32_bytes};
use crate::codec::{first_at, lemma_index_of};
use crate::rbuffer::{cstring_end, version_at, VersionHeader, K_BYTE_COUNT_MASK};
use crate::reader::walk::{array_head_at, leaf_array_at, leaf_at, leaf_items_at};
use crate::reader::LeafView;
use crate::tags::{header_at, tnamed_at, tobject_end, K_BYTE_COUNT_VMASK, K_IS_REFERENCED};
use crate::text::text_of;
use crate::value::{spec_from_leaf, Column};
use super::content::tstring_bytes;
use super::layout::base_leaf;
use super::round_trip::{lemma_tstring_at, leaf_of};
use super::branch::Branch;
use super::serialize::{
    any_bytes, array_head_bytes, counted, leaf_array_bytes, leaf_bytes, leaf_class, leaf_fields, leaf_title,
    minmax_bytes, obj_array, tleaf_bytes, tnamed_bytes, tobject_bytes, RefSeq, OBJ_BITS,
};

verus! {

/// A stored text reads back as the text it was written from.
proof fn lemma_text_of_encoded(t: Seq<char>)
    ensures
        text_of(encode_utf8(t)) == t,
{
    encode_utf8_valid_utf8(t);
    encode_utf8_decode_utf8(t);
}

/// A part of bytes that `s` holds from `p` is held from `p` plus the part's
/// start.
proof fn lemma_part(s: Seq<u8>, p: int, whole: Seq<u8>, a: int, b: int)
    requires
        0 <= p,
        p + whole.len() <= s.len(),
        s.subrange(p, p + whole.len()) == whole,
        0 <= a <= b <= whole.len(),
    ensures
        s.subrange(p + a, p + b) == whole.subrange(a, b),
{
    assert(s.subrange(p + a, p + b) =~= whole.subrange(a, b)) by {
        assert forall|i: int| 0 <= i < b - a implies s.subrange(p + a, p + b)[i] == whole.subrange(a, b)[i] by {
            assert(s.subrange(p, p + whole.len())[a + i] == whole[a + i]);
        }
    }
}

/// A counted record reads back as its version, ending after its body.
pub proof fn lemma_version_counted(s: Seq<u8>, p: int, v: u16, body: Seq<u8>)
    requires
        0 <= p,
        p + counted(v, body).len() <= s.len(),
        s.subrange(p, p + counted(v, body).len()) == counted(v, body),
        body.len() + 2 < 0x4000_0000,
        p + counted(v, body).len() <= usize::MAX,
    ensures
        counted(v, body).len() == body.len() + 6,
        version_at(s, p) == Some(
            (VersionHeader { version: v, end: Some((p + 6 + body.len()) as usize) }, p + 6),
        ),
{
    let x = (body.len() + 2) as u32;
    let w = x | K_BYTE_COUNT_MASK;
    let c = counted(v, body);
    assert(c == u32_bytes(w) + u16_bytes(v) + body);
    assert(s.subrange(p, p + 4) =~= c.subrange(0, 4));
    assert(c.subrange(0, 4) =~= u32_bytes(w));
    lemma_u32_roundtrip(w, s, p);
    assert(s.subrange(p + 4, p + 6) =~= c.subrange(4, 6));
    assert(c.subrange(4, 6) =~= u16_bytes(v));
    lemma_u16_roundtrip(v, s, p + 4);
    assert(w & 0x4000_0000u32 != 0 && w & !0x4000_0000u32 == x) by (bit_vector)
        requires
            w == x | 0x4000_0000u32,
            x < 0x4000_0000u32,
    ;
}

/// A `TNamed` reads back as its name and title, ending after its record.
pub proof fn lemma_tnamed_read_back(s: Seq<u8>, p: int, bits: u32, name: Seq<char>, title: Seq<char>)
    requires
        0 <= p,
        p + tnamed_bytes(bits, name, title).len() <= s.len(),
        s.subrange(p, p + tnamed_bytes(bits, name, title).len()) == tnamed_bytes(bits, name, title),
        bits & K_IS_REFERENCED == 0,
        encode_utf8(name).len() + encode_utf8(title).len() < 0x1000_0000,
        p + tnamed_bytes(bits, name, title).len() <= usize::MAX,
    ensures
        tnamed_bytes(bits, name, title).len() == 16 + tstring_bytes(name).len() + tstring_bytes(title).len(),
        tnamed_at(s, p) == Some((name, title, p + tnamed_bytes(bits, name, title).len())),
{
    let tn = tstring_bytes(name);
    let tt = tstring_bytes(title);
    let body = tobject_bytes(bits) + tn + tt;
    let all = tnamed_bytes(bits, name, title);
    assert(tn.len() <= encode_utf8(name).len() + 5);
    assert(tt.len() <= encode_utf8(title).len() + 5);
    lemma_version_counted(s, p, 1, body);
    let q = p + 6;
    assert(all == u32_bytes(((body.len() + 2) as u32) | K_BYTE_COUNT_MASK) + u16_bytes(1) + body);
    lemma_part(s, p, all, 6, 6 + body.len() as int);
    assert(all.subrange(6, 6 + body.len() as int) =~= body);
    lemma_part(s, q, body, 0, 2);
    assert(body.subrange(0, 2) =~= u16_bytes(1));
    lemma_u16_roundtrip(1, s, q);
    assert(1u16 & 0x4000u16 == 0) by (bit_vector);
    lemma_part(s, q, body, 6, 10);
    assert(body.subrange(6, 10) =~= u32_bytes(bits));
    lemma_u32_roundtrip(bits, s, q + 6);
    assert(tobject_end(s, q) == Some(q + 10));
    let q2 = q + 10;
    lemma_part(s, q, body, 10, 10 + tn.len() as int);
    assert(body.subrange(10, 10 + tn.len() as int) =~= tn);
    lemma_tstring_at(s, q2, name);
    let e1 = q2 + tn.len();
    lemma_part(s, q, body, 10 + tn.len() as int, body.len() as int);
    assert(body.subrange(10 + tn.len() as int, body.len() as int) =~= tt);
    lemma_tstring_at(s, e1, title);
    lemma_text_of_encoded(name);
    lemma_text_of_encoded(title);
}

/// A `TLeaf*` record — a counted record of version 1 holding the `TLeaf`
/// base of `name`, `title`, `fLen` `len` and so on, then `tail` — reads
/// back, for the class `class`, as the leaf those name.
#[verifier::rlimit(80)]
#[verifier::spinoff_prover]
proof fn lemma_tleaf_read_back(
    s: Seq<u8>,
    p: int,
    name: Seq<char>,
    title: Seq<char>,
    len: i32,
    len_type: i32,
    range: bool,
    unsigned: bool,
    count: u32,
    tail: Seq<u8>,
    class: Seq<char>,
)
    requires
        encode_utf8(name).len() + encode_utf8(title).len() < 0x1000_0000,
        tail.len() <= 16,
        0 <= p,
        p + counted(1, tleaf_bytes(name, title, len, len_type, range, unsigned, count) + tail).len() <= s.len(),
        s.subrange(p, p + counted(1, tleaf_bytes(name, title, len, len_type, range, unsigned, count) + tail).len())
            == counted(1, tleaf_bytes(name, title, len, len_type, range, unsigned, count) + tail),
        p + counted(1, tleaf_bytes(name, title, len, len_type, range, unsigned, count) + tail).len() <= usize::MAX,
    ensures
        leaf_at(s, p, encode_utf8(class)) matches Some((lv, _)) && lv == match spec_from_leaf(class, unsigned) {
            Some(lt) => Some(LeafView { name, title, leaf_type: lt, len, offset: 0 }),
            None => None,
        },
{
    let tn = tnamed_bytes(OBJ_BITS, name, title);
    let rb: u8 = if range { 1u8 } else { 0u8 };
    let ub: u8 = if unsigned { 1u8 } else { 0u8 };
    let fields = i32_bytes(len) + i32_bytes(len_type) + i32_bytes(0) + seq![rb, ub] + u32_bytes(count);
    let tl = tleaf_bytes(name, title, len, len_type, range, unsigned, count);
    let lb = counted(1, tl + tail);
    assert(tl == counted(2, tn + fields));
    assert(tstring_bytes(name).len() <= encode_utf8(name).len() + 5);
    assert(tstring_bytes(title).len() <= encode_utf8(title).len() + 5);
    assert(tn == counted(1, tobject_bytes(OBJ_BITS) + tstring_bytes(name) + tstring_bytes(title)));
    assert(fields.len() == 18);
    lemma_version_counted(s, p, 1, tl + tail);
    let q1 = p + 6;
    lemma_part(s, p, lb, 6, 6 + tl.len() as int);
    assert(lb.subrange(6, 6 + tl.len() as int) =~= tl);
    lemma_version_counted(s, q1, 2, tn + fields);
    let q2 = q1 + 6;
    let inner = tn + fields;
    lemma_part(s, q1, tl, 6, 6 + inner.len() as int);
    assert(tl.subrange(6, 6 + inner.len() as int) =~= inner);
    lemma_part(s, q2, inner, 0, tn.len() as int);
    assert(inner.subrange(0, tn.len() as int) =~= tn);
    assert(OBJ_BITS & K_IS_REFERENCED == 0) by (bit_vector);
    lemma_tnamed_read_back(s, q2, OBJ_BITS, name, title);
    let q3 = q2 + tn.len();
    let k = tn.len() as int;
    lemma_part(s, q2, inner, k, k + 4);
    assert(inner.subrange(k, k + 4) =~= i32_bytes(len));
    lemma_i32_roundtrip(len, s, q3);
    lemma_part(s, q2, inner, k + 8, k + 12);
    assert(inner.subrange(k + 8, k + 12) =~= i32_bytes(0));
    lemma_i32_roundtrip(0, s, q3 + 8);
    lemma_part(s, q2, inner, k + 13, k + 14);
    assert(inner.subrange(k + 13, k + 14) =~= seq![ub]);
    assert(s.subrange(q3 + 13, q3 + 14)[0] == s[q3 + 13]);
    lemma_text_of_encoded(class);
}

/// The class a column's leaf is written as, with its signedness, names the
/// column's element type.
proof fn lemma_leaf_class_type(c: Column)
    ensures
        spec_from_leaf(base_leaf(c).0, base_leaf(c).3) == Some(leaf_of(c)),
{
    reveal_strlit("TLeafO");
    reveal_strlit("TLeafB");
    reveal_strlit("TLeafS");
    reveal_strlit("TLeafI");
    reveal_strlit("TLeafL");
    reveal_strlit("TLeafF");
    reveal_strlit("TLeafD");
    reveal_strlit("TLeafC");
    assert("TLeafO"@[5] == 'O');
    assert("TLeafB"@[5] == 'B');
    assert("TLeafS"@[5] == 'S');
    assert("TLeafI"@[5] == 'I');
    assert("TLeafL"@[5] == 'L');
    assert("TLeafF"@[5] == 'F');
    assert("TLeafD"@[5] == 'D');
    assert("TLeafC"@[5] == 'C');
}

/// Whether the names a leaf is written with fit the reader's bounds.
pub open spec fn leaf_names_fit(b: Branch) -> bool {
    encode_utf8(b.name_of()).len() + encode_utf8(leaf_title(b)).len() < 0x1000_0000
}

/// A written leaf reads back as the leaf it describes. Where `s` holds, from
/// byte `p`, the `TLeaf*` that [`leaf_bytes`] writes for a branch that is
/// not a `std::vector` (whose leaf is a `TLeafElement`), and the object
/// header named the leaf's class, the reader's [`leaf_at`] recovers the
/// branch's name, the leaf's title, the branch's element type, the written
/// `fLen` and an offset of 0.
pub proof fn lemma_leaf_read_back(b: Branch, refs: RefSeq, s: Seq<u8>, p: int)
    requires
        !(b.kind_of() is StlVector),
        leaf_names_fit(b),
        0 <= p,
        p + leaf_bytes(b, refs).len() <= s.len(),
        s.subrange(p, p + leaf_bytes(b, refs).len()) == leaf_bytes(b, refs),
        p + leaf_bytes(b, refs).len() <= usize::MAX,
    ensures
        leaf_at(s, p, encode_utf8(leaf_class(b))) matches Some((lv, _)) && lv == Some(
            LeafView {
                name: b.name_of(),
                title: leaf_title(b),
                leaf_type: leaf_of(b.values_of()),
                len: leaf_fields(b, refs).len,
                offset: 0,
            },
        ),
{
    let f = leaf_fields(b, refs);
    let mm = minmax_bytes(f.size, f.max);
    assert(mm.len() <= 16);
    assert(leaf_bytes(b, refs) == counted(
        1,
        tleaf_bytes(b.name_of(), leaf_title(b), f.len, f.len_type, f.range, f.unsigned, f.count) + mm,
    ));
    lemma_leaf_class_type(b.values_of());
    lemma_tleaf_read_back(
        s,
        p,
        b.name_of(),
        leaf_title(b),
        f.len,
        f.len_type,
        f.range,
        f.unsigned,
        f.count,
        mm,
        leaf_class(b),
    );
}

/// Text of ASCII characters other than NUL is stored one byte per
/// character, none of them zero.
proof fn lemma_ascii_bytes(t: Seq<char>)
    requires
        forall|i: int| 0 <= i < t.len() ==> 0 < (#[trigger] t[i]) as u32 <= 0x7f,
    ensures
        encode_utf8(t).len() == t.len(),
        forall|j: int| 0 <= j < encode_utf8(t).len() ==> #[trigger] encode_utf8(t)[j] != 0,
    decreases t.len(),
{
    if t.len() > 0 {
        let c = t[0] as u32;
        let rest = t.drop_first();
        assert forall|i: int| 0 <= i < rest.len() implies 0 < (#[trigger] rest[i]) as u32 <= 0x7f by {
            assert(rest[i] == t[i + 1]);
        }
        lemma_ascii_bytes(rest);
        assert(0 < c <= 0x7f);
        assert((c & 0x7f) as u8 != 0) by (bit_vector)
            requires
                0 < c <= 0x7f,
        ;
        let e = encode_utf8(t);
        assert(e == seq![(c & 0x7f) as u8] + encode_utf8(rest));
        assert forall|j: int| 0 <= j < e.len() implies #[trigger] e[j] != 0 by {
            if j > 0 {
                assert(e[j] == encode_utf8(rest)[j - 1]);
            }
        }
    }
}

/// The class a leaf is written as is ASCII without NUL.
proof fn lemma_leaf_class_ascii(b: Branch)
    ensures
        forall|i: int| 0 <= i < leaf_class(b).len() ==> 0 < (#[trigger] leaf_class(b)[i]) as u32 <= 0x7f,
        leaf_class(b).len() <= 12,
{
    reveal_strlit("TLeafO");
    reveal_strlit("TLeafB");
    reveal_strlit("TLeafS");
    reveal_strlit("TLeafI");
    reveal_strlit("TLeafL");
    reveal_strlit("TLeafF");
    reveal_strlit("TLeafD");
    reveal_strlit("TLeafC");
    reveal_strlit("TLeafElement");
}

/// A `TObjArray` header written for `size` entries reads back as that size,
/// its entries starting after it.
proof fn lemma_array_head_read_back(s: Seq<u8>, p: int, size: i32, items: Seq<u8>)
    requires
        0 <= size,
        0 <= p,
        p + obj_array(size, items).len() <= s.len(),
        s.subrange(p, p + obj_array(size, items).len()) == obj_array(size, items),
        items.len() < 0x1000_0000,
        p + obj_array(size, items).len() <= usize::MAX,
    ensures
        obj_array(size, items).len() == 25 + items.len(),
        array_head_at(s, p) == Some((size as int, p + 25)),
{
    let head = array_head_bytes(size);
    let body = head + items;
    let all = obj_array(size, items);
    assert(tstring_bytes(Seq::<char>::empty()) =~= seq![0u8]) by {
        assert(encode_utf8(Seq::<char>::empty()) =~= Seq::<u8>::empty());
    }
    assert(head.len() == 19);
    lemma_version_counted(s, p, 3, body);
    let q = p + 6;
    lemma_part(s, p, all, 6, 6 + body.len() as int);
    assert(all.subrange(6, 6 + body.len() as int) =~= body);
    lemma_part(s, q, body, 0, 2);
    assert(body.subrange(0, 2) =~= u16_bytes(1));
    lemma_u16_roundtrip(1, s, q);
    assert(1u16 & 0x4000u16 == 0) by (bit_vector);
    lemma_part(s, q, body, 6, 10);
    assert(body.subrange(6, 10) =~= u32_bytes(0));
    lemma_u32_roundtrip(0, s, q + 6);
    assert(0u32 & 0x10u32 == 0) by (bit_vector);
    assert(tobject_end(s, q) == Some(q + 10));
    lemma_part(s, q, body, 10, 11);
    assert(body.subrange(10, 11) =~= tstring_bytes(Seq::<char>::empty()));
    lemma_tstring_at(s, q + 10, Seq::<char>::empty());
    lemma_part(s, q, body, 11, 15);
    assert(body.subrange(11, 15) =~= i32_bytes(size));
    lemma_i32_roundtrip(size, s, q + 11);
}

/// Whether a leaf's names, and the whole leaf record, fit the reader's
/// bounds.
pub open spec fn leaf_record_fits(b: Branch, refs: RefSeq) -> bool {
    &&& leaf_names_fit(b)
    &&& leaf_bytes(b, refs).len() < 0x0800_0000
}

/// A written branch's `fLeaves` reads back as its one leaf. Where `s`
/// holds, from byte `p`, the `TObjArray` that [`leaf_array_bytes`] writes
/// for a branch that is not a `std::vector`, the reader's
/// [`leaf_array_at`] reads exactly one leaf — the branch's name, the leaf's
/// title, the branch's element type, the written `fLen`, offset 0 — and
/// stops at the array's end.
#[verifier::rlimit(100)]
#[verifier::spinoff_prover]
pub proof fn lemma_leaf_array_read_back(
    b: Branch,
    refs: RefSeq,
    s: Seq<u8>,
    p: int,
    kb: u128,
    m: Seq<(u128, Seq<u8>)>,
)
    requires
        !(b.kind_of() is StlVector),
        leaf_record_fits(b, refs),
        0 <= p,
        p + leaf_array_bytes(b, refs).len() <= s.len(),
        s.subrange(p, p + leaf_array_bytes(b, refs).len()) == leaf_array_bytes(b, refs),
        p + leaf_array_bytes(b, refs).len() <= usize::MAX,
    ensures
        leaf_array_at(s, p, kb, m) matches Some((ls, q, _)) && ls == seq![
            LeafView {
                name: b.name_of(),
                title: leaf_title(b),
                leaf_type: leaf_of(b.values_of()),
                len: leaf_fields(b, refs).len,
                offset: 0,
            },
        ] && q == p + leaf_array_bytes(b, refs).len(),
{
    let class = encode_utf8(leaf_class(b));
    let lb = leaf_bytes(b, refs);
    let item = any_bytes(class, lb);
    let all = leaf_array_bytes(b, refs);
    lemma_leaf_class_ascii(b);
    lemma_ascii_bytes(leaf_class(b));
    assert(leaf_class(b).len() <= 12);
    assert(all == obj_array(1, item));
    lemma_array_head_read_back(s, p, 1, item);
    let q = p + 25;
    lemma_part(s, p, all, 25, 25 + item.len() as int);
    assert(all.subrange(25, 25 + item.len() as int) =~= item);
    let x = (4 + class.len() + 1 + lb.len()) as u32;
    let w = x | K_BYTE_COUNT_MASK;
    assert(item == u32_bytes(w) + u32_bytes(0xFFFF_FFFF) + class + seq![0u8] + lb);
    lemma_part(s, q, item, 0, 4);
    assert(item.subrange(0, 4) =~= u32_bytes(w));
    lemma_u32_roundtrip(w, s, q);
    lemma_part(s, q, item, 4, 8);
    assert(item.subrange(4, 8) =~= u32_bytes(0xFFFF_FFFF));
    lemma_u32_roundtrip(0xFFFF_FFFF, s, q + 4);
    assert(w & 0x4000_0000u32 != 0 && w != 0xFFFF_FFFFu32 && w & !0x4000_0000u32 == x) by (bit_vector)
        requires
            w == x | 0x4000_0000u32,
            x < 0x4000_0000u32,
    ;
    assert(0xFFFF_FFFFu32 & 0x8000_0000u32 != 0) by (bit_vector);
    let z = q + 8 + class.len();
    lemma_part(s, q, item, 8, item.len() as int);
    let rest = s.subrange(q + 8, s.len() as int);
    assert(first_at(rest, 0, class.len() as int)) by {
        assert(rest[class.len() as int] == item[8 + class.len() as int]);
        assert forall|j: int| 0 <= j < class.len() implies rest[j] != 0 by {
            assert(rest[j] == item[8 + j]);
            assert(item[8 + j] == class[j]);
        }
    }
    lemma_index_of(rest, 0, class.len() as int);
    assert(cstring_end(s, q + 8) == Some(z));
    lemma_part(s, q, item, 8, 8 + class.len() as int);
    assert(item.subrange(8, 8 + class.len() as int) =~= class);
    lemma_part(s, q, item, 9 + class.len() as int, item.len() as int);
    assert(item.subrange(9 + class.len() as int, item.len() as int) =~= lb);
    lemma_leaf_read_back(b, refs, s, z + 1);
    let end = q + item.len();
    assert(s.subrange(q + 8, z) == class);
    assert(header_at(s, q, kb, m) matches Some((Some(c), e, q1, _)) && c == class && e == Some(end) && q1 == z
        + 1);
    reveal_with_fuel(leaf_items_at, 2);
}

} // verus!
