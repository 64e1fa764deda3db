//! Split `std::vector<MyStruct>` branches: the members' streamer types, the
//! struct's class checksum, and the consistency the writer needs of them.

use vstd::prelude::*;
use vstd::string::StringSliceAdditionalSpecFns;
use super::branch::{SplitMember, SplitSpec};
use super::layout::{lens_i32, vec_row_lengths};
use crate::error::{Error, Issue};
use crate::value::{BranchValues, Column};
use crate::text::{concat_str, debug_quoted, quoted};
use super::serialize::{decimal, digits};

verus! {

/// The streamer type code, C++ type name and byte size a split member's
/// values are declared with (`(0, "", 0)` for a column that is not a numeric
/// array).
pub open spec fn spec_member_type(c: Column) -> (i32, Seq<char>, i32) {
    match c {
        Column::VecBool(_) => (18, "bool"@, 1),
        Column::VecI8(_) => (1, "char"@, 1),
        Column::VecU8(_) => (11, "unsigned char"@, 1),
        Column::VecI16(_) => (2, "short"@, 2),
        Column::VecU16(_) => (12, "unsigned short"@, 2),
        Column::VecI32(_) => (3, "int"@, 4),
        Column::VecU32(_) => (13, "unsigned int"@, 4),
        Column::VecI64(_) => (16, "Long64_t"@, 8),
        Column::VecU64(_) => (17, "ULong64_t"@, 8),
        Column::VecF32(_) => (5, "float"@, 4),
        Column::VecF64(_) => (8, "double"@, 8),
        _ => (0, ""@, 0),
    }
}

/// The streamer type code, C++ type name and byte size of a split member's
/// element type.
pub fn member_type_info(values: &BranchValues) -> (r: (i32, &'static str, i32))
    ensures
        (r.0, r.1@, r.2) == spec_member_type(values@),
{
    match values {
        BranchValues::VecBool(_) => (18, "bool", 1),
        BranchValues::VecI8(_) => (1, "char", 1),
        BranchValues::VecU8(_) => (11, "unsigned char", 1),
        BranchValues::VecI16(_) => (2, "short", 2),
        BranchValues::VecU16(_) => (12, "unsigned short", 2),
        BranchValues::VecI32(_) => (3, "int", 4),
        BranchValues::VecU32(_) => (13, "unsigned int", 4),
        BranchValues::VecI64(_) => (16, "Long64_t", 8),
        BranchValues::VecU64(_) => (17, "ULong64_t", 8),
        BranchValues::VecF32(_) => (5, "float", 4),
        BranchValues::VecF64(_) => (8, "double", 8),
        _ => (0, "", 0),
    }
}

/// ROOT's checksum step: `id * 3 + byte`, modulo 2^32.
pub open spec fn checksum_step(id: u32, b: u8) -> u32 {
    ((id * 3 + b) % 0x1_0000_0000) as u32
}

/// The checksum after feeding the bytes `s`.
pub open spec fn checksum_feed(id: u32, s: Seq<u8>) -> u32
    decreases s.len(),
{
    if s.len() == 0 {
        id
    } else {
        checksum_step(checksum_feed(id, s.drop_last()), s.last())
    }
}

/// The bytes fed for the members: each one's name, then its type name.
pub open spec fn members_bytes(ms: Seq<SplitMember>) -> Seq<u8>
    decreases ms.len(),
{
    if ms.len() == 0 {
        Seq::empty()
    } else {
        members_bytes(ms.drop_last()) + vstd::utf8::encode_utf8(ms.last().name_of())
            + vstd::utf8::encode_utf8(spec_member_type(ms.last().values_of()).1)
    }
}

proof fn lemma_feed_append(id: u32, a: Seq<u8>, b: Seq<u8>)
    ensures
        checksum_feed(id, a + b) == checksum_feed(checksum_feed(id, a), b),
    decreases b.len(),
{
    if b.len() > 0 {
        lemma_feed_append(id, a, b.drop_last());
        assert((a + b).drop_last() == a + b.drop_last());
        assert((a + b).last() == b.last());
    } else {
        assert(a + b == a);
    }
}

/// Feed the bytes of `s` into the checksum.
fn feed(id: u32, s: &str) -> (r: u32)
    ensures
        r == checksum_feed(id, s.spec_bytes()),
{
    let b = s.as_bytes();
    let mut acc = id;
    let mut i: usize = 0;
    assert(b@.subrange(0, 0) == Seq::<u8>::empty());
    while i < b.len()
        invariant
            i <= b@.len(),
            acc == checksum_feed(id, b@.subrange(0, i as int)),
        decreases b@.len() - i,
    {
        let v: u64 = (acc as u64) * 3 + b[i] as u64;
        let next = (v % 0x1_0000_0000u64) as u32;
        proof {
            assert(b@.subrange(0, i + 1).drop_last() == b@.subrange(0, i as int));
            assert(b@.subrange(0, i + 1).last() == b@[i as int]);
        }
        acc = next;
        i += 1;
    }
    assert(b@.subrange(0, i as int) == b@);
    acc
}

/// ROOT's class checksum: `id = id*3 + ch` over the class name, then each
/// member's name and type-name characters. Matches `TClass::GetCheckSum` for
/// a struct of plain members.
pub fn class_checksum(class_name: &str, members: &[SplitMember]) -> (r: u32)
    ensures
        r == checksum_feed(0, class_name.spec_bytes() + members_bytes(members@)),
{
    let mut id = feed(0, class_name);
    let mut k: usize = 0;
    assert(members@.take(0) == Seq::<SplitMember>::empty());
    while k < members.len()
        invariant
            k <= members@.len(),
            id == checksum_feed(0, class_name.spec_bytes() + members_bytes(members@.take(k as int))),
        decreases members@.len() - k,
    {
        let m = &members[k];
        let ghost before = class_name.spec_bytes() + members_bytes(members@.take(k as int));
        let ghost nb = m.name_of();
        let (_, type_spelling, _) = member_type_info(&m.values);
        id = feed(id, m.name.as_str());
        id = feed(id, type_spelling);
        proof {
            assert(members@.take(k + 1).drop_last() == members@.take(k as int));
            assert(members@.take(k + 1).last() == *m);
            lemma_feed_append(0, before, vstd::utf8::encode_utf8(nb));
            lemma_feed_append(0, before + vstd::utf8::encode_utf8(nb), type_spelling.spec_bytes());
            assert(before + members_bytes(seq![]) == before);
            assert(class_name.spec_bytes() + members_bytes(members@.take(k + 1)) == before
                + vstd::utf8::encode_utf8(nb) + type_spelling.spec_bytes());
        }
        k += 1;
    }
    assert(members@.take(k as int) == members@);
    id
}

/// The first entry at which two count sequences differ.
pub open spec fn first_diff(a: Seq<i32>, b: Seq<i32>) -> Option<int> {
    if exists|e: int| 0 <= e < a.len() && e < b.len() && a[e] != b[e] {
        Some(
            choose|e: int|
                0 <= e < a.len() && e < b.len() && a[e] != b[e] && forall|f: int| 0 <= f < e ==> a[f]
                    == b[f],
        )
    } else {
        None
    }
}

/// How a mismatching member of split branch `branch` is named:
/// `branch "b" split member "m"`.
pub open spec fn member_what(branch: Seq<char>, member: Seq<char>) -> Seq<char> {
    "branch "@ + debug_quoted(branch) + " split member "@ + debug_quoted(member)
}

/// How a member whose element count differs in entry `e` is named:
/// `branch "b" split member "m" in entry e`.
pub open spec fn entry_what(branch: Seq<char>, member: Seq<char>, e: nat) -> Seq<char> {
    member_what(branch, member) + " in entry "@ + digits(e)
}

/// What checking the members after the first says, from member `k`: the
/// first member whose entry count, or whose element count in some entry,
/// differs from the first member's `counts` — how it is named (see
/// [`member_what`], [`entry_what`]) with the expected and found counts.
pub open spec fn split_mismatch(branch: Seq<char>, ms: Seq<SplitMember>, counts: Seq<i32>, k: int) -> Option<
    (Seq<char>, usize, usize),
>
    decreases ms.len() - k,
{
    if k >= ms.len() || k < 0 {
        None
    } else {
        let other = lens_i32(ms[k].values_of().lens());
        if other.len() != counts.len() {
            Some((member_what(branch, ms[k].name_of()), counts.len() as usize, other.len() as usize))
        } else {
            match first_diff(other, counts) {
                Some(e) => Some((entry_what(branch, ms[k].name_of(), e as nat), counts[e] as usize, other[e] as usize)),
                None => split_mismatch(branch, ms, counts, k + 1),
            }
        }
    }
}

/// How a mismatching member is named (see [`member_what`]).
fn member_what_of(branch: &str, member: &str) -> (r: String)
    ensures
        r@ == member_what(branch@, member@),
{
    let b = quoted(branch);
    let m = quoted(member);
    let t = concat_str("branch ", b.as_str());
    let t = concat_str(t.as_str(), " split member ");
    concat_str(t.as_str(), m.as_str())
}

/// A split `std::vector<Struct>` branch stores one element per struct in
/// every member, and the writer takes the per-entry element counts from the
/// first member. So there must be at least one member, and every member must
/// have the same number of entries and the same element count in each entry;
/// otherwise the file would claim entries some members do not hold.
pub fn check_split_members(branch: &str, spec: &SplitSpec) -> (r: Result<(), Error>)
    ensures
        spec.members_of().len() == 0 ==> r == Err::<(), Error>(
            Error::InvalidInput(Issue::SplitWithoutMembers),
        ),
        spec.members_of().len() > 0 ==> match split_mismatch(
            branch@,
            spec.members_of(),
            lens_i32(spec.members_of()[0].values_of().lens()),
            1,
        ) {
            None => r is Ok,
            Some((n, expected, found)) => r matches Err(Error::LengthMismatch { what, expected: e2, found: f2 })
                && what@ == n && e2 == expected && f2 == found,
        },
{
    let members = &spec.members;
    if members.len() == 0 {
        return Err(Error::InvalidInput(Issue::SplitWithoutMembers));
    }
    let counts = vec_row_lengths(&members[0].values);
    let ghost ms = members@;
    let ghost c = counts@;
    let mut k: usize = 1;
    while k < members.len()
        invariant
            1 <= k <= members@.len(),
            ms == members@,
            ms == spec.members_of(),
            c == counts@,
            c == lens_i32(ms[0].values_of().lens()),
            split_mismatch(branch@, ms, c, 1) == split_mismatch(branch@, ms, c, k as int),
        decreases members@.len() - k,
    {
        let m = &members[k];
        let other = vec_row_lengths(&m.values);
        if other.len() != counts.len() {
            return Err(Error::LengthMismatch {
                what: member_what_of(branch, m.name.as_str()),
                expected: counts.len(),
                found: other.len(),
            });
        }
        let mut e: usize = 0;
        while e < other.len()
            invariant
                e <= other@.len(),
                other@.len() == c.len(),
                c == counts@,
                ms == spec.members_of(),
                1 <= k < ms.len(),
                *m == ms[k as int],
                other@ == lens_i32(ms[k as int].values_of().lens()),
                c == lens_i32(ms[0].values_of().lens()),
                split_mismatch(branch@, ms, c, 1) == split_mismatch(branch@, ms, c, k as int),
                forall|f: int| 0 <= f < e ==> other@[f] == c[f],
            decreases other@.len() - e,
        {
            if other[e] != counts[e] {
                proof {
                    let fd = first_diff(other@, c);
                    assert(0 <= e < other@.len() && other@[e as int] != c[e as int]);
                    let w = fd->0;
                    if w < e {
                        assert(other@[w] == c[w]);
                    }
                    if e < w {
                        assert(other@[e as int] == c[e as int]);
                    }
                }
                let w = member_what_of(branch, m.name.as_str());
                let w = concat_str(w.as_str(), " in entry ");
                let d = decimal(e);
                let w = concat_str(w.as_str(), d.as_str());
                return Err(Error::LengthMismatch {
                    what: w,
                    expected: counts[e] as usize,
                    found: other[e] as usize,
                });
            }
            e += 1;
        }
        proof {
            assert(first_diff(other@, c) is None);
        }
        k += 1;
    }
    Ok(())
}

} // verus!
