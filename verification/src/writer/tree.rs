//! A tree to write, and the checks its branches must pass first.

use vstd::prelude::*;
use super::branch::{Branch, BranchKind};
use super::layout::{ragged};
use super::split::{check_split_members, split_mismatch};
use super::layout::lens_i32;
use crate::error::{Error, Issue};
use crate::text::{concat_str, debug_quoted, quoted};

verus! {

/// A tree to write: a name and its [`Branch`]es.
pub struct Tree {
    name: String,
    branches: Vec<Branch>,
}

impl Tree {
    /// The tree's name.
    pub closed spec fn name_of(&self) -> Seq<char> {
        self.name@
    }

    /// The tree's branches.
    pub closed spec fn branches_of(&self) -> Seq<Branch> {
        self.branches@
    }

    /// Create a writable tree from a name and its branches.
    pub fn new(name: &str, branches: Vec<Branch>) -> (r: Tree)
        ensures
            r.name_of() == name@,
            r.branches_of() == branches@,
    {
        Tree { name: name.to_string(), branches }
    }

    /// The tree's name (the in-file `TTree` key).
    pub fn name(&self) -> (r: &str)
        ensures
            r@ == self.name_of(),
    {
        self.name.as_str()
    }

    /// The tree's branches.
    pub fn branches(&self) -> (r: &[Branch])
        ensures
            r@ == self.branches_of(),
    {
        self.branches.as_slice()
    }
}

/// The entry count the tree records: the first branch's (0 without branches).
pub open spec fn expected_entries(bs: Seq<Branch>) -> u32 {
    if bs.len() == 0 {
        0
    } else {
        bs[0].entries() as u32
    }
}

/// No branch is a doubly-nested column (no constructor builds one).
pub open spec fn no_nested(bs: Seq<Branch>) -> bool {
    forall|i: int| 0 <= i < bs.len() ==> !(#[trigger] bs[i].values_of() is Nested)
}

/// Every branch has the first branch's entry count.
pub open spec fn counts_agree(bs: Seq<Branch>) -> bool {
    forall|i: int| 0 <= i < bs.len() ==> #[trigger] bs[i].entries() as u32 == expected_entries(bs)
}

/// How a branch with the wrong entry count is named: `branch "b" entries`.
pub open spec fn entries_what(name: Seq<char>) -> Seq<char> {
    "branch "@ + debug_quoted(name) + " entries"@
}

/// How a branch with the wrong entry count is named (see
/// [`entries_what`]).
fn entries_what_of(name: &str) -> (r: String)
    ensures
        r@ == entries_what(name@),
{
    let q = quoted(name);
    let t = concat_str("branch ", q.as_str());
    concat_str(t.as_str(), " entries")
}

/// The error for unequal entry counts: the first branch whose count differs
/// from the first branch's, named as [`entries_what`], with the expected
/// and found counts.
pub open spec fn count_error(bs: Seq<Branch>, e: Error) -> bool {
    e matches Error::LengthMismatch { what, expected, found } && exists|i: int|
        0 <= i < bs.len() && #[trigger] bs[i].entries() as u32 != expected_entries(bs) && what@ == entries_what(
            bs[i].name_of(),
        ) && expected == expected_entries(bs) as usize && found == bs[i].entries() as u32 as usize && forall|j: int|
            0 <= j < i ==> bs[j].entries() as u32 == expected_entries(bs)
}

/// Reject branches whose entry counts differ from the first branch's: the
/// tree has one entry count, so the others would be cut or read past. The
/// error names the first such branch, with the expected and found counts.
pub fn check_entry_counts(branches: &[Branch]) -> (r: Result<(), Error>)
    requires
        no_nested(branches@),
    ensures
        r is Ok <==> counts_agree(branches@),
        r matches Err(e) ==> count_error(branches@, e),
{
    let expected: u32 = if branches.len() == 0 { 0 } else { branches[0].n_entries() };
    let mut i: usize = 0;
    while i < branches.len()
        invariant
            i <= branches@.len(),
            no_nested(branches@),
            expected == expected_entries(branches@),
            forall|j: int| 0 <= j < i ==> branches@[j].entries() as u32 == expected,
        decreases branches@.len() - i,
    {
        let n = branches[i].n_entries();
        if n != expected {
            return Err(Error::LengthMismatch { what: entries_what_of(branches[i].name.as_str()), expected: expected as usize, found: n as usize });
        }
        i += 1;
    }
    Ok(())
}

/// A fixed-array branch whose rows differ in length.
pub open spec fn ragged_fixed(b: Branch) -> bool {
    !(b.kind_of() is Jagged) && !(b.kind_of() is StlVector) && ragged(b.values_of().lens())
}

/// A branch the writer can lay out on its own: a fixed array whose rows all
/// have one length, and a split branch whose members agree.
pub open spec fn branch_ok(b: Branch) -> bool {
    &&& (!(b.kind_of() is Jagged) && !(b.kind_of() is StlVector) ==> !ragged(b.values_of().lens()))
    &&& (b.kind_of() matches BranchKind::Split(s) ==> s.members_of().len() > 0 && split_mismatch(
        b.name_of(),
        s.members_of(),
        lens_i32(s.members_of()[0].values_of().lens()),
        1,
    ) is None)
}

/// Reject branches the writer cannot lay out: branches with different entry
/// counts, a fixed-array branch with rows of differing length, and a split
/// branch whose members disagree.
pub fn check_branches(branches: &[Branch]) -> (r: Result<(), Error>)
    requires
        no_nested(branches@),
    ensures
        r is Ok <==> (counts_agree(branches@) && forall|i: int| 0 <= i < branches@.len() ==> branch_ok(
            #[trigger] branches@[i],
        )),
        !counts_agree(branches@) ==> (r matches Err(e) && count_error(branches@, e)),
        r matches Err(Error::RaggedRows { branch }) ==> exists|i: int|
            0 <= i < branches@.len() && ragged_fixed(#[trigger] branches@[i]) && branch@ == branches@[i].name_of()
                && forall|j: int| 0 <= j < i ==> branch_ok(branches@[j]),
{
    check_entry_counts(branches)?;
    let mut i: usize = 0;
    while i < branches.len()
        invariant
            i <= branches@.len(),
            counts_agree(branches@),
            forall|j: int| 0 <= j < i ==> branch_ok(#[trigger] branches@[j]),
        decreases branches@.len() - i,
    {
        let b = &branches[i];
        if !b.jagged() && !b.stl_vector() && b.is_jagged() {
            return Err(Error::RaggedRows { branch: b.name.clone() });
        }
        if let Some(spec) = b.split() {
            check_split_members(b.name.as_str(), spec)?;
        }
        i += 1;
    }
    Ok(())
}

} // verus!
