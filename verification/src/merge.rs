//! Concatenating trees — the `TTree` half of a `hadd`-style file merge:
//! rebuilding, from a branch's read metadata and its concatenated values, a
//! writable branch of the kind it was read as.

use vstd::prelude::*;
use crate::error::{Error, Issue};
use crate::reader::Branch as BranchMeta;
use crate::value::{BranchValues, Column};
use crate::writer::{Branch, BranchKind};
use crate::reader::walk::{find_branch, TreeReader, TreeView};
use crate::reader::BranchView;
use crate::text::{concat_str, debug_quoted, quoted};

verus! {

/// What a merge needs to know of a branch it read to write it back.
#[derive(Debug, Clone, Copy, PartialEq, Eq, Structural)]
pub struct BranchMetaLite {
    /// How many fixed dimensions its leaf title declares.
    pub dims_len: usize,
    /// Per-entry streamer-header bytes (a `std::vector<T>` has 10).
    pub elem_header: usize,
    /// Whether it is one leaf of a leaflist.
    pub has_leaflist: bool,
    /// Whether it is a member column of an unsplit object.
    pub has_object_member: bool,
    /// Whether it is a `std::vector<std::vector<T>>`.
    pub has_nested: bool,
}

/// The write-reconstruction metadata of a branch read from a tree.
pub fn branch_meta(b: &BranchMeta) -> (r: BranchMetaLite)
    ensures
        r == (BranchMetaLite {
            dims_len: b.dims@.len() as usize,
            elem_header: b.elem_header,
            has_leaflist: b.leaflist is Some,
            has_object_member: b.object_member is Some,
            has_nested: b.nested_elem is Some,
        }),
{
    BranchMetaLite {
        dims_len: b.dims.len(),
        elem_header: b.elem_header,
        has_leaflist: b.leaflist.is_some(),
        has_object_member: b.object_member.is_some(),
        has_nested: b.nested_elem.is_some(),
    }
}

/// How an array column writes back: as a fixed array (one fixed dimension),
/// a `std::vector` (a per-entry streamer header) or a jagged array.
pub enum Flavor {
    Fixed,
    Stl,
    Jagged,
}

/// The flavour a branch's metadata calls for.
pub open spec fn spec_flavor(meta: BranchMetaLite) -> Flavor {
    if meta.dims_len == 1 {
        Flavor::Fixed
    } else if meta.elem_header > 0 {
        Flavor::Stl
    } else {
        Flavor::Jagged
    }
}

/// Whether a branch with this metadata and these values can be written back:
/// not a member column of an object, a leaflist leaf, a nested vector, a
/// multidimensional array, a vector of strings, or a `std::vector<bool>`.
pub open spec fn writable(meta: BranchMetaLite, values: Column) -> bool {
    &&& !meta.has_object_member
    &&& !meta.has_leaflist
    &&& !meta.has_nested
    &&& meta.dims_len <= 1
    &&& !(values is VecStr)
    &&& !(values is Nested)
    &&& !(values is VecBool && spec_flavor(meta) is Stl)
}

/// Rebuild a writable [`Branch`] of the correct kind from a branch's read
/// metadata and its concatenated values: scalars and strings are plain
/// branches; an array column is a fixed array, a `std::vector` or a jagged
/// array, as [`spec_flavor`] says. Layouts that cannot be written back are
/// refused.
pub fn build_branch(name: &str, meta: &BranchMetaLite, values: BranchValues) -> (r: Result<Branch, Error>)
    ensures
        !writable(*meta, values@) ==> r == Err::<Branch, Error>(Error::Unsupported(Issue::NotWritable)),
        writable(*meta, values@) ==> (r matches Ok(b) && b.name_of() == name@ && b.values_of() == values@
            && (if values@.is_rows() {
            match spec_flavor(*meta) {
                Flavor::Fixed => b.kind_of() is Plain,
                Flavor::Stl => b.kind_of() is StlVector,
                Flavor::Jagged => b.kind_of() is Jagged,
            }
        } else {
            b.kind_of() is Plain
        })),
{
    if meta.has_object_member || meta.has_leaflist || meta.has_nested || meta.dims_len > 1 {
        return Err(Error::Unsupported(Issue::NotWritable));
    }
    let flavor = if meta.dims_len == 1 {
        Flavor::Fixed
    } else if meta.elem_header > 0 {
        Flavor::Stl
    } else {
        Flavor::Jagged
    };
    match values {
        BranchValues::Bool(x) => Ok(Branch::bools(name, x)),
        BranchValues::I8(x) => Ok(Branch::i8(name, x)),
        BranchValues::U8(x) => Ok(Branch::u8(name, x)),
        BranchValues::I16(x) => Ok(Branch::i16(name, x)),
        BranchValues::U16(x) => Ok(Branch::u16(name, x)),
        BranchValues::I32(x) => Ok(Branch::i32(name, x)),
        BranchValues::U32(x) => Ok(Branch::u32(name, x)),
        BranchValues::I64(x) => Ok(Branch::i64(name, x)),
        BranchValues::U64(x) => Ok(Branch::u64(name, x)),
        BranchValues::F32(x) => Ok(Branch::f32_bits(name, x)),
        BranchValues::F64(x) => Ok(Branch::f64_bits(name, x)),
        BranchValues::Str(x) => Ok(Branch::strings(name, x)),
        BranchValues::VecBool(x) => match flavor {
            Flavor::Fixed => Ok(Branch::vec_bool(name, x)),
            Flavor::Jagged => Ok(Branch::jagged_bool(name, x)),
            Flavor::Stl => Err(Error::Unsupported(Issue::NotWritable)),
        },
        BranchValues::VecI8(x) => match flavor {
            Flavor::Fixed => Ok(Branch::vec_i8(name, x)),
            Flavor::Jagged => Ok(Branch::jagged_i8(name, x)),
            Flavor::Stl => Ok(Branch::vector_i8(name, x)),
        },
        BranchValues::VecU8(x) => match flavor {
            Flavor::Fixed => Ok(Branch::vec_u8(name, x)),
            Flavor::Jagged => Ok(Branch::jagged_u8(name, x)),
            Flavor::Stl => Ok(Branch::vector_u8(name, x)),
        },
        BranchValues::VecI16(x) => match flavor {
            Flavor::Fixed => Ok(Branch::vec_i16(name, x)),
            Flavor::Jagged => Ok(Branch::jagged_i16(name, x)),
            Flavor::Stl => Ok(Branch::vector_i16(name, x)),
        },
        BranchValues::VecU16(x) => match flavor {
            Flavor::Fixed => Ok(Branch::vec_u16(name, x)),
            Flavor::Jagged => Ok(Branch::jagged_u16(name, x)),
            Flavor::Stl => Ok(Branch::vector_u16(name, x)),
        },
        BranchValues::VecI32(x) => match flavor {
            Flavor::Fixed => Ok(Branch::vec_i32(name, x)),
            Flavor::Jagged => Ok(Branch::jagged_i32(name, x)),
            Flavor::Stl => Ok(Branch::vector_i32(name, x)),
        },
        BranchValues::VecU32(x) => match flavor {
            Flavor::Fixed => Ok(Branch::vec_u32(name, x)),
            Flavor::Jagged => Ok(Branch::jagged_u32(name, x)),
            Flavor::Stl => Ok(Branch::vector_u32(name, x)),
        },
        BranchValues::VecI64(x) => match flavor {
            Flavor::Fixed => Ok(Branch::vec_i64(name, x)),
            Flavor::Jagged => Ok(Branch::jagged_i64(name, x)),
            Flavor::Stl => Ok(Branch::vector_i64(name, x)),
        },
        BranchValues::VecU64(x) => match flavor {
            Flavor::Fixed => Ok(Branch::vec_u64(name, x)),
            Flavor::Jagged => Ok(Branch::jagged_u64(name, x)),
            Flavor::Stl => Ok(Branch::vector_u64(name, x)),
        },
        BranchValues::VecF32(x) => match flavor {
            Flavor::Fixed => Ok(Branch::vec_f32(name, x)),
            Flavor::Jagged => Ok(Branch::jagged_f32(name, x)),
            Flavor::Stl => Ok(Branch::vector_f32(name, x)),
        },
        BranchValues::VecF64(x) => match flavor {
            Flavor::Fixed => Ok(Branch::vec_f64(name, x)),
            Flavor::Jagged => Ok(Branch::jagged_f64(name, x)),
            Flavor::Stl => Ok(Branch::vector_f64(name, x)),
        },
        BranchValues::VecStr(_) => Err(Error::Unsupported(Issue::NotWritable)),
        BranchValues::Nested { .. } => Err(Error::Unsupported(Issue::NotWritable)),
    }
}

/// Whether tree `t` holds a branch named `name`.
pub open spec fn holds(t: TreeView, name: Seq<char>) -> bool {
    find_branch(t.branches, name) is Some
}

/// The metadata of some trees.
pub open spec fn tree_views(ts: Seq<&TreeReader>) -> Seq<TreeView> {
    ts.map_values(|t: &TreeReader| t.parts())
}

/// The names of a tree's branches, in order.
pub open spec fn names_of(t: TreeView) -> Seq<Seq<char>> {
    t.branches.map_values(|b: BranchView| b.name)
}

/// The first of `names`, from index `a` on, that some tree after the first
/// lacks.
pub open spec fn concat_gap(ts: Seq<TreeView>, names: Seq<Seq<char>>, a: int) -> Option<Seq<char>>
    decreases names.len() - a,
{
    if a < 0 || a >= names.len() {
        None
    } else if exists|i: int| 1 <= i < ts.len() && !holds(ts[i], names[a]) {
        Some(names[a])
    } else {
        concat_gap(ts, names, a + 1)
    }
}

/// A tree holds a branch exactly when the name is among its branch names.
proof fn lemma_holds_names(t: TreeView, name: Seq<char>)
    ensures
        holds(t, name) <==> names_of(t).contains(name),
{
    if names_of(t).contains(name) {
        let i = choose|i: int| 0 <= i < names_of(t).len() && names_of(t)[i] == name;
        assert(t.branches[i].name == name);
    }
    if holds(t, name) {
        let i = choose|i: int| 0 <= i < t.branches.len() && t.branches[i].name == name;
        assert(names_of(t)[i] == name);
    }
}

/// Whether every tree after the first has `name` among its branch names.
pub open spec fn later_hold(ts: Seq<TreeView>, name: Seq<char>) -> bool {
    forall|i: int| 1 <= i < ts.len() ==> #[trigger] names_of(ts[i]).contains(name)
}

/// Some tree after the first lacks `name` exactly when not all of them
/// have it among their branch names.
proof fn lemma_some_lacks(ts: Seq<TreeView>, name: Seq<char>)
    ensures
        (exists|i: int| 1 <= i < ts.len() && !holds(ts[i], name)) <==> !later_hold(ts, name),
{
    if exists|i: int| 1 <= i < ts.len() && !holds(ts[i], name) {
        let i = choose|i: int| 1 <= i < ts.len() && !holds(ts[i], name);
        lemma_holds_names(ts[i], name);
    }
    if !later_hold(ts, name) {
        let i = choose|i: int| 1 <= i < ts.len() && !#[trigger] names_of(ts[i]).contains(name);
        lemma_holds_names(ts[i], name);
    }
}

/// Which branch a concatenation is refused for. The gap found from the
/// first tree's name `a` on is none exactly when every tree after the first
/// (at any position) has among its branch names each of `names` from `a`
/// on; otherwise it is the first of those names, in order, that some tree
/// after the first lacks.
pub proof fn lemma_concat_gap(ts: Seq<TreeView>, names: Seq<Seq<char>>, a: int)
    requires
        0 <= a,
    ensures
        concat_gap(ts, names, a) is None <==> forall|k: int| a <= k < names.len() ==> later_hold(ts, #[trigger] names[k]),
        concat_gap(ts, names, a) matches Some(n) ==> exists|k: int|
            a <= k < names.len() && n == names[k] && !later_hold(ts, #[trigger] names[k]) && forall|j: int|
                a <= j < k ==> later_hold(ts, #[trigger] names[j]),
    decreases names.len() - a,
{
    if a < names.len() {
        lemma_concat_gap(ts, names, a + 1);
        lemma_some_lacks(ts, names[a]);
        if later_hold(ts, names[a]) {
            if let Some(n) = concat_gap(ts, names, a + 1) {
                let k = choose|k: int|
                    a + 1 <= k < names.len() && n == names[k] && !later_hold(ts, #[trigger] names[k]) && forall|j: int|
                        a + 1 <= j < k ==> later_hold(ts, #[trigger] names[j]);
                assert forall|j: int| a <= j < k implies later_hold(ts, #[trigger] names[j]) by {
                    if j > a {
                        assert(a + 1 <= j < k);
                    }
                }
            } else {
                assert forall|k: int| a <= k < names.len() implies later_hold(ts, #[trigger] names[k]) by {
                    if k > a {
                        assert(a + 1 <= k < names.len());
                    }
                }
            }
        }
    }
}

/// The first of `names`, from index `a` on, that tree `t` lacks.
pub open spec fn first_gap(t: TreeView, names: Seq<Seq<char>>, a: int) -> Option<Seq<char>>
    decreases names.len() - a,
{
    if a < 0 || a >= names.len() {
        None
    } else if !holds(t, names[a]) {
        Some(names[a])
    } else {
        first_gap(t, names, a + 1)
    }
}

/// Which branch a streamed merge refuses an input for. The gap of tree `t`
/// from the first tree's name `a` on is none exactly when `t` has each of
/// `names` from `a` on among its branch names; otherwise it is the first of
/// them, in order, that `t` lacks.
pub proof fn lemma_first_gap(t: TreeView, names: Seq<Seq<char>>, a: int)
    requires
        0 <= a,
    ensures
        first_gap(t, names, a) is None <==> forall|k: int| a <= k < names.len() ==> names_of(t).contains(#[trigger] names[k]),
        first_gap(t, names, a) matches Some(n) ==> exists|k: int|
            a <= k < names.len() && n == names[k] && !names_of(t).contains(#[trigger] names[k]) && forall|j: int|
                a <= j < k ==> names_of(t).contains(#[trigger] names[j]),
    decreases names.len() - a,
{
    if a < names.len() {
        lemma_first_gap(t, names, a + 1);
        lemma_holds_names(t, names[a]);
        if holds(t, names[a]) {
            if let Some(n) = first_gap(t, names, a + 1) {
                let k = choose|k: int|
                    a + 1 <= k < names.len() && n == names[k] && !names_of(t).contains(#[trigger] names[k]) && forall|j: int|
                        a + 1 <= j < k ==> names_of(t).contains(#[trigger] names[j]);
                assert forall|j: int| a <= j < k implies names_of(t).contains(#[trigger] names[j]) by {
                    if j > a {
                        assert(a + 1 <= j < k);
                    }
                }
            } else {
                assert forall|k: int| a <= k < names.len() implies names_of(t).contains(#[trigger] names[k]) by {
                    if k > a {
                        assert(a + 1 <= k < names.len());
                    }
                }
            }
        }
    }
}

/// Why a streamed merge refuses an input: it has a branch it could not
/// read, or it lacks a branch of the first tree.
pub enum Refusal {
    Unreadable,
    Missing(Seq<char>),
}

/// The first refusal of the inputs from `i` on, in input order: an input
/// with an unreadable branch, else the first of `names` it lacks.
pub open spec fn append_refusal(ts: Seq<TreeView>, names: Seq<Seq<char>>, i: int) -> Option<Refusal>
    decreases ts.len() - i,
{
    if i < 0 || i >= ts.len() {
        None
    } else if ts[i].skipped.len() > 0 {
        Some(Refusal::Unreadable)
    } else {
        match first_gap(ts[i], names, 0) {
            Some(n) => Some(Refusal::Missing(n)),
            None => append_refusal(ts, names, i + 1),
        }
    }
}

/// How an input lacking branch `name` is reported:
/// `missing branch "name" present in the first tree`.
pub open spec fn missing_detail(name: Seq<char>) -> Seq<char> {
    "missing branch "@ + debug_quoted(name) + " present in the first tree"@
}

/// The error for an input lacking branch `name`: its schema differs from
/// the first tree's, as [`missing_detail`] tells.
pub open spec fn is_missing(e: Error, name: Seq<char>) -> bool {
    e matches Error::SchemaChanged { detail } && detail@ == missing_detail(name)
}

/// The error for an input lacking branch `name`.
fn missing(name: &String) -> (e: Error)
    ensures
        is_missing(e, name@),
{
    let q = quoted(name.as_str());
    let t = concat_str("missing branch ", q.as_str());
    Error::SchemaChanged { detail: concat_str(t.as_str(), " present in the first tree") }
}

/// Whether tree `t` holds a branch named `name`.
fn tree_holds(t: &TreeReader, name: &str) -> (r: bool)
    ensures
        r == holds(t.parts(), name@),
{
    t.branch(name).is_some()
}

/// Whether every tree after the first holds a branch named `name`.
fn later_trees_hold(trees: &[&TreeReader], name: &str) -> (r: bool)
    ensures
        r == !(exists|k: int| 1 <= k < trees@.len() && !holds(tree_views(trees@)[k], name@)),
{
    let ghost ts = tree_views(trees@);
    let mut i: usize = 1;
    while i < trees.len()
        invariant
            1 <= i,
            ts == tree_views(trees@),
            forall|k: int| 1 <= k < i && k < trees@.len() ==> holds(ts[k], name@),
        decreases trees@.len() - i,
    {
        assert(trees[i as int].parts() == ts[i as int]);
        if !tree_holds(trees[i], name) {
            return false;
        }
        i += 1;
    }
    true
}

/// The branches a concatenation of `trees` writes: the first tree's, in
/// order. Refused when there is no tree, when the first tree holds a
/// branch it could not read (the merge would lose it), or when a later
/// tree lacks one of the first tree's branches (the first such, in the
/// first tree's order).
pub fn concat_branch_names(trees: &[&TreeReader]) -> (r: Result<Vec<String>, Error>)
    ensures
        trees@.len() == 0 ==> r == Err::<Vec<String>, Error>(Error::Format(Issue::NoTrees)),
        trees@.len() > 0 ==> {
            let ts = tree_views(trees@);
            if ts[0].skipped.len() > 0 {
                r == Err::<Vec<String>, Error>(Error::Format(Issue::UnreadableBranch))
            } else {
                match concat_gap(ts, names_of(ts[0]), 0) {
                    Some(n) => r matches Err(e) && is_missing(e, n),
                    None => r matches Ok(v) && v@.map_values(|s: String| s@) == names_of(ts[0]),
                }
            }
        },
{
    if trees.len() == 0 {
        return Err(Error::Format(Issue::NoTrees));
    }
    let ghost ts = tree_views(trees@);
    let first = trees[0];
    assert(first.parts() == ts[0]);
    let unreadable = first.unsupported_branches();
    assert(unreadable@.len() == ts[0].skipped.len());
    if unreadable.len() > 0 {
        return Err(Error::Format(Issue::UnreadableBranch));
    }
    let names = first.branch_names();
    let ghost nv = names_of(ts[0]);
    assert(names@.map_values(|s: String| s@) =~= nv);
    let mut a: usize = 0;
    while a < names.len()
        invariant
            a <= names@.len(),
            trees@.len() > 0,
            nv == names@.map_values(|s: String| s@),
            nv == names_of(ts[0]),
            ts.len() == trees@.len(),
            ts == tree_views(trees@),
            concat_gap(ts, nv, 0) == concat_gap(ts, nv, a as int),
            ts[0].skipped.len() == 0,
        decreases names@.len() - a,
    {
        if !later_trees_hold(trees, names[a].as_str()) {
            assert(concat_gap(ts, nv, a as int) == Some(nv[a as int]));
            let e = missing(&names[a]);
            assert(nv[a as int] == names@[a as int]@);
            return Err(e);
        }
        a += 1;
    }
    Ok(names)
}

/// The branches a streamed merge of `trees` writes: the first tree's, in
/// order. Refused when there is no tree, and otherwise at the first input,
/// in order, that holds a branch it could not read or lacks one of the
/// first tree's branches (the first such).
pub fn append_branch_names(trees: &[&TreeReader]) -> (r: Result<Vec<String>, Error>)
    ensures
        trees@.len() == 0 ==> r == Err::<Vec<String>, Error>(Error::Format(Issue::NoTrees)),
        trees@.len() > 0 ==> {
            let ts = tree_views(trees@);
            match append_refusal(ts, names_of(ts[0]), 0) {
                Some(Refusal::Unreadable) => r == Err::<Vec<String>, Error>(Error::Format(Issue::UnreadableBranch)),
                Some(Refusal::Missing(n)) => r matches Err(e) && is_missing(e, n),
                None => r matches Ok(v) && v@.map_values(|s: String| s@) == names_of(ts[0]),
            }
        },
{
    if trees.len() == 0 {
        return Err(Error::Format(Issue::NoTrees));
    }
    let ghost ts = tree_views(trees@);
    let names = trees[0].branch_names();
    let ghost nv = names_of(ts[0]);
    assert(names@.map_values(|s: String| s@) =~= nv);
    let mut i: usize = 0;
    while i < trees.len()
        invariant
            i <= trees@.len(),
            nv == names@.map_values(|s: String| s@),
            nv == names_of(ts[0]),
            ts.len() == trees@.len(),
            ts == tree_views(trees@),
            append_refusal(ts, nv, 0) == append_refusal(ts, nv, i as int),
        decreases trees@.len() - i,
    {
        let t = trees[i];
        assert(t.parts() == ts[i as int]);
        let unreadable = t.unsupported_branches();
        assert(unreadable@.len() == ts[i as int].skipped.len());
        if unreadable.len() > 0 {
            return Err(Error::Format(Issue::UnreadableBranch));
        }
        let mut a: usize = 0;
        while a < names.len()
            invariant
                a <= names@.len(),
                i < trees@.len(),
                t.parts() == ts[i as int],
                nv == names@.map_values(|s: String| s@),
                nv == names_of(ts[0]),
                ts.len() == trees@.len(),
                ts == tree_views(trees@),
                first_gap(ts[i as int], nv, 0) == first_gap(ts[i as int], nv, a as int),
                ts[i as int].skipped.len() == 0,
                append_refusal(ts, nv, 0) == append_refusal(ts, nv, i as int),
            decreases names@.len() - a,
        {
            if !tree_holds(t, names[a].as_str()) {
                assert(first_gap(ts[i as int], nv, a as int) == Some(nv[a as int]));
                let e = missing(&names[a]);
                assert(nv[a as int] == names@[a as int]@);
                assert(append_refusal(ts, nv, i as int) == Some(Refusal::Missing(nv[a as int])));
                return Err(e);
            }
            a += 1;
        }
        assert(first_gap(ts[i as int], nv, a as int) is None);
        i += 1;
    }
    Ok(names)
}

} // verus!
