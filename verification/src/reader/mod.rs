//! Reading a `TTree`'s branches: type names, metadata and basket decoding.
//!
//! A branch's metadata ([`Branch`]) says how its entries lie in its baskets:
//! one value, a fixed-size array or one leaf of a leaflist per entry, a
//! variable-length region per entry located by the basket's `fEntryOffset`
//! array, a `std::vector` with a per-entry streamer header, or strings.
//! [`decode::decode_baskets`] turns the baskets into a column.

pub mod decode;
pub mod members;
pub mod objects;
pub mod parse;
pub mod types;
pub mod walk;

pub use walk::TreeReader;

use vstd::prelude::*;
use crate::reader::members::{element_views, ElementView, StreamerElement};
use crate::value::LeafType;

verus! {

/// A friend tree attached to a `TTree` via `TTree::AddFriend`, persisted in
/// the main tree's `fFriends` list. Friends are read **positionally**: entry
/// *i* of the main tree pairs with entry *i* of the friend.
#[derive(Debug, Clone, PartialEq, Eq)]
pub struct Friend {
    /// The friend tree's key name (`fTreeName`) — what to open in its file.
    tree_name: String,
    /// The file holding the friend, or empty when it lives in the same file
    /// as the main tree.
    file_name: String,
    /// The alias the friend is referred to by (`TFriendElement`'s name).
    alias: String,
}

impl Friend {
    /// The friend's tree name, file name and alias.
    pub closed spec fn fields(&self) -> (Seq<char>, Seq<char>, Seq<char>) {
        (self.tree_name@, self.file_name@, self.alias@)
    }

    /// A friend with the given tree name, file name and alias.
    pub(crate) fn from_parts(tree_name: String, file_name: String, alias: String) -> (r: Friend)
        ensures
            r.fields() == (tree_name@, file_name@, alias@),
    {
        Friend { tree_name, file_name, alias }
    }

    /// The friend tree's key name (`fTreeName`).
    pub fn tree_name(&self) -> (r: &str)
        ensures
            r@ == self.fields().0,
    {
        self.tree_name.as_str()
    }

    /// The file holding the friend, or `""` when it is in the same file as
    /// the main tree.
    pub fn file_name(&self) -> (r: &str)
        ensures
            r@ == self.fields().1,
    {
        self.file_name.as_str()
    }

    /// The alias the friend is referred to by.
    pub fn alias(&self) -> (r: &str)
        ensures
            r@ == self.fields().2,
    {
        self.alias.as_str()
    }

    /// Whether the friend lives in the same file as the main tree
    /// (`AddFriend` called without an explicit file name stores an empty
    /// file name).
    pub fn is_same_file(&self) -> (r: bool)
        ensures
            r == (self.fields().1.len() == 0),
    {
        self.file_name.as_str().is_empty()
    }
}

/// One branch's metadata: its leaf type and the location of its baskets.
#[derive(Debug, Clone)]
pub struct Branch {
    /// `fName`.
    pub name: String,
    /// `fTitle` — the leaf list / shape string (e.g. `x[3]`, `n`).
    pub title: String,
    /// The element type of the branch's leaf.
    pub leaf_type: LeafType,
    /// `fLen` — elements per entry (1 for a scalar branch).
    pub leaf_len: i32,
    /// Number of baskets actually written (`fWriteBasket`).
    pub n_baskets: usize,
    /// File offset of each basket (`fBasketSeek`).
    pub basket_seek: Vec<u64>,
    /// On-disk byte size of each basket (`fBasketBytes`); empty when the file
    /// omits it.
    pub basket_bytes: Vec<u64>,
    /// First entry number of each basket (`fBasketEntry`).
    pub basket_entry: Vec<i64>,
    /// Per-entry streamer-header bytes to skip before the element data — `0`
    /// for `TLeaf`-based branches, `10` for an unsplit `std::vector<T>`.
    pub elem_header: usize,
    /// For one leaf of a multi-leaf (leaflist) branch: `(byte offset of this
    /// leaf within an entry, total entry stride)`.
    pub leaflist: Option<(usize, usize)>,
    /// Per-entry array shape parsed from the leaf title.
    pub dims: Vec<usize>,
    /// Set for a `std::vector<std::vector<T>>` branch: `T`'s element type.
    pub nested_elem: Option<LeafType>,
    /// Set for a member column of an unsplit `TBranchObject`: the object
    /// class to decode out of each entry, and which member this column is.
    pub object_member: Option<ObjectMember>,
}

/// One member column of an unsplit `TBranchObject` (a whole object stored
/// per entry): the member it extracts and the class's streamer elements, so
/// each entry's object can be walked up to it.
#[derive(Debug, Clone)]
pub struct ObjectMember {
    /// The member this column extracts (e.g. `fName`).
    pub member: String,
    /// The object class's streamer elements, in order.
    pub class_elements: Vec<StreamerElement>,
}

/// What a [`Branch`]'s metadata says, as text, numbers and sequences.
pub struct BranchView {
    pub name: Seq<char>,
    pub title: Seq<char>,
    pub leaf_type: LeafType,
    pub leaf_len: i32,
    pub n_baskets: usize,
    pub basket_seek: Seq<u64>,
    pub basket_bytes: Seq<u64>,
    pub basket_entry: Seq<i64>,
    pub elem_header: usize,
    pub leaflist: Option<(usize, usize)>,
    pub dims: Seq<usize>,
    pub nested_elem: Option<LeafType>,
    pub object_member: Option<(Seq<char>, Seq<ElementView>)>,
}

impl View for Branch {
    type V = BranchView;

    open spec fn view(&self) -> BranchView {
        BranchView {
            name: self.name@,
            title: self.title@,
            leaf_type: self.leaf_type,
            leaf_len: self.leaf_len,
            n_baskets: self.n_baskets,
            basket_seek: self.basket_seek@,
            basket_bytes: self.basket_bytes@,
            basket_entry: self.basket_entry@,
            elem_header: self.elem_header,
            leaflist: self.leaflist,
            dims: self.dims@,
            nested_elem: self.nested_elem,
            object_member: match self.object_member {
                Some(om) => Some((om.member@, element_views(om.class_elements@))),
                None => None,
            },
        }
    }
}

/// The views of a list of branches.
pub open spec fn branch_views(v: Seq<Branch>) -> Seq<BranchView> {
    v.map_values(|b: Branch| b@)
}

/// One `TLeaf` of a branch: its name and title, element type, fixed length
/// and byte offset within an entry (non-zero only inside a leaflist).
pub struct Leaf {
    pub name: String,
    pub title: String,
    pub leaf_type: LeafType,
    pub len: i32,
    pub offset: usize,
}

/// A [`Leaf`] as text and numbers.
pub struct LeafView {
    pub name: Seq<char>,
    pub title: Seq<char>,
    pub leaf_type: LeafType,
    pub len: i32,
    pub offset: usize,
}

impl View for Leaf {
    type V = LeafView;

    open spec fn view(&self) -> LeafView {
        LeafView { name: self.name@, title: self.title@, leaf_type: self.leaf_type, len: self.len, offset: self.offset }
    }
}

/// The views of a list of leaves.
pub open spec fn leaf_views(v: Seq<Leaf>) -> Seq<LeafView> {
    v.map_values(|l: Leaf| l@)
}

/// Why a branch present in the file is not offered for reading.
#[derive(Debug, Clone, Copy, PartialEq, Eq, Structural)]
pub enum SkipReason {
    /// Its object is of a branch class this reader does not handle.
    UnsupportedBranchClass,
    /// A `TBranch` with sub-branches of its own.
    SubBranches,
    /// None of its leaves has a supported type.
    NoSupportedLeaf,
    /// A leaflist with a string leaf.
    StringInLeaflist,
    /// A `TBranchElement` of this `fType` whose element type is not handled.
    UnsupportedElement(i32),
    /// A `TBranchObject` with sub-branches.
    ObjectWithSubBranches,
    /// A `TBranchObject` whose class has no streamer info.
    NoObjectStreamerInfo,
    /// A `TBranchObject` whose class has no member of a readable type.
    NoReadableMembers,
}

/// A skipped branch: its name, why, and the class involved (empty when none).
pub type Skipped = (String, SkipReason, String);

/// A skipped branch as text.
pub type SkippedView = (Seq<char>, SkipReason, Seq<char>);

/// The views of skipped branches.
pub open spec fn skipped_views(v: Seq<Skipped>) -> Seq<SkippedView> {
    v.map_values(|d: Skipped| (d.0@, d.1, d.2@))
}

/// A `TTreeIndex` (what `TTree::BuildIndex` stores): the major and minor key
/// expressions, the key pair of each indexed entry and that entry's number.
#[derive(Debug, Clone)]
pub struct TreeIndex {
    pub major_name: String,
    pub minor_name: String,
    pub keys: Vec<(i64, i64)>,
    pub entries: Vec<u64>,
}

/// A [`TreeIndex`] as text and numbers.
pub struct TreeIndexView {
    pub major_name: Seq<char>,
    pub minor_name: Seq<char>,
    pub keys: Seq<(i64, i64)>,
    pub entries: Seq<u64>,
}

impl View for TreeIndex {
    type V = TreeIndexView;

    open spec fn view(&self) -> TreeIndexView {
        TreeIndexView {
            major_name: self.major_name@,
            minor_name: self.minor_name@,
            keys: self.keys@,
            entries: self.entries@,
        }
    }
}

} // verus!
