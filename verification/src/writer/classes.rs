//! The class descriptions a written file carries for the `TTree` class
//! hierarchy: each class's name, version and checksum and its members, in
//! the order ROOT writes them (bases before the classes that use them).
//! These are the values ROOT itself records for these classes.

use vstd::prelude::*;
use vstd::utf8::encode_utf8;
use super::branch::{Branch, BranchKind, SplitMember, SplitSpec};
use super::split::{checksum_feed, class_checksum, member_type_info, members_bytes, spec_member_type};

verus! {

/// What kind of member an element describes.
#[derive(Debug, Clone, Copy, PartialEq, Eq, Structural)]
pub enum ElementKind {
    /// A base class.
    Base,
    /// A number.
    Basic,
    /// A counted array of numbers (`T* //[fN]`).
    BasicPointer,
    /// An embedded object with its own byte count.
    Object,
    /// A pointer to an object.
    ObjectPointer,
    /// An embedded object of a class that is not a `TObject`.
    Any,
    /// A `TString`.
    Text,
}

/// One member (or base class) of a class description.
#[derive(Debug)]
pub struct ElementDesc {
    /// What kind of member this is.
    pub kind: ElementKind,
    /// The member's name; a base's class name.
    pub name: String,
    /// The streamer type code of a number or counted array (0 otherwise).
    pub code: i32,
    /// The member's size in bytes (0 where none is given).
    pub size: i32,
    /// The member's C++ type; the class of an object member.
    pub spelling: String,
    /// The counter member of a counted array (empty otherwise).
    pub count: String,
    /// A base class's version (0 otherwise).
    pub version: i32,
}

/// What an [`ElementDesc`] holds.
pub struct ElementSpec {
    pub kind: ElementKind,
    pub name: Seq<char>,
    pub code: i32,
    pub size: i32,
    pub spelling: Seq<char>,
    pub count: Seq<char>,
    pub version: i32,
}

impl View for ElementDesc {
    type V = ElementSpec;

    open spec fn view(&self) -> ElementSpec {
        ElementSpec {
            kind: self.kind,
            name: self.name@,
            code: self.code,
            size: self.size,
            spelling: self.spelling@,
            count: self.count@,
            version: self.version,
        }
    }
}

/// The views of some element descriptions.
pub open spec fn element_specs(v: Seq<ElementDesc>) -> Seq<ElementSpec> {
    v.map_values(|e: ElementDesc| e@)
}

/// A base class `class` of version `version`.
pub open spec fn base_desc(class: Seq<char>, version: i32) -> ElementSpec {
    ElementSpec { kind: ElementKind::Base, name: class, code: 0, size: 0, spelling: class, count: Seq::empty(), version }
}

/// A number member of streamer type `code`.
pub open spec fn basic_desc(name: Seq<char>, code: i32, size: i32, spelling: Seq<char>) -> ElementSpec {
    ElementSpec { kind: ElementKind::Basic, name, code, size, spelling, count: Seq::empty(), version: 0 }
}

/// A counted array member of streamer type `code`, counted by `count`.
pub open spec fn basicptr_desc(
    name: Seq<char>,
    code: i32,
    size: i32,
    spelling: Seq<char>,
    count: Seq<char>,
) -> ElementSpec {
    ElementSpec { kind: ElementKind::BasicPointer, name, code, size, spelling, count, version: 0 }
}

/// An embedded object member of class `class`.
pub open spec fn object_desc(name: Seq<char>, class: Seq<char>) -> ElementSpec {
    ElementSpec { kind: ElementKind::Object, name, code: 0, size: 0, spelling: class, count: Seq::empty(), version: 0 }
}

/// A pointer member of type `spelling`.
pub open spec fn objptr_desc(name: Seq<char>, spelling: Seq<char>) -> ElementSpec {
    ElementSpec { kind: ElementKind::ObjectPointer, name, code: 0, size: 0, spelling, count: Seq::empty(), version: 0 }
}

/// An embedded non-`TObject` member of class `class`, `size` bytes large.
pub open spec fn any_desc(name: Seq<char>, size: i32, class: Seq<char>) -> ElementSpec {
    ElementSpec { kind: ElementKind::Any, name, code: 0, size, spelling: class, count: Seq::empty(), version: 0 }
}

/// A `TString` member.
pub open spec fn strf_desc(name: Seq<char>) -> ElementSpec {
    ElementSpec { kind: ElementKind::Text, name, code: 0, size: 0, spelling: "TString"@, count: Seq::empty(), version: 0 }
}

/// A base class (see [`base_desc`]).
pub fn base(class: &str, version: i32) -> (e: ElementDesc)
    ensures
        e@ == base_desc(class@, version),
{
    ElementDesc { kind: ElementKind::Base, name: class.to_string(), code: 0, size: 0, spelling: class.to_string(), count: String::new(), version }
}

/// A number member (see [`basic_desc`]).
pub fn basic(name: &str, code: i32, size: i32, spelling: &str) -> (e: ElementDesc)
    ensures
        e@ == basic_desc(name@, code, size, spelling@),
{
    ElementDesc { kind: ElementKind::Basic, name: name.to_string(), code, size, spelling: spelling.to_string(), count: String::new(), version: 0 }
}

/// A counted array member (see [`basicptr_desc`]).
pub fn basicptr(name: &str, code: i32, size: i32, spelling: &str, count: &str) -> (e:
    ElementDesc)
    ensures
        e@ == basicptr_desc(name@, code, size, spelling@, count@),
{
    ElementDesc { kind: ElementKind::BasicPointer, name: name.to_string(), code, size, spelling: spelling.to_string(), count: count.to_string(), version: 0 }
}

/// An embedded object member (see [`object_desc`]).
pub fn object(name: &str, class: &str) -> (e: ElementDesc)
    ensures
        e@ == object_desc(name@, class@),
{
    ElementDesc { kind: ElementKind::Object, name: name.to_string(), code: 0, size: 0, spelling: class.to_string(), count: String::new(), version: 0 }
}

/// A pointer member (see [`objptr_desc`]).
pub fn objptr(name: &str, spelling: &str) -> (e: ElementDesc)
    ensures
        e@ == objptr_desc(name@, spelling@),
{
    ElementDesc { kind: ElementKind::ObjectPointer, name: name.to_string(), code: 0, size: 0, spelling: spelling.to_string(), count: String::new(), version: 0 }
}

/// An embedded non-`TObject` member (see [`any_desc`]).
pub fn any(name: &str, size: i32, class: &str) -> (e: ElementDesc)
    ensures
        e@ == any_desc(name@, size, class@),
{
    ElementDesc { kind: ElementKind::Any, name: name.to_string(), code: 0, size, spelling: class.to_string(), count: String::new(), version: 0 }
}

/// A `TString` member (see [`strf_desc`]).
pub fn strf(name: &str) -> (e: ElementDesc)
    ensures
        e@ == strf_desc(name@),
{
    ElementDesc { kind: ElementKind::Text, name: name.to_string(), code: 0, size: 0, spelling: "TString".to_string(), count: String::new(), version: 0 }
}

/// A class description: its name, version, checksum and members.
pub struct ClassDesc {
    pub name: String,
    pub version: i32,
    pub checksum: u32,
    pub elements: Vec<ElementDesc>,
}

/// What a [`ClassDesc`] holds.
pub struct ClassView {
    pub name: Seq<char>,
    pub version: i32,
    pub checksum: u32,
    pub elements: Seq<ElementSpec>,
}

impl View for ClassDesc {
    type V = ClassView;

    open spec fn view(&self) -> ClassView {
        ClassView {
            name: self.name@,
            version: self.version,
            checksum: self.checksum,
            elements: element_specs(self.elements@),
        }
    }
}

/// A `TLeaf` subclass of version 1: the `TLeaf` base, then `fMinimum` and
/// `fMaximum` of the element type (streamer type `min_ty`, `min_size`
/// bytes, spelled `min_tn`).
pub open spec fn leaf_view(name: Seq<char>, checksum: u32, min_ty: i32, min_size: i32, min_tn: Seq<char>) -> ClassView {
    ClassView {
        name,
        version: 1,
        checksum,
        elements: seq![
            base_desc("TLeaf"@, 2),
            basic_desc("fMinimum"@, min_ty, min_size, min_tn),
            basic_desc("fMaximum"@, min_ty, min_size, min_tn),
        ],
    }
}

/// A `TLeaf` subclass (see [`leaf_view`]).
fn leaf_subclass(name: &str, checksum: u32, min_ty: i32, min_size: i32, min_tn: &str) -> (c: ClassDesc)
    ensures
        c@ == leaf_view(name@, checksum, min_ty, min_size, min_tn@),
{
    let c = ClassDesc {
        name: name.to_string(),
        version: 1,
        checksum,
        elements: vec![
            base("TLeaf", 2),
            basic("fMinimum", min_ty, min_size, min_tn),
            basic("fMaximum", min_ty, min_size, min_tn),
        ],
    };
    assert(element_specs(c.elements@) =~= leaf_view(name@, checksum, min_ty, min_size, min_tn@).elements);
    c
}

/// The description of `TObject`.
pub open spec fn tobject_view() -> ClassView {
    ClassView {
        name: "TObject"@,
        version: 1,
        checksum: 2417737773u32,
        elements: seq![
            basic_desc("fUniqueID"@, 13, 4, "unsigned int"@),
            basic_desc("fBits"@, 15, 4, "unsigned int"@),
        ],
    }
}

/// The description of `TObject` (see [`tobject_view`]).
fn tobject_class() -> (c: ClassDesc)
    ensures
        c@ == tobject_view(),
{
    let c = ClassDesc {
        name: "TObject".to_string(),
        version: 1,
        checksum: 2417737773,
        elements: vec![
            basic("fUniqueID", 13, 4, "unsigned int"),
            basic("fBits", 15, 4, "unsigned int"),
        ],
    };
    assert(element_specs(c.elements@) =~= tobject_view().elements);
    c
}

/// The description of `TString`.
pub open spec fn tstring_view() -> ClassView {
    ClassView {
        name: "TString"@,
        version: 2,
        checksum: 95257u32,
        elements: seq![],
    }
}

/// The description of `TString` (see [`tstring_view`]).
fn tstring_class() -> (c: ClassDesc)
    ensures
        c@ == tstring_view(),
{
    let c = ClassDesc {
        name: "TString".to_string(),
        version: 2,
        checksum: 95257,
        elements: vec![],
    };
    assert(element_specs(c.elements@) =~= tstring_view().elements);
    c
}

/// The description of `TNamed`.
pub open spec fn tnamed_view() -> ClassView {
    ClassView {
        name: "TNamed"@,
        version: 1,
        checksum: 3753331260u32,
        elements: seq![
            base_desc("TObject"@, 1),
            strf_desc("fName"@),
            strf_desc("fTitle"@),
        ],
    }
}

/// The description of `TNamed` (see [`tnamed_view`]).
fn tnamed_class() -> (c: ClassDesc)
    ensures
        c@ == tnamed_view(),
{
    let c = ClassDesc {
        name: "TNamed".to_string(),
        version: 1,
        checksum: 3753331260,
        elements: vec![
            base("TObject", 1),
            strf("fName"),
            strf("fTitle"),
        ],
    };
    assert(element_specs(c.elements@) =~= tnamed_view().elements);
    c
}

/// The description of `TCollection`.
pub open spec fn tcollection_view() -> ClassView {
    ClassView {
        name: "TCollection"@,
        version: 3,
        checksum: 1474546588u32,
        elements: seq![
            base_desc("TObject"@, 1),
            strf_desc("fName"@),
            basic_desc("fSize"@, 3, 4, "int"@),
        ],
    }
}

/// The description of `TCollection` (see [`tcollection_view`]).
fn tcollection_class() -> (c: ClassDesc)
    ensures
        c@ == tcollection_view(),
{
    let c = ClassDesc {
        name: "TCollection".to_string(),
        version: 3,
        checksum: 1474546588,
        elements: vec![
            base("TObject", 1),
            strf("fName"),
            basic("fSize", 3, 4, "int"),
        ],
    };
    assert(element_specs(c.elements@) =~= tcollection_view().elements);
    c
}

/// The description of `TSeqCollection`.
pub open spec fn tseqcollection_view() -> ClassView {
    ClassView {
        name: "TSeqCollection"@,
        version: 0,
        checksum: 4234951622u32,
        elements: seq![
            base_desc("TCollection"@, 3),
        ],
    }
}

/// The description of `TSeqCollection` (see [`tseqcollection_view`]).
fn tseqcollection_class() -> (c: ClassDesc)
    ensures
        c@ == tseqcollection_view(),
{
    let c = ClassDesc {
        name: "TSeqCollection".to_string(),
        version: 0,
        checksum: 4234951622,
        elements: vec![
            base("TCollection", 3),
        ],
    };
    assert(element_specs(c.elements@) =~= tseqcollection_view().elements);
    c
}

/// The description of `TObjArray`.
pub open spec fn tobjarray_view() -> ClassView {
    ClassView {
        name: "TObjArray"@,
        version: 3,
        checksum: 2845730130u32,
        elements: seq![
            base_desc("TSeqCollection"@, 0),
            basic_desc("fLowerBound"@, 3, 4, "int"@),
            basic_desc("fLast"@, 3, 4, "int"@),
        ],
    }
}

/// The description of `TObjArray` (see [`tobjarray_view`]).
fn tobjarray_class() -> (c: ClassDesc)
    ensures
        c@ == tobjarray_view(),
{
    let c = ClassDesc {
        name: "TObjArray".to_string(),
        version: 3,
        checksum: 2845730130,
        elements: vec![
            base("TSeqCollection", 0),
            basic("fLowerBound", 3, 4, "int"),
            basic("fLast", 3, 4, "int"),
        ],
    };
    assert(element_specs(c.elements@) =~= tobjarray_view().elements);
    c
}

/// The description of `TList`.
pub open spec fn tlist_view() -> ClassView {
    ClassView {
        name: "TList"@,
        version: 5,
        checksum: 1774568379u32,
        elements: seq![
            base_desc("TSeqCollection"@, 0),
        ],
    }
}

/// The description of `TList` (see [`tlist_view`]).
fn tlist_class() -> (c: ClassDesc)
    ensures
        c@ == tlist_view(),
{
    let c = ClassDesc {
        name: "TList".to_string(),
        version: 5,
        checksum: 1774568379,
        elements: vec![
            base("TSeqCollection", 0),
        ],
    };
    assert(element_specs(c.elements@) =~= tlist_view().elements);
    c
}

/// The description of `TAttLine`.
pub open spec fn tattline_view() -> ClassView {
    ClassView {
        name: "TAttLine"@,
        version: 2,
        checksum: 2483504457u32,
        elements: seq![
            basic_desc("fLineColor"@, 2, 2, "short"@),
            basic_desc("fLineStyle"@, 2, 2, "short"@),
            basic_desc("fLineWidth"@, 2, 2, "short"@),
        ],
    }
}

/// The description of `TAttLine` (see [`tattline_view`]).
fn tattline_class() -> (c: ClassDesc)
    ensures
        c@ == tattline_view(),
{
    let c = ClassDesc {
        name: "TAttLine".to_string(),
        version: 2,
        checksum: 2483504457,
        elements: vec![
            basic("fLineColor", 2, 2, "short"),
            basic("fLineStyle", 2, 2, "short"),
            basic("fLineWidth", 2, 2, "short"),
        ],
    };
    assert(element_specs(c.elements@) =~= tattline_view().elements);
    c
}

/// The description of `TAttFill`.
pub open spec fn tattfill_view() -> ClassView {
    ClassView {
        name: "TAttFill"@,
        version: 2,
        checksum: 4292422290u32,
        elements: seq![
            basic_desc("fFillColor"@, 2, 2, "short"@),
            basic_desc("fFillStyle"@, 2, 2, "short"@),
        ],
    }
}

/// The description of `TAttFill` (see [`tattfill_view`]).
fn tattfill_class() -> (c: ClassDesc)
    ensures
        c@ == tattfill_view(),
{
    let c = ClassDesc {
        name: "TAttFill".to_string(),
        version: 2,
        checksum: 4292422290,
        elements: vec![
            basic("fFillColor", 2, 2, "short"),
            basic("fFillStyle", 2, 2, "short"),
        ],
    };
    assert(element_specs(c.elements@) =~= tattfill_view().elements);
    c
}

/// The description of `TAttMarker`.
pub open spec fn tattmarker_view() -> ClassView {
    ClassView {
        name: "TAttMarker"@,
        version: 2,
        checksum: 689802220u32,
        elements: seq![
            basic_desc("fMarkerColor"@, 2, 2, "short"@),
            basic_desc("fMarkerStyle"@, 2, 2, "short"@),
            basic_desc("fMarkerSize"@, 5, 4, "float"@),
        ],
    }
}

/// The description of `TAttMarker` (see [`tattmarker_view`]).
fn tattmarker_class() -> (c: ClassDesc)
    ensures
        c@ == tattmarker_view(),
{
    let c = ClassDesc {
        name: "TAttMarker".to_string(),
        version: 2,
        checksum: 689802220,
        elements: vec![
            basic("fMarkerColor", 2, 2, "short"),
            basic("fMarkerStyle", 2, 2, "short"),
            basic("fMarkerSize", 5, 4, "float"),
        ],
    };
    assert(element_specs(c.elements@) =~= tattmarker_view().elements);
    c
}

/// The description of `ROOT::TIOFeatures`.
pub open spec fn tiofeatures_view() -> ClassView {
    ClassView {
        name: "ROOT::TIOFeatures"@,
        version: 1,
        checksum: 446770960u32,
        elements: seq![
            basic_desc("fIOBits"@, 11, 1, "unsigned char"@),
        ],
    }
}

/// The description of `ROOT::TIOFeatures` (see [`tiofeatures_view`]).
fn tiofeatures_class() -> (c: ClassDesc)
    ensures
        c@ == tiofeatures_view(),
{
    let c = ClassDesc {
        name: "ROOT::TIOFeatures".to_string(),
        version: 1,
        checksum: 446770960,
        elements: vec![
            basic("fIOBits", 11, 1, "unsigned char"),
        ],
    };
    assert(element_specs(c.elements@) =~= tiofeatures_view().elements);
    c
}

/// The description of `TLeaf`.
pub open spec fn tleaf_view() -> ClassView {
    ClassView {
        name: "TLeaf"@,
        version: 2,
        checksum: 1830715730u32,
        elements: seq![
            base_desc("TNamed"@, 1),
            basic_desc("fLen"@, 3, 4, "int"@),
            basic_desc("fLenType"@, 3, 4, "int"@),
            basic_desc("fOffset"@, 3, 4, "int"@),
            basic_desc("fIsRange"@, 18, 1, "bool"@),
            basic_desc("fIsUnsigned"@, 18, 1, "bool"@),
            objptr_desc("fLeafCount"@, "TLeaf*"@),
        ],
    }
}

/// The description of `TLeaf` (see [`tleaf_view`]).
fn tleaf_class() -> (c: ClassDesc)
    ensures
        c@ == tleaf_view(),
{
    let c = ClassDesc {
        name: "TLeaf".to_string(),
        version: 2,
        checksum: 1830715730,
        elements: vec![
            base("TNamed", 1),
            basic("fLen", 3, 4, "int"),
            basic("fLenType", 3, 4, "int"),
            basic("fOffset", 3, 4, "int"),
            basic("fIsRange", 18, 1, "bool"),
            basic("fIsUnsigned", 18, 1, "bool"),
            objptr("fLeafCount", "TLeaf*"),
        ],
    };
    assert(element_specs(c.elements@) =~= tleaf_view().elements);
    c
}

/// The description of `TLeafElement`.
pub open spec fn tleafelement_view() -> ClassView {
    ClassView {
        name: "TLeafElement"@,
        version: 1,
        checksum: 2689566867u32,
        elements: seq![
            base_desc("TLeaf"@, 2),
            basic_desc("fID"@, 3, 4, "int"@),
            basic_desc("fType"@, 3, 4, "int"@),
        ],
    }
}

/// The description of `TLeafElement` (see [`tleafelement_view`]).
fn tleafelement_class() -> (c: ClassDesc)
    ensures
        c@ == tleafelement_view(),
{
    let c = ClassDesc {
        name: "TLeafElement".to_string(),
        version: 1,
        checksum: 2689566867,
        elements: vec![
            base("TLeaf", 2),
            basic("fID", 3, 4, "int"),
            basic("fType", 3, 4, "int"),
        ],
    };
    assert(element_specs(c.elements@) =~= tleafelement_view().elements);
    c
}

/// The description of `TBranch`.
pub open spec fn tbranch_view() -> ClassView {
    ClassView {
        name: "TBranch"@,
        version: 13,
        checksum: 278366892u32,
        elements: seq![
            base_desc("TNamed"@, 1),
            base_desc("TAttFill"@, 2),
            basic_desc("fCompress"@, 3, 4, "int"@),
            basic_desc("fBasketSize"@, 3, 4, "int"@),
            basic_desc("fEntryOffsetLen"@, 3, 4, "int"@),
            basic_desc("fWriteBasket"@, 3, 4, "int"@),
            basic_desc("fEntryNumber"@, 16, 8, "Long64_t"@),
            any_desc("fIOFeatures"@, 1, "ROOT::TIOFeatures"@),
            basic_desc("fOffset"@, 3, 4, "int"@),
            basic_desc("fMaxBaskets"@, 6, 4, "int"@),
            basic_desc("fSplitLevel"@, 3, 4, "int"@),
            basic_desc("fEntries"@, 16, 8, "Long64_t"@),
            basic_desc("fFirstEntry"@, 16, 8, "Long64_t"@),
            basic_desc("fTotBytes"@, 16, 8, "Long64_t"@),
            basic_desc("fZipBytes"@, 16, 8, "Long64_t"@),
            object_desc("fBranches"@, "TObjArray"@),
            object_desc("fLeaves"@, "TObjArray"@),
            object_desc("fBaskets"@, "TObjArray"@),
            basicptr_desc("fBasketBytes"@, 43, 4, "int*"@, "fMaxBaskets"@),
            basicptr_desc("fBasketEntry"@, 56, 8, "Long64_t*"@, "fMaxBaskets"@),
            basicptr_desc("fBasketSeek"@, 56, 8, "Long64_t*"@, "fMaxBaskets"@),
            strf_desc("fFileName"@),
        ],
    }
}

/// The description of `TBranch` (see [`tbranch_view`]).
fn tbranch_class() -> (c: ClassDesc)
    ensures
        c@ == tbranch_view(),
{
    let c = ClassDesc {
        name: "TBranch".to_string(),
        version: 13,
        checksum: 278366892,
        elements: vec![
            base("TNamed", 1),
            base("TAttFill", 2),
            basic("fCompress", 3, 4, "int"),
            basic("fBasketSize", 3, 4, "int"),
            basic("fEntryOffsetLen", 3, 4, "int"),
            basic("fWriteBasket", 3, 4, "int"),
            basic("fEntryNumber", 16, 8, "Long64_t"),
            any("fIOFeatures", 1, "ROOT::TIOFeatures"),
            basic("fOffset", 3, 4, "int"),
            basic("fMaxBaskets", 6, 4, "int"),
            basic("fSplitLevel", 3, 4, "int"),
            basic("fEntries", 16, 8, "Long64_t"),
            basic("fFirstEntry", 16, 8, "Long64_t"),
            basic("fTotBytes", 16, 8, "Long64_t"),
            basic("fZipBytes", 16, 8, "Long64_t"),
            object("fBranches", "TObjArray"),
            object("fLeaves", "TObjArray"),
            object("fBaskets", "TObjArray"),
            basicptr("fBasketBytes", 43, 4, "int*", "fMaxBaskets"),
            basicptr("fBasketEntry", 56, 8, "Long64_t*", "fMaxBaskets"),
            basicptr("fBasketSeek", 56, 8, "Long64_t*", "fMaxBaskets"),
            strf("fFileName"),
        ],
    };
    assert(element_specs(c.elements@) =~= tbranch_view().elements);
    c
}

/// The description of `TBranchElement`.
pub open spec fn tbranchelement_view() -> ClassView {
    ClassView {
        name: "TBranchElement"@,
        version: 10,
        checksum: 3880738403u32,
        elements: seq![
            base_desc("TBranch"@, 13),
            strf_desc("fClassName"@),
            strf_desc("fParentName"@),
            strf_desc("fClonesName"@),
            basic_desc("fCheckSum"@, 13, 4, "unsigned int"@),
            basic_desc("fClassVersion"@, 2, 2, "short"@),
            basic_desc("fID"@, 3, 4, "int"@),
            basic_desc("fType"@, 3, 4, "int"@),
            basic_desc("fStreamerType"@, 3, 4, "int"@),
            basic_desc("fMaximum"@, 3, 4, "int"@),
            objptr_desc("fBranchCount"@, "TBranchElement*"@),
            objptr_desc("fBranchCount2"@, "TBranchElement*"@),
        ],
    }
}

/// The description of `TBranchElement` (see [`tbranchelement_view`]).
fn tbranchelement_class() -> (c: ClassDesc)
    ensures
        c@ == tbranchelement_view(),
{
    let c = ClassDesc {
        name: "TBranchElement".to_string(),
        version: 10,
        checksum: 3880738403,
        elements: vec![
            base("TBranch", 13),
            strf("fClassName"),
            strf("fParentName"),
            strf("fClonesName"),
            basic("fCheckSum", 13, 4, "unsigned int"),
            basic("fClassVersion", 2, 2, "short"),
            basic("fID", 3, 4, "int"),
            basic("fType", 3, 4, "int"),
            basic("fStreamerType", 3, 4, "int"),
            basic("fMaximum", 3, 4, "int"),
            objptr("fBranchCount", "TBranchElement*"),
            objptr("fBranchCount2", "TBranchElement*"),
        ],
    };
    assert(element_specs(c.elements@) =~= tbranchelement_view().elements);
    c
}

/// The description of `TTree`.
pub open spec fn ttree_view() -> ClassView {
    ClassView {
        name: "TTree"@,
        version: 20,
        checksum: 1919213695u32,
        elements: seq![
            base_desc("TNamed"@, 1),
            base_desc("TAttLine"@, 2),
            base_desc("TAttFill"@, 2),
            base_desc("TAttMarker"@, 2),
            basic_desc("fEntries"@, 16, 8, "Long64_t"@),
            basic_desc("fTotBytes"@, 16, 8, "Long64_t"@),
            basic_desc("fZipBytes"@, 16, 8, "Long64_t"@),
            basic_desc("fSavedBytes"@, 16, 8, "Long64_t"@),
            basic_desc("fFlushedBytes"@, 16, 8, "Long64_t"@),
            basic_desc("fWeight"@, 8, 8, "double"@),
            basic_desc("fTimerInterval"@, 3, 4, "int"@),
            basic_desc("fScanField"@, 3, 4, "int"@),
            basic_desc("fUpdate"@, 3, 4, "int"@),
            basic_desc("fDefaultEntryOffsetLen"@, 3, 4, "int"@),
            basic_desc("fNClusterRange"@, 6, 4, "int"@),
            basic_desc("fMaxEntries"@, 16, 8, "Long64_t"@),
            basic_desc("fMaxEntryLoop"@, 16, 8, "Long64_t"@),
            basic_desc("fMaxVirtualSize"@, 16, 8, "Long64_t"@),
            basic_desc("fAutoSave"@, 16, 8, "Long64_t"@),
            basic_desc("fAutoFlush"@, 16, 8, "Long64_t"@),
            basic_desc("fEstimate"@, 16, 8, "Long64_t"@),
            basicptr_desc("fClusterRangeEnd"@, 56, 8, "Long64_t*"@, "fNClusterRange"@),
            basicptr_desc("fClusterSize"@, 56, 8, "Long64_t*"@, "fNClusterRange"@),
            any_desc("fIOFeatures"@, 1, "ROOT::TIOFeatures"@),
            object_desc("fBranches"@, "TObjArray"@),
            object_desc("fLeaves"@, "TObjArray"@),
            objptr_desc("fAliases"@, "TList*"@),
            any_desc("fIndexValues"@, 24, "TArrayD"@),
            any_desc("fIndex"@, 24, "TArrayI"@),
            objptr_desc("fTreeIndex"@, "TVirtualIndex*"@),
            objptr_desc("fFriends"@, "TList*"@),
            objptr_desc("fUserInfo"@, "TList*"@),
            objptr_desc("fBranchRef"@, "TBranchRef*"@),
        ],
    }
}

/// The description of `TTree` (see [`ttree_view`]).
fn ttree_class() -> (c: ClassDesc)
    ensures
        c@ == ttree_view(),
{
    let c = ClassDesc {
        name: "TTree".to_string(),
        version: 20,
        checksum: 1919213695,
        elements: vec![
            base("TNamed", 1),
            base("TAttLine", 2),
            base("TAttFill", 2),
            base("TAttMarker", 2),
            basic("fEntries", 16, 8, "Long64_t"),
            basic("fTotBytes", 16, 8, "Long64_t"),
            basic("fZipBytes", 16, 8, "Long64_t"),
            basic("fSavedBytes", 16, 8, "Long64_t"),
            basic("fFlushedBytes", 16, 8, "Long64_t"),
            basic("fWeight", 8, 8, "double"),
            basic("fTimerInterval", 3, 4, "int"),
            basic("fScanField", 3, 4, "int"),
            basic("fUpdate", 3, 4, "int"),
            basic("fDefaultEntryOffsetLen", 3, 4, "int"),
            basic("fNClusterRange", 6, 4, "int"),
            basic("fMaxEntries", 16, 8, "Long64_t"),
            basic("fMaxEntryLoop", 16, 8, "Long64_t"),
            basic("fMaxVirtualSize", 16, 8, "Long64_t"),
            basic("fAutoSave", 16, 8, "Long64_t"),
            basic("fAutoFlush", 16, 8, "Long64_t"),
            basic("fEstimate", 16, 8, "Long64_t"),
            basicptr("fClusterRangeEnd", 56, 8, "Long64_t*", "fNClusterRange"),
            basicptr("fClusterSize", 56, 8, "Long64_t*", "fNClusterRange"),
            any("fIOFeatures", 1, "ROOT::TIOFeatures"),
            object("fBranches", "TObjArray"),
            object("fLeaves", "TObjArray"),
            objptr("fAliases", "TList*"),
            any("fIndexValues", 24, "TArrayD"),
            any("fIndex", 24, "TArrayI"),
            objptr("fTreeIndex", "TVirtualIndex*"),
            objptr("fFriends", "TList*"),
            objptr("fUserInfo", "TList*"),
            objptr("fBranchRef", "TBranchRef*"),
        ],
    };
    assert(element_specs(c.elements@) =~= ttree_view().elements);
    c
}
/// The class table, in dependency order.
pub open spec fn class_table() -> Seq<ClassView> {
    seq![
        tobject_view(),
        tstring_view(),
        tnamed_view(),
        tcollection_view(),
        tseqcollection_view(),
        tobjarray_view(),
        tlist_view(),
        tattline_view(),
        tattfill_view(),
        tattmarker_view(),
        tiofeatures_view(),
        tleaf_view(),
        leaf_view("TLeafO"@, 44976339u32, 18, 1, "bool"@),
        leaf_view("TLeafB"@, 253643614u32, 1, 1, "char"@),
        leaf_view("TLeafS"@, 353169103u32, 2, 2, "short"@),
        leaf_view("TLeafI"@, 2120920601u32, 3, 4, "int"@),
        leaf_view("TLeafL"@, 3727820898u32, 16, 8, "Long64_t"@),
        leaf_view("TLeafF"@, 987602290u32, 5, 4, "float"@),
        leaf_view("TLeafD"@, 294553462u32, 8, 8, "double"@),
        leaf_view("TLeafC"@, 4226003699u32, 3, 4, "int"@),
        tleafelement_view(),
        tbranch_view(),
        tbranchelement_view(),
        ttree_view(),
    ]
}

/// The views of some class descriptions.
pub open spec fn class_views(v: Seq<ClassDesc>) -> Seq<ClassView> {
    v.map_values(|c: ClassDesc| c@)
}

/// The descriptions of the `TTree` class hierarchy (see [`class_table`]).
pub fn classes() -> (r: Vec<ClassDesc>)
    ensures
        class_views(r@) == class_table(),
{
    let mut v: Vec<ClassDesc> = Vec::new();
    v.push(tobject_class());
    v.push(tstring_class());
    v.push(tnamed_class());
    v.push(tcollection_class());
    v.push(tseqcollection_class());
    v.push(tobjarray_class());
    v.push(tlist_class());
    v.push(tattline_class());
    v.push(tattfill_class());
    v.push(tattmarker_class());
    v.push(tiofeatures_class());
    v.push(tleaf_class());
    v.push(leaf_subclass("TLeafO", 44976339, 18, 1, "bool"));
    v.push(leaf_subclass("TLeafB", 253643614, 1, 1, "char"));
    v.push(leaf_subclass("TLeafS", 353169103, 2, 2, "short"));
    v.push(leaf_subclass("TLeafI", 2120920601, 3, 4, "int"));
    v.push(leaf_subclass("TLeafL", 3727820898, 16, 8, "Long64_t"));
    v.push(leaf_subclass("TLeafF", 987602290, 5, 4, "float"));
    v.push(leaf_subclass("TLeafD", 294553462, 8, 8, "double"));
    v.push(leaf_subclass("TLeafC", 4226003699, 3, 4, "int"));
    v.push(tleafelement_class());
    v.push(tbranch_class());
    v.push(tbranchelement_class());
    v.push(ttree_class());
    assert(class_views(v@) =~= class_table());
    v
}

/// The member description of one member of a split collection's struct:
/// a number of the member's streamer type, size and spelling.
pub open spec fn split_member_desc(m: SplitMember) -> ElementSpec {
    let t = spec_member_type(m.values_of());
    basic_desc(m.name_of(), t.0, t.2, t.1)
}

/// The description ROOT writes for the struct of a split collection, a
/// class without a dictionary version of its own: version 1, its class
/// checksum, one number member per struct member.
pub open spec fn split_class_view(spec: SplitSpec) -> ClassView {
    ClassView {
        name: spec.class_of(),
        version: 1,
        checksum: checksum_feed(0, encode_utf8(spec.class_of()) + members_bytes(spec.members_of())),
        elements: spec.members_of().map_values(|m: SplitMember| split_member_desc(m)),
    }
}

/// The description of a split collection's struct (see
/// [`split_class_view`]).
pub fn split_class(spec: &SplitSpec) -> (c: ClassDesc)
    ensures
        c@ == split_class_view(*spec),
{
    let mut elements: Vec<ElementDesc> = Vec::new();
    let mut i: usize = 0;
    while i < spec.members.len()
        invariant
            i <= spec.members@.len(),
            element_specs(elements@) == spec.members@.take(i as int).map_values(|m: SplitMember| split_member_desc(m)),
        decreases spec.members@.len() - i,
    {
        let m = &spec.members[i];
        let (code, spelling, size) = member_type_info(&m.values);
        let ghost before = elements@;
        elements.push(basic(m.name.as_str(), code, size, spelling));
        proof {
            assert(spec.members@.take(i + 1) =~= spec.members@.take(i as int).push(*m));
            assert(element_specs(elements@) =~= element_specs(before).push(split_member_desc(*m)));
            assert(element_specs(elements@) =~= spec.members@.take(i + 1).map_values(
                |m: SplitMember| split_member_desc(m),
            ));
        }
        i += 1;
    }
    assert(spec.members@.take(i as int) =~= spec.members@);
    let checksum = class_checksum(spec.class_name.as_str(), spec.members.as_slice());
    let c = ClassDesc { name: spec.class_name.clone(), version: 1, checksum, elements };
    assert(c@.elements =~= split_class_view(*spec).elements);
    c
}

/// The struct descriptions of the split collections among `bs`, in order.
pub open spec fn split_classes(bs: Seq<Branch>) -> Seq<ClassView>
    decreases bs.len(),
{
    if bs.len() == 0 {
        Seq::empty()
    } else {
        split_classes(bs.drop_last()) + match bs.last().kind_of() {
            BranchKind::Split(s) => seq![split_class_view(*s)],
            _ => Seq::empty(),
        }
    }
}

/// The class descriptions a file holding a tree with branches `bs`
/// carries: the `TTree` hierarchy, then the struct of each split
/// collection.
pub fn tree_streamer_classes(bs: &[Branch]) -> (r: Vec<ClassDesc>)
    ensures
        class_views(r@) == class_table() + split_classes(bs@),
{
    let mut v = classes();
    let mut i: usize = 0;
    assert(bs@.take(0) =~= Seq::<Branch>::empty());
    while i < bs.len()
        invariant
            i <= bs@.len(),
            class_views(v@) == class_table() + split_classes(bs@.take(i as int)),
        decreases bs@.len() - i,
    {
        let ghost before = v@;
        assert(bs@.take(i + 1).drop_last() =~= bs@.take(i as int));
        match bs[i].split() {
            Some(s) => {
                v.push(split_class(s));
                assert(class_views(v@) =~= class_views(before).push(split_class_view(*s)));
            },
            None => {},
        }
        assert(class_views(v@) =~= class_table() + split_classes(bs@.take(i + 1)));
        i += 1;
    }
    assert(bs@.take(i as int) =~= bs@);
    v
}

} // verus!
