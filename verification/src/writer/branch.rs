//! The branches a caller builds: [`Branch`] and its constructors, and the
//! members of a split `std::vector<MyStruct>` branch ([`SplitMember`]).
//!
//! `float`/`double` values are given as their IEEE-754 bit patterns
//! (`f32::to_bits` / `f64::to_bits`), which is what is written to disk.

use vstd::prelude::*;
use crate::value::{rows, texts, BranchValues, Column};

verus! {

broadcast use vstd::string::group_string_axioms;

/// One named branch to write. Use the typed constructors: [`Branch::i32`] … for
/// scalars, [`Branch::vec_f64`] … for fixed-size arrays, [`Branch::jagged_f64`] …
/// for variable-length arrays, [`Branch::strings`] for strings.
pub struct Branch {
    /// Branch (and leaf) name.
    pub name: String,
    /// Branch values (a [`BranchValues`] variant — scalar, array, or string).
    /// Private: a branch is built only through the typed constructors so the
    /// payload can never drift from the `kind` that decides how it is serialized.
    pub(crate) values: BranchValues,
    /// How the branch is serialized.
    pub(crate) kind: BranchKind,
}

/// How a [`Branch`] is written. The constructors pick the variant; the payload
/// type is the `Branch`'s `values`.
pub enum BranchKind {
    /// A scalar, fixed-size array (`x[N]`), or string (`TLeafC`) branch.
    Plain,
    /// The `n<name>` count branch of a jagged array: a plain `Int_t` scalar
    /// whose leaf is a range (`fIsRange`) whose `fMaximum` is the largest count.
    Count,
    /// A variable-length (jagged) array: rows may differ in length, written
    /// with a paired `n<name>` count branch and an `fLeafCount` reference.
    Jagged,
    /// A `std::vector<T>` branch, written as a `TBranchElement` (each basket
    /// entry carries a 10-byte streamer header instead of a count branch).
    StlVector,
    /// A split `std::vector<MyStruct>` branch — a parent `TBranchElement` whose
    /// per-member data lives in sub-branches; the `Branch`'s `values` is unused.
    Split(SplitSpec),
}

/// A split `std::vector<MyStruct>` branch: the struct's class name and one
/// member per sub-branch.
pub struct SplitSpec {
    pub(crate) class_name: String,
    pub(crate) members: Vec<SplitMember>,
}

/// One member of a split `std::vector<MyStruct>` branch: its name and the
/// per-entry jagged values (`Vec<Vec<T>>` via a `VecXxx` [`BranchValues`]).
pub struct SplitMember {
    pub(crate) name: String,
    pub(crate) values: BranchValues,
}

impl SplitSpec {
    /// The struct's class name.
    pub open(crate) spec fn class_of(&self) -> Seq<char> {
        self.class_name@
    }

    /// The struct's members.
    pub open(crate) spec fn members_of(&self) -> Seq<SplitMember> {
        self.members@
    }
}

impl SplitMember {
    /// The member's name.
    pub open(crate) spec fn name_of(&self) -> Seq<char> {
        self.name@
    }

    /// The member's per-entry values.
    pub open(crate) spec fn values_of(&self) -> Column {
        self.values@
    }
}

impl Branch {
    /// The branch name.
    pub open(crate) spec fn name_of(&self) -> Seq<char> {
        self.name@
    }

    /// The values this branch writes.
    pub open(crate) spec fn values_of(&self) -> Column {
        self.values@
    }

    /// How this branch is written.
    pub open(crate) spec fn kind_of(&self) -> &BranchKind {
        &self.kind
    }

    /// The branch is built from `name`, `values` and `kind`.
    pub open(crate) spec fn built(&self, name: Seq<char>, values: Column, plain: bool, jagged: bool, stl: bool) -> bool {
        &&& self.name_of() == name
        &&& self.values_of() == values
        &&& (plain ==> self.kind_of() is Plain)
        &&& (jagged ==> self.kind_of() is Jagged)
        &&& (stl ==> self.kind_of() is StlVector)
    }

    /// Whether this is a jagged (variable-length array) branch.
    pub fn jagged(&self) -> (r: bool)
        ensures
            r == self.kind_of() is Jagged,
    {
        match self.kind {
            BranchKind::Jagged => true,
            _ => false,
        }
    }

    /// Whether this is a `std::vector<T>` branch.
    pub fn stl_vector(&self) -> (r: bool)
        ensures
            r == self.kind_of() is StlVector,
    {
        match self.kind {
            BranchKind::StlVector => true,
            _ => false,
        }
    }

    /// The split spec of a split `std::vector<MyStruct>` branch.
    pub fn split(&self) -> (r: Option<&SplitSpec>)
        ensures
            match self.kind_of() {
                BranchKind::Split(s) => r == Some(s),
                _ => r is None,
            },
    {
        match &self.kind {
            BranchKind::Split(spec) => Some(spec),
            _ => None,
        }
    }

    /// The kind a chunk/copy of this branch takes — the same kind unless it is a
    /// split branch (which is never chunked), in which case `Plain`.
    pub fn chunk_kind(&self) -> (r: BranchKind)
        ensures
            match self.kind_of() {
                BranchKind::Jagged => r is Jagged,
                BranchKind::StlVector => r is StlVector,
                BranchKind::Count => r is Count,
                _ => r is Plain,
            },
    {
        match self.kind {
            BranchKind::Jagged => BranchKind::Jagged,
            BranchKind::StlVector => BranchKind::StlVector,
            BranchKind::Count => BranchKind::Count,
            _ => BranchKind::Plain,
        }
    }

    /// A branch holding `bool` values.
    pub fn bools(name: &str, values: Vec<bool>) -> (r: Branch)
        ensures
            r.built(name@, Column::Bool(values@), true, false, false),
    {
        Branch { name: name.to_string(), values: BranchValues::Bool(values), kind: BranchKind::Plain }
    }

    /// A branch holding `i8` values.
    pub fn i8(name: &str, values: Vec<i8>) -> (r: Branch)
        ensures
            r.built(name@, Column::I8(values@), true, false, false),
    {
        Branch { name: name.to_string(), values: BranchValues::I8(values), kind: BranchKind::Plain }
    }

    /// A branch holding `u8` values.
    pub fn u8(name: &str, values: Vec<u8>) -> (r: Branch)
        ensures
            r.built(name@, Column::U8(values@), true, false, false),
    {
        Branch { name: name.to_string(), values: BranchValues::U8(values), kind: BranchKind::Plain }
    }

    /// A branch holding `i16` values.
    pub fn i16(name: &str, values: Vec<i16>) -> (r: Branch)
        ensures
            r.built(name@, Column::I16(values@), true, false, false),
    {
        Branch { name: name.to_string(), values: BranchValues::I16(values), kind: BranchKind::Plain }
    }

    /// A branch holding `u16` values.
    pub fn u16(name: &str, values: Vec<u16>) -> (r: Branch)
        ensures
            r.built(name@, Column::U16(values@), true, false, false),
    {
        Branch { name: name.to_string(), values: BranchValues::U16(values), kind: BranchKind::Plain }
    }

    /// A branch holding `i32` values.
    pub fn i32(name: &str, values: Vec<i32>) -> (r: Branch)
        ensures
            r.built(name@, Column::I32(values@), true, false, false),
    {
        Branch { name: name.to_string(), values: BranchValues::I32(values), kind: BranchKind::Plain }
    }

    /// A branch holding `u32` values.
    pub fn u32(name: &str, values: Vec<u32>) -> (r: Branch)
        ensures
            r.built(name@, Column::U32(values@), true, false, false),
    {
        Branch { name: name.to_string(), values: BranchValues::U32(values), kind: BranchKind::Plain }
    }

    /// A branch holding `i64` values.
    pub fn i64(name: &str, values: Vec<i64>) -> (r: Branch)
        ensures
            r.built(name@, Column::I64(values@), true, false, false),
    {
        Branch { name: name.to_string(), values: BranchValues::I64(values), kind: BranchKind::Plain }
    }

    /// A branch holding `u64` values.
    pub fn u64(name: &str, values: Vec<u64>) -> (r: Branch)
        ensures
            r.built(name@, Column::U64(values@), true, false, false),
    {
        Branch { name: name.to_string(), values: BranchValues::U64(values), kind: BranchKind::Plain }
    }

    /// A branch holding `float` (bit-pattern) values.
    pub fn f32_bits(name: &str, values: Vec<u32>) -> (r: Branch)
        ensures
            r.built(name@, Column::F32(values@), true, false, false),
    {
        Branch { name: name.to_string(), values: BranchValues::F32(values), kind: BranchKind::Plain }
    }

    /// A branch holding `double` (bit-pattern) values.
    pub fn f64_bits(name: &str, values: Vec<u64>) -> (r: Branch)
        ensures
            r.built(name@, Column::F64(values@), true, false, false),
    {
        Branch { name: name.to_string(), values: BranchValues::F64(values), kind: BranchKind::Plain }
    }

    /// A fixed-size array branch (`x[N]`; every row must have the same length) holding `bool` rows.
    pub fn vec_bool(name: &str, values: Vec<Vec<bool>>) -> (r: Branch)
        ensures
            r.built(name@, Column::VecBool(rows(values@)), true, false, false),
    {
        Branch { name: name.to_string(), values: BranchValues::VecBool(values), kind: BranchKind::Plain }
    }

    /// A fixed-size array branch (`x[N]`; every row must have the same length) holding `i8` rows.
    pub fn vec_i8(name: &str, values: Vec<Vec<i8>>) -> (r: Branch)
        ensures
            r.built(name@, Column::VecI8(rows(values@)), true, false, false),
    {
        Branch { name: name.to_string(), values: BranchValues::VecI8(values), kind: BranchKind::Plain }
    }

    /// A fixed-size array branch (`x[N]`; every row must have the same length) holding `u8` rows.
    pub fn vec_u8(name: &str, values: Vec<Vec<u8>>) -> (r: Branch)
        ensures
            r.built(name@, Column::VecU8(rows(values@)), true, false, false),
    {
        Branch { name: name.to_string(), values: BranchValues::VecU8(values), kind: BranchKind::Plain }
    }

    /// A fixed-size array branch (`x[N]`; every row must have the same length) holding `i16` rows.
    pub fn vec_i16(name: &str, values: Vec<Vec<i16>>) -> (r: Branch)
        ensures
            r.built(name@, Column::VecI16(rows(values@)), true, false, false),
    {
        Branch { name: name.to_string(), values: BranchValues::VecI16(values), kind: BranchKind::Plain }
    }

    /// A fixed-size array branch (`x[N]`; every row must have the same length) holding `u16` rows.
    pub fn vec_u16(name: &str, values: Vec<Vec<u16>>) -> (r: Branch)
        ensures
            r.built(name@, Column::VecU16(rows(values@)), true, false, false),
    {
        Branch { name: name.to_string(), values: BranchValues::VecU16(values), kind: BranchKind::Plain }
    }

    /// A fixed-size array branch (`x[N]`; every row must have the same length) holding `i32` rows.
    pub fn vec_i32(name: &str, values: Vec<Vec<i32>>) -> (r: Branch)
        ensures
            r.built(name@, Column::VecI32(rows(values@)), true, false, false),
    {
        Branch { name: name.to_string(), values: BranchValues::VecI32(values), kind: BranchKind::Plain }
    }

    /// A fixed-size array branch (`x[N]`; every row must have the same length) holding `u32` rows.
    pub fn vec_u32(name: &str, values: Vec<Vec<u32>>) -> (r: Branch)
        ensures
            r.built(name@, Column::VecU32(rows(values@)), true, false, false),
    {
        Branch { name: name.to_string(), values: BranchValues::VecU32(values), kind: BranchKind::Plain }
    }

    /// A fixed-size array branch (`x[N]`; every row must have the same length) holding `i64` rows.
    pub fn vec_i64(name: &str, values: Vec<Vec<i64>>) -> (r: Branch)
        ensures
            r.built(name@, Column::VecI64(rows(values@)), true, false, false),
    {
        Branch { name: name.to_string(), values: BranchValues::VecI64(values), kind: BranchKind::Plain }
    }

    /// A fixed-size array branch (`x[N]`; every row must have the same length) holding `u64` rows.
    pub fn vec_u64(name: &str, values: Vec<Vec<u64>>) -> (r: Branch)
        ensures
            r.built(name@, Column::VecU64(rows(values@)), true, false, false),
    {
        Branch { name: name.to_string(), values: BranchValues::VecU64(values), kind: BranchKind::Plain }
    }

    /// A fixed-size array branch (`x[N]`; every row must have the same length) holding `float` (bit-pattern) rows.
    pub fn vec_f32(name: &str, values: Vec<Vec<u32>>) -> (r: Branch)
        ensures
            r.built(name@, Column::VecF32(rows(values@)), true, false, false),
    {
        Branch { name: name.to_string(), values: BranchValues::VecF32(values), kind: BranchKind::Plain }
    }

    /// A fixed-size array branch (`x[N]`; every row must have the same length) holding `double` (bit-pattern) rows.
    pub fn vec_f64(name: &str, values: Vec<Vec<u64>>) -> (r: Branch)
        ensures
            r.built(name@, Column::VecF64(rows(values@)), true, false, false),
    {
        Branch { name: name.to_string(), values: BranchValues::VecF64(values), kind: BranchKind::Plain }
    }

    /// A variable-length array branch (`y[n<name>]`, with a paired count branch) holding `bool` rows.
    pub fn jagged_bool(name: &str, values: Vec<Vec<bool>>) -> (r: Branch)
        ensures
            r.built(name@, Column::VecBool(rows(values@)), false, true, false),
    {
        Branch { name: name.to_string(), values: BranchValues::VecBool(values), kind: BranchKind::Jagged }
    }

    /// A variable-length array branch (`y[n<name>]`, with a paired count branch) holding `i8` rows.
    pub fn jagged_i8(name: &str, values: Vec<Vec<i8>>) -> (r: Branch)
        ensures
            r.built(name@, Column::VecI8(rows(values@)), false, true, false),
    {
        Branch { name: name.to_string(), values: BranchValues::VecI8(values), kind: BranchKind::Jagged }
    }

    /// A variable-length array branch (`y[n<name>]`, with a paired count branch) holding `u8` rows.
    pub fn jagged_u8(name: &str, values: Vec<Vec<u8>>) -> (r: Branch)
        ensures
            r.built(name@, Column::VecU8(rows(values@)), false, true, false),
    {
        Branch { name: name.to_string(), values: BranchValues::VecU8(values), kind: BranchKind::Jagged }
    }

    /// A variable-length array branch (`y[n<name>]`, with a paired count branch) holding `i16` rows.
    pub fn jagged_i16(name: &str, values: Vec<Vec<i16>>) -> (r: Branch)
        ensures
            r.built(name@, Column::VecI16(rows(values@)), false, true, false),
    {
        Branch { name: name.to_string(), values: BranchValues::VecI16(values), kind: BranchKind::Jagged }
    }

    /// A variable-length array branch (`y[n<name>]`, with a paired count branch) holding `u16` rows.
    pub fn jagged_u16(name: &str, values: Vec<Vec<u16>>) -> (r: Branch)
        ensures
            r.built(name@, Column::VecU16(rows(values@)), false, true, false),
    {
        Branch { name: name.to_string(), values: BranchValues::VecU16(values), kind: BranchKind::Jagged }
    }

    /// A variable-length array branch (`y[n<name>]`, with a paired count branch) holding `i32` rows.
    pub fn jagged_i32(name: &str, values: Vec<Vec<i32>>) -> (r: Branch)
        ensures
            r.built(name@, Column::VecI32(rows(values@)), false, true, false),
    {
        Branch { name: name.to_string(), values: BranchValues::VecI32(values), kind: BranchKind::Jagged }
    }

    /// A variable-length array branch (`y[n<name>]`, with a paired count branch) holding `u32` rows.
    pub fn jagged_u32(name: &str, values: Vec<Vec<u32>>) -> (r: Branch)
        ensures
            r.built(name@, Column::VecU32(rows(values@)), false, true, false),
    {
        Branch { name: name.to_string(), values: BranchValues::VecU32(values), kind: BranchKind::Jagged }
    }

    /// A variable-length array branch (`y[n<name>]`, with a paired count branch) holding `i64` rows.
    pub fn jagged_i64(name: &str, values: Vec<Vec<i64>>) -> (r: Branch)
        ensures
            r.built(name@, Column::VecI64(rows(values@)), false, true, false),
    {
        Branch { name: name.to_string(), values: BranchValues::VecI64(values), kind: BranchKind::Jagged }
    }

    /// A variable-length array branch (`y[n<name>]`, with a paired count branch) holding `u64` rows.
    pub fn jagged_u64(name: &str, values: Vec<Vec<u64>>) -> (r: Branch)
        ensures
            r.built(name@, Column::VecU64(rows(values@)), false, true, false),
    {
        Branch { name: name.to_string(), values: BranchValues::VecU64(values), kind: BranchKind::Jagged }
    }

    /// A variable-length array branch (`y[n<name>]`, with a paired count branch) holding `float` (bit-pattern) rows.
    pub fn jagged_f32(name: &str, values: Vec<Vec<u32>>) -> (r: Branch)
        ensures
            r.built(name@, Column::VecF32(rows(values@)), false, true, false),
    {
        Branch { name: name.to_string(), values: BranchValues::VecF32(values), kind: BranchKind::Jagged }
    }

    /// A variable-length array branch (`y[n<name>]`, with a paired count branch) holding `double` (bit-pattern) rows.
    pub fn jagged_f64(name: &str, values: Vec<Vec<u64>>) -> (r: Branch)
        ensures
            r.built(name@, Column::VecF64(rows(values@)), false, true, false),
    {
        Branch { name: name.to_string(), values: BranchValues::VecF64(values), kind: BranchKind::Jagged }
    }

    /// A `std::vector` branch (a `TBranchElement`) holding `i8` rows.
    pub fn vector_i8(name: &str, values: Vec<Vec<i8>>) -> (r: Branch)
        ensures
            r.built(name@, Column::VecI8(rows(values@)), false, false, true),
    {
        Branch { name: name.to_string(), values: BranchValues::VecI8(values), kind: BranchKind::StlVector }
    }

    /// A `std::vector` branch (a `TBranchElement`) holding `u8` rows.
    pub fn vector_u8(name: &str, values: Vec<Vec<u8>>) -> (r: Branch)
        ensures
            r.built(name@, Column::VecU8(rows(values@)), false, false, true),
    {
        Branch { name: name.to_string(), values: BranchValues::VecU8(values), kind: BranchKind::StlVector }
    }

    /// A `std::vector` branch (a `TBranchElement`) holding `i16` rows.
    pub fn vector_i16(name: &str, values: Vec<Vec<i16>>) -> (r: Branch)
        ensures
            r.built(name@, Column::VecI16(rows(values@)), false, false, true),
    {
        Branch { name: name.to_string(), values: BranchValues::VecI16(values), kind: BranchKind::StlVector }
    }

    /// A `std::vector` branch (a `TBranchElement`) holding `u16` rows.
    pub fn vector_u16(name: &str, values: Vec<Vec<u16>>) -> (r: Branch)
        ensures
            r.built(name@, Column::VecU16(rows(values@)), false, false, true),
    {
        Branch { name: name.to_string(), values: BranchValues::VecU16(values), kind: BranchKind::StlVector }
    }

    /// A `std::vector` branch (a `TBranchElement`) holding `i32` rows.
    pub fn vector_i32(name: &str, values: Vec<Vec<i32>>) -> (r: Branch)
        ensures
            r.built(name@, Column::VecI32(rows(values@)), false, false, true),
    {
        Branch { name: name.to_string(), values: BranchValues::VecI32(values), kind: BranchKind::StlVector }
    }

    /// A `std::vector` branch (a `TBranchElement`) holding `u32` rows.
    pub fn vector_u32(name: &str, values: Vec<Vec<u32>>) -> (r: Branch)
        ensures
            r.built(name@, Column::VecU32(rows(values@)), false, false, true),
    {
        Branch { name: name.to_string(), values: BranchValues::VecU32(values), kind: BranchKind::StlVector }
    }

    /// A `std::vector` branch (a `TBranchElement`) holding `i64` rows.
    pub fn vector_i64(name: &str, values: Vec<Vec<i64>>) -> (r: Branch)
        ensures
            r.built(name@, Column::VecI64(rows(values@)), false, false, true),
    {
        Branch { name: name.to_string(), values: BranchValues::VecI64(values), kind: BranchKind::StlVector }
    }

    /// A `std::vector` branch (a `TBranchElement`) holding `u64` rows.
    pub fn vector_u64(name: &str, values: Vec<Vec<u64>>) -> (r: Branch)
        ensures
            r.built(name@, Column::VecU64(rows(values@)), false, false, true),
    {
        Branch { name: name.to_string(), values: BranchValues::VecU64(values), kind: BranchKind::StlVector }
    }

    /// A `std::vector` branch (a `TBranchElement`) holding `float` (bit-pattern) rows.
    pub fn vector_f32(name: &str, values: Vec<Vec<u32>>) -> (r: Branch)
        ensures
            r.built(name@, Column::VecF32(rows(values@)), false, false, true),
    {
        Branch { name: name.to_string(), values: BranchValues::VecF32(values), kind: BranchKind::StlVector }
    }

    /// A `std::vector` branch (a `TBranchElement`) holding `double` (bit-pattern) rows.
    pub fn vector_f64(name: &str, values: Vec<Vec<u64>>) -> (r: Branch)
        ensures
            r.built(name@, Column::VecF64(rows(values@)), false, false, true),
    {
        Branch { name: name.to_string(), values: BranchValues::VecF64(values), kind: BranchKind::StlVector }
    }

    /// A string branch (`TLeafC`).
    pub fn strings(name: &str, values: Vec<String>) -> (r: Branch)
        ensures
            r.built(name@, Column::Str(texts(values@)), true, false, false),
    {
        Branch { name: name.to_string(), values: BranchValues::Str(values), kind: BranchKind::Plain }
    }

    /// A split `std::vector<MyStruct>` branch: `class_name` is the struct's C++
    /// class name and `members` its fields (each a jagged sub-branch, all sharing
    /// per-entry lengths). Written as a parent `TBranchElement` (`fSplitLevel>0`)
    /// with one sub-branch per member and the struct's generated `TStreamerInfo`.
    pub fn split_vector(name: &str, class_name: &str, members: Vec<SplitMember>) -> (r: Branch)
        ensures
            r.name_of() == name@,
            r.values_of() == Column::I32(Seq::empty()),
            r.kind_of() matches BranchKind::Split(s) && s.class_of() == class_name@ && s.members_of()
                == members@,
    {
        Branch {
            name: name.to_string(),
            values: BranchValues::I32(Vec::new()),
            kind: BranchKind::Split(SplitSpec { class_name: class_name.to_string(), members }),
        }
    }
}

impl SplitMember {

    /// A `i8` member of a split struct branch.
    pub fn i8(name: &str, values: Vec<Vec<i8>>) -> (r: SplitMember)
        ensures
            r.name_of() == name@,
            r.values_of() == Column::VecI8(rows(values@)),
    {
        SplitMember { name: name.to_string(), values: BranchValues::VecI8(values) }
    }

    /// A `u8` member of a split struct branch.
    pub fn u8(name: &str, values: Vec<Vec<u8>>) -> (r: SplitMember)
        ensures
            r.name_of() == name@,
            r.values_of() == Column::VecU8(rows(values@)),
    {
        SplitMember { name: name.to_string(), values: BranchValues::VecU8(values) }
    }

    /// A `i16` member of a split struct branch.
    pub fn i16(name: &str, values: Vec<Vec<i16>>) -> (r: SplitMember)
        ensures
            r.name_of() == name@,
            r.values_of() == Column::VecI16(rows(values@)),
    {
        SplitMember { name: name.to_string(), values: BranchValues::VecI16(values) }
    }

    /// A `u16` member of a split struct branch.
    pub fn u16(name: &str, values: Vec<Vec<u16>>) -> (r: SplitMember)
        ensures
            r.name_of() == name@,
            r.values_of() == Column::VecU16(rows(values@)),
    {
        SplitMember { name: name.to_string(), values: BranchValues::VecU16(values) }
    }

    /// A `i32` member of a split struct branch.
    pub fn i32(name: &str, values: Vec<Vec<i32>>) -> (r: SplitMember)
        ensures
            r.name_of() == name@,
            r.values_of() == Column::VecI32(rows(values@)),
    {
        SplitMember { name: name.to_string(), values: BranchValues::VecI32(values) }
    }

    /// A `u32` member of a split struct branch.
    pub fn u32(name: &str, values: Vec<Vec<u32>>) -> (r: SplitMember)
        ensures
            r.name_of() == name@,
            r.values_of() == Column::VecU32(rows(values@)),
    {
        SplitMember { name: name.to_string(), values: BranchValues::VecU32(values) }
    }

    /// A `i64` member of a split struct branch.
    pub fn i64(name: &str, values: Vec<Vec<i64>>) -> (r: SplitMember)
        ensures
            r.name_of() == name@,
            r.values_of() == Column::VecI64(rows(values@)),
    {
        SplitMember { name: name.to_string(), values: BranchValues::VecI64(values) }
    }

    /// A `u64` member of a split struct branch.
    pub fn u64(name: &str, values: Vec<Vec<u64>>) -> (r: SplitMember)
        ensures
            r.name_of() == name@,
            r.values_of() == Column::VecU64(rows(values@)),
    {
        SplitMember { name: name.to_string(), values: BranchValues::VecU64(values) }
    }

    /// A `float` (bit-pattern) member of a split struct branch.
    pub fn f32_bits(name: &str, values: Vec<Vec<u32>>) -> (r: SplitMember)
        ensures
            r.name_of() == name@,
            r.values_of() == Column::VecF32(rows(values@)),
    {
        SplitMember { name: name.to_string(), values: BranchValues::VecF32(values) }
    }

    /// A `double` (bit-pattern) member of a split struct branch.
    pub fn f64_bits(name: &str, values: Vec<Vec<u64>>) -> (r: SplitMember)
        ensures
            r.name_of() == name@,
            r.values_of() == Column::VecF64(rows(values@)),
    {
        SplitMember { name: name.to_string(), values: BranchValues::VecF64(values) }
    }
}

} // verus!
