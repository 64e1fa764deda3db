//! Branch value types.
//!
//! Floating-point columns are carried as their IEEE-754 bit patterns (`u32`
//! for `float`, `u64` for `double`), exactly as they are stored on disk; a
//! caller turns them into numbers with `f32::from_bits` / `f64::from_bits`.

use vstd::prelude::*;

verus! {

/// The element type of a branch's leaf, derived from the leaf class and its
/// `fIsUnsigned` flag.
#[derive(Debug, Clone, Copy, PartialEq, Eq, Structural)]
#[non_exhaustive]
pub enum LeafType {
    /// `TLeafO` — `bool`.
    Bool,
    /// `TLeafB` — `int8_t`.
    I8,
    /// `TLeafB` (unsigned) — `uint8_t`.
    U8,
    /// `TLeafS` — `int16_t`.
    I16,
    /// `TLeafS` (unsigned) — `uint16_t`.
    U16,
    /// `TLeafI` — `int32_t`.
    I32,
    /// `TLeafI` (unsigned) — `uint32_t`.
    U32,
    /// `TLeafL` — `int64_t`.
    I64,
    /// `TLeafL` (unsigned) — `uint64_t`.
    U64,
    /// `TLeafF` — `float`.
    F32,
    /// `TLeafD` — `double`.
    F64,
    /// `TLeafC` — `char*` / `std::string` (length-prefixed, variable length).
    Str,
}

/// The leaf type a `TLeaf*` class name and its `fIsUnsigned` flag denote.
pub open spec fn spec_from_leaf(class: Seq<char>, unsigned: bool) -> Option<LeafType> {
    if class == "TLeafO"@ {
        Some(LeafType::Bool)
    } else if class == "TLeafB"@ {
        Some(if unsigned { LeafType::U8 } else { LeafType::I8 })
    } else if class == "TLeafS"@ {
        Some(if unsigned { LeafType::U16 } else { LeafType::I16 })
    } else if class == "TLeafI"@ {
        Some(if unsigned { LeafType::U32 } else { LeafType::I32 })
    } else if class == "TLeafL"@ {
        Some(if unsigned { LeafType::U64 } else { LeafType::I64 })
    } else if class == "TLeafF"@ {
        Some(LeafType::F32)
    } else if class == "TLeafD"@ {
        Some(LeafType::F64)
    } else if class == "TLeafC"@ {
        Some(LeafType::Str)
    } else {
        None
    }
}

impl LeafType {
    /// On-disk byte width of one element (1 for the string placeholder).
    pub open spec fn width(self) -> nat {
        match self {
            LeafType::Bool | LeafType::I8 | LeafType::U8 | LeafType::Str => 1,
            LeafType::I16 | LeafType::U16 => 2,
            LeafType::I32 | LeafType::U32 | LeafType::F32 => 4,
            LeafType::I64 | LeafType::U64 | LeafType::F64 => 8,
        }
    }

    /// Resolve a leaf class name + signedness to an element type.
    pub fn from_leaf(class: &str, unsigned: bool) -> (r: Option<LeafType>)
        ensures
            r == spec_from_leaf(class@, unsigned),
    {
        if crate::text::str_eq(class, "TLeafO") {
            Some(LeafType::Bool)
        } else if crate::text::str_eq(class, "TLeafB") {
            Some(if unsigned { LeafType::U8 } else { LeafType::I8 })
        } else if crate::text::str_eq(class, "TLeafS") {
            Some(if unsigned { LeafType::U16 } else { LeafType::I16 })
        } else if crate::text::str_eq(class, "TLeafI") {
            Some(if unsigned { LeafType::U32 } else { LeafType::I32 })
        } else if crate::text::str_eq(class, "TLeafL") {
            Some(if unsigned { LeafType::U64 } else { LeafType::I64 })
        } else if crate::text::str_eq(class, "TLeafF") {
            Some(LeafType::F32)
        } else if crate::text::str_eq(class, "TLeafD") {
            Some(LeafType::F64)
        } else if crate::text::str_eq(class, "TLeafC") {
            Some(LeafType::Str)
        } else {
            None
        }
    }

    /// On-disk byte width of one numeric element (1 for the string placeholder).
    pub fn size(self) -> (r: usize)
        ensures
            r == self.width(),
    {
        match self {
            LeafType::Bool | LeafType::I8 | LeafType::U8 | LeafType::Str => 1,
            LeafType::I16 | LeafType::U16 => 2,
            LeafType::I32 | LeafType::U32 | LeafType::F32 => 4,
            LeafType::I64 | LeafType::U64 | LeafType::F64 => 8,
        }
    }
}

/// A branch's values across all entries.
///
/// Scalar branches yield a flat vector; fixed-size array (`x[N]`) and
/// variable-length (`x[n]`) branches yield a nested vector (one inner vector per
/// entry); `TLeafC` branches yield strings. `F32`/`F64` columns hold the IEEE
/// bit patterns of their values.
#[derive(Debug, PartialEq)]
#[non_exhaustive]
pub enum BranchValues {
    /// `bool` branch.
    Bool(Vec<bool>),
    /// `int8_t` branch.
    I8(Vec<i8>),
    /// `uint8_t` branch.
    U8(Vec<u8>),
    /// `int16_t` branch.
    I16(Vec<i16>),
    /// `uint16_t` branch.
    U16(Vec<u16>),
    /// `int32_t` branch.
    I32(Vec<i32>),
    /// `uint32_t` branch.
    U32(Vec<u32>),
    /// `int64_t` branch.
    I64(Vec<i64>),
    /// `uint64_t` branch.
    U64(Vec<u64>),
    /// `float` branch (bit patterns).
    F32(Vec<u32>),
    /// `double` branch (bit patterns).
    F64(Vec<u64>),
    /// Per-entry `bool` array.
    VecBool(Vec<Vec<bool>>),
    /// Per-entry `int8_t` array.
    VecI8(Vec<Vec<i8>>),
    /// Per-entry `uint8_t` array.
    VecU8(Vec<Vec<u8>>),
    /// Per-entry `int16_t` array.
    VecI16(Vec<Vec<i16>>),
    /// Per-entry `uint16_t` array.
    VecU16(Vec<Vec<u16>>),
    /// Per-entry `int32_t` array.
    VecI32(Vec<Vec<i32>>),
    /// Per-entry `uint32_t` array.
    VecU32(Vec<Vec<u32>>),
    /// Per-entry `int64_t` array.
    VecI64(Vec<Vec<i64>>),
    /// Per-entry `uint64_t` array.
    VecU64(Vec<Vec<u64>>),
    /// Per-entry `float` array (bit patterns).
    VecF32(Vec<Vec<u32>>),
    /// Per-entry `double` array (bit patterns).
    VecF64(Vec<Vec<u64>>),
    /// Per-entry string (`TLeafC`).
    Str(Vec<String>),
    /// Per-entry `std::vector<std::string>`.
    VecStr(Vec<Vec<String>>),
    /// A doubly-nested collection (`std::vector<std::vector<T>>`): entry `i`
    /// holds the inner vectors `items[offsets[i]..offsets[i + 1]]`.
    Nested { offsets: Vec<u64>, items: Box<BranchValues> },
}

/// What a [`BranchValues`] holds, as mathematical sequences: strings are
/// their characters, `F32`/`F64` their bit patterns.
pub enum Column {
    Bool(Seq<bool>),
    I8(Seq<i8>),
    U8(Seq<u8>),
    I16(Seq<i16>),
    U16(Seq<u16>),
    I32(Seq<i32>),
    U32(Seq<u32>),
    I64(Seq<i64>),
    U64(Seq<u64>),
    F32(Seq<u32>),
    F64(Seq<u64>),
    VecBool(Seq<Seq<bool>>),
    VecI8(Seq<Seq<i8>>),
    VecU8(Seq<Seq<u8>>),
    VecI16(Seq<Seq<i16>>),
    VecU16(Seq<Seq<u16>>),
    VecI32(Seq<Seq<i32>>),
    VecU32(Seq<Seq<u32>>),
    VecI64(Seq<Seq<i64>>),
    VecU64(Seq<Seq<u64>>),
    VecF32(Seq<Seq<u32>>),
    VecF64(Seq<Seq<u64>>),
    Str(Seq<Seq<char>>),
    VecStr(Seq<Seq<Seq<char>>>),
    Nested(Seq<u64>, Box<Column>),
}

/// The element sequences of a vector of vectors.
pub open spec fn rows<T>(r: Seq<Vec<T>>) -> Seq<Seq<T>> {
    r.map_values(|x: Vec<T>| x@)
}

/// The characters of each string.
pub open spec fn texts(r: Seq<String>) -> Seq<Seq<char>> {
    r.map_values(|x: String| x@)
}

/// The characters of each string of each row.
pub open spec fn text_rows(r: Seq<Vec<String>>) -> Seq<Seq<Seq<char>>> {
    r.map_values(|x: Vec<String>| texts(x@))
}

/// The mathematical content of `v`.
pub open spec fn column(v: &BranchValues) -> Column
    decreases v,
{
    match v {
        BranchValues::Bool(x) => Column::Bool(x@),
        BranchValues::I8(x) => Column::I8(x@),
        BranchValues::U8(x) => Column::U8(x@),
        BranchValues::I16(x) => Column::I16(x@),
        BranchValues::U16(x) => Column::U16(x@),
        BranchValues::I32(x) => Column::I32(x@),
        BranchValues::U32(x) => Column::U32(x@),
        BranchValues::I64(x) => Column::I64(x@),
        BranchValues::U64(x) => Column::U64(x@),
        BranchValues::F32(x) => Column::F32(x@),
        BranchValues::F64(x) => Column::F64(x@),
        BranchValues::VecBool(x) => Column::VecBool(rows(x@)),
        BranchValues::VecI8(x) => Column::VecI8(rows(x@)),
        BranchValues::VecU8(x) => Column::VecU8(rows(x@)),
        BranchValues::VecI16(x) => Column::VecI16(rows(x@)),
        BranchValues::VecU16(x) => Column::VecU16(rows(x@)),
        BranchValues::VecI32(x) => Column::VecI32(rows(x@)),
        BranchValues::VecU32(x) => Column::VecU32(rows(x@)),
        BranchValues::VecI64(x) => Column::VecI64(rows(x@)),
        BranchValues::VecU64(x) => Column::VecU64(rows(x@)),
        BranchValues::VecF32(x) => Column::VecF32(rows(x@)),
        BranchValues::VecF64(x) => Column::VecF64(rows(x@)),
        BranchValues::Str(x) => Column::Str(texts(x@)),
        BranchValues::VecStr(x) => Column::VecStr(text_rows(x@)),
        BranchValues::Nested { offsets, items } => Column::Nested(offsets@, Box::new(column(items))),
    }
}

/// The lengths of the rows.
pub open spec fn row_lens<T>(r: Seq<Seq<T>>) -> Seq<int> {
    r.map_values(|x: Seq<T>| x.len() as int)
}

impl Column {
    /// The number of entries.
    pub open spec fn entries(self) -> nat {
        match self {
            Column::Bool(x) => x.len(),
            Column::I8(x) => x.len(),
            Column::U8(x) => x.len(),
            Column::I16(x) => x.len(),
            Column::U16(x) => x.len(),
            Column::I32(x) => x.len(),
            Column::U32(x) => x.len(),
            Column::I64(x) => x.len(),
            Column::U64(x) => x.len(),
            Column::F32(x) => x.len(),
            Column::F64(x) => x.len(),
            Column::VecBool(x) => x.len(),
            Column::VecI8(x) => x.len(),
            Column::VecU8(x) => x.len(),
            Column::VecI16(x) => x.len(),
            Column::VecU16(x) => x.len(),
            Column::VecI32(x) => x.len(),
            Column::VecU32(x) => x.len(),
            Column::VecI64(x) => x.len(),
            Column::VecU64(x) => x.len(),
            Column::VecF32(x) => x.len(),
            Column::VecF64(x) => x.len(),
            Column::Str(x) => x.len(),
            Column::VecStr(x) => x.len(),
            Column::Nested(o, _) => if o.len() == 0 { 0 } else { (o.len() - 1) as nat },
        }
    }

    /// The per-entry element counts of a numeric array column (empty for
    /// any other column).
    pub open spec fn lens(self) -> Seq<int> {
        match self {
            Column::VecBool(x) => row_lens(x),
            Column::VecI8(x) => row_lens(x),
            Column::VecU8(x) => row_lens(x),
            Column::VecI16(x) => row_lens(x),
            Column::VecU16(x) => row_lens(x),
            Column::VecI32(x) => row_lens(x),
            Column::VecU32(x) => row_lens(x),
            Column::VecI64(x) => row_lens(x),
            Column::VecU64(x) => row_lens(x),
            Column::VecF32(x) => row_lens(x),
            Column::VecF64(x) => row_lens(x),
            _ => Seq::empty(),
        }
    }

    /// Whether this is a column of per-entry numeric arrays.
    pub open spec fn is_rows(self) -> bool {
        match self {
            Column::VecBool(_) => true,
            Column::VecI8(_) => true,
            Column::VecU8(_) => true,
            Column::VecI16(_) => true,
            Column::VecU16(_) => true,
            Column::VecI32(_) => true,
            Column::VecU32(_) => true,
            Column::VecI64(_) => true,
            Column::VecU64(_) => true,
            Column::VecF32(_) => true,
            Column::VecF64(_) => true,
            _ => false,
        }
    }
}

impl View for BranchValues {
    type V = Column;

    open spec fn view(&self) -> Column {
        column(self)
    }
}

/// A flat view of a numeric branch: entry `i` holds
/// `values[offsets[i]..offsets[i + 1]]` of a scalar-variant column.
#[derive(Debug, PartialEq)]
pub struct Jagged {
    /// Cumulative element counts, `entries + 1` of them, starting at 0.
    pub offsets: Vec<u64>,
    /// Every entry's elements, concatenated.
    pub values: BranchValues,
}

} // verus!
