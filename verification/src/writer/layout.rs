//! How a [`Branch`] lays out on disk: its leaf type, entry count, count
//! branch and the metadata its leaf carries.

use vstd::prelude::*;
use vstd::utf8::encode_utf8;
use super::branch::{Branch, BranchKind};
use crate::column::{max_of, max_or_zero, vals};
use crate::value::{row_lens, rows, texts, BranchValues, Column};

verus! {

/// Whether a branch is a scalar, a fixed-size array, a variable-length (jagged)
/// array, a `std::vector<T>` (`TBranchElement`), or a string.
#[derive(Debug, Clone, Copy, PartialEq, Eq, Structural)]
pub enum Kind {
    Scalar,
    FixedArray(usize),
    Jagged,
    StlVector,
    Str,
}

/// The on-disk description of one leaf type.
pub struct LeafInfo {
    /// `TLeafI`/`TLeafD`/`TLeafC`/… class name.
    pub class: &'static str,
    /// Leaflist type code (`I`/`D`/`C`/…) used in the branch title.
    pub code: char,
    /// Element byte width (the data stride; 1 for a `TLeafC` char).
    pub size: i32,
    /// `fLenType` (the element width for numerics, 0 for `TLeafC`).
    pub len_type: i32,
    /// `fIsUnsigned`.
    pub unsigned: bool,
}

/// The leaf class, type code, element width and signedness a column's values
/// are written with.
pub open spec fn base_leaf(c: Column) -> (Seq<char>, char, int, bool) {
    match c {
        Column::Bool(_) | Column::VecBool(_) => ("TLeafO"@, 'O', 1, false),
        Column::I8(_) | Column::VecI8(_) => ("TLeafB"@, 'B', 1, false),
        Column::U8(_) | Column::VecU8(_) => ("TLeafB"@, 'b', 1, true),
        Column::I16(_) | Column::VecI16(_) => ("TLeafS"@, 'S', 2, false),
        Column::U16(_) | Column::VecU16(_) => ("TLeafS"@, 's', 2, true),
        Column::I32(_) | Column::VecI32(_) => ("TLeafI"@, 'I', 4, false),
        Column::U32(_) | Column::VecU32(_) => ("TLeafI"@, 'i', 4, true),
        Column::I64(_) | Column::VecI64(_) => ("TLeafL"@, 'L', 8, false),
        Column::U64(_) | Column::VecU64(_) => ("TLeafL"@, 'l', 8, true),
        Column::F32(_) | Column::VecF32(_) => ("TLeafF"@, 'F', 4, false),
        Column::F64(_) | Column::VecF64(_) => ("TLeafD"@, 'D', 8, false),
        _ => ("TLeafC"@, 'C', 1, false),
    }
}

/// The largest value of an integer scalar column (0 when empty), or the
/// longest string's length + 1 for a string column; 0 for anything else.
pub open spec fn spec_leaf_max(c: Column) -> i64 {
    match c {
        Column::Bool(x) => if x.contains(true) {
            1
        } else {
            0
        },
        Column::I8(x) => max_or_zero(vals(x)) as i64,
        Column::U8(x) => max_or_zero(vals(x)) as i64,
        Column::I16(x) => max_or_zero(vals(x)) as i64,
        Column::U16(x) => max_or_zero(vals(x)) as i64,
        Column::I32(x) => max_or_zero(vals(x)) as i64,
        Column::U32(x) => max_or_zero(vals(x)) as i64,
        Column::I64(x) => max_or_zero(vals(x)) as i64,
        Column::U64(x) => max_or_zero(vals(x)) as i64,
        Column::Str(x) => (max_or_zero(byte_lens(x)) + 1) as i64,
        _ => 0i64,
    }
}

/// The `TLeafC` `fLen` of a string column (longest length + 1); 1 for any
/// other column.
pub open spec fn spec_str_len(c: Column) -> i32 {
    match c {
        Column::Str(x) => (max_or_zero(byte_lens(x)) + 1) as i32,
        _ => 1i32,
    }
}

/// The class name and checksum of the `std::vector<T>` a column of
/// per-entry numeric arrays is written as.
pub open spec fn stl_info_of(c: Column) -> (&'static str, u32) {
    match c {
        Column::VecI8(_) => ("vector<char>", 2107423027u32),
        Column::VecU8(_) => ("vector<unsigned char>", 3193843768u32),
        Column::VecI16(_) => ("vector<short>", 2609783071u32),
        Column::VecU16(_) => ("vector<unsigned short>", 2240785856u32),
        Column::VecI32(_) => ("vector<int>", 1796663354u32),
        Column::VecU32(_) => ("vector<unsigned int>", 2269658365u32),
        Column::VecI64(_) => ("vector<Long64_t>", 1788137638u32),
        Column::VecU64(_) => ("vector<ULong64_t>", 3999597035u32),
        Column::VecF32(_) => ("vector<float>", 1727547419u32),
        Column::VecF64(_) => ("vector<double>", 3894200540u32),
        _ => ("vector<float>", 0u32),
    }
}

/// The per-entry element counts, as the `Int_t`s a count branch stores.
pub open spec fn lens_i32(l: Seq<int>) -> Seq<i32> {
    l.map_values(|n: int| n as i32)
}

/// Whether some row's length differs from the first row's.
pub open spec fn ragged(l: Seq<int>) -> bool {
    exists|i: int| 0 <= i < l.len() && #[trigger] l[i] != l[0]
}

/// The byte length of each string.
pub open spec fn byte_lens(s: Seq<Seq<char>>) -> Seq<int> {
    s.map_values(|x: Seq<char>| encode_utf8(x).len() as int)
}

/// Every string is shorter than `i32::MAX` bytes (the `Int_t` a `TLeafC`
/// length is stored in).
pub open spec fn strings_fit(c: Column) -> bool {
    match c {
        Column::Str(s) => texts_fit(s),
        _ => true,
    }
}

/// Every string is shorter than `i32::MAX` bytes.
pub open spec fn texts_fit(s: Seq<Seq<char>>) -> bool {
    forall|i: int| 0 <= i < s.len() ==> #[trigger] encode_utf8(s[i]).len() < i32::MAX
}

fn lens_of<T>(r: &Vec<Vec<T>>) -> (out: Vec<i32>)
    ensures
        out@ == lens_i32(row_lens(rows(r@))),
{
    let mut out: Vec<i32> = Vec::new();
    let mut i: usize = 0;
    while i < r.len()
        invariant
            i <= r@.len(),
            out@ =~= lens_i32(row_lens(rows(r@))).subrange(0, i as int),
        decreases r@.len() - i,
    {
        out.push(r[i].len() as i32);
        i += 1;
    }
    out
}

fn first_len<T>(r: &Vec<Vec<T>>) -> (n: usize)
    ensures
        n == (if r@.len() == 0 { 0 } else { r@[0]@.len() }),
{
    if r.len() == 0 { 0 } else { r[0].len() }
}

fn is_ragged<T>(r: &Vec<Vec<T>>) -> (b: bool)
    ensures
        b == ragged(row_lens(rows(r@))),
{
    let ghost l = row_lens(rows(r@));
    let n = first_len(r);
    let mut i: usize = 0;
    while i < r.len()
        invariant
            i <= r@.len(),
            l == row_lens(rows(r@)),
            r@.len() > 0 ==> n == l[0],
            forall|j: int| 0 <= j < i ==> #[trigger] l[j] == l[0],
        decreases r@.len() - i,
    {
        if r[i].len() != n {
            assert(l[i as int] != l[0]);
            return true;
        }
        i += 1;
    }
    false
}

fn max_str_len(v: &Vec<String>) -> (m: usize)
    ensures
        m == max_or_zero(byte_lens(texts(v@))),
{
    if v.len() == 0 {
        return 0;
    }
    let ghost l = byte_lens(texts(v@));
    let mut m = v[0].as_str().as_bytes().len();
    let mut i: usize = 1;
    proof {
        assert(texts(v@)[0] == v@[0]@);
        assert(m == encode_utf8(v@[0]@).len());
        assert(l[0] == encode_utf8(v@[0]@).len());
        assert(l.subrange(0, 1) =~= seq![l[0]]);
        assert(max_or_zero(l.subrange(0, 1)) == l[0]);
    }
    while i < v.len()
        invariant
            1 <= i <= v@.len(),
            l == byte_lens(texts(v@)),
            m == max_or_zero(l.subrange(0, i as int)),
        decreases v@.len() - i,
    {
        proof {
            assert(l.subrange(0, i + 1).drop_last() =~= l.subrange(0, i as int));
        }
        let n = v[i].as_str().as_bytes().len();
        proof {
            assert(texts(v@)[i as int] == v@[i as int]@);
        }
        if n > m {
            m = n;
        }
        i += 1;
    }
    proof {
        assert(l.subrange(0, v@.len() as int) =~= l);
    }
    m
}

/// Per-entry row counts of a jagged `BranchValues` (the element count per
/// entry); empty for anything but a numeric array column.
pub fn vec_row_lengths(values: &BranchValues) -> (r: Vec<i32>)
    ensures
        r@ == lens_i32(values@.lens()),
{
    match values {
        BranchValues::VecBool(x) => lens_of(x),
        BranchValues::VecI8(x) => lens_of(x),
        BranchValues::VecU8(x) => lens_of(x),
        BranchValues::VecI16(x) => lens_of(x),
        BranchValues::VecU16(x) => lens_of(x),
        BranchValues::VecI32(x) => lens_of(x),
        BranchValues::VecU32(x) => lens_of(x),
        BranchValues::VecI64(x) => lens_of(x),
        BranchValues::VecU64(x) => lens_of(x),
        BranchValues::VecF32(x) => lens_of(x),
        BranchValues::VecF64(x) => lens_of(x),
        _ => Vec::new(),
    }
}

/// The number of entries of a column that is not a doubly-nested one.
pub fn entry_count(values: &BranchValues) -> (n: usize)
    requires
        !(values@ is Nested),
    ensures
        n == values@.entries(),
{
    match values {
        BranchValues::Bool(x) => x.len(),
        BranchValues::I8(x) => x.len(),
        BranchValues::U8(x) => x.len(),
        BranchValues::I16(x) => x.len(),
        BranchValues::U16(x) => x.len(),
        BranchValues::I32(x) => x.len(),
        BranchValues::U32(x) => x.len(),
        BranchValues::I64(x) => x.len(),
        BranchValues::U64(x) => x.len(),
        BranchValues::F32(x) => x.len(),
        BranchValues::F64(x) => x.len(),
        BranchValues::VecBool(x) => x.len(),
        BranchValues::VecI8(x) => x.len(),
        BranchValues::VecU8(x) => x.len(),
        BranchValues::VecI16(x) => x.len(),
        BranchValues::VecU16(x) => x.len(),
        BranchValues::VecI32(x) => x.len(),
        BranchValues::VecU32(x) => x.len(),
        BranchValues::VecI64(x) => x.len(),
        BranchValues::VecU64(x) => x.len(),
        BranchValues::VecF32(x) => x.len(),
        BranchValues::VecF64(x) => x.len(),
        BranchValues::Str(x) => x.len(),
        BranchValues::VecStr(x) => x.len(),
        BranchValues::Nested { .. } => 0,
    }
}

impl Branch {
    /// The entries this branch holds: the first member's row count for a
    /// split branch, else its values' entry count.
    pub open(crate) spec fn entries(&self) -> nat {
        match self.kind_of() {
            BranchKind::Split(s) => if s.members_of().len() == 0 {
                0
            } else {
                s.members_of()[0].values_of().lens().len()
            },
            _ => self.values_of().entries(),
        }
    }

    /// The element count `fLen` a leaf of this branch records: 1 for a
    /// jagged or `std::vector` branch, the first row's length for a fixed
    /// array, else 1.
    pub open(crate) spec fn spec_flen(&self) -> i32 {
        if self.kind_of() is Jagged || self.kind_of() is StlVector {
            1
        } else if self.values_of().is_rows() {
            (if self.values_of().lens().len() == 0 { 0 } else { self.values_of().lens()[0] }) as i32
        } else {
            1
        }
    }

    /// The layout kind this branch is written with.
    pub open(crate) spec fn spec_kind(&self) -> Kind {
        if self.kind_of() is StlVector {
            Kind::StlVector
        } else if self.kind_of() is Jagged {
            Kind::Jagged
        } else if self.values_of() is Str {
            Kind::Str
        } else if self.values_of().is_rows() {
            Kind::FixedArray(self.spec_flen() as usize)
        } else {
            Kind::Scalar
        }
    }

    /// Number of entries (rows for arrays/strings).
    pub fn n_entries(&self) -> (r: u32)
        requires
            !(self.values_of() is Nested),
        ensures
            r == self.entries() as u32,
    {
        if let Some(spec) = self.split() {
            if spec.members.len() == 0 {
                return 0;
            }
            return vec_row_lengths(&spec.members[0].values).len() as u32;
        }
        entry_count(&self.values) as u32
    }

    /// The element leaf type (the inner type for arrays). A `std::vector<T>`
    /// branch keeps the element width/sign but its leaf class is `TLeafElement`.
    pub fn leaf(&self) -> (r: LeafInfo)
        ensures
            ({
                let (class, code, size, unsigned) = base_leaf(self.values_of());
                &&& r.class@ == (if self.kind_of() is StlVector { "TLeafElement"@ } else { class })
                &&& r.code == code
                &&& r.size == size
                &&& r.unsigned == unsigned
                &&& r.len_type == (if self.values_of() is Str || self.kind_of() is StlVector {
                    0
                } else {
                    size
                })
            }),
    {
        let (class, code, size, unsigned): (&'static str, char, i32, bool) = match &self.values {
            BranchValues::Bool(_) | BranchValues::VecBool(_) => ("TLeafO", 'O', 1, false),
            BranchValues::I8(_) | BranchValues::VecI8(_) => ("TLeafB", 'B', 1, false),
            BranchValues::U8(_) | BranchValues::VecU8(_) => ("TLeafB", 'b', 1, true),
            BranchValues::I16(_) | BranchValues::VecI16(_) => ("TLeafS", 'S', 2, false),
            BranchValues::U16(_) | BranchValues::VecU16(_) => ("TLeafS", 's', 2, true),
            BranchValues::I32(_) | BranchValues::VecI32(_) => ("TLeafI", 'I', 4, false),
            BranchValues::U32(_) | BranchValues::VecU32(_) => ("TLeafI", 'i', 4, true),
            BranchValues::I64(_) | BranchValues::VecI64(_) => ("TLeafL", 'L', 8, false),
            BranchValues::U64(_) | BranchValues::VecU64(_) => ("TLeafL", 'l', 8, true),
            BranchValues::F32(_) | BranchValues::VecF32(_) => ("TLeafF", 'F', 4, false),
            BranchValues::F64(_) | BranchValues::VecF64(_) => ("TLeafD", 'D', 8, false),
            _ => ("TLeafC", 'C', 1, false),
        };
        let is_str = match &self.values {
            BranchValues::Str(_) => true,
            _ => false,
        };
        let stl = self.stl_vector();
        let len_type = if is_str || stl { 0 } else { size };
        let class = if stl { "TLeafElement" } else { class };
        LeafInfo { class, code, size, len_type, unsigned }
    }

    /// The largest value of an integer scalar branch — the `fMaximum` of a count
    /// leaf, which ROOT uses to size the read buffer of the array it counts —
    /// or, for a string branch, the longest length + 1. 0 for anything else.
    pub fn leaf_max(&self) -> (r: i64)
        requires
            strings_fit(self.values_of()),
        ensures
            r == spec_leaf_max(self.values_of()),
    {
        match &self.values {
            BranchValues::Bool(v) => {
                assert(self.values_of() == Column::Bool(v@));
                let mut i: usize = 0;
                while i < v.len()
                    invariant
                        i <= v@.len(),
                        self.values_of() == Column::Bool(v@),
                        forall|j: int| 0 <= j < i ==> !v@[j],
                    decreases v@.len() - i,
                {
                    if v[i] {
                        assert(v@[i as int]);
                        assert(v@.contains(true));
                        return 1;
                    }
                    i += 1;
                }
                assert(!v@.contains(true));
                0
            },
            BranchValues::I8(x) => max_of(x.as_slice()),
            BranchValues::U8(x) => max_of(x.as_slice()),
            BranchValues::I16(x) => max_of(x.as_slice()),
            BranchValues::U16(x) => max_of(x.as_slice()),
            BranchValues::I32(x) => max_of(x.as_slice()),
            BranchValues::U32(x) => max_of(x.as_slice()),
            BranchValues::I64(x) => max_of(x.as_slice()),
            BranchValues::U64(x) => max_of(x.as_slice()),
            BranchValues::Str(x) => {
                let m = max_str_len(x);
                proof {
                    assert(self.values_of() == Column::Str(texts(x@)));
                    lemma_max_len_fits(texts(x@));
                }
                m as i64 + 1
            },
            _ => 0,
        }
    }

    /// The `TLeafC` `fLen` (longest string length + 1) for a string branch.
    pub fn str_len(&self) -> (r: i32)
        requires
            strings_fit(self.values_of()),
        ensures
            r == spec_str_len(self.values_of()),
    {
        match &self.values {
            BranchValues::Str(v) => {
                let m = max_str_len(v);
                proof {
                    assert(self.values_of() == Column::Str(texts(v@)));
                    lemma_max_len_fits(texts(v@));
                }
                m as i32 + 1
            },
            _ => 1,
        }
    }

    /// Elements per entry: `N` for a fixed array (from row 0), else 1 (scalar,
    /// string, and the jagged leaf — whose per-entry length is dynamic).
    pub fn flen(&self) -> (r: i32)
        ensures
            r == self.spec_flen(),
    {
        if self.jagged() || self.stl_vector() {
            return 1;
        }
        let n = match &self.values {
            BranchValues::VecBool(r) => first_len(r),
            BranchValues::VecI8(r) => first_len(r),
            BranchValues::VecU8(r) => first_len(r),
            BranchValues::VecI16(r) => first_len(r),
            BranchValues::VecU16(r) => first_len(r),
            BranchValues::VecI32(r) => first_len(r),
            BranchValues::VecU32(r) => first_len(r),
            BranchValues::VecI64(r) => first_len(r),
            BranchValues::VecU64(r) => first_len(r),
            BranchValues::VecF32(r) => first_len(r),
            BranchValues::VecF64(r) => first_len(r),
            _ => 1,
        };
        n as i32
    }

    /// Whether this is an array branch whose rows differ in length.
    pub fn is_jagged(&self) -> (r: bool)
        ensures
            r == ragged(self.values_of().lens()),
    {
        match &self.values {
            BranchValues::VecBool(r) => is_ragged(r),
            BranchValues::VecI8(r) => is_ragged(r),
            BranchValues::VecU8(r) => is_ragged(r),
            BranchValues::VecI16(r) => is_ragged(r),
            BranchValues::VecU16(r) => is_ragged(r),
            BranchValues::VecI32(r) => is_ragged(r),
            BranchValues::VecU32(r) => is_ragged(r),
            BranchValues::VecI64(r) => is_ragged(r),
            BranchValues::VecU64(r) => is_ragged(r),
            BranchValues::VecF32(r) => is_ragged(r),
            BranchValues::VecF64(r) => is_ragged(r),
            _ => false,
        }
    }

    /// The layout kind this branch is written with.
    pub fn kind(&self) -> (r: Kind)
        ensures
            r == self.spec_kind(),
    {
        if self.stl_vector() {
            return Kind::StlVector;
        }
        if self.jagged() {
            return Kind::Jagged;
        }
        match &self.values {
            BranchValues::Str(_) => Kind::Str,
            BranchValues::VecBool(_) => Kind::FixedArray(self.flen() as usize),
            BranchValues::VecI8(_) => Kind::FixedArray(self.flen() as usize),
            BranchValues::VecU8(_) => Kind::FixedArray(self.flen() as usize),
            BranchValues::VecI16(_) => Kind::FixedArray(self.flen() as usize),
            BranchValues::VecU16(_) => Kind::FixedArray(self.flen() as usize),
            BranchValues::VecI32(_) => Kind::FixedArray(self.flen() as usize),
            BranchValues::VecU32(_) => Kind::FixedArray(self.flen() as usize),
            BranchValues::VecI64(_) => Kind::FixedArray(self.flen() as usize),
            BranchValues::VecU64(_) => Kind::FixedArray(self.flen() as usize),
            BranchValues::VecF32(_) => Kind::FixedArray(self.flen() as usize),
            BranchValues::VecF64(_) => Kind::FixedArray(self.flen() as usize),
            _ => Kind::Scalar,
        }
    }

    /// The name of the auto-generated count branch for a jagged branch (`y` →
    /// `ny`), matching uproot's convention.
    pub fn count_name(&self) -> (r: String)
        ensures
            r@ == "n"@ + self.name_of(),
    {
        crate::text::concat_str("n", self.name.as_str())
    }

    /// Per-row element counts (for a jagged branch's count branch); empty for
    /// non-array branches.
    pub fn row_lengths(&self) -> (r: Vec<i32>)
        ensures
            r@ == lens_i32(self.values_of().lens()),
    {
        vec_row_lengths(&self.values)
    }

    /// The paired count branch (`n<name>`, a scalar `i32` of row lengths) for a
    /// jagged branch; `None` for any other branch.
    pub fn count_branch(&self) -> (r: Option<Branch>)
        ensures
            self.kind_of() is Jagged ==> (r matches Some(c) && c.name_of() == "n"@ + self.name_of()
                && c.values_of() == Column::I32(lens_i32(self.values_of().lens()))
                && c.kind_of() is Count),
            !(self.kind_of() is Jagged) ==> r is None,
    {
        if self.jagged() {
            Some(Branch { name: self.count_name(), values: BranchValues::I32(self.row_lengths()), kind: BranchKind::Count })
        } else {
            None
        }
    }

    /// The `std::vector<T>` class name and `fCheckSum` ROOT writes for the
    /// element type (used when this is a `TBranchElement`). Checksums are the
    /// fixed values ROOT computes for each `vector<T>` specialization.
    pub fn stl_info(&self) -> (r: (&'static str, u32))
        ensures
            r == stl_info_of(self.values_of()),
    {
        match &self.values {
            BranchValues::VecI8(_) => ("vector<char>", 2107423027),
            BranchValues::VecU8(_) => ("vector<unsigned char>", 3193843768),
            BranchValues::VecI16(_) => ("vector<short>", 2609783071),
            BranchValues::VecU16(_) => ("vector<unsigned short>", 2240785856),
            BranchValues::VecI32(_) => ("vector<int>", 1796663354),
            BranchValues::VecU32(_) => ("vector<unsigned int>", 2269658365),
            BranchValues::VecI64(_) => ("vector<Long64_t>", 1788137638),
            BranchValues::VecU64(_) => ("vector<ULong64_t>", 3999597035),
            BranchValues::VecF32(_) => ("vector<float>", 1727547419),
            BranchValues::VecF64(_) => ("vector<double>", 3894200540),
            _ => ("vector<float>", 0),
        }
    }
}

/// The longest string of a column whose strings fit is shorter than `i32::MAX`.
pub proof fn lemma_max_len_fits(s: Seq<Seq<char>>)
    requires
        strings_fit(Column::Str(s)),
    ensures
        max_or_zero(byte_lens(s)) < i32::MAX,
{
    let l = byte_lens(s);
    assert(texts_fit(s));
    if l.len() > 0 {
        lemma_max_is_one_of(l);
        let k = choose|k: int| 0 <= k < l.len() && l[k] == max_or_zero(l);
        assert(l.len() == s.len());
        assert(l[k] == encode_utf8(s[k]).len());
        assert(encode_utf8(s[k]).len() < i32::MAX);
    }
}

/// The maximum of a non-empty sequence is one of its elements.
pub proof fn lemma_max_is_one_of(s: Seq<int>)
    requires
        s.len() > 0,
    ensures
        exists|k: int| 0 <= k < s.len() && s[k] == max_or_zero(s),
    decreases s.len(),
{
    if s.len() == 1 {
        assert(s[0] == max_or_zero(s));
    } else {
        lemma_max_is_one_of(s.drop_last());
        let k = choose|k: int| 0 <= k < s.drop_last().len() && s.drop_last()[k] == max_or_zero(s.drop_last());
        if s.last() > max_or_zero(s.drop_last()) {
            assert(s[s.len() - 1] == max_or_zero(s));
        } else {
            assert(s[k] == max_or_zero(s));
        }
    }
}

} // verus!
