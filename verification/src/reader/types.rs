//! Mapping ROOT type names and streamer element types to [`LeafType`].

use vstd::prelude::*;
use crate::reader::members::StreamerElement;
use crate::text::{starts_with, str_eq, strip_prefix, strip_suffix_char, trim, trimmed};
use crate::value::LeafType;

verus! {

/// The leaf type of a `TStreamerInfo` basic-type code (`fStreamerType`,
/// ROOT's `EDataType`), for split member sub-branches.
pub open spec fn spec_streamer_type_to_leaf(st: i32) -> Option<LeafType> {
    if st == 1 {
        Some(LeafType::I8)
    } else if st == 2 {
        Some(LeafType::I16)
    } else if st == 3 {
        Some(LeafType::I32)
    } else if st == 4 || st == 16 {
        Some(LeafType::I64)
    } else if st == 5 {
        Some(LeafType::F32)
    } else if st == 8 {
        Some(LeafType::F64)
    } else if st == 11 {
        Some(LeafType::U8)
    } else if st == 12 {
        Some(LeafType::U16)
    } else if st == 13 {
        Some(LeafType::U32)
    } else if st == 14 || st == 17 {
        Some(LeafType::U64)
    } else if st == 18 {
        Some(LeafType::Bool)
    } else {
        None
    }
}

/// The leaf type of a class member's streamer element: the basic scalars,
/// and `TString` (`fType` 65).
pub open spec fn spec_member_leaf_type(el_type: i32) -> Option<LeafType> {
    if el_type == 65 {
        Some(LeafType::Str)
    } else {
        spec_streamer_type_to_leaf(el_type)
    }
}

/// Map a class member's streamer element to its [`LeafType`] — basic scalars
/// (via [`streamer_type_to_leaf`]) and `TString` (`fType` 65). `None` for
/// member types not surfaced from a `TBranchObject` (objects, arrays, pointers).
pub fn member_leaf_type(el: &StreamerElement) -> (r: Option<LeafType>)
    ensures
        r == spec_member_leaf_type(el.el_type),
{
    if el.el_type == 65 {
        return Some(LeafType::Str);
    }
    streamer_type_to_leaf(el.el_type)
}

/// Map a `TStreamerInfo` basic-type code to its [`LeafType`]; `None` for an
/// unsupported code.
pub fn streamer_type_to_leaf(st: i32) -> (r: Option<LeafType>)
    ensures
        r == spec_streamer_type_to_leaf(st),
{
    match st {
        1 => Some(LeafType::I8),
        2 => Some(LeafType::I16),
        3 => Some(LeafType::I32),
        4 | 16 => Some(LeafType::I64),
        5 => Some(LeafType::F32),
        8 => Some(LeafType::F64),
        11 => Some(LeafType::U8),
        12 => Some(LeafType::U16),
        13 => Some(LeafType::U32),
        14 | 17 => Some(LeafType::U64),
        18 => Some(LeafType::Bool),
        _ => None,
    }
}

/// `s` after its first `p.len()` characters.
pub open spec fn after(s: Seq<char>, p: Seq<char>) -> Seq<char> {
    s.subrange(p.len() as int, s.len() as int)
}

/// The trimmed text inside a closing `>`: `b` without its last character,
/// trimmed, when that character is `>`.
pub open spec fn close_angle(b: Seq<char>) -> Option<Seq<char>> {
    if b.len() > 0 && b.last() == '>' {
        Some(trimmed(b.drop_last()))
    } else {
        None
    }
}

/// The element spelling of a `vector<...>` / `std::vector<...>` class name.
pub open spec fn spec_strip_vector(s: Seq<char>) -> Option<Seq<char>> {
    if starts_with(s, "vector<"@) {
        close_angle(after(s, "vector<"@))
    } else if starts_with(s, "std::vector<"@) {
        close_angle(after(s, "std::vector<"@))
    } else {
        None
    }
}

/// The element spelling of a single-element STL container class name
/// (`vector`, `set` or `multiset`, bare or `std::`): the first prefix that
/// matches decides, and the name must then end in `>`.
pub open spec fn spec_strip_collection(s: Seq<char>) -> Option<Seq<char>> {
    if starts_with(s, "vector<"@) {
        close_angle(after(s, "vector<"@))
    } else if starts_with(s, "std::vector<"@) {
        close_angle(after(s, "std::vector<"@))
    } else if starts_with(s, "set<"@) {
        close_angle(after(s, "set<"@))
    } else if starts_with(s, "std::set<"@) {
        close_angle(after(s, "std::set<"@))
    } else if starts_with(s, "multiset<"@) {
        close_angle(after(s, "multiset<"@))
    } else if starts_with(s, "std::multiset<"@) {
        close_angle(after(s, "std::multiset<"@))
    } else {
        None
    }
}

/// The leaf type a C++ fundamental type name denotes.
pub open spec fn spec_basic_leaf_type(n: Seq<char>) -> Option<LeafType> {
    if n == "float"@ {
        Some(LeafType::F32)
    } else if n == "double"@ {
        Some(LeafType::F64)
    } else if n == "int"@ || n == "Int_t"@ {
        Some(LeafType::I32)
    } else if n == "unsigned int"@ || n == "UInt_t"@ {
        Some(LeafType::U32)
    } else if n == "short"@ || n == "Short_t"@ {
        Some(LeafType::I16)
    } else if n == "unsigned short"@ || n == "UShort_t"@ {
        Some(LeafType::U16)
    } else if n == "char"@ || n == "Char_t"@ || n == "int8_t"@ {
        Some(LeafType::I8)
    } else if n == "unsigned char"@ || n == "UChar_t"@ || n == "uint8_t"@ {
        Some(LeafType::U8)
    } else if n == "bool"@ || n == "Bool_t"@ {
        Some(LeafType::Bool)
    } else if n == "long"@ || n == "long long"@ || n == "Long64_t"@ || n == "Long_t"@ {
        Some(LeafType::I64)
    } else if n == "unsigned long"@ || n == "unsigned long long"@ || n == "ULong64_t"@ || n
        == "ULong_t"@ {
        Some(LeafType::U64)
    } else if n == "string"@ || n == "std::string"@ {
        Some(LeafType::Str)
    } else {
        None
    }
}

/// The characters of an optional string slice.
pub open spec fn opt_chars(r: Option<&str>) -> Option<Seq<char>> {
    match r {
        Some(x) => Some(x@),
        None => None,
    }
}

/// The element type of an unsplit single-element STL container class name.
pub open spec fn spec_parse_vector_elem(s: Seq<char>) -> Option<LeafType> {
    match spec_strip_collection(s) {
        Some(e) => spec_basic_leaf_type(e),
        None => None,
    }
}

/// The element type `T` of a `std::vector<std::vector<T>>` class name, for a
/// supported basic `T` other than a string.
pub open spec fn spec_parse_nested_vector_elem(s: Seq<char>) -> Option<LeafType> {
    match spec_strip_vector(s) {
        None => None,
        Some(inner) => match spec_strip_vector(inner) {
            None => None,
            Some(e) => match spec_basic_leaf_type(e) {
                Some(t) => if t == LeafType::Str {
                    None
                } else {
                    Some(t)
                },
                None => None,
            },
        },
    }
}

/// The trimmed text of `b` before a closing `>`.
fn close_angle_exec(b: &str) -> (r: Option<&str>)
    ensures
        opt_chars(r) == close_angle(b@),
{
    match strip_suffix_char(b, '>') {
        Some(x) => Some(trim(x)),
        None => None,
    }
}

/// Strip a `vector<...>` / `std::vector<...>` wrapper, returning the (trimmed)
/// element type spelling.
pub fn strip_vector(class_name: &str) -> (r: Option<&str>)
    ensures
        opt_chars(r) == spec_strip_vector(class_name@),
{
    if let Some(b) = strip_prefix(class_name, "vector<") {
        return close_angle_exec(b);
    }
    match strip_prefix(class_name, "std::vector<") {
        Some(b) => close_angle_exec(b),
        None => None,
    }
}

/// Map a C++ fundamental type name to its [`LeafType`], or `None` if unsupported.
pub fn basic_leaf_type(name: &str) -> (r: Option<LeafType>)
    ensures
        r == spec_basic_leaf_type(name@),
{
    if str_eq(name, "float") {
        Some(LeafType::F32)
    } else if str_eq(name, "double") {
        Some(LeafType::F64)
    } else if str_eq(name, "int") || str_eq(name, "Int_t") {
        Some(LeafType::I32)
    } else if str_eq(name, "unsigned int") || str_eq(name, "UInt_t") {
        Some(LeafType::U32)
    } else if str_eq(name, "short") || str_eq(name, "Short_t") {
        Some(LeafType::I16)
    } else if str_eq(name, "unsigned short") || str_eq(name, "UShort_t") {
        Some(LeafType::U16)
    } else if str_eq(name, "char") || str_eq(name, "Char_t") || str_eq(name, "int8_t") {
        Some(LeafType::I8)
    } else if str_eq(name, "unsigned char") || str_eq(name, "UChar_t") || str_eq(name, "uint8_t") {
        Some(LeafType::U8)
    } else if str_eq(name, "bool") || str_eq(name, "Bool_t") {
        Some(LeafType::Bool)
    } else if str_eq(name, "long") || str_eq(name, "long long") || str_eq(name, "Long64_t")
        || str_eq(name, "Long_t") {
        Some(LeafType::I64)
    } else if str_eq(name, "unsigned long") || str_eq(name, "unsigned long long") || str_eq(
        name,
        "ULong64_t",
    ) || str_eq(name, "ULong_t") {
        Some(LeafType::U64)
    } else if str_eq(name, "string") || str_eq(name, "std::string") {
        Some(LeafType::Str)
    } else {
        None
    }
}

/// Strip a single-element STL container wrapper — `vector` / `set` /
/// `multiset` (bare or `std::`) — returning the trimmed element type.
/// `std::set` and `std::vector` share an object-wise on-disk layout (a
/// 10-byte streamer header then the contiguous elements), so the reader
/// treats them the same.
pub fn strip_collection(class_name: &str) -> (r: Option<&str>)
    ensures
        opt_chars(r) == spec_strip_collection(class_name@),
{
    if let Some(b) = strip_prefix(class_name, "vector<") {
        return close_angle_exec(b);
    }
    if let Some(b) = strip_prefix(class_name, "std::vector<") {
        return close_angle_exec(b);
    }
    if let Some(b) = strip_prefix(class_name, "set<") {
        return close_angle_exec(b);
    }
    if let Some(b) = strip_prefix(class_name, "std::set<") {
        return close_angle_exec(b);
    }
    if let Some(b) = strip_prefix(class_name, "multiset<") {
        return close_angle_exec(b);
    }
    if let Some(b) = strip_prefix(class_name, "std::multiset<") {
        return close_angle_exec(b);
    }
    None
}

/// Map an unsplit single-element STL container (`std::vector<T>`/`std::set<T>`/…)
/// class name to its element [`LeafType`], or `None` for an unsupported element.
pub fn parse_vector_elem(class_name: &str) -> (r: Option<LeafType>)
    ensures
        r == spec_parse_vector_elem(class_name@),
{
    match strip_collection(class_name) {
        Some(e) => basic_leaf_type(e),
        None => None,
    }
}

/// Map a `std::vector<std::vector<T>>` class name to `T`'s element [`LeafType`],
/// or `None` if it is not a doubly-nested vector of a supported basic type.
/// `std::vector<std::vector<std::string>>` is excluded (the inner string
/// decoding does not compose with the nested reader).
pub fn parse_nested_vector_elem(class_name: &str) -> (r: Option<LeafType>)
    ensures
        r == spec_parse_nested_vector_elem(class_name@),
{
    let inner = match strip_vector(class_name) {
        Some(i) => i,
        None => return None,
    };
    let e = match strip_vector(inner) {
        Some(e) => e,
        None => return None,
    };
    match basic_leaf_type(e) {
        Some(t) => if t == LeafType::Str {
            None
        } else {
            Some(t)
        },
        None => None,
    }
}

} // verus!
