//! Reading and writing ROOT `TTree` data — the classic columnar store.
//!
//! A `TTree` holds `TBranch`es, each storing its values in `TBasket`s
//! described by `TLeaf`s. This crate holds the on-disk encodings and their
//! contracts: primitive scalars, fixed-size arrays (`x[N]`), variable-length
//! arrays (`x[n]`, via `fEntryOffset`), `TLeafC` strings, unsplit
//! `std::vector<T>` branches, `std::vector<std::vector<T>>` and
//! `std::vector<std::string>` columns, leaflist leaves, the object framing of
//! ROOT's streamers, friend lists and `TEntryList`s; the writing side lays out
//! branches into basket records and checks what a tree to write must satisfy.

pub mod basket;
pub mod chain;
pub mod codec;
pub mod column;
pub mod entrylist;
pub mod error;
pub mod merge;
pub mod rbuffer;
pub mod reader;
pub mod tags;
pub mod text;
pub mod value;
pub mod writer;

pub use entrylist::TEntryList;
pub use reader::{Friend, TreeReader};
pub use value::{BranchValues, Jagged, LeafType};
pub use writer::{Branch, SplitMember, Tree};
