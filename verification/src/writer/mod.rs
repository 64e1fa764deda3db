//! Writing a `TTree`: the branches a caller builds, their on-disk layout, the
//! basket records they are written in, and the checks a tree must pass.

pub mod basket_arrays;
pub mod baskets;
pub mod branch;
pub mod chunks;
pub mod class_info;
pub mod classes;
pub mod collection;
pub mod content;
pub mod layout;
pub mod leaf_record;
pub mod round_trip;
pub mod serialize;
pub mod split;
pub mod streaming;
pub mod tree;
pub mod tree_object;

pub use branch::{Branch, BranchKind, SplitMember, SplitSpec};
pub use tree::Tree;
