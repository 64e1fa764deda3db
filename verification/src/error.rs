//! The errors of reading and writing tree data.

use vstd::prelude::*;

verus! {

/// Which rule of the on-disk layout a record broke, or which request a caller
/// made that cannot be honoured.
#[derive(Debug, Clone, Copy, PartialEq, Eq, Structural)]
pub enum Issue {
    /// A string branch was asked to decode as numbers.
    StringAsNumbers,
    /// A basket's key length exceeds its record length.
    KeyLongerThanRecord,
    /// A variable-length branch's basket has no `fEntryOffset` array.
    MissingEntryOffsets,
    /// A variable-length basket records fewer entry offsets than entries.
    TooFewEntryOffsets,
    /// A scalar branch's baskets hold a byte count that is not entries × width.
    ScalarSizeMismatch,
    /// A `std::vector<std::vector<T>>` entry ends mid-element.
    NestedEntryTruncated,
    /// A byte count points outside its buffer.
    SeekOutOfRange,
    /// A size field is too large to be held.
    SizeOverflow,
    /// A base class carries no byte count and has no streamer info to walk it.
    UnskippableBase,
    /// A streamer element has a type code this reader does not decode.
    UnsupportedElementType,
    /// A tree index declares more entries than its record holds.
    IndexTooLarge,
    /// A basket index has no recorded seek position.
    MissingBasketSeek,
    /// A chain or merge was given no trees.
    NoTrees,
    /// Values of different element types were to be concatenated.
    InconsistentTypes,
    /// A split branch has no members.
    SplitWithoutMembers,
    /// A string branch was asked for a flat numeric view.
    FlatViewOfStrings,
    /// An object-member branch was asked for a flat numeric view.
    FlatViewOfObjectMember,
    /// An entry's object of an object-member branch could not be walked.
    ObjectMemberUnreadable,
    /// An object member's value would need a floating-point conversion to
    /// fill its column.
    FloatMemberConversion,
    /// A streaming writer was given a split `std::vector<Struct>` branch.
    StreamedSplitBranch,
    /// A streaming writer was finished before any batch was written.
    NoBatches,
    /// A branch of a tree cannot be read, so merging it would lose data.
    UnreadableBranch,
    /// A branch layout this crate can read but not write back.
    NotWritable,
}

/// An error from reading or writing tree data.
#[derive(Debug, Clone, PartialEq, Eq)]
pub enum Error {
    /// A read ran past the end of its buffer.
    UnexpectedEnd,
    /// The bytes break the on-disk layout in the way `Issue` names.
    Format(Issue),
    /// A named key or branch does not exist.
    NotFound { what: String, name: String },
    /// Two counts that must agree differ.
    LengthMismatch { what: String, expected: usize, found: usize },
    /// A request that cannot be honoured for the reason `Issue` names.
    InvalidInput(Issue),
    /// A layout this crate does not handle.
    Unsupported(Issue),
    /// A batch or an input tree does not share the first one's schema, for
    /// the reason `detail` tells.
    SchemaChanged { detail: String },
    /// A fixed-array branch, named `branch`, has rows of different lengths
    /// (a jagged or `std::vector` branch holds those).
    RaggedRows { branch: String },
    /// The file has no streamer info for a class the reader must walk.
    MissingStreamerInfo { class: String },
    /// The key `name` holds an object of class `found`, not `expected`.
    WrongClass { name: String, found: String, expected: String },
}

} // verus!
