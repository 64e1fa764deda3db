# oxiroot_tree

Reading and writing ROOT `TTree` data, with the byte-level logic verified by
Verus.

A `TTree` stores its columns in `TBranch`es; each branch keeps its values in
`TBasket`s and describes them with `TLeaf`s. This crate reads a tree's
metadata by walking the file's own streamer info, decodes basket payloads
into typed columns, and lays out new branches into baskets and the `TTree`
record that describes them. Every function in `src/` carries a contract over
a mathematical model of the bytes it reads or writes, and Verus proves each
body against it; no verified function panics.

## Layout

- `src/rbuffer.rs`, `src/codec.rs`, `src/tags.rs`, `src/text.rs` — the
  big-endian primitives, ROOT strings, version headers and object tags, with
  read-after-write lemmas for each integer width.
- `src/basket.rs` — a basket's key and payload: the entry border and the
  `fEntryOffset` table.
- `src/reader/` — the streamer-info registry, the walker that reads a
  `TTree` record by its streamer elements (`walk.rs`), and the decoders from
  basket bytes to columns (`decode.rs`): scalars, fixed and variable arrays,
  strings, `std::vector` and nested vectors, leaflist members, range reads and
  the flat (jagged) view.
- `src/writer/` — branch constructors and the checks a tree to write must
  pass (`branch.rs`, `tree.rs`), basket payloads (`content.rs`, `baskets.rs`,
  `chunks.rs`), the serialised `TBranch`, `TBranchElement` and `TLeaf`
  records (`serialize.rs`, `collection.rs`), the `TTree` record
  (`tree_object.rs`), the generated streamer info (`classes.rs`,
  `class_info.rs`) and the streaming writer's state machine
  (`streaming.rs`). `round_trip.rs` proves that a written basket decodes back
  to the branch's values; `leaf_record.rs` and `basket_arrays.rs` prove that
  the reader reads a written branch's `TNamed`, leaves and basket arrays back
  as what they were written from.
- `src/chain.rs`, `src/merge.rs` — concatenating the columns of several trees
  and checking that their schemas agree.
- `src/entrylist.rs` — `TEntryList` parsing.
- `tests/` — the test suite, run against the compiled library.
- `app/` — the parts that touch files and compression: opening a ROOT file,
  fetching and decompressing baskets, and writing the `TFile` container around
  the records the library produces.

## Verifying

Verus checks `src/`; `tests/` and `app/` are ordinary Rust.
