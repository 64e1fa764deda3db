//! The decisions of a tree written batch by batch: checking each batch
//! against the first one's schema, keeping one column per effective
//! branch (a jagged branch's count column first), the basket records each
//! batch added, and the leaf maxima that only the whole data set fixes.
//! Writing the baskets themselves is left to the caller, between
//! [`TreeWriter::check_batch`] and [`TreeWriter::record_batch`].

use vstd::prelude::*;
use vstd::utf8::encode_utf8;
use super::baskets::BasketRec;
use super::branch::{Branch, BranchKind};
use super::layout::{lens_i32, ragged, spec_leaf_max, spec_str_len, strings_fit, Kind};
use super::tree::{check_entry_counts, count_error, counts_agree, expected_entries, no_nested};
use super::chunks::chunk_values;
use super::tree_object::{
    build_tree_object, derefs, group_size, group_views, lemma_group_size_mono, lemma_total_size_prefix, record_ok,
    total_size, tree_key_len, tree_object_bytes, written,
};
use crate::reader::decode::slice_model;
use crate::error::{Error, Issue};
use crate::text::{concat_str, str_eq};
use crate::value::{BranchValues, Column};

verus! {

/// Which variant of [`Column`] a column is.
pub open spec fn variant_of(c: Column) -> u8 {
    match c {
        Column::Bool(_) => 0u8,
        Column::I8(_) => 1u8,
        Column::U8(_) => 2u8,
        Column::I16(_) => 3u8,
        Column::U16(_) => 4u8,
        Column::I32(_) => 5u8,
        Column::U32(_) => 6u8,
        Column::I64(_) => 7u8,
        Column::U64(_) => 8u8,
        Column::F32(_) => 9u8,
        Column::F64(_) => 10u8,
        Column::VecBool(_) => 11u8,
        Column::VecI8(_) => 12u8,
        Column::VecU8(_) => 13u8,
        Column::VecI16(_) => 14u8,
        Column::VecU16(_) => 15u8,
        Column::VecI32(_) => 16u8,
        Column::VecU32(_) => 17u8,
        Column::VecI64(_) => 18u8,
        Column::VecU64(_) => 19u8,
        Column::VecF32(_) => 20u8,
        Column::VecF64(_) => 21u8,
        Column::Str(_) => 22u8,
        Column::VecStr(_) => 23u8,
        Column::Nested(_, _) => 24u8,
    }
}

/// Which variant of [`BranchValues`] some values are.
pub fn values_variant(v: &BranchValues) -> (r: u8)
    ensures
        r == variant_of(v@),
{
    match v {
        BranchValues::Bool(_) => 0,
        BranchValues::I8(_) => 1,
        BranchValues::U8(_) => 2,
        BranchValues::I16(_) => 3,
        BranchValues::U16(_) => 4,
        BranchValues::I32(_) => 5,
        BranchValues::U32(_) => 6,
        BranchValues::I64(_) => 7,
        BranchValues::U64(_) => 8,
        BranchValues::F32(_) => 9,
        BranchValues::F64(_) => 10,
        BranchValues::VecBool(_) => 11,
        BranchValues::VecI8(_) => 12,
        BranchValues::VecU8(_) => 13,
        BranchValues::VecI16(_) => 14,
        BranchValues::VecU16(_) => 15,
        BranchValues::VecI32(_) => 16,
        BranchValues::VecU32(_) => 17,
        BranchValues::VecI64(_) => 18,
        BranchValues::VecU64(_) => 19,
        BranchValues::VecF32(_) => 20,
        BranchValues::VecF64(_) => 21,
        BranchValues::Str(_) => 22,
        BranchValues::VecStr(_) => 23,
        BranchValues::Nested { .. } => 24,
    }
}

/// A column's identity, which every batch must keep: its name, value
/// variant, jagged and `std::vector` flags, and entry width.
pub struct ColSig {
    pub name: String,
    pub variant: u8,
    pub jagged: bool,
    pub stl_vector: bool,
    pub flen: i32,
}

/// What a [`ColSig`] holds.
pub struct SigView {
    pub name: Seq<char>,
    pub variant: u8,
    pub jagged: bool,
    pub stl_vector: bool,
    pub flen: i32,
}

impl View for ColSig {
    type V = SigView;

    open spec fn view(&self) -> SigView {
        SigView {
            name: self.name@,
            variant: self.variant,
            jagged: self.jagged,
            stl_vector: self.stl_vector,
            flen: self.flen,
        }
    }
}

/// The identity of branch `b`'s column.
pub open spec fn sig_of(b: Branch) -> SigView {
    SigView {
        name: b.name_of(),
        variant: variant_of(b.values_of()),
        jagged: b.kind_of() is Jagged,
        stl_vector: b.kind_of() is StlVector,
        flen: b.spec_flen(),
    }
}

/// The identities of the columns of `bs`.
pub open spec fn sigs_of(bs: Seq<Branch>) -> Seq<SigView> {
    bs.map_values(|b: Branch| sig_of(b))
}

/// The views of some identities.
pub open spec fn sig_views(v: Seq<ColSig>) -> Seq<SigView> {
    v.map_values(|s: ColSig| s@)
}

/// The identity of branch `b`'s column (see [`sig_of`]).
pub fn col_sig(b: &Branch) -> (r: ColSig)
    ensures
        r@ == sig_of(*b),
{
    ColSig {
        name: b.name.clone(),
        variant: values_variant(&b.values),
        jagged: b.jagged(),
        stl_vector: b.stl_vector(),
        flen: b.flen(),
    }
}

/// The identities of the columns of `bs`.
fn col_sigs(bs: &[Branch]) -> (r: Vec<ColSig>)
    ensures
        sig_views(r@) == sigs_of(bs@),
{
    let mut out: Vec<ColSig> = Vec::new();
    let mut i: usize = 0;
    while i < bs.len()
        invariant
            i <= bs@.len(),
            sig_views(out@) == sigs_of(bs@.take(i as int)),
        decreases bs@.len() - i,
    {
        let ghost before = out@;
        out.push(col_sig(&bs[i]));
        proof {
            assert(bs@.take(i + 1) =~= bs@.take(i as int).push(bs@[i as int]));
            assert(sig_views(out@) =~= sig_views(before).push(sig_of(bs@[i as int])));
            assert(sig_views(out@) =~= sigs_of(bs@.take(i + 1)));
        }
        i += 1;
    }
    assert(bs@.take(i as int) =~= bs@);
    out
}

/// Whether two lists of identities are the same.
fn same_sigs(a: &Vec<ColSig>, b: &Vec<ColSig>) -> (r: bool)
    ensures
        r == (sig_views(a@) == sig_views(b@)),
{
    if a.len() != b.len() {
        assert(sig_views(a@).len() != sig_views(b@).len());
        return false;
    }
    let mut i: usize = 0;
    while i < a.len()
        invariant
            i <= a@.len(),
            a@.len() == b@.len(),
            forall|j: int| 0 <= j < i ==> sig_views(a@)[j] == sig_views(b@)[j],
        decreases a@.len() - i,
    {
        let x = &a[i];
        let y = &b[i];
        if !(str_eq(x.name.as_str(), y.name.as_str()) && x.variant == y.variant && x.jagged == y.jagged
            && x.stl_vector == y.stl_vector && x.flen == y.flen) {
            assert(sig_views(a@)[i as int] != sig_views(b@)[i as int]);
            return false;
        }
        i += 1;
    }
    assert(sig_views(a@) =~= sig_views(b@));
    true
}

/// Whether branch `b` cannot go into a streamed batch: a split collection
/// is not supported, and a fixed array's rows must have one length.
pub open spec fn stream_issue(b: Branch) -> bool {
    b.kind_of() is Split || (!(b.kind_of() is Jagged) && !(b.kind_of() is StlVector) && ragged(b.values_of().lens()))
}

/// The first branch of `bs`, from `i` on, that cannot go into a streamed
/// batch.
pub open spec fn first_stream_issue(bs: Seq<Branch>, i: int) -> Option<int>
    decreases bs.len() - i,
{
    if i < 0 || i >= bs.len() {
        None
    } else if stream_issue(bs[i]) {
        Some(i)
    } else {
        first_stream_issue(bs, i + 1)
    }
}

/// The error for a branch that cannot be streamed: a split collection is
/// unsupported; a fixed array with rows of differing lengths is named.
pub open spec fn stream_error(b: Branch, e: Error) -> bool {
    if b.kind_of() is Split {
        e == Error::Unsupported(Issue::StreamedSplitBranch)
    } else {
        e matches Error::RaggedRows { branch } && branch@ == b.name_of()
    }
}

/// Why a batch's schema is refused.
pub open spec fn schema_detail() -> Seq<char> {
    "this batch's branch schema differs from the first batch's"@
}

/// How a streamed column's leaf follows the data: a data column needs
/// nothing, a count column keeps its largest count, a string column its
/// longest string + 1.
#[derive(Debug, Clone, Copy, PartialEq, Eq, Structural)]
pub enum ColAgg {
    Data,
    Count(i64),
    Str(i32),
}

/// What stands for a streamed column in the tree object: the name, the
/// values and the kind of the branch that stands for it, and its
/// aggregate.
pub struct ColDesc {
    pub name: Seq<char>,
    pub values: Column,
    pub kind: BranchKind,
    pub agg: ColAgg,
}

/// `n` zero characters.
pub open spec fn nuls(n: nat) -> Seq<char> {
    Seq::new(n, |i: int| '\0')
}

/// The values of the one-string column whose `TLeafC` length is `len`:
/// one string of `len - 1` zero characters (none when `len` is below 1).
pub open spec fn str_rep_col(len: i32) -> Column {
    Column::Str(seq![nuls(if len > 1 { (len - 1) as nat } else { 0 })])
}

/// The kind a slice of a branch of kind `k` takes (see
/// [`Branch::chunk_kind`]).
pub open spec fn chunk_kind_of(k: BranchKind) -> BranchKind {
    match k {
        BranchKind::Jagged => BranchKind::Jagged,
        BranchKind::StlVector => BranchKind::StlVector,
        BranchKind::Count => BranchKind::Count,
        _ => BranchKind::Plain,
    }
}

/// The largest row length of branch `b`.
pub open spec fn count_max(b: Branch) -> i64 {
    spec_leaf_max(Column::I32(lens_i32(b.values_of().lens())))
}

/// The columns the first batch's branch `b` opens: a jagged branch's count
/// column (standing for it, one `Int_t`, its largest count), then `b`'s
/// own column, stood for by a string of its `TLeafC` length for a string
/// branch and by its first entry otherwise.
pub open spec fn first_cols(b: Branch) -> Seq<ColDesc> {
    let count: Seq<ColDesc> = if b.kind_of() is Jagged {
        seq![
            ColDesc {
                name: "n"@ + b.name_of(),
                values: Column::I32(seq![count_max(b) as i32]),
                kind: BranchKind::Count,
                agg: ColAgg::Count(count_max(b)),
            },
        ]
    } else {
        Seq::empty()
    };
    let data = if b.spec_kind() is Str {
        ColDesc {
            name: b.name_of(),
            values: str_rep_col(spec_str_len(b.values_of())),
            kind: chunk_kind_of(*b.kind_of()),
            agg: ColAgg::Str(spec_str_len(b.values_of())),
        }
    } else {
        ColDesc {
            name: b.name_of(),
            values: slice_model(b.values_of(), 0, 1),
            kind: chunk_kind_of(*b.kind_of()),
            agg: ColAgg::Data,
        }
    };
    count.push(data)
}

/// The columns the first batch opens, in order.
pub open spec fn init_cols(bs: Seq<Branch>) -> Seq<ColDesc>
    decreases bs.len(),
{
    if bs.len() == 0 {
        Seq::empty()
    } else {
        init_cols(bs.drop_last()) + first_cols(bs.last())
    }
}

/// The values a batch's branch `b` adds to its columns: a jagged branch's
/// row lengths, then its values.
pub open spec fn branch_cols(b: Branch) -> Seq<Column> {
    if b.kind_of() is Jagged {
        seq![Column::I32(lens_i32(b.values_of().lens())), b.values_of()]
    } else {
        seq![b.values_of()]
    }
}

/// The values a batch adds to each column, in order.
pub open spec fn batch_cols(bs: Seq<Branch>) -> Seq<Column>
    decreases bs.len(),
{
    if bs.len() == 0 {
        Seq::empty()
    } else {
        batch_cols(bs.drop_last()) + branch_cols(bs.last())
    }
}

/// The number of columns of a schema: two for a jagged branch, else one.
pub open spec fn col_count(sigs: Seq<SigView>) -> nat
    decreases sigs.len(),
{
    if sigs.len() == 0 {
        0
    } else {
        col_count(sigs.drop_last()) + if sigs.last().jagged {
            2nat
        } else {
            1nat
        }
    }
}

/// Column `d` after a batch added the values `x`: a count column takes a
/// larger count, a string column a longer string.
pub open spec fn emitted(d: ColDesc, x: Column) -> ColDesc {
    match d.agg {
        ColAgg::Count(m) => if spec_leaf_max(x) > m {
            ColDesc {
                name: d.name,
                values: Column::I32(seq![spec_leaf_max(x) as i32]),
                kind: d.kind,
                agg: ColAgg::Count(spec_leaf_max(x)),
            }
        } else {
            d
        },
        ColAgg::Str(len) => if spec_str_len(x) > len {
            ColDesc { name: d.name, values: str_rep_col(spec_str_len(x)), kind: d.kind, agg: ColAgg::Str(spec_str_len(x)) }
        } else {
            d
        },
        ColAgg::Data => d,
    }
}

/// A tree written batch by batch: one column per effective branch (a
/// jagged branch's count column first), each with a branch standing for
/// it, its basket records and its aggregate; the first batch's schema;
/// and the entries written so far.
pub struct TreeWriter {
    tree_name: String,
    reps: Vec<Branch>,
    baskets: Vec<Vec<BasketRec>>,
    aggs: Vec<ColAgg>,
    schema: Option<Vec<ColSig>>,
    total_entries: i64,
}

/// What a [`TreeWriter`] holds.
pub struct WriterView {
    pub tree_name: Seq<char>,
    pub cols: Seq<ColDesc>,
    pub baskets: Seq<Seq<BasketRec>>,
    pub schema: Option<Seq<SigView>>,
    pub total: i64,
}

impl View for TreeWriter {
    type V = WriterView;

    closed spec fn view(&self) -> WriterView {
        WriterView {
            tree_name: self.tree_name@,
            cols: Seq::new(
                self.reps@.len(),
                |j: int|
                    ColDesc {
                        name: self.reps@[j].name_of(),
                        values: self.reps@[j].values_of(),
                        kind: *self.reps@[j].kind_of(),
                        agg: self.aggs@[j],
                    },
            ),
            baskets: group_views(self.baskets@),
            schema: match self.schema {
                Some(s) => Some(sig_views(s@)),
                None => None,
            },
            total: self.total_entries,
        }
    }
}

/// A column that can stand in the tree object: not a split collection,
/// not doubly nested, with strings that fit.
pub open spec fn col_ok(d: ColDesc) -> bool {
    &&& !(d.kind is Split)
    &&& !(d.values is Nested)
    &&& strings_fit(d.values)
}

impl TreeWriter {
    /// The branches standing for the columns.
    pub closed spec fn reps_of(&self) -> Seq<Branch> {
        self.reps@
    }

    /// The writer's parts agree: one aggregate and one basket list per
    /// column, no column before the first batch and one per effective
    /// branch after it, and every column fit for the tree object.
    pub closed spec fn wf(&self) -> bool {
        &&& self.aggs@.len() == self.reps@.len()
        &&& self.baskets@.len() == self.reps@.len()
        &&& match self.schema {
            None => self.reps@.len() == 0,
            Some(s) => self.reps@.len() == col_count(sig_views(s@)),
        }
        &&& forall|j: int| 0 <= j < self@.cols.len() ==> col_ok(#[trigger] self@.cols[j])
    }

    /// A writer for a tree named `tree_name`, before any batch.
    pub fn new(tree_name: &str) -> (r: TreeWriter)
        ensures
            r.wf(),
            r@.tree_name == tree_name@,
            r@.cols.len() == 0,
            r@.baskets.len() == 0,
            total_size(r@.baskets) == 0,
            r@.schema is None,
            r@.total == 0,
    {
        let r = TreeWriter {
            tree_name: tree_name.to_string(),
            reps: Vec::new(),
            baskets: Vec::new(),
            aggs: Vec::new(),
            schema: None,
            total_entries: 0,
        };
        assert(r@.cols.len() == 0);
        assert(r@.baskets.len() == 0);
        r
    }

    /// The tree's name.
    pub fn name(&self) -> (r: &str)
        ensures
            r@ == self@.tree_name,
    {
        self.tree_name.as_str()
    }

    /// Total entries appended so far.
    pub fn num_entries(&self) -> (r: i64)
        ensures
            r == self@.total,
    {
        self.total_entries
    }
}

/// What [`TreeWriter::check_batch`] answers for a writer whose schema is
/// `schema`: the batch's entry count when it is accepted (0 for an empty
/// batch), `None` when it is refused.
pub open spec fn batch_verdict(schema: Option<Seq<SigView>>, bs: Seq<Branch>) -> Option<u32> {
    if first_stream_issue(bs, 0) is Some || !counts_agree(bs) {
        None
    } else if expected_entries(bs) == 0 {
        Some(0)
    } else if schema matches Some(s) && s != sigs_of(bs) {
        None
    } else {
        Some(expected_entries(bs))
    }
}

/// What [`TreeWriter::record_batch`] asks of the batch itself and of the
/// writer's schema.
pub open spec fn record_ready(schema: Option<Seq<SigView>>, bs: Seq<Branch>) -> bool {
    &&& first_stream_issue(bs, 0) is None
    &&& counts_agree(bs)
    &&& expected_entries(bs) > 0
    &&& schema matches Some(s) ==> s == sigs_of(bs)
}

/// A streamed batch either changes nothing or adds its entry count. A batch
/// that the check refuses, or accepts with no entries, is not recorded, and
/// the check only reads the writer; a batch it accepts with `n > 0` entries
/// meets what recording asks of it, and recording it (see
/// [`TreeWriter::record_batch`]) leaves the writer with exactly `n` entries
/// more and the batch's schema.
pub proof fn lemma_streamed_batch(schema: Option<Seq<SigView>>, bs: Seq<Branch>)
    ensures
        forall|n: u32|
            batch_verdict(schema, bs) == Some(n) && n > 0 ==> record_ready(schema, bs) && expected_entries(bs)
                == n,
        record_ready(schema, bs) ==> batch_verdict(schema, bs) == Some(expected_entries(bs)),
{
}

impl TreeWriter {
    /// Check a batch before its baskets are written: the first branch
    /// that cannot be streamed gives its error; then the entry counts must
    /// agree (the first branch that differs is named); an empty batch is
    /// `Ok(0)` and changes nothing; a batch whose schema differs from the
    /// first batch's is refused; any other gives its entry count.
    pub fn check_batch(&self, branches: &[Branch]) -> (r: Result<u32, Error>)
        requires
            no_nested(branches@),
        ensures
            match batch_verdict(self@.schema, branches@) {
                Some(n) => r == Ok::<u32, Error>(n),
                None => r is Err,
            },
            match first_stream_issue(branches@, 0) {
                Some(k) => r matches Err(e) && stream_error(branches@[k], e),
                None => if !counts_agree(branches@) {
                    r matches Err(e) && count_error(branches@, e)
                } else if expected_entries(branches@) == 0 {
                    r == Ok::<u32, Error>(0)
                } else if self@.schema matches Some(s) && s != sigs_of(branches@) {
                    r matches Err(Error::SchemaChanged { detail }) && detail@ == schema_detail()
                } else {
                    r == Ok::<u32, Error>(expected_entries(branches@))
                },
            },
    {
        let mut i: usize = 0;
        while i < branches.len()
            invariant
                i <= branches@.len(),
                first_stream_issue(branches@, 0) == first_stream_issue(branches@, i as int),
            decreases branches@.len() - i,
        {
            let b = &branches[i];
            if b.split().is_some() {
                return Err(Error::Unsupported(Issue::StreamedSplitBranch));
            }
            if !b.jagged() && !b.stl_vector() && b.is_jagged() {
                return Err(Error::RaggedRows { branch: b.name.clone() });
            }
            i += 1;
        }
        match check_entry_counts(branches) {
            Ok(()) => {},
            Err(e) => {
                return Err(e);
            },
        }
        let n = if branches.len() == 0 {
            0
        } else {
            branches[0].n_entries()
        };
        if n == 0 {
            return Ok(0);
        }
        match &self.schema {
            Some(prev) => {
                let sig = col_sigs(branches);
                if !same_sigs(prev, &sig) {
                    let detail = "this batch's branch schema differs from the first batch's".to_string();
                    return Err(Error::SchemaChanged { detail });
                }
            },
            None => {},
        }
        Ok(n)
    }
}

/// `n` zero characters take `n` bytes.
proof fn lemma_nuls_bytes(n: nat)
    ensures
        encode_utf8(nuls(n)).len() == n,
    decreases n,
{
    if n > 0 {
        assert(nuls(n).drop_first() =~= nuls((n - 1) as nat));
        lemma_nuls_bytes((n - 1) as nat);
        assert(('\0' as u32) == 0u32);
    }
}

/// The values of the one-string column whose `TLeafC` length is `len`
/// (see [`str_rep_col`]).
fn str_rep(len: i32) -> (r: BranchValues)
    ensures
        r@ == str_rep_col(len),
        strings_fit(r@),
{
    let n: i32 = if len > 1 {
        len - 1
    } else {
        0
    };
    let mut text = String::new();
    let mut k: i32 = 0;
    proof {
        reveal_strlit("\0");
    }
    while k < n
        invariant
            0 <= k <= n,
            text@ == nuls(k as nat),
        decreases n - k,
    {
        proof {
            reveal_strlit("\0");
        }
        text = concat_str(text.as_str(), "\0");
        assert(text@ =~= nuls((k + 1) as nat));
        k += 1;
    }
    proof {
        lemma_nuls_bytes(n as nat);
    }
    let ghost t = text@;
    let v: Vec<String> = vec![text];
    assert(v@.len() == 1 && v@[0]@ == t);
    assert(crate::value::texts(v@) =~= seq![nuls(n as nat)]);
    BranchValues::Str(v)
}

/// A schema has as many columns as its batch adds values to.
proof fn lemma_col_counts(bs: Seq<Branch>)
    ensures
        batch_cols(bs).len() == col_count(sigs_of(bs)),
        init_cols(bs).len() == col_count(sigs_of(bs)),
    decreases bs.len(),
{
    if bs.len() > 0 {
        lemma_col_counts(bs.drop_last());
        assert(sigs_of(bs).drop_last() =~= sigs_of(bs.drop_last()));
    }
}

/// The values the first `k` branches add come first.
proof fn lemma_batch_cols_prefix(bs: Seq<Branch>, k: int)
    requires
        0 <= k <= bs.len(),
    ensures
        batch_cols(bs.take(k)).len() <= batch_cols(bs).len(),
        batch_cols(bs).take(batch_cols(bs.take(k)).len() as int) == batch_cols(bs.take(k)),
    decreases bs.len(),
{
    if k == bs.len() {
        assert(bs.take(k) =~= bs);
        assert(batch_cols(bs).take(batch_cols(bs).len() as int) =~= batch_cols(bs));
    } else {
        assert(bs.drop_last().take(k) =~= bs.take(k));
        lemma_batch_cols_prefix(bs.drop_last(), k);
        let p = batch_cols(bs.take(k));
        assert(batch_cols(bs).take(p.len() as int) =~= batch_cols(bs.drop_last()).take(p.len() as int));
    }
}

/// The columns the first `k` branches open come first.
proof fn lemma_init_cols_prefix(bs: Seq<Branch>, k: int)
    requires
        0 <= k <= bs.len(),
    ensures
        init_cols(bs.take(k)).len() <= init_cols(bs).len(),
        init_cols(bs).take(init_cols(bs.take(k)).len() as int) == init_cols(bs.take(k)),
    decreases bs.len(),
{
    if k == bs.len() {
        assert(bs.take(k) =~= bs);
        assert(init_cols(bs).take(init_cols(bs).len() as int) =~= init_cols(bs));
    } else {
        assert(bs.drop_last().take(k) =~= bs.take(k));
        lemma_init_cols_prefix(bs.drop_last(), k);
        let p = init_cols(bs.take(k));
        assert(init_cols(bs).take(p.len() as int) =~= init_cols(bs.drop_last()).take(p.len() as int));
    }
}

impl TreeWriter {
    /// Add the basket record `rec` and the batch branch `x` to column
    /// `col` (see [`emitted`]).
    fn emit(&mut self, col: usize, x: &Branch, rec: BasketRec)
        requires
            col < old(self).reps@.len(),
            old(self).aggs@.len() == old(self).reps@.len(),
            old(self).baskets@.len() == old(self).reps@.len(),
            strings_fit(x.values_of()),
        ensures
            final(self).reps@.len() == old(self).reps@.len(),
            final(self).aggs@.len() == old(self).aggs@.len(),
            final(self).baskets@.len() == old(self).baskets@.len(),
            final(self).tree_name == old(self).tree_name,
            final(self).schema == old(self).schema,
            final(self).total_entries == old(self).total_entries,
            final(self)@.cols == old(self)@.cols.update(col as int, emitted(old(self)@.cols[col as int], x.values_of())),
            final(self)@.baskets == old(self)@.baskets.update(col as int, old(self)@.baskets[col as int].push(rec)),
    {
        let ghost old_cols = self@.cols;
        let mut g = self.baskets.remove(col);
        g.push(rec);
        self.baskets.insert(col, g);
        match self.aggs[col] {
            ColAgg::Count(m) => {
                let bm = x.leaf_max();
                if bm > m {
                    self.aggs.set(col, ColAgg::Count(bm));
                    let mut r = self.reps.remove(col);
                    let one: Vec<i32> = vec![bm as i32];
                    assert(one@ =~= seq![bm as i32]);
                    r.values = BranchValues::I32(one);
                    self.reps.insert(col, r);
                }
            },
            ColAgg::Str(len) => {
                let bl = x.str_len();
                if bl > len {
                    self.aggs.set(col, ColAgg::Str(bl));
                    let mut r = self.reps.remove(col);
                    r.values = str_rep(bl);
                    self.reps.insert(col, r);
                }
            },
            ColAgg::Data => {},
        }
        assert(self@.cols =~= old_cols.update(col as int, emitted(old_cols[col as int], x.values_of())));
        assert(self@.baskets =~= old(self)@.baskets.update(col as int, old(self)@.baskets[col as int].push(rec)));
    }

    /// Open the columns of the first batch (see [`init_cols`]).
    fn init_columns(&mut self, branches: &[Branch])
        requires
            old(self).reps@.len() == 0,
            old(self).aggs@.len() == 0,
            old(self).baskets@.len() == 0,
            no_nested(branches@),
            forall|i: int| 0 <= i < branches@.len() ==> strings_fit(#[trigger] branches@[i].values_of()),
            forall|i: int| 0 <= i < branches@.len() ==> !(#[trigger] branches@[i].kind_of() is Split),
        ensures
            final(self).tree_name == old(self).tree_name,
            final(self).schema == old(self).schema,
            final(self).total_entries == old(self).total_entries,
            final(self).aggs@.len() == final(self).reps@.len(),
            final(self).baskets@.len() == final(self).reps@.len(),
            final(self)@.cols == init_cols(branches@),
            forall|j: int| 0 <= j < final(self)@.baskets.len() ==> (#[trigger] final(self)@.baskets[j]).len() == 0,
            forall|j: int| 0 <= j < final(self)@.cols.len() ==> col_ok(#[trigger] final(self)@.cols[j]),
    {
        let mut i: usize = 0;
        while i < branches.len()
            invariant
                i <= branches@.len(),
                no_nested(branches@),
                forall|k: int| 0 <= k < branches@.len() ==> strings_fit(#[trigger] branches@[k].values_of()),
                forall|k: int| 0 <= k < branches@.len() ==> !(#[trigger] branches@[k].kind_of() is Split),
                self.tree_name == old(self).tree_name,
                self.schema == old(self).schema,
                self.total_entries == old(self).total_entries,
                self.aggs@.len() == self.reps@.len(),
                self.baskets@.len() == self.reps@.len(),
                self@.cols == init_cols(branches@.take(i as int)),
                forall|j: int| 0 <= j < self@.baskets.len() ==> (#[trigger] self@.baskets[j]).len() == 0,
                forall|j: int| 0 <= j < self@.cols.len() ==> col_ok(#[trigger] self@.cols[j]),
            decreases branches@.len() - i,
        {
            let b = &branches[i];
            let ghost before = self@.cols;
            let ghost bk_before = self@.baskets;
            proof {
                assert(branches@.take(i + 1).drop_last() =~= branches@.take(i as int));
                assert(branches@.take(i + 1).last() == *b);
            }
            match b.count_branch() {
                Some(count) => {
                    let m = count.leaf_max();
                    let one: Vec<i32> = vec![m as i32];
                    assert(one@ =~= seq![m as i32]);
                    self.reps.push(Branch { name: count.name.clone(), values: BranchValues::I32(one), kind: BranchKind::Count });
                    self.aggs.push(ColAgg::Count(m));
                    self.baskets.push(Vec::new());
                },
                None => {},
            }
            let ghost mid = self@.cols;
            let (agg, values) = if b.kind() == Kind::Str {
                let len = b.str_len();
                (ColAgg::Str(len), str_rep(len))
            } else {
                proof {
                    if b.values_of() is Str {
                        let c = b.values_of();
                        assert(strings_fit(slice_model(c, 0, 1)));
                    }
                }
                (ColAgg::Data, chunk_values(&b.values, 0, 1))
            };
            self.reps.push(Branch { name: b.name.clone(), values, kind: b.chunk_kind() });
            self.aggs.push(agg);
            self.baskets.push(Vec::new());
            proof {
                assert(self@.cols =~= before + first_cols(*b));
                assert forall|j: int| 0 <= j < self@.baskets.len() implies (#[trigger] self@.baskets[j]).len() == 0 by {
                    if j < bk_before.len() {
                        assert(self@.baskets[j] == bk_before[j]);
                    }
                }
            }
            i += 1;
        }
        assert(branches@.take(i as int) =~= branches@);
    }
}

impl TreeWriter {
    /// Record a checked batch whose baskets were written, one per column in
    /// column order with the records `recs` (see [`batch_cols`]): the first
    /// batch opens the columns and fixes the schema; every column gets its
    /// record and follows its aggregate (see [`emitted`]); the entries are
    /// added up.
    pub fn record_batch(&mut self, branches: &[Branch], recs: &[BasketRec])
        requires
            old(self).wf(),
            no_nested(branches@),
            forall|i: int| 0 <= i < branches@.len() ==> strings_fit(#[trigger] branches@[i].values_of()),
            record_ready(old(self)@.schema, branches@),
            recs@.len() == batch_cols(branches@).len(),
            old(self)@.total + expected_entries(branches@) <= i64::MAX,
        ensures
            final(self).wf(),
            final(self)@.tree_name == old(self)@.tree_name,
            final(self)@.schema == Some(sigs_of(branches@)),
            final(self)@.total == old(self)@.total + expected_entries(branches@),
            ({
                let cols0 = if old(self)@.schema is None {
                    init_cols(branches@)
                } else {
                    old(self)@.cols
                };
                let bk0 = if old(self)@.schema is None {
                    Seq::new(cols0.len(), |j: int| Seq::<BasketRec>::empty())
                } else {
                    old(self)@.baskets
                };
                &&& final(self)@.cols == Seq::new(
                    cols0.len(),
                    |j: int| emitted(cols0[j], batch_cols(branches@)[j]),
                )
                &&& final(self)@.baskets == Seq::new(cols0.len(), |j: int| bk0[j].push(recs@[j]))
            }),
    {
        proof {
            lemma_col_counts(branches@);
            lemma_no_split(branches@, 0);
        }
        let first = self.schema.is_none();
        if first {
            self.init_columns(branches);
            let ghost bki = self@.baskets;
            proof {
                assert forall|j: int| 0 <= j < bki.len() implies #[trigger] bki[j] == Seq::<BasketRec>::empty() by {
                    assert(bki[j] =~= Seq::<BasketRec>::empty());
                }
            }
            self.schema = Some(col_sigs(branches));
            assert(self@.baskets == bki);
        }
        let ghost cols0 = self@.cols;
        let ghost bk0 = self@.baskets;
        let ghost bc = batch_cols(branches@);
        assert(cols0.len() == bc.len());
        proof {
            if old(self)@.schema is None {
                assert(cols0 == init_cols(branches@));
                assert(bk0 =~= Seq::new(cols0.len(), |j: int| Seq::<BasketRec>::empty()));
            } else {
                assert(cols0 == old(self)@.cols);
                assert(bk0 == old(self)@.baskets);
            }
        }
        let mut col: usize = 0;
        let mut i: usize = 0;
        while i < branches.len()
            invariant
                i <= branches@.len(),
                bc == batch_cols(branches@),
                forall|k: int| 0 <= k < branches@.len() ==> strings_fit(#[trigger] branches@[k].values_of()),
                recs@.len() == bc.len(),
                cols0.len() == bc.len(),
                bk0.len() == bc.len(),
                col == batch_cols(branches@.take(i as int)).len(),
                self.reps@.len() == bc.len(),
                self.aggs@.len() == bc.len(),
                self.baskets@.len() == bc.len(),
                self.tree_name == old(self).tree_name,
                self.total_entries == old(self).total_entries,
                self.schema matches Some(s) && sig_views(s@) == sigs_of(branches@),
                forall|j: int| 0 <= j < col ==> #[trigger] self@.cols[j] == emitted(cols0[j], bc[j]),
                forall|j: int| col <= j < bc.len() ==> #[trigger] self@.cols[j] == cols0[j],
                forall|j: int| 0 <= j < col ==> #[trigger] self@.baskets[j] == bk0[j].push(recs@[j]),
                forall|j: int| col <= j < bc.len() ==> #[trigger] self@.baskets[j] == bk0[j],
                forall|j: int| 0 <= j < bc.len() ==> col_ok(#[trigger] cols0[j]),
            decreases branches@.len() - i,
        {
            let b = &branches[i];
            proof {
                lemma_batch_cols_prefix(branches@, i as int + 1);
                assert(branches@.take(i + 1).drop_last() =~= branches@.take(i as int));
                assert(branches@.take(i + 1).last() == *b);
                let p = batch_cols(branches@.take(i + 1));
                assert(p == batch_cols(branches@.take(i as int)) + branch_cols(*b));
                assert(forall|j: int| 0 <= j < p.len() ==> bc[j] == #[trigger] p[j]) by {
                    assert forall|j: int| 0 <= j < p.len() implies bc[j] == #[trigger] p[j] by {
                        assert(bc.take(p.len() as int)[j] == bc[j]);
                    }
                }
                assert(p[col as int] == branch_cols(*b)[0]);
                if b.kind_of() is Jagged {
                    assert(p[col + 1] == branch_cols(*b)[1]);
                }
            }
            match b.count_branch() {
                Some(count) => {
                    assert(bc[col as int] == count.values_of());
                    self.emit(col, &count, recs[col]);
                    col += 1;
                },
                None => {},
            }
            assert(bc[col as int] == b.values_of());
            self.emit(col, b, recs[col]);
            col += 1;
            i += 1;
        }
        proof {
            assert(branches@.take(i as int) =~= branches@);
            assert(col == bc.len());
            assert(self@.cols =~= Seq::new(cols0.len(), |j: int| emitted(cols0[j], bc[j])));
            assert(self@.baskets =~= Seq::new(cols0.len(), |j: int| bk0[j].push(recs@[j])));
        }
        self.total_entries = self.total_entries + expected_entries_of(branches) as i64;
        proof {
            assert forall|j: int| 0 <= j < self@.cols.len() implies col_ok(#[trigger] self@.cols[j]) by {
                lemma_emitted_ok(cols0[j], bc[j]);
            }
        }
    }

    /// The `TTree` object of the tree written so far (see
    /// [`tree_object_bytes`]): its entries, the branches standing for the
    /// columns, their basket records and the size of all of them. Refused
    /// before any batch.
    pub fn finish_object(&self, big: bool) -> (r: Result<Vec<u8>, Error>)
        requires
            self.wf(),
            encode_utf8(self@.tree_name).len() < u32::MAX - 64,
            total_size(self@.baskets) <= i64::MAX,
        ensures
            self@.schema is None ==> r == Err::<Vec<u8>, Error>(Error::InvalidInput(Issue::NoBatches)),
            self@.schema is Some ==> (r matches Ok(b) && b@ == tree_object_bytes(
                self@.tree_name,
                self.reps_of(),
                self@.baskets,
                self@.total,
                total_size(self@.baskets) as i64,
                tree_key_len(self@.tree_name, big) as u32,
            )),
    {
        if self.schema.is_none() {
            return Err(Error::InvalidInput(Issue::NoBatches));
        }
        let mut eff: Vec<&Branch> = Vec::new();
        let mut i: usize = 0;
        while i < self.reps.len()
            invariant
                i <= self.reps@.len(),
                derefs(eff@) == self.reps@.take(i as int),
            decreases self.reps@.len() - i,
        {
            let ghost before = eff@;
            eff.push(&self.reps[i]);
            assert(derefs(eff@) =~= derefs(before).push(self.reps@[i as int]));
            assert(derefs(eff@) =~= self.reps@.take(i as int + 1));
            i += 1;
        }
        assert(self.reps@.take(i as int) =~= self.reps@);
        let ghost gv = group_views(self.baskets@);
        assert(forall|k: int| 0 <= k < written(derefs(eff@), gv) ==> #[trigger] record_ok(derefs(eff@)[k], self.baskets@[k]@)) by {
            assert forall|k: int| 0 <= k < written(derefs(eff@), gv) implies #[trigger] record_ok(derefs(eff@)[k], self.baskets@[k]@) by {
                assert(col_ok(self@.cols[k]));
            }
        }
        let tot = total_bytes_of(&self.baskets);
        Ok(build_tree_object(self.tree_name.as_str(), &eff, &self.baskets, self.total_entries, tot, big))
    }
}

/// The entry count of a batch (0 without branches).
fn expected_entries_of(branches: &[Branch]) -> (r: u32)
    requires
        no_nested(branches@),
    ensures
        r == expected_entries(branches@),
{
    if branches.len() == 0 {
        0
    } else {
        branches[0].n_entries()
    }
}

/// The size of all basket records.
fn total_bytes_of(groups: &Vec<Vec<BasketRec>>) -> (r: i64)
    requires
        total_size(group_views(groups@)) <= i64::MAX,
    ensures
        r == total_size(group_views(groups@)),
{
    let ghost gv = group_views(groups@);
    let mut tot: i64 = 0;
    let mut i: usize = 0;
    while i < groups.len()
        invariant
            i <= groups@.len(),
            gv == group_views(groups@),
            total_size(gv) <= i64::MAX,
            tot == total_size(gv.take(i as int)),
        decreases groups@.len() - i,
    {
        let g = &groups[i];
        let mut k: usize = 0;
        proof {
            lemma_total_size_prefix(gv, i as int + 1);
            assert(gv.take(i + 1).drop_last() =~= gv.take(i as int));
            assert(gv.take(i + 1).last() == g@);
        }
        while k < g.len()
            invariant
                k <= g@.len(),
                i < groups@.len(),
                gv == group_views(groups@),
                g@ == gv[i as int],
                total_size(gv.take(i as int)) + group_size(g@, g@.len() as int) <= i64::MAX,
                tot == total_size(gv.take(i as int)) + group_size(g@, k as int),
            decreases g@.len() - k,
        {
            proof {
                lemma_group_size_mono(g@, k as int + 1, g@.len() as int);
            }
            tot = tot + g[k].nbytes as i64;
            k += 1;
        }
        i += 1;
    }
    assert(gv.take(i as int) =~= gv);
    tot
}

/// A batch with no branch that cannot be streamed has no split collection.
proof fn lemma_no_split(bs: Seq<Branch>, i: int)
    requires
        0 <= i <= bs.len(),
        first_stream_issue(bs, i) is None,
    ensures
        forall|k: int| i <= k < bs.len() ==> !(#[trigger] bs[k].kind_of() is Split),
    decreases bs.len() - i,
{
    if i < bs.len() {
        lemma_no_split(bs, i + 1);
    }
}

/// A column stays fit for the tree object as batches come.
proof fn lemma_emitted_ok(d: ColDesc, x: Column)
    requires
        col_ok(d),
    ensures
        col_ok(emitted(d, x)),
{
    if d.agg is Str {
        let len = spec_str_len(x);
        let n: nat = if len > 1 { (len - 1) as nat } else { 0 };
        lemma_nuls_bytes(n);
    }
}

} // verus!
