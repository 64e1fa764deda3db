//! `TEntryList` — a persisted set of selected `TTree` entry numbers.
//!
//! A `TEntryList` is a standalone key (not part of a `TTree`). It records
//! which entries of a tree passed a selection, so an analysis can replay just
//! those entries. The passing entries are stored in one or more
//! `TEntryListBlock`s, each covering a fixed window of [`K_BLOCK_SIZE`]
//! entries as a bitmap (bit *b* of word *i* ⇒ entry `block*K_BLOCK_SIZE +
//! 16*i + b`) or, when few entries pass, as an explicit list of offsets. This
//! reader decodes the common single-tree case (the `fBlocks` array); a
//! multi-tree list (`fLists`) is not expanded.

use vstd::prelude::*;
use vstd::utf8::encode_utf8;
use crate::codec::{i32_at, u16_at};
use crate::error::Error;
use crate::rbuffer::{tstring_at, version_at, RBuffer};
use crate::reader::parse::entry_end;
use crate::tags::{header_at, opt_bytes, read_tnamed, read_tobject, tnamed_at, tobject_end, ObjHeader, TNamed, TagReader};
use crate::text::{bytes_eq, str_eq, text_of};

verus! {

/// Entries per `TEntryListBlock` window (ROOT's `TEntryListBlock::kBlockSize`).
pub const K_BLOCK_SIZE: u64 = 64000;

/// Whether `s` is strictly increasing.
pub open spec fn strictly_increasing(s: Seq<u64>) -> bool {
    forall|i: int, j: int| 0 <= i < j < s.len() ==> s[i] < s[j]
}

/// A `TEntryList` read from a file: its name and the selected entry numbers,
/// in ascending order.
#[derive(Debug)]
pub struct TEntryList {
    name: String,
    tree_name: String,
    file_name: String,
    entries: Vec<u64>,
}

impl TEntryList {
    #[verifier::type_invariant]
    closed spec fn ascending(&self) -> bool {
        strictly_increasing(self.entries@)
    }

    /// The list's name, tree name, file name and entries.
    pub closed spec fn parts(&self) -> (Seq<char>, Seq<char>, Seq<char>, Seq<u64>) {
        (self.name@, self.tree_name@, self.file_name@, self.entries@)
    }

    /// The entry-list name (`fName`).
    pub fn name(&self) -> (r: &str)
        ensures
            r@ == self.parts().0,
    {
        self.name.as_str()
    }

    /// The name of the tree these entries index (`fTreeName`).
    pub fn tree_name(&self) -> (r: &str)
        ensures
            r@ == self.parts().1,
    {
        self.tree_name.as_str()
    }

    /// The file the indexed tree lives in (`fFileName`), or `""` for the
    /// file holding the list.
    pub fn file_name(&self) -> (r: &str)
        ensures
            r@ == self.parts().2,
    {
        self.file_name.as_str()
    }

    /// The selected entry numbers, ascending.
    pub fn entries(&self) -> (r: &[u64])
        ensures
            r@ == self.parts().3,
            strictly_increasing(r@),
    {
        proof {
            use_type_invariant(self);
        }
        self.entries.as_slice()
    }

    /// How many entries the list selects.
    pub fn len(&self) -> (r: usize)
        ensures
            r == self.parts().3.len(),
    {
        self.entries.len()
    }

    /// Whether the list selects no entries.
    pub fn is_empty(&self) -> (r: bool)
        ensures
            r == (self.parts().3.len() == 0),
    {
        self.entries.len() == 0
    }

    /// Whether `entry` is in the list (a binary search over the ascending
    /// entries).
    pub fn contains(&self, entry: u64) -> (r: bool)
        ensures
            r == self.parts().3.contains(entry),
    {
        proof {
            use_type_invariant(self);
        }
        let v = &self.entries;
        let mut lo: usize = 0;
        let mut hi: usize = v.len();
        while lo < hi
            invariant
                0 <= lo <= hi <= v@.len(),
                v@ == self.parts().3,
                strictly_increasing(v@),
                forall|i: int| 0 <= i < lo ==> v@[i] < entry,
                forall|i: int| hi <= i < v@.len() ==> v@[i] > entry,
            decreases hi - lo,
        {
            let mid = lo + (hi - lo) / 2;
            if v[mid] == entry {
                assert(v@[mid as int] == entry);
                return true;
            } else if v[mid] < entry {
                lo = mid + 1;
            } else {
                hi = mid;
            }
        }
        proof {
            if v@.contains(entry) {
                let k = choose|k: int| 0 <= k < v@.len() && v@[k] == entry;
                assert(v@[k] == entry);
            }
        }
        false
    }
}

proof fn lemma_contains_push(o: Seq<u64>, x: u64)
    ensures
        holds_also(o.push(x), o, x),
{
    let p = o.push(x);
    assert forall|y: u64| p.contains(y) <==> (o.contains(y) || y == x) by {
        if p.contains(y) {
            let k = choose|k: int| 0 <= k < p.len() && #[trigger] p[k] == y;
            if k < o.len() {
                assert(o[k] == y);
            }
        }
        if o.contains(y) {
            let k = choose|k: int| 0 <= k < o.len() && #[trigger] o[k] == y;
            assert(p[k] == y);
        }
        if y == x {
            assert(p[o.len() as int] == y);
        }
    }
}

/// `a` holds exactly the values of `b` and `x`.
pub open spec fn holds_also(a: Seq<u64>, b: Seq<u64>, x: u64) -> bool {
    forall|y: u64| a.contains(y) <==> (b.contains(y) || y == x)
}

/// Insert `x` into strictly increasing `out`, unless it is already there.
fn insert_sorted(out: &mut Vec<u64>, x: u64)
    requires
        strictly_increasing(old(out)@),
    ensures
        strictly_increasing(final(out)@),
        holds_also(final(out)@, old(out)@, x),
{
    let n = out.len();
    let ghost o = out@;
    if n == 0 || out[n - 1] < x {
        out.push(x);
        proof {
            lemma_contains_push(o, x);
        }
        assert(out@ == o.push(x));
        assert(holds_also(out@, o, x));
    } else {
        let mut lo: usize = 0;
        let mut hi: usize = n;
        while lo < hi
            invariant
                0 <= lo <= hi <= n,
                n == out@.len(),
                out@ == o,
                strictly_increasing(out@),
                forall|i: int| 0 <= i < lo ==> out@[i] < x,
                forall|i: int| hi <= i < n ==> out@[i] >= x,
            decreases hi - lo,
        {
            let mid = lo + (hi - lo) / 2;
            if out[mid] < x {
                lo = mid + 1;
            } else {
                hi = mid;
            }
        }
        if lo < n && out[lo] == x {
            assert(o[lo as int] == x);
            assert(o.contains(x));
            assert(holds_also(out@, o, x));
        } else {
            out.insert(lo, x);
            proof {
                lemma_insert_sorted(o, lo as int, x);
            }
            assert(holds_also(out@, o, x));
        }
    }
}

proof fn lemma_insert_sorted(o: Seq<u64>, lo: int, x: u64)
    requires
        0 <= lo <= o.len(),
        strictly_increasing(o),
        forall|i: int| 0 <= i < lo ==> o[i] < x,
        forall|i: int| lo <= i < o.len() ==> o[i] > x,
    ensures
        strictly_increasing(o.insert(lo, x)),
        holds_also(o.insert(lo, x), o, x),
{
    let out = o.insert(lo, x);
    o.insert_ensures(lo, x);
    assert forall|i: int, j: int| 0 <= i < j < out.len() implies out[i] < out[j] by {
        if j < lo {
        } else if j == lo {
        } else if i < lo {
            assert(out[j] == o[j - 1]);
        } else if i == lo {
            assert(out[j] == o[j - 1]);
        } else {
            assert(out[j] == o[j - 1]);
            assert(out[i] == o[i - 1]);
        }
    }
    assert forall|y: u64| out.contains(y) <==> (o.contains(y) || y == x) by {
        if out.contains(y) {
            let k = choose|k: int| 0 <= k < out.len() && #[trigger] out[k] == y;
            if k < lo {
                assert(o[k] == y);
            } else if k > lo {
                assert(o[k - 1] == y);
            }
        }
        if o.contains(y) {
            let k = choose|k: int| 0 <= k < o.len() && #[trigger] o[k] == y;
            if k < lo {
                assert(out[k] == y);
            } else {
                assert(out[k + 1] == y);
            }
        }
        if y == x {
            assert(out[lo] == y);
        }
    }
}

/// The entries of `v` in ascending order, each once.
pub fn sorted_unique(v: &Vec<u64>) -> (r: Vec<u64>)
    ensures
        strictly_increasing(r@),
        forall|y: u64| r@.contains(y) <==> v@.contains(y),
{
    let mut out: Vec<u64> = Vec::new();
    let mut i: usize = 0;
    while i < v.len()
        invariant
            i <= v@.len(),
            strictly_increasing(out@),
            forall|y: u64| out@.contains(y) <==> v@.subrange(0, i as int).contains(y),
        decreases v@.len() - i,
    {
        let ghost before = out@;
        insert_sorted(&mut out, v[i]);
        proof {
            let a = v@.subrange(0, i + 1);
            let p = v@.subrange(0, i as int);
            assert(a == p.push(v@[i as int]));
            assert forall|y: u64| out@.contains(y) <==> a.contains(y) by {
                if a.contains(y) {
                    let k = choose|k: int| 0 <= k < a.len() && #[trigger] a[k] == y;
                    if k < i {
                        assert(p[k] == y);
                    }
                }
                if p.contains(y) {
                    let k = choose|k: int| 0 <= k < p.len() && #[trigger] p[k] == y;
                    assert(a[k] == y);
                }
                if y == v@[i as int] {
                    assert(a[i as int] == y);
                }
            }
        }
        i += 1;
    }
    assert(v@.subrange(0, i as int) == v@);
    out
}

/// A count field, negative read as 0.
pub open spec fn clamp_count(x: i32) -> nat {
    if x < 0 {
        0
    } else {
        x as nat
    }
}

/// A `TEntryListBlock` at byte `p` of `s` (after its object header): its
/// `fIndices` words, `fType`, `fPassing`, `fNPassed`, and where reading goes
/// on (its byte-count end, else just past it).
pub open spec fn block_at(s: Seq<u8>, p: int) -> Option<(Seq<u16>, i32, bool, nat, int)> {
    match version_at(s, p) {
        None => None,
        Some((vh, q1)) => match tobject_end(s, q1) {
            None => None,
            Some(q2) => if q2 + 9 > s.len() {
                None
            } else {
                let np = clamp_count(i32_at(s, q2));
                let n = clamp_count(i32_at(s, q2 + 4));
                let q3 = q2 + 9;
                if q3 + 2 * n + 5 > s.len() {
                    None
                } else {
                    let idx = Seq::new(n, |i: int| u16_at(s, q3 + 2 * i));
                    let q4 = q3 + 2 * n;
                    let ft = i32_at(s, q4);
                    let pass = s[q4 + 4] != 0;
                    match vh.end {
                        Some(e) => if e <= s.len() {
                            Some((idx, ft, pass, np, e as int))
                        } else {
                            None
                        },
                        None => Some((idx, ft, pass, np, q4 + 5)),
                    }
                }
            },
        },
    }
}

/// The entries bits `0..k` of word `w` mark, the word's first entry being
/// `start`.
pub open spec fn word_bits(w: u16, start: int, k: nat) -> Seq<u64>
    decreases k,
{
    if k == 0 {
        Seq::empty()
    } else {
        word_bits(w, start, (k - 1) as nat) + if (w >> ((k - 1) as u16)) & 1 == 1 {
            seq![(start + k - 1) as u64]
        } else {
            Seq::empty()
        }
    }
}

/// The entries a bitmap marks: bit `b` of word `i` is entry `base + 16*i + b`.
pub open spec fn bit_entries(words: Seq<u16>, base: int) -> Seq<u64>
    decreases words.len(),
{
    if words.len() == 0 {
        Seq::empty()
    } else {
        bit_entries(words.drop_last(), base) + word_bits(
            words.last(),
            base + 16 * (words.len() - 1),
            16,
        )
    }
}

/// Whether bit `b` (0 for the lowest) of word `w` is set.
pub open spec fn bit_set(w: u16, b: int) -> bool {
    0 <= b < 16 && (w >> (b as u16)) & 1 == 1
}

/// The entries bits `0..k` of a word mark are the first entry plus each set
/// bit's position.
proof fn lemma_word_bits(w: u16, start: int, k: nat, x: u64)
    requires
        0 <= start,
        k <= 16,
        start + k <= u64::MAX + 1,
    ensures
        word_bits(w, start, k).contains(x) <==> exists|b: int| 0 <= b < k && #[trigger] bit_set(w, b) && x == start + b,
    decreases k,
{
    if k > 0 {
        let j = (k - 1) as nat;
        lemma_word_bits(w, start, j, x);
        let tail: Seq<u64> = if (w >> (j as u16)) & 1 == 1 {
            seq![(start + j) as u64]
        } else {
            Seq::empty()
        };
        let ws = word_bits(w, start, k);
        assert(ws == word_bits(w, start, j) + tail);
        if ws.contains(x) {
            let t = choose|t: int| 0 <= t < ws.len() && ws[t] == x;
            if t >= word_bits(w, start, j).len() {
                assert(tail[t - word_bits(w, start, j).len()] == x);
                assert(bit_set(w, j as int));
            } else {
                assert(word_bits(w, start, j)[t] == x);
            }
        }
        if exists|b: int| 0 <= b < k && #[trigger] bit_set(w, b) && x == start + b {
            let b = choose|b: int| 0 <= b < k && #[trigger] bit_set(w, b) && x == start + b;
            if b < j {
                let t = choose|t: int| 0 <= t < word_bits(w, start, j).len() && word_bits(w, start, j)[t] == x;
                assert(ws[t] == x);
            } else {
                assert(ws[word_bits(w, start, j).len() as int] == x);
            }
        }
    }
}

/// The entries a bitmap marks. `x` is among the entries of the words
/// `words` of a block starting at entry `base` exactly when `x` is `base +
/// 16 * i + b` for a word `i` whose bit `b` — any of its 16 bits — is set.
pub proof fn lemma_bitmap_entries(words: Seq<u16>, base: int, x: u64)
    requires
        0 <= base,
        base + 16 * words.len() <= u64::MAX + 1,
    ensures
        bit_entries(words, base).contains(x) <==> exists|i: int, b: int|
            0 <= i < words.len() && #[trigger] bit_set(words[i], b) && x == base + 16 * i + b,
    decreases words.len(),
{
    if words.len() > 0 {
        let p = words.drop_last();
        let n = p.len() as int;
        lemma_bitmap_entries(p, base, x);
        lemma_word_bits(words.last(), base + 16 * n, 16, x);
        let head = bit_entries(p, base);
        let tail = word_bits(words.last(), base + 16 * n, 16);
        let e = bit_entries(words, base);
        assert(e == head + tail);
        if e.contains(x) {
            let t = choose|t: int| 0 <= t < e.len() && e[t] == x;
            if t < head.len() {
                assert(head[t] == x);
                let (i, b) = choose|i: int, b: int|
                    0 <= i < p.len() && #[trigger] bit_set(p[i], b) && x == base + 16 * i + b;
                assert(words[i] == p[i]);
            } else {
                assert(tail[t - head.len()] == x);
                let b = choose|b: int| 0 <= b < 16 && #[trigger] bit_set(words.last(), b) && x == base + 16 * n + b;
                assert(bit_set(words[n], b));
            }
        }
        if exists|i: int, b: int| 0 <= i < words.len() && #[trigger] bit_set(words[i], b) && x == base + 16 * i + b {
            let (i, b) = choose|i: int, b: int|
                0 <= i < words.len() && #[trigger] bit_set(words[i], b) && x == base + 16 * i + b;
            if i < n {
                assert(bit_set(p[i], b));
                let t = choose|t: int| 0 <= t < head.len() && head[t] == x;
                assert(e[t] == x);
            } else {
                assert(bit_set(words.last(), b));
                let t = choose|t: int| 0 <= t < tail.len() && tail[t] == x;
                assert(e[head.len() + t] == x);
            }
        }
    }
}

/// The entries a passing bitmap block yields: `x` is among them exactly
/// when it is the block's base plus `16 * i + b` for a set bit `b` of word
/// `i`, every one of a word's 16 bits counting.
pub proof fn lemma_bitmap_block(idx: Seq<u16>, np: nat, base: int, x: u64)
    requires
        0 <= base,
        base + 16 * idx.len() <= u64::MAX + 1,
    ensures
        block_entries(idx, 0, true, np, base).contains(x) <==> exists|i: int, b: int|
            0 <= i < idx.len() && #[trigger] bit_set(idx[i], b) && x == base + 16 * i + b,
{
    lemma_bitmap_entries(idx, base, x);
}

/// The entries a block passes: its bitmap, or its first `fNPassed` offsets
/// (for an explicit list), each offset by `base`; none for the complement
/// encoding (`fType` 0 without `fPassing`).
pub open spec fn block_entries(idx: Seq<u16>, ft: i32, pass: bool, np: nat, base: int) -> Seq<u64> {
    if ft == 0 && pass {
        bit_entries(idx, base)
    } else if ft != 0 {
        idx.take(if np < idx.len() { np as int } else { idx.len() as int }).map_values(
            |o: u16| (base + o) as u64,
        )
    } else {
        Seq::empty()
    }
}

/// The entries an explicit-list block yields (`fType` not 0): its first
/// `fNPassed` stored offsets, in order, each added to the block's base; a
/// block in the complement encoding (`fType` 0 without `fPassing`) yields
/// none.
pub proof fn lemma_list_block(idx: Seq<u16>, ft: i32, pass: bool, np: nat, base: int)
    requires
        0 <= base,
        base + 0x1_0000 <= u64::MAX + 1,
    ensures
        ft != 0 ==> block_entries(idx, ft, pass, np, base).len() == (if np < idx.len() { np } else { idx.len() }),
        ft != 0 ==> forall|j: int|
            0 <= j < block_entries(idx, ft, pass, np, base).len() ==> #[trigger] block_entries(idx, ft, pass, np, base)[j]
                == base + idx[j],
        ft == 0 && !pass ==> block_entries(idx, ft, pass, np, base).len() == 0,
{
}

/// Decode one `TEntryListBlock` (the object header already consumed),
/// appending its passing entries — offset by `block_index * K_BLOCK_SIZE` —
/// to `out`.
pub fn read_block(r: &mut RBuffer, block_index: u64, out: &mut Vec<u64>) -> (res: Result<(), Error>)
    requires
        block_index <= i32::MAX,
    ensures
        final(r).buf() == old(r).buf(),
        match block_at(old(r).buf(), old(r).cursor()) {
            None => res is Err,
            Some((idx, ft, pass, np, q)) => res is Ok && final(r).cursor() == q && final(out)@
                == old(out)@ + block_entries(idx, ft, pass, np, block_index * K_BLOCK_SIZE),
        },
{
    let ghost s = r.buf();
    let _start = r.pos();
    let vh = r.read_version()?;
    read_tobject(r)?;
    let np = r.be_i32()?;
    let n_passed: usize = if np < 0 { 0 } else { np as usize };
    let nn = r.be_i32()?;
    let n: usize = if nn < 0 { 0 } else { nn as usize };
    r.u8()?;
    let ghost q3 = r.cursor();
    let mut indices: Vec<u16> = Vec::new();
    let mut i: usize = 0;
    while i < n
        invariant
            i <= n,
            r.buf() == s,
            old(r).buf() == s,
            block_at(s, old(r).cursor()) is Some ==> q3 + 2 * n + 5 <= s.len(),
            r.cursor() == q3 + 2 * i,
            indices@.len() == i,
            forall|j: int| 0 <= j < i ==> #[trigger] indices@[j] == u16_at(s, q3 + 2 * j),
        decreases n - i,
    {
        let w = r.be_u16()?;
        indices.push(w);
        i += 1;
    }
    let f_type = r.be_i32()?;
    let f_passing = r.u8()? != 0;
    let ghost idx = indices@;
    proof {
        assert(idx =~= Seq::new(n as nat, |j: int| u16_at(s, q3 + 2 * j)));
    }
    let base: u64 = block_index * K_BLOCK_SIZE;
    let ghost before = out@;
    if f_type == 0 && f_passing {
        let mut wi: usize = 0;
        assert(idx.take(0) == Seq::<u16>::empty());
        assert(before + bit_entries(idx.take(0), base as int) == before);
        while wi < indices.len()
            invariant
                wi <= idx.len(),
                idx == indices@,
                idx.len() <= i32::MAX,
                base == block_index * K_BLOCK_SIZE,
                block_index <= i32::MAX,
                out@ == before + bit_entries(idx.take(wi as int), base as int),
            decreases idx.len() - wi,
        {
            let word = indices[wi];
            let start: u64 = base + 16 * (wi as u64);
            let mut bit: u16 = 0;
            let ghost mid = out@;
            assert(mid + word_bits(word, start as int, 0) == mid);
            while bit < 16
                invariant
                    bit <= 16,
                    start == base + 16 * wi,
                    start <= 0x7fff_ffffu64 * 64000 + 16 * 0x7fff_ffffu64,
                    out@ == mid + word_bits(word, start as int, bit as nat),
                decreases 16 - bit,
            {
                if (word >> bit) & 1 == 1 {
                    out.push(start + bit as u64);
                }
                proof {
                    assert(word_bits(word, start as int, (bit + 1) as nat) == word_bits(
                        word,
                        start as int,
                        bit as nat,
                    ) + if (word >> bit) & 1 == 1 {
                        seq![(start + bit) as u64]
                    } else {
                        Seq::<u64>::empty()
                    });
                }
                bit += 1;
                assert(out@ =~= mid + word_bits(word, start as int, bit as nat));
            }
            proof {
                assert(idx.take(wi + 1).drop_last() == idx.take(wi as int));
                assert(idx.take(wi + 1).last() == word);
            }
            wi += 1;
            assert(out@ =~= before + bit_entries(idx.take(wi as int), base as int));
        }
        assert(idx.take(wi as int) == idx);
    } else if f_type != 0 {
        let k = if n_passed < indices.len() { n_passed } else { indices.len() };
        let mut j: usize = 0;
        while j < k
            invariant
                j <= k,
                k <= idx.len(),
                idx == indices@,
                out@ == before + idx.take(j as int).map_values(|o: u16| (base + o) as u64),
                base <= 0x7fff_ffffu64 * 64000,
            decreases k - j,
        {
            let o = indices[j];
            out.push(base + o as u64);
            j += 1;
            assert(idx.take(j as int).map_values(|o: u16| (base + o) as u64) =~= idx.take(j - 1).map_values(
                |o: u16| (base + o) as u64,
            ).push((base + o) as u64));
            assert(out@ =~= before + idx.take(j as int).map_values(|o: u16| (base + o) as u64));
        }
    } else {
        assert(out@ =~= before + Seq::<u64>::empty());
    }
    if let Some(end) = vh.end {
        r.seek(end)?;
    }
    Ok(())
}

/// The entries of the `TEntryListBlock`s of an `fBlocks` array, from block
/// `bi` of `size` at byte `p`: in block order, with where reading stops and
/// the classes seen. Entries that are not blocks contribute nothing.
pub open spec fn blocks_from(
    s: Seq<u8>,
    p: int,
    bi: nat,
    size: nat,
    base: u128,
    m: Seq<(u128, Seq<u8>)>,
) -> Option<(Seq<u64>, int, Seq<(u128, Seq<u8>)>)>
    decreases size - bi,
{
    if bi >= size {
        Some((Seq::empty(), p, m))
    } else {
        match header_at(s, p, base, m) {
            None => None,
            Some((c, e, q, m1)) => {
                let inner: Option<(Seq<u64>, int)> = if c == Some(encode_utf8("TEntryListBlock"@)) {
                    match block_at(s, q) {
                        None => None,
                        Some((idx, ft, pass, np, q2)) => Some(
                            (block_entries(idx, ft, pass, np, bi * K_BLOCK_SIZE), q2),
                        ),
                    }
                } else {
                    Some((Seq::empty(), q))
                };
                match inner {
                    None => None,
                    Some((ents, q3)) => match entry_end(s, e, q3) {
                        None => None,
                        Some(q4) => match blocks_from(s, q4, bi + 1, size, base, m1) {
                            None => None,
                            Some((rest, q5, m2)) => Some((ents + rest, q5, m2)),
                        },
                    },
                }
            },
        }
    }
}

/// The tree and file names after the entry counts `fN` and
/// `fEntriesToProcess` at byte `q`: empty when the counts or a name cannot be
/// read.
pub open spec fn trailing_names(s: Seq<u8>, q: int) -> (Seq<char>, Seq<char>) {
    if q + 16 > s.len() {
        (Seq::empty(), Seq::empty())
    } else {
        match tstring_at(s, q + 16) {
            None => (Seq::empty(), Seq::empty()),
            Some((a1, e1)) => (
                text_of(s.subrange(a1, e1)),
                match tstring_at(s, e1) {
                    None => Seq::empty(),
                    Some((a2, e2)) => text_of(s.subrange(a2, e2)),
                },
            ),
        }
    }
}

/// The head of a decompressed `TEntryList` object whose key header is
/// `keylen` bytes, up to its `fBlocks` object header: the list's name, what
/// that header says (its class, its end), where its contents start and the
/// classes seen. The `fLists` member is stepped over.
pub open spec fn list_head_at(s: Seq<u8>, keylen: u128) -> Option<
    (Seq<char>, Option<Seq<u8>>, Option<int>, int, Seq<(u128, Seq<u8>)>),
> {
    match version_at(s, 0) {
        None => None,
        Some((_, p1)) => match tnamed_at(s, p1) {
            None => None,
            Some((name, _, p2)) => match header_at(s, p2, keylen, Seq::empty()) {
                None => None,
                Some((_, e, p3, m1)) => match entry_end(s, e, p3) {
                    None => None,
                    Some(p4) => if p4 + 4 > s.len() {
                        None
                    } else {
                        match header_at(s, p4 + 4, keylen, m1) {
                            None => None,
                            Some((bc, be, p6, m2)) => Some((name, bc, be, p6, m2)),
                        }
                    },
                },
            },
        },
    }
}

/// The entries of an `fBlocks` array at byte `p` (a `TObjArray`: version,
/// `TObject`, name, size, lower bound, then the blocks), and where it stops;
/// nothing for a null array.
pub open spec fn blocks_part(s: Seq<u8>, present: bool, p: int, keylen: u128, m: Seq<(u128, Seq<u8>)>) -> Option<
    (Seq<u64>, int),
> {
    if present {
        match version_at(s, p) {
            None => None,
            Some((_, p7)) => match tobject_end(s, p7) {
                None => None,
                Some(p8) => match tstring_at(s, p8) {
                    None => None,
                    Some((_, p9)) => if p9 + 8 > s.len() {
                        None
                    } else {
                        match blocks_from(s, p9 + 8, 0, clamp_count(i32_at(s, p9)), keylen, m) {
                            None => None,
                            Some((ents, q, _)) => Some((ents, q)),
                        }
                    },
                },
            },
        }
    } else {
        Some((Seq::empty(), p))
    }
}

/// A decompressed `TEntryList` object whose key header is `keylen` bytes:
/// its name, the passing entries of its blocks (in block order), and its
/// tree and file names.
pub open spec fn entry_list_at(s: Seq<u8>, keylen: u128) -> Option<(Seq<char>, Seq<u64>, Seq<char>, Seq<char>)> {
    match list_head_at(s, keylen) {
        None => None,
        Some((name, bc, be, p6, m2)) => match blocks_part(s, bc is Some, p6, keylen, m2) {
            None => None,
            Some((ents, q)) => match entry_end(s, be, q) {
                None => None,
                Some(q2) => Some((name, ents, trailing_names(s, q2).0, trailing_names(s, q2).1)),
            },
        },
    }
}

proof fn lemma_blocks_step(
    s: Seq<u8>,
    p: int,
    bi: nat,
    size: nat,
    base: u128,
    m: Seq<(u128, Seq<u8>)>,
    ents: Seq<u64>,
    q4: int,
    m1: Seq<(u128, Seq<u8>)>,
    got: Seq<u64>,
)
    requires
        bi < size,
        header_at(s, p, base, m) matches Some((c, e, q, mm)) && mm == m1 && ({
            let inner: Option<(Seq<u64>, int)> = if c == Some(encode_utf8("TEntryListBlock"@)) {
                match block_at(s, q) {
                    None => None,
                    Some((idx, ft, pass, np, q2)) => Some(
                        (block_entries(idx, ft, pass, np, bi * K_BLOCK_SIZE), q2),
                    ),
                }
            } else {
                Some((Seq::empty(), q))
            };
            inner matches Some((en, q3)) && en == ents && entry_end(s, e, q3) == Some(q4)
        }),
    ensures
        match blocks_from(s, p, bi, size, base, m) {
            None => blocks_from(s, q4, bi + 1, size, base, m1) is None,
            Some((all, qf, mf)) => blocks_from(s, q4, bi + 1, size, base, m1) matches Some((rest, q5, m2))
                && got + all == (got + ents) + rest && qf == q5 && mf == m2,
        },
{
    match blocks_from(s, q4, bi + 1, size, base, m1) {
        Some((rest, q5, m2)) => {
            assert(got + (ents + rest) == (got + ents) + rest);
        },
        None => {},
    }
}

/// `got` before what the rest of the blocks read, when they read.
pub open spec fn blocks_after(got: Seq<u64>, x: Option<(Seq<u64>, int, Seq<(u128, Seq<u8>)>)>) -> Option<
    (Seq<u64>, int, Seq<(u128, Seq<u8>)>),
> {
    match x {
        None => None,
        Some((a, q, m)) => Some((got + a, q, m)),
    }
}

/// Read the `size` entries of an `fBlocks` array, appending every block's
/// passing entries to `out`.
fn read_blocks(r: &mut RBuffer, tags: &mut TagReader, size: i32, out: &mut Vec<u64>) -> (res: Result<(), Error>)
    requires
        size >= 0,
    ensures
        final(r).buf() == old(r).buf(),
        final(tags).key_base() == old(tags).key_base(),
        match blocks_from(old(r).buf(), old(r).cursor(), 0, size as nat, old(tags).key_base(), old(tags).seen()) {
            None => res is Err,
            Some((ents, q, m)) => res is Ok && final(out)@ == old(out)@ + ents && final(r).cursor() == q
                && final(tags).seen() == m,
        },
{
    let ghost s = r.buf();
    let ghost base = tags.key_base();
    let ghost p0 = r.cursor();
    let ghost m0 = tags.seen();
    let ghost before = out@;
    let ghost mut got: Seq<u64> = Seq::empty();
    let mut bi: i32 = 0;
    assert(before + got == before);
    while bi < size
        invariant
            0 <= bi <= size,
            r.buf() == s,
            old(r).buf() == s,
            old(r).cursor() == p0,
            tags.key_base() == base,
            old(tags).key_base() == base,
            old(tags).seen() == m0,
            old(out)@ == before,
            out@ == before + got,
            blocks_from(s, p0, 0, size as nat, base, m0) == blocks_after(
                got,
                blocks_from(s, r.cursor(), bi as nat, size as nat, base, tags.seen()),
            ),
        decreases size - bi,
    {
        let ghost cur = r.cursor();
        let ghost mcur = tags.seen();
        let block = match tags.read_header(r) {
            Ok(h) => h,
            Err(e) => {
                return Err(e);
            },
        };
        let is_block = match &block.class_name {
            Some(c) => bytes_eq(c.as_slice(), "TEntryListBlock".as_bytes()),
            None => false,
        };
        let ghost mid = out@;
        let ghost q = r.cursor();
        proof {
            let h = header_at(s, cur, base, mcur)->0;
            assert(opt_bytes(block.class_name) == h.0);
            assert(is_block == (h.0 == Some(encode_utf8("TEntryListBlock"@))));
            assert(q == h.2);
        }
        if is_block {
            match read_block(r, bi as u64, out) {
                Ok(()) => {},
                Err(e) => {
                    return Err(e);
                },
            }
        }
        let ghost ents = out@.subrange(mid.len() as int, out@.len() as int);
        let ghost q3 = r.cursor();
        match block.end {
            Some(end) => {
                match r.seek(end) {
                    Ok(()) => {},
                    Err(e) => {
                        return Err(e);
                    },
                }
            },
            None => {},
        }
        proof {
            assert(out@ =~= mid + ents);
            let h = header_at(s, cur, base, mcur)->0;
            if is_block {
                let b = block_at(s, q)->0;
                assert(ents =~= block_entries(b.0, b.1, b.2, b.3, bi * K_BLOCK_SIZE));
            } else {
                assert(ents =~= Seq::<u64>::empty());
            }
            match h.1 {
                Some(x) => {
                    assert(entry_end(s, h.1, q3) == Some(x));
                },
                None => {
                    assert(entry_end(s, h.1, q3) == Some(q3));
                },
            }
            lemma_blocks_step(s, cur, bi as nat, size as nat, base, mcur, ents, r.cursor(), tags.seen(), got);
            got = got + ents;
        }
        bi += 1;
    }
    assert(got + Seq::<u64>::empty() == got);
    Ok(())
}

/// Read a `TEntryList` object's head, up to the `fBlocks` object header.
fn read_list_head(r: &mut RBuffer, tags: &mut TagReader) -> (res: Result<(TNamed, ObjHeader), Error>)
    requires
        old(r).cursor() == 0,
        old(tags).seen() == Seq::<(u128, Seq<u8>)>::empty(),
    ensures
        final(r).buf() == old(r).buf(),
        final(tags).key_base() == old(tags).key_base(),
        match list_head_at(old(r).buf(), old(tags).key_base()) {
            None => res is Err,
            Some((name, bc, be, p6, m2)) => res matches Ok((n, h)) && n.name@ == name && opt_bytes(
                h.class_name,
            ) == bc && (match be {
                Some(x) => h.end == Some(x as usize),
                None => h.end is None,
            }) && final(r).cursor() == p6 && final(tags).seen() == m2,
        },
{
    r.read_version()?;
    let named = read_tnamed(r)?;
    let lists = tags.read_header(r)?;
    if let Some(end) = lists.end {
        r.seek(end)?;
    }
    let _n_blocks = r.be_i32()?;
    let blocks = tags.read_header(r)?;
    Ok((named, blocks))
}

/// Read the contents of the `fBlocks` array (when its header named a class),
/// appending the blocks' entries to `out`.
fn read_blocks_part(r: &mut RBuffer, tags: &mut TagReader, present: bool, out: &mut Vec<u64>) -> (res: Result<(), Error>)
    requires
        old(out)@ == Seq::<u64>::empty(),
    ensures
        final(r).buf() == old(r).buf(),
        match blocks_part(old(r).buf(), present, old(r).cursor(), old(tags).key_base(), old(tags).seen()) {
            None => res is Err,
            Some((ents, q)) => res is Ok && final(out)@ == ents && final(r).cursor() == q,
        },
{
    if present {
        r.read_version()?;
        read_tobject(r)?;
        r.string_bytes()?;
        let sz = r.be_i32()?;
        let size: i32 = if sz < 0 { 0 } else { sz };
        let _lower = r.be_i32()?;
        read_blocks(r, tags, size, out)?;
        assert(Seq::<u64>::empty() + out@ =~= out@);
    }
    Ok(())
}

/// Read the tree and file names after the entry counts, leaving them empty
/// when they cannot be read.
fn read_trailing_names(r: &mut RBuffer) -> (res: (String, String))
    ensures
        (res.0@, res.1@) == trailing_names(old(r).buf(), old(r).cursor()),
{
    let ghost s = r.buf();
    let _p = r.pos();
    let mut tree_name = String::new();
    let mut file_name = String::new();
    if r.be_i64().is_ok() && r.be_i64().is_ok() {
        if let Ok(name) = r.string() {
            tree_name = name;
        }
        if let Ok(name) = r.string() {
            file_name = name;
        }
    }
    (tree_name, file_name)
}

/// Parse a decompressed `TEntryList` object (`keylen` is its key's header
/// length): its name, the entries its blocks pass — sorted, each once — and
/// the tree and file names after them (empty when absent).
pub fn read_entry_list(object: &[u8], keylen: usize) -> (res: Result<TEntryList, Error>)
    ensures
        match entry_list_at(object@, keylen as u128) {
            None => res is Err,
            Some((name, ents, tree, file)) => res matches Ok(l) && l.parts().0 == name && l.parts().1
                == tree && l.parts().2 == file && strictly_increasing(l.parts().3) && forall|y: u64|
                l.parts().3.contains(y) <==> ents.contains(y),
        },
{
    let mut r = RBuffer::new(object);
    let mut tags = TagReader::new(keylen);
    let (named, blocks) = read_list_head(&mut r, &mut tags)?;
    let mut entries: Vec<u64> = Vec::new();
    read_blocks_part(&mut r, &mut tags, blocks.class_name.is_some(), &mut entries)?;
    if let Some(end) = blocks.end {
        r.seek(end)?;
    }
    let (tree_name, file_name) = read_trailing_names(&mut r);
    let entries = sorted_unique(&entries);
    Ok(TEntryList { name: named.name, tree_name, file_name, entries })
}

/// Open the entry list a key named `key_name` of class `class_name` holds,
/// from its decompressed object (`keylen` is the key's header length): the
/// list [`read_entry_list`] reads; a key of another class is refused.
pub fn entry_list_from_object(key_name: &str, class_name: &str, object: &[u8], keylen: usize) -> (res: Result<
    TEntryList,
    Error,
>)
    ensures
        class_name@ != "TEntryList"@ ==> (res matches Err(Error::WrongClass { name, found, expected }) && name@
            == key_name@ && found@ == class_name@ && expected@ == "TEntryList"@),
        class_name@ == "TEntryList"@ ==> match entry_list_at(object@, keylen as u128) {
            None => res is Err,
            Some((name, ents, tree, file)) => res matches Ok(l) && l.parts().0 == name && l.parts().1
                == tree && l.parts().2 == file && strictly_increasing(l.parts().3) && forall|y: u64|
                l.parts().3.contains(y) <==> ents.contains(y),
        },
{
    if !str_eq(class_name, "TEntryList") {
        return Err(
            Error::WrongClass {
                name: String::from_str(key_name),
                found: String::from_str(class_name),
                expected: String::from_str("TEntryList"),
            },
        );
    }
    read_entry_list(object, keylen)
}

} // verus!
