//! What the member reader reads back of the basket arrays a written branch
//! record carries.

use vstd::prelude::*;
use crate::codec::{i32_bytes, i64_bytes, lemma_i32_roundtrip, lemma_i64_roundtrip, u32_bytes, u64_bytes};
use crate::reader::walk::ints_at;
use super::baskets::BasketRec;
use super::serialize::{basket_arrays_bytes, cumulative, entry_word, seek_word, size_word, words};

verus! {

/// `n` words of `w` bytes each take `n * w` bytes, and word `j` sits at
/// byte `w * j`.
proof fn lemma_words_at(n: nat, f: spec_fn(int) -> Seq<u8>, w: nat, j: int)
    requires
        forall|k: int| #[trigger] f(k).len() == w,
    ensures
        words(n, f).len() == n * w,
        0 <= j < n ==> words(n, f).subrange(w * j, w * j + w) == f(j),
    decreases n,
{
    if n > 0 {
        let m = (n - 1) as nat;
        lemma_words_at(m, f, w, j);
        assert(words(n, f) == words(m, f) + f(m as int));
        assert(n * w == m * w + w) by (nonlinear_arith)
            requires
                n == m + 1,
        ;
        if 0 <= j < m {
            assert(w * j + w <= m * w) by (nonlinear_arith)
                requires
                    0 <= j < m,
            ;
            assert(words(n, f).subrange(w * j, w * j + w) =~= words(m, f).subrange(w * j, w * j + w));
        } else if j == m {
            assert(w * j == m * w) by (nonlinear_arith)
                requires
                    j == m,
            ;
            assert(words(n, f).subrange(w * j, w * j + w) =~= f(m as int));
        }
    }
}

/// Reading `n - j` four-byte integers from word `j` of `n` words that hold
/// the values `v`, after the first `j` read, gives all of them.
proof fn lemma_read_i32_words(
    s: Seq<u8>,
    p: int,
    n: nat,
    f: spec_fn(int) -> Seq<u8>,
    v: spec_fn(int) -> i32,
    j: nat,
)
    requires
        0 <= p,
        j <= n,
        p + 4 * n <= s.len(),
        forall|k: int| #[trigger] f(k) == i32_bytes(v(k)),
        s.subrange(p, p + 4 * n) == words(n, f),
    ensures
        ints_at(s, p + 4 * j, 4, false, n - j, Seq::new(j, |k: int| v(k) as i64)) == Some(
            (Seq::new(n, |k: int| v(k) as i64), p + 4 * n),
        ),
    decreases n - j,
{
    let acc = Seq::new(j, |k: int| v(k) as i64);
    if j == n {
        assert(acc =~= Seq::new(n, |k: int| v(k) as i64));
    } else {
        assert forall|k: int| #[trigger] f(k).len() == 4 by {
            assert(f(k) == u32_bytes(v(k) as u32));
        }
        lemma_words_at(n, f, 4, j as int);
        let q = p + 4 * j;
        assert(s.subrange(q, q + 4) =~= words(n, f).subrange(4 * (j as int), 4 * (j as int) + 4));
        lemma_i32_roundtrip(v(j as int), s, q);
        lemma_read_i32_words(s, p, n, f, v, j + 1);
        assert(acc.push(v(j as int) as i64) =~= Seq::new(j + 1, |k: int| v(k) as i64));
    }
}

/// Reading `n - j` eight-byte integers from word `j` of `n` words that hold
/// the values `v`, after the first `j` read, gives all of them.
proof fn lemma_read_i64_words(
    s: Seq<u8>,
    p: int,
    n: nat,
    f: spec_fn(int) -> Seq<u8>,
    v: spec_fn(int) -> i64,
    j: nat,
)
    requires
        0 <= p,
        j <= n,
        p + 8 * n <= s.len(),
        forall|k: int| #[trigger] f(k) == i64_bytes(v(k)),
        s.subrange(p, p + 8 * n) == words(n, f),
    ensures
        ints_at(s, p + 8 * j, 8, false, n - j, Seq::new(j, |k: int| v(k))) == Some(
            (Seq::new(n, |k: int| v(k)), p + 8 * n),
        ),
    decreases n - j,
{
    let acc = Seq::new(j, |k: int| v(k));
    if j == n {
        assert(acc =~= Seq::new(n, |k: int| v(k)));
    } else {
        assert forall|k: int| #[trigger] f(k).len() == 8 by {
            assert(f(k) == u64_bytes(v(k) as u64));
        }
        lemma_words_at(n, f, 8, j as int);
        let q = p + 8 * j;
        assert(s.subrange(q, q + 8) =~= words(n, f).subrange(8 * (j as int), 8 * (j as int) + 8));
        lemma_i64_roundtrip(v(j as int), s, q);
        lemma_read_i64_words(s, p, n, f, v, j + 1);
        assert(acc.push(v(j as int)) =~= Seq::new(j + 1, |k: int| v(k)));
    }
}

/// Slot `k` of `fBasketBytes`: basket `k`'s size, 0 past the last basket.
pub open spec fn size_slot(group: Seq<BasketRec>, k: int) -> i32 {
    if 0 <= k < group.len() {
        group[k].nbytes as i32
    } else {
        0i32
    }
}

/// Slot `k` of `fBasketEntry`: the entries before basket `k` (the total
/// after the last basket), 0 past that.
pub open spec fn entry_slot(group: Seq<BasketRec>, k: int) -> i64 {
    if 0 <= k <= group.len() {
        cumulative(group, k)
    } else {
        0i64
    }
}

/// Slot `k` of `fBasketSeek`: basket `k`'s position, 0 past the last
/// basket.
pub open spec fn seek_slot(group: Seq<BasketRec>, k: int) -> i64 {
    if 0 <= k < group.len() {
        group[k].seek as i64
    } else {
        0i64
    }
}

/// The basket arrays of a written branch record read back as the basket
/// records. Where `s` holds, from byte `p`, the arrays that
/// [`basket_arrays_bytes`] lays out for `group` with `max` slots, the member
/// reader (which steps over each array's marker byte, then reads its
/// slots as [`ints_at`] does) reads `fBasketBytes` as the basket sizes,
/// `fBasketEntry` as the entries before each basket and `fBasketSeek` as
/// the basket positions, each array ending where the next one's marker
/// starts.
pub proof fn lemma_basket_arrays_read_back(group: Seq<BasketRec>, max: i32, s: Seq<u8>, p: int)
    requires
        0 <= p,
        p + basket_arrays_bytes(group, max).len() <= s.len(),
        s.subrange(p, p + basket_arrays_bytes(group, max).len()) == basket_arrays_bytes(group, max),
    ensures
        ({
            let n = (max as usize) as nat;
            &&& ints_at(s, p + 1, 4, false, n as int, Seq::empty()) == Some(
                (Seq::new(n, |k: int| size_slot(group, k) as i64), p + 1 + 4 * n),
            )
            &&& ints_at(s, p + 2 + 4 * n, 8, false, n as int, Seq::empty()) == Some(
                (Seq::new(n, |k: int| entry_slot(group, k)), p + 2 + 12 * n),
            )
            &&& ints_at(s, p + 3 + 12 * n, 8, false, n as int, Seq::empty()) == Some(
                (Seq::new(n, |k: int| seek_slot(group, k)), p + 3 + 20 * n),
            )
        }),
{
    let n = (max as usize) as nat;
    let f1 = size_word(group);
    let f2 = entry_word(group);
    let f3 = seek_word(group);
    let v1 = |k: int| size_slot(group, k);
    let v2 = |k: int| entry_slot(group, k);
    let v3 = |k: int| seek_slot(group, k);
    assert forall|k: int| #[trigger] f1(k) == i32_bytes(v1(k)) by {}
    assert forall|k: int| #[trigger] f2(k) == i64_bytes(v2(k)) by {}
    assert forall|k: int| #[trigger] f3(k) == i64_bytes(v3(k)) by {}
    assert forall|k: int| #[trigger] f1(k).len() == 4 by {
        assert(f1(k) == u32_bytes(v1(k) as u32));
    }
    assert forall|k: int| #[trigger] f2(k).len() == 8 by {
        assert(f2(k) == u64_bytes(v2(k) as u64));
    }
    assert forall|k: int| #[trigger] f3(k).len() == 8 by {
        assert(f3(k) == u64_bytes(v3(k) as u64));
    }
    lemma_words_at(n, f1, 4, 0);
    lemma_words_at(n, f2, 8, 0);
    lemma_words_at(n, f3, 8, 0);
    let a = basket_arrays_bytes(group, max);
    let m = n as int;
    let w1 = words(n, f1);
    let w2 = words(n, f2);
    let w3 = words(n, f3);
    assert(a == seq![1u8] + w1 + seq![1u8] + w2 + seq![1u8] + w3);
    assert(s.subrange(p + 1, p + 1 + 4 * m) =~= a.subrange(1, 1 + 4 * m));
    assert(a.subrange(1, 1 + 4 * m) =~= w1);
    lemma_read_i32_words(s, p + 1, n, f1, v1, 0);
    assert(Seq::new(0, |k: int| v1(k) as i64) =~= Seq::<i64>::empty());
    let q2 = p + 2 + 4 * n;
    assert(s.subrange(q2, q2 + 8 * m) =~= a.subrange(2 + 4 * m, 2 + 12 * m));
    assert(a.subrange(2 + 4 * m, 2 + 12 * m) =~= w2);
    lemma_read_i64_words(s, q2, n, f2, v2, 0);
    assert(Seq::new(0, |k: int| v2(k)) =~= Seq::<i64>::empty());
    let q3 = p + 3 + 12 * n;
    assert(s.subrange(q3, q3 + 8 * m) =~= a.subrange(3 + 12 * m, 3 + 20 * m));
    assert(a.subrange(3 + 12 * m, 3 + 20 * m) =~= w3);
    lemma_read_i64_words(s, q3, n, f3, v3, 0);
    assert(Seq::new(0, |k: int| v3(k)) =~= Seq::<i64>::empty());
    assert(Seq::new(n, |k: int| v1(k) as i64) =~= Seq::new(n, |k: int| size_slot(group, k) as i64));
    assert(Seq::new(n, |k: int| v2(k)) =~= Seq::new(n, |k: int| entry_slot(group, k)));
    assert(Seq::new(n, |k: int| v3(k)) =~= Seq::new(n, |k: int| seek_slot(group, k)));
}

} // verus!
