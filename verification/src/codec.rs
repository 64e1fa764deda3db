//! Big-endian integer encodings, the byte order of every ROOT on-disk field.

use vstd::prelude::*;

verus! {

/// The `u16` whose big-endian bytes are `b0 b1`.
pub open spec fn be16(b0: u8, b1: u8) -> u16 {
    ((b0 as u16) << 8u16) | (b1 as u16)
}

/// The `u32` whose big-endian bytes are `b0 b1 b2 b3`.
pub open spec fn be32(b0: u8, b1: u8, b2: u8, b3: u8) -> u32 {
    ((b0 as u32) << 24u32) | ((b1 as u32) << 16u32) | ((b2 as u32) << 8u32) | (b3 as u32)
}

/// The `u64` whose big-endian bytes are `b0 … b7`.
pub open spec fn be64(b0: u8, b1: u8, b2: u8, b3: u8, b4: u8, b5: u8, b6: u8, b7: u8) -> u64 {
    ((be32(b0, b1, b2, b3) as u64) << 32u64) | (be32(b4, b5, b6, b7) as u64)
}

/// The big-endian `u16` starting at byte `i` of `s`.
pub open spec fn u16_at(s: Seq<u8>, i: int) -> u16 {
    be16(s[i], s[i + 1])
}

/// The big-endian `u32` starting at byte `i` of `s`.
pub open spec fn u32_at(s: Seq<u8>, i: int) -> u32 {
    be32(s[i], s[i + 1], s[i + 2], s[i + 3])
}

/// The big-endian `u64` starting at byte `i` of `s`.
pub open spec fn u64_at(s: Seq<u8>, i: int) -> u64 {
    be64(s[i], s[i + 1], s[i + 2], s[i + 3], s[i + 4], s[i + 5], s[i + 6], s[i + 7])
}

/// The big-endian two's-complement `i16` starting at byte `i` of `s`.
pub open spec fn i16_at(s: Seq<u8>, i: int) -> i16 {
    u16_at(s, i) as i16
}

/// The big-endian two's-complement `i32` starting at byte `i` of `s`.
pub open spec fn i32_at(s: Seq<u8>, i: int) -> i32 {
    u32_at(s, i) as i32
}

/// The big-endian two's-complement `i64` starting at byte `i` of `s`.
pub open spec fn i64_at(s: Seq<u8>, i: int) -> i64 {
    u64_at(s, i) as i64
}

/// The big-endian bytes of `x`.
pub open spec fn u16_bytes(x: u16) -> Seq<u8> {
    seq![(x >> 8u16) as u8, x as u8]
}

/// The big-endian bytes of `x`.
pub open spec fn u32_bytes(x: u32) -> Seq<u8> {
    seq![(x >> 24u32) as u8, (x >> 16u32) as u8, (x >> 8u32) as u8, x as u8]
}

/// The big-endian bytes of `x`.
pub open spec fn u64_bytes(x: u64) -> Seq<u8> {
    u32_bytes((x >> 32u64) as u32) + u32_bytes(x as u32)
}

/// The big-endian two's-complement bytes of `x`.
pub open spec fn i16_bytes(x: i16) -> Seq<u8> {
    u16_bytes(x as u16)
}

/// The big-endian two's-complement bytes of `x`.
pub open spec fn i32_bytes(x: i32) -> Seq<u8> {
    u32_bytes(x as u32)
}

/// The big-endian two's-complement bytes of `x`.
pub open spec fn i64_bytes(x: i64) -> Seq<u8> {
    u64_bytes(x as u64)
}

proof fn lemma_be16_of_bytes(x: u16)
    ensures
        be16((x >> 8u16) as u8, x as u8) == x,
{
    assert(((((x >> 8u16) as u8) as u16) << 8u16) | ((x as u8) as u16) == x) by (bit_vector);
}

proof fn lemma_be32_of_bytes(x: u32)
    ensures
        be32((x >> 24u32) as u8, (x >> 16u32) as u8, (x >> 8u32) as u8, x as u8) == x,
{
    assert(((((x >> 24u32) as u8) as u32) << 24u32) | ((((x >> 16u32) as u8) as u32) << 16u32)
        | ((((x >> 8u32) as u8) as u32) << 8u32) | ((x as u8) as u32) == x) by (bit_vector);
}

proof fn lemma_be64_split(x: u64)
    ensures
        ((((x >> 32u64) as u32) as u64) << 32u64) | ((x as u32) as u64) == x,
{
    assert(((((x >> 32u64) as u32) as u64) << 32u64) | ((x as u32) as u64) == x) by (bit_vector);
}

proof fn lemma_signed16(x: i16)
    ensures
        (x as u16) as i16 == x,
{
    assert((x as u16) as i16 == x) by (bit_vector);
}

proof fn lemma_signed32(x: i32)
    ensures
        (x as u32) as i32 == x,
{
    assert((x as u32) as i32 == x) by (bit_vector);
}

proof fn lemma_signed64(x: i64)
    ensures
        (x as u64) as i64 == x,
{
    assert((x as u64) as i64 == x) by (bit_vector);
}

/// Reading a `u16` back from its encoding gives the value written.
pub proof fn lemma_u16_roundtrip(x: u16, s: Seq<u8>, i: int)
    requires
        0 <= i,
        i + 2 <= s.len(),
        s.subrange(i, i + 2) == u16_bytes(x),
    ensures
        u16_at(s, i) == x,
{
    assert(s[i] == u16_bytes(x)[0]);
    assert(s[i + 1] == u16_bytes(x)[1]);
    lemma_be16_of_bytes(x);
}

/// Reading a `u32` back from its encoding gives the value written.
pub proof fn lemma_u32_roundtrip(x: u32, s: Seq<u8>, i: int)
    requires
        0 <= i,
        i + 4 <= s.len(),
        s.subrange(i, i + 4) == u32_bytes(x),
    ensures
        u32_at(s, i) == x,
{
    assert(s[i] == u32_bytes(x)[0]);
    assert(s[i + 1] == u32_bytes(x)[1]);
    assert(s[i + 2] == u32_bytes(x)[2]);
    assert(s[i + 3] == u32_bytes(x)[3]);
    lemma_be32_of_bytes(x);
}

/// Reading a `u64` back from its encoding gives the value written.
pub proof fn lemma_u64_roundtrip(x: u64, s: Seq<u8>, i: int)
    requires
        0 <= i,
        i + 8 <= s.len(),
        s.subrange(i, i + 8) == u64_bytes(x),
    ensures
        u64_at(s, i) == x,
{
    let hi = (x >> 32u64) as u32;
    let lo = x as u32;
    assert(s.subrange(i, i + 4) == u32_bytes(hi)) by {
        assert(s.subrange(i, i + 4) =~= s.subrange(i, i + 8).subrange(0, 4));
        assert(u64_bytes(x).subrange(0, 4) =~= u32_bytes(hi));
    }
    assert(s.subrange(i + 4, i + 8) == u32_bytes(lo)) by {
        assert(s.subrange(i + 4, i + 8) =~= s.subrange(i, i + 8).subrange(4, 8));
        assert(u64_bytes(x).subrange(4, 8) =~= u32_bytes(lo));
    }
    lemma_u32_roundtrip(hi, s, i);
    lemma_u32_roundtrip(lo, s, i + 4);
    lemma_be64_split(x);
}

/// Reading an `i16` back from its encoding gives the value written.
pub proof fn lemma_i16_roundtrip(x: i16, s: Seq<u8>, i: int)
    requires
        0 <= i,
        i + 2 <= s.len(),
        s.subrange(i, i + 2) == i16_bytes(x),
    ensures
        i16_at(s, i) == x,
{
    lemma_u16_roundtrip(x as u16, s, i);
    lemma_signed16(x);
}

/// Reading an `i32` back from its encoding gives the value written.
pub proof fn lemma_i32_roundtrip(x: i32, s: Seq<u8>, i: int)
    requires
        0 <= i,
        i + 4 <= s.len(),
        s.subrange(i, i + 4) == i32_bytes(x),
    ensures
        i32_at(s, i) == x,
{
    lemma_u32_roundtrip(x as u32, s, i);
    lemma_signed32(x);
}

/// Reading an `i64` back from its encoding gives the value written.
pub proof fn lemma_i64_roundtrip(x: i64, s: Seq<u8>, i: int)
    requires
        0 <= i,
        i + 8 <= s.len(),
        s.subrange(i, i + 8) == i64_bytes(x),
    ensures
        i64_at(s, i) == x,
{
    lemma_u64_roundtrip(x as u64, s, i);
    lemma_signed64(x);
}

/// The big-endian `u16` at byte `i` of `s`.
pub fn get_u16(s: &[u8], i: usize) -> (r: u16)
    requires
        i + 2 <= s@.len(),
    ensures
        r == u16_at(s@, i as int),
{
    ((s[i] as u16) << 8u16) | (s[i + 1] as u16)
}

/// The big-endian `u32` at byte `i` of `s`.
pub fn get_u32(s: &[u8], i: usize) -> (r: u32)
    requires
        i + 4 <= s@.len(),
    ensures
        r == u32_at(s@, i as int),
{
    ((s[i] as u32) << 24u32) | ((s[i + 1] as u32) << 16u32) | ((s[i + 2] as u32) << 8u32) | (s[i
        + 3] as u32)
}

/// The big-endian `u64` at byte `i` of `s`.
pub fn get_u64(s: &[u8], i: usize) -> (r: u64)
    requires
        i + 8 <= s@.len(),
    ensures
        r == u64_at(s@, i as int),
{
    let n = s.len();
    assert(i + 4 <= n);
    let hi = get_u32(s, i);
    let lo = get_u32(s, i + 4);
    ((hi as u64) << 32u64) | (lo as u64)
}

/// Append the big-endian bytes of `x` to `out`.
pub fn put_u16(out: &mut Vec<u8>, x: u16)
    ensures
        final(out)@ == old(out)@ + u16_bytes(x),
{
    out.push((x >> 8u16) as u8);
    out.push(x as u8);
    assert(final(out)@ =~= old(out)@ + u16_bytes(x));
}

/// Append the big-endian bytes of `x` to `out`.
pub fn put_u32(out: &mut Vec<u8>, x: u32)
    ensures
        final(out)@ == old(out)@ + u32_bytes(x),
{
    out.push((x >> 24u32) as u8);
    out.push((x >> 16u32) as u8);
    out.push((x >> 8u32) as u8);
    out.push(x as u8);
    assert(final(out)@ =~= old(out)@ + u32_bytes(x));
}

/// Append the big-endian bytes of `x` to `out`.
pub fn put_u64(out: &mut Vec<u8>, x: u64)
    ensures
        final(out)@ == old(out)@ + u64_bytes(x),
{
    put_u32(out, (x >> 32u64) as u32);
    put_u32(out, x as u32);
    assert(final(out)@ =~= old(out)@ + u64_bytes(x));
}


/// The `i16` at byte `i` of `s`.
pub fn get_i16(s: &[u8], i: usize) -> (r: i16)
    requires
        i + 2 <= s@.len(),
    ensures
        r == i16_at(s@, i as int),
{
    get_u16(s, i) as i16
}

/// The `i32` at byte `i` of `s`.
pub fn get_i32(s: &[u8], i: usize) -> (r: i32)
    requires
        i + 4 <= s@.len(),
    ensures
        r == i32_at(s@, i as int),
{
    get_u32(s, i) as i32
}

/// The `i64` at byte `i` of `s`.
pub fn get_i64(s: &[u8], i: usize) -> (r: i64)
    requires
        i + 8 <= s@.len(),
    ensures
        r == i64_at(s@, i as int),
{
    get_u64(s, i) as i64
}

/// The bytes of the values `x`, each encoded by `f`, one after another.
pub open spec fn concat_map<T>(x: Seq<T>, f: spec_fn(T) -> Seq<u8>) -> Seq<u8>
    decreases x.len(),
{
    if x.len() == 0 {
        Seq::empty()
    } else {
        concat_map(x.drop_last(), f) + f(x.last())
    }
}

/// Encoding one more value appends its bytes.
pub proof fn lemma_concat_map_push<T>(x: Seq<T>, t: T, f: spec_fn(T) -> Seq<u8>)
    ensures
        concat_map(x.push(t), f) == concat_map(x, f) + f(t),
{
    assert(x.push(t).drop_last() =~= x);
}

/// Encoding two runs of values one after the other encodes their concatenation.
pub proof fn lemma_concat_map_append<T>(a: Seq<T>, b: Seq<T>, f: spec_fn(T) -> Seq<u8>)
    ensures
        concat_map(a + b, f) == concat_map(a, f) + concat_map(b, f),
    decreases b.len(),
{
    if b.len() == 0 {
        assert(a + b =~= a);
        assert(concat_map(a, f) + concat_map(b, f) =~= concat_map(a, f));
    } else {
        lemma_concat_map_append(a, b.drop_last(), f);
        assert((a + b).drop_last() =~= a + b.drop_last());
        assert((a + b).last() == b.last());
        assert(concat_map(a + b, f) =~= concat_map(a, f) + concat_map(b, f));
    }
}

/// A prefix of the values encodes to a prefix of the bytes.
pub proof fn lemma_concat_map_prefix<T>(x: Seq<T>, i: int, f: spec_fn(T) -> Seq<u8>)
    requires
        0 <= i <= x.len(),
    ensures
        concat_map(x.take(i), f).len() <= concat_map(x, f).len(),
        concat_map(x, f) == concat_map(x.take(i), f) + concat_map(x.skip(i), f),
{
    lemma_concat_map_append(x.take(i), x.skip(i), f);
    assert(x.take(i) + x.skip(i) =~= x);
}

/// With every value encoded in `w` bytes, value `i` occupies bytes
/// `[w*i, w*i + w)`.
pub proof fn lemma_concat_map_fixed<T>(x: Seq<T>, f: spec_fn(T) -> Seq<u8>, w: nat)
    requires
        forall|i: int| 0 <= i < x.len() ==> #[trigger] f(x[i]).len() == w,
    ensures
        concat_map(x, f).len() == w * x.len(),
        forall|i: int|
            0 <= i < x.len() ==> #[trigger] concat_map(x, f).subrange(w * i, w * i + w) == f(x[i]),
    decreases x.len(),
{
    if x.len() > 0 {
        let p = x.drop_last();
        let n = p.len();
        lemma_concat_map_fixed(p, f, w);
        let c = concat_map(x, f);
        let cp = concat_map(p, f);
        assert(c == cp + f(x.last()));
        assert(f(x[x.len() - 1]).len() == w);
        assert(w * n + w == w * (n + 1)) by (nonlinear_arith);
        assert forall|i: int| 0 <= i < x.len() implies #[trigger] c.subrange(w * i, w * i + w) == f(
            x[i],
        ) by {
            if i < n {
                assert(w * i + w <= w * n) by (nonlinear_arith)
                    requires
                        i + 1 <= n,
                ;
                assert(0 <= w * i) by (nonlinear_arith)
                    requires
                        0 <= i,
                ;
                assert(c.subrange(w * i, w * i + w) =~= cp.subrange(w * i, w * i + w));
                assert(x[i] == p[i]);
            } else {
                assert(c.subrange(w * i, w * i + w) =~= f(x.last()));
            }
        }
    }
}

/// `i` is the first position of `x` in `s`.
pub open spec fn first_at(s: Seq<u8>, x: u8, i: int) -> bool {
    0 <= i < s.len() && s[i] == x && forall|j: int| 0 <= j < i ==> s[j] != x
}

/// The first position of `x` in `s`, if `x` occurs.
pub open spec fn index_of(s: Seq<u8>, x: u8) -> Option<int> {
    if exists|i: int| first_at(s, x, i) {
        Some(choose|i: int| first_at(s, x, i))
    } else {
        None
    }
}

pub proof fn lemma_index_of(s: Seq<u8>, x: u8, i: int)
    requires
        first_at(s, x, i),
    ensures
        index_of(s, x) == Some(i),
{
    let k = choose|k: int| first_at(s, x, k);
    assert(first_at(s, x, k));
    if k < i {
        assert(s[k] != x);
    }
    if i < k {
        assert(s[i] != x);
    }
}

/// The first position at or after `from` where `b` holds `x`.
pub fn find_byte(b: &[u8], from: usize, x: u8) -> (r: Option<usize>)
    requires
        from <= b@.len(),
    ensures
        match r {
            Some(i) => from <= i < b@.len() && b@[i as int] == x && index_of(b@.subrange(from as int, b@.len() as int), x) == Some(
                i - from,
            ),
            None => index_of(b@.subrange(from as int, b@.len() as int), x) is None,
        },
{
    let ghost t = b@.subrange(from as int, b@.len() as int);
    let mut i = from;
    while i < b.len()
        invariant
            from <= i <= b@.len(),
            t == b@.subrange(from as int, b@.len() as int),
            forall|j: int| 0 <= j < i - from ==> t[j] != x,
        decreases b@.len() - i,
    {
        if b[i] == x {
            proof {
                lemma_index_of(t, x, i - from);
            }
            return Some(i);
        }
        i += 1;
    }
    proof {
        assert(!exists|k: int| first_at(t, x, k)) by {
            assert forall|k: int| !first_at(t, x, k) by {
                if 0 <= k < t.len() {
                    assert(t[k] != x);
                }
            }
        }
    }
    None
}

} // verus!
