//! Columns of fixed-width values: decoding them from, and encoding them to,
//! their contiguous big-endian bytes — and the proof that one undoes the other.

use vstd::prelude::*;
use crate::codec::{
    concat_map, get_i16, get_i32, get_i64, get_u16, get_u32, get_u64, i16_at, i16_bytes, i32_at,
    i32_bytes, i64_at, i64_bytes, lemma_concat_map_fixed, lemma_concat_map_push,
    lemma_i16_roundtrip, lemma_i32_roundtrip, lemma_i64_roundtrip, lemma_u16_roundtrip,
    lemma_u32_roundtrip, lemma_u64_roundtrip, put_u16, put_u32, put_u64, u16_at, u16_bytes,
    u32_at, u32_bytes, u64_at, u64_bytes,
};

verus! {

/// A value stored on disk in a fixed number of bytes.
pub trait Elem: Sized + Copy {
    /// How many bytes one value takes.
    spec fn width() -> nat;

    /// The bytes a value is stored as.
    spec fn enc(x: Self) -> Seq<u8>;

    /// The value `width()` bytes are read as.
    spec fn dec(s: Seq<u8>) -> Self;

    /// A width is between 1 and 8 bytes.
    proof fn lemma_width()
        ensures
            1 <= Self::width() <= 8,
    ;

    /// Encoding takes `width()` bytes and decoding undoes it.
    proof fn lemma_codec(x: Self)
        ensures
            Self::enc(x).len() == Self::width(),
            Self::dec(Self::enc(x)) == x,
    ;

    /// The width, at run time.
    fn size() -> (r: usize)
        ensures
            r == Self::width(),
    ;

    /// Decode the value stored at byte `i` of `s`.
    fn get(s: &[u8], i: usize) -> (r: Self)
        requires
            i + Self::width() <= s@.len(),
        ensures
            r == Self::dec(s@.subrange(i as int, i + Self::width())),
    ;

    /// Append the bytes of `x` to `out`.
    fn put(out: &mut Vec<u8>, x: Self)
        ensures
            final(out)@ == old(out)@ + Self::enc(x),
    ;
}

impl Elem for bool {
    open spec fn width() -> nat {
        1
    }

    open spec fn enc(x: bool) -> Seq<u8> {
        seq![if x { 1u8 } else { 0u8 }]
    }

    open spec fn dec(s: Seq<u8>) -> bool {
        s[0] != 0
    }

    proof fn lemma_width() {
    }

    proof fn lemma_codec(x: bool) {
    }

    fn size() -> usize {
        1
    }

    fn get(s: &[u8], i: usize) -> bool {
        s[i] != 0
    }

    fn put(out: &mut Vec<u8>, x: bool) {
        out.push(if x { 1u8 } else { 0u8 });
        assert(final(out)@ =~= old(out)@ + Self::enc(x));
    }
}

impl Elem for u8 {
    open spec fn width() -> nat {
        1
    }

    open spec fn enc(x: u8) -> Seq<u8> {
        seq![x]
    }

    open spec fn dec(s: Seq<u8>) -> u8 {
        s[0]
    }

    proof fn lemma_width() {
    }

    proof fn lemma_codec(x: u8) {
    }

    fn size() -> usize {
        1
    }

    fn get(s: &[u8], i: usize) -> u8 {
        s[i]
    }

    fn put(out: &mut Vec<u8>, x: u8) {
        out.push(x);
        assert(final(out)@ =~= old(out)@ + Self::enc(x));
    }
}

proof fn lemma_i8_cast(x: i8)
    ensures
        (x as u8) as i8 == x,
{
    assert((x as u8) as i8 == x) by (bit_vector);
}

impl Elem for i8 {
    open spec fn width() -> nat {
        1
    }

    open spec fn enc(x: i8) -> Seq<u8> {
        seq![x as u8]
    }

    open spec fn dec(s: Seq<u8>) -> i8 {
        s[0] as i8
    }

    proof fn lemma_width() {
    }

    proof fn lemma_codec(x: i8) {
        lemma_i8_cast(x);
    }

    fn size() -> usize {
        1
    }

    fn get(s: &[u8], i: usize) -> i8 {
        s[i] as i8
    }

    fn put(out: &mut Vec<u8>, x: i8) {
        out.push(x as u8);
        assert(final(out)@ =~= old(out)@ + Self::enc(x));
    }
}

impl Elem for i16 {
    open spec fn width() -> nat {
        2
    }

    open spec fn enc(x: i16) -> Seq<u8> {
        i16_bytes(x)
    }

    open spec fn dec(s: Seq<u8>) -> i16 {
        i16_at(s, 0)
    }

    proof fn lemma_width() {
    }

    proof fn lemma_codec(x: i16) {
        assert(i16_bytes(x).subrange(0, 2) =~= i16_bytes(x));
        lemma_i16_roundtrip(x, i16_bytes(x), 0);
    }

    fn size() -> usize {
        2
    }

    fn get(s: &[u8], i: usize) -> i16 {
        get_i16(s, i)
    }

    fn put(out: &mut Vec<u8>, x: i16) {
        put_u16(out, x as u16);
    }
}

impl Elem for u16 {
    open spec fn width() -> nat {
        2
    }

    open spec fn enc(x: u16) -> Seq<u8> {
        u16_bytes(x)
    }

    open spec fn dec(s: Seq<u8>) -> u16 {
        u16_at(s, 0)
    }

    proof fn lemma_width() {
    }

    proof fn lemma_codec(x: u16) {
        assert(u16_bytes(x).subrange(0, 2) =~= u16_bytes(x));
        lemma_u16_roundtrip(x, u16_bytes(x), 0);
    }

    fn size() -> usize {
        2
    }

    fn get(s: &[u8], i: usize) -> u16 {
        get_u16(s, i)
    }

    fn put(out: &mut Vec<u8>, x: u16) {
        put_u16(out, x);
    }
}

impl Elem for i32 {
    open spec fn width() -> nat {
        4
    }

    open spec fn enc(x: i32) -> Seq<u8> {
        i32_bytes(x)
    }

    open spec fn dec(s: Seq<u8>) -> i32 {
        i32_at(s, 0)
    }

    proof fn lemma_width() {
    }

    proof fn lemma_codec(x: i32) {
        assert(i32_bytes(x).subrange(0, 4) =~= i32_bytes(x));
        lemma_i32_roundtrip(x, i32_bytes(x), 0);
    }

    fn size() -> usize {
        4
    }

    fn get(s: &[u8], i: usize) -> i32 {
        get_i32(s, i)
    }

    fn put(out: &mut Vec<u8>, x: i32) {
        put_u32(out, x as u32);
    }
}

impl Elem for u32 {
    open spec fn width() -> nat {
        4
    }

    open spec fn enc(x: u32) -> Seq<u8> {
        u32_bytes(x)
    }

    open spec fn dec(s: Seq<u8>) -> u32 {
        u32_at(s, 0)
    }

    proof fn lemma_width() {
    }

    proof fn lemma_codec(x: u32) {
        assert(u32_bytes(x).subrange(0, 4) =~= u32_bytes(x));
        lemma_u32_roundtrip(x, u32_bytes(x), 0);
    }

    fn size() -> usize {
        4
    }

    fn get(s: &[u8], i: usize) -> u32 {
        get_u32(s, i)
    }

    fn put(out: &mut Vec<u8>, x: u32) {
        put_u32(out, x);
    }
}

impl Elem for i64 {
    open spec fn width() -> nat {
        8
    }

    open spec fn enc(x: i64) -> Seq<u8> {
        i64_bytes(x)
    }

    open spec fn dec(s: Seq<u8>) -> i64 {
        i64_at(s, 0)
    }

    proof fn lemma_width() {
    }

    proof fn lemma_codec(x: i64) {
        assert(i64_bytes(x).subrange(0, 8) =~= i64_bytes(x));
        lemma_i64_roundtrip(x, i64_bytes(x), 0);
    }

    fn size() -> usize {
        8
    }

    fn get(s: &[u8], i: usize) -> i64 {
        get_i64(s, i)
    }

    fn put(out: &mut Vec<u8>, x: i64) {
        put_u64(out, x as u64);
    }
}

impl Elem for u64 {
    open spec fn width() -> nat {
        8
    }

    open spec fn enc(x: u64) -> Seq<u8> {
        u64_bytes(x)
    }

    open spec fn dec(s: Seq<u8>) -> u64 {
        u64_at(s, 0)
    }

    proof fn lemma_width() {
    }

    proof fn lemma_codec(x: u64) {
        assert(u64_bytes(x).subrange(0, 8) =~= u64_bytes(x));
        lemma_u64_roundtrip(x, u64_bytes(x), 0);
    }

    fn size() -> usize {
        8
    }

    fn get(s: &[u8], i: usize) -> u64 {
        get_u64(s, i)
    }

    fn put(out: &mut Vec<u8>, x: u64) {
        put_u64(out, x);
    }
}

/// How values of type `T` are encoded.
pub open spec fn enc_fn<T: Elem>() -> spec_fn(T) -> Seq<u8> {
    |x: T| T::enc(x)
}

/// The values contiguous `T`-encoded bytes `s` hold (a trailing partial
/// value is dropped).
pub open spec fn elems_of<T: Elem>(s: Seq<u8>) -> Seq<T> {
    Seq::new(
        s.len() / T::width(),
        |i: int| T::dec(s.subrange(T::width() * i, T::width() * i + T::width())),
    )
}

/// The bytes of a row of values, one after another.
pub open spec fn row_bytes<T: Elem>(row: Seq<T>) -> Seq<u8> {
    concat_map(row, enc_fn::<T>())
}

/// Read `s` as contiguous `T` values.
pub fn read_elems<T: Elem>(s: &[u8]) -> (r: Vec<T>)
    ensures
        r@ == elems_of::<T>(s@),
{
    let n = s.len();
    let w = T::size();
    proof {
        T::lemma_width();
    }
    let mut v: Vec<T> = Vec::new();
    let mut p: usize = 0;
    assert(0 == w * v@.len()) by (nonlinear_arith)
        requires
            v@.len() == 0,
    ;
    while n - p >= w
        invariant
            p <= n,
            n == s@.len(),
            w == T::width(),
            1 <= w <= 8,
            p == w * v@.len(),
            forall|i: int|
                0 <= i < v@.len() ==> v@[i] == T::dec(s@.subrange(w * i, w * i + w)),
        decreases n - p,
    {
        assert(p + w == w * (v@.len() + 1)) by (nonlinear_arith)
            requires
                p == w * v@.len(),
        ;
        v.push(T::get(s, p));
        p += w;
    }
    assert(v@.len() == n / w) by (nonlinear_arith)
        requires
            p == w * v@.len(),
            p <= n,
            n - p < w,
            w >= 1,
    ;
    assert(v@ =~= elems_of::<T>(s@));
    v
}

/// Append the bytes of every value of `x` to `out`.
pub fn write_elems<T: Elem>(out: &mut Vec<u8>, x: &[T])
    ensures
        final(out)@ == old(out)@ + row_bytes(x@),
{
    let mut i: usize = 0;
    while i < x.len()
        invariant
            i <= x@.len(),
            out@ == old(out)@ + row_bytes(x@.subrange(0, i as int)),
        decreases x@.len() - i,
    {
        proof {
            lemma_concat_map_push(x@.subrange(0, i as int), x@[i as int], enc_fn::<T>());
            assert(x@.subrange(0, i as int).push(x@[i as int]) =~= x@.subrange(0, i + 1));
        }
        T::put(out, x[i]);
        i += 1;
        proof {
            assert(out@ =~= old(out)@ + row_bytes(x@.subrange(0, i as int)));
        }
    }
    assert(x@.subrange(0, x@.len() as int) =~= x@);
}

/// Each value of `x` takes `width()` bytes of its encoding, at its place.
pub proof fn lemma_row_bytes_layout<T: Elem>(x: Seq<T>)
    ensures
        row_bytes(x).len() == T::width() * x.len(),
        forall|i: int|
            0 <= i < x.len() ==> #[trigger] row_bytes(x).subrange(
                T::width() * i,
                T::width() * i + T::width(),
            ) == T::enc(x[i]),
{
    assert forall|t: T| #[trigger] enc_fn::<T>()(t).len() == T::width() by {
        T::lemma_codec(t);
    }
    lemma_concat_map_fixed(x, enc_fn::<T>(), T::width());
}

/// Decoding the encoding of `x` gives back `x`.
pub proof fn lemma_elems_roundtrip<T: Elem>(x: Seq<T>)
    ensures
        elems_of::<T>(row_bytes(x)) == x,
{
    let c = row_bytes(x);
    let w = T::width();
    T::lemma_width();
    lemma_row_bytes_layout(x);
    assert(c.len() / w == x.len()) by (nonlinear_arith)
        requires
            c.len() == w * x.len(),
            w >= 1,
    ;
    assert forall|i: int| 0 <= i < x.len() implies #[trigger] elems_of::<T>(c)[i] == x[i] by {
        assert(c.subrange(w * i, w * i + w) == T::enc(x[i]));
        T::lemma_codec(x[i]);
    }
    assert(elems_of::<T>(c) =~= x);
}

/// The values each region holds.
pub open spec fn elem_rows<T: Elem>(rs: Seq<Seq<u8>>) -> Seq<Seq<T>> {
    rs.map_values(|r: Seq<u8>| elems_of::<T>(r))
}

/// Read each region as contiguous `T` values, one row per region.
pub fn read_rows<T: Elem>(regions: &[&[u8]]) -> (r: Vec<Vec<T>>)
    ensures
        crate::value::rows(r@) == elem_rows::<T>(regions@.map_values(|x: &[u8]| x@)),
{
    let mut out: Vec<Vec<T>> = Vec::new();
    let mut i: usize = 0;
    while i < regions.len()
        invariant
            i <= regions@.len(),
            out@.len() == i,
            forall|j: int| 0 <= j < i ==> #[trigger] out@[j]@ == elems_of::<T>(regions@[j]@),
        decreases regions@.len() - i,
    {
        let row = read_elems::<T>(regions[i]);
        out.push(row);
        i += 1;
    }
    assert(crate::value::rows(out@) =~= elem_rows::<T>(regions@.map_values(|x: &[u8]| x@)));
    out
}

/// How a row of values is encoded.
pub open spec fn row_fn<T: Elem>() -> spec_fn(Seq<T>) -> Seq<u8> {
    |row: Seq<T>| row_bytes(row)
}

/// The bytes of several rows, each row's values one after another.
pub open spec fn rows_bytes<T: Elem>(rs: Seq<Seq<T>>) -> Seq<u8> {
    concat_map(rs, row_fn::<T>())
}

/// Append the bytes of every row of `rows` to `out`.
pub fn write_rows<T: Elem>(out: &mut Vec<u8>, rows: &[Vec<T>])
    ensures
        final(out)@ == old(out)@ + rows_bytes(crate::value::rows(rows@)),
{
    let ghost rs = crate::value::rows(rows@);
    let mut i: usize = 0;
    while i < rows.len()
        invariant
            i <= rows@.len(),
            rs == crate::value::rows(rows@),
            out@ == old(out)@ + rows_bytes(rs.subrange(0, i as int)),
        decreases rows@.len() - i,
    {
        proof {
            lemma_concat_map_push(rs.subrange(0, i as int), rs[i as int], row_fn::<T>());
            assert(rs.subrange(0, i as int).push(rs[i as int]) =~= rs.subrange(0, i + 1));
        }
        write_elems(out, rows[i].as_slice());
        i += 1;
        proof {
            assert(out@ =~= old(out)@ + rows_bytes(rs.subrange(0, i as int)));
        }
    }
    assert(rs.subrange(0, rs.len() as int) =~= rs);
}


/// An integer value that can be compared and widened.
pub trait IntElem: Elem {
    /// The integer a value stands for.
    spec fn val(x: Self) -> int;

    /// Whether `a` is less than `b`.
    fn less(a: Self, b: Self) -> (r: bool)
        ensures
            r == (Self::val(a) < Self::val(b)),
    ;

    /// The value as an `i64` (wrapping for `u64` values above `i64::MAX`).
    fn widen(x: Self) -> (r: i64)
        ensures
            r == Self::val(x) as i64,
    ;
}

impl IntElem for i8 {
    open spec fn val(x: i8) -> int {
        x as int
    }

    fn less(a: i8, b: i8) -> bool {
        a < b
    }

    fn widen(x: i8) -> i64 {
        x as i64
    }
}

impl IntElem for u8 {
    open spec fn val(x: u8) -> int {
        x as int
    }

    fn less(a: u8, b: u8) -> bool {
        a < b
    }

    fn widen(x: u8) -> i64 {
        x as i64
    }
}

impl IntElem for i16 {
    open spec fn val(x: i16) -> int {
        x as int
    }

    fn less(a: i16, b: i16) -> bool {
        a < b
    }

    fn widen(x: i16) -> i64 {
        x as i64
    }
}

impl IntElem for u16 {
    open spec fn val(x: u16) -> int {
        x as int
    }

    fn less(a: u16, b: u16) -> bool {
        a < b
    }

    fn widen(x: u16) -> i64 {
        x as i64
    }
}

impl IntElem for i32 {
    open spec fn val(x: i32) -> int {
        x as int
    }

    fn less(a: i32, b: i32) -> bool {
        a < b
    }

    fn widen(x: i32) -> i64 {
        x as i64
    }
}

impl IntElem for u32 {
    open spec fn val(x: u32) -> int {
        x as int
    }

    fn less(a: u32, b: u32) -> bool {
        a < b
    }

    fn widen(x: u32) -> i64 {
        x as i64
    }
}

impl IntElem for i64 {
    open spec fn val(x: i64) -> int {
        x as int
    }

    fn less(a: i64, b: i64) -> bool {
        a < b
    }

    fn widen(x: i64) -> i64 {
        x as i64
    }
}

impl IntElem for u64 {
    open spec fn val(x: u64) -> int {
        x as int
    }

    fn less(a: u64, b: u64) -> bool {
        a < b
    }

    fn widen(x: u64) -> i64 {
        x as i64
    }
}

/// The integers a row of values stands for.
pub open spec fn vals<T: IntElem>(x: Seq<T>) -> Seq<int> {
    x.map_values(|t: T| T::val(t))
}

/// The largest of `s`, or 0 when `s` is empty.
pub open spec fn max_or_zero(s: Seq<int>) -> int
    decreases s.len(),
{
    if s.len() == 0 {
        0
    } else if s.len() == 1 {
        s[0]
    } else {
        let m = max_or_zero(s.drop_last());
        if s.last() > m { s.last() } else { m }
    }
}

/// The largest value of `x` (0 when empty), as an `i64`.
pub fn max_of<T: IntElem>(x: &[T]) -> (r: i64)
    ensures
        r == max_or_zero(vals(x@)) as i64,
{
    if x.len() == 0 {
        return 0;
    }
    let mut m = x[0];
    let mut i: usize = 1;
    proof {
        assert(vals(x@).subrange(0, 1) =~= seq![T::val(x@[0])]);
    }
    while i < x.len()
        invariant
            1 <= i <= x@.len(),
            T::val(m) == max_or_zero(vals(x@).subrange(0, i as int)),
        decreases x@.len() - i,
    {
        proof {
            assert(vals(x@).subrange(0, i + 1).drop_last() =~= vals(x@).subrange(0, i as int));
        }
        if T::less(m, x[i]) {
            m = x[i];
        }
        i += 1;
    }
    proof {
        assert(vals(x@).subrange(0, x@.len() as int) =~= vals(x@));
    }
    T::widen(m)
}

} // verus!
