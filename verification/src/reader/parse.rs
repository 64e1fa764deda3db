//! Parsing tree metadata: the array shape a leaf title declares.

use vstd::prelude::*;
use vstd::string::StringSliceAdditionalSpecFns;
use crate::codec::{find_byte, i32_at, index_of, u32_at};
use crate::error::Error;
use crate::rbuffer::{tstring_at, version_at, RBuffer, K_BYTE_COUNT_MASK};
use crate::reader::Friend;
use crate::tags::{header_at, read_tnamed, read_tobject, tnamed_at, tobject_end, TagReader, K_CLASS_MASK, K_NEW_CLASS_TAG};
use crate::text::{bytes_eq, text_of};
use vstd::utf8::encode_utf8;

verus! {

/// The value of a string of decimal digits.
pub open spec fn digits_value(s: Seq<u8>) -> int
    decreases s.len(),
{
    if s.len() == 0 {
        0
    } else {
        digits_value(s.drop_last()) * 10 + (s.last() - 48)
    }
}

/// Whether every byte of `s` is an ASCII digit.
pub open spec fn all_digits(s: Seq<u8>) -> bool {
    forall|i: int| 0 <= i < s.len() ==> 48 <= #[trigger] s[i] <= 57
}

/// What `str::parse::<usize>` makes of `s`: an optional `+`, then one or more
/// decimal digits whose value fits in a `usize`.
pub open spec fn parse_usize(s: Seq<u8>) -> Option<usize> {
    let d = if s.len() > 0 && s[0] == 43 { s.subrange(1, s.len() as int) } else { s };
    if d.len() > 0 && all_digits(d) && digits_value(d) <= usize::MAX {
        Some(digits_value(d) as usize)
    } else {
        None
    }
}

/// The array dimensions a leaf title's bytes declare: each `[...]` in turn
/// (up to the first `]` after its `[`) that holds a number adds it; scanning
/// stops at a `[` with no closing `]`.
pub open spec fn dims_of(s: Seq<u8>) -> Seq<usize>
    decreases s.len(),
{
    match index_of(s, 91) {
        None => Seq::empty(),
        Some(o) => if 0 <= o < s.len() {
            let a = s.subrange(o + 1, s.len() as int);
            match index_of(a, 93) {
                None => Seq::empty(),
                Some(c) => if 0 <= c < a.len() {
                    let d = match parse_usize(a.subrange(0, c)) {
                        Some(n) => seq![n],
                        None => Seq::empty(),
                    };
                    d + dims_of(a.subrange(c + 1, a.len() as int))
                } else {
                    Seq::empty()
                },
            }
        } else {
            Seq::empty()
        },
    }
}

/// Parse `b[lo..hi]` as `str::parse::<usize>` does.
fn parse_usize_at(b: &[u8], lo: usize, hi: usize) -> (r: Option<usize>)
    requires
        lo <= hi <= b@.len(),
    ensures
        r == parse_usize(b@.subrange(lo as int, hi as int)),
{
    let ghost s = b@.subrange(lo as int, hi as int);
    let start = if lo < hi && b[lo] == 43 { lo + 1 } else { lo };
    let ghost d = b@.subrange(start as int, hi as int);
    assert(d == (if s.len() > 0 && s[0] == 43 { s.subrange(1, s.len() as int) } else { s }));
    if start == hi {
        return None;
    }
    let mut v: usize = 0;
    let mut i = start;
    while i < hi
        invariant
            start <= i <= hi <= b@.len(),
            start < hi,
            d == b@.subrange(start as int, hi as int),
            s == b@.subrange(lo as int, hi as int),
            d == (if s.len() > 0 && s[0] == 43 { s.subrange(1, s.len() as int) } else { s }),
            v == digits_value(b@.subrange(start as int, i as int)),
            all_digits(b@.subrange(start as int, i as int)),
        decreases hi - i,
    {
        let c = b[i];
        proof {
            assert(b@.subrange(start as int, i + 1).drop_last() == b@.subrange(start as int, i as int));
        }
        if c < 48 || c > 57 {
            assert(d[i - start] == c);
            assert(!all_digits(d));
            return None;
        }
        let digit = (c - 48) as usize;
        let m = v.checked_mul(10);
        match m {
            None => {
                proof {
                    lemma_digits_grow(d, i - start + 1);
                    assert(d.subrange(0, i - start + 1) == b@.subrange(start as int, i + 1));
                    assert(d.subrange(0, i - start) == b@.subrange(start as int, i as int));
                }
                return None;
            },
            Some(m) => match m.checked_add(digit) {
                None => {
                    proof {
                        lemma_digits_grow(d, i - start + 1);
                        assert(d.subrange(0, i - start + 1) == b@.subrange(start as int, i + 1));
                    }
                    return None;
                },
                Some(nv) => {
                    v = nv;
                },
            },
        }
        i += 1;
    }
    assert(b@.subrange(start as int, i as int) == d);
    Some(v)
}

/// A digit string's value is at least that of each of its prefixes, so once a
/// prefix overflows the whole does.
proof fn lemma_digits_grow(d: Seq<u8>, k: int)
    requires
        0 <= k <= d.len(),
        all_digits(d.subrange(0, k)) || true,
    ensures
        all_digits(d) ==> digits_value(d.subrange(0, k)) <= digits_value(d),
    decreases d.len() - k,
{
    if k == d.len() {
        assert(d.subrange(0, k) == d);
    }
    if k < d.len() && all_digits(d) {
        lemma_digits_grow(d, k + 1);
        assert(d.subrange(0, k + 1).drop_last() == d.subrange(0, k));
        assert(48 <= d[k] <= 57);
        lemma_digits_nonneg(d.subrange(0, k));
        assert(all_digits(d.subrange(0, k)));
    }
}

proof fn lemma_digits_nonneg(d: Seq<u8>)
    ensures
        all_digits(d) ==> digits_value(d) >= 0,
    decreases d.len(),
{
    if d.len() > 0 {
        lemma_digits_nonneg(d.drop_last());
        if all_digits(d) {
            assert(all_digits(d.drop_last()));
            assert(48 <= d[d.len() - 1] <= 57);
        }
    }
}

/// The per-entry array shape a leaf title declares: `[N]` for `x[N]`,
/// `[N, M]` for `x[N][M]`, empty for a scalar (`[n]` naming a count leaf is
/// skipped, since it is not a number).
pub fn parse_dims(title: &str) -> (r: Vec<usize>)
    ensures
        r@ == dims_of(title.spec_bytes()),
{
    let b = title.as_bytes();
    let n = b.len();
    let mut dims: Vec<usize> = Vec::new();
    let mut pos: usize = 0;
    assert(b@.subrange(0, n as int) == b@);
    loop
        invariant
            n == b@.len(),
            pos <= n,
            dims@ + dims_of(b@.subrange(pos as int, n as int)) == dims_of(b@),
        ensures
            dims@ == dims_of(b@),
        decreases n - pos,
    {
        let ghost s = b@.subrange(pos as int, n as int);
        let o = match find_byte(b, pos, 91) {
            Some(o) => o,
            None => {
                assert(dims_of(s) == Seq::<usize>::empty());
                assert(dims@ + Seq::<usize>::empty() == dims@);
                break;
            },
        };
        let ghost a = s.subrange(o - pos + 1, s.len() as int);
        assert(a == b@.subrange(o + 1, n as int));
        let c = match find_byte(b, o + 1, 93) {
            Some(c) => c,
            None => {
                assert(dims_of(s) == Seq::<usize>::empty());
                assert(dims@ + Seq::<usize>::empty() == dims@);
                break;
            },
        };
        assert(a.subrange(0, c - (o + 1)) == b@.subrange(o + 1, c as int));
        assert(a.subrange(c - (o + 1) + 1, a.len() as int) == b@.subrange(c + 1, n as int));
        let ghost old_dims = dims@;
        match parse_usize_at(b, o + 1, c) {
            Some(v) => {
                dims.push(v);
                assert(dims@ == old_dims + seq![v]);
            },
            None => {},
        }
        proof {
            let rest = dims_of(b@.subrange(c + 1, n as int));
            assert(dims@ + rest == old_dims + dims_of(s));
        }
        pos = c + 1;
    }
    dims
}

/// The end of a list header's tail — the list's `TObject`, its name and its
/// entry count (negative read as 0) — starting at `q`, with the list's end.
pub open spec fn tlist_tail(s: Seq<u8>, q: int, end: Option<usize>) -> Option<(Option<usize>, int, int)> {
    match tobject_end(s, q) {
        None => None,
        Some(q3) => match tstring_at(s, q3) {
            None => None,
            Some((_, q4)) => if q4 + 4 > s.len() {
                None
            } else {
                let n = i32_at(s, q4);
                Some((end, if n < 0 { 0 } else { n as int }, q4 + 4))
            },
        },
    }
}

/// A `TList` member at byte `p` (a null pointer reads as an empty list): the
/// list's end, its entry count, where its entries start and the classes seen
/// after its header. A list streamed as an object (a byte count then a class
/// tag) has an object header and then its own version header; otherwise its
/// version header comes first.
pub open spec fn tlist_at(s: Seq<u8>, p: int, base: u128, m: Seq<(u128, Seq<u8>)>) -> Option<
    (Option<usize>, int, int, Seq<(u128, Seq<u8>)>),
> {
    if p < 0 || p + 4 > s.len() {
        None
    } else if u32_at(s, p) == 0 {
        Some((None, 0, p + 4, m))
    } else if u32_at(s, p) & K_BYTE_COUNT_MASK != 0 {
        if p + 8 > s.len() {
            None
        } else if u32_at(s, p + 4) == K_NEW_CLASS_TAG || u32_at(s, p + 4) & K_CLASS_MASK != 0 {
            match header_at(s, p, base, m) {
                None => None,
                Some((_, e, q1, m1)) => match version_at(s, q1) {
                    None => None,
                    Some((_, q2)) => {
                        let end: Option<usize> = match e {
                            Some(x) => Some(x as usize),
                            None => None,
                        };
                        match tlist_tail(s, q2, end) {
                            None => None,
                            Some((en, n, q)) => Some((en, n, q, m1)),
                        }
                    },
                },
            }
        } else {
            match version_at(s, p) {
                None => None,
                Some((vh, q2)) => match tlist_tail(s, q2, vh.end) {
                    None => None,
                    Some((en, n, q)) => Some((en, n, q, m)),
                },
            }
        }
    } else {
        match version_at(s, p) {
            None => None,
            Some((vh, q2)) => match tlist_tail(s, q2, vh.end) {
                None => None,
                Some((en, n, q)) => Some((en, n, q, m)),
            },
        }
    }
}

/// Open a `TList` member: read its header, returning where the list ends (if
/// it carries a byte count) and how many entries it holds. A null pointer is
/// an empty list.
pub fn open_tlist(r: &mut RBuffer, tags: &mut TagReader) -> (res: Result<(Option<usize>, i32), Error>)
    ensures
        final(r).buf() == old(r).buf(),
        final(tags).key_base() == old(tags).key_base(),
        match tlist_at(old(r).buf(), old(r).cursor(), old(tags).key_base(), old(tags).seen()) {
            None => res is Err,
            Some((e, n, q, m)) => res matches Ok((e2, n2)) && e2 == e && n2 == n && final(r).cursor()
                == q && final(tags).seen() == m,
        },
{
    let ghost s = r.buf();
    let start = r.pos();
    let word = r.be_u32()?;
    if word == 0 {
        return Ok((None, 0));
    }
    r.seek(start)?;
    let end = if word & K_BYTE_COUNT_MASK != 0 {
        r.skip(4)?;
        let tag = r.be_u32()?;
        r.seek(start)?;
        if tag == K_NEW_CLASS_TAG || tag & K_CLASS_MASK != 0 {
            let header = tags.read_header(r)?;
            r.read_version()?;
            header.end
        } else {
            r.read_version()?.end
        }
    } else {
        r.read_version()?.end
    };
    read_tobject(r)?;
    r.string_bytes()?;
    let n = r.be_i32()?;
    Ok((end, if n < 0 { 0 } else { n }))
}

/// A friend as (tree name, file name, alias).
pub type FriendModel = (Seq<char>, Seq<char>, Seq<char>);

/// `x` before `rest`, when there is an `x`.
pub open spec fn cons_opt<T>(x: Option<T>, rest: Seq<T>) -> Seq<T> {
    match x {
        Some(v) => seq![v] + rest,
        None => rest,
    }
}

/// Where reading goes on after an entry: the entry's end when its header
/// gave one (and it lies within the buffer), else `q`.
pub open spec fn entry_end(s: Seq<u8>, e: Option<int>, q: int) -> Option<int> {
    match e {
        Some(x) => if x <= s.len() { Some(x) } else { None },
        None => Some(q),
    }
}

/// One entry of a `TList` of `TFriendElement`s at byte `p`: the friend it
/// holds (if the entry is a `TFriendElement`), where the next entry starts
/// (after the per-entry option string) and the classes seen.
#[verifier::opaque]
pub open spec fn friend_entry_at(s: Seq<u8>, p: int, base: u128, m: Seq<(u128, Seq<u8>)>) -> Option<
    (Option<FriendModel>, int, Seq<(u128, Seq<u8>)>),
> {
    match header_at(s, p, base, m) {
        None => None,
        Some((c, e, q, m1)) => {
            let inner: Option<(Option<FriendModel>, int)> = if c == Some(encode_utf8("TFriendElement"@)) {
                match version_at(s, q) {
                    None => None,
                    Some((vh, q1)) => match tnamed_at(s, q1) {
                        None => None,
                        Some((nm, tt, q2)) => match tstring_at(s, q2) {
                            None => None,
                            Some((a, q3)) => {
                                let f: FriendModel = (text_of(s.subrange(a, q3)), tt, nm);
                                match vh.end {
                                    Some(x) => if x <= s.len() {
                                        Some((Some(f), x as int))
                                    } else {
                                        None
                                    },
                                    None => Some((Some(f), q3)),
                                }
                            },
                        },
                    },
                }
            } else {
                Some((None, q))
            };
            match inner {
                None => None,
                Some((f, q4)) => match entry_end(s, e, q4) {
                    None => None,
                    Some(q5) => match tstring_at(s, q5) {
                        None => None,
                        Some((_, q6)) => Some((f, q6, m1)),
                    },
                },
            }
        },
    }
}

/// `k` consecutive friend-list entries from byte `p`: the friends, where
/// reading stops and the classes seen.
pub open spec fn friends_at(s: Seq<u8>, p: int, k: nat, base: u128, m: Seq<(u128, Seq<u8>)>) -> Option<
    (Seq<FriendModel>, int, Seq<(u128, Seq<u8>)>),
>
    decreases k,
{
    if k == 0 {
        Some((Seq::empty(), p, m))
    } else {
        match friend_entry_at(s, p, base, m) {
            None => None,
            Some((f, q, m1)) => match friends_at(s, q, (k - 1) as nat, base, m1) {
                None => None,
                Some((fs, q2, m2)) => Some((cons_opt(f, fs), q2, m2)),
            },
        }
    }
}

/// The models of friends.
pub open spec fn friend_models(v: Seq<Friend>) -> Seq<FriendModel> {
    v.map_values(|f: Friend| f.fields())
}

/// `got` followed by the friends of the rest of the list, when it reads.
pub open spec fn friends_after(got: Seq<FriendModel>, x: Option<(Seq<FriendModel>, int, Seq<(u128, Seq<u8>)>)>) -> Option<
    (Seq<FriendModel>, int, Seq<(u128, Seq<u8>)>),
> {
    match x {
        None => None,
        Some((fs, q, m)) => Some((got + fs, q, m)),
    }
}

/// The friends read so far, with one more entry's friend.
pub open spec fn with_friend(got: Seq<FriendModel>, f: Option<FriendModel>) -> Seq<FriendModel> {
    match f {
        Some(v) => got.push(v),
        None => got,
    }
}

proof fn lemma_friends_step(
    s: Seq<u8>,
    cur: int,
    k: nat,
    base: u128,
    m: Seq<(u128, Seq<u8>)>,
    f: Option<FriendModel>,
    q: int,
    m1: Seq<(u128, Seq<u8>)>,
    got: Seq<FriendModel>,
)
    requires
        k > 0,
        friend_entry_at(s, cur, base, m) == Some((f, q, m1)),
    ensures
        friends_after(got, friends_at(s, cur, k, base, m)) == friends_after(
            with_friend(got, f),
            friends_at(s, q, (k - 1) as nat, base, m1),
        ),
{
    match friends_at(s, q, (k - 1) as nat, base, m1) {
        Some((fs, q2, m2)) => match f {
            Some(v) => {
                assert(got + (seq![v] + fs) == got.push(v) + fs);
            },
            None => {},
        },
        None => {},
    }
}

/// Read one friend-list entry.
fn read_friend_entry(r: &mut RBuffer, tags: &mut TagReader) -> (res: Result<Option<Friend>, Error>)
    ensures
        final(r).buf() == old(r).buf(),
        final(tags).key_base() == old(tags).key_base(),
        match friend_entry_at(old(r).buf(), old(r).cursor(), old(tags).key_base(), old(tags).seen()) {
            None => res is Err,
            Some((f, q, m)) => res matches Ok(g) && (match g {
                Some(x) => f == Some(x.fields()),
                None => f is None,
            }) && final(r).cursor() == q && final(tags).seen() == m,
        },
{
    reveal(friend_entry_at);
    let ghost s = r.buf();
    let elem = tags.read_header(r)?;
    let mut out: Option<Friend> = None;
    let is_friend = match &elem.class_name {
        Some(c) => bytes_eq(c.as_slice(), "TFriendElement".as_bytes()),
        None => false,
    };
    if is_friend {
        let vh = r.read_version()?;
        let named = read_tnamed(r)?;
        let tree_name = r.string()?;
        out = Some(Friend::from_parts(tree_name, named.title, named.name));
        if let Some(end) = vh.end {
            r.seek(end)?;
        }
    }
    if let Some(end) = elem.end {
        r.seek(end)?;
    }
    r.string_bytes()?;
    Ok(out)
}

/// A `TTree`'s `fFriends` list at byte `p`: the friends, where reading
/// stops (the list's end when its header gives one) and the classes seen.
pub open spec fn friend_list_at(s: Seq<u8>, p: int, base: u128, m: Seq<(u128, Seq<u8>)>) -> Option<
    (Seq<FriendModel>, int, Seq<(u128, Seq<u8>)>),
> {
    match tlist_at(s, p, base, m) {
        None => None,
        Some((e, n, q, m1)) => match friends_at(s, q, n as nat, base, m1) {
            None => None,
            Some((fs, q2, m2)) => match e {
                Some(x) => if x <= s.len() {
                    Some((fs, x as int, m2))
                } else {
                    None
                },
                None => Some((fs, q2, m2)),
            },
        },
    }
}

/// Read a `TTree`'s `fFriends` (`TList<TFriendElement>` — the friends added
/// with `TTree::AddFriend`). A null pointer (no friends) reads as an empty
/// list. Each `TFriendElement` carries the friend's tree name (`fTreeName`),
/// the alias (`fName`), and the file it lives in (`fTitle`, empty for a
/// same-file friend).
pub fn read_friends(r: &mut RBuffer, tags: &mut TagReader) -> (res: Result<Vec<Friend>, Error>)
    ensures
        final(r).buf() == old(r).buf(),
        final(tags).key_base() == old(tags).key_base(),
        match friend_list_at(old(r).buf(), old(r).cursor(), old(tags).key_base(), old(tags).seen()) {
            None => res is Err,
            Some((fs, q, m)) => res matches Ok(v) && friend_models(v@) == fs && final(r).cursor() == q
                && final(tags).seen() == m,
        },
{
    let ghost s = r.buf();
    let ghost base = tags.key_base();
    let (end, n) = open_tlist(r, tags)?;
    let ghost q0 = r.cursor();
    let ghost m0 = tags.seen();
    let mut friends: Vec<Friend> = Vec::new();
    let ghost mut got: Seq<FriendModel> = Seq::empty();
    let mut i: i32 = 0;
    assert(friend_models(friends@) =~= got);
    while i < n
        invariant
            0 <= i <= n,
            r.buf() == s,
            old(r).buf() == s,
            old(tags).key_base() == base,
            tags.key_base() == base,
            tlist_at(s, old(r).cursor(), base, old(tags).seen()) == Some((end, n as int, q0, m0)),
            friend_models(friends@) == got,
            friends_at(s, q0, n as nat, base, m0) == friends_after(
                got,
                friends_at(s, r.cursor(), (n - i) as nat, base, tags.seen()),
            ),
        decreases n - i,
    {
        let ghost cur = r.cursor();
        let ghost mcur = tags.seen();
        let f = match read_friend_entry(r, tags) {
            Ok(f) => f,
            Err(e) => {
                assert(friends_at(s, cur, (n - i) as nat, base, mcur) is None);
                return Err(e);
            },
        };
        proof {
            let fm: Option<FriendModel> = match &f {
                Some(x) => Some(x.fields()),
                None => None,
            };
            lemma_friends_step(s, cur, (n - i) as nat, base, mcur, fm, r.cursor(), tags.seen(), got);
            got = with_friend(got, fm);
        }
        match f {
            Some(x) => {
                let ghost old_f = friends@;
                friends.push(x);
                assert(friend_models(friends@) =~= friend_models(old_f).push(friends@.last().fields()));
            },
            None => {},
        }
        i += 1;
    }
    assert(got + Seq::<FriendModel>::empty() == got);
    if let Some(e) = end {
        r.seek(e)?;
    }
    Ok(friends)
}

} // verus!
