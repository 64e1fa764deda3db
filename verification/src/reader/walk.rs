//! Parsing the `TTree` object — the tree, its branches, leaves, friends,
//! aliases and index — by walking the member list of each class in the
//! file's own `TStreamerInfo` rather than reading at fixed offsets.
//!
//! The readers follow one another through the object: reading a `TTree`
//! walks its streamer elements, an object member such as `fBranches` reads a
//! `TObjArray` of branches, each branch walks its own class's elements, and
//! a branch's `fBranches` nests again. Every read moves the cursor forward
//! or leaves it: an object's byte count never points before the object, so
//! a record that would send the cursor back is refused rather than followed.

use vstd::prelude::*;
use crate::codec::{u32_at, u64_at};
use crate::error::{Error, Issue};
use crate::rbuffer::{tstring_at, version_at, RBuffer};
use crate::reader::members::{
    basic_at, basic_kind, element_views, find_info, lemma_find_info_in, member_int, member_ints, member_str,
    model_int, read_basic, spec_basic_kind, spec_member_int, spec_member_ints, spec_member_str, MemberModel,
    MemberSeq, MemberVal, Members, StreamerElement, StreamerInfo, StreamerRegistry, copy_elements,
};
use crate::reader::parse::{
    dims_of, entry_end, friend_list_at, friend_models, open_tlist, parse_dims, read_friends, tlist_at,
    FriendModel,
};
use crate::reader::types::{
    member_leaf_type, parse_nested_vector_elem, parse_vector_elem, spec_member_leaf_type,
    spec_parse_nested_vector_elem, spec_parse_vector_elem, spec_streamer_type_to_leaf, streamer_type_to_leaf,
};
use crate::reader::{
    branch_views, leaf_views, skipped_views, Branch, BranchView, Friend, Leaf, LeafView, ObjectMember, SkipReason,
    Skipped, SkippedView, TreeIndex, TreeIndexView,
};
use crate::tags::{header_at, read_tnamed, read_tobject, tnamed_at, tobject_end, TagReader};
use crate::text::{bytes_eq, concat_str, str_eq, text_from_bytes, text_of};
use crate::value::{spec_from_leaf, LeafType};
use vstd::utf8::encode_utf8;

verus! {

/// Step over an inline object member: to the end its version header's byte
/// count gives, else past a single trailing byte (as `TIOFeatures` has).
pub open spec fn skip_object_at(s: Seq<u8>, p: int) -> Option<int> {
    match version_at(s, p) {
        None => None,
        Some((vh, q)) => match vh.end {
            Some(e) => if e <= s.len() {
                Some(e as int)
            } else {
                None
            },
            None => if q + 1 <= s.len() {
                Some(q + 1)
            } else {
                None
            },
        },
    }
}

/// Skip an inline object member.
pub fn skip_object(r: &mut RBuffer) -> (res: Result<(), Error>)
    ensures
        final(r).buf() == old(r).buf(),
        match skip_object_at(old(r).buf(), old(r).cursor()) {
            None => res is Err,
            Some(q) => res is Ok && final(r).cursor() == q,
        },
{
    let vh = r.read_version()?;
    match vh.end {
        Some(end) => {
            r.seek(end)?;
        },
        None => {
            r.u8()?;
        },
    }
    Ok(())
}

/// The `{version}`, `TObject` and name that begin a `TObjArray` or `TList`:
/// where reading goes on after them.
pub open spec fn collection_head_at(s: Seq<u8>, p: int) -> Option<int> {
    match version_at(s, p) {
        None => None,
        Some((_, q)) => match tobject_end(s, q) {
            None => None,
            Some(q2) => match tstring_at(s, q2) {
                None => None,
                Some((_, e)) => Some(e),
            },
        },
    }
}

/// Read the `{version}`, `TObject` and name prefix of a collection.
pub fn read_collection_head(r: &mut RBuffer) -> (res: Result<(), Error>)
    ensures
        final(r).buf() == old(r).buf(),
        match collection_head_at(old(r).buf(), old(r).cursor()) {
            None => res is Err,
            Some(q) => res is Ok && final(r).cursor() == q,
        },
{
    r.read_version()?;
    read_tobject(r)?;
    r.string_bytes()?;
    Ok(())
}

/// A `TObjArray`'s header: its size (negative read as 0) and where its
/// entries start.
pub open spec fn array_head_at(s: Seq<u8>, p: int) -> Option<(int, int)> {
    match collection_head_at(s, p) {
        None => None,
        Some(q) => if q + 8 > s.len() {
            None
        } else {
            let n = u32_at(s, q) as i32;
            Some((if n < 0 {
                0
            } else {
                n as int
            }, q + 8))
        },
    }
}

/// Read a `TObjArray`'s header, returning its size.
fn read_array_head(r: &mut RBuffer) -> (res: Result<i32, Error>)
    ensures
        final(r).buf() == old(r).buf(),
        match array_head_at(old(r).buf(), old(r).cursor()) {
            None => res is Err,
            Some((n, q)) => res matches Ok(k) && k == n && final(r).cursor() == q,
        },
{
    read_collection_head(r)?;
    let size = r.be_i32()?;
    let _lower = r.be_i32()?;
    Ok(if size < 0 {
        0
    } else {
        size
    })
}

/// Entries `k..n` of an array whose contents are only stepped over: where
/// reading stops and the classes seen.
pub open spec fn skip_items_at(s: Seq<u8>, kb: u128, k: int, n: int, p: int, m: Seq<(u128, Seq<u8>)>) -> Option<
    (int, Seq<(u128, Seq<u8>)>),
>
    decreases n - k,
{
    if k >= n {
        Some((p, m))
    } else {
        match header_at(s, p, kb, m) {
            None => None,
            Some((_, e, q, m1)) => match entry_end(s, e, q) {
                None => None,
                Some(q2) => skip_items_at(s, kb, k + 1, n, q2, m1),
            },
        }
    }
}

/// A `TObjArray` whose entries are stepped over (a branch's `fBaskets`).
pub open spec fn skip_array_at(s: Seq<u8>, p: int, kb: u128, m: Seq<(u128, Seq<u8>)>) -> Option<
    (int, Seq<(u128, Seq<u8>)>),
> {
    match array_head_at(s, p) {
        None => None,
        Some((n, q)) => skip_items_at(s, kb, 0, n, q, m),
    }
}

/// Read a `TObjArray` and discard it.
pub fn read_skip_array(r: &mut RBuffer, tags: &mut TagReader) -> (res: Result<(), Error>)
    ensures
        final(r).buf() == old(r).buf(),
        final(tags).key_base() == old(tags).key_base(),
        match skip_array_at(old(r).buf(), old(r).cursor(), old(tags).key_base(), old(tags).seen()) {
            None => res is Err,
            Some((q, m)) => res is Ok && final(r).cursor() == q && final(tags).seen() == m,
        },
{
    let ghost s = r.buf();
    let ghost kb = tags.key_base();
    let n = read_array_head(r)?;
    let ghost q0 = r.cursor();
    let ghost m0 = tags.seen();
    let mut k: i32 = 0;
    while k < n
        invariant
            0 <= k <= n,
            r.buf() == s,
            old(r).buf() == s,
            tags.key_base() == kb,
            old(tags).key_base() == kb,
            skip_array_at(s, old(r).cursor(), kb, old(tags).seen()) == skip_items_at(s, kb, 0, n as int, q0, m0),
            skip_items_at(s, kb, 0, n as int, q0, m0) == skip_items_at(
                s,
                kb,
                k as int,
                n as int,
                r.cursor(),
                tags.seen(),
            ),
        decreases n - k,
    {
        let h = tags.read_header(r)?;
        if let Some(end) = h.end {
            r.seek(end)?;
        }
        k += 1;
    }
    Ok(())
}

/// One `TLeaf*` at byte `p`, its object header's class naming its kind:
/// the leaf (when its class and signedness name a supported type) and where
/// reading stops — after the subclass and `TLeaf` version headers, the
/// name and title, `fLen`, `fLenType`, `fOffset`, `fIsRange` and
/// `fIsUnsigned`.
pub open spec fn leaf_at(s: Seq<u8>, p: int, class: Seq<u8>) -> Option<(Option<LeafView>, int)> {
    match version_at(s, p) {
        None => None,
        Some((_, q1)) => match version_at(s, q1) {
            None => None,
            Some((_, q2)) => match tnamed_at(s, q2) {
                None => None,
                Some((nm, tt, q3)) => if q3 + 14 > s.len() {
                    None
                } else {
                    let len = u32_at(s, q3) as i32;
                    let off = u32_at(s, q3 + 8) as i32;
                    let unsigned = s[q3 + 13] != 0;
                    let lv = match spec_from_leaf(text_of(class), unsigned) {
                        Some(lt) => Some(
                            LeafView {
                                name: nm,
                                title: tt,
                                leaf_type: lt,
                                len,
                                offset: (if off < 0 {
                                    0
                                } else {
                                    off
                                }) as usize,
                            },
                        ),
                        None => None,
                    };
                    Some((lv, q3 + 14))
                },
            },
        },
    }
}

/// Read one `TLeaf*` body (after its object header) enough to recover its
/// name, element type, `fLen` and `fOffset`; the rest is stepped over by
/// the caller through the leaf's byte count.
pub fn read_leaf(r: &mut RBuffer, class: &[u8]) -> (res: Result<Option<Leaf>, Error>)
    ensures
        final(r).buf() == old(r).buf(),
        match leaf_at(old(r).buf(), old(r).cursor(), class@) {
            None => res is Err,
            Some((lv, q)) => res matches Ok(l) && final(r).cursor() == q && match l {
                Some(x) => lv == Some(x@),
                None => lv is None,
            },
        },
{
    r.read_version()?;
    r.read_version()?;
    let named = read_tnamed(r)?;
    let len = r.be_i32()?;
    r.be_i32()?;
    let offset = r.be_i32()?;
    r.u8()?;
    let unsigned = r.u8()? != 0;
    let cls = text_from_bytes(class);
    match LeafType::from_leaf(cls.as_str(), unsigned) {
        Some(leaf_type) => Ok(
            Some(
                Leaf {
                    name: named.name,
                    title: named.title,
                    leaf_type,
                    len,
                    offset: if offset < 0 {
                        0
                    } else {
                        offset as usize
                    },
                },
            ),
        ),
        None => Ok(None),
    }
}

/// Entries `k..n` of a `TObjArray` of leaves, after the leaves `acc`
/// already read: the supported leaves, where reading stops and the classes
/// seen.
pub open spec fn leaf_items_at(
    s: Seq<u8>,
    kb: u128,
    k: int,
    n: int,
    p: int,
    m: Seq<(u128, Seq<u8>)>,
    acc: Seq<LeafView>,
) -> Option<(Seq<LeafView>, int, Seq<(u128, Seq<u8>)>)>
    decreases n - k,
{
    if k >= n {
        Some((acc, p, m))
    } else {
        match header_at(s, p, kb, m) {
            None => None,
            Some((c, e, q, m1)) => {
                let got: Option<(Seq<LeafView>, int)> = match c {
                    Some(cls) => match leaf_at(s, q, cls) {
                        None => None,
                        Some((lv, q2)) => Some(
                            (
                                match lv {
                                    Some(l) => acc.push(l),
                                    None => acc,
                                },
                                q2,
                            ),
                        ),
                    },
                    None => Some((acc, q)),
                };
                match got {
                    None => None,
                    Some((acc2, q2)) => match entry_end(s, e, q2) {
                        None => None,
                        Some(q3) => leaf_items_at(s, kb, k + 1, n, q3, m1, acc2),
                    },
                }
            },
        }
    }
}

/// A `TObjArray` of `TLeaf`s: the supported leaves, where reading stops and
/// the classes seen.
pub open spec fn leaf_array_at(s: Seq<u8>, p: int, kb: u128, m: Seq<(u128, Seq<u8>)>) -> Option<
    (Seq<LeafView>, int, Seq<(u128, Seq<u8>)>),
> {
    match array_head_at(s, p) {
        None => None,
        Some((n, q)) => leaf_items_at(s, kb, 0, n, q, m, Seq::empty()),
    }
}

/// Read a `TObjArray` of `TLeaf`s, keeping the leaves of supported types.
pub fn read_leaf_array(r: &mut RBuffer, tags: &mut TagReader) -> (res: Result<Vec<Leaf>, Error>)
    ensures
        final(r).buf() == old(r).buf(),
        final(tags).key_base() == old(tags).key_base(),
        match leaf_array_at(old(r).buf(), old(r).cursor(), old(tags).key_base(), old(tags).seen()) {
            None => res is Err,
            Some((ls, q, m)) => res matches Ok(v) && leaf_views(v@) == ls && final(r).cursor() == q
                && final(tags).seen() == m,
        },
{
    let ghost s = r.buf();
    let ghost kb = tags.key_base();
    let n = read_array_head(r)?;
    let ghost q0 = r.cursor();
    let ghost m0 = tags.seen();
    let mut leaves: Vec<Leaf> = Vec::new();
    let mut k: i32 = 0;
    assert(leaf_views(leaves@) =~= Seq::<LeafView>::empty());
    while k < n
        invariant
            0 <= k <= n,
            r.buf() == s,
            old(r).buf() == s,
            tags.key_base() == kb,
            old(tags).key_base() == kb,
            leaf_array_at(s, old(r).cursor(), kb, old(tags).seen()) == leaf_items_at(
                s,
                kb,
                0,
                n as int,
                q0,
                m0,
                Seq::empty(),
            ),
            leaf_items_at(s, kb, 0, n as int, q0, m0, Seq::empty()) == leaf_items_at(
                s,
                kb,
                k as int,
                n as int,
                r.cursor(),
                tags.seen(),
                leaf_views(leaves@),
            ),
        decreases n - k,
    {
        let h = tags.read_header(r)?;
        if let Some(class) = &h.class_name {
            let got = read_leaf(r, class.as_slice())?;
            if let Some(leaf) = got {
                let ghost before = leaves@;
                leaves.push(leaf);
                assert(leaf_views(leaves@) =~= leaf_views(before).push(leaves@.last()@));
            }
        }
        if let Some(end) = h.end {
            r.seek(end)?;
        }
        k += 1;
    }
    Ok(leaves)
}

/// `k` more basic values of width `width` from byte `p`, widened to
/// integers (a float reads as 0) after those in `acc`, and where reading
/// stops.
pub open spec fn ints_at(s: Seq<u8>, p: int, width: usize, is_float: bool, k: int, acc: Seq<i64>) -> Option<
    (Seq<i64>, int),
>
    decreases k,
{
    if k <= 0 {
        Some((acc, p))
    } else {
        match basic_at(s, p, width, is_float) {
            None => None,
            Some((v, q)) => ints_at(s, q, width, is_float, k - 1, acc.push(model_int(v))),
        }
    }
}

/// Read `count` basic values, each widened to an integer.
pub fn read_counted(r: &mut RBuffer, width: usize, is_float: bool, count: usize) -> (res: Result<Vec<i64>, Error>)
    ensures
        final(r).buf() == old(r).buf(),
        match ints_at(old(r).buf(), old(r).cursor(), width, is_float, count as int, Seq::empty()) {
            None => res is Err,
            Some((v, q)) => res matches Ok(x) && x@ == v && final(r).cursor() == q,
        },
{
    let ghost s = r.buf();
    let ghost p0 = r.cursor();
    let mut vals: Vec<i64> = Vec::new();
    let mut j: usize = 0;
    while j < count
        invariant
            j <= count,
            r.buf() == s,
            old(r).buf() == s,
            old(r).cursor() == p0,
            ints_at(s, p0, width, is_float, count as int, Seq::empty()) == ints_at(
                s,
                r.cursor(),
                width,
                is_float,
                count - j,
                vals@,
            ),
        decreases count - j,
    {
        let v = crate::reader::members::read_basic(r, width, is_float)?;
        vals.push(v.as_int());
        j += 1;
    }
    Ok(vals)
}

/// Where reading stops after `k` basic values of width `width` from `p`.
pub open spec fn skip_basics_at(s: Seq<u8>, p: int, width: usize, is_float: bool, k: int) -> Option<int>
    decreases k,
{
    if k <= 0 {
        Some(p)
    } else {
        match basic_at(s, p, width, is_float) {
            None => None,
            Some((_, q)) => skip_basics_at(s, q, width, is_float, k - 1),
        }
    }
}

/// Read and drop `n` basic values (a fixed array member that is not kept).
pub fn skip_basics(r: &mut RBuffer, width: usize, is_float: bool, n: i32) -> (res: Result<(), Error>)
    ensures
        final(r).buf() == old(r).buf(),
        match skip_basics_at(old(r).buf(), old(r).cursor(), width, is_float, n as int) {
            None => res is Err,
            Some(q) => res is Ok && final(r).cursor() == q,
        },
{
    let ghost s = r.buf();
    let ghost p0 = r.cursor();
    let mut j: i32 = 0;
    while j < n
        invariant
            0 <= j,
            n > 0 ==> j <= n,
            r.buf() == s,
            old(r).buf() == s,
            old(r).cursor() == p0,
            skip_basics_at(s, p0, width, is_float, n as int) == skip_basics_at(
                s,
                r.cursor(),
                width,
                is_float,
                n - j,
            ),
        decreases n - j,
    {
        crate::reader::members::read_basic(r, width, is_float)?;
        j += 1;
    }
    Ok(())
}


/// An alias as (name, expression).
pub type AliasView = (Seq<char>, Seq<char>);

/// The views of aliases.
pub open spec fn alias_views(v: Seq<(String, String)>) -> Seq<AliasView> {
    v.map_values(|a: (String, String)| (a.0@, a.1@))
}

/// One entry of a `TList` of `TNamed` aliases at byte `p`: the alias (when
/// the entry is a `TNamed`), where the next entry starts (after the
/// per-entry option string) and the classes seen.
pub open spec fn alias_entry_at(s: Seq<u8>, p: int, kb: u128, m: Seq<(u128, Seq<u8>)>) -> Option<
    (Option<AliasView>, int, Seq<(u128, Seq<u8>)>),
> {
    match header_at(s, p, kb, m) {
        None => None,
        Some((c, e, q, m1)) => {
            let inner: Option<(Option<AliasView>, int)> = if c == Some(encode_utf8("TNamed"@)) {
                match tnamed_at(s, q) {
                    None => None,
                    Some((nm, tt, q2)) => Some((Some((nm, tt)), q2)),
                }
            } else {
                Some((None, q))
            };
            match inner {
                None => None,
                Some((a, q4)) => match entry_end(s, e, q4) {
                    None => None,
                    Some(q5) => match tstring_at(s, q5) {
                        None => None,
                        Some((_, q6)) => Some((a, q6, m1)),
                    },
                },
            }
        },
    }
}

/// Entries `k..n` of an alias list after the aliases `acc`: the aliases,
/// where reading stops and the classes seen.
pub open spec fn alias_items_at(
    s: Seq<u8>,
    kb: u128,
    k: int,
    n: int,
    p: int,
    m: Seq<(u128, Seq<u8>)>,
    acc: Seq<AliasView>,
) -> Option<(Seq<AliasView>, int, Seq<(u128, Seq<u8>)>)>
    decreases n - k,
{
    if k >= n {
        Some((acc, p, m))
    } else {
        match alias_entry_at(s, p, kb, m) {
            None => None,
            Some((a, q, m1)) => alias_items_at(
                s,
                kb,
                k + 1,
                n,
                q,
                m1,
                match a {
                    Some(x) => acc.push(x),
                    None => acc,
                },
            ),
        }
    }
}

/// A `TTree`'s `fAliases` list at byte `p`: the aliases, where reading
/// stops (the list's end when its header gives one) and the classes seen.
pub open spec fn aliases_at(s: Seq<u8>, p: int, kb: u128, m: Seq<(u128, Seq<u8>)>) -> Option<
    (Seq<AliasView>, int, Seq<(u128, Seq<u8>)>),
> {
    match tlist_at(s, p, kb, m) {
        None => None,
        Some((e, n, q, m1)) => match alias_items_at(s, kb, 0, n, q, m1, Seq::empty()) {
            None => None,
            Some((als, q2, m2)) => match e {
                Some(x) => if x <= s.len() {
                    Some((als, x as int, m2))
                } else {
                    None
                },
                None => Some((als, q2, m2)),
            },
        },
    }
}

/// Read one entry of an alias list.
fn read_alias_entry(r: &mut RBuffer, tags: &mut TagReader) -> (res: Result<Option<(String, String)>, Error>)
    ensures
        final(r).buf() == old(r).buf(),
        final(tags).key_base() == old(tags).key_base(),
        match alias_entry_at(old(r).buf(), old(r).cursor(), old(tags).key_base(), old(tags).seen()) {
            None => res is Err,
            Some((a, q, m)) => res matches Ok(g) && (match g {
                Some(x) => a == Some((x.0@, x.1@)),
                None => a is None,
            }) && final(r).cursor() == q && final(tags).seen() == m,
        },
{
    let elem = tags.read_header(r)?;
    let is_named = match &elem.class_name {
        Some(c) => bytes_eq(c.as_slice(), "TNamed".as_bytes()),
        None => false,
    };
    let mut out: Option<(String, String)> = None;
    if is_named {
        let named = read_tnamed(r)?;
        out = Some((named.name, named.title));
    }
    if let Some(end) = elem.end {
        r.seek(end)?;
    }
    r.string_bytes()?;
    Ok(out)
}

/// Read a `TTree`'s `fAliases` (`TList<TNamed>` — the `(name, expression)`
/// pairs set with `TTree::SetAlias`). A null pointer reads as no aliases.
pub fn read_aliases(r: &mut RBuffer, tags: &mut TagReader) -> (res: Result<Vec<(String, String)>, Error>)
    ensures
        final(r).buf() == old(r).buf(),
        final(tags).key_base() == old(tags).key_base(),
        match aliases_at(old(r).buf(), old(r).cursor(), old(tags).key_base(), old(tags).seen()) {
            None => res is Err,
            Some((als, q, m)) => res matches Ok(v) && alias_views(v@) == als && final(r).cursor() == q
                && final(tags).seen() == m,
        },
{
    let ghost s = r.buf();
    let ghost kb = tags.key_base();
    let ghost p0 = r.cursor();
    let ghost m00 = tags.seen();
    let (end, n) = open_tlist(r, tags)?;
    let ghost q0 = r.cursor();
    let ghost m0 = tags.seen();
    let mut aliases: Vec<(String, String)> = Vec::new();
    let mut k: i32 = 0;
    assert(alias_views(aliases@) =~= Seq::<AliasView>::empty());
    while k < n
        invariant
            0 <= k <= n,
            r.buf() == s,
            old(r).buf() == s,
            tags.key_base() == kb,
            old(tags).key_base() == kb,
            old(r).cursor() == p0,
            old(tags).seen() == m00,
            tlist_at(s, p0, kb, m00) == Some((end, n as int, q0, m0)),
            alias_items_at(s, kb, 0, n as int, q0, m0, Seq::empty()) == alias_items_at(
                s,
                kb,
                k as int,
                n as int,
                r.cursor(),
                tags.seen(),
                alias_views(aliases@),
            ),
        decreases n - k,
    {
        let a = read_alias_entry(r, tags)?;
        if let Some(x) = a {
            let ghost before = aliases@;
            aliases.push(x);
            assert(alias_views(aliases@) =~= alias_views(before).push((aliases@.last().0@, aliases@.last().1@)));
        }
        k += 1;
    }
    if let Some(e) = end {
        r.seek(e)?;
    }
    Ok(aliases)
}

/// The tree index body at byte `p` (just past its object header): `None`
/// for a version before 2, whose layout packs the keys differently; else
/// the `TVirtualIndex` base (stepped over), `fMajorName`, `fMinorName`,
/// `fN`, and three `Long64_t[fN]` arrays — the major keys, the minor keys
/// and the entry each key pair names (negative read as 0). `None` when `fN`
/// is negative or more than the record holds.
pub open spec fn tree_index_at(s: Seq<u8>, p: int) -> Option<(Option<TreeIndexView>, int)> {
    match version_at(s, p) {
        None => None,
        Some((vh, q)) => if vh.version < 2 {
            Some((None, q))
        } else {
            match skip_object_at(s, q) {
                None => None,
                Some(q1) => match tstring_at(s, q1) {
                    None => None,
                    Some((a1, e1)) => match tstring_at(s, e1) {
                        None => None,
                        Some((a2, e2)) => if e2 + 8 > s.len() {
                            None
                        } else {
                            let n = u64_at(s, e2) as i64;
                            let b = e2 + 8;
                            if n < 0 || n > usize::MAX || n * 24 > s.len() - b {
                                None
                            } else {
                                let keys = Seq::new(
                                    n as nat,
                                    |j: int| (u64_at(s, b + 8 * j) as i64, u64_at(s, b + 8 * n + 8 * j) as i64),
                                );
                                let entries = Seq::new(
                                    n as nat,
                                    |j: int|
                                        {
                                            let e = u64_at(s, b + 16 * n + 8 * j) as i64;
                                            (if e < 0 {
                                                0
                                            } else {
                                                e
                                            }) as u64
                                        },
                                );
                                Some(
                                    (
                                        Some(
                                            TreeIndexView {
                                                major_name: text_of(s.subrange(a1, e1)),
                                                minor_name: text_of(s.subrange(a2, e2)),
                                                keys,
                                                entries,
                                            },
                                        ),
                                        b + 24 * n,
                                    ),
                                )
                            }
                        },
                    },
                },
            }
        },
    }
}

/// Read `n` big-endian `i64`s.
fn read_i64s(r: &mut RBuffer, n: usize) -> (res: Result<Vec<i64>, Error>)
    requires
        old(r).cursor() + 8 * n <= old(r).buf().len(),
    ensures
        final(r).buf() == old(r).buf(),
        final(r).cursor() == old(r).cursor() + 8 * n,
        res matches Ok(v) && v@ == Seq::new(n as nat, |j: int| u64_at(old(r).buf(), old(r).cursor() + 8 * j) as i64),
{
    let ghost s = r.buf();
    let ghost p0 = r.cursor();
    let mut out: Vec<i64> = Vec::new();
    let mut j: usize = 0;
    while j < n
        invariant
            j <= n,
            r.buf() == s,
            old(r).buf() == s,
            old(r).cursor() == p0,
            p0 + 8 * n <= s.len(),
            r.cursor() == p0 + 8 * j,
            out@ == Seq::new(j as nat, |i: int| u64_at(s, p0 + 8 * i) as i64),
        decreases n - j,
    {
        let v = match r.be_i64() {
            Ok(v) => v,
            Err(e) => {
                return Err(e);
            },
        };
        out.push(v);
        assert(out@ =~= Seq::new((j + 1) as nat, |i: int| u64_at(s, p0 + 8 * i) as i64));
        j += 1;
    }
    Ok(out)
}

/// Read a `TTreeIndex` body, the cursor just past its object header.
pub fn read_tree_index(r: &mut RBuffer) -> (res: Result<Option<TreeIndex>, Error>)
    ensures
        final(r).buf() == old(r).buf(),
        match tree_index_at(old(r).buf(), old(r).cursor()) {
            None => res is Err,
            Some((ix, q)) => res matches Ok(x) && final(r).cursor() == q && match x {
                Some(t) => ix == Some(t@),
                None => ix is None,
            },
        },
{
    let ghost s = r.buf();
    let header = r.read_version()?;
    if header.version < 2 {
        return Ok(None);
    }
    skip_object(r)?;
    let major_name = r.string()?;
    let minor_name = r.string()?;
    let n = r.be_i64()?;
    if n < 0 {
        return Err(Error::Format(Issue::IndexTooLarge));
    }
    let nu = n as u64;
    assert(nu == n);
    let most = usize::MAX as u64;
    assert(most == usize::MAX) by {
        assert(usize::MAX == 0xffff_ffff || usize::MAX == 0xffff_ffff_ffff_ffff);
    }
    if nu > most {
        return Err(Error::Format(Issue::IndexTooLarge));
    }
    let n = n as usize;
    let ghost b = r.cursor();
    let rem = r.remaining();
    let need = match n.checked_mul(24) {
        Some(x) => x,
        None => {
            return Err(Error::Format(Issue::IndexTooLarge));
        },
    };
    if need > rem {
        return Err(Error::Format(Issue::IndexTooLarge));
    }
    let major = read_i64s(r, n)?;
    let minor = read_i64s(r, n)?;
    let raw = read_i64s(r, n)?;
    let mut keys: Vec<(i64, i64)> = Vec::new();
    let mut entries: Vec<u64> = Vec::new();
    let mut j: usize = 0;
    while j < n
        invariant
            j <= n,
            major@.len() == n,
            minor@.len() == n,
            raw@.len() == n,
            keys@ == Seq::new(j as nat, |i: int| (major@[i], minor@[i])),
            entries@ == Seq::new(
                j as nat,
                |i: int|
                    (if raw@[i] < 0 {
                        0
                    } else {
                        raw@[i]
                    }) as u64,
            ),
        decreases n - j,
    {
        keys.push((major[j], minor[j]));
        let e = raw[j];
        entries.push(
            if e < 0 {
                0
            } else {
                e as u64
            },
        );
        assert(keys@ =~= Seq::new((j + 1) as nat, |i: int| (major@[i], minor@[i])));
        assert(entries@ =~= Seq::new(
            (j + 1) as nat,
            |i: int|
                (if raw@[i] < 0 {
                    0
                } else {
                    raw@[i]
                }) as u64,
        ));
        j += 1;
    }
    proof {
        assert(keys@ =~= Seq::new(
            n as nat,
            |j: int| (u64_at(s, b + 8 * j) as i64, u64_at(s, b + 8 * n + 8 * j) as i64),
        ));
        assert(entries@ =~= Seq::new(
            n as nat,
            |j: int|
                {
                    let e = u64_at(s, b + 16 * n + 8 * j) as i64;
                    (if e < 0 {
                        0
                    } else {
                        e
                    }) as u64
                },
        ));
    }
    Ok(Some(TreeIndex { major_name, minor_name, keys, entries }))
}

/// What the tree readers read from: the object's bytes, the file's class
/// descriptions and the offset base of the object's key.
pub struct Src {
    pub s: Seq<u8>,
    pub reg: Seq<StreamerInfo>,
    pub kb: u128,
}

/// Where a read stands: the cursor, the classes seen and the branches
/// skipped so far.
pub struct St {
    pub pos: int,
    pub seen: Seq<(u128, Seq<u8>)>,
    pub skipped: Seq<SkippedView>,
}

/// `st` with the cursor at `p`.
pub open spec fn at(st: St, p: int) -> St {
    St { pos: p, seen: st.seen, skipped: st.skipped }
}

/// `st` with one more skipped branch, when there is one.
pub open spec fn with_skip(st: St, d: Option<SkippedView>) -> St {
    match d {
        Some(x) => St { pos: st.pos, seen: st.seen, skipped: st.skipped.push(x) },
        None => st,
    }
}

/// The state the tree readers share: the object-tag reader and the
/// branches skipped so far.
pub struct Walker {
    pub tags: TagReader,
    pub skipped: Vec<Skipped>,
}

/// What `r`, `reg` and `w` read from.
pub open spec fn src_of(r: RBuffer<'_>, reg: &StreamerRegistry, w: Walker) -> Src {
    Src { s: r.buf(), reg: reg.infos@, kb: w.tags.key_base() }
}

/// Where `r` and `w` stand.
pub open spec fn st_of(r: RBuffer<'_>, w: Walker) -> St {
    St { pos: r.cursor(), seen: w.tags.seen(), skipped: skipped_views(w.skipped@) }
}

/// A skipped branch as text, when there is one.
pub open spec fn skip_view(d: Option<Skipped>) -> Option<SkippedView> {
    match d {
        Some(x) => Some((x.0@, x.1, x.2@)),
        None => None,
    }
}

/// What a `TTree` walk collects from its object members.
pub struct TreeParts {
    pub branches: Vec<Branch>,
    pub friends: Vec<Friend>,
    pub aliases: Vec<(String, String)>,
    pub index: Option<TreeIndex>,
}

/// What a `TBranch` walk collects from its object members.
pub struct BranchParts {
    pub sub: Vec<Branch>,
    pub leaves: Vec<Leaf>,
}

/// Where the object members met during a walk go: stepped over, or read
/// into the parts of a tree or of a branch.
pub enum Sink {
    Skip,
    Tree(TreeParts),
    Branch(BranchParts),
}

/// A [`Sink`] as views.
pub enum SinkView {
    Skip,
    Tree(Seq<BranchView>, Seq<FriendModel>, Seq<AliasView>, Option<TreeIndexView>),
    Branch(Seq<BranchView>, Seq<LeafView>),
}

/// An optional index as a view.
pub open spec fn index_view(x: Option<TreeIndex>) -> Option<TreeIndexView> {
    match x {
        Some(t) => Some(t@),
        None => None,
    }
}

impl View for Sink {
    type V = SinkView;

    open spec fn view(&self) -> SinkView {
        match self {
            Sink::Skip => SinkView::Skip,
            Sink::Tree(t) => SinkView::Tree(
                branch_views(t.branches@),
                friend_models(t.friends@),
                alias_views(t.aliases@),
                index_view(t.index),
            ),
            Sink::Branch(b) => SinkView::Branch(branch_views(b.sub@), leaf_views(b.leaves@)),
        }
    }
}

/// The streamer type codes of members read as objects: objects, object
/// pointers, STL containers and members with their own streamer.
pub open spec fn is_object_code(t: i32) -> bool {
    (61 <= t <= 71) || (300 <= t <= 365) || t == 500 || t == 501
}

/// `x`'s first `n` items (all of them when it has fewer).
pub open spec fn cap<T>(x: Seq<T>, n: usize) -> Seq<T> {
    if n < x.len() {
        x.take(n as int)
    } else {
        x
    }
}

/// Each value, negative read as 0.
pub open spec fn nonneg_u64(x: Seq<i64>) -> Seq<u64> {
    x.map_values(|v: i64| (if v < 0 {
        0
    } else {
        v
    }) as u64)
}

/// A branch's basket locators from its members: `fWriteBasket` (negative
/// read as 0), `fBasketEntry` cut to that many baskets, every `fBasketSeek`
/// and `fBasketBytes` cut to that many, both negative read as 0.
pub open spec fn locators(mem: MemberSeq) -> (usize, Seq<i64>, Seq<u64>, Seq<u64>) {
    let w = spec_member_int(mem, "fWriteBasket"@);
    let wb = (if w < 0 {
        0
    } else {
        w
    }) as usize;
    (
        wb,
        cap(spec_member_ints(mem, "fBasketEntry"@), wb),
        nonneg_u64(spec_member_ints(mem, "fBasketSeek"@)),
        nonneg_u64(cap(spec_member_ints(mem, "fBasketBytes"@), wb)),
    )
}

/// The branch one leaf of a `TBranch` reads as.
pub open spec fn leaf_branch(
    name: Seq<char>,
    title: Seq<char>,
    l: LeafView,
    loc: (usize, Seq<i64>, Seq<u64>, Seq<u64>),
    leaflist: Option<(usize, usize)>,
) -> BranchView {
    BranchView {
        name,
        title,
        leaf_type: l.leaf_type,
        leaf_len: l.len,
        n_baskets: loc.0,
        basket_seek: loc.2,
        basket_bytes: loc.3,
        basket_entry: loc.1,
        elem_header: 0,
        leaflist,
        dims: dims_of(encode_utf8(l.title)),
        nested_elem: None,
        object_member: None,
    }
}

/// The bytes a leaf takes in an entry: its offset plus `fLen` (at least 1)
/// elements.
pub open spec fn leaf_extent(l: LeafView) -> int {
    l.offset + (if l.len > 1 {
        l.len as int
    } else {
        1
    }) * l.leaf_type.width()
}

/// The largest extent of the leaves (0 for none).
pub open spec fn max_extent(ls: Seq<LeafView>) -> int
    decreases ls.len(),
{
    if ls.len() == 0 {
        0
    } else {
        let m = max_extent(ls.drop_last());
        let x = leaf_extent(ls.last());
        if x > m {
            x
        } else {
            m
        }
    }
}

/// What a `TBranch` with members `mem`, sub-branches `sub` and supported
/// leaves `leaves` reads as, and the reason it is skipped when it is: one
/// branch for a single leaf; for a leaflist one `name.leaf` branch per
/// leaf, each cut from the entry stride at its offset; nothing when it has
/// sub-branches, no supported leaf, or a string leaf in a leaflist.
#[verifier::opaque]
pub open spec fn plain_branches(mem: MemberSeq, sub: Seq<BranchView>, leaves: Seq<LeafView>) -> (
    Seq<BranchView>,
    Option<SkippedView>,
) {
    let name = spec_member_str(mem, "fName"@);
    let title = spec_member_str(mem, "fTitle"@);
    let loc = locators(mem);
    if sub.len() > 0 {
        (Seq::empty(), Some((name, SkipReason::SubBranches, Seq::empty())))
    } else if leaves.len() == 0 {
        (Seq::empty(), Some((name, SkipReason::NoSupportedLeaf, Seq::empty())))
    } else if leaves.len() > 1 && exists|i: int| 0 <= i < leaves.len() && #[trigger] leaves[i].leaf_type == LeafType::Str {
        (Seq::empty(), Some((name, SkipReason::StringInLeaflist, Seq::empty())))
    } else if leaves.len() == 1 {
        (seq![leaf_branch(name, title, leaves[0], loc, None)], None)
    } else {
        let stride = max_extent(leaves) as usize;
        (
            leaves.map_values(
                |l: LeafView| leaf_branch(name + "."@ + l.name, title, l, loc, Some((l.offset, stride))),
            ),
            None,
        )
    }
}

/// What a `TBranchElement` with members `mem` and sub-branches `sub` reads
/// as: a split parent is its sub-branches; an unsplit
/// `std::vector<std::vector<T>>` a nested column; a member sub-branch
/// (`fType` 41 or 31) a jagged column typed by `fStreamerType`; an unsplit
/// `std::vector<T>` a column with a 10-byte header per entry; a member of a
/// split single object (`fType` 0) a column typed by `fStreamerType`.
#[verifier::opaque]
pub open spec fn element_branches(mem: MemberSeq, sub: Seq<BranchView>) -> (Seq<BranchView>, Option<SkippedView>) {
    let name = spec_member_str(mem, "fName"@);
    let class = spec_member_str(mem, "fClassName"@);
    let ft = spec_member_int(mem, "fType"@) as i32;
    let fst = spec_member_int(mem, "fStreamerType"@) as i32;
    let loc = locators(mem);
    if sub.len() > 0 {
        (sub, None)
    } else {
        let nested = if ft == 0 {
            spec_parse_nested_vector_elem(class)
        } else {
            None
        };
        let member = ft == 41 || ft == 31;
        let lt: (Option<LeafType>, usize) = if nested is Some {
            (nested, 10)
        } else if member {
            (spec_streamer_type_to_leaf(fst), 0)
        } else if spec_parse_vector_elem(class) is Some {
            (spec_parse_vector_elem(class), 10)
        } else if ft == 0 {
            (spec_streamer_type_to_leaf(fst), 0)
        } else {
            (None, 0)
        };
        match lt.0 {
            None => (Seq::empty(), Some((name, SkipReason::UnsupportedElement(ft), class))),
            Some(l) => (
                seq![
                    BranchView {
                        name,
                        title: spec_member_str(mem, "fTitle"@),
                        leaf_type: l,
                        leaf_len: 1,
                        n_baskets: loc.0,
                        basket_seek: loc.2,
                        basket_bytes: loc.3,
                        basket_entry: loc.1,
                        elem_header: lt.1,
                        leaflist: None,
                        dims: Seq::empty(),
                        nested_elem: nested,
                        object_member: None,
                    },
                ],
                None,
            ),
        }
    }
}

/// Whether an object class's element becomes a member column: not a base
/// class, and of a basic or `TString` type.
pub open spec fn is_member_column(el: StreamerElement) -> bool {
    el.element_class@ != "TStreamerBase"@ && spec_member_leaf_type(el.el_type) is Some
}

/// The member columns of the first `n` elements of an object class `els`,
/// for a `TBranchObject` named `name`.
pub open spec fn object_columns(
    els: Seq<StreamerElement>,
    n: int,
    name: Seq<char>,
    title: Seq<char>,
    loc: (usize, Seq<i64>, Seq<u64>, Seq<u64>),
) -> Seq<BranchView>
    decreases n,
{
    if n <= 0 {
        Seq::empty()
    } else {
        let rest = object_columns(els, n - 1, name, title, loc);
        let el = els[n - 1];
        if is_member_column(el) {
            rest.push(
                BranchView {
                    name: name + "."@ + el.name@,
                    title,
                    leaf_type: spec_member_leaf_type(el.el_type)->0,
                    leaf_len: 1,
                    n_baskets: loc.0,
                    basket_seek: loc.2,
                    basket_bytes: loc.3,
                    basket_entry: loc.1,
                    elem_header: 0,
                    leaflist: None,
                    dims: Seq::empty(),
                    nested_elem: None,
                    object_member: Some((el.name@, element_views(els))),
                },
            )
        } else {
            rest
        }
    }
}

/// What an unsplit `TBranchObject` with members `mem` and sub-branches
/// `sub` reads as: one column per basic or `TString` member of its class
/// (`fClassName`), named `branch.member`; nothing when it has sub-branches,
/// its class has no streamer info, or the class has no such member.
#[verifier::opaque]
pub open spec fn object_branches(reg: Seq<StreamerInfo>, mem: MemberSeq, sub: Seq<BranchView>) -> (
    Seq<BranchView>,
    Option<SkippedView>,
) {
    let name = spec_member_str(mem, "fName"@);
    let title = spec_member_str(mem, "fTitle"@);
    let class = spec_member_str(mem, "fClassName"@);
    let loc = locators(mem);
    if sub.len() > 0 {
        (Seq::empty(), Some((name, SkipReason::ObjectWithSubBranches, Seq::empty())))
    } else {
        match find_info(reg, class, None) {
            None => (Seq::empty(), Some((name, SkipReason::NoObjectStreamerInfo, class))),
            Some(k) => {
                let els = reg[k].elements@;
                let cols = object_columns(els, els.len() as int, name, title, loc);
                if cols.len() == 0 {
                    (Seq::empty(), Some((name, SkipReason::NoReadableMembers, class)))
                } else {
                    (cols, None)
                }
            },
        }
    }
}

/// Walking elements `i..` of `els` from `st`, after members `mem` were
/// captured, object members going to `sink`: each element is read by its
/// streamer type — a base class in place, a `TString`, an object member by
/// the sink, a counted `T*` array sized by its already-read counter, a
/// fixed array stepped over, or a basic value — and the walk stops after
/// the element named `stop`. `None` when a read fails, an element's type
/// is not handled, or a read would move the cursor back.
pub open spec fn walk_at(
    c: Src,
    els: Seq<StreamerElement>,
    i: int,
    st: St,
    mem: MemberSeq,
    sink: SinkView,
    stop: Seq<char>,
) -> Option<(St, MemberSeq, SinkView)>
    decreases c.s.len() - st.pos, 4int, els.len() - i,
{
    if i < 0 || i >= els.len() {
        Some((st, mem, sink))
    } else if st.pos < 0 || st.pos > c.s.len() {
        None
    } else {
        let el = els[i];
        let t = el.el_type;
        let step: Option<(St, MemberSeq, SinkView)> = if el.element_class@ == "TStreamerBase"@ {
            base_at(c, el.name@, st, mem, sink, stop)
        } else if t == 65 {
            match tstring_at(c.s, st.pos) {
                None => None,
                Some((a, e)) => Some(
                    (at(st, e), mem.push((el.name@, MemberModel::Str(text_of(c.s.subrange(a, e))))), sink),
                ),
            }
        } else if is_object_code(t) {
            match object_at(c, el.name@, st, sink) {
                None => None,
                Some((st2, k2)) => Some((st2, mem, k2)),
            }
        } else if 40 <= t < 61 {
            match spec_basic_kind((t - 40) as i32) {
                None => None,
                Some((w, f)) => {
                    let cnt: i64 = match el.count_name {
                        Some(cn) => spec_member_int(mem, cn@),
                        None => 0,
                    };
                    let count = (if cnt < 0 {
                        0
                    } else {
                        cnt
                    }) as usize;
                    if st.pos + 1 > c.s.len() {
                        None
                    } else {
                        match ints_at(c.s, st.pos + 1, w, f, count as int, Seq::empty()) {
                            None => None,
                            Some((vals, q)) => Some(
                                (at(st, q), mem.push((el.name@, MemberModel::IntArray(vals))), sink),
                            ),
                        }
                    }
                },
            }
        } else if 20 <= t < 40 {
            match spec_basic_kind((t - 20) as i32) {
                None => None,
                Some((w, f)) => match skip_basics_at(c.s, st.pos, w, f, el.array_length as int) {
                    None => None,
                    Some(q) => Some((at(st, q), mem, sink)),
                },
            }
        } else {
            match spec_basic_kind(t) {
                None => None,
                Some((w, f)) => match basic_at(c.s, st.pos, w, f) {
                    None => None,
                    Some((v, q)) => Some((at(st, q), mem.push((el.name@, v)), sink)),
                },
            }
        };
        match step {
            None => None,
            Some((st2, mem2, k2)) => if st2.pos < st.pos || st2.pos > c.s.len() {
                None
            } else if el.name@ == stop {
                Some((st2, mem2, k2))
            } else {
                walk_at(c, els, i + 1, st2, mem2, k2, stop)
            },
        }
    }
}

/// A base-class slot of class `class` read in place: `TObject` stepped
/// over; `TNamed` capturing `fName` and `fTitle`; any other base walked
/// through the description of its own version (then the cursor set to its
/// byte count's end), or stepped over by its byte count when there is no
/// description. `None` for a base that has neither.
pub open spec fn base_at(c: Src, class: Seq<char>, st: St, mem: MemberSeq, sink: SinkView, stop: Seq<char>) -> Option<
    (St, MemberSeq, SinkView),
>
    decreases c.s.len() - st.pos, 3int, 0int,
{
    if st.pos < 0 || st.pos > c.s.len() {
        None
    } else if class == "TObject"@ {
        match tobject_end(c.s, st.pos) {
            None => None,
            Some(e) => Some((at(st, e), mem, sink)),
        }
    } else if class == "TNamed"@ {
        match tnamed_at(c.s, st.pos) {
            None => None,
            Some((n, t, q)) => Some(
                (at(st, q), mem.push(("fName"@, MemberModel::Str(n))).push(("fTitle"@, MemberModel::Str(t))), sink),
            ),
        }
    } else {
        match version_at(c.s, st.pos) {
            None => None,
            Some((vh, q)) => match find_info(c.reg, class, Some(vh.version as i32)) {
                Some(k) => match walk_at(c, c.reg[k].elements@, 0, at(st, q), mem, sink, stop) {
                    None => None,
                    Some((st2, mem2, k2)) => match vh.end {
                        Some(e) => if e <= c.s.len() {
                            Some((at(st2, e as int), mem2, k2))
                        } else {
                            None
                        },
                        None => Some((st2, mem2, k2)),
                    },
                },
                None => match vh.end {
                    None => None,
                    Some(e) => if e <= c.s.len() {
                        Some((at(st, e as int), mem, sink))
                    } else {
                        None
                    },
                },
            },
        }
    }
}

/// An object member named `name` read by `sink`: a tree keeps `fBranches`,
/// `fAliases`, `fFriends` and a `TTreeIndex` `fTreeIndex`, steps over the
/// inline `fIndexValues` (`[n][n doubles]`) and `fIndex` (`[n][n ints]`)
/// arrays and over any other member; a branch keeps `fBranches` and
/// `fLeaves` and steps over `fBaskets` and the rest; a plain walk steps
/// over every object member.
pub open spec fn object_at(c: Src, name: Seq<char>, st: St, sink: SinkView) -> Option<(St, SinkView)>
    decreases c.s.len() - st.pos, 3int, 0int,
{
    if st.pos < 0 || st.pos > c.s.len() {
        None
    } else {
        match sink {
            SinkView::Skip => match skip_object_at(c.s, st.pos) {
                None => None,
                Some(q) => Some((at(st, q), SinkView::Skip)),
            },
            SinkView::Tree(bs, fs, als, ix) => if name == "fBranches"@ {
                match branch_array_at(c, st) {
                    None => None,
                    Some((nb, st2)) => Some((st2, SinkView::Tree(nb, fs, als, ix))),
                }
            } else if name == "fAliases"@ {
                match aliases_at(c.s, st.pos, c.kb, st.seen) {
                    None => None,
                    Some((na, q, m)) => Some(
                        (St { pos: q, seen: m, skipped: st.skipped }, SinkView::Tree(bs, fs, na, ix)),
                    ),
                }
            } else if name == "fFriends"@ {
                match friend_list_at(c.s, st.pos, c.kb, st.seen) {
                    None => None,
                    Some((nf, q, m)) => Some(
                        (St { pos: q, seen: m, skipped: st.skipped }, SinkView::Tree(bs, nf, als, ix)),
                    ),
                }
            } else if name == "fIndexValues"@ || name == "fIndex"@ {
                let w: int = if name == "fIndexValues"@ {
                    8
                } else {
                    4
                };
                if st.pos + 4 > c.s.len() {
                    None
                } else {
                    let n = u32_at(c.s, st.pos) as i32;
                    let k: int = if n < 0 {
                        0
                    } else {
                        n as int
                    };
                    if k * w > usize::MAX || st.pos + 4 + k * w > c.s.len() {
                        None
                    } else {
                        Some((at(st, st.pos + 4 + k * w), sink))
                    }
                }
            } else if name == "fTreeIndex"@ {
                match header_at(c.s, st.pos, c.kb, st.seen) {
                    None => None,
                    Some((cls, e, q, m)) => {
                        let got: Option<(Option<TreeIndexView>, int)> = if cls == Some(
                            encode_utf8("TTreeIndex"@),
                        ) {
                            tree_index_at(c.s, q)
                        } else {
                            Some((ix, q))
                        };
                        match got {
                            None => None,
                            Some((ix2, q2)) => match entry_end(c.s, e, q2) {
                                None => None,
                                Some(q3) => Some(
                                    (St { pos: q3, seen: m, skipped: st.skipped }, SinkView::Tree(bs, fs, als, ix2)),
                                ),
                            },
                        }
                    },
                }
            } else {
                match skip_object_at(c.s, st.pos) {
                    None => None,
                    Some(q) => Some((at(st, q), sink)),
                }
            },
            SinkView::Branch(sub, ls) => if name == "fBranches"@ {
                match branch_array_at(c, st) {
                    None => None,
                    Some((nb, st2)) => Some((st2, SinkView::Branch(nb, ls))),
                }
            } else if name == "fLeaves"@ {
                match leaf_array_at(c.s, st.pos, c.kb, st.seen) {
                    None => None,
                    Some((nl, q, m)) => Some((St { pos: q, seen: m, skipped: st.skipped }, SinkView::Branch(sub, nl))),
                }
            } else if name == "fBaskets"@ {
                match skip_array_at(c.s, st.pos, c.kb, st.seen) {
                    None => None,
                    Some((q, m)) => Some((St { pos: q, seen: m, skipped: st.skipped }, sink)),
                }
            } else {
                match skip_object_at(c.s, st.pos) {
                    None => None,
                    Some(q) => Some((at(st, q), sink)),
                }
            },
        }
    }
}

/// A `TObjArray` of branches at `st`: the readable branches its entries
/// give, in order, and where reading stops.
pub open spec fn branch_array_at(c: Src, st: St) -> Option<(Seq<BranchView>, St)>
    decreases c.s.len() - st.pos, 2int, 0int,
{
    if st.pos < 0 || st.pos > c.s.len() {
        None
    } else {
        match array_head_at(c.s, st.pos) {
            None => None,
            Some((n, q)) => branch_items_at(c, 0, n, at(st, q), Seq::empty()),
        }
    }
}

/// Entries `k..n` of a `TObjArray` of branches after the branches `acc`:
/// a `TBranch`, `TBranchElement` or `TBranchObject` is read by its reader,
/// another class is recorded as skipped, and each entry ends at its byte
/// count's end.
pub open spec fn branch_items_at(c: Src, k: int, n: int, st: St, acc: Seq<BranchView>) -> Option<
    (Seq<BranchView>, St),
>
    decreases c.s.len() - st.pos, 2int, n - k,
{
    if k >= n {
        Some((acc, st))
    } else if st.pos < 0 || st.pos > c.s.len() {
        None
    } else {
        match header_at(c.s, st.pos, c.kb, st.seen) {
            None => None,
            Some((cls, e, q, m)) => if q <= st.pos || q > c.s.len() {
                None
            } else {
                let st1 = St { pos: q, seen: m, skipped: st.skipped };
                let got: Option<(Seq<BranchView>, St)> = match cls {
                    Some(b) => if b == encode_utf8("TBranch"@) {
                        branch_at(c, st1)
                    } else if b == encode_utf8("TBranchElement"@) {
                        element_at(c, st1)
                    } else if b == encode_utf8("TBranchObject"@) {
                        object_branch_at(c, st1)
                    } else {
                        Some(
                            (
                                Seq::empty(),
                                with_skip(
                                    st1,
                                    Some((unknown_name_at(c.s, q, b), SkipReason::UnsupportedBranchClass, text_of(b))),
                                ),
                            ),
                        )
                    },
                    None => Some((Seq::empty(), st1)),
                };
                match got {
                    None => None,
                    Some((bs, st2)) => match entry_end(c.s, e, st2.pos) {
                        None => None,
                        Some(q3) => if q3 < st.pos || q3 > c.s.len() {
                            None
                        } else {
                            branch_items_at(c, k + 1, n, at(st2, q3), acc + bs)
                        },
                    },
                }
            },
        }
    }
}

/// A `TBranch` body at `st`, after its object header: walked by the
/// file's `TBranch` description, then read as [`plain_branches`] says.
pub open spec fn branch_at(c: Src, st: St) -> Option<(Seq<BranchView>, St)>
    decreases c.s.len() - st.pos, 1int, 0int,
{
    if st.pos < 0 || st.pos > c.s.len() {
        None
    } else {
        match find_info(c.reg, "TBranch"@, None) {
            None => None,
            Some(k) => match version_at(c.s, st.pos) {
                None => None,
                Some((_, q)) => match tbranch_base_at(c, c.reg[k].elements@, Seq::empty(), at(st, q)) {
                    None => None,
                    Some((mem, sub, leaves, st2)) => {
                        let (bs, d) = plain_branches(mem, sub, leaves);
                        Some((bs, with_skip(st2, d)))
                    },
                },
            },
        }
    }
}

/// A `TBranchElement` body at `st`: walked by the file's `TBranchElement`
/// description up to `fStreamerType`, then read as [`element_branches`]
/// says.
pub open spec fn element_at(c: Src, st: St) -> Option<(Seq<BranchView>, St)>
    decreases c.s.len() - st.pos, 1int, 0int,
{
    if st.pos < 0 || st.pos > c.s.len() {
        None
    } else {
        match find_info(c.reg, "TBranchElement"@, None) {
            None => None,
            Some(k) => match version_at(c.s, st.pos) {
                None => None,
                Some((_, q)) => match tbranch_base_at(c, c.reg[k].elements@, "fStreamerType"@, at(st, q)) {
                    None => None,
                    Some((mem, sub, _, st2)) => {
                        let (bs, d) = element_branches(mem, sub);
                        Some((bs, with_skip(st2, d)))
                    },
                },
            },
        }
    }
}

/// A `TBranchObject` body at `st`: walked by the file's `TBranchObject`
/// description, then read as [`object_branches`] says.
pub open spec fn object_branch_at(c: Src, st: St) -> Option<(Seq<BranchView>, St)>
    decreases c.s.len() - st.pos, 1int, 0int,
{
    if st.pos < 0 || st.pos > c.s.len() {
        None
    } else {
        match find_info(c.reg, "TBranchObject"@, None) {
            None => None,
            Some(k) => match version_at(c.s, st.pos) {
                None => None,
                Some((_, q)) => match tbranch_base_at(c, c.reg[k].elements@, Seq::empty(), at(st, q)) {
                    None => None,
                    Some((mem, sub, _, st2)) => {
                        let (bs, d) = object_branches(c.reg, mem, sub);
                        Some((bs, with_skip(st2, d)))
                    },
                },
            },
        }
    }
}

/// The `TBranch` members at `st` walked by `els` up to `stop`: the members
/// captured, the sub-branches of `fBranches`, the leaves of `fLeaves`, and
/// where reading stops.
pub open spec fn tbranch_base_at(c: Src, els: Seq<StreamerElement>, stop: Seq<char>, st: St) -> Option<
    (MemberSeq, Seq<BranchView>, Seq<LeafView>, St),
>
    decreases c.s.len() - st.pos, 5int, 0int,
{
    if st.pos < 0 || st.pos > c.s.len() {
        None
    } else {
        match walk_at(c, els, 0, st, Seq::empty(), SinkView::Branch(Seq::empty(), Seq::empty()), stop) {
            Some((st2, mem, SinkView::Branch(sub, ls))) => Some((mem, sub, ls, st2)),
            _ => None,
        }
    }
}

/// A copy of a list of `i64`s.
fn copy_i64s(v: &Vec<i64>) -> (r: Vec<i64>)
    ensures
        r@ == v@,
{
    let mut out: Vec<i64> = Vec::new();
    let mut i: usize = 0;
    while i < v.len()
        invariant
            i <= v@.len(),
            out@ == v@.take(i as int),
        decreases v@.len() - i,
    {
        out.push(v[i]);
        assert(out@ =~= v@.take(i as int + 1));
        i += 1;
    }
    assert(v@.take(v@.len() as int) =~= v@);
    out
}

/// A copy of a list of `u64`s.
fn copy_u64s(v: &Vec<u64>) -> (r: Vec<u64>)
    ensures
        r@ == v@,
{
    let mut out: Vec<u64> = Vec::new();
    let mut i: usize = 0;
    while i < v.len()
        invariant
            i <= v@.len(),
            out@ == v@.take(i as int),
        decreases v@.len() - i,
    {
        out.push(v[i]);
        assert(out@ =~= v@.take(i as int + 1));
        i += 1;
    }
    assert(v@.take(v@.len() as int) =~= v@);
    out
}

/// The first `n` values (all when there are fewer), negative read as 0
/// when `clamp` asks for it.
fn take_values(v: &[i64], n: usize) -> (r: Vec<i64>)
    ensures
        r@ == cap(v@, n),
{
    let mut out: Vec<i64> = Vec::new();
    let mut i: usize = 0;
    while i < v.len() && i < n
        invariant
            i <= v@.len(),
            i <= n,
            out@ == v@.take(i as int),
        decreases v@.len() - i,
    {
        out.push(v[i]);
        assert(out@ =~= v@.take(i as int + 1));
        i += 1;
    }
    assert(v@.take(v@.len() as int) =~= v@);
    out
}

/// Each value, negative read as 0.
fn nonneg_values(v: &[i64]) -> (r: Vec<u64>)
    ensures
        r@ == nonneg_u64(v@),
{
    let mut out: Vec<u64> = Vec::new();
    let mut i: usize = 0;
    while i < v.len()
        invariant
            i <= v@.len(),
            out@ == nonneg_u64(v@.take(i as int)),
        decreases v@.len() - i,
    {
        let x = v[i];
        out.push(
            if x < 0 {
                0
            } else {
                x as u64
            },
        );
        assert(out@ =~= nonneg_u64(v@.take(i as int + 1)));
        i += 1;
    }
    assert(v@.take(v@.len() as int) =~= v@);
    out
}

/// A branch's basket locators from its captured members.
pub fn basket_locators(out: &Members) -> (r: (usize, Vec<i64>, Vec<u64>, Vec<u64>))
    ensures
        (r.0, r.1@, r.2@, r.3@) == locators(out@),
{
    let w = member_int(out, "fWriteBasket");
    let wb: usize = if w < 0 {
        0
    } else {
        w as usize
    };
    let entries = take_values(member_ints(out, "fBasketEntry"), wb);
    let seeks = nonneg_values(member_ints(out, "fBasketSeek"));
    let sizes_cut = take_values(member_ints(out, "fBasketBytes"), wb);
    let sizes = nonneg_values(sizes_cut.as_slice());
    (wb, entries, seeks, sizes)
}

/// The branch one leaf reads as.
fn make_leaf_branch(
    name: String,
    title: String,
    l: &Leaf,
    loc: &(usize, Vec<i64>, Vec<u64>, Vec<u64>),
    leaflist: Option<(usize, usize)>,
) -> (r: Branch)
    ensures
        r@ == leaf_branch(name@, title@, l@, (loc.0, loc.1@, loc.2@, loc.3@), leaflist),
{
    Branch {
        name,
        title,
        leaf_type: l.leaf_type,
        leaf_len: l.len,
        n_baskets: loc.0,
        basket_seek: copy_u64s(&loc.2),
        basket_bytes: copy_u64s(&loc.3),
        basket_entry: copy_i64s(&loc.1),
        elem_header: 0,
        leaflist,
        dims: parse_dims(l.title.as_str()),
        nested_elem: None,
        object_member: None,
    }
}

/// The largest extent of the leaves.
fn leaf_stride(leaves: &Vec<Leaf>) -> (r: u128)
    ensures
        r == max_extent(leaf_views(leaves@)),
{
    let mut m: u128 = 0;
    let mut i: usize = 0;
    while i < leaves.len()
        invariant
            i <= leaves@.len(),
            m == max_extent(leaf_views(leaves@.take(i as int))),
            m <= 0x1_0000_0000_0000_0000 + 0x7fff_ffffu128 * 8,
        decreases leaves@.len() - i,
    {
        let l = &leaves[i];
        let n: u128 = if l.len > 1 {
            l.len as u128
        } else {
            1
        };
        let size = l.leaf_type.size() as u128;
        assert(n * size <= 0x7fff_ffffu128 * 8) by (nonlinear_arith)
            requires
                n <= 0x7fff_ffffu128,
                size <= 8,
        ;
        assert(l.offset <= 0xffff_ffff_ffff_ffff) by {
            assert(usize::MAX <= 0xffff_ffff_ffff_ffff);
        }
        let x: u128 = l.offset as u128 + n * size;
        proof {
            let t = leaf_views(leaves@.take(i as int + 1));
            assert(t.drop_last() =~= leaf_views(leaves@.take(i as int)));
            assert(t.last() == l@);
        }
        if x > m {
            m = x;
        }
        i += 1;
    }
    assert(leaves@.take(leaves@.len() as int) =~= leaves@);
    m
}

/// Whether any leaf is a string leaf.
fn has_string_leaf(leaves: &Vec<Leaf>) -> (r: bool)
    ensures
        r == exists|i: int| 0 <= i < leaves@.len() && #[trigger] leaf_views(leaves@)[i].leaf_type == LeafType::Str,
{
    let mut i: usize = 0;
    while i < leaves.len()
        invariant
            i <= leaves@.len(),
            forall|j: int| 0 <= j < i ==> #[trigger] leaf_views(leaves@)[j].leaf_type != LeafType::Str,
        decreases leaves@.len() - i,
    {
        if leaves[i].leaf_type == LeafType::Str {
            assert(leaf_views(leaves@)[i as int].leaf_type == LeafType::Str);
            return true;
        }
        i += 1;
    }
    false
}

/// What a `TBranch` reads as (see [`plain_branches`]).
fn build_plain(out: &Members, sub: &Vec<Branch>, leaves: &Vec<Leaf>) -> (r: (Vec<Branch>, Option<Skipped>))
    ensures
        (branch_views(r.0@), skip_view(r.1)) == plain_branches(out@, branch_views(sub@), leaf_views(leaves@)),
{
    reveal(plain_branches);
    let name = member_str(out, "fName");
    let title = member_str(out, "fTitle");
    let loc = basket_locators(out);
    let ghost lv = leaf_views(leaves@);
    let ghost sp = (loc.0, loc.1@, loc.2@, loc.3@);
    if sub.len() > 0 {
        let r = (Vec::new(), Some((name, SkipReason::SubBranches, String::new())));
        assert(branch_views(r.0@) =~= Seq::<BranchView>::empty());
        return r;
    }
    if leaves.len() == 0 {
        let r = (Vec::new(), Some((name, SkipReason::NoSupportedLeaf, String::new())));
        assert(branch_views(r.0@) =~= Seq::<BranchView>::empty());
        return r;
    }
    if leaves.len() > 1 && has_string_leaf(leaves) {
        let r = (Vec::new(), Some((name, SkipReason::StringInLeaflist, String::new())));
        assert(branch_views(r.0@) =~= Seq::<BranchView>::empty());
        return r;
    }
    if leaves.len() == 1 {
        let b = make_leaf_branch(name, title, &leaves[0], &loc, None);
        let mut v: Vec<Branch> = Vec::new();
        v.push(b);
        assert(branch_views(v@) =~= seq![leaf_branch(name@, title@, lv[0], sp, None)]);
        return (v, None);
    }
    let stride = leaf_stride(leaves) as usize;
    let dotted = concat_str(name.as_str(), ".");
    let mut v: Vec<Branch> = Vec::new();
    let mut i: usize = 0;
    while i < leaves.len()
        invariant
            i <= leaves@.len(),
            lv == leaf_views(leaves@),
            sp == (loc.0, loc.1@, loc.2@, loc.3@),
            dotted@ == name@ + "."@,
            stride == max_extent(lv) as usize,
            branch_views(v@) == lv.take(i as int).map_values(
                |l: LeafView| leaf_branch(name@ + "."@ + l.name, title@, l, sp, Some((l.offset, stride))),
            ),
        decreases leaves@.len() - i,
    {
        let l = &leaves[i];
        let bname = concat_str(dotted.as_str(), l.name.as_str());
        let b = make_leaf_branch(bname, title.clone(), l, &loc, Some((l.offset, stride)));
        let ghost before = v@;
        v.push(b);
        proof {
            assert(name@ + "."@ + l.name@ == dotted@ + l.name@);
            assert(branch_views(v@) =~= branch_views(before).push(v@.last()@));
            assert(lv.take(i as int + 1) =~= lv.take(i as int).push(lv[i as int]));
            assert(branch_views(v@) =~= lv.take(i as int + 1).map_values(
                |l: LeafView| leaf_branch(name@ + "."@ + l.name, title@, l, sp, Some((l.offset, stride))),
            ));
        }
        i += 1;
    }
    assert(lv.take(lv.len() as int) =~= lv);
    (v, None)
}

/// What a `TBranchElement` reads as (see [`element_branches`]).
fn build_element(out: &Members, sub: Vec<Branch>) -> (r: (Vec<Branch>, Option<Skipped>))
    ensures
        (branch_views(r.0@), skip_view(r.1)) == element_branches(out@, branch_views(sub@)),
{
    reveal(element_branches);
    let name = member_str(out, "fName");
    let class_name = member_str(out, "fClassName");
    let f_type = member_int(out, "fType") as i32;
    let f_streamer_type = member_int(out, "fStreamerType") as i32;
    let loc = basket_locators(out);
    if sub.len() > 0 {
        return (sub, None);
    }
    let nested = if f_type == 0 {
        parse_nested_vector_elem(class_name.as_str())
    } else {
        None
    };
    let member = f_type == 41 || f_type == 31;
    let (lt, elem_header): (Option<LeafType>, usize) = if nested.is_some() {
        (nested, 10)
    } else if member {
        (streamer_type_to_leaf(f_streamer_type), 0)
    } else {
        match parse_vector_elem(class_name.as_str()) {
            Some(e) => (Some(e), 10),
            None => if f_type == 0 {
                (streamer_type_to_leaf(f_streamer_type), 0)
            } else {
                (None, 0)
            },
        }
    };
    match lt {
        None => {
            let r = (Vec::new(), Some((name, SkipReason::UnsupportedElement(f_type), class_name)));
            assert(branch_views(r.0@) =~= Seq::<BranchView>::empty());
            r
        },
        Some(leaf_type) => {
            let b = Branch {
                name,
                title: member_str(out, "fTitle"),
                leaf_type,
                leaf_len: 1,
                n_baskets: loc.0,
                basket_seek: loc.2,
                basket_bytes: loc.3,
                basket_entry: loc.1,
                elem_header,
                leaflist: None,
                dims: Vec::new(),
                nested_elem: nested,
                object_member: None,
            };
            let mut v: Vec<Branch> = Vec::new();
            v.push(b);
            assert(b@.dims =~= Seq::<usize>::empty());
            assert(branch_views(v@) =~= seq![b@]);
            (v, None)
        },
    }
}

/// What a `TBranchObject` reads as (see [`object_branches`]).
fn build_object(reg: &StreamerRegistry, out: &Members, sub: &Vec<Branch>) -> (r: (Vec<Branch>, Option<Skipped>))
    ensures
        (branch_views(r.0@), skip_view(r.1)) == object_branches(reg.infos@, out@, branch_views(sub@)),
{
    reveal(object_branches);
    let name = member_str(out, "fName");
    let title = member_str(out, "fTitle");
    let class_name = member_str(out, "fClassName");
    let loc = basket_locators(out);
    let ghost sp = (loc.0, loc.1@, loc.2@, loc.3@);
    if sub.len() > 0 {
        let r = (Vec::new(), Some((name, SkipReason::ObjectWithSubBranches, String::new())));
        assert(branch_views(r.0@) =~= Seq::<BranchView>::empty());
        return r;
    }
    let info = match reg.get(class_name.as_str()) {
        None => {
            let r = (Vec::new(), Some((name, SkipReason::NoObjectStreamerInfo, class_name)));
            assert(branch_views(r.0@) =~= Seq::<BranchView>::empty());
            return r;
        },
        Some(i) => i,
    };
    let els = &info.elements;
    let dotted = concat_str(name.as_str(), ".");
    let mut v: Vec<Branch> = Vec::new();
    let mut i: usize = 0;
    assert(branch_views(v@) =~= Seq::<BranchView>::empty());
    while i < els.len()
        invariant
            i <= els@.len(),
            dotted@ == name@ + "."@,
            sp == (loc.0, loc.1@, loc.2@, loc.3@),
            branch_views(v@) == object_columns(els@, i as int, name@, title@, sp),
        decreases els@.len() - i,
    {
        let el = &els[i];
        let is_base = str_eq(el.element_class.as_str(), "TStreamerBase");
        if !is_base {
            match member_leaf_type(el) {
                Some(leaf_type) => {
                    let b = Branch {
                        name: concat_str(dotted.as_str(), el.name.as_str()),
                        title: title.clone(),
                        leaf_type,
                        leaf_len: 1,
                        n_baskets: loc.0,
                        basket_seek: copy_u64s(&loc.2),
                        basket_bytes: copy_u64s(&loc.3),
                        basket_entry: copy_i64s(&loc.1),
                        elem_header: 0,
                        leaflist: None,
                        dims: Vec::new(),
                        nested_elem: None,
                        object_member: Some(ObjectMember { member: el.name.clone(), class_elements: copy_elements(els) }),
                    };
                    let ghost before = v@;
                    v.push(b);
                    proof {
                        assert(name@ + "."@ + el.name@ == dotted@ + el.name@);
                        assert(b@.dims =~= Seq::<usize>::empty());
                        assert(branch_views(v@) =~= branch_views(before).push(b@));
                    }
                },
                None => {},
            }
        }
        i += 1;
    }
    if v.len() == 0 {
        let r = (Vec::new(), Some((name, SkipReason::NoReadableMembers, class_name)));
        assert(branch_views(r.0@) =~= Seq::<BranchView>::empty());
        r
    } else {
        (v, None)
    }
}

/// The name a branch of the unreadable class `class`, whose body starts at
/// `p`, is reported under: its `TNamed` name, after its own and its
/// `TBranch` base's version headers; its class name when that cannot be
/// read.
pub open spec fn unknown_name_at(s: Seq<u8>, p: int, class: Seq<u8>) -> Seq<char> {
    match version_at(s, p) {
        None => text_of(class),
        Some((_, q1)) => match version_at(s, q1) {
            None => text_of(class),
            Some((_, q2)) => match tnamed_at(s, q2) {
                None => text_of(class),
                Some((n, _, _)) => n,
            },
        },
    }
}

/// The name a branch of the unreadable class `class` is reported under
/// (see [`unknown_name_at`]); the cursor is left where it was.
fn unknown_branch_name(r: &mut RBuffer, class: &[u8]) -> (name: String)
    ensures
        final(r).buf() == old(r).buf(),
        final(r).cursor() == old(r).cursor(),
        name@ == unknown_name_at(old(r).buf(), old(r).cursor(), class@),
{
    let start = r.pos();
    let _room = r.remaining();
    let name = match r.read_version() {
        Ok(_) => match r.read_version() {
            Ok(_) => match read_tnamed(r) {
                Ok(t) => t.name,
                Err(_) => text_from_bytes(class),
            },
            Err(_) => text_from_bytes(class),
        },
        Err(_) => text_from_bytes(class),
    };
    let _ = r.seek(start);
    name
}

/// Record a skipped branch, when there is one.
fn note_skip(w: &mut Walker, d: Option<Skipped>)
    ensures
        final(w).tags == old(w).tags,
        skipped_views(final(w).skipped@) == match skip_view(d) {
            Some(x) => skipped_views(old(w).skipped@).push(x),
            None => skipped_views(old(w).skipped@),
        },
{
    if let Some(x) = d {
        let ghost before = w.skipped@;
        w.skipped.push(x);
        assert(skipped_views(w.skipped@) =~= skipped_views(before).push((x.0@, x.1, x.2@)));
    }
}

/// Walk the streamer `elements` of a class, reading each member from `r`:
/// scalars, counted arrays and `TString`s are captured into the members by
/// name, base classes are read in place, object members go to `sink`, and
/// the walk stops after the element named `stop_after`.
pub fn walk_members(
    r: &mut RBuffer,
    w: &mut Walker,
    reg: &StreamerRegistry,
    elements: &[StreamerElement],
    mem_in: Members,
    sink_in: Sink,
    stop_after: &str,
) -> (res: Result<(Members, Sink), Error>)
    ensures
        final(r).buf() == old(r).buf(),
        final(w).tags.key_base() == old(w).tags.key_base(),
        match walk_at(src_of(*old(r), reg, *old(w)), elements@, 0, st_of(*old(r), *old(w)), mem_in@, sink_in@, stop_after@) {
            None => res is Err,
            Some((st2, m2, k2)) => res matches Ok((m, k)) && m@ == m2 && k@ == k2 && st_of(*final(r), *final(w))
                == st2,
        },
    decreases old(r).buf().len() - old(r).cursor(), 4int, 0int,
{
    let ghost c = src_of(*r, reg, *w);
    let ghost st0 = st_of(*r, *w);
    let ghost mem0 = mem_in@;
    let ghost sink0 = sink_in@;
    let start = r.pos();
    let mut mem = mem_in;
    let mut sink = sink_in;
    let mut i: usize = 0;
    while i < elements.len()
        invariant
            i <= elements@.len(),
            src_of(*r, reg, *w) == c,
            src_of(*old(r), reg, *old(w)) == c,
            mem0 == mem_in@,
            sink0 == sink_in@,
            old(r).buf() == c.s,
            old(w).tags.key_base() == c.kb,
            st_of(*old(r), *old(w)) == st0,
            start == old(r).cursor(),
            start <= r.cursor(),
            walk_at(c, elements@, 0, st0, mem0, sink0, stop_after@) == walk_at(
                c,
                elements@,
                i as int,
                st_of(*r, *w),
                mem@,
                sink@,
                stop_after@,
            ),
        decreases elements@.len() - i,
    {
        let el = &elements[i];
        let t = el.el_type;
        let step_start = r.pos();
        let _room = r.remaining();
        let ghost st = st_of(*r, *w);
        let ghost mv = mem@;
        let ghost kv = sink@;
        if str_eq(el.element_class.as_str(), "TStreamerBase") {
            match read_base(r, w, reg, el.name.as_str(), mem, sink, stop_after) {
                Ok((m2, k2)) => {
                    mem = m2;
                    sink = k2;
                },
                Err(e) => {
                    return Err(e);
                },
            }
        } else if t == 65 {
            let v = r.string()?;
            mem.insert(el.name.clone(), MemberVal::Str(v));
        } else if (61 <= t && t <= 71) || (300 <= t && t <= 365) || t == 500 || t == 501 {
            sink = read_object_member(r, w, reg, el.name.as_str(), sink)?;
        } else if 40 <= t && t < 61 {
            let (width, is_float) = match basic_kind(t - 40) {
                Some(k) => k,
                None => {
                    return Err(Error::Format(Issue::UnsupportedElementType));
                },
            };
            let cnt: i64 = match &el.count_name {
                Some(cn) => member_int(&mem, cn.as_str()),
                None => 0,
            };
            let count: usize = if cnt < 0 {
                0
            } else {
                cnt as usize
            };
            r.u8()?;
            let vals = read_counted(r, width, is_float, count)?;
            mem.insert(el.name.clone(), MemberVal::IntArray(vals));
        } else if 20 <= t && t < 40 {
            let (width, is_float) = match basic_kind(t - 20) {
                Some(k) => k,
                None => {
                    return Err(Error::Format(Issue::UnsupportedElementType));
                },
            };
            skip_basics(r, width, is_float, el.array_length)?;
        } else {
            let (width, is_float) = match basic_kind(t) {
                Some(k) => k,
                None => {
                    return Err(Error::Format(Issue::UnsupportedElementType));
                },
            };
            let v = read_basic(r, width, is_float)?;
            mem.insert(el.name.clone(), v);
        }
        let _room2 = r.remaining();
        if r.pos() < step_start {
            return Err(Error::Format(Issue::SeekOutOfRange));
        }
        if str_eq(el.name.as_str(), stop_after) {
            return Ok((mem, sink));
        }
        i += 1;
    }
    Ok((mem, sink))
}

/// Read a base-class slot of class `class` in place (see [`base_at`]).
pub fn read_base(
    r: &mut RBuffer,
    w: &mut Walker,
    reg: &StreamerRegistry,
    class: &str,
    mem: Members,
    sink: Sink,
    stop_after: &str,
) -> (res: Result<(Members, Sink), Error>)
    ensures
        final(r).buf() == old(r).buf(),
        final(w).tags.key_base() == old(w).tags.key_base(),
        match base_at(src_of(*old(r), reg, *old(w)), class@, st_of(*old(r), *old(w)), mem@, sink@, stop_after@) {
            None => res is Err,
            Some((st2, m2, k2)) => res matches Ok((m, k)) && m@ == m2 && k@ == k2 && st_of(*final(r), *final(w))
                == st2,
        },
    decreases old(r).buf().len() - old(r).cursor(), 3int, 0int,
{
    let _room = r.remaining();
    let _p = r.pos();
    let mut mem = mem;
    if str_eq(class, "TObject") {
        read_tobject(r)?;
        Ok((mem, sink))
    } else if str_eq(class, "TNamed") {
        let named = read_tnamed(r)?;
        mem.insert(String::from_str("fName"), MemberVal::Str(named.name));
        mem.insert(String::from_str("fTitle"), MemberVal::Str(named.title));
        Ok((mem, sink))
    } else {
        let vh = r.read_version()?;
        match reg.get_at(class, vh.version as i32) {
            Some(info) => {
                let (m2, k2) = walk_members(r, w, reg, info.elements.as_slice(), mem, sink, stop_after)?;
                if let Some(end) = vh.end {
                    r.seek(end)?;
                }
                Ok((m2, k2))
            },
            None => match vh.end {
                None => Err(Error::Format(Issue::UnskippableBase)),
                Some(end) => {
                    r.seek(end)?;
                    Ok((mem, sink))
                },
            },
        }
    }
}

/// Read an object member named `name` into `sink` (see [`object_at`]).
#[verifier::rlimit(40)]
#[verifier::spinoff_prover]
pub fn read_object_member(r: &mut RBuffer, w: &mut Walker, reg: &StreamerRegistry, name: &str, sink: Sink) -> (res:
    Result<Sink, Error>)
    ensures
        final(r).buf() == old(r).buf(),
        final(w).tags.key_base() == old(w).tags.key_base(),
        match object_at(src_of(*old(r), reg, *old(w)), name@, st_of(*old(r), *old(w)), sink@) {
            None => res is Err,
            Some((st2, k2)) => res matches Ok(k) && k@ == k2 && st_of(*final(r), *final(w)) == st2,
        },
    decreases old(r).buf().len() - old(r).cursor(), 3int, 0int,
{
    let _room = r.remaining();
    let _p = r.pos();
    match sink {
        Sink::Skip => {
            skip_object(r)?;
            Ok(Sink::Skip)
        },
        Sink::Tree(t) => {
            let mut t = t;
            if str_eq(name, "fBranches") {
                t.branches = read_branch_array(r, w, reg)?;
            } else if str_eq(name, "fAliases") {
                t.aliases = read_aliases(r, &mut w.tags)?;
            } else if str_eq(name, "fFriends") {
                t.friends = read_friends(r, &mut w.tags)?;
            } else if str_eq(name, "fIndexValues") || str_eq(name, "fIndex") {
                let width: usize = if str_eq(name, "fIndexValues") {
                    8
                } else {
                    4
                };
                let n = r.be_i32()?;
                let k: usize = if n < 0 {
                    0
                } else {
                    n as usize
                };
                let b = match k.checked_mul(width) {
                    Some(b) => b,
                    None => {
                        return Err(Error::Format(Issue::SizeOverflow));
                    },
                };
                r.skip(b)?;
            } else if str_eq(name, "fTreeIndex") {
                let h = w.tags.read_header(r)?;
                let is_index = match &h.class_name {
                    Some(c) => bytes_eq(c.as_slice(), "TTreeIndex".as_bytes()),
                    None => false,
                };
                if is_index {
                    t.index = read_tree_index(r)?;
                }
                if let Some(end) = h.end {
                    r.seek(end)?;
                }
            } else {
                skip_object(r)?;
            }
            Ok(Sink::Tree(t))
        },
        Sink::Branch(b) => {
            let mut b = b;
            if str_eq(name, "fBranches") {
                b.sub = read_branch_array(r, w, reg)?;
            } else if str_eq(name, "fLeaves") {
                b.leaves = read_leaf_array(r, &mut w.tags)?;
            } else if str_eq(name, "fBaskets") {
                read_skip_array(r, &mut w.tags)?;
            } else {
                skip_object(r)?;
            }
            Ok(Sink::Branch(b))
        },
    }
}

/// Read a `TObjArray` of branches (see [`branch_array_at`]).
pub fn read_branch_array(r: &mut RBuffer, w: &mut Walker, reg: &StreamerRegistry) -> (res: Result<Vec<Branch>, Error>)
    ensures
        final(r).buf() == old(r).buf(),
        final(w).tags.key_base() == old(w).tags.key_base(),
        match branch_array_at(src_of(*old(r), reg, *old(w)), st_of(*old(r), *old(w))) {
            None => res is Err,
            Some((bs, st2)) => res matches Ok(v) && branch_views(v@) == bs && st_of(*final(r), *final(w)) == st2,
        },
    decreases old(r).buf().len() - old(r).cursor(), 2int, 0int,
{
    let ghost c = src_of(*r, reg, *w);
    let _room = r.remaining();
    let start = r.pos();
    let n = read_array_head(r)?;
    let ghost st0 = st_of(*r, *w);
    let mut branches: Vec<Branch> = Vec::new();
    let mut k: i32 = 0;
    assert(branch_views(branches@) =~= Seq::<BranchView>::empty());
    while k < n
        invariant
            0 <= k <= n,
            src_of(*r, reg, *w) == c,
            old(r).buf() == c.s,
            old(w).tags.key_base() == c.kb,
            start == old(r).cursor(),
            start < r.cursor(),
            branch_array_at(c, st_of(*old(r), *old(w))) == branch_items_at(c, 0, n as int, st0, Seq::empty()),
            branch_items_at(c, 0, n as int, st0, Seq::empty()) == branch_items_at(
                c,
                k as int,
                n as int,
                st_of(*r, *w),
                branch_views(branches@),
            ),
        decreases n - k,
    {
        let iter_start = r.pos();
        let _room2 = r.remaining();
        let h = w.tags.read_header(r)?;
        if r.pos() <= iter_start {
            return Err(Error::Format(Issue::SeekOutOfRange));
        }
        let mut got: Vec<Branch> = match &h.class_name {
            Some(c) => if bytes_eq(c.as_slice(), "TBranch".as_bytes()) {
                read_branch(r, w, reg)?
            } else if bytes_eq(c.as_slice(), "TBranchElement".as_bytes()) {
                read_branch_element(r, w, reg)?
            } else if bytes_eq(c.as_slice(), "TBranchObject".as_bytes()) {
                read_branch_object(r, w, reg)?
            } else {
                let name = unknown_branch_name(r, c.as_slice());
                note_skip(w, Some((name, SkipReason::UnsupportedBranchClass, text_from_bytes(c.as_slice()))));
                let v: Vec<Branch> = Vec::new();
                assert(branch_views(v@) =~= Seq::<BranchView>::empty());
                v
            },
            None => {
                let v: Vec<Branch> = Vec::new();
                assert(branch_views(v@) =~= Seq::<BranchView>::empty());
                v
            },
        };
        let ghost before = branches@;
        let ghost added = got@;
        branches.append(&mut got);
        assert(branch_views(branches@) =~= branch_views(before) + branch_views(added));
        if let Some(end) = h.end {
            r.seek(end)?;
        }
        let _room3 = r.remaining();
        if r.pos() < iter_start {
            return Err(Error::Format(Issue::SeekOutOfRange));
        }
        k += 1;
    }
    Ok(branches)
}

/// Read one `TBranch` body (see [`branch_at`]).
pub fn read_branch(r: &mut RBuffer, w: &mut Walker, reg: &StreamerRegistry) -> (res: Result<Vec<Branch>, Error>)
    ensures
        final(r).buf() == old(r).buf(),
        final(w).tags.key_base() == old(w).tags.key_base(),
        match branch_at(src_of(*old(r), reg, *old(w)), st_of(*old(r), *old(w))) {
            None => res is Err,
            Some((bs, st2)) => res matches Ok(v) && branch_views(v@) == bs && st_of(*final(r), *final(w)) == st2,
        },
    decreases old(r).buf().len() - old(r).cursor(), 1int, 0int,
{
    let _room = r.remaining();
    let _p = r.pos();
    let info = match reg.get("TBranch") {
        Some(i) => i,
        None => {
            return Err(Error::MissingStreamerInfo { class: String::from_str("TBranch") });
        },
    };
    let _vh = r.read_version()?;
    let no_stop = String::new();
    let (out, sub, leaves) = read_tbranch_base(r, w, reg, info.elements.as_slice(), no_stop.as_str())?;
    let (bs, d) = build_plain(&out, &sub, &leaves);
    note_skip(w, d);
    Ok(bs)
}

/// Read one `TBranchElement` body (see [`element_at`]).
pub fn read_branch_element(r: &mut RBuffer, w: &mut Walker, reg: &StreamerRegistry) -> (res: Result<Vec<Branch>, Error>)
    ensures
        final(r).buf() == old(r).buf(),
        final(w).tags.key_base() == old(w).tags.key_base(),
        match element_at(src_of(*old(r), reg, *old(w)), st_of(*old(r), *old(w))) {
            None => res is Err,
            Some((bs, st2)) => res matches Ok(v) && branch_views(v@) == bs && st_of(*final(r), *final(w)) == st2,
        },
    decreases old(r).buf().len() - old(r).cursor(), 1int, 0int,
{
    let _room = r.remaining();
    let _p = r.pos();
    let info = match reg.get("TBranchElement") {
        Some(i) => i,
        None => {
            return Err(Error::MissingStreamerInfo { class: String::from_str("TBranchElement") });
        },
    };
    let _vh = r.read_version()?;
    let (out, sub, _leaves) = read_tbranch_base(r, w, reg, info.elements.as_slice(), "fStreamerType")?;
    let (bs, d) = build_element(&out, sub);
    note_skip(w, d);
    Ok(bs)
}

/// Read one unsplit `TBranchObject` body (see [`object_branch_at`]).
pub fn read_branch_object(r: &mut RBuffer, w: &mut Walker, reg: &StreamerRegistry) -> (res: Result<Vec<Branch>, Error>)
    ensures
        final(r).buf() == old(r).buf(),
        final(w).tags.key_base() == old(w).tags.key_base(),
        match object_branch_at(src_of(*old(r), reg, *old(w)), st_of(*old(r), *old(w))) {
            None => res is Err,
            Some((bs, st2)) => res matches Ok(v) && branch_views(v@) == bs && st_of(*final(r), *final(w)) == st2,
        },
    decreases old(r).buf().len() - old(r).cursor(), 1int, 0int,
{
    let _room = r.remaining();
    let _p = r.pos();
    let info = match reg.get("TBranchObject") {
        Some(i) => i,
        None => {
            return Err(Error::MissingStreamerInfo { class: String::from_str("TBranchObject") });
        },
    };
    let _vh = r.read_version()?;
    let no_stop = String::new();
    let (out, sub, _leaves) = read_tbranch_base(r, w, reg, info.elements.as_slice(), no_stop.as_str())?;
    let (bs, d) = build_object(reg, &out, &sub);
    note_skip(w, d);
    Ok(bs)
}

/// Read a `TBranch`'s members by walking `elements` up to `stop_after`
/// (see [`tbranch_base_at`]): the members, sub-branches and leaves.
pub fn read_tbranch_base(
    r: &mut RBuffer,
    w: &mut Walker,
    reg: &StreamerRegistry,
    elements: &[StreamerElement],
    stop_after: &str,
) -> (res: Result<(Members, Vec<Branch>, Vec<Leaf>), Error>)
    ensures
        final(r).buf() == old(r).buf(),
        final(w).tags.key_base() == old(w).tags.key_base(),
        match tbranch_base_at(src_of(*old(r), reg, *old(w)), elements@, stop_after@, st_of(*old(r), *old(w))) {
            None => res is Err,
            Some((mem, sub, ls, st2)) => res matches Ok((m, s, l)) && m@ == mem && branch_views(s@) == sub
                && leaf_views(l@) == ls && st_of(*final(r), *final(w)) == st2,
        },
    decreases old(r).buf().len() - old(r).cursor(), 5int, 0int,
{
    let _room = r.remaining();
    let _p = r.pos();
    let parts = BranchParts { sub: Vec::new(), leaves: Vec::new() };
    assert(branch_views(parts.sub@) =~= Seq::<BranchView>::empty());
    assert(leaf_views(parts.leaves@) =~= Seq::<LeafView>::empty());
    let (mem, sink) = walk_members(r, w, reg, elements, Members::new(), Sink::Branch(parts), stop_after)?;
    match sink {
        Sink::Branch(b) => Ok((mem, b.sub, b.leaves)),
        _ => Err(Error::Format(Issue::UnsupportedElementType)),
    }
}

/// What a [`TreeReader`] holds, as views.
pub struct TreeView {
    pub name: Seq<char>,
    pub entries: u64,
    pub branches: Seq<BranchView>,
    pub skipped: Seq<SkippedView>,
    pub classes: Seq<(Seq<char>, i32)>,
    pub friends: Seq<FriendModel>,
    pub aliases: Seq<AliasView>,
    pub index: Option<TreeIndexView>,
}

/// A `TTree`'s metadata: its name, entry count and readable branches, the
/// branches it holds that cannot be read (and why), the classes of the
/// file's streamer info, its friends, aliases and index. Branch data is
/// read from the baskets its branches locate.
#[derive(Debug)]
pub struct TreeReader {
    name: String,
    entries: u64,
    branches: Vec<Branch>,
    unsupported: Vec<Skipped>,
    streamer_classes: Vec<(String, i32)>,
    friends: Vec<Friend>,
    aliases: Vec<(String, String)>,
    index: Option<TreeIndex>,
}

/// The views of (class, version) pairs.
pub open spec fn class_views(v: Seq<(String, i32)>) -> Seq<(Seq<char>, i32)> {
    v.map_values(|c: (String, i32)| (c.0@, c.1))
}

/// The first of `bs` named `name`, by its index.
pub open spec fn find_branch(bs: Seq<BranchView>, name: Seq<char>) -> Option<int> {
    if exists|i: int| 0 <= i < bs.len() && bs[i].name == name {
        Some(choose|i: int| 0 <= i < bs.len() && bs[i].name == name && forall|j: int| 0 <= j < i ==> bs[j].name != name)
    } else {
        None
    }
}

impl TreeReader {
    /// The tree's metadata as views.
    pub closed spec fn parts(&self) -> TreeView {
        TreeView {
            name: self.name@,
            entries: self.entries,
            branches: branch_views(self.branches@),
            skipped: skipped_views(self.unsupported@),
            classes: class_views(self.streamer_classes@),
            friends: friend_models(self.friends@),
            aliases: alias_views(self.aliases@),
            index: index_view(self.index),
        }
    }

    /// The tree name.
    pub fn name(&self) -> (r: &str)
        ensures
            r@ == self.parts().name,
    {
        self.name.as_str()
    }

    /// The number of entries (`fEntries`).
    pub fn num_entries(&self) -> (r: u64)
        ensures
            r == self.parts().entries,
    {
        self.entries
    }

    /// The readable branches' names, in tree order.
    pub fn branch_names(&self) -> (r: Vec<String>)
        ensures
            r@.map_values(|n: String| n@) == self.parts().branches.map_values(|b: BranchView| b.name),
    {
        let mut out: Vec<String> = Vec::new();
        let mut i: usize = 0;
        while i < self.branches.len()
            invariant
                i <= self.branches@.len(),
                out@.map_values(|n: String| n@) == branch_views(self.branches@).take(i as int).map_values(
                    |b: BranchView| b.name,
                ),
            decreases self.branches@.len() - i,
        {
            let ghost before = out@;
            out.push(self.branches[i].name.clone());
            proof {
                let bv = branch_views(self.branches@);
                assert(bv.take(i as int + 1) =~= bv.take(i as int).push(bv[i as int]));
                assert(out@.map_values(|n: String| n@) =~= before.map_values(|n: String| n@).push(
                    self.branches@[i as int].name@,
                ));
                assert(out@.map_values(|n: String| n@) =~= bv.take(i as int + 1).map_values(|b: BranchView| b.name));
            }
            i += 1;
        }
        assert(branch_views(self.branches@).take(self.branches@.len() as int) =~= branch_views(self.branches@));
        out
    }

    /// The readable branches' metadata, in tree order.
    pub fn branches(&self) -> (r: &[Branch])
        ensures
            branch_views(r@) == self.parts().branches,
    {
        self.branches.as_slice()
    }

    /// The branch named `name`.
    pub fn branch(&self, name: &str) -> (r: Option<&Branch>)
        ensures
            match find_branch(self.parts().branches, name@) {
                None => r is None,
                Some(i) => r matches Some(b) && b@ == self.parts().branches[i],
            },
    {
        let ghost bv = branch_views(self.branches@);
        let mut i: usize = 0;
        while i < self.branches.len()
            invariant
                i <= self.branches@.len(),
                bv == branch_views(self.branches@),
                forall|j: int| 0 <= j < i ==> bv[j].name != name@,
            decreases self.branches@.len() - i,
        {
            if str_eq(self.branches[i].name.as_str(), name) {
                proof {
                    assert(bv[i as int].name == name@);
                    let k = choose|k: int| 0 <= k < bv.len() && bv[k].name == name@ && forall|j: int| 0 <= j < k ==> bv[j].name != name@;
                    assert(k == i) by {
                        if k < i {
                            assert(bv[k].name != name@);
                        }
                        if k > i {
                            assert(bv[i as int].name != name@);
                        }
                    }
                }
                return Some(&self.branches[i]);
            }
            i += 1;
        }
        None
    }

    /// The element type of branch `name`, when there is such a branch.
    pub fn branch_type(&self, name: &str) -> (r: Option<LeafType>)
        ensures
            match find_branch(self.parts().branches, name@) {
                None => r is None,
                Some(i) => r == Some(self.parts().branches[i].leaf_type),
            },
    {
        match self.branch(name) {
            Some(b) => Some(b.leaf_type),
            None => None,
        }
    }

    /// `fLen` of branch `name`: the elements per entry of a fixed array (1
    /// for a scalar).
    pub fn branch_len(&self, name: &str) -> (r: Option<i32>)
        ensures
            match find_branch(self.parts().branches, name@) {
                None => r is None,
                Some(i) => r == Some(self.parts().branches[i].leaf_len),
            },
    {
        match self.branch(name) {
            Some(b) => Some(b.leaf_len),
            None => None,
        }
    }

    /// The title of branch `name` — its leaf list or shape string.
    pub fn branch_title(&self, name: &str) -> (r: Option<&str>)
        ensures
            match find_branch(self.parts().branches, name@) {
                None => r is None,
                Some(i) => r matches Some(t) && t@ == self.parts().branches[i].title,
            },
    {
        match self.branch(name) {
            Some(b) => Some(b.title.as_str()),
            None => None,
        }
    }

    /// The per-entry fixed array shape of branch `name`: `[N]` for `x[N]`,
    /// `[N, M]` for `x[N][M]`, empty for a scalar or variable-length branch.
    pub fn branch_shape(&self, name: &str) -> (r: Option<&[usize]>)
        ensures
            match find_branch(self.parts().branches, name@) {
                None => r is None,
                Some(i) => r matches Some(d) && d@ == self.parts().branches[i].dims,
            },
    {
        match self.branch(name) {
            Some(b) => Some(b.dims.as_slice()),
            None => None,
        }
    }

    /// The branches present that cannot be read: each one's name, why, and
    /// the class involved (empty when none).
    pub fn unsupported_branches(&self) -> (r: &[Skipped])
        ensures
            skipped_views(r@) == self.parts().skipped,
    {
        self.unsupported.as_slice()
    }

    /// The classes (and versions) of the file's streamer info — the schema
    /// the tree was written against.
    pub fn streamer_classes(&self) -> (r: &[(String, i32)])
        ensures
            class_views(r@) == self.parts().classes,
    {
        self.streamer_classes.as_slice()
    }

    /// The friend trees attached with `TTree::AddFriend`.
    pub fn friends(&self) -> (r: &[Friend])
        ensures
            friend_models(r@) == self.parts().friends,
    {
        self.friends.as_slice()
    }

    /// The `(alias, expression)` pairs defined with `TTree::SetAlias`.
    pub fn aliases(&self) -> (r: &[(String, String)])
        ensures
            alias_views(r@) == self.parts().aliases,
    {
        self.aliases.as_slice()
    }

    /// The expression alias `name` stands for: the first alias so named.
    pub fn alias(&self, name: &str) -> (r: Option<&str>)
        ensures
            match r {
                Some(e) => exists|i: int|
                    0 <= i < self.parts().aliases.len() && self.parts().aliases[i] == (name@, e@) && forall|j: int|
                        0 <= j < i ==> self.parts().aliases[j].0 != name@,
                None => forall|i: int| 0 <= i < self.parts().aliases.len() ==> self.parts().aliases[i].0 != name@,
            },
    {
        let ghost av = alias_views(self.aliases@);
        let mut i: usize = 0;
        while i < self.aliases.len()
            invariant
                i <= self.aliases@.len(),
                av == alias_views(self.aliases@),
                av == self.parts().aliases,
                forall|j: int| 0 <= j < i ==> av[j].0 != name@,
            decreases self.aliases@.len() - i,
        {
            if str_eq(self.aliases[i].0.as_str(), name) {
                assert(self.parts().aliases[i as int] == (name@, self.aliases@[i as int].1@));
                assert(forall|j: int| 0 <= j < i ==> self.parts().aliases[j].0 != name@);
                return Some(self.aliases[i].1.as_str());
            }
            i += 1;
        }
        None
    }

    /// The tree's index (`TTree::BuildIndex`), when it has one.
    pub fn index(&self) -> (r: Option<&TreeIndex>)
        ensures
            match r {
                Some(t) => self.parts().index == Some(t@),
                None => self.parts().index is None,
            },
    {
        match &self.index {
            Some(t) => Some(t),
            None => None,
        }
    }
}

/// The `TTree` (or `TNtuple`/`TNtupleD`, a tree wrapped in one more header)
/// a decompressed object of class `class_name` holds, its key's header
/// `keylen` bytes long: the `TTree` members walked by the file's
/// description of its version up to `fFriends`, the name and entry count
/// (negative read as 0) from `fName` and `fEntries`, and the branches,
/// friends, aliases and index its object members give. `None` when the
/// file has no description of that `TTree` version or a read fails.
pub open spec fn tree_at(s: Seq<u8>, keylen: usize, reg: Seq<StreamerInfo>, class_name: Seq<char>) -> Option<TreeView> {
    let c = Src { s, reg, kb: keylen as u128 };
    let head: Option<(int, Option<usize>)> = if class_name == "TNtuple"@ || class_name == "TNtupleD"@ {
        match version_at(s, 0) {
            None => None,
            Some((vh, q)) => Some((q, vh.end)),
        }
    } else {
        Some((0, None))
    };
    match head {
        None => None,
        Some((p1, outer_end)) => match version_at(s, p1) {
            None => None,
            Some((th, q2)) => match find_info(reg, "TTree"@, Some(th.version as i32)) {
                None => None,
                Some(k) => match walk_at(
                    c,
                    reg[k].elements@,
                    0,
                    St { pos: q2, seen: Seq::empty(), skipped: Seq::empty() },
                    Seq::empty(),
                    SinkView::Tree(Seq::empty(), Seq::empty(), Seq::empty(), None),
                    "fFriends"@,
                ) {
                    Some((st, mem, SinkView::Tree(bs, fs, als, ix))) => {
                        let end: Option<usize> = match outer_end {
                            Some(e) => Some(e),
                            None => th.end,
                        };
                        if end matches Some(e) && e > s.len() {
                            None
                        } else {
                            let n = spec_member_int(mem, "fEntries"@);
                            Some(
                                TreeView {
                                    name: spec_member_str(mem, "fName"@),
                                    entries: (if n < 0 {
                                        0
                                    } else {
                                        n
                                    }) as u64,
                                    branches: bs,
                                    skipped: st.skipped,
                                    classes: Seq::empty(),
                                    friends: fs,
                                    aliases: als,
                                    index: ix,
                                },
                            )
                        }
                    },
                    _ => None,
                },
            },
        },
    }
}

/// Parse a decompressed `TTree` object (`keylen` is its key's header
/// length), its member layout taken from the file's streamer info `reg`
/// (see [`tree_at`]).
pub fn read_tree(object: &[u8], keylen: usize, reg: &StreamerRegistry, class_name: &str) -> (res: Result<TreeReader, Error>)
    ensures
        match tree_at(object@, keylen, reg.infos@, class_name@) {
            None => res is Err,
            Some(t) => res matches Ok(x) && x.parts() == t,
        },
{
    let mut r = RBuffer::new(object);
    let mut w = Walker { tags: TagReader::new(keylen), skipped: Vec::new() };
    assert(skipped_views(w.skipped@) =~= Seq::<SkippedView>::empty());
    let outer_end: Option<usize> = if str_eq(class_name, "TNtuple") || str_eq(class_name, "TNtupleD") {
        r.read_version()?.end
    } else {
        None
    };
    let tree_hdr = r.read_version()?;
    let info = match reg.get_at("TTree", tree_hdr.version as i32) {
        Some(i) => i,
        None => {
            return Err(Error::MissingStreamerInfo { class: String::from_str("TTree") });
        },
    };
    let parts = TreeParts { branches: Vec::new(), friends: Vec::new(), aliases: Vec::new(), index: None };
    assert(branch_views(parts.branches@) =~= Seq::<BranchView>::empty());
    assert(friend_models(parts.friends@) =~= Seq::<FriendModel>::empty());
    assert(alias_views(parts.aliases@) =~= Seq::<AliasView>::empty());
    let (out, sink) = walk_members(
        &mut r,
        &mut w,
        reg,
        info.elements.as_slice(),
        Members::new(),
        Sink::Tree(parts),
        "fFriends",
    )?;
    let t = match sink {
        Sink::Tree(t) => t,
        _ => {
            return Err(Error::Format(Issue::UnsupportedElementType));
        },
    };
    let end = match outer_end {
        Some(e) => Some(e),
        None => tree_hdr.end,
    };
    if let Some(e) = end {
        r.seek(e)?;
    }
    let n = member_int(&out, "fEntries");
    let classes: Vec<(String, i32)> = Vec::new();
    assert(class_views(classes@) =~= Seq::<(Seq<char>, i32)>::empty());
    Ok(
        TreeReader {
            name: member_str(&out, "fName"),
            entries: if n < 0 {
                0
            } else {
                n as u64
            },
            branches: t.branches,
            unsupported: w.skipped,
            streamer_classes: classes,
            friends: t.friends,
            aliases: t.aliases,
            index: t.index,
        },
    )
}

/// The (class, version) pairs of the file's streamer info.
pub fn registry_classes(reg: &StreamerRegistry) -> (r: Vec<(String, i32)>)
    ensures
        class_views(r@) == reg.infos@.map_values(|i: StreamerInfo| (i.class_name@, i.class_version)),
{
    let mut out: Vec<(String, i32)> = Vec::new();
    let mut i: usize = 0;
    while i < reg.infos.len()
        invariant
            i <= reg.infos@.len(),
            class_views(out@) == reg.infos@.take(i as int).map_values(|x: StreamerInfo| (x.class_name@, x.class_version)),
        decreases reg.infos@.len() - i,
    {
        let info = &reg.infos[i];
        let ghost before = out@;
        out.push((info.class_name.clone(), info.class_version));
        proof {
            assert(reg.infos@.take(i as int + 1) =~= reg.infos@.take(i as int).push(reg.infos@[i as int]));
            assert(class_views(out@) =~= class_views(before).push((info.class_name@, info.class_version)));
        }
        i += 1;
    }
    assert(reg.infos@.take(reg.infos@.len() as int) =~= reg.infos@);
    out
}

/// Whether a key of class `class` holds a tree: a `TTree`, or a `TNtuple`
/// or `TNtupleD` (tree subclasses).
pub open spec fn is_tree_class(class: Seq<char>) -> bool {
    class == "TTree"@ || class == "TNtuple"@ || class == "TNtupleD"@
}

/// Open the tree a key named `key_name` of class `class_name` holds, from
/// its decompressed object (`keylen` is the key's header length) and the
/// file's streamer info: the tree [`read_tree`] reads, with the streamer
/// info's classes; a key of another class is refused.
pub fn tree_from_object(
    key_name: &str,
    class_name: &str,
    object: &[u8],
    keylen: usize,
    reg: &StreamerRegistry,
) -> (res: Result<TreeReader, Error>)
    ensures
        !is_tree_class(class_name@) ==> (res matches Err(Error::WrongClass { name, found, expected }) && name@
            == key_name@ && found@ == class_name@ && expected@ == "TTree"@),
        is_tree_class(class_name@) ==> (match tree_at(object@, keylen, reg.infos@, class_name@) {
            None => res is Err,
            Some(t) => res matches Ok(x) && x.parts() == (TreeView {
                classes: reg.infos@.map_values(|i: StreamerInfo| (i.class_name@, i.class_version)),
                ..t
            }),
        }),
{
    if !(str_eq(class_name, "TTree") || str_eq(class_name, "TNtuple") || str_eq(class_name, "TNtupleD")) {
        return Err(
            Error::WrongClass {
                name: String::from_str(key_name),
                found: String::from_str(class_name),
                expected: String::from_str("TTree"),
            },
        );
    }
    let mut tree = read_tree(object, keylen, reg, class_name)?;
    tree.streamer_classes = registry_classes(reg);
    Ok(tree)
}
} // verus!
