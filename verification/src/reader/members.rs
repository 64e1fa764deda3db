//! Walking a class's streamer elements to read its members.

use vstd::prelude::*;
use crate::codec::{u16_at, u32_at, u64_at};
use crate::error::Error;
use crate::rbuffer::RBuffer;
use crate::text::str_eq;

verus! {

/// One element of a class's `TStreamerInfo`: a member or a base class.
#[derive(Debug, Clone, PartialEq, Eq)]
pub struct StreamerElement {
    /// The member (or base class) name.
    pub name: String,
    /// The element's class: `TStreamerBasicType`, `TStreamerBase`, ….
    pub element_class: String,
    /// `fType`: the streamer type code.
    pub el_type: i32,
    /// `fTypeName`: the member's C++ type spelling.
    pub type_spelling: String,
    /// `fArrayLength`: elements of a fixed array member (0 for a scalar).
    pub array_length: i32,
    /// `fCountName`: the counter member of a `T* //[fN]` array.
    pub count_name: Option<String>,
}

/// What a [`StreamerElement`] says, as text and numbers.
pub struct ElementView {
    pub name: Seq<char>,
    pub element_class: Seq<char>,
    pub el_type: i32,
    pub type_spelling: Seq<char>,
    pub array_length: i32,
    pub count_name: Option<Seq<char>>,
}

impl View for StreamerElement {
    type V = ElementView;

    open spec fn view(&self) -> ElementView {
        ElementView {
            name: self.name@,
            element_class: self.element_class@,
            el_type: self.el_type,
            type_spelling: self.type_spelling@,
            array_length: self.array_length,
            count_name: match self.count_name {
                Some(c) => Some(c@),
                None => None,
            },
        }
    }
}

/// The views of a list of elements.
pub open spec fn element_views(s: Seq<StreamerElement>) -> Seq<ElementView> {
    s.map_values(|e: StreamerElement| e@)
}

/// A copy of an element.
pub fn copy_element(el: &StreamerElement) -> (r: StreamerElement)
    ensures
        r@ == el@,
{
    StreamerElement {
        name: el.name.clone(),
        element_class: el.element_class.clone(),
        el_type: el.el_type,
        type_spelling: el.type_spelling.clone(),
        array_length: el.array_length,
        count_name: match &el.count_name {
            Some(c) => Some(c.clone()),
            None => None,
        },
    }
}

/// A copy of a list of elements.
pub fn copy_elements(v: &Vec<StreamerElement>) -> (r: Vec<StreamerElement>)
    ensures
        element_views(r@) == element_views(v@),
{
    let mut out: Vec<StreamerElement> = Vec::new();
    let mut i: usize = 0;
    while i < v.len()
        invariant
            i <= v@.len(),
            element_views(out@) == element_views(v@.take(i as int)),
        decreases v@.len() - i,
    {
        let ghost before = out@;
        out.push(copy_element(&v[i]));
        proof {
            assert(v@.take(i as int + 1) =~= v@.take(i as int).push(v@[i as int]));
            assert(element_views(out@) =~= element_views(before).push(v@[i as int]@));
            assert(element_views(v@.take(i as int + 1)) =~= element_views(v@.take(i as int)).push(
                v@[i as int]@,
            ));
        }
        i += 1;
    }
    assert(v@.take(v@.len() as int) == v@);
    out
}

/// The streamer description of one class version: its members and bases.
pub struct StreamerInfo {
    /// The class the description is for.
    pub class_name: String,
    /// The class version it describes.
    pub class_version: i32,
    /// The class's elements, in streaming order.
    pub elements: Vec<StreamerElement>,
}

/// The `TStreamerInfo` records of a file: the schema a reader walks.
pub struct StreamerRegistry {
    /// The recorded class descriptions, in file order.
    pub infos: Vec<StreamerInfo>,
}

/// The first description of class `class` in `reg` (of version `version`
/// when one is asked for), by its index.
pub open spec fn find_info(reg: Seq<StreamerInfo>, class: Seq<char>, version: Option<i32>) -> Option<int>
    decreases reg.len(),
{
    if reg.len() == 0 {
        None
    } else {
        let k = (reg.len() - 1) as int;
        match find_info(reg.take(k), class, version) {
            Some(i) => Some(i),
            None => if reg[k].class_name@ == class && (version is None || version == Some(reg[k].class_version)) {
                Some(k)
            } else {
                None
            },
        }
    }
}

/// A found description lies in the registry.
pub proof fn lemma_find_info_in(reg: Seq<StreamerInfo>, class: Seq<char>, version: Option<i32>)
    ensures
        find_info(reg, class, version) matches Some(i) ==> 0 <= i < reg.len() && reg[i].class_name@ == class
            && (version is None || version == Some(reg[i].class_version)),
    decreases reg.len(),
{
    if reg.len() > 0 {
        lemma_find_info_in(reg.take(reg.len() - 1), class, version);
    }
}

impl StreamerRegistry {
    /// The first description recorded for class `class`.
    pub fn get(&self, class: &str) -> (r: Option<&StreamerInfo>)
        ensures
            match find_info(self.infos@, class@, None) {
                None => r is None,
                Some(i) => r == Some(&self.infos@[i]),
            },
    {
        self.find(class, None)
    }

    /// The first description recorded for version `version` of class `class`.
    pub fn get_at(&self, class: &str, version: i32) -> (r: Option<&StreamerInfo>)
        ensures
            match find_info(self.infos@, class@, Some(version)) {
                None => r is None,
                Some(i) => r == Some(&self.infos@[i]),
            },
    {
        self.find(class, Some(version))
    }

    fn find(&self, class: &str, version: Option<i32>) -> (r: Option<&StreamerInfo>)
        ensures
            match find_info(self.infos@, class@, version) {
                None => r is None,
                Some(i) => r == Some(&self.infos@[i]),
            },
    {
        let ghost reg = self.infos@;
        let mut i: usize = 0;
        while i < self.infos.len()
            invariant
                i <= reg.len(),
                reg == self.infos@,
                find_info(reg.take(i as int), class@, version) is None,
            decreases reg.len() - i,
        {
            let info = &self.infos[i];
            proof {
                assert(reg.take(i as int + 1).take(i as int) == reg.take(i as int));
            }
            let version_ok = match version {
                None => true,
                Some(v) => v == info.class_version,
            };
            if version_ok && str_eq(info.class_name.as_str(), class) {
                proof {
                    lemma_find_prefix(reg, class@, version, i as int + 1);
                }
                return Some(info);
            }
            i += 1;
        }
        assert(reg.take(reg.len() as int) == reg);
        None
    }
}

/// A description found among the first `n` is the one found among all.
proof fn lemma_find_prefix(reg: Seq<StreamerInfo>, class: Seq<char>, version: Option<i32>, n: int)
    requires
        0 <= n <= reg.len(),
        find_info(reg.take(n), class, version) is Some,
    ensures
        find_info(reg, class, version) == find_info(reg.take(n), class, version),
    decreases reg.len() - n,
{
    if n < reg.len() {
        assert(reg.take(n + 1).take(n) == reg.take(n));
        lemma_find_prefix(reg, class, version, n + 1);
    } else {
        assert(reg.take(n) == reg);
    }
}

/// A member value captured while walking a class's elements: integers of
/// any width widened to `i64`, floating members kept as their IEEE-754 bit
/// patterns, counted arrays as their values, and `TString`s as text.
#[derive(Debug)]
pub enum MemberVal {
    Int(i64),
    Float32(u32),
    Float64(u64),
    IntArray(Vec<i64>),
    Str(String),
}

/// A [`MemberVal`] as numbers and text.
pub enum MemberModel {
    Int(i64),
    Float32(u32),
    Float64(u64),
    IntArray(Seq<i64>),
    Str(Seq<char>),
}

impl View for MemberVal {
    type V = MemberModel;

    open spec fn view(&self) -> MemberModel {
        match self {
            MemberVal::Int(v) => MemberModel::Int(*v),
            MemberVal::Float32(v) => MemberModel::Float32(*v),
            MemberVal::Float64(v) => MemberModel::Float64(*v),
            MemberVal::IntArray(v) => MemberModel::IntArray(v@),
            MemberVal::Str(v) => MemberModel::Str(v@),
        }
    }
}

impl MemberVal {
    /// The integer held, 0 for any other kind of member.
    pub fn as_int(&self) -> (r: i64)
        ensures
            r == model_int(self@),
    {
        match self {
            MemberVal::Int(v) => *v,
            _ => 0,
        }
    }
}

/// The integer a member holds, 0 for any other kind.
pub open spec fn model_int(m: MemberModel) -> i64 {
    match m {
        MemberModel::Int(v) => v,
        _ => 0,
    }
}

/// The captured members as names and values.
pub type MemberSeq = Seq<(Seq<char>, MemberModel)>;

/// The latest value recorded under `name`.
pub open spec fn lookup(m: MemberSeq, name: Seq<char>) -> Option<MemberModel>
    decreases m.len(),
{
    if m.len() == 0 {
        None
    } else if m.last().0 == name {
        Some(m.last().1)
    } else {
        lookup(m.drop_last(), name)
    }
}

/// The integer member `name` (0 when absent or not an integer).
pub open spec fn spec_member_int(m: MemberSeq, name: Seq<char>) -> i64 {
    match lookup(m, name) {
        Some(v) => model_int(v),
        None => 0,
    }
}

/// The text member `name` (empty when absent or not text).
pub open spec fn spec_member_str(m: MemberSeq, name: Seq<char>) -> Seq<char> {
    match lookup(m, name) {
        Some(MemberModel::Str(v)) => v,
        _ => Seq::empty(),
    }
}

/// The counted-array member `name` (empty when absent or not an array).
pub open spec fn spec_member_ints(m: MemberSeq, name: Seq<char>) -> Seq<i64> {
    match lookup(m, name) {
        Some(MemberModel::IntArray(v)) => v,
        _ => Seq::empty(),
    }
}

/// The members captured from one object, by streamer-element name; a later
/// capture under a name replaces an earlier one.
pub struct Members {
    entries: Vec<(String, MemberVal)>,
}

impl View for Members {
    type V = MemberSeq;

    closed spec fn view(&self) -> MemberSeq {
        self.entries@.map_values(|e: (String, MemberVal)| (e.0@, e.1@))
    }
}

impl Members {
    /// No members.
    pub fn new() -> (r: Members)
        ensures
            r@ == Seq::<(Seq<char>, MemberModel)>::empty(),
    {
        let r = Members { entries: Vec::new() };
        assert(r@ =~= Seq::<(Seq<char>, MemberModel)>::empty());
        r
    }

    /// Record `value` under `name`.
    pub fn insert(&mut self, name: String, value: MemberVal)
        ensures
            final(self)@ == old(self)@.push((name@, value@)),
    {
        let ghost n = name@;
        let ghost v = value@;
        self.entries.push((name, value));
        assert(self@ =~= old(self)@.push((n, v)));
    }

    /// The value recorded under `name`.
    pub fn get(&self, name: &str) -> (r: Option<&MemberVal>)
        ensures
            match lookup(self@, name@) {
                None => r is None,
                Some(v) => r matches Some(x) && x@ == v,
            },
    {
        let ghost m = self@;
        let mut i: usize = self.entries.len();
        assert(m.take(i as int) =~= m);
        while i > 0
            invariant
                i <= self.entries@.len(),
                m == self@,
                lookup(m, name@) == lookup(m.take(i as int), name@),
            decreases i,
        {
            let e = &self.entries[i - 1];
            proof {
                assert(m.take(i as int).drop_last() == m.take(i - 1));
                assert(m.take(i as int).last() == (e.0@, e.1@));
            }
            if str_eq(e.0.as_str(), name) {
                return Some(&e.1);
            }
            i -= 1;
        }
        None
    }

    /// The value recorded under `name`, taken out.
    pub fn take(self, name: &str) -> (r: Option<MemberVal>)
        ensures
            match lookup(self@, name@) {
                None => r is None,
                Some(v) => r matches Some(x) && x@ == v,
            },
    {
        let ghost m = self@;
        let mut entries = self.entries;
        let mut i: usize = entries.len();
        assert(m.take(i as int) =~= m);
        while i > 0
            invariant
                i <= entries@.len(),
                m == self@,
                m == entries@.map_values(|e: (String, MemberVal)| (e.0@, e.1@)),
                lookup(m, name@) == lookup(m.take(i as int), name@),
            decreases i,
        {
            proof {
                assert(m.take(i as int).drop_last() == m.take(i - 1));
                assert(m.take(i as int).last() == (entries@[i - 1].0@, entries@[i - 1].1@));
            }
            if str_eq(entries[i - 1].0.as_str(), name) {
                let ghost found = entries@[i - 1];
                assert(lookup(m.take(i as int), name@) == Some(found.1@));
                let e = entries.remove(i - 1);
                assert(e == found);
                return Some(e.1);
            }
            i -= 1;
        }
        None
    }

    /// Whether a value is recorded under `name`.
    pub fn contains_key(&self, name: &str) -> (r: bool)
        ensures
            r == lookup(self@, name@) is Some,
    {
        self.get(name).is_some()
    }
}

/// The integer member `name` (0 when absent or not an integer).
pub fn member_int(m: &Members, name: &str) -> (r: i64)
    ensures
        r == spec_member_int(m@, name@),
{
    match m.get(name) {
        Some(v) => v.as_int(),
        None => 0,
    }
}

/// The text member `name` (empty when absent or not text).
pub fn member_str(m: &Members, name: &str) -> (r: String)
    ensures
        r@ == spec_member_str(m@, name@),
{
    match m.get(name) {
        Some(MemberVal::Str(s)) => s.clone(),
        _ => String::new(),
    }
}

/// The counted-array member `name` (empty when absent or not an array).
pub fn member_ints<'a>(m: &'a Members, name: &str) -> (r: &'a [i64])
    ensures
        r@ == spec_member_ints(m@, name@),
{
    match m.get(name) {
        Some(MemberVal::IntArray(v)) => v.as_slice(),
        _ => &[],
    }
}

/// One basic value of the given on-disk width at byte `p` of `s`, and where
/// reading goes on: integers sign-extended to `i64`, floats as bit patterns.
pub open spec fn basic_at(s: Seq<u8>, p: int, width: usize, is_float: bool) -> Option<(MemberModel, int)> {
    let n: int = if !is_float && (width == 1 || width == 2 || width == 4 || width == 8) {
        width as int
    } else if is_float && width == 4 {
        4
    } else if is_float {
        8
    } else {
        0
    };
    if p < 0 || p + n > s.len() {
        None
    } else if !is_float && width == 1 {
        Some((MemberModel::Int(s[p] as i8 as i64), p + 1))
    } else if !is_float && width == 2 {
        Some((MemberModel::Int(u16_at(s, p) as i16 as i64), p + 2))
    } else if !is_float && width == 4 {
        Some((MemberModel::Int(u32_at(s, p) as i32 as i64), p + 4))
    } else if !is_float && width == 8 {
        Some((MemberModel::Int(u64_at(s, p) as i64), p + 8))
    } else if is_float && width == 4 {
        Some((MemberModel::Float32(u32_at(s, p)), p + 4))
    } else if is_float {
        Some((MemberModel::Float64(u64_at(s, p)), p + 8))
    } else {
        Some((MemberModel::Int(0), p))
    }
}

/// Read one basic value of the given on-disk width: integers widened to
/// `i64`, floats kept as their bit patterns.
pub fn read_basic(r: &mut RBuffer, width: usize, is_float: bool) -> (res: Result<MemberVal, Error>)
    ensures
        final(r).buf() == old(r).buf(),
        match basic_at(old(r).buf(), old(r).cursor(), width, is_float) {
            None => res is Err,
            Some((v, q)) => res matches Ok(x) && x@ == v && final(r).cursor() == q,
        },
{
    let _n = r.remaining();
    let _p = r.pos();
    if !is_float && width == 1 {
        let v = r.u8()?;
        Ok(MemberVal::Int(v as i8 as i64))
    } else if !is_float && width == 2 {
        let v = r.be_i16()?;
        Ok(MemberVal::Int(v as i64))
    } else if !is_float && width == 4 {
        let v = r.be_i32()?;
        Ok(MemberVal::Int(v as i64))
    } else if !is_float && width == 8 {
        let v = r.be_i64()?;
        Ok(MemberVal::Int(v))
    } else if is_float && width == 4 {
        let v = r.be_u32()?;
        Ok(MemberVal::Float32(v))
    } else if is_float {
        let v = r.be_u64()?;
        Ok(MemberVal::Float64(v))
    } else {
        Ok(MemberVal::Int(0))
    }
}

/// The on-disk width (bytes) and float-ness of a basic streamer type code
/// (`fType` < 20).
pub open spec fn spec_basic_kind(t: i32) -> Option<(usize, bool)> {
    if t == 1 || t == 11 || t == 18 {
        Some((1, false))
    } else if t == 2 || t == 12 {
        Some((2, false))
    } else if t == 3 || t == 13 || t == 6 || t == 15 {
        Some((4, false))
    } else if t == 4 || t == 14 || t == 16 || t == 17 {
        Some((8, false))
    } else if t == 5 {
        Some((4, true))
    } else if t == 8 {
        Some((8, true))
    } else {
        None
    }
}

/// The on-disk width (bytes) and float-ness of a basic streamer type code:
/// `Char`/`UChar`/`Bool` 1, `Short`/`UShort` 2, `Int`/`UInt`/`Counter`/`Bits`
/// 4, `Long`/`ULong`/`Long64`/`ULong64` 8, `Float` 4 and `Double` 8 bytes.
/// `None` for codes whose encoding is not handled (e.g. `Double32`/`Float16`),
/// so a walker reports them rather than misreading.
pub fn basic_kind(t: i32) -> (r: Option<(usize, bool)>)
    ensures
        r == spec_basic_kind(t),
{
    match t {
        1 | 11 | 18 => Some((1, false)),
        2 | 12 => Some((2, false)),
        3 | 13 | 6 | 15 => Some((4, false)),
        4 | 14 | 16 | 17 => Some((8, false)),
        5 => Some((4, true)),
        8 => Some((8, true)),
        _ => None,
    }
}

} // verus!
