use oxiroot_tree::error::Error;
use oxiroot_tree::rbuffer::RBuffer;
use oxiroot_tree::reader::members::{
    member_int, member_str, MemberVal, Members, StreamerElement, StreamerInfo, StreamerRegistry,
};
use oxiroot_tree::reader::walk::{read_tree, tree_from_object, walk_members, Sink, Walker};
use oxiroot_tree::reader::SkipReason;
use oxiroot_tree::tags::TagReader;
use oxiroot_tree::{LeafType, TreeReader};

fn elem(class: &str, name: &str, el_type: i32, count: Option<&str>) -> StreamerElement {
    StreamerElement {
        element_class: class.to_string(),
        name: name.to_string(),
        el_type,
        type_spelling: String::new(),
        array_length: 0,
        count_name: count.map(str::to_string),
    }
}

fn walker() -> Walker {
    Walker { tags: TagReader::new(0), skipped: Vec::new() }
}

fn empty_registry() -> StreamerRegistry {
    StreamerRegistry { infos: Vec::new() }
}

fn counted(version: u16, body: &[u8]) -> Vec<u8> {
    let mut out = (0x4000_0000u32 | (body.len() as u32 + 2)).to_be_bytes().to_vec();
    out.extend_from_slice(&version.to_be_bytes());
    out.extend_from_slice(body);
    out
}

fn tobject() -> Vec<u8> {
    let mut out = 1u16.to_be_bytes().to_vec();
    out.extend_from_slice(&0u32.to_be_bytes());
    out.extend_from_slice(&0u32.to_be_bytes());
    out
}

fn tstring(s: &str) -> Vec<u8> {
    let mut out = vec![s.len() as u8];
    out.extend_from_slice(s.as_bytes());
    out
}

fn tnamed(name: &str, title: &str) -> Vec<u8> {
    let mut body = tobject();
    body.extend(tstring(name));
    body.extend(tstring(title));
    counted(1, &body)
}

fn new_class_object(class: &str, body: &[u8]) -> Vec<u8> {
    let mut inner = vec![0xff, 0xff, 0xff, 0xff];
    inner.extend_from_slice(class.as_bytes());
    inner.push(0);
    inner.extend_from_slice(body);
    let mut out = (0x4000_0000u32 | inner.len() as u32).to_be_bytes().to_vec();
    out.extend(inner);
    out
}

fn obj_array(items: &[Vec<u8>]) -> Vec<u8> {
    let mut out = 3u16.to_be_bytes().to_vec();
    out.extend(tobject());
    out.extend(tstring(""));
    out.extend_from_slice(&(items.len() as i32).to_be_bytes());
    out.extend_from_slice(&0i32.to_be_bytes());
    for i in items {
        out.extend_from_slice(i);
    }
    out
}

/// The walker reads members by the streamer element list, so it adapts to a
/// member order this reader was never compiled against, picks up an extra
/// member, and sizes a `//[fCount]` array from the named counter.
fn walker_reads_by_element_list() {
    let mut bytes = Vec::new();
    bytes.extend_from_slice(&7i32.to_be_bytes());
    bytes.extend_from_slice(&100i64.to_be_bytes());
    bytes.extend_from_slice(&42i32.to_be_bytes());
    bytes.extend_from_slice(&2i32.to_be_bytes());
    bytes.push(1);
    bytes.extend_from_slice(&555i64.to_be_bytes());
    bytes.extend_from_slice(&666i64.to_be_bytes());
    let elements = vec![
        elem("TStreamerBasicType", "a", 3, None),
        elem("TStreamerBasicType", "b", 16, None),
        elem("TStreamerBasicType", "c", 3, None),
        elem("TStreamerBasicType", "n", 6, None),
        elem("TStreamerBasicPointer", "arr", 56, Some("n")),
    ];
    let reg = empty_registry();
    let mut w = walker();
    let mut r = RBuffer::new(&bytes);
    let (out, _) = walk_members(&mut r, &mut w, &reg, &elements, Members::new(), Sink::Skip, "").unwrap();
    assert_eq!(member_int(&out, "a"), 7);
    assert_eq!(member_int(&out, "b"), 100);
    assert_eq!(member_int(&out, "c"), 42);
    assert_eq!(member_int(&out, "n"), 2);
    match out.get("arr") {
        Some(MemberVal::IntArray(v)) => assert_eq!(v, &[555, 666]),
        other => panic!("arr not a counted array: {:?}", other.map(|_| ())),
    }
    assert_eq!(r.remaining(), 0, "the whole record was consumed");
}

/// `stop_after` ends the walk early, the way the tree reader stops after
/// `fFriends`.
fn walker_stops_after_named() {
    let mut bytes = Vec::new();
    bytes.extend_from_slice(&1i32.to_be_bytes());
    bytes.extend_from_slice(&2i32.to_be_bytes());
    bytes.extend_from_slice(&3i32.to_be_bytes());
    let elements = vec![
        elem("TStreamerBasicType", "a", 3, None),
        elem("TStreamerBasicType", "b", 3, None),
        elem("TStreamerBasicType", "c", 3, None),
    ];
    let reg = empty_registry();
    let mut w = walker();
    let mut r = RBuffer::new(&bytes);
    let (out, _) = walk_members(&mut r, &mut w, &reg, &elements, Members::new(), Sink::Skip, "b").unwrap();
    assert_eq!(member_int(&out, "a"), 1);
    assert_eq!(member_int(&out, "b"), 2);
    assert!(!out.contains_key("c"), "stopped before reading c");
    assert_eq!(r.remaining(), 4, "c's 4 bytes are left for the caller to skip");
}

#[test]
fn members_walker_reads_by_element_list_not_fixed_offsets() {
    walker_reads_by_element_list();
}

#[test]
fn reader_walker_reads_by_element_list_not_fixed_offsets() {
    walker_reads_by_element_list();
}

#[test]
fn members_walker_stops_after_named_member() {
    walker_stops_after_named();
}

#[test]
fn reader_walker_stops_after_named_member() {
    walker_stops_after_named();
}

#[test]
fn bases_are_read_in_place() {
    // A TNamed base, a base described by the registry, a base skipped by its
    // byte count, a TString and a skipped fixed array.
    let mut bytes = tnamed("obj", "an object");
    bytes.extend(counted(4, &9i16.to_be_bytes()));
    bytes.extend(counted(1, &[1, 2, 3]));
    bytes.extend(tstring("label"));
    bytes.extend_from_slice(&[0, 1, 0, 2]);
    bytes.extend_from_slice(&5u8.to_be_bytes());
    let mut fixed = elem("TStreamerBasicType", "pair", 22, None);
    fixed.array_length = 2;
    let elements = vec![
        elem("TStreamerBase", "TNamed", 67, None),
        elem("TStreamerBase", "TBase", 0, None),
        elem("TStreamerBase", "TUnknown", 0, None),
        elem("TStreamerString", "fLabel", 65, None),
        fixed,
        elem("TStreamerBasicType", "flag", 18, None),
    ];
    let reg = StreamerRegistry {
        infos: vec![StreamerInfo {
            class_name: "TBase".to_string(),
            class_version: 4,
            elements: vec![elem("TStreamerBasicType", "fShort", 2, None)],
        }],
    };
    let mut w = walker();
    let mut r = RBuffer::new(&bytes);
    let (out, _) = walk_members(&mut r, &mut w, &reg, &elements, Members::new(), Sink::Skip, "").unwrap();
    assert_eq!(member_str(&out, "fName"), "obj");
    assert_eq!(member_str(&out, "fTitle"), "an object");
    assert_eq!(member_int(&out, "fShort"), 9);
    assert_eq!(member_str(&out, "fLabel"), "label");
    assert!(!out.contains_key("pair"));
    assert_eq!(member_int(&out, "flag"), 5);
    assert_eq!(r.remaining(), 0);
}

#[test]
fn unhandled_elements_are_errors() {
    let bytes = [0u8; 16];
    let reg = empty_registry();
    let mut w = walker();
    let mut r = RBuffer::new(&bytes);
    let res = walk_members(&mut r, &mut w, &reg, &[elem("TStreamerBasicType", "d32", 9, None)], Members::new(), Sink::Skip, "");
    assert!(res.is_err());
    // A base with neither a description nor a byte count cannot be skipped.
    let mut r = RBuffer::new(&bytes);
    let res = walk_members(&mut r, &mut w, &reg, &[elem("TStreamerBase", "TOdd", 0, None)], Members::new(), Sink::Skip, "");
    assert!(res.is_err());
}

fn tree_registry() -> StreamerRegistry {
    let tree = StreamerInfo {
        class_name: "TTree".to_string(),
        class_version: 20,
        elements: vec![
            elem("TStreamerBase", "TNamed", 67, None),
            elem("TStreamerBasicType", "fEntries", 16, None),
            elem("TStreamerObject", "fBranches", 61, None),
            elem("TStreamerObjectPointer", "fFriends", 64, None),
            elem("TStreamerBasicType", "fNever", 3, None),
        ],
    };
    let branch = StreamerInfo {
        class_name: "TBranch".to_string(),
        class_version: 13,
        elements: vec![
            elem("TStreamerBase", "TNamed", 67, None),
            elem("TStreamerBasicType", "fWriteBasket", 3, None),
            elem("TStreamerBasicType", "fMaxBaskets", 6, None),
            elem("TStreamerObject", "fBranches", 61, None),
            elem("TStreamerObject", "fLeaves", 61, None),
            elem("TStreamerObject", "fBaskets", 61, None),
            elem("TStreamerBasicPointer", "fBasketBytes", 43, Some("fMaxBaskets")),
            elem("TStreamerBasicPointer", "fBasketEntry", 56, Some("fMaxBaskets")),
            elem("TStreamerBasicPointer", "fBasketSeek", 56, Some("fMaxBaskets")),
        ],
    };
    StreamerRegistry { infos: vec![tree, branch] }
}

fn leaf(class: &str, name: &str, title: &str, len: i32, offset: i32) -> Vec<u8> {
    let mut body = tnamed(name, title);
    body.extend_from_slice(&len.to_be_bytes());
    body.extend_from_slice(&4i32.to_be_bytes());
    body.extend_from_slice(&offset.to_be_bytes());
    body.push(0);
    body.push(0);
    body.extend_from_slice(&[0, 0, 0, 0]);
    new_class_object(class, &counted(1, &counted(2, &body)))
}

fn branch(name: &str, title: &str, leaves: &[Vec<u8>]) -> Vec<u8> {
    let mut body = tnamed(name, title);
    body.extend_from_slice(&1i32.to_be_bytes());
    body.extend_from_slice(&2i32.to_be_bytes());
    body.extend(obj_array(&[]));
    body.extend(obj_array(leaves));
    body.extend(obj_array(&[]));
    body.push(1);
    body.extend_from_slice(&64i32.to_be_bytes());
    body.extend_from_slice(&(-1i32).to_be_bytes());
    body.push(1);
    body.extend_from_slice(&0i64.to_be_bytes());
    body.extend_from_slice(&5i64.to_be_bytes());
    body.push(1);
    body.extend_from_slice(&100i64.to_be_bytes());
    body.extend_from_slice(&(-7i64).to_be_bytes());
    new_class_object("TBranch", &counted(13, &body))
}

fn tree_object() -> Vec<u8> {
    let mut body = tnamed("events", "a tree");
    body.extend_from_slice(&5i64.to_be_bytes());
    let x = branch("x", "x/I", &[leaf("TLeafI", "x", "x", 1, 0)]);
    let pair = branch(
        "p",
        "a/I:b[2]/S",
        &[leaf("TLeafI", "a", "a", 1, 0), leaf("TLeafS", "b", "b[2]", 2, 4)],
    );
    let odd = new_class_object("TBranchRef", &counted(1, &counted(13, &tnamed("refs", ""))));
    let stl = new_class_object("TBranchSTL", &counted(1, &counted(13, &tnamed("hits", ""))));
    body.extend(obj_array(&[x, pair, odd, stl]));
    body.extend_from_slice(&0u32.to_be_bytes());
    body.extend_from_slice(&77i32.to_be_bytes());
    counted(20, &body)
}

#[test]
fn reads_a_tree_by_its_streamer_info() {
    let bytes = tree_object();
    let reg = tree_registry();
    let t: TreeReader = read_tree(&bytes, 0, &reg, "TTree").unwrap();
    assert_eq!(t.name(), "events");
    assert_eq!(t.num_entries(), 5);
    assert_eq!(t.branch_names(), vec!["x".to_string(), "p.a".to_string(), "p.b".to_string()]);
    assert_eq!(t.branch_type("x"), Some(LeafType::I32));
    assert_eq!(t.branch_type("p.b"), Some(LeafType::I16));
    assert_eq!(t.branch_len("p.b"), Some(2));
    assert_eq!(t.branch_shape("p.b"), Some(&[2usize][..]));
    assert_eq!(t.branch_title("x"), Some("x/I"));
    assert_eq!(t.branch_type("nope"), None);
    let x = t.branch("x").unwrap();
    assert_eq!(x.n_baskets, 1);
    assert_eq!(x.basket_entry, vec![0]);
    assert_eq!(x.basket_seek, vec![100, 0]);
    assert_eq!(x.basket_bytes, vec![64]);
    assert_eq!(x.leaflist, None);
    let b = t.branch("p.b").unwrap();
    assert_eq!(b.leaflist, Some((4, 8)));
    assert_eq!(t.branch("p.a").unwrap().leaflist, Some((0, 8)));
    let skipped = t.unsupported_branches();
    assert_eq!(skipped.len(), 2);
    assert_eq!(
        skipped[0],
        ("refs".to_string(), SkipReason::UnsupportedBranchClass, "TBranchRef".to_string())
    );
    assert_eq!(
        skipped[1],
        ("hits".to_string(), SkipReason::UnsupportedBranchClass, "TBranchSTL".to_string())
    );
    assert!(t.friends().is_empty());
    assert!(t.aliases().is_empty());
    assert_eq!(t.alias("pt"), None);
    assert!(t.index().is_none());
    assert!(t.streamer_classes().is_empty());
}

#[test]
fn an_ntuple_is_a_tree_inside_one_more_header() {
    let mut inner = tree_object();
    inner.extend_from_slice(&3i32.to_be_bytes());
    let bytes = counted(2, &inner);
    let reg = tree_registry();
    let t = read_tree(&bytes, 0, &reg, "TNtuple").unwrap();
    assert_eq!(t.num_entries(), 5);
    assert_eq!(t.branch_names().len(), 3);
}

#[test]
fn opening_checks_the_class_and_schema() {
    let bytes = tree_object();
    let reg = tree_registry();
    let t = tree_from_object("events", "TTree", &bytes, 0, &reg).unwrap();
    assert_eq!(t.streamer_classes(), &[("TTree".to_string(), 20), ("TBranch".to_string(), 13)]);
    assert_eq!(
        tree_from_object("h", "TH1F", &bytes, 0, &reg).unwrap_err(),
        Error::WrongClass { name: "h".to_string(), found: "TH1F".to_string(), expected: "TTree".to_string() }
    );
    let missing = StreamerRegistry { infos: Vec::new() };
    assert_eq!(
        read_tree(&bytes, 0, &missing, "TTree").unwrap_err(),
        Error::MissingStreamerInfo { class: "TTree".to_string() }
    );
    assert!(read_tree(&bytes[..bytes.len() / 2], 0, &reg, "TTree").is_err());
}

fn branch_body(name: &str, leaves: &[Vec<u8>]) -> Vec<u8> {
    let mut body = tnamed(name, "");
    body.extend_from_slice(&1i32.to_be_bytes());
    body.extend_from_slice(&1i32.to_be_bytes());
    body.extend(obj_array(&[]));
    body.extend(obj_array(leaves));
    body.extend(obj_array(&[]));
    body.push(1);
    body.extend_from_slice(&32i32.to_be_bytes());
    body.push(1);
    body.extend_from_slice(&0i64.to_be_bytes());
    body.push(1);
    body.extend_from_slice(&300i64.to_be_bytes());
    body
}

fn rich_registry() -> StreamerRegistry {
    let mut reg = tree_registry();
    reg.infos.push(StreamerInfo {
        class_name: "TBranchElement".to_string(),
        class_version: 10,
        elements: vec![
            elem("TStreamerBase", "TBranch", 0, None),
            elem("TStreamerString", "fClassName", 65, None),
            elem("TStreamerBasicType", "fType", 3, None),
            elem("TStreamerBasicType", "fStreamerType", 3, None),
            elem("TStreamerBasicType", "fMaximum", 3, None),
        ],
    });
    reg.infos.push(StreamerInfo {
        class_name: "TBranchObject".to_string(),
        class_version: 1,
        elements: vec![elem("TStreamerBase", "TBranch", 0, None), elem("TStreamerString", "fClassName", 65, None)],
    });
    reg.infos.push(StreamerInfo {
        class_name: "Hit".to_string(),
        class_version: 1,
        elements: vec![
            elem("TStreamerBase", "TObject", 66, None),
            elem("TStreamerBasicType", "fN", 3, None),
            elem("TStreamerBasicType", "fE", 8, None),
            elem("TStreamerObject", "fTrack", 61, None),
        ],
    });
    reg
}

fn element_branch(name: &str, class: &str, f_type: i32, streamer_type: i32) -> Vec<u8> {
    let mut body = counted(13, &branch_body(name, &[]));
    body.extend(tstring(class));
    body.extend_from_slice(&f_type.to_be_bytes());
    body.extend_from_slice(&streamer_type.to_be_bytes());
    body.extend_from_slice(&99i32.to_be_bytes());
    new_class_object("TBranchElement", &counted(10, &body))
}

fn object_branch(name: &str, class: &str) -> Vec<u8> {
    let mut body = counted(13, &branch_body(name, &[]));
    body.extend(tstring(class));
    new_class_object("TBranchObject", &counted(1, &body))
}

#[test]
fn reads_element_and_object_branches() {
    let mut body = tnamed("t", "");
    body.extend_from_slice(&2i64.to_be_bytes());
    body.extend(obj_array(&[
        element_branch("v", "vector<int>", 0, -1),
        element_branch("m.x", "Hit", 41, 3),
        element_branch("w", "vector<vector<double> >", 0, -1),
        element_branch("bad", "TWeird", 7, 99),
        object_branch("o", "Hit"),
        object_branch("lost", "Nowhere"),
    ]));
    body.extend_from_slice(&0u32.to_be_bytes());
    let bytes = counted(20, &body);
    let reg = rich_registry();
    let t = read_tree(&bytes, 0, &reg, "TTree").unwrap();
    assert_eq!(
        t.branch_names(),
        vec!["v".to_string(), "m.x".to_string(), "w".to_string(), "o.fN".to_string(), "o.fE".to_string()]
    );
    let v = t.branch("v").unwrap();
    assert_eq!((v.leaf_type, v.elem_header, v.nested_elem), (LeafType::I32, 10, None));
    assert_eq!(v.basket_seek, vec![300]);
    let m = t.branch("m.x").unwrap();
    assert_eq!((m.leaf_type, m.elem_header), (LeafType::I32, 0));
    let w = t.branch("w").unwrap();
    assert_eq!((w.leaf_type, w.elem_header, w.nested_elem), (LeafType::F64, 10, Some(LeafType::F64)));
    let o = t.branch("o.fE").unwrap();
    assert_eq!(o.leaf_type, LeafType::F64);
    let om = o.object_member.as_ref().unwrap();
    assert_eq!(om.member, "fE");
    assert_eq!(om.class_elements.len(), 4);
    let skipped = t.unsupported_branches();
    assert_eq!(skipped.len(), 2);
    assert_eq!(skipped[0], ("bad".to_string(), SkipReason::UnsupportedElement(7), "TWeird".to_string()));
    assert_eq!(skipped[1], ("lost".to_string(), SkipReason::NoObjectStreamerInfo, "Nowhere".to_string()));
}
