use oxiroot_tree::reader::members::{StreamerElement, StreamerInfo, StreamerRegistry};
use oxiroot_tree::writer::classes::{classes, tree_streamer_classes, ElementDesc, ElementKind};
use oxiroot_tree::reader::walk::read_tree;
use oxiroot_tree::writer::baskets::{basket_bytes, BasketRec};
use oxiroot_tree::basket::{Basket, BasketKey};
use oxiroot_tree::reader::decode::{basket_location, decode_baskets};
use oxiroot_tree::writer::chunks::basket_branches;
use oxiroot_tree::merge::{append_branch_names, concat_branch_names};
use oxiroot_tree::writer::class_info::{append_streamer_info, write_class_streamer_info};
use oxiroot_tree::writer::serialize::{decimal, ref_at, write_leaf_element, Refs};
use oxiroot_tree::writer::tree_object::{build_tree_object, count_branches, effective_branches, tree_object_of};
use oxiroot_tree::writer::{Branch, SplitMember};
use oxiroot_tree::error::{Error, Issue};
use oxiroot_tree::LeafType;

/// The streamer element ROOT records for a class-table member.
fn element(e: &ElementDesc) -> StreamerElement {
    let (class, code) = match e.kind {
        ElementKind::Base => ("TStreamerBase", 0),
        ElementKind::Basic => ("TStreamerBasicType", e.code),
        ElementKind::BasicPointer => ("TStreamerBasicPointer", e.code),
        ElementKind::Object => ("TStreamerObject", 61),
        ElementKind::ObjectPointer => ("TStreamerObjectPointer", 64),
        ElementKind::Any => ("TStreamerObjectAny", 62),
        ElementKind::Text => ("TStreamerString", 65),
    };
    StreamerElement {
        element_class: class.to_string(),
        name: e.name.to_string(),
        el_type: code,
        type_spelling: e.spelling.to_string(),
        array_length: 0,
        count_name: if e.count.is_empty() { None } else { Some(e.count.to_string()) },
    }
}

/// The registry a written file's class table gives a reader.
fn registry() -> StreamerRegistry {
    let infos = classes()
        .iter()
        .map(|c| StreamerInfo {
            class_name: c.name.to_string(),
            class_version: c.version,
            elements: c.elements.iter().map(element).collect(),
        })
        .collect();
    StreamerRegistry { infos }
}

fn rec(seek: u64, nbytes: u32, n_entries: u32) -> BasketRec {
    BasketRec { seek, nbytes, n_entries }
}

fn be_u32(b: &[u8], at: usize) -> u32 {
    u32::from_be_bytes([b[at], b[at + 1], b[at + 2], b[at + 3]])
}

#[test]
fn leaf_element_bytes_are_exact() {
    let mut w = Vec::new();
    write_leaf_element(&mut w, "n", "t", 0, -1, -1, 0);
    let expected: Vec<u8> = vec![
        0x40, 0, 0, 54, 0, 1, // TLeafElement v1
        0x40, 0, 0, 40, 0, 2, // TLeaf v2
        0x40, 0, 0, 16, 0, 1, // TNamed v1
        0, 1, 0, 0, 0, 0, 0x03, 0, 0, 0, // TObject
        1, b'n', 1, b't', // name, title
        0, 0, 0, 1, // fLen
        0, 0, 0, 0, // fLenType
        0, 0, 0, 0, // fOffset
        0, 0, // fIsRange, fIsUnsigned
        0, 0, 0, 0, // fLeafCount
        0xff, 0xff, 0xff, 0xff, // fID
        0xff, 0xff, 0xff, 0xff, // fType
    ];
    assert_eq!(w, expected);
}

#[test]
fn decimal_digits() {
    assert_eq!(decimal(0), "0");
    assert_eq!(decimal(7), "7");
    assert_eq!(decimal(1203), "1203");
}

#[test]
fn references_add_keylen_and_map_offset() {
    assert_eq!(ref_at(100, 35), 137);
    let mut refs = Refs::new();
    refs.remember("a".to_string(), 5);
    refs.remember("a".to_string(), 9);
    assert_eq!(refs.get("a"), 5);
    assert_eq!(refs.get("b"), 0);
}

#[test]
fn tree_object_starts_with_a_counted_tree_record() {
    let branches = vec![Branch::i32("x", vec![1, 2, 3])];
    let baskets = vec![vec![rec(100, 60, 3)]];
    let refs: Vec<&Branch> = branches.iter().collect();
    let obj = build_tree_object("t", &refs, &baskets, 3, 60, false);
    assert_eq!(be_u32(&obj, 0) & 0x3fff_ffff, (obj.len() - 4) as u32);
    assert_eq!(be_u32(&obj, 0) & 0x4000_0000, 0x4000_0000);
    assert_eq!(&obj[4..6], &[0, 20]);
}

#[test]
fn written_tree_reads_back() {
    let branches = vec![
        Branch::i32("x", vec![1, 2, 3]),
        Branch::f64_bits("y", vec![0, 0, 0]),
    ];
    let baskets = vec![vec![rec(100, 60, 3)], vec![rec(160, 80, 3)]];
    let refs: Vec<&Branch> = branches.iter().collect();
    let obj = build_tree_object("Events", &refs, &baskets, 3, 140, false);
    let keylen = 26 + 6 + 7 + 1;
    let t = read_tree(&obj, keylen, &registry(), "TTree").expect("a written tree reads back");
    assert_eq!(t.name(), "Events");
    assert_eq!(t.num_entries(), 3);
    assert_eq!(t.branch_names(), vec!["x".to_string(), "y".to_string()]);
    assert_eq!(t.branch_type("x"), Some(LeafType::I32));
    assert_eq!(t.branch_type("y"), Some(LeafType::F64));
    assert_eq!(t.branch_title("x"), Some("x/I"));
    let x = t.branch("x").expect("branch x");
    assert_eq!(x.n_baskets, 1);
    assert_eq!(x.basket_seek.len(), 10);
    assert_eq!(x.basket_seek[0], 100);
    assert_eq!(x.basket_bytes, vec![60]);
    assert_eq!(x.basket_entry, vec![0]);
    let y = t.branch("y").expect("branch y");
    assert_eq!(y.basket_seek[0], 160);
}

#[test]
fn written_jagged_tree_reads_back() {
    let branches = vec![Branch::jagged_i32("v", vec![vec![1], vec![], vec![2, 3]])];
    let counts = count_branches(&branches);
    let eff = effective_branches(&branches, &counts);
    assert_eq!(eff.len(), 2);
    assert_eq!(eff[0].name, "nv");
    let baskets = vec![vec![rec(100, 50, 3)], vec![rec(150, 70, 3)]];
    let obj = tree_object_of("T", &eff, &baskets, true);
    let keylen = 34 + 6 + 2 + 1;
    let t = read_tree(&obj, keylen, &registry(), "TTree").expect("a written tree reads back");
    assert_eq!(t.branch_names(), vec!["nv".to_string(), "v".to_string()]);
    assert_eq!(t.branch_title("v"), Some("v[nv]/I"));
    assert_eq!(t.branch_type("v"), Some(LeafType::I32));
}

#[test]
fn written_vector_tree_reads_back() {
    let branches = vec![Branch::vector_i32("v", vec![vec![1], vec![2, 3]])];
    let baskets = vec![vec![rec(100, 90, 2)]];
    let refs: Vec<&Branch> = branches.iter().collect();
    let obj = build_tree_object("T", &refs, &baskets, 2, 90, false);
    let keylen = 26 + 6 + 2 + 1;
    let t = read_tree(&obj, keylen, &registry(), "TTree").expect("a written tree reads back");
    assert_eq!(t.branch_names(), vec!["v".to_string()]);
    let v = t.branch("v").expect("branch v");
    assert_eq!(v.elem_header, 10);
    assert_eq!(v.leaf_type, LeafType::I32);
}

#[test]
fn written_split_tree_names_its_members() {
    let b = Branch::split_vector(
        "hits",
        "Hit",
        vec![
            SplitMember::f32_bits("e", vec![vec![0], vec![0, 0]]),
            SplitMember::i32("id", vec![vec![1], vec![2, 3]]),
        ],
    );
    let baskets = vec![vec![rec(100, 40, 2), rec(140, 50, 2), rec(190, 50, 2)]];
    let obj = build_tree_object("T", &[&b], &baskets, 2, 140, false);
    assert_eq!(&obj[4..6], &[0, 20]);
    let text = String::from_utf8_lossy(&obj).to_string();
    assert!(text.contains("hits.e"));
    assert!(text.contains("hits.id"));
    assert!(text.contains("vector<Hit>"));
    assert!(text.contains("e[hits_]"));
}

#[test]
fn split_collections_add_their_struct() {
    let b = Branch::split_vector(
        "hits",
        "Hit",
        vec![SplitMember::f32_bits("e", vec![vec![0]]), SplitMember::i32("id", vec![vec![1]])],
    );
    let cls = tree_streamer_classes(&[Branch::i32("x", vec![1]), b]);
    assert_eq!(cls.len(), 25);
    let hit = &cls[24];
    assert_eq!((hit.name.as_str(), hit.version), ("Hit", 1));
    assert_eq!(hit.elements.len(), 2);
    assert_eq!((hit.elements[0].name.as_str(), hit.elements[0].code, hit.elements[0].size), ("e", 5, 4));
    assert_eq!(hit.elements[0].spelling, "float");
    assert_eq!((hit.elements[1].name.as_str(), hit.elements[1].code), ("id", 3));
}

#[test]
fn generated_streamer_info_round_trips() {
    let cls = classes();
    assert_eq!(cls.len(), 24);
    let find = |n: &str| cls.iter().find(|c| c.name == n).expect("class present");
    let tree = find("TTree");
    assert_eq!((tree.version, tree.checksum, tree.elements.len()), (20, 1919213695, 33));
    let branch = find("TBranch");
    assert_eq!((branch.version, branch.checksum), (13, 278366892));
    let seek = branch.elements.iter().find(|e| e.name == "fBasketSeek").expect("fBasketSeek");
    assert_eq!((seek.code, seek.count.as_str()), (56, "fMaxBaskets"));
    assert_eq!((branch.elements[0].name.as_str(), branch.elements[0].version), ("TNamed", 1));
    let be = find("TBranchElement");
    assert_eq!((be.version, be.checksum), (10, 3880738403));
    assert_eq!(be.elements[0].name, "TBranch");
    assert_eq!(be.elements[1].name, "fClassName");
    for leaf in ["TLeafI", "TLeafD", "TLeafC", "TLeafElement"] {
        assert!(cls.iter().any(|c| c.name == leaf), "missing {leaf}");
    }
}

#[test]
fn tree_object_counts_entries_and_bytes() {
    let branches = vec![Branch::i32("x", vec![1, 2]), Branch::i32("y", vec![3, 4])];
    let refs: Vec<&Branch> = branches.iter().collect();
    let baskets = vec![vec![rec(100, 60, 1), rec(160, 61, 1)], vec![rec(221, 70, 2)]];
    let a = tree_object_of("T", &refs, &baskets, false);
    let b = build_tree_object("T", &refs, &baskets, 2, 191, false);
    assert_eq!(a, b);
    let t = read_tree(&a, 26 + 6 + 2 + 1, &registry(), "TTree").expect("reads back");
    assert_eq!(t.num_entries(), 2);
    let x = t.branch("x").expect("branch x");
    assert_eq!(x.n_baskets, 2);
    assert_eq!(x.basket_entry, vec![0, 1]);
    assert_eq!(x.basket_bytes, vec![60, 61]);
}

#[test]
fn count_branches_hold_row_lengths() {
    let branches = vec![
        Branch::i32("x", vec![1, 2]),
        Branch::jagged_i32("v", vec![vec![1, 2, 3], vec![]]),
        Branch::jagged_u8("w", vec![vec![1], vec![2, 2]]),
    ];
    let counts = count_branches(&branches);
    assert_eq!(counts.len(), 2);
    assert_eq!((counts[0].name.as_str(), counts[0].leaf_max(), counts[0].n_entries()), ("nv", 3, 2));
    assert_eq!((counts[1].name.as_str(), counts[1].leaf_max()), ("nw", 2));
    let eff = effective_branches(&branches, &counts);
    let names: Vec<&str> = eff.iter().map(|b| b.name.as_str()).collect();
    assert_eq!(names, vec!["x", "nv", "v", "nw", "w"]);
}

#[test]
fn class_streamer_info_describes_the_members() {
    let members = vec![SplitMember::f32_bits("e", vec![vec![0]]), SplitMember::i32("id", vec![vec![1]])];
    let rec = write_class_streamer_info("Hit", &members);
    assert_eq!(be_u32(&rec, 0), 0x4000_0000 | (rec.len() - 4) as u32);
    assert_eq!(be_u32(&rec, 4), 0xffff_ffff);
    assert_eq!(&rec[8..22], b"TStreamerInfo\0");
    assert_eq!(&rec[26..28], &[0, 10]);
    let text = String::from_utf8_lossy(&rec).to_string();
    assert!(text.contains("TStreamerBasicType"));
    assert!(text.contains("float"));
    assert!(text.contains("int"));
}

#[test]
fn appending_a_streamer_info_counts_it() {
    // A TList: byte count, version 5, TObject, name "", then 1 entry.
    let mut blob = vec![0x40, 0, 0, 19, 0, 5, 0, 1, 0, 0, 0, 0, 0, 0, 0, 0, 0, 0, 0, 0, 1];
    blob.extend_from_slice(&[9, 9]);
    let out = append_streamer_info(&blob, &[7, 7, 7]);
    assert_eq!(be_u32(&out, 0), 0x4000_0000 | 23);
    assert_eq!(&out[17..21], &[0, 0, 0, 2]);
    assert_eq!(&out[21..], &[9, 9, 7, 7, 7, 0]);
}

fn tree_with(names: &[&str]) -> oxiroot_tree::TreeReader {
    let branches: Vec<Branch> = names.iter().map(|n| Branch::i32(n, vec![1, 2])).collect();
    let refs: Vec<&Branch> = branches.iter().collect();
    let baskets: Vec<Vec<BasketRec>> = (0..branches.len() as u64).map(|k| vec![rec(100 + 50 * k, 50, 2)]).collect();
    let obj = build_tree_object("T", &refs, &baskets, 2, 50 * branches.len() as i64, false);
    read_tree(&obj, 26 + 6 + 2 + 1, &registry(), "TTree").expect("reads back")
}

#[test]
fn merges_need_the_first_trees_branches() {

    let a = tree_with(&["x", "y"]);
    let b = tree_with(&["y", "x", "z"]);
    let c = tree_with(&["x"]);
    assert_eq!(concat_branch_names(&[]), Err(Error::Format(Issue::NoTrees)));
    assert_eq!(append_branch_names(&[]), Err(Error::Format(Issue::NoTrees)));
    assert_eq!(concat_branch_names(&[&a, &b]), Ok(vec!["x".to_string(), "y".to_string()]));
    assert_eq!(append_branch_names(&[&a, &b]), Ok(vec!["x".to_string(), "y".to_string()]));
    let missing = Error::SchemaChanged { detail: "missing branch \"y\" present in the first tree".to_string() };
    assert_eq!(concat_branch_names(&[&a, &b, &c]), Err(missing.clone()));
    assert_eq!(append_branch_names(&[&a, &c, &b]), Err(missing));
}

/// Write `branches` as a file image (a header gap, then every basket, then
/// the tree object), and read each branch back from it.
fn write_and_read(branches: Vec<Branch>, epb: usize) -> Vec<(String, oxiroot_tree::BranchValues)> {
    let mut file = vec![0u8; 100];
    let counts = count_branches(&branches);
    let eff = effective_branches(&branches, &counts);
    let mut groups = Vec::new();
    for &b in &eff {
        let mut recs = Vec::new();
        for piece in basket_branches(b, epb) {
            let (bytes, r) = basket_bytes(&piece, "T", 0, file.len() as u64, 100);
            file.extend_from_slice(&bytes);
            recs.push(r);
        }
        groups.push(recs);
    }
    let obj = tree_object_of("T", &eff, &groups, false);
    let t = read_tree(&obj, 26 + 6 + 2 + 1, &registry(), "TTree").expect("reads back");
    let mut out = Vec::new();
    for name in t.branch_names() {
        let br = t.branch(&name).expect("listed");
        let mut baskets = Vec::new();
        for i in 0..br.n_baskets {
            let (seek, size) = basket_location(br, i).expect("located");
            let rec = &file[seek as usize..seek as usize + size.expect("sized")];
            let key = BasketKey::parse(rec).expect("key");
            let data = rec[key.key_len as usize..].to_vec();
            baskets.push(Basket::from_buffer(&key, data).expect("basket"));
        }
        out.push((name.clone(), decode_baskets(br, &baskets).expect("decodes")));
    }
    out
}

#[test]
fn a_branch_name_longer_than_255_bytes_round_trips() {
    let name = "b".repeat(300);
    let half = 0.5f64.to_bits();
    let one_half = 1.5f64.to_bits();
    let got = write_and_read(vec![Branch::f64_bits(name.as_str(), vec![half, one_half])], 1);
    assert_eq!(got, vec![(name, oxiroot_tree::BranchValues::F64(vec![half, one_half]))]);
}

#[test]
fn written_branches_read_back_whole() {
    let got = write_and_read(
        vec![
            Branch::i32("x", vec![1, 2, 3]),
            Branch::jagged_i32("v", vec![vec![1], vec![], vec![2, 3]]),
            Branch::strings("s", vec!["a".into(), "bb".into(), "".into()]),
            Branch::vector_i32("w", vec![vec![4], vec![5, 6], vec![]]),
            Branch::vec_i16("f", vec![vec![1, 2], vec![3, 4], vec![5, 6]]),
        ],
        2,
    );
    let names: Vec<&str> = got.iter().map(|(n, _)| n.as_str()).collect();
    assert_eq!(names, vec!["x", "nv", "v", "s", "w", "f"]);
    assert_eq!(got[0].1, oxiroot_tree::BranchValues::I32(vec![1, 2, 3]));
    assert_eq!(got[1].1, oxiroot_tree::BranchValues::I32(vec![1, 0, 2]));
    assert_eq!(got[2].1, oxiroot_tree::BranchValues::VecI32(vec![vec![1], vec![], vec![2, 3]]));
    assert_eq!(got[3].1, oxiroot_tree::BranchValues::Str(vec!["a".into(), "bb".into(), "".into()]));
    assert_eq!(got[4].1, oxiroot_tree::BranchValues::VecI32(vec![vec![4], vec![5, 6], vec![]]));
    assert_eq!(got[5].1, oxiroot_tree::BranchValues::VecI16(vec![vec![1, 2], vec![3, 4], vec![5, 6]]));
}

#[test]
fn written_basket_arrays_read_back_as_the_records() {
    let group = vec![rec(100, 40, 3), rec(140, 52, 2)];
    let mut out = Vec::new();
    oxiroot_tree::writer::serialize::write_basket_arrays(&mut out, &group, 4);
    let mut r = oxiroot_tree::rbuffer::RBuffer::new(&out);
    r.seek(1).unwrap();
    let sizes = oxiroot_tree::reader::walk::read_counted(&mut r, 4, false, 4).unwrap();
    assert_eq!(sizes, vec![40, 52, 0, 0]);
    r.seek(2 + 16).unwrap();
    let entries = oxiroot_tree::reader::walk::read_counted(&mut r, 8, false, 4).unwrap();
    assert_eq!(entries, vec![0, 3, 5, 0]);
    r.seek(3 + 48).unwrap();
    let seeks = oxiroot_tree::reader::walk::read_counted(&mut r, 8, false, 4).unwrap();
    assert_eq!(seeks, vec![100, 140, 0, 0]);
    assert_eq!(out.len(), 3 + 4 * 4 + 8 * 4 + 8 * 4);
}

#[test]
fn a_written_leaf_reads_back_as_its_branch() {
    let b = Branch::vec_u16("hits", vec![vec![1, 2, 3], vec![4, 5, 6]]);
    let mut out = Vec::new();
    oxiroot_tree::writer::serialize::write_leaf(&mut out, &b, &Refs::new());
    let mut r = oxiroot_tree::rbuffer::RBuffer::new(&out);
    let leaf = oxiroot_tree::reader::walk::read_leaf(&mut r, b"TLeafS").unwrap().unwrap();
    assert_eq!(leaf.name, "hits");
    assert_eq!(leaf.title, "hits[3]");
    assert_eq!(leaf.leaf_type, LeafType::U16);
    assert_eq!(leaf.len, 3);
    assert_eq!(leaf.offset, 0);
}

fn events_tree(branches: Vec<Branch>) -> oxiroot_tree::TreeReader {
    let refs: Vec<&Branch> = branches.iter().collect();
    let baskets: Vec<Vec<BasketRec>> = (0..branches.len() as u64).map(|k| vec![rec(100 + 50 * k, 50, 1)]).collect();
    let obj = build_tree_object("Events", &refs, &baskets, 1, 50 * branches.len() as i64, false);
    read_tree(&obj, 26 + 6 + 7 + 1, &registry(), "TTree").expect("reads back")
}

#[test]
fn rejects_a_missing_branch() {
    let ta = events_tree(vec![Branch::i32("i", vec![1]), Branch::f64_bits("x", vec![1.0f64.to_bits()])]);
    let tb = events_tree(vec![Branch::i32("i", vec![2])]);
    let Err(err) = concat_branch_names(&[&ta, &tb]) else {
        panic!("expected an error for a missing branch");
    };
    assert!(
        matches!(&err, Error::SchemaChanged { detail } if detail.contains("missing branch")),
        "{err:?}"
    );
}
