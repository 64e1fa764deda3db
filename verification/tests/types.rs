use oxiroot_tree::reader::members::{basic_kind, StreamerElement};
use oxiroot_tree::reader::parse::parse_dims;
use oxiroot_tree::reader::types::{
    basic_leaf_type, member_leaf_type, parse_nested_vector_elem, parse_vector_elem,
    streamer_type_to_leaf, strip_collection, strip_vector,
};
use oxiroot_tree::LeafType;

#[test]
fn streamer_codes_map_to_leaf_types() {
    assert_eq!(streamer_type_to_leaf(1), Some(LeafType::I8));
    assert_eq!(streamer_type_to_leaf(2), Some(LeafType::I16));
    assert_eq!(streamer_type_to_leaf(3), Some(LeafType::I32));
    assert_eq!(streamer_type_to_leaf(4), Some(LeafType::I64));
    assert_eq!(streamer_type_to_leaf(16), Some(LeafType::I64));
    assert_eq!(streamer_type_to_leaf(5), Some(LeafType::F32));
    assert_eq!(streamer_type_to_leaf(8), Some(LeafType::F64));
    assert_eq!(streamer_type_to_leaf(11), Some(LeafType::U8));
    assert_eq!(streamer_type_to_leaf(12), Some(LeafType::U16));
    assert_eq!(streamer_type_to_leaf(13), Some(LeafType::U32));
    assert_eq!(streamer_type_to_leaf(14), Some(LeafType::U64));
    assert_eq!(streamer_type_to_leaf(17), Some(LeafType::U64));
    assert_eq!(streamer_type_to_leaf(18), Some(LeafType::Bool));
    assert_eq!(streamer_type_to_leaf(9), None);
    assert_eq!(streamer_type_to_leaf(65), None);
}

fn element(el_type: i32) -> StreamerElement {
    StreamerElement {
        name: "m".to_string(),
        element_class: "TStreamerBasicType".to_string(),
        el_type,
        type_spelling: String::new(),
        array_length: 0,
        count_name: None,
    }
}

#[test]
fn member_leaf_types_include_tstring() {
    assert_eq!(member_leaf_type(&element(65)), Some(LeafType::Str));
    assert_eq!(member_leaf_type(&element(3)), Some(LeafType::I32));
    assert_eq!(member_leaf_type(&element(61)), None);
}

#[test]
fn strips_vector_wrappers() {
    assert_eq!(strip_vector("vector<int>"), Some("int"));
    assert_eq!(strip_vector("std::vector<double>"), Some("double"));
    assert_eq!(strip_vector("vector< float >"), Some("float"));
    assert_eq!(strip_vector("vector<vector<int> >"), Some("vector<int>"));
    assert_eq!(strip_vector("set<int>"), None);
    assert_eq!(strip_vector("vector<int"), None);
}

#[test]
fn strips_collection_wrappers() {
    assert_eq!(strip_collection("set<int>"), Some("int"));
    assert_eq!(strip_collection("std::multiset<short>"), Some("short"));
    assert_eq!(strip_collection("std::set<unsigned char>"), Some("unsigned char"));
    assert_eq!(strip_collection("map<int,int>"), None);
}

#[test]
fn basic_type_names() {
    assert_eq!(basic_leaf_type("float"), Some(LeafType::F32));
    assert_eq!(basic_leaf_type("Int_t"), Some(LeafType::I32));
    assert_eq!(basic_leaf_type("unsigned long long"), Some(LeafType::U64));
    assert_eq!(basic_leaf_type("uint8_t"), Some(LeafType::U8));
    assert_eq!(basic_leaf_type("std::string"), Some(LeafType::Str));
    assert_eq!(basic_leaf_type("Bool_t"), Some(LeafType::Bool));
    assert_eq!(basic_leaf_type("Long64_t"), Some(LeafType::I64));
    assert_eq!(basic_leaf_type("TObject"), None);
}

#[test]
fn vector_element_types() {
    assert_eq!(parse_vector_elem("vector<double>"), Some(LeafType::F64));
    assert_eq!(parse_vector_elem("std::set<int>"), Some(LeafType::I32));
    assert_eq!(parse_vector_elem("vector<string>"), Some(LeafType::Str));
    assert_eq!(parse_vector_elem("vector<TLorentzVector>"), None);
    assert_eq!(parse_nested_vector_elem("vector<vector<int> >"), Some(LeafType::I32));
    assert_eq!(
        parse_nested_vector_elem("std::vector<std::vector<double>>"),
        Some(LeafType::F64)
    );
    assert_eq!(parse_nested_vector_elem("vector<vector<string> >"), None);
    assert_eq!(parse_nested_vector_elem("vector<int>"), None);
}

#[test]
fn dims_of_leaf_titles() {
    assert_eq!(parse_dims("x"), Vec::<usize>::new());
    assert_eq!(parse_dims("x[3]"), vec![3]);
    assert_eq!(parse_dims("m[2][3]/D"), vec![2, 3]);
    assert_eq!(parse_dims("y[ny]/F"), Vec::<usize>::new());
    assert_eq!(parse_dims("z[+4]"), vec![4]);
    assert_eq!(parse_dims("w[5"), Vec::<usize>::new());
    assert_eq!(parse_dims("a[99999999999999999999999]"), Vec::<usize>::new());
}

#[test]
fn basic_kinds() {
    assert_eq!(basic_kind(1), Some((1, false)));
    assert_eq!(basic_kind(6), Some((4, false)));
    assert_eq!(basic_kind(16), Some((8, false)));
    assert_eq!(basic_kind(5), Some((4, true)));
    assert_eq!(basic_kind(8), Some((8, true)));
    assert_eq!(basic_kind(9), None);
}

#[test]
fn leaf_classes() {
    assert_eq!(LeafType::from_leaf("TLeafI", false), Some(LeafType::I32));
    assert_eq!(LeafType::from_leaf("TLeafI", true), Some(LeafType::U32));
    assert_eq!(LeafType::from_leaf("TLeafD", false), Some(LeafType::F64));
    assert_eq!(LeafType::from_leaf("TLeafC", false), Some(LeafType::Str));
    assert_eq!(LeafType::from_leaf("TLeafElement", false), None);
    assert_eq!(LeafType::I16.size(), 2);
    assert_eq!(LeafType::F64.size(), 8);
    assert_eq!(LeafType::Str.size(), 1);
}
