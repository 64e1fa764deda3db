use oxiroot_tree::basket::Basket;
use oxiroot_tree::error::{Error, Issue};
use oxiroot_tree::reader::decode::{decode_baskets, flat_values};
use oxiroot_tree::reader::members::StreamerElement;
use oxiroot_tree::reader::{Branch, ObjectMember};
use oxiroot_tree::{BranchValues, LeafType};

fn elem(class: &str, name: &str, el_type: i32) -> StreamerElement {
    StreamerElement {
        element_class: class.to_string(),
        name: name.to_string(),
        el_type,
        type_spelling: String::new(),
        array_length: 0,
        count_name: None,
    }
}

fn counted(version: u16, body: &[u8]) -> Vec<u8> {
    let mut out = (0x4000_0000u32 | (body.len() as u32 + 2)).to_be_bytes().to_vec();
    out.extend_from_slice(&version.to_be_bytes());
    out.extend_from_slice(body);
    out
}

fn tstring(s: &str) -> Vec<u8> {
    let mut out = vec![s.len() as u8];
    out.extend_from_slice(s.as_bytes());
    out
}

fn entry(n: i32, label: &str, e: f64) -> Vec<u8> {
    let mut body = 1u16.to_be_bytes().to_vec();
    body.extend_from_slice(&[0; 8]);
    body.extend_from_slice(&n.to_be_bytes());
    body.extend(tstring(label));
    body.extend_from_slice(&e.to_bits().to_be_bytes());
    counted(3, &body)
}

fn class_elements() -> Vec<StreamerElement> {
    vec![
        elem("TStreamerBase", "TObject", 66),
        elem("TStreamerBasicType", "fN", 3),
        elem("TStreamerString", "fLabel", 65),
        elem("TStreamerBasicType", "fE", 8),
    ]
}

fn object_branch(member: &str, leaf_type: LeafType) -> Branch {
    Branch {
        name: format!("o.{member}"),
        title: String::new(),
        leaf_type,
        leaf_len: 1,
        n_baskets: 1,
        basket_seek: vec![0],
        basket_bytes: Vec::new(),
        basket_entry: vec![0],
        elem_header: 0,
        leaflist: None,
        dims: Vec::new(),
        nested_elem: None,
        object_member: Some(ObjectMember { member: member.to_string(), class_elements: class_elements() }),
    }
}

fn basket(entries: &[Vec<u8>]) -> Basket {
    let mut data = Vec::new();
    let mut offsets = vec![0];
    for e in entries {
        data.extend_from_slice(e);
        offsets.push(data.len());
    }
    Basket { n_entries: entries.len() as u32, border: data.len(), data, entry_offsets: Some(offsets) }
}

#[test]
fn object_member_columns_take_their_member_from_each_entry() {
    // The second entry is written by a "virtual" leaf: its class name first.
    let mut second = tstring("Hit");
    second.extend(entry(-9, "bc", 2.5));
    let b = basket(&[entry(4, "a", 1.0), second]);
    let bs = std::slice::from_ref(&b);
    assert_eq!(decode_baskets(&object_branch("fN", LeafType::I32), bs).unwrap(), BranchValues::I32(vec![4, -9]));
    assert_eq!(
        decode_baskets(&object_branch("fLabel", LeafType::Str), bs).unwrap(),
        BranchValues::Str(vec!["a".to_string(), "bc".to_string()])
    );
    assert_eq!(
        decode_baskets(&object_branch("fE", LeafType::F64), bs).unwrap(),
        BranchValues::F64(vec![1.0f64.to_bits(), 2.5f64.to_bits()])
    );
    assert_eq!(decode_baskets(&object_branch("fN", LeafType::U8), bs).unwrap(), BranchValues::U8(vec![4, 247]));
    // A member the class lacks reads as 0.
    assert_eq!(decode_baskets(&object_branch("fMissing", LeafType::I64), bs).unwrap(), BranchValues::I64(vec![0, 0]));
    // An integer member in a floating column needs a conversion.
    assert_eq!(
        decode_baskets(&object_branch("fN", LeafType::F32), bs).unwrap_err(),
        Error::Unsupported(Issue::FloatMemberConversion)
    );
    assert_eq!(
        flat_values(&object_branch("fN", LeafType::I32), bs).unwrap_err(),
        Error::InvalidInput(Issue::FlatViewOfObjectMember)
    );
}

#[test]
fn an_unreadable_object_is_an_error() {
    let b = basket(&[vec![0x40, 0, 0, 40, 0]]);
    assert_eq!(
        decode_baskets(&object_branch("fN", LeafType::I32), std::slice::from_ref(&b)).unwrap_err(),
        Error::Format(Issue::ObjectMemberUnreadable)
    );
    let no_offsets = Basket { n_entries: 1, border: 0, data: Vec::new(), entry_offsets: None };
    assert_eq!(
        decode_baskets(&object_branch("fN", LeafType::I32), std::slice::from_ref(&no_offsets)).unwrap_err(),
        Error::Format(Issue::MissingEntryOffsets)
    );
}
