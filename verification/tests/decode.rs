use oxiroot_tree::basket::{Basket, BasketKey};
use oxiroot_tree::error::{Error, Issue};
use oxiroot_tree::reader::decode::{
    chunk_regions, decode_array, decode_baskets, decode_nested_vec, decode_scalar,
    decode_vec_strings, entry_regions, flat_values, range_values, select_baskets, slice_values,
};
use oxiroot_tree::reader::Branch as Meta;
use oxiroot_tree::{BranchValues, LeafType};

fn meta(leaf_type: LeafType, leaf_len: i32) -> Meta {
    Meta {
        name: "b".to_string(),
        title: String::new(),
        leaf_type,
        leaf_len,
        n_baskets: 1,
        basket_seek: vec![0],
        basket_bytes: Vec::new(),
        basket_entry: vec![0],
        elem_header: 0,
        leaflist: None,
        dims: Vec::new(),
        nested_elem: None,
        object_member: None,
    }
}

fn fixed_basket(n_entries: u32, data: Vec<u8>) -> Basket {
    Basket { n_entries, border: data.len(), data, entry_offsets: None }
}

fn variable_basket(data: Vec<u8>, offsets: Vec<usize>) -> Basket {
    Basket { n_entries: (offsets.len() - 1) as u32, border: data.len(), data, entry_offsets: Some(offsets) }
}

#[test]
fn decodes_big_endian_scalars() {
    let bytes = [0u8, 0, 0, 1, 0xff, 0xff, 0xff, 0xfe];
    assert_eq!(decode_scalar(LeafType::I32, &bytes).unwrap(), BranchValues::I32(vec![1, -2]));
    assert_eq!(decode_scalar(LeafType::U16, &bytes).unwrap(), BranchValues::U16(vec![0, 1, 0xffff, 0xfffe]));
    assert_eq!(decode_scalar(LeafType::Bool, &[0, 2, 1]).unwrap(), BranchValues::Bool(vec![false, true, true]));
    assert_eq!(decode_scalar(LeafType::I8, &[0xff]).unwrap(), BranchValues::I8(vec![-1]));
    assert_eq!(
        decode_scalar(LeafType::Str, &bytes),
        Err(Error::Format(Issue::StringAsNumbers))
    );
    // A trailing partial value is dropped.
    assert_eq!(decode_scalar(LeafType::I32, &bytes[..7]).unwrap(), BranchValues::I32(vec![1]));
}

#[test]
fn decodes_arrays_per_region() {
    let a = [0u8, 1, 0, 2];
    let b = [0u8, 3];
    let regions: Vec<&[u8]> = vec![&a, &b, &[]];
    assert_eq!(
        decode_array(LeafType::I16, &regions).unwrap(),
        BranchValues::VecI16(vec![vec![1, 2], vec![3], vec![]])
    );
    assert_eq!(decode_array(LeafType::Str, &regions), Err(Error::Format(Issue::StringAsNumbers)));
}

#[test]
fn basket_border_and_offsets_from_the_key() {
    // A 4-entry variable basket: 6 bytes of data, then fEntryOffset (count 5,
    // offsets relative to a key of length 10).
    let mut data = vec![1u8, 2, 3, 4, 5, 6];
    data.extend_from_slice(&5i32.to_be_bytes());
    for o in [0i32, 1, 3, 3, 6] {
        data.extend_from_slice(&(o + 10).to_be_bytes());
    }
    let key = BasketKey { record_len: 100, obj_len: data.len() as u32, key_len: 10, n_entries: 4, last: 16 };
    let b = Basket::from_buffer(&key, data).unwrap();
    assert_eq!(b.border, 6);
    assert_eq!(b.entry_offsets, Some(vec![0, 1, 3, 3, 6]));
    assert_eq!(b.entry_data(), &[1, 2, 3, 4, 5, 6]);
    let m = meta(LeafType::U8, 1);
    assert_eq!(
        decode_baskets(&m, &[b]).unwrap(),
        BranchValues::VecU8(vec![vec![1], vec![2, 3], vec![], vec![4, 5, 6]])
    );
}

#[test]
fn basket_with_truncated_offsets_is_an_error() {
    let mut data = vec![1u8, 2];
    data.extend_from_slice(&5i32.to_be_bytes());
    let key = BasketKey { record_len: 100, obj_len: 6, key_len: 10, n_entries: 4, last: 12 };
    assert_eq!(Basket::from_buffer(&key, data).unwrap_err(), Error::UnexpectedEnd);
}

#[test]
fn scalar_size_must_match_entries() {
    let b = fixed_basket(3, vec![0, 0, 0, 1, 0, 0, 0, 2]);
    assert_eq!(
        decode_baskets(&meta(LeafType::I32, 1), &[b]),
        Err(Error::Format(Issue::ScalarSizeMismatch))
    );
}

#[test]
fn fixed_arrays_chunk_each_basket() {
    let b1 = fixed_basket(2, vec![1, 2, 3, 4]);
    let b2 = fixed_basket(1, vec![5, 6, 7]);
    assert_eq!(chunk_regions(&[fixed_basket(0, vec![9, 9])], 0).len(), 0);
    assert_eq!(
        decode_baskets(&meta(LeafType::U8, 2), &[b1, b2]).unwrap(),
        BranchValues::VecU8(vec![vec![1, 2], vec![3, 4], vec![5, 6]])
    );
}

#[test]
fn leaflist_leaf_takes_its_field() {
    // Entries of stride 6: an i32 then a u16; this leaf is the u16 at offset 4.
    let data = vec![0, 0, 0, 1, 0, 7, 0, 0, 0, 2, 0, 8];
    let mut m = meta(LeafType::U16, 1);
    m.leaflist = Some((4, 6));
    assert_eq!(decode_baskets(&m, &[fixed_basket(2, data.clone())]).unwrap(), BranchValues::U16(vec![7, 8]));
    m.leaflist = Some((0, 0));
    assert_eq!(decode_baskets(&m, &[fixed_basket(2, data)]).unwrap(), BranchValues::U16(vec![]));
}

#[test]
fn strings_read_one_per_entry() {
    let data = vec![1, b'a', 0, 2, b'b', b'c'];
    let b = fixed_basket(3, data);
    assert_eq!(
        decode_baskets(&meta(LeafType::Str, 1), &[b]).unwrap(),
        BranchValues::Str(vec!["a".into(), "".into(), "bc".into()])
    );
    let short = fixed_basket(2, vec![3, b'a']);
    assert_eq!(decode_baskets(&meta(LeafType::Str, 1), &[short]), Err(Error::UnexpectedEnd));
}

#[test]
fn vector_of_strings_entries() {
    let mut e = vec![0x40, 0, 0, 9, 0, 10, 0, 0, 0, 2];
    e.extend_from_slice(&[1, b'x', 2, b'y', b'z']);
    let empty = vec![0u8; 3];
    let regions: Vec<&[u8]> = vec![&e, &empty];
    assert_eq!(
        decode_vec_strings(&regions).unwrap(),
        BranchValues::VecStr(vec![vec!["x".into(), "yz".into()], vec![]])
    );
}

#[test]
fn nested_vectors_partition_entries() {
    // Entry 0: two inner vectors [1, 2] and []; entry 1: one inner vector [3].
    let mut e0 = vec![0x40, 0, 0, 0, 0, 9, 0, 0, 0, 2];
    e0.extend_from_slice(&2u32.to_be_bytes());
    e0.extend_from_slice(&1i32.to_be_bytes());
    e0.extend_from_slice(&2i32.to_be_bytes());
    e0.extend_from_slice(&0u32.to_be_bytes());
    let mut e1 = vec![0x40, 0, 0, 0, 0, 9, 0, 0, 0, 1];
    e1.extend_from_slice(&1u32.to_be_bytes());
    e1.extend_from_slice(&3i32.to_be_bytes());
    let regions: Vec<&[u8]> = vec![&e0, &e1];
    assert_eq!(
        decode_nested_vec(&regions, LeafType::I32).unwrap(),
        BranchValues::Nested {
            offsets: vec![0, 2, 3],
            items: Box::new(BranchValues::VecI32(vec![vec![1, 2], vec![], vec![3]])),
        }
    );
    let cut: Vec<&[u8]> = vec![&e0[..15]];
    assert_eq!(decode_nested_vec(&cut, LeafType::I32), Err(Error::Format(Issue::NestedEntryTruncated)));
}

#[test]
fn nested_branch_through_decode_baskets() {
    let mut data = vec![0x40, 0, 0, 0, 0, 9, 0, 0, 0, 1];
    data.extend_from_slice(&2u32.to_be_bytes());
    data.extend_from_slice(&[0, 5, 0, 6]);
    let len = data.len();
    let mut m = meta(LeafType::I16, 1);
    m.nested_elem = Some(LeafType::I16);
    assert_eq!(
        decode_baskets(&m, &[variable_basket(data, vec![0, len])]).unwrap(),
        BranchValues::Nested { offsets: vec![0, 1], items: Box::new(BranchValues::VecI16(vec![vec![5, 6]])) }
    );
    assert_eq!(
        decode_baskets(&m, &[fixed_basket(1, vec![0])]),
        Err(Error::Format(Issue::MissingEntryOffsets))
    );
}

#[test]
fn slices_clamp_to_the_column() {
    let v = BranchValues::I32(vec![1, 2, 3, 4]);
    assert_eq!(slice_values(v, 1, 2), BranchValues::I32(vec![2, 3]));
    let v = BranchValues::I32(vec![1, 2, 3, 4]);
    assert_eq!(slice_values(v, 3, 10), BranchValues::I32(vec![4]));
    let v = BranchValues::I32(vec![1, 2]);
    assert_eq!(slice_values(v, 5, 1), BranchValues::I32(vec![]));
    let nested = BranchValues::Nested {
        offsets: vec![0, 2, 2, 3],
        items: Box::new(BranchValues::VecU8(vec![vec![1], vec![2], vec![3]])),
    };
    assert_eq!(
        slice_values(nested, 1, 2),
        BranchValues::Nested { offsets: vec![0, 0, 1], items: Box::new(BranchValues::VecU8(vec![vec![3]])) }
    );
}

#[test]
fn flat_view_matches_the_rows() {
    let b = variable_basket(vec![0, 1, 0, 2, 0, 3], vec![0, 4, 4, 6]);
    let m = meta(LeafType::I16, 1);
    let j = flat_values(&m, std::slice::from_ref(&b)).unwrap();
    assert_eq!(j.offsets, vec![0, 2, 2, 3]);
    assert_eq!(j.values, BranchValues::I16(vec![1, 2, 3]));
    assert_eq!(entry_regions(&m, std::slice::from_ref(&b)).len(), 3);
    assert_eq!(
        flat_values(&meta(LeafType::Str, 1), &[b]).unwrap_err(),
        Error::InvalidInput(Issue::FlatViewOfStrings)
    );
}

#[test]
fn entry_ranges_select_covering_baskets() {
    let mut m = meta(LeafType::I32, 1);
    m.n_baskets = 3;
    m.basket_entry = vec![0, 4, 8];
    assert_eq!(select_baskets(&m, 10, 5, 9), (vec![1, 2], 4));
    assert_eq!(select_baskets(&m, 10, 0, 100), (vec![0, 1, 2], 0));
    assert_eq!(select_baskets(&m, 10, 9, 3), (vec![0], 0));
    assert_eq!(select_baskets(&m, 10, 12, 20), (vec![], 0));
    m.basket_entry = vec![0];
    assert_eq!(select_baskets(&m, 10, 5, 6), (vec![0, 1, 2], 0));

    let b1 = fixed_basket(4, (4u32..8).flat_map(|v| v.to_be_bytes()).collect());
    let b2 = fixed_basket(2, (8u32..10).flat_map(|v| v.to_be_bytes()).collect());
    let mut m = meta(LeafType::U32, 1);
    m.n_baskets = 2;
    assert_eq!(range_values(&m, &[b1, b2], 4, 5, 9).unwrap(), BranchValues::U32(vec![5, 6, 7, 8]));
}

#[test]
fn basket_with_fewer_offsets_than_entries_is_refused() {
    // Two entries, but fEntryOffset holds a single offset.
    let mut data = vec![1u8, 2, 3, 4];
    data.extend_from_slice(&1i32.to_be_bytes());
    data.extend_from_slice(&10i32.to_be_bytes());
    let key = BasketKey { record_len: 100, obj_len: data.len() as u32, key_len: 10, n_entries: 2, last: 14 };
    assert_eq!(
        Basket::from_buffer(&key, data).unwrap_err(),
        Error::Format(Issue::TooFewEntryOffsets)
    );
}

#[test]
fn flat_view_cuts_the_nested_read_entry_by_entry() {
    let b = variable_basket(vec![0, 1, 0, 2, 0, 3], vec![0, 4, 4, 6]);
    let m = meta(LeafType::I16, 1);
    let nested = decode_baskets(&m, std::slice::from_ref(&b)).unwrap();
    let j = flat_values(&m, std::slice::from_ref(&b)).unwrap();
    let (BranchValues::VecI16(rows), BranchValues::I16(values)) = (nested, j.values) else {
        panic!("an i16 array branch reads as i16 arrays");
    };
    assert_eq!(j.offsets.len(), rows.len() + 1);
    for (i, row) in rows.iter().enumerate() {
        let (a, z) = (j.offsets[i] as usize, j.offsets[i + 1] as usize);
        assert_eq!(&values[a..z], row.as_slice());
    }
}
