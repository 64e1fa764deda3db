use oxiroot_tree::basket::{Basket, BasketKey};
use oxiroot_tree::reader::decode::decode_baskets;
use oxiroot_tree::reader::Branch as Meta;
use oxiroot_tree::writer::baskets::{basket_bytes, BasketRec};
use oxiroot_tree::writer::chunks::{basket_ranges, chunk_branch};
use oxiroot_tree::{Branch, BranchValues, LeafType};

fn meta(name: &str, leaf_type: LeafType, leaf_len: i32, elem_header: usize) -> Meta {
    Meta {
        name: name.to_string(),
        title: String::new(),
        leaf_type,
        leaf_len,
        n_baskets: 1,
        basket_seek: vec![0],
        basket_bytes: Vec::new(),
        basket_entry: vec![0],
        elem_header,
        leaflist: None,
        dims: Vec::new(),
        nested_elem: None,
        object_member: None,
    }
}

/// Write one basket record for `b`, parse its key, rebuild the basket from the
/// payload, and return it with the record's bookkeeping.
fn write_and_reread(b: &Branch) -> (Basket, BasketRec, Vec<u8>) {
    let (rec, info) = basket_bytes(b, "T", 0x5a5a_0000, 1000, 100);
    let key = BasketKey::parse(&rec).unwrap();
    assert_eq!(key.record_len, info.nbytes);
    assert_eq!(key.record_len as usize, rec.len());
    assert!(!key.is_compressed());
    let data = rec[key.key_len as usize..].to_vec();
    (Basket::from_buffer(&key, data).unwrap(), info, rec)
}

#[test]
fn scalar_basket_round_trips() {
    let b = Branch::i32("x", vec![1, -2, 3, i32::MAX]);
    let (basket, info, _) = write_and_reread(&b);
    assert_eq!(info.n_entries, 4);
    assert_eq!(info.seek, 1000);
    assert_eq!(basket.n_entries, 4);
    assert!(basket.entry_offsets.is_none());
    assert_eq!(
        decode_baskets(&meta("x", LeafType::I32, 1, 0), &[basket]).unwrap(),
        BranchValues::I32(vec![1, -2, 3, i32::MAX])
    );
}

#[test]
fn double_basket_round_trips() {
    let vals = [0.5f64, -1.25, 1e300];
    let b = Branch::f64_bits("e", vals.iter().map(|v| v.to_bits()).collect());
    let (basket, _, _) = write_and_reread(&b);
    let back = decode_baskets(&meta("e", LeafType::F64, 1, 0), &[basket]).unwrap();
    match back {
        BranchValues::F64(bits) => {
            let got: Vec<f64> = bits.into_iter().map(f64::from_bits).collect();
            assert_eq!(got, vals.to_vec());
        }
        other => panic!("unexpected {other:?}"),
    }
}

#[test]
fn fixed_array_basket_round_trips() {
    let rows = vec![vec![1i16, 2, 3], vec![4, 5, 6]];
    let b = Branch::vec_i16("a", rows.clone());
    let (basket, _, _) = write_and_reread(&b);
    assert_eq!(
        decode_baskets(&meta("a", LeafType::I16, 3, 0), &[basket]).unwrap(),
        BranchValues::VecI16(rows)
    );
}

#[test]
fn jagged_basket_round_trips() {
    let rows = vec![vec![1.5f32], vec![], vec![2.0, 3.0]];
    let bits: Vec<Vec<u32>> = rows.iter().map(|r| r.iter().map(|v| v.to_bits()).collect()).collect();
    let b = Branch::jagged_f32("v", bits.clone());
    let (basket, _, _) = write_and_reread(&b);
    assert_eq!(basket.entry_offsets.as_ref().unwrap().len(), 4);
    assert_eq!(
        decode_baskets(&meta("v", LeafType::F32, 1, 0), &[basket]).unwrap(),
        BranchValues::VecF32(bits)
    );
}

#[test]
fn std_vector_basket_round_trips() {
    let rows = vec![vec![7u64, 8], vec![], vec![9]];
    let b = Branch::vector_u64("w", rows.clone());
    let (basket, _, _) = write_and_reread(&b);
    assert_eq!(
        decode_baskets(&meta("w", LeafType::U64, 1, 10), &[basket]).unwrap(),
        BranchValues::VecU64(rows)
    );
}

#[test]
fn string_basket_round_trips() {
    let long = "x".repeat(300);
    let vals = vec!["a".to_string(), String::new(), "héllo".to_string(), long];
    let b = Branch::strings("s", vals.clone());
    let (basket, _, _) = write_and_reread(&b);
    assert_eq!(
        decode_baskets(&meta("s", LeafType::Str, 1, 0), &[basket]).unwrap(),
        BranchValues::Str(vals)
    );
}

#[test]
fn long_branch_name_round_trips() {
    let name = "b".repeat(300);
    let b = Branch::f64_bits(&name, vec![0.5f64.to_bits(), 1.5f64.to_bits()]);
    let (basket, _, rec) = write_and_reread(&b);
    assert!(rec.len() > 300);
    assert_eq!(
        decode_baskets(&meta(&name, LeafType::F64, 1, 0), &[basket]).unwrap(),
        BranchValues::F64(vec![0.5f64.to_bits(), 1.5f64.to_bits()])
    );
}

#[test]
fn multi_basket_round_trips() {
    let rows: Vec<Vec<i32>> = (0..7).map(|i| (0..i).collect()).collect();
    let b = Branch::jagged_i32("j", rows.clone());
    let ranges = basket_ranges(7, 3);
    assert_eq!(ranges, vec![(0, 3), (3, 3), (6, 1)]);
    let baskets: Vec<Basket> = ranges
        .iter()
        .map(|&(s, l)| write_and_reread(&chunk_branch(&b, s, l)).0)
        .collect();
    assert_eq!(
        decode_baskets(&meta("j", LeafType::I32, 1, 0), &baskets).unwrap(),
        BranchValues::VecI32(rows)
    );
}

#[test]
fn multi_basket_scalars_round_trip() {
    let vals: Vec<u16> = (0..10).map(|i| i * 7).collect();
    let b = Branch::u16("u", vals.clone());
    let baskets: Vec<Basket> = basket_ranges(10, 4)
        .iter()
        .map(|&(s, l)| write_and_reread(&chunk_branch(&b, s, l)).0)
        .collect();
    assert_eq!(baskets.len(), 3);
    assert_eq!(
        decode_baskets(&meta("u", LeafType::U16, 1, 0), &baskets).unwrap(),
        BranchValues::U16(vals)
    );
}
