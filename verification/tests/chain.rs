use oxiroot_tree::chain::concat_values;
use oxiroot_tree::error::{Error, Issue};
use oxiroot_tree::merge::{build_branch, branch_meta, BranchMetaLite};
use oxiroot_tree::reader::Branch as Meta;
use oxiroot_tree::{BranchValues, LeafType};

#[test]
fn concatenates_flat_scalar_branches() {
    let parts = vec![BranchValues::I32(vec![1, 2]), BranchValues::I32(vec![3]), BranchValues::I32(vec![])];
    assert_eq!(concat_values(parts).unwrap(), BranchValues::I32(vec![1, 2, 3]));
    let parts = vec![
        BranchValues::F64(vec![1.5f64.to_bits()]),
        BranchValues::F64(vec![2.5f64.to_bits()]),
    ];
    assert_eq!(
        concat_values(parts).unwrap(),
        BranchValues::F64(vec![1.5f64.to_bits(), 2.5f64.to_bits()])
    );
}

#[test]
fn preserves_and_concatenates_jagged_and_vector_branches() {
    let parts = vec![
        BranchValues::VecF32(vec![vec![1.0f32.to_bits()], vec![]]),
        BranchValues::VecF32(vec![vec![2.0f32.to_bits(), 3.0f32.to_bits()]]),
    ];
    assert_eq!(
        concat_values(parts).unwrap(),
        BranchValues::VecF32(vec![
            vec![1.0f32.to_bits()],
            vec![],
            vec![2.0f32.to_bits(), 3.0f32.to_bits()]
        ])
    );
    let parts = vec![
        BranchValues::Str(vec!["a".into()]),
        BranchValues::Str(vec!["b".into(), "c".into()]),
    ];
    assert_eq!(concat_values(parts).unwrap(), BranchValues::Str(vec!["a".into(), "b".into(), "c".into()]));
}

#[test]
fn single_input_round_trips_the_values() {
    let v = vec![vec![1i64, 2], vec![3]];
    assert_eq!(
        concat_values(vec![BranchValues::VecI64(v.clone())]).unwrap(),
        BranchValues::VecI64(v)
    );
}

#[test]
fn rejects_a_type_mismatch() {
    let parts = vec![BranchValues::I32(vec![1]), BranchValues::I64(vec![2])];
    assert_eq!(concat_values(parts), Err(Error::Format(Issue::InconsistentTypes)));
}

#[test]
fn no_parts_is_an_error() {
    assert_eq!(concat_values(Vec::new()), Err(Error::Format(Issue::NoTrees)));
}

#[test]
fn nested_columns_rebase_offsets() {
    let a = BranchValues::Nested {
        offsets: vec![0, 2, 3],
        items: Box::new(BranchValues::VecU8(vec![vec![1], vec![2], vec![3]])),
    };
    let b = BranchValues::Nested {
        offsets: vec![0, 1],
        items: Box::new(BranchValues::VecU8(vec![vec![4, 5]])),
    };
    assert_eq!(
        concat_values(vec![a, b]).unwrap(),
        BranchValues::Nested {
            offsets: vec![0, 2, 3, 4],
            items: Box::new(BranchValues::VecU8(vec![vec![1], vec![2], vec![3], vec![4, 5]])),
        }
    );
    let c = BranchValues::Nested { offsets: vec![0, 1], items: Box::new(BranchValues::VecU8(vec![vec![1]])) };
    assert_eq!(
        concat_values(vec![c, BranchValues::U8(vec![1])]),
        Err(Error::Format(Issue::InconsistentTypes))
    );
}

fn lite(dims_len: usize, elem_header: usize) -> BranchMetaLite {
    BranchMetaLite { dims_len, elem_header, has_leaflist: false, has_object_member: false, has_nested: false }
}

#[test]
fn rebuilds_the_branch_kind() {
    let b = build_branch("x", &lite(0, 0), BranchValues::I32(vec![1, 2])).unwrap();
    assert_eq!(b.name, "x");
    let b = build_branch("a", &lite(1, 0), BranchValues::VecI16(vec![vec![1, 2]])).unwrap();
    assert!(!b.jagged() && !b.stl_vector());
    let b = build_branch("v", &lite(0, 10), BranchValues::VecU64(vec![vec![1]])).unwrap();
    assert!(b.stl_vector());
    let b = build_branch("j", &lite(0, 0), BranchValues::VecF64(vec![vec![]])).unwrap();
    assert!(b.jagged());
}

#[test]
fn refuses_layouts_it_cannot_write() {
    assert_eq!(
        build_branch("m", &lite(2, 0), BranchValues::VecI32(vec![])).err(),
        Some(Error::Unsupported(Issue::NotWritable))
    );
    assert_eq!(
        build_branch("b", &lite(0, 10), BranchValues::VecBool(vec![])).err(),
        Some(Error::Unsupported(Issue::NotWritable))
    );
    assert_eq!(
        build_branch("s", &lite(0, 10), BranchValues::VecStr(vec![])).err(),
        Some(Error::Unsupported(Issue::NotWritable))
    );
    let mut l = lite(0, 0);
    l.has_leaflist = true;
    assert_eq!(build_branch("l", &l, BranchValues::I32(vec![])).err(), Some(Error::Unsupported(Issue::NotWritable)));
}

#[test]
fn metadata_of_a_read_branch() {
    let m = Meta {
        name: "v".into(),
        title: "v[3]".into(),
        leaf_type: LeafType::I32,
        leaf_len: 3,
        n_baskets: 0,
        basket_seek: vec![],
        basket_bytes: vec![],
        basket_entry: vec![],
        elem_header: 0,
        leaflist: None,
        dims: vec![3],
        nested_elem: None,
        object_member: None,
    };
    assert_eq!(branch_meta(&m), lite(1, 0));
}

#[test]
fn chaining_one_more_tree_appends_its_entries() {
    let two = vec![BranchValues::F64(vec![1]), BranchValues::F64(vec![2, 3])];
    let three = vec![
        BranchValues::F64(vec![1]),
        BranchValues::F64(vec![2, 3]),
        BranchValues::F64(vec![4]),
    ];
    let BranchValues::F64(mut joined) = concat_values(two).unwrap() else {
        panic!("f64 reads join to f64 values");
    };
    joined.push(4);
    assert_eq!(concat_values(three).unwrap(), BranchValues::F64(joined));
}
