use oxiroot_tree::error::{Error, Issue};
use oxiroot_tree::writer::chunks::{basket_ranges, chunk_values};
use oxiroot_tree::writer::split::{check_split_members, class_checksum, member_type_info};
use oxiroot_tree::writer::tree::{check_branches, check_entry_counts};
use oxiroot_tree::{Branch, BranchValues, SplitMember, Tree};

#[test]
fn a_tree_keeps_its_name_and_branches() {
    let t = Tree::new("events", vec![Branch::i32("x", vec![1, 2]), Branch::strings("s", vec!["a".into(), "b".into()])]);
    assert_eq!(t.name(), "events");
    assert_eq!(t.branches().len(), 2);
    assert_eq!(t.branches()[1].name, "s");
}

#[test]
fn entry_counts_must_agree() {
    let ok = vec![Branch::i32("x", vec![1, 2]), Branch::f64_bits("y", vec![0, 1])];
    assert_eq!(check_entry_counts(&ok), Ok(()));
    assert_eq!(check_entry_counts(&[]), Ok(()));
    let bad = vec![Branch::i32("x", vec![1, 2]), Branch::u8("y", vec![1, 2]), Branch::u8("z", vec![1])];
    assert_eq!(
        check_entry_counts(&bad),
        Err(Error::LengthMismatch { what: "branch \"z\" entries".to_string(), expected: 2, found: 1 })
    );
}

#[test]
fn fixed_arrays_must_not_be_ragged() {
    let ragged = vec![Branch::vec_i32("a", vec![vec![1, 2], vec![3]])];
    assert_eq!(check_branches(&ragged), Err(Error::RaggedRows { branch: "a".to_string() }));
    let jagged = vec![Branch::jagged_i32("a", vec![vec![1, 2], vec![3]])];
    assert_eq!(check_branches(&jagged), Ok(()));
    let vector = vec![Branch::vector_i32("a", vec![vec![1, 2], vec![3]])];
    assert_eq!(check_branches(&vector), Ok(()));
    let even = vec![Branch::vec_i32("a", vec![vec![1, 2], vec![3, 4]])];
    assert_eq!(check_branches(&even), Ok(()));
}

#[test]
fn split_members_must_agree() {
    let good = Branch::split_vector(
        "hits",
        "Hit",
        vec![SplitMember::i32("x", vec![vec![1, 2], vec![]]), SplitMember::f64_bits("e", vec![vec![0, 0], vec![]])],
    );
    assert_eq!(check_branches(&[good]), Ok(()));
    let uneven = Branch::split_vector(
        "hits",
        "Hit",
        vec![SplitMember::i32("x", vec![vec![1, 2], vec![]]), SplitMember::i32("y", vec![vec![1], vec![]])],
    );
    assert_eq!(
        check_branches(&[uneven]),
        Err(Error::LengthMismatch {
            what: "branch \"hits\" split member \"y\" in entry 0".to_string(),
            expected: 2,
            found: 1,
        })
    );
    let empty = Branch::split_vector("hits", "Hit", vec![]);
    assert!(check_branches(&[empty]).is_err());
}

#[test]
fn split_spec_checks_name_the_member() {
    let b = Branch::split_vector(
        "hits",
        "Hit",
        vec![SplitMember::i32("x", vec![vec![1, 2]]), SplitMember::i32("y", vec![vec![1, 2], vec![3]])],
    );
    let spec = b.split().unwrap();
    match check_split_members("hits", spec) {
        Err(Error::LengthMismatch { what, expected, found }) => {
            assert_eq!(what, "branch \"hits\" split member \"y\"");
            assert_eq!((expected, found), (1, 2));
        }
        other => panic!("unexpected {:?}", other),
    }
    let none = Branch::split_vector("hits", "Hit", vec![]);
    assert_eq!(
        check_split_members("hits", none.split().unwrap()),
        Err(Error::InvalidInput(Issue::SplitWithoutMembers))
    );
}

#[test]
fn member_types_have_root_codes() {
    assert_eq!(member_type_info(&BranchValues::VecI32(vec![])), (3, "int", 4));
    assert_eq!(member_type_info(&BranchValues::VecF64(vec![])), (8, "double", 8));
    assert_eq!(member_type_info(&BranchValues::VecBool(vec![])), (18, "bool", 1));
    assert_eq!(member_type_info(&BranchValues::VecU64(vec![])), (17, "ULong64_t", 8));
    assert_eq!(member_type_info(&BranchValues::I32(vec![])), (0, "", 0));
}

#[test]
fn class_checksum_folds_names_and_types() {
    let mut id: u32 = 0;
    for b in "Hit".bytes().chain("x".bytes()).chain("int".bytes()) {
        id = id.wrapping_mul(3).wrapping_add(b as u32);
    }
    assert_eq!(class_checksum("Hit", &[SplitMember::i32("x", vec![])]), id);
    assert_eq!(class_checksum("", &[]), 0);
    assert_eq!(class_checksum("A", &[]), 65);
}

#[test]
fn basket_ranges_cover_the_entries() {
    assert_eq!(basket_ranges(10, 4), vec![(0, 4), (4, 4), (8, 2)]);
    assert_eq!(basket_ranges(8, 4), vec![(0, 4), (4, 4)]);
    assert_eq!(basket_ranges(5, 0), vec![(0, 5)]);
    assert_eq!(basket_ranges(0, 3), Vec::<(usize, usize)>::new());
}

#[test]
fn chunks_keep_the_variant() {
    let v = BranchValues::I16(vec![1, 2, 3, 4]);
    assert_eq!(chunk_values(&v, 1, 2), BranchValues::I16(vec![2, 3]));
    assert_eq!(chunk_values(&v, 3, 5), BranchValues::I16(vec![4]));
    assert_eq!(chunk_values(&v, 9, 1), BranchValues::I16(vec![]));
    let s = BranchValues::Str(vec!["a".into(), "b".into()]);
    assert_eq!(chunk_values(&s, 1, 1), BranchValues::Str(vec!["b".into()]));
    let j = BranchValues::VecU8(vec![vec![1], vec![], vec![2, 3]]);
    assert_eq!(chunk_values(&j, 1, 2), BranchValues::VecU8(vec![vec![], vec![2, 3]]));
}
