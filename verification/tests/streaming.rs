use oxiroot_tree::error::Error;
use oxiroot_tree::error::Issue;
use oxiroot_tree::reader::members::{StreamerElement, StreamerInfo, StreamerRegistry};
use oxiroot_tree::reader::walk::read_tree;
use oxiroot_tree::writer::baskets::BasketRec;
use oxiroot_tree::writer::classes::{classes, ElementDesc, ElementKind};
use oxiroot_tree::writer::streaming::TreeWriter;
use oxiroot_tree::writer::tree_object::{count_branches, effective_branches, tree_object_of};
use oxiroot_tree::writer::Branch;
use oxiroot_tree::TreeReader;

fn element(e: &ElementDesc) -> StreamerElement {
    let (class, code) = match e.kind {
        ElementKind::Base => ("TStreamerBase", 0),
        ElementKind::Basic => ("TStreamerBasicType", e.code),
        ElementKind::BasicPointer => ("TStreamerBasicPointer", e.code),
        ElementKind::Object => ("TStreamerObject", 61),
        ElementKind::ObjectPointer => ("TStreamerObjectPointer", 64),
        ElementKind::Any => ("TStreamerObjectAny", 62),
        ElementKind::Text => ("TStreamerString", 65),
    };
    StreamerElement {
        element_class: class.to_string(),
        name: e.name.to_string(),
        el_type: code,
        type_spelling: e.spelling.to_string(),
        array_length: 0,
        count_name: if e.count.is_empty() { None } else { Some(e.count.to_string()) },
    }
}

fn registry() -> StreamerRegistry {
    let infos = classes()
        .iter()
        .map(|c| StreamerInfo {
            class_name: c.name.to_string(),
            class_version: c.version,
            elements: c.elements.iter().map(element).collect(),
        })
        .collect();
    StreamerRegistry { infos }
}

/// Stream one batch, giving each of its baskets a record at `*seek`.
fn stream(w: &mut TreeWriter, batch: &[Branch], seek: &mut u64) -> Result<(), Error> {
    let n = w.check_batch(batch)?;
    if n == 0 {
        return Ok(());
    }
    let counts = count_branches(batch);
    let eff = effective_branches(batch, &counts);
    let recs: Vec<BasketRec> = eff
        .iter()
        .map(|_| {
            let r = BasketRec { seek: *seek, nbytes: 100, n_entries: n };
            *seek += 100;
            r
        })
        .collect();
    w.record_batch(batch, &recs);
    Ok(())
}

fn read_back(obj: &[u8]) -> TreeReader {
    read_tree(obj, 26 + 6 + 2 + 1, &registry(), "TTree").expect("the tree object reads back")
}

#[test]
fn streaming_scalars_round_trip() {
    let mut w = TreeWriter::new("T");
    let mut seek = 1000;
    let batches: [(Vec<i32>, Vec<u64>); 3] =
        [(vec![0, 1, 2], vec![0, 1, 2]), (vec![3, 4], vec![3, 4]), (vec![5, 6, 7, 8], vec![5, 6, 7, 8])];
    for (x, y) in &batches {
        stream(&mut w, &[Branch::i32("x", x.clone()), Branch::f64_bits("y", y.clone())], &mut seek).expect("batch");
    }
    assert_eq!(w.num_entries(), 9);
    let obj = w.finish_object(false).expect("finish");
    let t = read_back(&obj);
    assert_eq!(t.num_entries(), 9);
    let x = t.branch("x").expect("x");
    assert_eq!(x.n_baskets, 3);
    assert_eq!(x.basket_entry, vec![0, 3, 5]);
    assert_eq!(&x.basket_seek[..3], &[1000, 1200, 1400]);
}

#[test]
fn streaming_many_baskets_grow_fmaxbaskets() {
    let mut w = TreeWriter::new("T");
    let mut seek = 1000;
    for b in 0..25i64 {
        let x: Vec<i64> = (0..4).map(|i| b * 4 + i).collect();
        stream(&mut w, &[Branch::i64("x", x)], &mut seek).expect("batch");
    }
    let obj = w.finish_object(false).expect("finish");
    let t = read_back(&obj);
    assert_eq!(t.num_entries(), 100);
    let x = t.branch("x").expect("x");
    assert_eq!(x.n_baskets, 25);
    assert_eq!(x.basket_seek.len(), 25);
    assert_eq!(x.basket_entry[12], 48);
}

#[test]
fn streaming_jagged_vector_string_round_trip() {
    let mut w = TreeWriter::new("T");
    let mut seek = 1000;
    let jag: Vec<Vec<u64>> = vec![vec![1], vec![], vec![2, 3, 4], vec![5, 6]];
    let vec_branch: Vec<Vec<i32>> = vec![vec![10], vec![20, 21], vec![], vec![30, 31, 32]];
    let strs: Vec<String> = ["a", "bb", "ccc", "dddd"].iter().map(|s| s.to_string()).collect();
    for r in [0usize..2, 2..4] {
        let batch = [
            Branch::jagged_f64("j", jag[r.clone()].to_vec()),
            Branch::vector_i32("v", vec_branch[r.clone()].to_vec()),
            Branch::strings("s", strs[r.clone()].to_vec()),
        ];
        stream(&mut w, &batch, &mut seek).expect("batch");
    }
    let obj = w.finish_object(false).expect("finish");
    let t = read_back(&obj);
    assert_eq!(t.num_entries(), 4);
    let names = t.branch_names();
    assert_eq!(names, vec!["nj".to_string(), "j".to_string(), "v".to_string(), "s".to_string()]);
    assert_eq!(t.branch_title("j"), Some("j[nj]/D"));
    assert_eq!(t.branch_len("s"), Some(5));
}

#[test]
fn streaming_schema_mismatch_is_rejected() {
    let mut w = TreeWriter::new("T");
    let mut seek = 0;
    stream(&mut w, &[Branch::i32("x", vec![1, 2])], &mut seek).expect("first");
    let err = w.check_batch(&[Branch::f64_bits("x", vec![3])]).expect_err("schema change must error");
    assert!(matches!(&err, Error::SchemaChanged { detail } if detail.contains("schema")), "got: {err:?}");
}

#[test]
fn streaming_uneven_batch_entries_is_rejected() {
    let w = TreeWriter::new("T");
    let err = w
        .check_batch(&[Branch::i32("x", vec![1, 2, 3]), Branch::i32("y", vec![1])])
        .expect_err("uneven entry counts must error");
    assert_eq!(
        err,
        Error::LengthMismatch { what: "branch \"y\" entries".to_string(), expected: 3, found: 1 }
    );
    assert_eq!(w.num_entries(), 0);
}

#[test]
fn streaming_no_batches_is_rejected() {
    let w = TreeWriter::new("T");
    assert_eq!(w.finish_object(false), Err(Error::InvalidInput(Issue::NoBatches)));
}

#[test]
fn streaming_rejects_split_and_ragged_branches() {
    let w = TreeWriter::new("T");
    let split = Branch::split_vector(
        "hits",
        "Hit",
        vec![oxiroot_tree::writer::SplitMember::i32("id", vec![vec![1]])],
    );
    assert_eq!(w.check_batch(&[split]), Err(Error::Unsupported(Issue::StreamedSplitBranch)));
    let ragged = Branch::vec_i32("a", vec![vec![1, 2], vec![3]]);
    assert_eq!(w.check_batch(&[ragged]), Err(Error::RaggedRows { branch: "a".to_string() }));
    assert_eq!(w.check_batch(&[Branch::i32("x", vec![])]), Ok(0));
}

#[test]
fn both_writers_fill_leaf_ranges_as_root_does() {
    let first = || {
        vec![
            Branch::i32("x", vec![3, 7]),
            Branch::jagged_f32("v", vec![vec![1], vec![]]),
            Branch::strings("s", vec!["a".into(), "bbb".into()]),
        ]
    };
    let second = || {
        vec![
            Branch::i32("x", vec![9, 1]),
            Branch::jagged_f32("v", vec![vec![2, 3, 4], vec![5]]),
            Branch::strings("s", vec!["cc".into(), "dddd".into()]),
        ]
    };
    let all = vec![
        Branch::i32("x", vec![3, 7, 9, 1]),
        Branch::jagged_f32("v", vec![vec![1], vec![], vec![2, 3, 4], vec![5]]),
        Branch::strings("s", vec!["a".into(), "bbb".into(), "cc".into(), "dddd".into()]),
    ];
    let mut w = TreeWriter::new("T");
    let mut seek = 1000;
    stream(&mut w, &first(), &mut seek).expect("first");
    stream(&mut w, &second(), &mut seek).expect("second");
    let streamed = w.finish_object(false).expect("finish");

    let counts = count_branches(&all);
    let eff = effective_branches(&all, &counts);
    let groups: Vec<Vec<BasketRec>> = (0..eff.len() as u64)
        .map(|k| {
            vec![
                BasketRec { seek: 1000 + 100 * k, nbytes: 100, n_entries: 2 },
                BasketRec { seek: 1400 + 100 * k, nbytes: 100, n_entries: 2 },
            ]
        })
        .collect();
    let whole = tree_object_of("T", &eff, &groups, false);
    assert_eq!(streamed, whole);
    let t = read_back(&whole);
    assert_eq!(t.branch_len("s"), Some(5));
}
