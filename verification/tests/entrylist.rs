use oxiroot_tree::entrylist::{entry_list_from_object, read_block, read_entry_list, sorted_unique, K_BLOCK_SIZE};
use oxiroot_tree::error::Error;
use oxiroot_tree::rbuffer::RBuffer;
use oxiroot_tree::TEntryList;

fn counted(version: u16, body: &[u8]) -> Vec<u8> {
    let mut out = (0x4000_0000u32 | (body.len() as u32 + 2)).to_be_bytes().to_vec();
    out.extend_from_slice(&version.to_be_bytes());
    out.extend_from_slice(body);
    out
}

fn tobject() -> Vec<u8> {
    let mut out = 1u16.to_be_bytes().to_vec();
    out.extend_from_slice(&0u32.to_be_bytes());
    out.extend_from_slice(&0u32.to_be_bytes());
    out
}

fn tstring(s: &str) -> Vec<u8> {
    let mut out = vec![s.len() as u8];
    out.extend_from_slice(s.as_bytes());
    out
}

fn tnamed(name: &str, title: &str) -> Vec<u8> {
    let mut body = tobject();
    body.extend(tstring(name));
    body.extend(tstring(title));
    counted(1, &body)
}

fn new_class_object(class: &str, body: &[u8]) -> Vec<u8> {
    let mut inner = vec![0xff, 0xff, 0xff, 0xff];
    inner.extend_from_slice(class.as_bytes());
    inner.push(0);
    inner.extend_from_slice(body);
    let mut out = (0x4000_0000u32 | inner.len() as u32).to_be_bytes().to_vec();
    out.extend(inner);
    out
}

fn block(n_passed: i32, indices: &[u16], f_type: i32, passing: bool) -> Vec<u8> {
    let mut body = tobject();
    body.extend_from_slice(&n_passed.to_be_bytes());
    body.extend_from_slice(&(indices.len() as i32).to_be_bytes());
    body.push(1);
    for w in indices {
        body.extend_from_slice(&w.to_be_bytes());
    }
    body.extend_from_slice(&f_type.to_be_bytes());
    body.push(passing as u8);
    counted(1, &body)
}

fn entry_list(blocks: &[Vec<u8>], trailer: bool) -> Vec<u8> {
    let mut body = tnamed("elist", "selected");
    body.extend_from_slice(&0u32.to_be_bytes()); // fLists: null
    body.extend_from_slice(&(blocks.len() as i32).to_be_bytes());
    let mut array = 3u16.to_be_bytes().to_vec();
    array.extend(tobject());
    array.extend(tstring(""));
    array.extend_from_slice(&(blocks.len() as i32).to_be_bytes());
    array.extend_from_slice(&0i32.to_be_bytes());
    for b in blocks {
        array.extend(new_class_object("TEntryListBlock", b));
    }
    body.extend(new_class_object("TObjArray", &array));
    if trailer {
        body.extend_from_slice(&3i64.to_be_bytes());
        body.extend_from_slice(&3i64.to_be_bytes());
        body.extend(tstring("events"));
        body.extend(tstring("data.root"));
    }
    counted(1, &body)
}

#[test]
fn reads_bitmap_and_explicit_blocks() {
    let bytes = entry_list(&[block(2, &[0b101], 0, true), block(2, &[5, 3, 9], 1, true)], true);
    let list: TEntryList = read_entry_list(&bytes, 0).unwrap();
    assert_eq!(list.name(), "elist");
    assert_eq!(list.tree_name(), "events");
    assert_eq!(list.file_name(), "data.root");
    assert_eq!(list.entries(), &[0, 2, K_BLOCK_SIZE + 3, K_BLOCK_SIZE + 5]);
    assert_eq!(list.len(), 4);
    assert!(!list.is_empty());
    assert!(list.contains(2));
    assert!(list.contains(K_BLOCK_SIZE + 5));
    assert!(!list.contains(1));
    assert!(!list.contains(K_BLOCK_SIZE + 9));
}

#[test]
fn a_list_without_trailing_names_has_empty_names() {
    let bytes = entry_list(&[block(0, &[0b11, 0b1], 0, true)], false);
    let list = read_entry_list(&bytes, 0).unwrap();
    assert_eq!(list.tree_name(), "");
    assert_eq!(list.file_name(), "");
    assert_eq!(list.entries(), &[0, 1, 16]);
}

#[test]
fn a_complement_block_contributes_nothing() {
    let bytes = entry_list(&[block(1, &[0xffff], 0, false)], true);
    let list = read_entry_list(&bytes, 0).unwrap();
    assert!(list.is_empty());
    assert_eq!(list.len(), 0);
}

#[test]
fn a_truncated_list_is_an_error() {
    let bytes = entry_list(&[block(2, &[0b101], 0, true)], true);
    assert!(read_entry_list(&bytes[..20], 0).is_err());
    assert_eq!(read_entry_list(&[], 0).unwrap_err(), Error::UnexpectedEnd);
}

#[test]
fn block_entries_are_offset_by_the_block_index() {
    let bytes = block(2, &[7, 1], 2, true);
    let mut r = RBuffer::new(&bytes);
    let mut out = vec![99];
    read_block(&mut r, 2, &mut out).unwrap();
    assert_eq!(out, vec![99, 2 * K_BLOCK_SIZE + 7, 2 * K_BLOCK_SIZE + 1]);
    assert_eq!(r.remaining(), 0);
}

#[test]
fn sorted_unique_sorts_and_drops_repeats() {
    assert_eq!(sorted_unique(&vec![5, 1, 5, 3, 1]), vec![1, 3, 5]);
    assert_eq!(sorted_unique(&vec![]), Vec::<u64>::new());
}

#[test]
fn a_key_of_another_class_is_not_an_entry_list() {
    assert_eq!(
        entry_list_from_object("sel", "TTree", &[], 0).unwrap_err(),
        Error::WrongClass {
            name: "sel".to_string(),
            found: "TTree".to_string(),
            expected: "TEntryList".to_string()
        }
    );
    assert!(entry_list_from_object("sel", "TEntryList", &[], 0).is_err());
}
