use oxiroot_tree::error::Error;
use oxiroot_tree::rbuffer::RBuffer;
use oxiroot_tree::reader::parse::{open_tlist, parse_dims, read_friends};
use oxiroot_tree::tags::{read_tnamed, read_tobject, TagReader};
use oxiroot_tree::Friend;

fn counted(version: u16, body: &[u8]) -> Vec<u8> {
    let mut out = (0x4000_0000u32 | (body.len() as u32 + 2)).to_be_bytes().to_vec();
    out.extend_from_slice(&version.to_be_bytes());
    out.extend_from_slice(body);
    out
}

fn tobject() -> Vec<u8> {
    let mut out = 1u16.to_be_bytes().to_vec();
    out.extend_from_slice(&0u32.to_be_bytes());
    out.extend_from_slice(&0u32.to_be_bytes());
    out
}

fn tstring(s: &str) -> Vec<u8> {
    let mut out = vec![s.len() as u8];
    out.extend_from_slice(s.as_bytes());
    out
}

fn tnamed(name: &str, title: &str) -> Vec<u8> {
    let mut body = tobject();
    body.extend(tstring(name));
    body.extend(tstring(title));
    counted(1, &body)
}

fn new_class_object(class: &str, body: &[u8]) -> Vec<u8> {
    let mut inner = vec![0xff, 0xff, 0xff, 0xff];
    inner.extend_from_slice(class.as_bytes());
    inner.push(0);
    inner.extend_from_slice(body);
    let mut out = (0x4000_0000u32 | inner.len() as u32).to_be_bytes().to_vec();
    out.extend(inner);
    out
}

fn friend_element(alias: &str, file: &str, tree: &str) -> Vec<u8> {
    let mut body = tnamed(alias, file);
    body.extend(tstring(tree));
    new_class_object("TFriendElement", &counted(2, &body))
}

fn list_body(entries: &[Vec<u8>]) -> Vec<u8> {
    let mut body = tobject();
    body.extend(tstring(""));
    body.extend_from_slice(&(entries.len() as i32).to_be_bytes());
    for e in entries {
        body.extend_from_slice(e);
        body.extend(tstring(""));
    }
    body
}

#[test]
fn reads_friends_through_the_object_protocol() {
    let entries = vec![
        friend_element("ft", "", "friend_tree"),
        friend_element("other", "other.root", "t2"),
        new_class_object("TNamed", &tnamed("not", "a friend")),
    ];
    let mut bytes = new_class_object("TList", &counted(5, &list_body(&entries)));
    let len = bytes.len();
    bytes.extend_from_slice(&[7, 7]);
    let mut r = RBuffer::new(&bytes);
    let mut tags = TagReader::new(0);
    let friends: Vec<Friend> = read_friends(&mut r, &mut tags).unwrap();
    assert_eq!(friends.len(), 2);
    assert_eq!(friends[0].tree_name(), "friend_tree");
    assert_eq!(friends[0].alias(), "ft");
    assert_eq!(friends[0].file_name(), "");
    assert!(friends[0].is_same_file());
    assert_eq!(friends[1].tree_name(), "t2");
    assert_eq!(friends[1].file_name(), "other.root");
    assert!(!friends[1].is_same_file());
    assert_eq!(r.pos(), len);
}

#[test]
fn a_null_friend_list_is_empty() {
    let bytes = [0u8, 0, 0, 0, 9];
    let mut r = RBuffer::new(&bytes);
    let mut tags = TagReader::new(0);
    assert!(read_friends(&mut r, &mut tags).unwrap().is_empty());
    assert_eq!(r.pos(), 4);
}

#[test]
fn an_inline_list_opens_on_its_version_header() {
    let bytes = counted(5, &list_body(&[friend_element("a", "", "t")]));
    let mut r = RBuffer::new(&bytes);
    let mut tags = TagReader::new(0);
    let (end, n) = open_tlist(&mut r, &mut tags).unwrap();
    assert_eq!(end, Some(bytes.len()));
    assert_eq!(n, 1);
    let mut r = RBuffer::new(&bytes);
    let friends = read_friends(&mut r, &mut tags).unwrap();
    assert_eq!(friends[0].tree_name(), "t");
}

#[test]
fn a_truncated_friend_list_is_an_error() {
    let entries = vec![friend_element("ft", "", "friend_tree")];
    let bytes = new_class_object("TList", &counted(5, &list_body(&entries)));
    let mut r = RBuffer::new(&bytes[..bytes.len() - 8]);
    let mut tags = TagReader::new(0);
    assert!(read_friends(&mut r, &mut tags).is_err());
}

#[test]
fn class_references_resolve_to_the_recorded_name() {
    let first = new_class_object("TFoo", &[1, 2]);
    let mut bytes = first.clone();
    bytes.extend_from_slice(&(0x4000_0000u32 | 4).to_be_bytes());
    bytes.extend_from_slice(&(0x8000_0000u32 | 106).to_be_bytes());
    bytes.extend_from_slice(&0u32.to_be_bytes());
    let mut r = RBuffer::new(&bytes);
    let mut tags = TagReader::new(100);
    let h1 = tags.read_header(&mut r).unwrap();
    assert_eq!(h1.class_name.as_deref(), Some(&b"TFoo"[..]));
    assert_eq!(h1.end, Some(first.len()));
    r.seek(first.len()).unwrap();
    let h2 = tags.read_header(&mut r).unwrap();
    assert_eq!(h2.class_name.as_deref(), Some(&b"TFoo"[..]));
    assert_eq!(h2.end, Some(first.len() + 8));
    let h3 = tags.read_header(&mut r).unwrap();
    assert_eq!(h3.class_name, None);
    assert_eq!(h3.end, None);
    assert_eq!(tags.read_header(&mut r).unwrap_err(), Error::UnexpectedEnd);
}

#[test]
fn reads_tobject_and_tnamed() {
    let mut bytes = tobject();
    bytes.extend(tnamed("tree", "a title"));
    let mut r = RBuffer::new(&bytes);
    read_tobject(&mut r).unwrap();
    assert_eq!(r.pos(), 10);
    let named = read_tnamed(&mut r).unwrap();
    assert_eq!(named.name, "tree");
    assert_eq!(named.title, "a title");
    assert_eq!(r.remaining(), 0);
    // A referenced TObject carries a trailing process id.
    let mut referenced = 1u16.to_be_bytes().to_vec();
    referenced.extend_from_slice(&0u32.to_be_bytes());
    referenced.extend_from_slice(&0x10u32.to_be_bytes());
    referenced.extend_from_slice(&[0, 3]);
    let mut r = RBuffer::new(&referenced);
    read_tobject(&mut r).unwrap();
    assert_eq!(r.remaining(), 0);
}

#[test]
fn leaf_titles_give_array_shapes() {
    assert_eq!(parse_dims("x[2][3]"), vec![2, 3]);
    assert_eq!(parse_dims("x[5]"), vec![5]);
    assert_eq!(parse_dims("x"), Vec::<usize>::new());
    assert_eq!(parse_dims("x[n][4]"), vec![4]);
    assert_eq!(parse_dims("x[3"), Vec::<usize>::new());
}

#[test]
fn rbuffer_reads_primitives_and_strings() {
    let mut bytes = vec![0x12, 0x34, 0xff, 0xff, 0xff, 0xfe];
    bytes.extend(tstring("abc"));
    bytes.push(255);
    bytes.extend_from_slice(&2u32.to_be_bytes());
    bytes.extend_from_slice(b"xy");
    let mut r = RBuffer::new(&bytes);
    assert_eq!(r.be_u16().unwrap(), 0x1234);
    assert_eq!(r.be_i32().unwrap(), -2);
    assert_eq!(r.string().unwrap(), "abc");
    assert_eq!(r.string().unwrap(), "xy");
    assert_eq!(r.remaining(), 0);
    assert_eq!(r.u8().unwrap_err(), Error::UnexpectedEnd);
    assert!(r.seek(bytes.len() + 1).is_err());
    r.seek(0).unwrap();
    let vh = r.read_version().unwrap();
    assert_eq!(vh.version, 0x1234);
    assert_eq!(vh.end, None);
    let c = counted(7, &[1, 2, 3]);
    let mut r = RBuffer::new(&c);
    let vh = r.read_version().unwrap();
    assert_eq!(vh.version, 7);
    assert_eq!(vh.end, Some(c.len()));
}
