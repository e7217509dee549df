use good_git::object::{Blob, Entry, Object, ObjectKind, Tree};
use good_git::render::{references, render, render_entry};

const H1: &str = "d670460b4b4aece5915caf5c68d12f560a9fe3e4";
const H2: &str = "1234567890abcdef1234567890abcdef12345678";

fn entry(mode: &str, name: &str, hash: &str) -> Entry {
    Entry {
        mode: mode.as_bytes().to_vec(),
        name: name.as_bytes().to_vec(),
        hash: hash.to_string(),
    }
}

fn sample_tree() -> Object {
    Object::Tree(Tree {
        entries: vec![entry("100644", "test.txt", H1), entry("100644", "more.txt", H2)],
    })
}

#[test]
fn a_blob_renders_as_its_content_and_a_newline() {
    let object = Object::Blob(Blob::new(b"test content\n".to_vec()));
    let mut out = Vec::new();
    render(&object, &vec![], &mut out);
    assert_eq!(out, b"test content\n\n");
}

#[test]
fn an_empty_blob_renders_as_a_newline() {
    let mut out = Vec::new();
    render(&Object::Blob(Blob::new(vec![])), &vec![], &mut out);
    assert_eq!(out, b"\n");
}

#[test]
fn a_tree_renders_one_line_per_entry_in_stored_order() {
    let mut out = Vec::new();
    render(&sample_tree(), &vec![ObjectKind::Blob, ObjectKind::Blob], &mut out);
    assert_eq!(
        String::from_utf8(out).unwrap(),
        "100644 blob d670460b4b4aece5915caf5c68d12f560a9fe3e4\ttest.txt\n\
         100644 blob 1234567890abcdef1234567890abcdef12345678\tmore.txt\n"
    );
}

#[test]
fn a_tree_line_names_the_kind_it_was_given() {
    let mut out = Vec::new();
    render(&sample_tree(), &vec![ObjectKind::Tree, ObjectKind::Blob], &mut out);
    assert_eq!(
        String::from_utf8(out).unwrap(),
        "100644 tree d670460b4b4aece5915caf5c68d12f560a9fe3e4\ttest.txt\n\
         100644 blob 1234567890abcdef1234567890abcdef12345678\tmore.txt\n"
    );
}

#[test]
fn an_empty_tree_renders_as_nothing() {
    let mut out = b"kept".to_vec();
    render(&Object::Tree(Tree { entries: vec![] }), &vec![], &mut out);
    assert_eq!(out, b"kept");
}

#[test]
fn render_entry_writes_one_line() {
    let mut out = Vec::new();
    render_entry(&entry("40000", "src", H2), ObjectKind::Tree, &mut out);
    assert_eq!(out, b"40000 tree 1234567890abcdef1234567890abcdef12345678\tsrc\n");
}

#[test]
fn renderings_follow_each_other_in_one_sink() {
    let mut out = Vec::new();
    let blob = Object::Blob(Blob::new(b"more content\nfrom a good client".to_vec()));
    render(&blob, &vec![], &mut out);
    render(&sample_tree(), &vec![ObjectKind::Blob, ObjectKind::Blob], &mut out);
    assert_eq!(
        String::from_utf8(out).unwrap(),
        "more content\nfrom a good client\n\
         100644 blob d670460b4b4aece5915caf5c68d12f560a9fe3e4\ttest.txt\n\
         100644 blob 1234567890abcdef1234567890abcdef12345678\tmore.txt\n"
    );
}

#[test]
fn references_are_the_hashes_of_the_entries() {
    assert_eq!(references(&sample_tree()), vec![H1.to_string(), H2.to_string()]);
    assert_eq!(references(&Object::Blob(Blob::new(b"abc".to_vec()))), Vec::<String>::new());
    assert_eq!(references(&Object::Tree(Tree { entries: vec![] })), Vec::<String>::new());
}
