use git_cred::bytes::{bytes_eq, ends_with, is_hidden, normalize_newlines, parse_marker};
use git_cred::errors::StoreError;
use git_cred::policy::{create_sub_dir, effective_recipients, DirTree};

fn b(s: &str) -> Vec<u8> {
    s.as_bytes().to_vec()
}

fn path(parts: &[&str]) -> Vec<Vec<u8>> {
    parts.iter().map(|p| b(p)).collect()
}

fn empty_dir(marker: Option<Vec<Vec<u8>>>) -> DirTree {
    DirTree { marker, files: Vec::new(), subdirs: Vec::new() }
}

#[test]
fn bytes_eq_basic() {
    assert!(bytes_eq(&b("abc"), &b("abc")));
    assert!(!bytes_eq(&b("abc"), &b("abd")));
    assert!(!bytes_eq(&b("abc"), &b("ab")));
    assert!(bytes_eq(&b(""), &b("")));
}

#[test]
fn ends_with_basic() {
    assert!(ends_with(&b("0123456789ABCDEF"), &b("ABCDEF")));
    assert!(ends_with(&b("abc"), &b("")));
    assert!(!ends_with(&b("abc"), &b("abcd")));
    assert!(!ends_with(&b("abc"), &b("ab")));
}

#[test]
fn hidden_names() {
    assert!(is_hidden(&b(".gpg_id")));
    assert!(is_hidden(&b(".keys")));
    assert!(!is_hidden(&b("secret")));
    assert!(!is_hidden(&b("")));
}

#[test]
fn normalize_newlines_exact() {
    assert_eq!(normalize_newlines(&b("a\r\nb\r\nc")), b("a\nb\nc"));
    assert_eq!(normalize_newlines(&b("plain")), b("plain"));
    assert_eq!(normalize_newlines(&b("")), b(""));
    // A carriage return not followed by a line feed stays.
    assert_eq!(normalize_newlines(&b("a\rb")), b("a\rb"));
}

#[test]
fn parse_marker_lines() {
    assert_eq!(parse_marker(&b("alice@example.com\nbob\n")), vec![b("alice@example.com"), b("bob")]);
    assert_eq!(parse_marker(&b("alice")), vec![b("alice")]);
    assert_eq!(parse_marker(&b("\n\nalice\n\nbob\n\n")), vec![b("alice"), b("bob")]);
    assert_eq!(parse_marker(&b("")), Vec::<Vec<u8>>::new());
    assert_eq!(parse_marker(&b("\n")), Vec::<Vec<u8>>::new());
}

#[test]
fn effective_inherits_root_without_override() {
    // No directory on the way carries a marker: the root list applies.
    let mut tree = empty_dir(Some(vec![b("alice@example.com")]));
    let ids = effective_recipients(&mut tree, &path(&["foo", "bar", "baz"])).unwrap();
    assert_eq!(ids, vec![b("alice@example.com")]);
    // The walk created the missing directories, which inherit.
    assert_eq!(tree.subdirs.len(), 1);
    assert_eq!(tree.subdirs[0].name, b("foo"));
    assert!(tree.subdirs[0].tree.marker.is_none());
    assert_eq!(tree.subdirs[0].tree.subdirs[0].name, b("bar"));
    // The final segment is a file name and creates no directory.
    assert!(tree.subdirs[0].tree.subdirs[0].tree.subdirs.is_empty());
}

#[test]
fn effective_override_replaces() {
    // An intermediate marker replaces the inherited list entirely.
    let mut sub = empty_dir(Some(vec![b("bob")]));
    sub.subdirs.push(git_cred::policy::SubDir { name: b("inner"), tree: empty_dir(None) });
    let mut tree = empty_dir(Some(vec![b("alice"), b("carol")]));
    tree.subdirs.push(git_cred::policy::SubDir { name: b("foo"), tree: sub });

    let ids = effective_recipients(&mut tree, &path(&["foo", "x"])).unwrap();
    assert_eq!(ids, vec![b("bob")]);
    let ids = effective_recipients(&mut tree, &path(&["foo", "inner", "x"])).unwrap();
    assert_eq!(ids, vec![b("bob")]);
    // A sibling path without the override still gets the root list.
    let ids = effective_recipients(&mut tree, &path(&["other", "x"])).unwrap();
    assert_eq!(ids, vec![b("alice"), b("carol")]);
}

#[test]
fn effective_requires_root_marker() {
    let mut tree = empty_dir(None);
    let r = effective_recipients(&mut tree, &path(&["foo"]));
    assert!(matches!(r, Err(StoreError::MissingRootPolicy)));
}

#[test]
fn create_sub_dir_writes_marker() {
    let mut tree = empty_dir(Some(vec![b("alice")]));
    create_sub_dir(&mut tree, &path(&["sub"]), vec![b("bob")], None);
    assert_eq!(tree.subdirs.len(), 1);
    assert_eq!(tree.subdirs[0].name, b("sub"));
    assert_eq!(tree.subdirs[0].tree.marker, Some(vec![b("bob")]));
}

#[test]
fn create_sub_dir_defaults_to_email() {
    let mut tree = empty_dir(Some(vec![b("alice")]));
    let email = b("me@example.com");
    create_sub_dir(&mut tree, &path(&["sub"]), Vec::new(), Some(&email));
    assert_eq!(tree.subdirs[0].tree.marker, Some(vec![b("me@example.com")]));
}

#[test]
fn create_sub_dir_defaults_to_empty() {
    let mut tree = empty_dir(Some(vec![b("alice")]));
    create_sub_dir(&mut tree, &path(&["sub"]), Vec::new(), None);
    assert_eq!(tree.subdirs[0].tree.marker, Some(Vec::new()));
}
