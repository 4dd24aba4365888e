use cpxor::relpath::{
    bytes_eq, copy_bytes, copy_destination, file_name_of, join_path, parent_of, replace_prefix,
    set_or_push, strip_prefix,
};

#[test]
fn strip_prefix_removes_component_prefix() {
    let p = b"mod/sub/a.txt".to_vec();
    let pre = b"mod".to_vec();
    assert_eq!(strip_prefix(&p, &pre), Some(b"sub/a.txt".to_vec()));
}

#[test]
fn strip_prefix_of_whole_path_is_empty() {
    let p = b"mod".to_vec();
    let pre = b"mod".to_vec();
    assert_eq!(strip_prefix(&p, &pre), Some(Vec::new()));
}

#[test]
fn strip_prefix_empty_prefix_returns_path() {
    let p = b"a/b".to_vec();
    assert_eq!(strip_prefix(&p, &Vec::new()), Some(b"a/b".to_vec()));
}

#[test]
fn strip_prefix_requires_component_boundary() {
    let p = b"modified/a.txt".to_vec();
    let pre = b"mod".to_vec();
    assert_eq!(strip_prefix(&p, &pre), None);
}

#[test]
fn strip_prefix_mismatch_is_none() {
    let p = b"other/a.txt".to_vec();
    let pre = b"mod".to_vec();
    assert_eq!(strip_prefix(&p, &pre), None);
}

#[test]
fn join_path_inserts_separator() {
    assert_eq!(join_path(&b"out".to_vec(), &b"a/b".to_vec()), b"out/a/b".to_vec());
}

#[test]
fn join_path_with_empty_side() {
    assert_eq!(join_path(&Vec::new(), &b"a".to_vec()), b"a".to_vec());
    assert_eq!(join_path(&b"a".to_vec(), &Vec::new()), b"a".to_vec());
}

#[test]
fn parent_of_splits_at_last_separator() {
    assert_eq!(parent_of(&b"a/b/c.txt".to_vec()), Some(b"a/b".to_vec()));
    assert_eq!(parent_of(&b"c.txt".to_vec()), Some(Vec::new()));
    assert_eq!(parent_of(&Vec::new()), None);
}

#[test]
fn file_name_of_takes_last_component() {
    assert_eq!(file_name_of(&b"a/b/c.txt".to_vec()), b"c.txt".to_vec());
    assert_eq!(file_name_of(&b"c.txt".to_vec()), b"c.txt".to_vec());
}

#[test]
fn replace_prefix_carries_path_between_trees() {
    let src = b"mod/sub".to_vec();
    let got = replace_prefix(Some(&src), &b"mod".to_vec(), &b"base".to_vec());
    assert_eq!(got, Some(b"base/sub".to_vec()));
}

#[test]
fn replace_prefix_none_maps_to_none() {
    assert_eq!(replace_prefix(None, &b"mod".to_vec(), &b"base".to_vec()), None);
}

#[test]
fn copy_destination_mirrors_relative_path() {
    let dest = copy_destination(
        &b"out".to_vec(),
        &b"mod".to_vec(),
        &b"mod/sub/f.txt".to_vec(),
    );
    assert_eq!(dest, b"out/sub/f.txt".to_vec());
}

#[test]
fn copy_destination_top_level_file() {
    let dest = copy_destination(&b"out".to_vec(), &b"mod".to_vec(), &b"mod/f.txt".to_vec());
    assert_eq!(dest, b"out/f.txt".to_vec());
}

#[test]
fn set_or_push_appends_at_end() {
    let mut v = vec![1u32, 2];
    set_or_push(&mut v, 2, 5);
    assert_eq!(v, vec![1, 2, 5]);
}

#[test]
fn set_or_push_overwrites_existing_slot() {
    let mut v = vec![1u32, 2];
    set_or_push(&mut v, 0, 5);
    assert_eq!(v, vec![5, 2]);
}

#[test]
fn bytes_eq_compares_contents() {
    assert!(bytes_eq(&b"abc".to_vec(), &b"abc".to_vec()));
    assert!(!bytes_eq(&b"abc".to_vec(), &b"abd".to_vec()));
    assert!(!bytes_eq(&b"abc".to_vec(), &b"ab".to_vec()));
}

#[test]
fn copy_bytes_is_identical() {
    let v = b"some/path".to_vec();
    assert_eq!(copy_bytes(&v), v);
}
