use dotz::paths::{join, lies_within};
use std::path::Path;

#[test]
fn join_puts_one_separator() {
    assert_eq!(join("/home/u", "a.txt"), "/home/u/a.txt");
    assert_eq!(join("/home/u/", "a.txt"), "/home/u/a.txt");
    assert_eq!(join("/", "a.txt"), "/a.txt");
    assert_eq!(join("", "a.txt"), "a.txt");
    assert_eq!(join("rel", ".dotzignore"), "rel/.dotzignore");
}

#[test]
fn join_agrees_with_std_on_names() {
    let dirs = ["", "/", "/a", "/a/", "a", "a/b", "/a/b/"];
    let names = ["x", ".dotfiles", "x.y", "é"];
    for dir in dirs.iter() {
        for name in names.iter() {
            let expected = Path::new(dir).join(name);
            assert_eq!(join(dir, name), expected.to_str().unwrap());
        }
    }
}

#[test]
fn lies_within_goes_by_components() {
    assert!(lies_within("/s/sub", "/s/sub"));
    assert!(lies_within("/s/sub/x", "/s/sub"));
    assert!(lies_within("/s/sub/x/y", "/s/sub"));
    assert!(!lies_within("/s/sub2/x", "/s/sub"));
    assert!(!lies_within("/s/sub2", "/s/sub"));
    assert!(!lies_within("/s", "/s/sub"));
    assert!(lies_within("/s", "/"));
    assert!(lies_within("/", "/"));
    assert!(lies_within("/s/x", "/s/"));
    assert!(!lies_within("/sx", "/s/"));
    assert!(lies_within("anything", ""));
}

#[test]
fn what_is_joined_lies_within() {
    let dirs = ["", "/", "/a", "/a/", "a/b"];
    let names = ["x", "x/y", ".dotzignore"];
    for dir in dirs.iter() {
        for name in names.iter() {
            assert!(lies_within(&join(dir, name), dir));
        }
    }
}
