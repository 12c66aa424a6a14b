use nzb_core::path::{relative_parts, safe_component, safe_join};
use std::path::{Path, PathBuf};

fn joined(name: &str) -> Option<PathBuf> {
    safe_join(Path::new("/tmp/job"), name)
}

#[test]
fn pieces_are_joined_beneath_the_root() {
    assert_eq!(joined("folder/file.txt"), Some(PathBuf::from("/tmp/job/folder/file.txt")));
    assert_eq!(joined("a/./b//c/"), Some(PathBuf::from("/tmp/job/a/b/c")));
    assert_eq!(joined("..."), Some(PathBuf::from("/tmp/job/...")));
    assert_eq!(joined("a..b/.c"), Some(PathBuf::from("/tmp/job/a..b/.c")));
    assert_eq!(joined("\u{fc}/\u{1f600}"), Some(PathBuf::from("/tmp/job/\u{fc}/\u{1f600}")));
    assert_eq!(safe_join(Path::new(""), "a/b"), Some(PathBuf::from("a/b")));
    assert_eq!(safe_join(Path::new("rel/"), "a"), Some(PathBuf::from("rel/a")));
}

#[test]
fn names_without_named_pieces_give_the_root() {
    assert_eq!(joined("."), Some(PathBuf::from("/tmp/job")));
    assert_eq!(joined("./"), Some(PathBuf::from("/tmp/job")));
}

#[test]
fn backslashes_are_separators() {
    assert_eq!(joined(r"a\b\c"), joined("a/b/c"));
    assert_eq!(joined(r"a\..\b"), None);
    assert_eq!(joined(r"\a"), None);
    assert_eq!(relative_parts(r"a\.\b"), Some(vec!["a", "b"]));
}

#[test]
fn any_separator_may_be_either() {
    for name in ["a/b/c", r"a\b/c", r"a/b\c", r"a\b\c"] {
        assert_eq!(joined(name), Some(PathBuf::from("/tmp/job/a/b/c")), "{name:?}");
    }
    for name in ["a/../c", r"a\../c", r"a/..\c"] {
        assert_eq!(joined(name), None, "{name:?}");
    }
}

#[test]
fn joining_twice_is_joining_once() {
    for (a, b) in [("a", "b"), ("a/", "./b"), (".", "x"), (r"x\y", "z//w"), ("a/1:2", "b")] {
        let once = joined(&format!("{a}/{b}"));
        assert!(once.is_some());
        assert_eq!(safe_join(&joined(a).unwrap(), b), once);
    }
    assert_eq!(joined("a/b/../c"), None);
    assert_eq!(safe_join(&joined("a/b").unwrap(), "../c"), None);
}

#[test]
fn network_shares_are_roots() {
    for root in [r"\\server\share", r"\\server\share\media", r"\\.\device"] {
        let root = Path::new(root);
        assert_eq!(safe_join(root, "a/b"), Some(root.join("a").join("b")));
        assert_eq!(safe_join(root, r"a\..\b"), None);
    }
}

#[test]
fn inner_colons_are_part_of_a_piece() {
    assert_eq!(joined("a/1:2"), Some(PathBuf::from("/tmp/job/a/1:2")));
    assert_eq!(joined("./1:2/x"), Some(PathBuf::from("/tmp/job/1:2/x")));
    assert_eq!(relative_parts("a/b:c/d:"), Some(vec!["a", "b:c", "d:"]));
    // Where a drive prefix replaces the path, nothing is joined.
    let drive = joined("a/b:c/d:e");
    assert!(drive.is_none() || drive == Some(PathBuf::from("/tmp/job/a/b:c/d:e")));
}

#[test]
fn unsafe_names_are_refused() {
    for name in [
        "", "/", "a/..", "a/../b", "..", "c:", "c:/x", "1:2", "a\u{0}b", "a\n", "x\u{7f}",
        "x\u{85}",
    ] {
        assert_eq!(joined(name), None, "{name:?}");
    }
    // A colon is refused behind a single byte only.
    assert!(joined("\u{e9}:x").is_some());
    assert!(joined("ab:c").is_some());
    assert!(joined("x\u{a0}y").is_some());
}

#[test]
fn parts_of_a_safe_name_are_safe_components() {
    let parts = relative_parts("one/./two//three").unwrap();
    assert_eq!(parts, vec!["one", "two", "three"]);
    for part in parts {
        assert_eq!(safe_component(part), Some(part));
    }
}

#[test]
fn safe_components_join_as_themselves() {
    for value in ["movies", "tv shows", "...", ".hidden", "\u{fc}"] {
        assert_eq!(safe_component(value), Some(value));
        assert_eq!(relative_parts(value), Some(vec![value]));
    }
    // A drive prefix is a component, but no relative name.
    assert_eq!(safe_component("c:"), Some("c:"));
    assert_eq!(relative_parts("c:"), None);
}

#[test]
fn unsafe_components_are_refused() {
    for value in ["", ".", "..", "a/b", r"a\b", "/", "a\tb", "\u{9f}"] {
        assert_eq!(safe_component(value), None, "{value:?}");
    }
}

#[test]
fn result_begins_with_the_root() {
    let root = Path::new("/srv/data");
    for name in ["a", "a/b", ".", r"x\y\z", "a/c:/b"] {
        assert!(safe_join(root, name).unwrap().starts_with(root));
    }
}
