use nzb_core::server_fingerprint;

fn servers(names: &[&str]) -> Vec<String> {
    names.iter().map(|s| s.to_string()).collect()
}

fn fingerprint(names: &[&str]) -> String {
    server_fingerprint(&servers(names))
}

#[test]
fn fingerprint_is_sorted_distinct_and_joined() {
    assert_eq!(fingerprint(&["b", "a", "c"]), "a,b,c");
    assert_eq!(fingerprint(&["news.b", "news.a", "news.b"]), "news.a,news.b");
    assert_eq!(fingerprint(&["a"]), "a");
    assert_eq!(fingerprint(&[]), "");
}

#[test]
fn fingerprint_ignores_order_and_repetition() {
    assert_eq!(fingerprint(&["x", "y", "x"]), fingerprint(&["y", "x"]));
}

#[test]
fn fingerprint_changes_with_every_added_or_removed_provider() {
    assert_ne!(fingerprint(&["a", "b"]), fingerprint(&["a", "b", "c"]));
    assert_ne!(fingerprint(&["a", "b"]), fingerprint(&["a"]));
    assert_ne!(fingerprint(&["a"]), fingerprint(&["a", ""]));
    assert_ne!(fingerprint(&["a,b"]), fingerprint(&["a,b", "a"]));
}

#[test]
fn a_lone_nameless_provider_is_told_from_none() {
    assert_eq!(fingerprint(&[""]), ",,");
    assert_ne!(fingerprint(&[""]), fingerprint(&[]));
    assert_eq!(fingerprint(&["", "a"]), ",a");
}

#[test]
fn commas_in_names_are_escaped() {
    assert_eq!(fingerprint(&["a,b"]), r",,a\cb");
    assert_eq!(fingerprint(&["c\\d", "a,b"]), r",,a\cb,c\\d");
    assert_eq!(fingerprint(&[",", ""]), r",,,\c");
    assert_eq!(fingerprint(&[",,a"]), r",,\c\ca");
    // Without a comma in any name, backslashes stand for themselves.
    assert_eq!(fingerprint(&["a\\b", "c"]), r"a\b,c");
    assert_ne!(fingerprint(&["a,b"]), fingerprint(&["a", "b"]));
    assert_ne!(fingerprint(&["ab"]), fingerprint(&["a", "b"]));
}

#[test]
fn every_set_of_servers_has_its_own_fingerprint() {
    let names = ["", ",", "a", "b", "a,b", "\\", "\\c", "a\\cb", ",,a"];
    let mut found: Vec<String> = Vec::new();
    for set in 0..1usize << names.len() {
        let chosen: Vec<&str> =
            (0..names.len()).filter(|i| set >> i & 1 == 1).map(|i| names[i]).collect();
        found.push(fingerprint(&chosen));
    }
    found.sort_unstable();
    found.dedup();
    assert_eq!(found.len(), 1 << names.len());
}

#[test]
fn names_are_ordered_as_strings_are() {
    let mut names = vec![
        "z", "\u{e9}", "a", "ab", "aB", "", "\u{ffff}", "\u{10000}", "A", "\u{7ff}", "\u{800}", "a",
        "\u{d7ff}", "\u{e000}",
    ];
    let found = fingerprint(&names);
    names.sort_unstable();
    names.dedup();
    assert_eq!(found, names.join(","));
}
