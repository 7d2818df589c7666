//! Sorted sets and name maps agree with those of the standard library.
use std::collections::{BTreeMap, BTreeSet};
use turbo_go::collections::{NameMap, SortedSet};
use turbo_go::listing::ExternalPackageIdentity;
use turbo_go::order::Ordered;
use turbo_go::path::AnchoredPath;

#[test]
fn sorted_sets_sort_and_deduplicate() {
    let words = ["go.sum", "b", "a", "", "b", "é", "ab", "go.mod", "\u{1f600}", "a"];
    let mut ours: SortedSet<String> = SortedSet::new();
    let mut theirs: BTreeSet<String> = BTreeSet::new();
    for word in words {
        assert_eq!(ours.insert(word.to_string()), theirs.insert(word.to_string()));
    }
    assert!(ours.contains(&"é".to_string()));
    assert!(!ours.contains(&"z".to_string()));
    assert_eq!(ours.as_vec(), &theirs.iter().cloned().collect::<Vec<_>>());
    assert_eq!(ours.into_vec(), theirs.into_iter().collect::<Vec<_>>());
}

#[test]
fn sorted_sets_hold_pairs() {
    let pairs = [("b", "1"), ("a", "2"), ("a", "1"), ("b", "1")];
    let mut ours: SortedSet<(String, String)> = SortedSet::new();
    for (a, b) in pairs {
        ours.insert((a.to_string(), b.to_string()));
    }
    let expected: Vec<(String, String)> = [("a", "1"), ("a", "2"), ("b", "1")]
        .iter()
        .map(|(a, b)| (a.to_string(), b.to_string()))
        .collect();
    assert_eq!(ours.into_vec(), expected);
}

#[test]
fn identities_are_ordered_by_key_version_and_name() {
    let identity = |key: &str, version: &str| {
        ExternalPackageIdentity::new(key.to_string(), version.to_string())
    };
    assert!(identity("a", "2").precedes(&identity("b", "1")));
    assert!(identity("a", "1").precedes(&identity("a", "2")));
    assert!(identity("a", "1").precedes(&identity("a", "1").with_human_name("x".to_string())));
    assert!(!identity("a", "1").precedes(&identity("a", "1")));
    assert!(!identity("b", "1").precedes(&identity("a", "2")));
}

#[test]
fn paths_are_ordered_by_components() {
    let path = |parts: &[&str]| AnchoredPath {
        components: parts.iter().map(|part| part.to_string()).collect(),
    };
    assert!(path(&["a"]).precedes(&path(&["a", "b"])));
    assert!(path(&["a", "z"]).precedes(&path(&["a.b"])));
    assert!(!path(&["b"]).precedes(&path(&["a", "z"])));
    assert!(!path(&[]).precedes(&path(&[])));
}

#[test]
fn name_maps_replace_what_they_hold() {
    let mut ours: NameMap<String> = NameMap::new();
    let mut theirs: BTreeMap<String, String> = BTreeMap::new();
    for (name, value) in [("a", "1"), ("b", "2"), ("a", "3"), ("", "4")] {
        ours.insert(name.to_string(), value.to_string());
        theirs.insert(name.to_string(), value.to_string());
    }
    for name in ["a", "b", "", "c"] {
        assert_eq!(ours.get(name), theirs.get(name));
    }
}
