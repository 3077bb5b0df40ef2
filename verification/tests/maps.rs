use foundry_compilers::maps::{self, PathMap, PathSet, TextMap};
use std::collections::{BTreeMap, BTreeSet};
use std::path::PathBuf;

fn paths() -> Vec<&'static str> {
    vec![
        "b/c", "a", "a/b", "/a", "./a", "../a", "a.b", "a-b", "a/b/c", "B", "/", "", ".", "..", "ä",
        "a//b", "a/./b", "a b", "/a/../b",
    ]
}

#[test]
fn text_maps_are_ordered_as_those_of_std() {
    let mut ours: TextMap<usize> = TextMap::new();
    let mut theirs: BTreeMap<String, usize> = BTreeMap::new();
    for (i, k) in paths().into_iter().chain(vec!["a", "", "ä"]).enumerate() {
        assert_eq!(ours.insert(k.to_string(), i), theirs.insert(k.to_string(), i));
    }
    assert_eq!(ours.len(), theirs.len());
    for (i, (k, v)) in theirs.iter().enumerate() {
        assert_eq!(ours.key_at(i), k);
        assert_eq!(ours.value_at(i), v);
        assert_eq!(ours.get(k), Some(v));
        assert!(ours.contains(k));
    }
    assert!(!ours.contains("zz"));
    assert_eq!(ours.get("zz"), None);
    let copy = ours.clone();
    let entries: Vec<(String, usize)> = theirs.into_iter().collect();
    assert_eq!(copy.into_entries(), entries);
}

#[test]
fn path_maps_are_ordered_as_those_of_std() {
    let mut ours: PathMap<usize> = PathMap::new();
    let mut theirs: BTreeMap<PathBuf, usize> = BTreeMap::new();
    for (i, k) in paths().into_iter().enumerate() {
        assert_eq!(ours.insert(k.to_string(), i), theirs.insert(PathBuf::from(k), i), "{k}");
    }
    assert_eq!(ours.len(), theirs.len());
    for (i, (k, v)) in theirs.iter().enumerate() {
        assert_eq!(ours.key_at(i), k.to_str().unwrap());
        assert_eq!(ours.value_at(i), v);
    }
    assert!(ours.contains("a///b"));
    assert!(!ours.contains("a/c"));
}

#[test]
fn path_sets_hold_each_path_once() {
    let mut ours = PathSet::new();
    let mut theirs: BTreeSet<PathBuf> = BTreeSet::new();
    for k in ["b", "a/", "a", "./a", "a/."] {
        ours.insert(k.to_string(), ());
        theirs.insert(PathBuf::from(k));
    }
    let list: Vec<String> = ours.into_entries().into_iter().map(|e| e.0).collect();
    let expected: Vec<String> = theirs.iter().map(|p| p.to_str().unwrap().to_string()).collect();
    assert_eq!(list, expected);
}

#[test]
fn a_later_value_takes_the_place_of_an_earlier_one() {
    let mut map: TextMap<u32> = TextMap::new();
    assert_eq!(map.insert("k".to_string(), 1), None);
    assert_eq!(map.insert("l".to_string(), 2), None);
    assert_eq!(map.insert("k".to_string(), 3), Some(1));
    assert_eq!(map.get("k"), Some(&3));
    assert_eq!(map.get("l"), Some(&2));
    let mut other: TextMap<u32> = TextMap::new();
    other.insert("k".to_string(), 4);
    other.insert("m".to_string(), 5);
    maps::extend(&mut map, other);
    let entries = map.into_entries();
    assert_eq!(
        entries,
        vec![("k".to_string(), 4), ("l".to_string(), 2), ("m".to_string(), 5)]
    );
}

#[test]
fn values_are_pushed_to_the_list_of_their_key() {
    let mut map: PathMap<Vec<u32>> = PathMap::new();
    maps::push_value(&mut map, "a/b", 1);
    maps::push_value(&mut map, "c", 2);
    maps::push_value(&mut map, "a//b", 3);
    assert_eq!(map.get("a/b"), Some(&vec![1, 3]));
    assert_eq!(map.get("c"), Some(&vec![2]));
    assert_eq!(map.len(), 2);
}

#[test]
fn keys_are_joined_stripped_and_slashed() {
    let mut map: TextMap<u32> = TextMap::new();
    map.insert("src/a.sol".to_string(), 1);
    map.insert("/lib/b.sol".to_string(), 2);
    let joined = maps::join_keys(map, "/root");
    assert_eq!(
        joined.into_entries(),
        vec![("/lib/b.sol".to_string(), 2), ("/root/src/a.sol".to_string(), 1)]
    );
    let mut map: PathMap<u32> = PathMap::new();
    map.insert("/root/src/a.sol".to_string(), 1);
    map.insert("/lib/b.sol".to_string(), 2);
    map.insert("src/a.sol".to_string(), 3);
    let stripped = maps::strip_keys(map, "/root");
    assert_eq!(
        stripped.into_entries(),
        vec![("/lib/b.sol".to_string(), 2), ("src/a.sol".to_string(), 3)]
    );
    let mut map: PathMap<u32> = PathMap::new();
    map.insert("src\\inner\\a.sol".to_string(), 1);
    let slashed = maps::slash_keys(map);
    assert_eq!(slashed.into_entries(), vec![("src/inner/a.sol".to_string(), 1)]);
}
