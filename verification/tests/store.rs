use kv::errors::Error;
use kv::store::{MemStorage, Storage};

#[test]
fn round_trip_returns_stored_value() {
    let mut storage = MemStorage::new();
    storage.set("foo/bar/test_key", "test_value").unwrap();
    let result = storage.get("foo/bar/test_key").unwrap();
    assert_eq!(result, "test_value");
}

#[test]
fn round_trip_overwrites() {
    let mut storage = MemStorage::new();
    storage.set("k", "first").unwrap();
    storage.set("k", "second").unwrap();
    assert_eq!(storage.get("k").unwrap(), "second");
}

#[test]
fn get_missing_key_is_invalid_key() {
    let storage = MemStorage::new();
    let result = storage.get("absent");
    assert!(matches!(result, Err(Error::InvalidKey(_))));
}

#[test]
fn remove_then_get_fails_with_invalid_key() {
    let mut storage = MemStorage::new();
    storage.set("a/b", "v").unwrap();
    storage.remove("a/b", false).unwrap();
    let result = storage.get("a/b");
    assert!(matches!(result, Err(Error::InvalidKey(_))));
}

#[test]
fn remove_missing_key_is_io_error() {
    let mut storage = MemStorage::new();
    let result = storage.remove("absent", false);
    assert!(matches!(result, Err(Error::IO(_))));
}

#[test]
fn remove_directory_without_recursive_is_invalid_key() {
    let mut storage = MemStorage::new();
    storage.set("dir/leaf", "v").unwrap();
    let result = storage.remove("dir", false);
    assert!(matches!(result, Err(Error::InvalidKey(_))));
    assert_eq!(storage.get("dir/leaf").unwrap(), "v");
}

#[test]
fn remove_directory_recursively_drops_subtree() {
    let mut storage = MemStorage::new();
    storage.set("dir/a", "1").unwrap();
    storage.set("dir/sub/b", "2").unwrap();
    storage.set("other", "3").unwrap();
    storage.remove("dir", true).unwrap();
    assert!(storage.get("dir/a").is_err());
    assert!(storage.get("dir/sub/b").is_err());
    assert_eq!(storage.get("other").unwrap(), "3");
}

#[test]
fn recursive_removal_keeps_a_leaf_sharing_the_directory_name() {
    let mut storage = MemStorage::new();
    storage.set("a", "leaf").unwrap();
    storage.set("a/b", "1").unwrap();
    storage.remove("a", true).unwrap();
    assert!(storage.get("a/b").is_err());
    assert_eq!(storage.get("a").unwrap(), "leaf");
}

#[test]
fn end_to_end_scenario() {
    let mut storage = MemStorage::new();
    let key = "foo/bar/test_key";
    let value = "test_value";
    storage.set(key, value).unwrap();
    let result = storage.get(key).unwrap();
    assert_eq!(result, value);
    storage.remove(key, true).unwrap();
    let result = storage.get(key);
    assert!(result.is_err());
}

#[test]
fn list_returns_keys_under_prefix() {
    let mut storage = MemStorage::new();
    storage.set("a/b", "1").unwrap();
    storage.set("a/c", "2").unwrap();
    storage.set("z", "3").unwrap();
    let mut keys = storage.list("a").unwrap();
    keys.sort();
    assert_eq!(keys, vec!["a/b".to_string(), "a/c".to_string()]);
}

#[test]
fn list_prefix_match_is_not_segment_aware() {
    let mut storage = MemStorage::new();
    storage.set("foo/bar", "1").unwrap();
    storage.set("former", "2").unwrap();
    storage.set("other", "3").unwrap();
    let mut keys = storage.list("fo").unwrap();
    keys.sort();
    assert_eq!(keys, vec!["foo/bar".to_string(), "former".to_string()]);
}

#[test]
fn list_of_empty_prefix_returns_everything() {
    let mut storage = MemStorage::new();
    storage.set("a", "1").unwrap();
    storage.set("b/c", "2").unwrap();
    let mut keys = storage.list("").unwrap();
    keys.sort();
    assert_eq!(keys, vec!["a".to_string(), "b/c".to_string()]);
}
