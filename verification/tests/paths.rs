use kv::errors::Error;
use kv::gpg::{decrypt_result, encrypt_result, GpgStorage, RemoveAction};
use kv::paths::{check_key, entry_path, hidden, join_path, key_of_path, list_keys, parent_dir};
use kv::text::{has_prefix, str_eq, strip_suffix, trim_prefix_repeated};

#[test]
fn entry_paths_add_root_and_suffix() {
    assert_eq!(entry_path("/root", "foo/bar"), "/root/foo/bar.gpg");
    assert_eq!(join_path("/root", "foo/bar"), "/root/foo/bar");
}

#[test]
fn parent_is_everything_before_the_last_separator() {
    assert_eq!(parent_dir("foo/bar/baz"), "foo/bar");
    assert_eq!(parent_dir("foo/bar"), "foo");
    assert_eq!(parent_dir("foo"), "");
    assert_eq!(parent_dir(""), "");
}

#[test]
fn hidden_paths_start_with_a_dot() {
    assert!(hidden(".git/config"));
    assert!(!hidden("foo/.bar"));
    assert!(!hidden(""));
}

#[test]
fn valid_keys_are_nonempty_and_not_hidden() {
    assert!(check_key("foo/bar"));
    assert!(!check_key(""));
    assert!(!check_key(".hidden"));
}

#[test]
fn text_helpers_behave_like_their_std_counterparts() {
    assert!(has_prefix("foo/bar", "fo"));
    assert!(!has_prefix("fo", "foo"));
    assert!(str_eq("abc", "abc"));
    assert!(!str_eq("abc", "abd"));
    assert_eq!(trim_prefix_repeated("//a/b", "/"), "a/b");
    assert_eq!(trim_prefix_repeated("abab-ab", "ab"), "-ab");
    assert_eq!(strip_suffix("ab.gpg", ".gpg"), "ab");
    assert_eq!(strip_suffix("a.gpgb.gpg", ".gpg"), "a.gpgb");
    assert_eq!(strip_suffix("x", ".gpg"), "x");
    assert_eq!(strip_suffix(".gpg", ".gpg"), "");
}

#[test]
fn keys_are_derived_from_walked_paths() {
    assert_eq!(key_of_path("/root/foo/bar.gpg", "/root"), "foo/bar");
    assert_eq!(key_of_path("/root/.hidden.gpg", "/root"), ".hidden");
}

#[test]
fn listing_filters_hidden_paths_and_applies_the_prefix() {
    let paths = vec![
        "/root/a/b.gpg".to_string(),
        "/root/a/c.gpg".to_string(),
        "/root/.git/cfg.gpg".to_string(),
        "/root/z.gpg".to_string(),
    ];
    let mut keys = list_keys("/root", &paths, "a");
    keys.sort();
    assert_eq!(keys, vec!["a/b".to_string(), "a/c".to_string()]);
}

#[test]
fn listing_prefix_match_is_plain_text_not_segments() {
    let paths = vec![
        "/root/foo/bar.gpg".to_string(),
        "/root/former.gpg".to_string(),
        "/root/other.gpg".to_string(),
    ];
    let mut keys = list_keys("/root", &paths, "fo");
    keys.sort();
    assert_eq!(keys, vec!["foo/bar".to_string(), "former".to_string()]);
}

#[test]
fn listing_strips_only_the_trailing_suffix() {
    let paths = vec![
        "/root/do.gpgs/key.gpg".to_string(),
        "/root/a.gpgb.gpg".to_string(),
    ];
    let mut keys = list_keys("/root", &paths, "");
    keys.sort();
    assert_eq!(keys, vec!["a.gpgb".to_string(), "do.gpgs/key".to_string()]);
}

#[test]
fn decrypt_invocation_without_identity_uses_the_self_default() {
    let storage = GpgStorage::new("/root", None);
    assert_eq!(
        storage.decrypt_args("foo/bar"),
        vec![
            "--decrypt".to_string(),
            "--output".to_string(),
            "-".to_string(),
            "--default-recipient-self".to_string(),
            "/root/foo/bar.gpg".to_string(),
        ]
    );
}

#[test]
fn decrypt_invocation_with_identity_names_the_recipient() {
    let storage = GpgStorage::new("/root", Some("alice".to_string()));
    assert_eq!(
        storage.decrypt_args("k"),
        vec![
            "--decrypt".to_string(),
            "--output".to_string(),
            "-".to_string(),
            "--default-recipient-self".to_string(),
            "--recipient".to_string(),
            "alice".to_string(),
            "/root/k.gpg".to_string(),
        ]
    );
}

#[test]
fn encrypt_invocation_writes_the_entry_file_and_reads_its_input() {
    let storage = GpgStorage::new("/root", Some("alice".to_string()));
    assert_eq!(
        storage.encrypt_args("foo/bar"),
        vec![
            "--encrypt".to_string(),
            "--output".to_string(),
            "/root/foo/bar.gpg".to_string(),
            "--default-recipient-self".to_string(),
            "--recipient".to_string(),
            "alice".to_string(),
            "-".to_string(),
        ]
    );
}

#[test]
fn entry_file_and_parent_directory_for_a_key() {
    let storage = GpgStorage::new("/root", None);
    assert_eq!(storage.entry_file("foo/bar/test_key"), "/root/foo/bar/test_key.gpg");
    assert_eq!(storage.parent_dir_path("foo/bar/test_key"), "/root/foo/bar");
    assert_eq!(storage.parent_dir_path("solo"), "/root/");
}

#[test]
fn removal_of_a_directory_requires_the_recursive_flag() {
    let storage = GpgStorage::new("/root", None);
    match storage.remove_plan("dir", true, false) {
        Err(Error::InvalidKey(m)) => assert_eq!(m, "Key is a directory"),
        other => panic!("unexpected plan: {:?}", other),
    }
    match storage.remove_plan("dir", true, true) {
        Ok(RemoveAction::Subtree(p)) => assert_eq!(p, "/root/dir"),
        other => panic!("unexpected plan: {:?}", other),
    }
    match storage.remove_plan("leaf", false, false) {
        Ok(RemoveAction::EntryFile(p)) => assert_eq!(p, "/root/leaf.gpg"),
        other => panic!("unexpected plan: {:?}", other),
    }
}

#[test]
fn tool_outcomes_become_store_results() {
    assert_eq!(
        decrypt_result(true, "clear".to_string(), "".to_string()).unwrap(),
        "clear"
    );
    match decrypt_result(false, "".to_string(), "gpg: decryption failed".to_string()) {
        Err(Error::InvalidKey(m)) => assert_eq!(m, "gpg: decryption failed"),
        other => panic!("unexpected outcome: {:?}", other),
    }
    assert!(encrypt_result(true, "".to_string()).is_ok());
    match encrypt_result(false, "gpg: no key".to_string()) {
        Err(Error::InvalidKey(m)) => assert_eq!(m, "gpg: no key"),
        other => panic!("unexpected outcome: {:?}", other),
    }
}

#[test]
fn errors_describe_their_class_and_diagnostic() {
    assert_eq!(
        Error::InvalidKey("bad".to_string()).describe(),
        "Invalid key: bad"
    );
    assert_eq!(Error::IO("disk".to_string()).describe(), "IO error: disk");
}
