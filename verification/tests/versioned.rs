use kv::errors::Error;
use kv::git::{
    add_args, commit_args, commit_result, init_plan, pull_args, pull_result, push_args,
    push_result, removed_message, saved_message, status_args, GitStorage,
};
use kv::store::{MemStorage, Storage};

#[test]
fn each_successful_mutation_adds_one_commit() {
    let mut storage = GitStorage::new(MemStorage::new(), "/tmp/kv-root");
    assert_eq!(storage.commits().len(), 0);
    storage.set("a/b", "1").unwrap();
    assert_eq!(storage.commits().len(), 1);
    assert_eq!(storage.commits()[0], "saved a/b");
    storage.remove("a/b", false).unwrap();
    assert_eq!(storage.commits().len(), 2);
    assert_eq!(storage.commits()[1], "removed a/b");
}

#[test]
fn failed_mutation_adds_no_commit() {
    let mut storage = GitStorage::new(MemStorage::new(), "/tmp/kv-root");
    let result = storage.remove("absent", false);
    assert!(matches!(result, Err(Error::IO(_))));
    assert_eq!(storage.commits().len(), 0);
}

#[test]
fn versioned_store_delegates_reads_and_writes() {
    let mut storage = GitStorage::new(MemStorage::new(), "/tmp/kv-root");
    storage.set("foo/bar/test_key", "test_value").unwrap();
    assert_eq!(storage.get("foo/bar/test_key").unwrap(), "test_value");
    let keys = storage.list("foo").unwrap();
    assert_eq!(keys, vec!["foo/bar/test_key".to_string()]);
}

#[test]
fn init_plan_leaves_initialized_root_alone() {
    assert!(init_plan(true).is_none());
}

#[test]
fn init_plan_initializes_fresh_root_with_default_branch() {
    let args = init_plan(false).unwrap();
    assert_eq!(
        args,
        vec!["init".to_string(), "-b".to_string(), "main".to_string()]
    );
}

#[test]
fn commit_messages_name_operation_and_key() {
    assert_eq!(saved_message("foo/bar"), "saved foo/bar");
    assert_eq!(removed_message("foo/bar"), "removed foo/bar");
}

#[test]
fn tool_invocations_are_planned_verbatim() {
    assert_eq!(status_args(), vec!["status".to_string()]);
    assert_eq!(add_args(), vec!["add".to_string(), ".".to_string()]);
    assert_eq!(
        commit_args("saved k"),
        vec!["commit".to_string(), "-m".to_string(), "saved k".to_string()]
    );
    assert_eq!(pull_args(), vec!["pull".to_string()]);
    assert_eq!(push_args(), vec!["push".to_string()]);
}

#[test]
fn failed_commit_reports_exit_status() {
    assert!(commit_result(true, "exit status: 0").is_ok());
    match commit_result(false, "exit status: 1") {
        Err(Error::IO(m)) => assert_eq!(m, "git commit failed with status code exit status: 1"),
        other => panic!("unexpected outcome: {:?}", other),
    }
}

#[test]
fn failed_pull_reports_exit_status() {
    assert!(pull_result(true, "exit status: 0").is_ok());
    match pull_result(false, "exit status: 1") {
        Err(Error::IO(m)) => assert_eq!(m, "git pull failed with status code exit status: 1"),
        other => panic!("unexpected outcome: {:?}", other),
    }
}

#[test]
fn failed_push_reports_exit_status() {
    assert!(push_result(true, "exit status: 0").is_ok());
    match push_result(false, "exit status: 128") {
        Err(Error::IO(m)) => assert_eq!(m, "git push failed with status code exit status: 128"),
        other => panic!("unexpected outcome: {:?}", other),
    }
}
