use vstd::prelude::*;

use crate::errors::Error;
use crate::store::Storage;
use crate::text::contains_seq;

verus! {

/// The commit message recorded for a successful store of `key`.
pub open spec fn saved_message_spec(key: Seq<char>) -> Seq<char> {
    "saved "@ + key
}

/// The commit message recorded for a successful removal of `key`.
pub open spec fn removed_message_spec(key: Seq<char>) -> Seq<char> {
    "removed "@ + key
}

pub fn saved_message(key: &str) -> (r: String)
    ensures
        r@ == saved_message_spec(key@),
{
    let mut r = String::from_str("saved ");
    r.append(key);
    r
}

pub fn removed_message(key: &str) -> (r: String)
    ensures
        r@ == removed_message_spec(key@),
{
    let mut r = String::from_str("removed ");
    r.append(key);
    r
}

/// Versioning law: each commit message names its operation and its key.
pub proof fn lemma_messages_name_key(key: Seq<char>)
    ensures
        contains_seq(saved_message_spec(key), key),
        contains_seq(saved_message_spec(key), "saved"@),
        contains_seq(removed_message_spec(key), key),
        contains_seq(removed_message_spec(key), "removed"@),
{
    reveal_strlit("saved ");
    reveal_strlit("saved");
    reveal_strlit("removed ");
    reveal_strlit("removed");
    let sm = saved_message_spec(key);
    assert(sm.subrange(6, 6 + key.len() as int) =~= key);
    assert(sm.subrange(0, 0 + "saved"@.len() as int) =~= "saved"@);
    let rm = removed_message_spec(key);
    assert(rm.subrange(8, 8 + key.len() as int) =~= key);
    assert(rm.subrange(0, 0 + "removed"@.len() as int) =~= "removed"@);
}

/// Arguments that ask the version-control tool whether the root is already
/// under version control.
pub open spec fn status_args_spec() -> Seq<Seq<char>> {
    seq!["status"@]
}

/// Arguments that initialize a fresh history with the default branch name.
pub open spec fn init_args_spec() -> Seq<Seq<char>> {
    seq!["init"@, "-b"@, "main"@]
}

/// Arguments that stage every change under the root.
pub open spec fn add_args_spec() -> Seq<Seq<char>> {
    seq!["add"@, "."@]
}

/// Arguments that commit the staged changes with message `msg`.
pub open spec fn commit_args_spec(msg: Seq<char>) -> Seq<Seq<char>> {
    seq!["commit"@, "-m"@, msg]
}

pub fn status_args() -> (r: Vec<String>)
    ensures
        r.deep_view() == status_args_spec(),
{
    let mut r: Vec<String> = Vec::new();
    r.push(String::from_str("status"));
    proof {
        assert(r.deep_view() =~= status_args_spec());
    }
    r
}

pub fn add_args() -> (r: Vec<String>)
    ensures
        r.deep_view() == add_args_spec(),
{
    let mut r: Vec<String> = Vec::new();
    r.push(String::from_str("add"));
    r.push(String::from_str("."));
    proof {
        assert(r.deep_view() =~= add_args_spec());
    }
    r
}

pub fn commit_args(msg: &str) -> (r: Vec<String>)
    ensures
        r.deep_view() == commit_args_spec(msg@),
{
    let mut r: Vec<String> = Vec::new();
    r.push(String::from_str("commit"));
    r.push(String::from_str("-m"));
    r.push(String::from_str(msg));
    proof {
        assert(r.deep_view() =~= commit_args_spec(msg@));
    }
    r
}

pub fn pull_args() -> (r: Vec<String>)
    ensures
        r.deep_view() == seq!["pull"@],
{
    let mut r: Vec<String> = Vec::new();
    r.push(String::from_str("pull"));
    proof {
        assert(r.deep_view() =~= seq!["pull"@]);
    }
    r
}

pub fn push_args() -> (r: Vec<String>)
    ensures
        r.deep_view() == seq!["push"@],
{
    let mut r: Vec<String> = Vec::new();
    r.push(String::from_str("push"));
    proof {
        assert(r.deep_view() =~= seq!["push"@]);
    }
    r
}

/// Construction's one decision: a root not yet under version control gets a
/// fresh history; an initialized root is left alone, so constructing against
/// it again neither fails nor creates a second history.
pub fn init_plan(initialized: bool) -> (r: Option<Vec<String>>)
    ensures
        initialized ==> r is None,
        !initialized ==> (r matches Some(a) && a.deep_view() == init_args_spec()),
{
    if initialized {
        None
    } else {
        let mut a: Vec<String> = Vec::new();
        a.push(String::from_str("init"));
        a.push(String::from_str("-b"));
        a.push(String::from_str("main"));
        proof {
            assert(a.deep_view() =~= init_args_spec());
        }
        Some(a)
    }
}

/// Reading of the commit outcome: an I/O failure naming the exit status
/// when the tool failed. A commit failure after a successful mutation is
/// surfaced, not swallowed, so the caller learns when store and history
/// have come apart.
pub fn commit_result(success: bool, status: &str) -> (r: Result<(), Error>)
    ensures
        success ==> r is Ok,
        !success ==> (r matches Err(e) && e matches Error::IO(m) && m@
            == "git commit failed with status code "@ + status@),
{
    if success {
        Ok(())
    } else {
        let mut m = String::from_str("git commit failed with status code ");
        m.append(status);
        Err(Error::IO(m))
    }
}

/// Reading of the remote-download outcome: an I/O failure naming the exit
/// status when the tool failed.
pub fn pull_result(success: bool, status: &str) -> (r: Result<(), Error>)
    ensures
        success ==> r is Ok,
        !success ==> (r matches Err(e) && e matches Error::IO(m) && m@
            == "git pull failed with status code "@ + status@),
{
    if success {
        Ok(())
    } else {
        let mut m = String::from_str("git pull failed with status code ");
        m.append(status);
        Err(Error::IO(m))
    }
}

/// Reading of the remote-upload outcome: an I/O failure naming the exit
/// status when the tool failed.
pub fn push_result(success: bool, status: &str) -> (r: Result<(), Error>)
    ensures
        success ==> r is Ok,
        !success ==> (r matches Err(e) && e matches Error::IO(m) && m@
            == "git push failed with status code "@ + status@),
{
    if success {
        Ok(())
    } else {
        let mut m = String::from_str("git push failed with status code ");
        m.append(status);
        Err(Error::IO(m))
    }
}

/// The versioning decorator: a store together with an append-only history
/// of commit messages. Retrieval and listing delegate; every successful
/// mutation records exactly one message naming the operation and the key.
pub struct GitStorage<S> {
    storage: S,
    base_path: String,
    history: Vec<String>,
}

impl<S: Storage> GitStorage<S> {
    /// The recorded history, oldest first.
    pub closed spec fn history(&self) -> Seq<Seq<char>> {
        self.history.deep_view()
    }

    /// The wrapped store.
    pub closed spec fn backing(&self) -> S {
        self.storage
    }

    /// The root directory the history belongs to.
    pub closed spec fn base(&self) -> Seq<char> {
        self.base_path@
    }

    /// Wraps `storage` over the root at `base_path` with an empty recorded
    /// history; whether the root itself still needs one is `init_plan`'s
    /// decision.
    pub fn new(storage: S, base_path: &str) -> (s: GitStorage<S>)
        ensures
            s.backing() == storage,
            s.inv() == storage.inv(),
            s.entries() == storage.entries(),
            s.history() == Seq::<Seq<char>>::empty(),
            s.base() == base_path@,
    {
        let s = GitStorage {
            storage,
            base_path: String::from_str(base_path),
            history: Vec::new(),
        };
        proof {
            assert(s.history() =~= Seq::<Seq<char>>::empty());
        }
        s
    }

    /// The recorded commit messages, oldest first.
    pub fn commits(&self) -> (r: &Vec<String>)
        ensures
            r.deep_view() == self.history(),
    {
        &self.history
    }
}

impl<S: Storage> Storage for GitStorage<S> {
    closed spec fn entries(&self) -> Map<Seq<char>, Seq<char>> {
        self.storage.entries()
    }

    closed spec fn inv(&self) -> bool {
        self.storage.inv()
    }

    open spec fn set_succeeds(&self, key: Seq<char>, value: Seq<char>) -> bool {
        self.backing().set_succeeds(key, value)
    }

    fn get(&self, key: &str) -> (r: Result<String, Error>) {
        self.storage.get(key)
    }

    fn list(&self, prefix: &str) -> (r: Result<Vec<String>, Error>) {
        self.storage.list(prefix)
    }

    fn set(&mut self, key: &str, value: &str) -> (r: Result<(), Error>)
        ensures
            r is Ok ==> final(self).history() == old(self).history().push(
                saved_message_spec(key@),
            ),
            r is Err ==> final(self).history() == old(self).history(),
    {
        let r = self.storage.set(key, value);
        match r {
            Ok(u) => {
                let ghost before = self.history.deep_view();
                let m = saved_message(key);
                self.history.push(m);
                proof {
                    assert(self.history.deep_view() =~= before.push(saved_message_spec(key@)));
                }
                Ok(u)
            },
            Err(e) => Err(e),
        }
    }

    fn remove(&mut self, key: &str, recursive: bool) -> (r: Result<(), Error>)
        ensures
            r is Ok ==> final(self).history() == old(self).history().push(
                removed_message_spec(key@),
            ),
            r is Err ==> final(self).history() == old(self).history(),
    {
        let r = self.storage.remove(key, recursive);
        match r {
            Ok(u) => {
                let ghost before = self.history.deep_view();
                let m = removed_message(key);
                self.history.push(m);
                proof {
                    assert(self.history.deep_view() =~= before.push(removed_message_spec(key@)));
                }
                Ok(u)
            },
            Err(e) => Err(e),
        }
    }
}

} // verus!
