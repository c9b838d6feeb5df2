use vstd::prelude::*;

use crate::errors::Error;
use crate::paths::{
    data_path_spec, entry_path, entry_path_spec, join_path, list_keys, list_spec, parent_dir,
    parent_spec,
};

verus! {

/// The encrypted store: one entry file per key under a root directory, each
/// encrypted for the chosen identity. The external encryption tool performs
/// the work; this type decides what to invoke it with and how to read its
/// outcome.
#[derive(Debug, Clone)]
pub struct GpgStorage {
    base_path: String,
    gpg_id: Option<String>,
}

/// The view of an optional identity.
pub open spec fn id_view(o: Option<String>) -> Option<Seq<char>> {
    match o {
        Some(s) => Some(s@),
        None => None,
    }
}

/// The extra arguments that scope the tool to an explicit recipient.
pub open spec fn recipient_args_spec(id: Option<Seq<char>>) -> Seq<Seq<char>> {
    match id {
        Some(i) => seq!["--recipient"@, i],
        None => Seq::empty(),
    }
}

/// Arguments of a decryption invocation: decrypt the entry file for `key`
/// to standard output, for the chosen recipient or the tool's self-default.
pub open spec fn decrypt_args_spec(base: Seq<char>, key: Seq<char>, id: Option<Seq<char>>) -> Seq<
    Seq<char>,
> {
    seq!["--decrypt"@, "--output"@, "-"@, "--default-recipient-self"@] + recipient_args_spec(id)
        + seq![entry_path_spec(base, key)]
}

/// Arguments of an encryption invocation: encrypt standard input into the
/// entry file for `key`, for the chosen recipient or the tool's self-default.
pub open spec fn encrypt_args_spec(base: Seq<char>, key: Seq<char>, id: Option<Seq<char>>) -> Seq<
    Seq<char>,
> {
    seq!["--encrypt"@, "--output"@, entry_path_spec(base, key), "--default-recipient-self"@]
        + recipient_args_spec(id) + seq!["-"@]
}

/// What a removal must do on disk: drop a whole subtree, or one entry file.
#[derive(Debug)]
pub enum RemoveAction {
    /// Delete the directory at this path and everything under it.
    Subtree(String),
    /// Delete the entry file at this path.
    EntryFile(String),
}

impl GpgStorage {
    /// The store's root directory.
    pub closed spec fn base(&self) -> Seq<char> {
        self.base_path@
    }

    /// The recipient identity, when one was chosen.
    pub closed spec fn id(&self) -> Option<Seq<char>> {
        id_view(self.gpg_id)
    }

    pub fn new(base_path: &str, gpg_id: Option<String>) -> (s: GpgStorage)
        ensures
            s.base() == base_path@,
            s.id() == id_view(gpg_id),
    {
        GpgStorage { base_path: String::from_str(base_path), gpg_id }
    }

    /// The entry file that stores `key`.
    pub fn entry_file(&self, key: &str) -> (r: String)
        ensures
            r@ == entry_path_spec(self.base(), key@),
    {
        entry_path(self.base_path.as_str(), key)
    }

    /// The path `key` addresses on disk, without the entry suffix: the
    /// place a directory of entries would live.
    pub fn data_file(&self, key: &str) -> (r: String)
        ensures
            r@ == data_path_spec(self.base(), key@),
    {
        join_path(self.base_path.as_str(), key)
    }

    /// The directory that must exist before `key`'s entry file is written:
    /// the key's parent namespace under the root.
    pub fn parent_dir_path(&self, key: &str) -> (r: String)
        ensures
            r@ == data_path_spec(self.base(), parent_spec(key@)),
    {
        let parent = parent_dir(key);
        join_path(self.base_path.as_str(), parent.as_str())
    }

    /// The arguments a retrieval hands the external tool.
    pub fn decrypt_args(&self, key: &str) -> (r: Vec<String>)
        ensures
            r.deep_view() == decrypt_args_spec(self.base(), key@, self.id()),
    {
        let mut r: Vec<String> = Vec::new();
        r.push(String::from_str("--decrypt"));
        r.push(String::from_str("--output"));
        r.push(String::from_str("-"));
        r.push(String::from_str("--default-recipient-self"));
        if let Some(id) = &self.gpg_id {
            r.push(String::from_str("--recipient"));
            r.push(id.clone());
        }
        r.push(self.entry_file(key));
        proof {
            assert(r.deep_view() =~= decrypt_args_spec(self.base(), key@, self.id()));
        }
        r
    }

    /// The arguments a store hands the external tool; the value itself
    /// travels on the tool's input stream.
    pub fn encrypt_args(&self, key: &str) -> (r: Vec<String>)
        ensures
            r.deep_view() == encrypt_args_spec(self.base(), key@, self.id()),
    {
        let mut r: Vec<String> = Vec::new();
        r.push(String::from_str("--encrypt"));
        r.push(String::from_str("--output"));
        r.push(self.entry_file(key));
        r.push(String::from_str("--default-recipient-self"));
        if let Some(id) = &self.gpg_id {
            r.push(String::from_str("--recipient"));
            r.push(id.clone());
        }
        r.push(String::from_str("-"));
        proof {
            assert(r.deep_view() =~= encrypt_args_spec(self.base(), key@, self.id()));
        }
        r
    }

    /// Decides a removal, given whether the key's data path is a directory:
    /// a directory is removed only recursively and as a whole subtree, any
    /// other key loses its entry file.
    pub fn remove_plan(&self, key: &str, is_dir: bool, recursive: bool) -> (r: Result<
        RemoveAction,
        Error,
    >)
        ensures
            is_dir && !recursive ==> (r matches Err(e) && e matches Error::InvalidKey(m) && m@
                == "Key is a directory"@),
            is_dir && recursive ==> (r matches Ok(a) && a matches RemoveAction::Subtree(p) && p@
                == data_path_spec(self.base(), key@)),
            !is_dir ==> (r matches Ok(a) && a matches RemoveAction::EntryFile(p) && p@
                == entry_path_spec(self.base(), key@)),
    {
        if is_dir {
            if recursive {
                Ok(RemoveAction::Subtree(join_path(self.base_path.as_str(), key)))
            } else {
                Err(Error::InvalidKey(String::from_str("Key is a directory")))
            }
        } else {
            Ok(RemoveAction::EntryFile(self.entry_file(key)))
        }
    }

    /// The keys this store's walked file paths contribute to a listing.
    pub fn listing(&self, paths: &Vec<String>, prefix: &str) -> (r: Vec<String>)
        ensures
            r.deep_view() == list_spec(paths.deep_view(), self.base(), prefix@),
    {
        list_keys(self.base_path.as_str(), paths, prefix)
    }
}

/// Reading of the decryption tool's outcome: its standard output on success,
/// a key rejection carrying its standard error otherwise.
pub fn decrypt_result(success: bool, stdout: String, stderr: String) -> (r: Result<String, Error>)
    ensures
        success ==> (r matches Ok(v) && v@ == stdout@),
        !success ==> (r matches Err(e) && e matches Error::InvalidKey(m) && m@ == stderr@),
{
    if success {
        Ok(stdout)
    } else {
        Err(Error::InvalidKey(stderr))
    }
}

/// Reading of the encryption tool's outcome: success, or a key rejection
/// carrying its standard error.
pub fn encrypt_result(success: bool, stderr: String) -> (r: Result<(), Error>)
    ensures
        success ==> r is Ok,
        !success ==> (r matches Err(e) && e matches Error::InvalidKey(m) && m@ == stderr@),
{
    if success {
        Ok(())
    } else {
        Err(Error::InvalidKey(stderr))
    }
}

} // verus!
