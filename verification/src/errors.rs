use vstd::prelude::*;

verus! {

/// Failure classes of the store.
#[derive(Debug, Clone)]
pub enum Error {
    /// Semantic failure: encryption or decryption was rejected, or a removal
    /// target is a directory and removal was not recursive. Carries the
    /// diagnostic text of the rejecting side.
    InvalidKey(String),
    /// Everything else: filesystem failures, subprocess failures,
    /// serialization failures. Carries a descriptive message.
    IO(String),
}

impl Error {
    /// Human-readable description: the failure class, then the diagnostic.
    pub fn describe(&self) -> (r: String)
        ensures
            match self {
                Error::InvalidKey(s) => r@ == "Invalid key: "@ + s@,
                Error::IO(s) => r@ == "IO error: "@ + s@,
            },
    {
        match self {
            Error::InvalidKey(s) => {
                let mut r = String::from_str("Invalid key: ");
                r.append(s.as_str());
                r
            },
            Error::IO(s) => {
                let mut r = String::from_str("IO error: ");
                r.append(s.as_str());
                r
            },
        }
    }
}

} // verus!
