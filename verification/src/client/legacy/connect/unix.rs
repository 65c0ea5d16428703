//! A connector that establishes connections over Unix domain sockets.

use vstd::prelude::*;

use std::path::PathBuf;

verus! {

/// The path of the standard library.
#[verifier::external_type_specification]
#[verifier::external_body]
pub struct ExPathBuf(std::path::PathBuf);

/// A connector that always connects to a fixed Unix domain socket path.
///
/// The URI passed to the connector is only used for the `Host` header and request
/// target. The actual connection is always made to the socket path with which this
/// connector was created.
#[derive(Debug)]
pub struct UnixConnector {
    path: PathBuf,
}

impl UnixConnector {
    /// The socket path.
    pub closed spec fn socket(self) -> PathBuf {
        self.path
    }

    /// Create a new connector which always connects to the given socket path.
    pub fn new(path: PathBuf) -> (r: Self)
        ensures
            r.socket() == path,
    {
        UnixConnector { path }
    }

    /// Where to connect to, whatever the destination is.
    pub fn call(&self) -> (r: &PathBuf)
        ensures
            *r == self.socket(),
    {
        &self.path
    }
}

} // verus!
