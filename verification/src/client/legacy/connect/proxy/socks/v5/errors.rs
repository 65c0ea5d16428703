//! Errors of SOCKSv5.

use vstd::prelude::*;

use super::messages::Status;

verus! {

/// Why a SOCKSv5 handshake failed.
#[derive(Debug, Clone, Copy, PartialEq, Eq, Structural)]
pub enum SocksV5Error {
    /// The host name is longer than the protocol can carry.
    HostTooLong,
    /// Authentication failed.
    Auth(AuthError),
    /// The proxy refused the command.
    Command(Status),
}

/// Why authentication failed.
#[derive(Debug, Clone, Copy, PartialEq, Eq, Structural)]
pub enum AuthError {
    /// The proxy accepts none of the offered methods.
    Unsupported,
    /// The proxy chose a method that was not offered.
    MethodMismatch,
    /// The proxy did not accept the credentials.
    Failed,
}

impl AuthError {
    /// What the error says.
    pub open spec fn detail(self) -> Seq<char> {
        match self {
            AuthError::Unsupported => "server does not support user/pass authentication"@,
            AuthError::MethodMismatch => "server implements authentication incorrectly"@,
            AuthError::Failed => "credentials not accepted"@,
        }
    }

    /// What the error says.
    pub fn text(&self) -> (r: &'static str)
        ensures
            r@ == self.detail(),
    {
        match self {
            AuthError::Unsupported => "server does not support user/pass authentication",
            AuthError::MethodMismatch => "server implements authentication incorrectly",
            AuthError::Failed => "credentials not accepted",
        }
    }
}

impl SocksV5Error {
    /// What the error says.
    pub open spec fn detail(self) -> Seq<char> {
        match self {
            SocksV5Error::HostTooLong => "host address is more than 255 characters"@,
            SocksV5Error::Auth(e) => e.detail(),
            SocksV5Error::Command(e) => e.detail(),
        }
    }

    /// What the error says.
    pub fn text(&self) -> (r: &'static str)
        ensures
            r@ == self.detail(),
    {
        match self {
            SocksV5Error::HostTooLong => "host address is more than 255 characters",
            SocksV5Error::Auth(e) => e.text(),
            SocksV5Error::Command(e) => e.text(),
        }
    }
}

impl vstd::std_specs::convert::FromSpecImpl<Status> for SocksV5Error {
    open spec fn obeys_from_spec() -> bool {
        true
    }

    open spec fn from_spec(err: Status) -> SocksV5Error {
        SocksV5Error::Command(err)
    }
}

impl From<Status> for SocksV5Error {
    fn from(err: Status) -> (r: SocksV5Error) {
        SocksV5Error::Command(err)
    }
}

impl vstd::std_specs::convert::FromSpecImpl<AuthError> for SocksV5Error {
    open spec fn obeys_from_spec() -> bool {
        true
    }

    open spec fn from_spec(err: AuthError) -> SocksV5Error {
        SocksV5Error::Auth(err)
    }
}

impl From<AuthError> for SocksV5Error {
    fn from(err: AuthError) -> (r: SocksV5Error) {
        SocksV5Error::Auth(err)
    }
}

} // verus!
