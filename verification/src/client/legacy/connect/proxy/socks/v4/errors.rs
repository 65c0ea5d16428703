//! Errors of SOCKSv4.

use vstd::prelude::*;

use super::messages::Status;

verus! {

/// Why a SOCKSv4 handshake failed.
#[derive(Debug, Clone, Copy, PartialEq, Eq, Structural)]
pub enum SocksV4Error {
    /// The destination is an IPv6 address, which the protocol cannot carry.
    IpV6,
    /// The proxy refused the command.
    Command(Status),
}

impl SocksV4Error {
    /// What the error says.
    pub open spec fn detail(self) -> Seq<char> {
        match self {
            SocksV4Error::IpV6 => "IPV6 is not supported"@,
            SocksV4Error::Command(e) => e.detail(),
        }
    }

    /// What the error says.
    pub fn text(&self) -> (r: &'static str)
        ensures
            r@ == self.detail(),
    {
        match self {
            SocksV4Error::IpV6 => "IPV6 is not supported",
            SocksV4Error::Command(e) => e.text(),
        }
    }
}

} // verus!
