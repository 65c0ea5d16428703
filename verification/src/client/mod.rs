//! HTTP client utilities

use vstd::prelude::*;

pub mod connect;
pub mod expect_continue;
pub mod legacy;
pub mod pool;
pub mod proxy;
pub mod service;
pub mod services;

verus! {

/// A host without the brackets of an IPv6 literal.
pub open spec fn unbracketed(host: Seq<char>) -> Seq<char> {
    if host.len() >= 2 && host.first() == '[' && host.last() == ']' {
        host.subrange(1, host.len() - 1)
    } else {
        host
    }
}

/// Takes the brackets off a host that has both.
pub fn strip_ipv6_brackets(host: &str) -> (r: &str)
    ensures
        r@ == unbracketed(host@),
{
    let len: usize = host.unicode_len();
    if len >= 2 && host.get_char(0) == '[' && host.get_char(len - 1) == ']' {
        host.substring_char(1, len - 1)
    } else {
        host
    }
}

/// Brackets are taken off where there are both, and once; every other host stays as it is.
pub proof fn lemma_unbracketed(host: Seq<char>)
    ensures
        unbracketed(seq!['['] + host + seq![']']) == host,
        host.len() < 2 || host[0] != '[' || host[host.len() - 1] != ']' ==> unbracketed(host)
            == host,
{
    let bracketed = seq!['['] + host + seq![']'];
    assert(bracketed.subrange(1, bracketed.len() - 1) =~= host);
}

} // verus!
