//! Resolution by the system in a pool of threads.

use vstd::prelude::*;

use super::SocketAddrs;
use crate::error::IoErrorKind;

verus! {

/// A resolver using blocking `getaddrinfo` calls in a threadpool.
#[derive(Debug, Clone, Copy)]
pub struct TokioGaiResolver {
    _priv: (),
}

impl TokioGaiResolver {
    /// Construct a new `TokioGaiResolver`.
    pub fn new() -> (r: Self)
        ensures
            r == TokioGaiResolver::default_spec(),
    {
        TokioGaiResolver { _priv: () }
    }

    /// The one resolver there is.
    pub closed spec fn default_spec() -> Self {
        TokioGaiResolver { _priv: () }
    }
}

impl Default for TokioGaiResolver {
    fn default() -> (r: Self)
        ensures
            r == TokioGaiResolver::default_spec(),
    {
        TokioGaiResolver::new()
    }
}

/// How a lookup in a thread ended. `E` is the error of the system, `J` that of the thread.
#[derive(Debug)]
pub enum Lookup<E, J> {
    /// The system answered.
    Answered(Result<SocketAddrs, E>),
    /// The lookup was cancelled.
    Cancelled(J),
}

/// Why a lookup gave no addresses.
#[derive(Debug)]
pub enum LookupError<E, J> {
    /// The error of the system.
    System(E),
    /// An error of the given kind, with its cause.
    Io(IoErrorKind, J),
}

/// What a lookup gives. A cancelled lookup was interrupted, and keeps its cause.
pub fn lookup_outcome<E, J>(lookup: Lookup<E, J>) -> (r: Result<SocketAddrs, LookupError<E, J>>)
    ensures
        match lookup {
            Lookup::Answered(Ok(addrs)) => r == Ok::<SocketAddrs, LookupError<E, J>>(addrs),
            Lookup::Answered(Err(e)) => r == Err::<SocketAddrs, LookupError<E, J>>(
                LookupError::System(e),
            ),
            Lookup::Cancelled(cause) => r == Err::<SocketAddrs, LookupError<E, J>>(
                LookupError::Io(IoErrorKind::Interrupted, cause),
            ),
        },
{
    match lookup {
        Lookup::Answered(Ok(addrs)) => Ok(addrs),
        Lookup::Answered(Err(e)) => Err(LookupError::System(e)),
        Lookup::Cancelled(cause) => Err(LookupError::Io(IoErrorKind::Interrupted, cause)),
    }
}

} // verus!
