//! The `Host` header of requests.

use vstd::prelude::*;

use http::HeaderMap;
use vstd::utf8::encode_utf8;

use crate::client::service::host_text;
use crate::client::service::insert_host;
use crate::client::service::with_host;
use crate::header::few_names;
use crate::header::header_text_bytes;
use crate::header::headers_of;
use crate::header::Field;
use crate::uri::Uri;

verus! {

/// A `Service` that sets the `Host` header, if it's missing, based on the request URI.
#[derive(Debug)]
pub struct SetHost<S> {
    inner: S,
}

impl<S> SetHost<S> {
    /// The inner service.
    pub closed spec fn wrapped(self) -> S {
        self.inner
    }

    /// Create a new `SetHost` service.
    pub fn new(inner: S) -> (r: Self)
        ensures
            r.wrapped() == inner,
    {
        SetHost { inner }
    }

    /// Sets the `Host` header of a request as the URI says, if there is none. The inner service is
    /// called after that.
    pub fn call(&self, uri: &Uri, headers: &mut HeaderMap<http::HeaderValue>) -> (r: &S)
        requires
            !headers_of(*old(headers)).contains_key(Field::Host.name()) ==> {
                &&& uri@.authority is Some
                &&& header_text_bytes(encode_utf8(host_text(uri@)))
                &&& few_names(headers_of(*old(headers)).dom().insert(Field::Host.name()))
            },
        ensures
            headers_of(*final(headers)) == with_host(headers_of(*old(headers)), uri@),
            *r == self.wrapped(),
    {
        insert_host(uri, headers);
        &self.inner
    }
}

} // verus!
