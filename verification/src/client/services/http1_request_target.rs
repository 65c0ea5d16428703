//! The target of requests.

use vstd::prelude::*;

use crate::client::service::authority_form;
use crate::client::service::in_authority_form;
use crate::client::service::in_origin_form;
use crate::client::service::lemma_target_text;
use crate::client::service::origin_form;
use crate::uri::Uri;
use crate::uri::UriView;

verus! {

/// A URI as a proxy gets it. One for HTTPS should have been tunneled and is for the origin server.
pub open spec fn in_absolute_form(uri: UriView) -> UriView {
    if uri.scheme == Some("https"@) {
        in_origin_form(uri)
    } else {
        uri
    }
}

/// The target of a request, which goes to a proxy or to an origin server.
pub open spec fn proxied_target(is_connect: bool, is_proxied: bool, uri: UriView) -> UriView {
    if is_connect {
        in_authority_form(uri)
    } else if is_proxied {
        in_absolute_form(uri)
    } else {
        in_origin_form(uri)
    }
}

/// Leaves a URI as a proxy gets it.
pub fn absolute_form(uri: &mut Uri)
    ensures
        final(uri)@ == in_absolute_form(old(uri)@),
{
    if uri.has_scheme("https") {
        origin_form(uri);
    }
}

/// A `Service` that normalizes the request target.
#[derive(Debug)]
pub struct Http1RequestTarget<S> {
    inner: S,
    is_proxied: bool,
}

impl<S> Http1RequestTarget<S> {
    /// The inner service.
    pub closed spec fn wrapped(self) -> S {
        self.inner
    }

    /// Whether requests go to a proxy.
    pub closed spec fn proxied(self) -> bool {
        self.is_proxied
    }

    /// Create a new `Http1RequestTarget` service.
    pub fn new(inner: S, is_proxied: bool) -> (r: Self)
        ensures
            r.wrapped() == inner,
            r.proxied() == is_proxied,
    {
        Http1RequestTarget { inner, is_proxied }
    }

    /// Gives a request its target. The inner service is called after that.
    pub fn call(&self, is_connect: bool, uri: &mut Uri) -> (r: &S)
        requires
            is_connect ==> old(uri)@.authority is Some,
        ensures
            final(uri)@ == proxied_target(is_connect, self.proxied(), old(uri)@),
            *r == self.wrapped(),
    {
        // CONNECT always sends authority-form, so check it first...
        if is_connect {
            authority_form(uri);
        } else if self.is_proxied {
            absolute_form(uri);
        } else {
            origin_form(uri);
        }
        &self.inner
    }
}

/// What stands in the request line: for `CONNECT` the authority; through a proxy the whole URI,
/// unless its scheme is `https`; otherwise the path and query.
pub proof fn lemma_proxied_target(uri: UriView)
    ensures
        uri.authority is Some ==> proxied_target(true, true, uri).text() == uri.authority->0.text
            && proxied_target(true, false, uri).text() == uri.authority->0.text,
        uri.scheme != Some("https"@) ==> proxied_target(false, true, uri) == uri,
        uri.scheme == Some("https"@) ==> proxied_target(false, true, uri) == proxied_target(
            false,
            false,
            uri,
        ),
        uri.path_and_query is Some && uri.path_and_query->0.len() > 0 && uri.path_and_query->0[0]
            == '/' ==> proxied_target(false, false, uri).text() == uri.path_and_query->0,
        uri.path_and_query is None ==> proxied_target(false, false, uri).text() == seq!['/'],
{
    lemma_target_text(uri);
}

} // verus!
