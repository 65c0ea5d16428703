//! Services that make requests ready for HTTP/1.

use vstd::prelude::*;

use http::HeaderMap;
use vstd::utf8::encode_utf8;

use crate::header::few_names;
use crate::header::header_contains;
use crate::header::header_or_insert;
use crate::header::header_text_bytes;
use crate::header::headers_of;
use crate::header::Field;
use crate::header::FieldValue;
use crate::header::FieldValueView;
use crate::text::decimal;
use crate::text::push_decimal;
use crate::uri::Uri;
use crate::uri::UriView;

verus! {

/// Whether the scheme of a URI is one for encrypted connections.
pub open spec fn is_secure(uri: UriView) -> bool {
    uri.scheme == Some("wss"@) || uri.scheme == Some("https"@)
}

/// The port of a URI unless it is the usual one of its scheme.
pub open spec fn non_default_port(uri: UriView) -> Option<u16> {
    if uri.port() == Some(443u16) && is_secure(uri) {
        None
    } else if uri.port() == Some(80u16) && !is_secure(uri) {
        None
    } else {
        uri.port()
    }
}

/// The text of the `Host` header for a URI with an authority.
pub open spec fn host_text(uri: UriView) -> Seq<char> {
    match non_default_port(uri) {
        Some(port) => uri.host()->0 + ":"@ + decimal(port as nat),
        None => uri.host()->0,
    }
}

/// A written port is left out of the `Host` header only if it is the usual one: 443 where the scheme
/// is `https` or `wss`, 80 for every other scheme. Any other one follows the host and a colon.
pub proof fn lemma_host_port(uri: UriView, port: u16)
    requires
        uri.port() == Some(port),
    ensures
        ({
            let secure = uri.scheme == Some("https"@) || uri.scheme == Some("wss"@);
            let usual = if secure {
                443u16
            } else {
                80u16
            };
            host_text(uri) == if port == usual {
                uri.host()->0
            } else {
                uri.host()->0 + seq![':'] + decimal(port as nat)
            }
        }),
{
    reveal_strlit(":");
    assert(":"@ =~= seq![':']);
}

/// Without a port in the URI the `Host` header is the host alone.
pub proof fn lemma_host_alone(uri: UriView)
    requires
        uri.port() is None,
    ensures
        host_text(uri) == uri.host()->0,
{
}

/// Headers with the `Host` of a URI, if there was none.
pub open spec fn with_host(
    headers: Map<Seq<char>, Seq<FieldValueView>>,
    uri: UriView,
) -> Map<Seq<char>, Seq<FieldValueView>> {
    if headers.contains_key(Field::Host.name()) {
        headers
    } else {
        headers.insert(
            Field::Host.name(),
            seq![FieldValueView { bytes: encode_utf8(host_text(uri)), sensitive: false }],
        )
    }
}

/// Whether the scheme of a URI is one for encrypted connections.
pub fn is_schema_secure(uri: &Uri) -> (r: bool)
    ensures
        r == is_secure(uri@),
{
    uri.has_scheme("wss") || uri.has_scheme("https")
}

/// The port of a URI unless it is the usual one of its scheme.
pub fn get_non_default_port(uri: &Uri) -> (r: Option<u16>)
    ensures
        r == non_default_port(uri@),
        match uri@.port() {
            None => r is None,
            Some(p) => if (p == 443 && (uri@.scheme == Some("https"@) || uri@.scheme == Some(
                "wss"@,
            ))) || (p == 80 && uri@.scheme != Some("https"@) && uri@.scheme != Some("wss"@)) {
                r is None
            } else {
                r == Some(p)
            },
        },
{
    let secure = is_schema_secure(uri);
    match uri.port() {
        Some(port) => {
            if port == 443 && secure {
                None
            } else if port == 80 && !secure {
                None
            } else {
                Some(port)
            }
        },
        None => None,
    }
}

/// Sets the `Host` header of a URI with an authority, if there is none.
pub(crate) fn insert_host(uri: &Uri, headers: &mut HeaderMap<http::HeaderValue>)
    requires
        !headers_of(*old(headers)).contains_key(Field::Host.name()) ==> {
            &&& uri@.authority is Some
            &&& header_text_bytes(encode_utf8(host_text(uri@)))
            &&& few_names(headers_of(*old(headers)).dom().insert(Field::Host.name()))
        },
    ensures
        headers_of(*final(headers)) == with_host(headers_of(*old(headers)), uri@),
{
    if header_contains(headers, Field::Host) {
        return ;
    }
    let mut text = String::new();
    if let Some(hostname) = uri.host() {
        text.append(hostname);
    }
    if let Some(port) = get_non_default_port(uri) {
        text.append(":");
        push_decimal(&mut text, port as u32);
    }
    assert(text@ =~= host_text(uri@));
    let value = FieldValue::from_str(text.as_str()).unwrap();
    assert(value@ =~= (FieldValueView { bytes: encode_utf8(host_text(uri@)), sensitive: false }));
    header_or_insert(headers, Field::Host, &value);
}

/// Sets the `Host` header of requests to a URI with an authority.
#[derive(Clone, Debug)]
pub struct SetHost<S> {
    inner: S,
}

impl<S> SetHost<S> {
    /// The inner service.
    pub closed spec fn wrapped(self) -> S {
        self.inner
    }

    /// Wraps a service.
    pub fn new(inner: S) -> (r: Self)
        ensures
            r.wrapped() == inner,
    {
        SetHost { inner }
    }

    /// Access the inner service.
    pub fn inner(&self) -> (r: &S)
        ensures
            *r == self.wrapped(),
    {
        &self.inner
    }

    /// Sets the `Host` header of a request as the URI says, if the URI has an authority and there
    /// is no such header. The inner service is called after that.
    pub fn call(&mut self, uri: &Uri, headers: &mut HeaderMap<http::HeaderValue>)
        requires
            uri@.authority is Some && !headers_of(*old(headers)).contains_key(Field::Host.name())
                ==> {
                &&& header_text_bytes(encode_utf8(host_text(uri@)))
                &&& few_names(headers_of(*old(headers)).dom().insert(Field::Host.name()))
            },
        ensures
            headers_of(*final(headers)) == if uri@.authority is Some {
                with_host(headers_of(*old(headers)), uri@)
            } else {
                headers_of(*old(headers))
            },
            *final(self) == *old(self),
    {
        if uri.authority.is_some() {
            insert_host(uri, headers);
        }
    }
}

/// A URI by its path and query alone, as a request to an origin server has it.
pub open spec fn in_origin_form(uri: UriView) -> UriView {
    UriView {
        scheme: None,
        authority: None,
        path_and_query: Some(
            match uri.path_and_query {
                Some(path) => path,
                None => "/"@,
            },
        ),
    }
}

/// A URI by its authority alone, as a `CONNECT` request has it.
pub open spec fn in_authority_form(uri: UriView) -> UriView {
    UriView { scheme: None, authority: uri.authority, path_and_query: None }
}

/// The target of a request to an origin server.
pub open spec fn request_target(is_connect: bool, uri: UriView) -> UriView {
    if is_connect {
        in_authority_form(uri)
    } else {
        in_origin_form(uri)
    }
}

/// Leaves only the path and query of a URI, a slash if it has none.
pub fn origin_form(uri: &mut Uri)
    ensures
        final(uri)@ == in_origin_form(old(uri)@),
{
    let path = match uri.path_and_query.take() {
        Some(path) => path,
        None => {
            let mut slash = String::new();
            slash.append("/");
            assert(slash@ =~= "/"@);
            slash
        },
    };
    *uri = Uri { scheme: None, authority: None, path_and_query: Some(path) };
}

/// Leaves only the authority of a URI.
pub fn authority_form(uri: &mut Uri)
    requires
        old(uri)@.authority is Some,
    ensures
        final(uri)@ == in_authority_form(old(uri)@),
{
    let authority = uri.authority.take();
    *uri = Uri { scheme: None, authority, path_and_query: None };
}

/// Gives requests the target that HTTP/1 wants.
#[derive(Clone, Debug)]
pub struct Http1RequestTarget<S> {
    inner: S,
}

impl<S> Http1RequestTarget<S> {
    /// The inner service.
    pub closed spec fn wrapped(self) -> S {
        self.inner
    }

    /// Wraps a service.
    pub fn new(inner: S) -> (r: Self)
        ensures
            r.wrapped() == inner,
    {
        Http1RequestTarget { inner }
    }

    /// Access the inner service.
    pub fn inner(&self) -> (r: &S)
        ensures
            *r == self.wrapped(),
    {
        &self.inner
    }

    /// Gives a request its target. The inner service is called after that.
    pub fn call(&mut self, is_connect: bool, uri: &mut Uri)
        requires
            is_connect ==> old(uri)@.authority is Some,
        ensures
            final(uri)@ == request_target(is_connect, old(uri)@),
            *final(self) == *old(self),
    {
        // CONNECT always sends authority-form, so check it first...
        if is_connect {
            authority_form(uri);
        } else {
            origin_form(uri);
        }
    }
}

/// Setting the host twice is the same as setting it once, and a `Host` that was there stays.
pub proof fn lemma_host_set_once(
    headers: Map<Seq<char>, Seq<FieldValueView>>,
    first: UriView,
    second: UriView,
)
    ensures
        with_host(with_host(headers, first), second) == with_host(headers, first),
        with_host(headers, first).contains_key(Field::Host.name()),
        headers.contains_key(Field::Host.name()) ==> with_host(headers, first) == headers,
        forall|name: Seq<char>|
            name != Field::Host.name() && headers.contains_key(name) ==> #[trigger] with_host(
                headers,
                first,
            )[name] == headers[name],
{
}

/// A target that was given once is not changed by giving it again.
pub proof fn lemma_target_given_once(is_connect: bool, uri: UriView)
    ensures
        request_target(is_connect, request_target(is_connect, uri)) == request_target(
            is_connect,
            uri,
        ),
{
}

/// What stands in the request line: for `CONNECT` the authority of the URI, for every other method
/// its path and query, or a slash.
pub proof fn lemma_target_text(uri: UriView)
    ensures
        uri.authority is Some ==> request_target(true, uri).text() == uri.authority->0.text,
        uri.path_and_query is None ==> request_target(false, uri).text() == seq!['/'],
        uri.path_and_query is Some && uri.path_and_query->0.len() > 0 && uri.path_and_query->0[0]
            == '/' ==> request_target(false, uri).text() == uri.path_and_query->0,
        request_target(false, uri).authority is None,
        request_target(false, uri).scheme is None,
{
    reveal_strlit("/");
    assert("/"@ =~= seq!['/']);
    let none = Seq::<char>::empty();
    if uri.path_and_query is Some {
        let path = uri.path_and_query->0;
        assert(none + none + path =~= path);
    }
    assert(none + none + seq!['/'] =~= seq!['/']);
    if uri.authority is Some {
        assert(none + uri.authority->0.text + none =~= uri.authority->0.text);
    }
}

/// A `Host` that was missing is the host of the URI, with its port unless that is the usual one. No
/// other header is added, and none is taken away.
pub proof fn lemma_host_added(
    headers: Map<Seq<char>, Seq<FieldValueView>>,
    uri: UriView,
    name: Seq<char>,
)
    ensures
        !headers.contains_key("host"@) ==> with_host(headers, uri)["host"@].len() == 1
            && with_host(headers, uri)["host"@][0].bytes == encode_utf8(host_text(uri))
            && !with_host(headers, uri)["host"@][0].sensitive,
        name != "host"@ ==> (with_host(headers, uri).contains_key(name) <==> headers.contains_key(
            name,
        )),
        name != "host"@ && headers.contains_key(name) ==> with_host(headers, uri)[name]
            == headers[name],
{
}

} // verus!
