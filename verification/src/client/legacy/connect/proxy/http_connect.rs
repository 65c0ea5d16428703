//! Tunnels through an HTTP proxy, by a `CONNECT` request on an HTTP/1 connection.

use vstd::prelude::*;

use http::HeaderMap;
use vstd::utf8::encode_utf8;

use crate::client::connect::http_connector::destination_port;
use crate::header::few_names;
use crate::header::header_clone;
use crate::header::header_extend;
use crate::header::header_insert;
use crate::header::header_new;
use crate::header::header_or_insert;
use crate::header::header_text_bytes;
use crate::header::headers_of;
use crate::header::Field;
use crate::header::FieldValue;
use crate::header::FieldValueView;
use crate::text::chars_of;
use crate::text::decimal;
use crate::text::find_char;
use crate::text::push_decimal;
use crate::uri::uri_of_text;
use crate::uri::Uri;
use crate::uri::UriView;

verus! {

/// Tunnel proxy via HTTP CONNECT, preserving early data.
///
/// This is a connector that wraps another connector, and after getting an underlying connection,
/// establishes a tunnel by sending a real HTTP CONNECT request over an HTTP/1 connection and
/// returning the upgraded IO.
pub struct HttpConnect<C> {
    pub headers: Headers,
    pub inner: C,
    pub proxy_dst: Uri,
}

/// The header fields to send beside the host.
pub enum Headers {
    Empty,
    Auth(FieldValue),
    Extra(HeaderMap<http::HeaderValue>),
}

/// Why a tunnel could not be made. `C` is the error of the connector below, `H` the one of the
/// HTTP connection.
#[derive(Debug)]
pub enum HttpConnectError<C, H> {
    /// The underlying connector failed to connect to the proxy.
    ConnectFailed(C),
    /// The HTTP/1 handshake with the proxy failed.
    Handshake(H),
    /// The destination URI is missing a host.
    MissingHost,
    /// The proxy responded with `407 Proxy Authentication Required`.
    ProxyAuthRequired,
    /// The connection closed before the tunnel was established.
    UnexpectedEof,
    /// The proxy responded with a non-successful status.
    Unsuccessful(u16),
}

/// What `http::StatusCode` writes for a status.
pub uninterp spec fn status_text(status: u16) -> Seq<char>;

/// `http::StatusCode` writes a status as its number and reason. It holds numbers of three digits.
#[verifier::external_body]
fn status_display(status: u16) -> (r: String)
    requires
        100 <= status <= 999,
    ensures
        r@ == status_text(status),
{
    http::StatusCode::from_u16(status).expect("three digits").to_string()
}

impl<C, H> HttpConnectError<C, H> {
    /// What the error says, after a common start.
    pub open spec fn detail(self) -> Seq<char> {
        match self {
            HttpConnectError::ConnectFailed(_) => "failed to create underlying connection"@,
            HttpConnectError::Handshake(_) => "handshake failed"@,
            HttpConnectError::MissingHost => "missing destination host"@,
            HttpConnectError::ProxyAuthRequired => "proxy authorization required"@,
            HttpConnectError::UnexpectedEof => "connection closed before tunnel established"@,
            HttpConnectError::Unsuccessful(status) => "unsuccessful status ("@ + status_text(status)
                + ")"@,
        }
    }

    /// The message of the error.
    pub fn text(&self) -> (r: String)
        requires
            *self matches HttpConnectError::Unsuccessful(status) ==> 100 <= status <= 999,
        ensures
            r@ == "http connect error: "@ + self.detail(),
    {
        let mut out = "http connect error: ".to_owned();
        match self {
            HttpConnectError::ConnectFailed(_) => {
                out.append("failed to create underlying connection");
            },
            HttpConnectError::Handshake(_) => {
                out.append("handshake failed");
            },
            HttpConnectError::MissingHost => {
                out.append("missing destination host");
            },
            HttpConnectError::ProxyAuthRequired => {
                out.append("proxy authorization required");
            },
            HttpConnectError::UnexpectedEof => {
                out.append("connection closed before tunnel established");
            },
            HttpConnectError::Unsuccessful(status) => {
                out.append("unsuccessful status (");
                out.append(status_display(*status).as_str());
                out.append(")");
            },
        }
        assert(out@ =~= "http connect error: "@ + self.detail());
        out
    }
}

impl Headers {
    /// The fields to send.
    pub open spec fn fields(self) -> Map<Seq<char>, Seq<FieldValueView>> {
        match self {
            Headers::Empty => Map::empty(),
            Headers::Auth(auth) => Map::empty().insert(
                Field::ProxyAuthorization.name(),
                seq![auth@],
            ),
            Headers::Extra(extra) => headers_of(extra),
        }
    }
}

impl<C> HttpConnect<C> {
    /// Create a new `HttpConnect` service.
    ///
    /// This wraps an underlying connector, and stores the address of a tunneling proxy server.
    pub fn new(proxy_dst: Uri, connector: C) -> (r: Self)
        ensures
            r.headers is Empty,
            r.inner == connector,
            r.proxy_dst == proxy_dst,
    {
        HttpConnect { headers: Headers::Empty, inner: connector, proxy_dst }
    }

    /// Add `proxy-authorization` header value to the CONNECT request, in place of an earlier one.
    /// The value is sensitive.
    pub fn with_auth(self, auth: FieldValue) -> (r: Self)
        requires
            self.headers is Extra ==> few_names(
                self.headers.fields().dom().insert(Field::ProxyAuthorization.name()),
            ),
        ensures
            r.headers.fields() == self.headers.fields().insert(
                Field::ProxyAuthorization.name(),
                seq![FieldValueView { bytes: auth@.bytes, sensitive: true }],
            ),
            r.inner == self.inner,
            r.proxy_dst == self.proxy_dst,
    {
        let mut auth = auth;
        auth.set_sensitive(true);
        let headers = match self.headers {
            Headers::Empty => Headers::Auth(auth),
            Headers::Auth(_) => Headers::Auth(auth),
            Headers::Extra(mut extra) => {
                header_insert(&mut extra, Field::ProxyAuthorization, &auth);
                Headers::Extra(extra)
            },
        };
        assert(headers.fields() =~= self.headers.fields().insert(
            Field::ProxyAuthorization.name(),
            seq![auth@],
        ));
        HttpConnect { headers, inner: self.inner, proxy_dst: self.proxy_dst }
    }

    /// Add extra headers to be sent with the CONNECT request.
    ///
    /// If existing headers have been set, these will be merged: under a name that is in both, the
    /// new values stand.
    pub fn with_headers(self, headers: HeaderMap<http::HeaderValue>) -> (r: Self)
        requires
            self.headers is Empty || few_names(
                self.headers.fields().dom().union(headers_of(headers).dom()),
            ),
        ensures
            r.headers.fields() == self.headers.fields().union_prefer_right(headers_of(headers)),
            r.inner == self.inner,
            r.proxy_dst == self.proxy_dst,
    {
        let ghost added = headers_of(headers);
        let mut headers = headers;
        let merged = match self.headers {
            Headers::Empty => Headers::Extra(headers),
            Headers::Auth(auth) => {
                assert(added.dom().insert(Field::ProxyAuthorization.name())
                    =~= self.headers.fields().dom().union(added.dom()));
                header_or_insert(&mut headers, Field::ProxyAuthorization, &auth);
                Headers::Extra(headers)
            },
            Headers::Extra(mut extra) => {
                header_extend(&mut extra, headers);
                Headers::Extra(extra)
            },
        };
        assert(merged.fields() =~= self.headers.fields().union_prefer_right(added));
        HttpConnect { headers: merged, inner: self.inner, proxy_dst: self.proxy_dst }
    }
}

/// The port that a proxy is asked for: the one that is written, or that of `https`.
pub open spec fn tunnel_port(dst: UriView) -> u16 {
    match dst.port() {
        Some(port) => port,
        None => 443,
    }
}

/// A proxy is asked for the port to which a destination with the scheme `https` is connected.
pub proof fn lemma_tunnel_port(dst: UriView)
    ensures
        dst.scheme == Some("https"@) ==> tunnel_port(dst) == destination_port(dst),
        tunnel_port(dst) == tunnel_port(UriView { scheme: Some("https"@), ..dst }),
{
}

/// The host and port that the proxy is asked for. Without a port it is the one of `https`.
pub fn destination<C, H>(dst: &Uri) -> (r: Result<(String, u16), HttpConnectError<C, H>>)
    ensures
        match r {
            Ok((host, port)) => {
                &&& dst@.host() == Some(host@)
                &&& port == tunnel_port(dst@)
                &&& port == match dst@.port() {
                    Some(p) => p,
                    None => 443u16,
                }
            },
            Err(e) => dst@.host() is None && e == HttpConnectError::<C, H>::MissingHost,
        },
{
    let port: u16 = match dst.port() {
        Some(p) => p,
        None => 443,
    };
    match dst.host() {
        Some(host) => Ok((host.to_owned(), port)),
        None => Err(HttpConnectError::MissingHost),
    }
}

/// Whether a host is an IPv6 literal that still lacks its brackets.
pub open spec fn lacks_brackets(host: Seq<char>) -> bool {
    host.contains(':') && !(host.len() > 0 && host[0] == '[')
}

/// The authority of a host and port. An IPv6 literal stands in brackets, which the host of a URI
/// already has.
pub open spec fn authority_text(host: Seq<char>, port: u16) -> Seq<char> {
    if lacks_brackets(host) {
        "["@ + host + "]:"@ + decimal(port as nat)
    } else {
        host + ":"@ + decimal(port as nat)
    }
}

/// An IPv6 literal is asked for in one pair of brackets, whether the host has them already or not.
pub proof fn lemma_brackets_once(address: Seq<char>, port: u16)
    requires
        lacks_brackets(address),
    ensures
        authority_text("["@ + address + "]"@, port) == authority_text(address, port),
{
    reveal_strlit("[");
    reveal_strlit("]");
    reveal_strlit(":");
    reveal_strlit("]:");
    let host = "["@ + address + "]"@;
    assert(host[0] == '[');
    assert(authority_text(host, port) =~= authority_text(address, port));
}

/// The port stands behind the host and a colon. A host with a colon in it stands in brackets.
pub proof fn lemma_authority(host: Seq<char>, port: u16)
    ensures
        !host.contains(':') ==> authority_text(host, port) == host + seq![':'] + decimal(
            port as nat,
        ),
        host.len() > 0 && host[0] == '[' ==> authority_text(host, port) == host + seq![':']
            + decimal(port as nat),
        host.contains(':') && host[0] != '[' ==> authority_text(host, port) == seq!['['] + host
            + seq![']', ':'] + decimal(port as nat),
{
    reveal_strlit(":");
    reveal_strlit("[");
    reveal_strlit("]:");
    assert(":"@ =~= seq![':']);
    assert("["@ =~= seq!['[']);
    assert("]:"@ =~= seq![']', ':']);
    if host.contains(':') {
        assert(host.len() > 0);
    }
}

fn authority_of(host: &str, port: u16) -> (r: String)
    ensures
        r@ == authority_text(host@, port),
{
    let chars = chars_of(host);
    let mut out = String::new();
    let bracketed = chars.len() > 0 && chars[0] == '[';
    if !bracketed && find_char(chars.as_slice(), ':').is_some() {
        out.append("[");
        out.append(host);
        out.append("]:");
    } else {
        out.append(host);
        out.append(":");
    }
    push_decimal(&mut out, port as u32);
    assert(out@ =~= authority_text(host@, port));
    out
}

/// A `CONNECT` request: its target in authority form, and its header fields.
#[derive(Debug)]
pub struct ConnectRequest {
    pub target: Uri,
    pub headers: HeaderMap<http::HeaderValue>,
}

/// Makes the `CONNECT` request for a host and port. The given header fields are added to the host,
/// and may replace it.
pub fn connect_request<C, H>(host: &str, port: u16, headers: &Headers) -> (r: Result<
    ConnectRequest,
    HttpConnectError<C, H>,
>)
    requires
        few_names(headers.fields().dom().insert(Field::Host.name())),
    ensures
        match uri_of_text(authority_text(host@, port)) {
            Some(target) if header_text_bytes(encode_utf8(authority_text(host@, port))) => {
                &&& r matches Ok(req)
                &&& req.target@ == target
                &&& headers_of(req.headers) == Map::<Seq<char>, Seq<FieldValueView>>::empty().insert(
                    Field::Host.name(),
                    seq![
                        FieldValueView {
                            bytes: encode_utf8(authority_text(host@, port)),
                            sensitive: false,
                        },
                    ],
                ).union_prefer_right(headers.fields())
            },
            _ => r == Err::<ConnectRequest, HttpConnectError<C, H>>(HttpConnectError::MissingHost),
        },
{
    let authority = authority_of(host, port);
    let target = match Uri::parse(authority.as_str()) {
        Some(target) => target,
        None => {
            return Err(HttpConnectError::MissingHost);
        },
    };
    let value = match FieldValue::from_str(authority.as_str()) {
        Some(value) => value,
        None => {
            return Err(HttpConnectError::MissingHost);
        },
    };
    let mut fields = header_new();
    let ghost host_only = Map::<Seq<char>, Seq<FieldValueView>>::empty().insert(
        Field::Host.name(),
        seq![value@],
    );
    proof {
        let one = headers_of(fields).dom().insert(Field::Host.name());
        let all = headers.fields().dom().insert(Field::Host.name());
        assert(one.subset_of(all));
        vstd::set_lib::lemma_len_subset(one, all);
    }
    header_insert(&mut fields, Field::Host, &value);
    assert(headers_of(fields) =~= host_only);
    match headers {
        Headers::Empty => {},
        Headers::Auth(auth) => {
            assert(headers_of(fields).dom().insert(Field::ProxyAuthorization.name())
                =~= headers.fields().dom().insert(Field::Host.name()));
            header_insert(&mut fields, Field::ProxyAuthorization, auth);
        },
        Headers::Extra(extra) => {
            let extra = header_clone(extra);
            assert(headers_of(fields).dom().union(headers_of(extra).dom())
                =~= headers.fields().dom().insert(Field::Host.name()));
            header_extend(&mut fields, extra);
        },
    }
    assert(headers_of(fields) =~= host_only.union_prefer_right(headers.fields()));
    Ok(ConnectRequest { target, headers: fields })
}

/// What a poll of a future gave.
#[derive(Debug)]
pub enum Polled<T, H> {
    Pending,
    Ready(Result<T, H>),
}

/// What is to be done next while a request and its connection are driven in one task.
#[derive(Debug)]
pub enum DriveStep<T, C, H> {
    /// Poll the connection, and report with `connection_polled`.
    PollConnection,
    /// Poll the awaited future once more, and report with `polled_again`.
    PollAgain,
    /// Wait to be woken, then poll the awaited future, and report with `polled`.
    Wait,
    /// The awaited future is done.
    Finished(Result<T, HttpConnectError<C, H>>),
}

/// What follows a poll of the awaited future, given whether the connection has resolved.
pub open spec fn after_awaited<T, C, H>(conn_done: bool, polled: Polled<T, H>) -> DriveStep<
    T,
    C,
    H,
> {
    match polled {
        Polled::Ready(Ok(t)) => DriveStep::Finished(Ok(t)),
        Polled::Ready(Err(e)) => DriveStep::Finished(Err(HttpConnectError::Handshake(e))),
        Polled::Pending => if conn_done {
            DriveStep::Wait
        } else {
            DriveStep::PollConnection
        },
    }
}

/// What follows a poll of the connection.
pub open spec fn after_connection<T, C, H>(polled: Polled<(), H>) -> DriveStep<T, C, H> {
    match polled {
        Polled::Ready(Ok(_)) => DriveStep::PollAgain,
        Polled::Ready(Err(e)) => DriveStep::Finished(Err(HttpConnectError::Handshake(e))),
        Polled::Pending => DriveStep::Wait,
    }
}

/// What follows the poll of the awaited future behind a connection that ended well.
pub open spec fn after_last<T, C, H>(polled: Polled<T, H>) -> DriveStep<T, C, H> {
    match polled {
        Polled::Ready(Ok(t)) => DriveStep::Finished(Ok(t)),
        Polled::Ready(Err(e)) => DriveStep::Finished(Err(HttpConnectError::Handshake(e))),
        Polled::Pending => DriveStep::Finished(Err(HttpConnectError::UnexpectedEof)),
    }
}

/// What the awaited future gives is the outcome, whenever it gives it. It is waited for as long as
/// the connection has not ended; one that ends well before it is an unexpected end, and one that
/// fails fails it. A connection that has resolved is not polled.
pub proof fn lemma_driven<T, C, H>(conn_done: bool, t: T, e: H)
    ensures
        after_awaited::<T, C, H>(conn_done, Polled::Ready(Ok(t))) == DriveStep::<T, C, H>::Finished(
            Ok(t),
        ),
        after_last::<T, C, H>(Polled::Ready(Ok(t))) == DriveStep::<T, C, H>::Finished(Ok(t)),
        after_awaited::<T, C, H>(conn_done, Polled::Ready(Err(e))) == DriveStep::<
            T,
            C,
            H,
        >::Finished(Err(HttpConnectError::Handshake(e))),
        after_awaited::<T, C, H>(conn_done, Polled::Pending) == DriveStep::<T, C, H>::PollConnection
            <==> !conn_done,
        after_connection::<T, C, H>(Polled::Pending) == DriveStep::<T, C, H>::Wait,
        after_connection::<T, C, H>(Polled::Ready(Ok(()))) == DriveStep::<T, C, H>::PollAgain,
        after_connection::<T, C, H>(Polled::Ready(Err(e))) == DriveStep::<T, C, H>::Finished(
            Err(HttpConnectError::Handshake(e)),
        ),
        after_last::<T, C, H>(Polled::Pending) == DriveStep::<T, C, H>::Finished(
            Err(HttpConnectError::UnexpectedEof),
        ),
{
}

/// Drives an HTTP connection beside a future that waits for it.
#[derive(Debug)]
pub struct Driver {
    conn_done: bool,
}

impl Driver {
    /// Whether the connection has resolved.
    pub closed spec fn conn_done(&self) -> bool {
        self.conn_done
    }

    /// A driver of a connection that has not resolved.
    pub fn new() -> (r: Driver)
        ensures
            !r.conn_done(),
    {
        Driver { conn_done: false }
    }

    /// Goes on after a poll of the awaited future. A connection that has resolved is not polled
    /// again.
    pub fn polled<T, C, H>(&self, polled: Polled<T, H>) -> (r: DriveStep<T, C, H>)
        ensures
            r == after_awaited::<T, C, H>(self.conn_done(), polled),
            match polled {
                Polled::Ready(Ok(t)) => r == DriveStep::<T, C, H>::Finished(Ok(t)),
                Polled::Ready(Err(e)) => r == DriveStep::<T, C, H>::Finished(
                    Err(HttpConnectError::Handshake(e)),
                ),
                Polled::Pending => if self.conn_done() {
                    r == DriveStep::<T, C, H>::Wait
                } else {
                    r == DriveStep::<T, C, H>::PollConnection
                },
            },
    {
        match polled {
            Polled::Ready(Ok(t)) => DriveStep::Finished(Ok(t)),
            Polled::Ready(Err(e)) => DriveStep::Finished(Err(HttpConnectError::Handshake(e))),
            Polled::Pending => {
                if self.conn_done {
                    DriveStep::Wait
                } else {
                    DriveStep::PollConnection
                }
            },
        }
    }

    /// Goes on after a poll of the connection. One that ended well may have completed the awaited
    /// future in the same poll.
    pub fn connection_polled<T, C, H>(&mut self, polled: Polled<(), H>) -> (r: DriveStep<T, C, H>)
        ensures
            r == after_connection::<T, C, H>(polled),
            match polled {
                Polled::Ready(Ok(_)) => r == DriveStep::<T, C, H>::PollAgain
                    && final(self).conn_done(),
                Polled::Ready(Err(e)) => r == DriveStep::<T, C, H>::Finished(
                    Err(HttpConnectError::Handshake(e)),
                ) && final(self).conn_done(),
                Polled::Pending => r == DriveStep::<T, C, H>::Wait && final(self).conn_done()
                    == old(self).conn_done(),
            },
    {
        match polled {
            Polled::Ready(Ok(())) => {
                self.conn_done = true;
                DriveStep::PollAgain
            },
            Polled::Ready(Err(e)) => {
                self.conn_done = true;
                DriveStep::Finished(Err(HttpConnectError::Handshake(e)))
            },
            Polled::Pending => DriveStep::Wait,
        }
    }

    /// Goes on after a poll of the awaited future behind a connection that ended well: what is not
    /// there now will not come.
    pub fn polled_again<T, C, H>(&self, polled: Polled<T, H>) -> (r: DriveStep<T, C, H>)
        ensures
            r == after_last::<T, C, H>(polled),
            match polled {
                Polled::Ready(Ok(t)) => r == DriveStep::<T, C, H>::Finished(Ok(t)),
                Polled::Ready(Err(e)) => r == DriveStep::<T, C, H>::Finished(
                    Err(HttpConnectError::Handshake(e)),
                ),
                Polled::Pending => r == DriveStep::<T, C, H>::Finished(
                    Err(HttpConnectError::UnexpectedEof),
                ),
            },
    {
        match polled {
            Polled::Ready(Ok(t)) => DriveStep::Finished(Ok(t)),
            Polled::Ready(Err(e)) => DriveStep::Finished(Err(HttpConnectError::Handshake(e))),
            Polled::Pending => DriveStep::Finished(Err(HttpConnectError::UnexpectedEof)),
        }
    }
}

/// What the status of the proxy's response means for the tunnel.
pub open spec fn status_outcome<C, H>(status: u16) -> Result<(), HttpConnectError<C, H>> {
    if status == 407 {
        Err(HttpConnectError::ProxyAuthRequired)
    } else if 200 <= status < 300 {
        Ok(())
    } else {
        Err(HttpConnectError::Unsuccessful(status))
    }
}

/// The tunnel is established on success alone: on a status of two hundred and something. Of all
/// others, which are refusals, the one that asks for credentials is told apart.
pub proof fn lemma_tunnel_on_success<C, H>(status: u16)
    ensures
        status_outcome::<C, H>(status) is Ok <==> status / 100 == 2,
        status_outcome::<C, H>(status) == Err::<(), HttpConnectError<C, H>>(
            HttpConnectError::ProxyAuthRequired,
        ) <==> status == 407,
        status / 100 != 2 && status != 407 ==> status_outcome::<C, H>(status) == Err::<
            (),
            HttpConnectError<C, H>,
        >(HttpConnectError::Unsuccessful(status)),
{
}

/// Checks the status of the proxy's response.
pub fn check_status<C, H>(status: u16) -> (r: Result<(), HttpConnectError<C, H>>)
    ensures
        r == status_outcome::<C, H>(status),
        r is Ok <==> status / 100 == 2,
        r == Err::<(), HttpConnectError<C, H>>(HttpConnectError::ProxyAuthRequired) <==> status
            == 407,
        status / 100 != 2 && status != 407 ==> r == Err::<(), HttpConnectError<C, H>>(
            HttpConnectError::Unsuccessful(status),
        ),
{
    if status == 407 {
        return Err(HttpConnectError::ProxyAuthRequired);
    }
    if !(200 <= status && status < 300) {
        return Err(HttpConnectError::Unsuccessful(status));
    }
    Ok(())
}

/// What is sent to the proxy beside the host: nothing by itself, credentials under their own name,
/// or the fields that were given.
pub proof fn lemma_headers_sent(auth: FieldValue, name: Seq<char>)
    ensures
        Headers::Empty.fields().dom().len() == 0,
        Headers::Auth(auth).fields().contains_key(name) <==> name == "proxy-authorization"@,
        Headers::Auth(auth).fields()["proxy-authorization"@] == seq![auth@],
{
}

} // verus!
