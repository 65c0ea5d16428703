//! Tunnels through an HTTP proxy, by a `CONNECT` request written by hand.

use vstd::prelude::*;

use vstd::utf8::encode_utf8;
use vstd::utf8::is_ascii_chars;
use vstd::utf8::is_ascii_chars_encode_utf8;

use super::http_connect::tunnel_port;
use crate::error::IoError;
use crate::header::value_view;
use crate::header::FieldValue;
use crate::header::FieldValueView;
use crate::text::bytes_end_with;
use crate::text::bytes_start_with;
use crate::text::decimal;
use crate::text::ends_with;
use crate::text::lemma_ends_with;
use crate::text::lemma_starts_with;
use crate::text::push_decimal;
use crate::text::starts_with;
use crate::uri::Uri;

verus! {

/// Tunnel Proxy via HTTP CONNECT
pub struct Tunnel<C> {
    pub auth: Option<FieldValue>,
    pub inner: C,
    pub proxy_dst: Uri,
}

/// Why a tunnel could not be made. `C` is the error of the connector below.
#[derive(Debug)]
pub enum TunnelError<C> {
    Inner(C),
    Io(IoError),
    MissingHost,
    ProxyAuthRequired,
    ProxyHeadersTooLong,
    TunnelUnexpectedEof,
    TunnelUnsuccessful,
}

impl<C> Tunnel<C> {
    /// Create a new Tunnel service.
    pub fn new(proxy_dst: Uri, connector: C) -> (r: Self)
        ensures
            r.auth is None,
            r.inner == connector,
            r.proxy_dst == proxy_dst,
    {
        Tunnel { auth: None, inner: connector, proxy_dst }
    }

    /// Add `proxy-authorization` header value to the CONNECT request. The value is sensitive.
    pub fn with_auth(self, auth: FieldValue) -> (r: Self)
        ensures
            value_view(r.auth) == Some(FieldValueView { bytes: auth@.bytes, sensitive: true }),
            r.inner == self.inner,
            r.proxy_dst == self.proxy_dst,
    {
        let mut auth = auth;
        auth.set_sensitive(true);
        Tunnel { auth: Some(auth), inner: self.inner, proxy_dst: self.proxy_dst }
    }

    /// The request to send for a destination, once the connection to the proxy is made. Without a
    /// port it is the one of `https`.
    pub fn request<E>(&self, dst: &Uri) -> (r: Result<Vec<u8>, TunnelError<E>>)
        ensures
            match dst@.host() {
                Some(host) => r matches Ok(bytes) && bytes@ == connect_bytes(
                    host,
                    match dst@.port() {
                        Some(p) => p,
                        None => 443u16,
                    },
                    None,
                    value_view(self.auth),
                ),
                None => r == Err::<Vec<u8>, TunnelError<E>>(TunnelError::MissingHost),
            },
            r matches Ok(bytes) ==> bytes@ == connect_bytes(
                dst@.host()->0,
                tunnel_port(dst@),
                None,
                value_view(self.auth),
            ),
    {
        let port: u16 = match dst.port() {
            Some(p) => p,
            None => 443,
        };
        match dst.host() {
            None => Err(TunnelError::MissingHost),
            Some(host) => Ok(connect_request(host, port, &None, &self.auth)),
        }
    }
}

/// The request line and the host field of a `CONNECT` request.
pub open spec fn connect_head(host: Seq<char>, port: u16) -> Seq<char> {
    "CONNECT "@ + host + ":"@ + decimal(port as nat) + " HTTP/1.1\r\nHost: "@ + host + ":"@
        + decimal(port as nat) + "\r\n"@
}

/// A header field on the wire, or nothing without a value.
pub open spec fn field_bytes(name: Seq<char>, value: Option<FieldValueView>) -> Seq<u8> {
    match value {
        Some(v) => encode_utf8(name) + v.bytes + encode_utf8("\r\n"@),
        None => Seq::empty(),
    }
}

/// A `CONNECT` request on the wire.
pub open spec fn connect_bytes(
    host: Seq<char>,
    port: u16,
    user_agent: Option<FieldValueView>,
    auth: Option<FieldValueView>,
) -> Seq<u8> {
    encode_utf8(connect_head(host, port)) + field_bytes("User-Agent: "@, user_agent)
        + field_bytes("Proxy-Authorization: "@, auth) + encode_utf8("\r\n"@)
}

fn push_field(buf: &mut Vec<u8>, name: &str, value: &Option<FieldValue>)
    ensures
        final(buf)@ == old(buf)@ + field_bytes(name@, value_view(*value)),
{
    let ghost before = buf@;
    if let Some(value) = value {
        buf.extend_from_slice(name.as_bytes());
        buf.extend_from_slice(value.as_bytes());
        buf.extend_from_slice("\r\n".as_bytes());
    }
    assert(buf@ =~= before + field_bytes(name@, value_view(*value)));
}

/// Writes a `CONNECT` request.
pub fn connect_request(
    host: &str,
    port: u16,
    user_agent: &Option<FieldValue>,
    auth: &Option<FieldValue>,
) -> (r: Vec<u8>)
    ensures
        r@ == connect_bytes(host@, port, value_view(*user_agent), value_view(*auth)),
{
    let mut head = "CONNECT ".to_owned();
    head.append(host);
    head.append(":");
    push_decimal(&mut head, port as u32);
    head.append(" HTTP/1.1\r\nHost: ");
    head.append(host);
    head.append(":");
    push_decimal(&mut head, port as u32);
    head.append("\r\n");
    assert(head@ =~= connect_head(host@, port));
    let mut buf: Vec<u8> = Vec::new();
    buf.extend_from_slice(head.as_str().as_bytes());
    assert(buf@ =~= encode_utf8(connect_head(host@, port)));
    push_field(&mut buf, "User-Agent: ", user_agent);
    push_field(&mut buf, "Proxy-Authorization: ", auth);
    buf.extend_from_slice("\r\n".as_bytes());
    buf
}

/// The longest reply that is read.
pub const MAX_REPLY: usize = 8192;

/// What a reply so far means.
#[derive(Debug, Clone, Copy, PartialEq, Eq, Structural)]
pub enum ReplyStep {
    /// Read more, up to the longest reply.
    Read,
    /// The tunnel is established.
    Done,
}

/// What the bytes of a reply so far mean.
pub open spec fn reply_outcome<E>(b: Seq<u8>) -> Result<ReplyStep, TunnelError<E>> {
    if starts_with(b, encode_utf8("HTTP/1.1 200"@)) || starts_with(
        b,
        encode_utf8("HTTP/1.0 200"@),
    ) {
        if ends_with(b, encode_utf8("\r\n\r\n"@)) {
            Ok(ReplyStep::Done)
        } else if b.len() == MAX_REPLY {
            Err(TunnelError::ProxyHeadersTooLong)
        } else {
            Ok(ReplyStep::Read)
        }
    } else if starts_with(b, encode_utf8("HTTP/1.1 407"@)) {
        Err(TunnelError::ProxyAuthRequired)
    } else {
        Err(TunnelError::TunnelUnsuccessful)
    }
}

/// The reply of a proxy as far as it has been read.
#[derive(Debug)]
pub struct Reply {
    buf: Vec<u8>,
}

impl Reply {
    /// The bytes read so far.
    pub closed spec fn bytes(&self) -> Seq<u8> {
        self.buf@
    }

    /// Nothing has been read.
    pub fn new() -> (r: Reply)
        ensures
            r.bytes() == Seq::<u8>::empty(),
    {
        Reply { buf: Vec::new() }
    }

    /// How many bytes more are read.
    pub fn room(&self) -> (r: usize)
        requires
            self.bytes().len() <= MAX_REPLY,
        ensures
            r == MAX_REPLY - self.bytes().len(),
    {
        MAX_REPLY - self.buf.len()
    }

    /// Goes on with bytes that came from the proxy. Reading nothing is the end of the stream.
    pub fn received<E>(&mut self, read: &[u8]) -> (r: Result<ReplyStep, TunnelError<E>>)
        requires
            old(self).bytes().len() + read@.len() <= MAX_REPLY,
        ensures
            final(self).bytes() == old(self).bytes() + read@,
            read@.len() == 0 ==> r == Err::<ReplyStep, TunnelError<E>>(
                TunnelError::TunnelUnexpectedEof,
            ),
            read@.len() > 0 ==> r == reply_outcome::<E>(old(self).bytes() + read@),
    {
        let ghost before = self.buf@;
        self.buf.extend_from_slice(read);
        assert(self.buf@ =~= before + read@);
        if read.len() == 0 {
            return Err(TunnelError::TunnelUnexpectedEof);
        }
        let b = self.buf.as_slice();
        if bytes_start_with(b, "HTTP/1.1 200".as_bytes()) || bytes_start_with(
            b,
            "HTTP/1.0 200".as_bytes(),
        ) {
            if bytes_end_with(b, "\r\n\r\n".as_bytes()) {
                return Ok(ReplyStep::Done);
            }
            if b.len() == MAX_REPLY {
                return Err(TunnelError::ProxyHeadersTooLong);
            }
            Ok(ReplyStep::Read)
        } else if bytes_start_with(b, "HTTP/1.1 407".as_bytes()) {
            Err(TunnelError::ProxyAuthRequired)
        } else {
            Err(TunnelError::TunnelUnsuccessful)
        }
    }
}

/// A request to read more leaves room to read into.
pub proof fn lemma_read_has_room<E>(b: Seq<u8>)
    requires
        b.len() <= MAX_REPLY,
        reply_outcome::<E>(b) == Ok::<ReplyStep, TunnelError<E>>(ReplyStep::Read),
    ensures
        b.len() < MAX_REPLY,
{
}

/// A `CONNECT` request in lines: the destination in the first line and in the host field, then the
/// fields that have a value, each in a line of its own, and an empty line.
pub proof fn lemma_connect_lines(
    host: Seq<char>,
    port: u16,
    agent: FieldValueView,
    auth: FieldValueView,
)
    ensures
        ({
            let authority = host + seq![':'] + decimal(port as nat);
            connect_head(host, port) == "CONNECT "@ + authority + " HTTP/1.1\r\n"@ + "Host: "@
                + authority + "\r\n"@
        }),
        ({
            let head = encode_utf8(connect_head(host, port));
            let end = seq![13u8, 10u8];
            let agent_line = encode_utf8("User-Agent: "@) + agent.bytes + end;
            let auth_line = encode_utf8("Proxy-Authorization: "@) + auth.bytes + end;
            &&& connect_bytes(host, port, None, None) == head + end
            &&& connect_bytes(host, port, None, Some(auth)) == head + auth_line + end
            &&& connect_bytes(host, port, Some(agent), None) == head + agent_line + end
            &&& connect_bytes(host, port, Some(agent), Some(auth)) == head + agent_line + auth_line
                + end
        }),
{
    reveal_strlit(":");
    reveal_strlit(" HTTP/1.1\r\nHost: ");
    reveal_strlit(" HTTP/1.1\r\n");
    reveal_strlit("Host: ");
    reveal_strlit("\r\n");
    assert(" HTTP/1.1\r\nHost: "@ =~= " HTTP/1.1\r\n"@ + "Host: "@);
    assert(":"@ =~= seq![':']);
    let authority = host + seq![':'] + decimal(port as nat);
    assert(connect_head(host, port) =~= "CONNECT "@ + authority + " HTTP/1.1\r\n"@ + "Host: "@
        + authority + "\r\n"@);
    assert(is_ascii_chars("\r\n"@));
    is_ascii_chars_encode_utf8("\r\n"@);
    let end = seq![13u8, 10u8];
    assert(encode_utf8("\r\n"@) =~= end);
    let head = encode_utf8(connect_head(host, port));
    let agent_line = encode_utf8("User-Agent: "@) + agent.bytes + end;
    let auth_line = encode_utf8("Proxy-Authorization: "@) + auth.bytes + end;
    assert(connect_bytes(host, port, None, None) =~= head + end);
    assert(connect_bytes(host, port, None, Some(auth)) =~= head + auth_line + end);
    assert(connect_bytes(host, port, Some(agent), None) =~= head + agent_line + end);
    assert(connect_bytes(host, port, Some(agent), Some(auth)) =~= head + agent_line + auth_line
        + end);
}

/// The bytes of twelve characters of a status line: the version, a space and the status.
pub open spec fn status_line(b: Seq<u8>, minor: int, status: int) -> bool {
    &&& b.len() >= 12
    &&& b[0] == 72 && b[1] == 84 && b[2] == 84 && b[3] == 80 && b[4] == 47 && b[5] == 49 && b[6]
        == 46
    &&& b[7] == 48 + minor && b[8] == 32
    &&& 48 <= b[9] <= 57 && 48 <= b[10] <= 57 && 48 <= b[11] <= 57
    &&& 100 * (b[9] - 48) + 10 * (b[10] - 48) + (b[11] - 48) == status
}

/// The tunnel is established by a reply of HTTP/1.0 or HTTP/1.1 with the status 200 that ends in an
/// empty line, and by no other. Of the refusals, a reply of HTTP/1.1 with the status 407 asks for
/// credentials.
pub proof fn lemma_reply_decides<E>(b: Seq<u8>)
    ensures
        ({
            let accepted = status_line(b, 0, 200) || status_line(b, 1, 200);
            let n = b.len() as int;
            let ended = n >= 4 && b[n - 4] == 13 && b[n - 3] == 10 && b[n - 2] == 13 && b[n - 1]
                == 10;
            let r = reply_outcome::<E>(b);
            &&& r == Ok::<ReplyStep, TunnelError<E>>(ReplyStep::Done) <==> accepted && ended
            &&& r == Ok::<ReplyStep, TunnelError<E>>(ReplyStep::Read) <==> accepted && !ended && n
                != 8192
            &&& r == Err::<ReplyStep, TunnelError<E>>(TunnelError::ProxyHeadersTooLong)
                <==> accepted && !ended && n == 8192
            &&& r == Err::<ReplyStep, TunnelError<E>>(TunnelError::ProxyAuthRequired)
                <==> status_line(b, 1, 407)
            &&& r == Err::<ReplyStep, TunnelError<E>>(TunnelError::TunnelUnsuccessful)
                <==> !accepted && !status_line(b, 1, 407)
        }),
{
    let new = "HTTP/1.1 200"@;
    let old = "HTTP/1.0 200"@;
    let auth = "HTTP/1.1 407"@;
    let end = "\r\n\r\n"@;
    reveal_strlit("HTTP/1.1 200");
    reveal_strlit("HTTP/1.0 200");
    reveal_strlit("HTTP/1.1 407");
    reveal_strlit("\r\n\r\n");
    assert(is_ascii_chars(new) && is_ascii_chars(old) && is_ascii_chars(auth) && is_ascii_chars(
        end,
    ));
    is_ascii_chars_encode_utf8(new);
    is_ascii_chars_encode_utf8(old);
    is_ascii_chars_encode_utf8(auth);
    is_ascii_chars_encode_utf8(end);
    lemma_starts_with(b, encode_utf8(new));
    lemma_starts_with(b, encode_utf8(old));
    lemma_starts_with(b, encode_utf8(auth));
    lemma_ends_with(b, encode_utf8(end));
    let e1 = encode_utf8(new);
    let e0 = encode_utf8(old);
    let ea = encode_utf8(auth);
    let ee = encode_utf8(end);
    assert(e1 =~= seq![72u8, 84, 84, 80, 47, 49, 46, 49, 32, 50, 48, 48]);
    assert(e0 =~= seq![72u8, 84, 84, 80, 47, 49, 46, 48, 32, 50, 48, 48]);
    assert(ea =~= seq![72u8, 84, 84, 80, 47, 49, 46, 49, 32, 52, 48, 55]);
    assert(ee =~= seq![13u8, 10, 13, 10]);
    lemma_twelve(b, e1, 1, 200);
    lemma_twelve(b, e0, 0, 200);
    lemma_twelve(b, ea, 1, 407);
    let n = b.len() as int;
    if ends_with(b, ee) {
        assert(b[n - 4] == ee[0] && b[n - 4 + 1] == ee[1] && b[n - 4 + 2] == ee[2] && b[n - 4 + 3]
            == ee[3]);
    }
}

/// A start of twelve bytes, byte by byte.
proof fn lemma_twelve(b: Seq<u8>, start: Seq<u8>, minor: int, status: int)
    requires
        start.len() == 12,
        status_line(start, minor, status),
        minor == 0 || minor == 1,
    ensures
        starts_with(b, start) <==> status_line(b, minor, status),
{
    lemma_starts_with(b, start);
    if starts_with(b, start) {
        assert(b[0] == start[0] && b[1] == start[1] && b[2] == start[2] && b[3] == start[3] && b[4]
            == start[4] && b[5] == start[5] && b[6] == start[6] && b[7] == start[7] && b[8]
            == start[8] && b[9] == start[9] && b[10] == start[10] && b[11] == start[11]);
    }
    if status_line(b, minor, status) {
        assert forall|i: int| 0 <= i < 12 implies b[i] == #[trigger] start[i] by {
            assert(i == 0 || i == 1 || i == 2 || i == 3 || i == 4 || i == 5 || i == 6 || i == 7 || i
                == 8 || i == 9 || i == 10 || i == 11);
        }
    }
}

} // verus!
