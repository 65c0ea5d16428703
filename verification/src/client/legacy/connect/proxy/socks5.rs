//! Tunnels through a SOCKS 5 proxy.

use vstd::prelude::*;

use vstd::utf8::encode_utf8;

use super::socks::v5::messages::credentials;
use super::socks::v5::messages::lemma_address_layout;
use super::socks::v5::messages::lemma_proxy_res_accepted;
use super::socks::v5::messages::lemma_status_codes;
use super::socks::v5::messages::Address;
use super::socks::v5::messages::AddressView;
use super::socks::v5::messages::AuthMethod;
use super::socks::v5::messages::AuthenticationReq;
use super::socks::v5::messages::AuthenticationRes;
use super::socks::v5::messages::NegotiationReq;
use super::socks::v5::messages::NegotiationRes;
use super::socks::v5::messages::ProxyReq;
use super::socks::v5::messages::ProxyRes;
use super::socks::v5::messages::Status;
use super::socks::v5::AuthError;
use super::socks::Message;
use super::socks::ParsingError;
use super::socks::SerializeError;
use crate::buffers::FixedBuf;
use crate::buffers::Sink;
use crate::error::IoError;
use crate::net::ip_of_text;
use crate::net::ipv4_of_text;
use crate::net::parse_ip;
use crate::net::SocketAddr;
use crate::text::chars_of;
use crate::uri::Uri;

verus! {

/// Tunnel Proxy via SOCKS 5 CONNECT
#[derive(Debug)]
pub struct Socks<C> {
    pub auth: Option<(String, String)>,
    pub inner: C,
    pub proxy_dst: Uri,
}

/// Why a tunnel could not be made. `C` is the error of the connector below.
#[derive(Debug)]
pub enum SocksError<C> {
    Inner(C),
    Io(IoError),
    Parsing(ParsingError),
    Serialize(SerializeError),
    Auth(AuthError),
    Command(Status),
    MissingHost,
    MissingPort,
    HostTooLong,
}

impl<C> Socks<C> {
    /// Create a new SOCKS CONNECT service
    pub fn new(proxy_dst: Uri, connector: C) -> (r: Self)
        ensures
            r.auth is None,
            r.inner == connector,
            r.proxy_dst == proxy_dst,
    {
        Socks { auth: None, inner: connector, proxy_dst }
    }

    /// Use User/Pass authentication method during handshake
    pub fn with_auth(self, user: String, pass: String) -> (r: Self)
        ensures
            r.auth == Some((user, pass)),
            r.inner == self.inner,
            r.proxy_dst == self.proxy_dst,
    {
        Socks { auth: Some((user, pass)), inner: self.inner, proxy_dst: self.proxy_dst }
    }
}

/// The host and port that the proxy is asked for. Both must be written.
pub fn destination<E>(dst: &Uri) -> (r: Result<(String, u16), SocksError<E>>)
    ensures
        match r {
            Ok((host, port)) => dst@.host() == Some(host@) && dst@.port() == Some(port),
            Err(e) => {
                ||| dst@.host() is None && e == SocksError::<E>::MissingHost
                ||| dst@.host() is Some && dst@.port() is None && e == SocksError::<E>::MissingPort
            },
        },
{
    match dst.host() {
        None => Err(SocksError::MissingHost),
        Some(host) => match dst.port() {
            None => Err(SocksError::MissingPort),
            Some(port) => Ok((host.to_owned(), port)),
        },
    }
}

/// The length of the buffer that messages are written to and read into.
pub const BUFFER: usize = 513;

/// How far a handshake has come.
#[derive(Debug, Clone, Copy, PartialEq, Eq, Structural)]
pub enum Phase {
    /// A method was offered.
    Negotiating,
    /// Credentials were sent.
    Authenticating,
    /// A connection was asked for.
    Requesting,
    /// The proxy has connected.
    Established,
}

/// What is to be done next in a handshake.
#[derive(Debug)]
pub enum Step {
    /// Send the bytes, then read up to 513 bytes, and report what came with `received`.
    Send(Vec<u8>),
    /// Read up to 513 bytes, and report what came with `received`.
    Read,
    /// The tunnel is established.
    Done,
}

/// Whether a step sends the given bytes.
pub open spec fn sends(step: Step, message: Seq<u8>) -> bool {
    step matches Step::Send(bytes) && bytes@ == message
}

/// A buffer after bytes were put at its start.
pub open spec fn overwritten(buf: Seq<u8>, front: Seq<u8>) -> Seq<u8> {
    front + buf.skip(front.len() as int)
}

/// Whether the reply to a request is cut short where its reader needs more: behind a status, or
/// within an IPv6 address.
pub open spec fn reply_cut_short(b: Seq<u8>) -> bool {
    ||| b.len() == 2 && b[0] == 0x05 && Status::of_code(b[1]) is Ok
    ||| 10 <= b.len() < 22 && b[0] == 0x05 && Status::of_code(b[1]) is Ok && b[2] == 0x00 && b[3]
        == 0x04
}

/// What a reply to a request says. Two bytes tell already that it is none.
pub open spec fn reply_of(b: Seq<u8>) -> Result<ProxyRes, ParsingError> {
    if b.len() == 2 {
        Err(ParsingError::Other)
    } else {
        ProxyRes::parse(b).0
    }
}

/// Reads the reply to a request.
pub fn read_reply(b: &[u8]) -> (r: Result<ProxyRes, ParsingError>)
    requires
        !reply_cut_short(b@),
    ensures
        r == reply_of(b@),
{
    if b.len() == 2 {
        return Err(ParsingError::Other);
    }
    let (r, _n) = ProxyRes::read(b);
    r
}

/// Whether bytes end where the reader of a reply would need more.
pub fn is_cut_short(b: &[u8]) -> (r: bool)
    ensures
        r == reply_cut_short(b@),
{
    if b.len() == 2 {
        b[0] == 0x05 && Status::try_from(b[1]).is_ok()
    } else {
        10 <= b.len() && b.len() < 22 && b[0] == 0x05 && Status::try_from(b[1]).is_ok() && b[2]
            == 0x00 && b[3] == 0x04
    }
}

/// A handshake with a proxy.
#[derive(Debug)]
pub struct Handshake {
    address: Address,
    auth: Option<(String, String)>,
    phase: Phase,
    buf: Vec<u8>,
    filled: usize,
}

impl Handshake {
    /// The buffer keeps its length, and credentials are sent only where there are some.
    pub closed spec fn wf(&self) -> bool {
        &&& self.buf@.len() == BUFFER
        &&& self.filled <= BUFFER
        &&& self.phase == Phase::Authenticating ==> self.auth is Some
        &&& match self.address@ {
            AddressView::Domain(domain, _) => encode_utf8(domain).len() <= 255,
            _ => true,
        }
    }

    /// The destination.
    pub closed spec fn address(&self) -> AddressView {
        self.address@
    }

    /// The credentials.
    pub closed spec fn auth(&self) -> Option<(String, String)> {
        self.auth
    }

    /// How far the handshake has come.
    pub closed spec fn phase(&self) -> Phase {
        self.phase
    }

    /// The buffer.
    pub closed spec fn buf(&self) -> Seq<u8> {
        self.buf@
    }

    /// How many bytes of the expected reply have been read.
    pub closed spec fn filled(&self) -> nat {
        self.filled as nat
    }

    /// The offered method.
    pub open spec fn method(&self) -> AuthMethod {
        if self.auth() is Some {
            AuthMethod::UserPass
        } else {
            AuthMethod::NoAuth
        }
    }

    /// What is taken for the reply after a read. Each read fills the buffer from its start.
    pub open spec fn reply(&self, read: Seq<u8>) -> Seq<u8> {
        overwritten(self.buf(), read).take((self.filled() + read.len()) as int)
    }

    /// The bytes that ask for the destination.
    pub open spec fn request(&self) -> Seq<u8> {
        seq![0x05u8, 0x01u8, 0x00u8] + self.address().encoded()
    }

    /// The bytes that carry the credentials.
    pub open spec fn credentials(&self) -> Seq<u8> {
        match self.auth() {
            Some((user, pass)) => credentials(user@, pass@),
            None => Seq::empty(),
        }
    }

    /// Whether a message is sent next, written to the buffer over what was read, and nothing of
    /// its reply has been read.
    pub open spec fn goes_on(
        before: Handshake,
        after: Handshake,
        read: Seq<u8>,
        phase: Phase,
        message: Seq<u8>,
        step: Step,
    ) -> bool {
        &&& sends(step, message)
        &&& after.phase() == phase
        &&& after.filled() == 0
        &&& after.buf() == overwritten(overwritten(before.buf(), read), message)
    }

    /// Whether the handshake asks for the destination next.
    pub open spec fn asks(before: Handshake, after: Handshake, read: Seq<u8>, step: Step) -> bool {
        Handshake::goes_on(before, after, read, Phase::Requesting, before.request(), step)
    }

    /// Whether a handshake has taken in what was read, and is as far as before.
    pub open spec fn took(before: Handshake, after: Handshake, read: Seq<u8>) -> bool {
        &&& after.phase() == before.phase()
        &&& after.filled() == before.filled() + read.len()
        &&& after.buf() == overwritten(before.buf(), read)
    }

    /// Whether the handshake is the same but for its phase, its buffer and what was read.
    pub open spec fn same_goal(before: Handshake, after: Handshake) -> bool {
        after.address() == before.address() && after.auth() == before.auth()
    }

    /// Whether a read can be reported: it fits the buffer, and a reply does not end where its
    /// reader needs more.
    pub fn accepts(&self, read: &[u8]) -> (r: bool)
        requires
            self.wf(),
        ensures
            r == (self.filled() + read@.len() <= BUFFER && (self.phase() == Phase::Requesting
                ==> !reply_cut_short(self.reply(read@)))),
    {
        if read.len() > BUFFER - self.filled {
            return false;
        }
        if self.phase != Phase::Requesting {
            return true;
        }
        let reply = self.reply_bytes(read);
        !is_cut_short(reply.as_slice())
    }

    /// The buffer's bytes that are taken for the reply after a read.
    fn reply_bytes(&self, read: &[u8]) -> (r: Vec<u8>)
        requires
            self.wf(),
            self.filled() + read@.len() <= BUFFER,
        ensures
            r@ == self.reply(read@),
    {
        let n: usize = read.len();
        let mut bytes: Vec<u8> = Vec::new();
        bytes.extend_from_slice(read);
        let total: usize = self.filled + n;
        if total > n {
            let tail: &[u8] = &self.buf.as_slice()[n..total];
            bytes.extend_from_slice(tail);
        }
        assert(bytes@ =~= self.reply(read@));
        bytes
    }

    /// Puts a message at the start of the buffer.
    fn put_front(&mut self, front: &[u8])
        requires
            old(self).wf(),
            front@.len() <= BUFFER,
        ensures
            final(self).wf(),
            final(self).buf() == overwritten(old(self).buf(), front@),
            final(self).phase() == old(self).phase(),
            final(self).filled() == old(self).filled(),
            Handshake::same_goal(*old(self), *final(self)),
    {
        let mut bytes: Vec<u8> = Vec::new();
        bytes.extend_from_slice(front);
        let tail: &[u8] = &self.buf.as_slice()[front.len()..BUFFER];
        bytes.extend_from_slice(tail);
        assert(bytes@ =~= overwritten(self.buf@, front@));
        self.buf = bytes;
    }

    /// Begins a handshake for a host and port. An address is asked for as it is; a name is left
    /// to the proxy, if it is at most 255 bytes long.
    pub fn start<E>(host: String, port: u16, auth: Option<(String, String)>) -> (r: Result<
        (Handshake, Step),
        SocksError<E>,
    >)
        ensures
            match r {
                Ok((h, step)) => {
                    &&& h.wf()
                    &&& h.phase() == Phase::Negotiating
                    &&& h.filled() == 0
                    &&& h.auth() == auth
                    &&& h.address() == match ip_of_text(host@) {
                        Some(octets) => if ipv4_of_text(host@) is Some {
                            AddressView::V4(octets, port)
                        } else {
                            AddressView::V6(octets, port)
                        },
                        None => AddressView::Domain(host@, port),
                    }
                    &&& ip_of_text(host@) is None ==> encode_utf8(host@).len() <= 255
                    &&& sends(step, seq![0x05u8, 0x01u8, h.method().code_spec()])
                    &&& h.buf() == overwritten(
                        Seq::new(BUFFER as nat, |i: int| 0u8),
                        seq![0x05u8, 0x01u8, h.method().code_spec()],
                    )
                },
                Err(e) => ip_of_text(host@) is None && encode_utf8(host@).len() > 255 && e
                    == SocksError::<E>::HostTooLong,
            },
    {
        let chars = chars_of(host.as_str());
        let address = match parse_ip(chars.as_slice()) {
            Some(ip) => Address::Socket(SocketAddr::new(ip, port)),
            None => {
                if host.as_str().as_bytes().len() > 255 {
                    return Err(SocksError::HostTooLong);
                }
                Address::Domain(host, port)
            },
        };
        let method = if auth.is_some() {
            AuthMethod::UserPass
        } else {
            AuthMethod::NoAuth
        };
        let mut buf: Vec<u8> = Vec::new();
        buf.resize(BUFFER, 0u8);
        let mut h = Handshake { address, auth, phase: Phase::Negotiating, buf, filled: 0 };
        let mut send = FixedBuf::new(BUFFER);
        match NegotiationReq(&method).write_within(&mut send, BUFFER) {
            Ok(_) => {
                let bytes = send.into_vec();
                assert(bytes@ =~= NegotiationReq(&method).encoded());
                h.put_front(bytes.as_slice());
                Ok((h, Step::Send(bytes)))
            },
            Err(e) => {
                assert(false);
                Err(SocksError::Serialize(e))
            },
        }
    }

    /// Asks for the destination.
    fn ask<E>(&mut self) -> (r: Result<Step, SocksError<E>>)
        requires
            old(self).wf(),
        ensures
            final(self).wf(),
            Handshake::same_goal(*old(self), *final(self)),
            r matches Ok(step) && sends(step, old(self).request()),
            final(self).phase() == Phase::Requesting,
            final(self).filled() == 0,
            final(self).buf() == overwritten(old(self).buf(), old(self).request()),
    {
        let mut send = FixedBuf::new(BUFFER);
        match ProxyReq(&self.address).write_within(&mut send, BUFFER) {
            Ok(_) => {
                let bytes = send.into_vec();
                assert(bytes@ =~= self.request());
                self.phase = Phase::Requesting;
                self.filled = 0;
                self.put_front(bytes.as_slice());
                Ok(Step::Send(bytes))
            },
            Err(e) => {
                assert(false);
                Err(SocksError::Serialize(e))
            },
        }
    }

    /// Goes on with bytes that came from the proxy. Reading nothing is the end of the stream.
    pub fn received<E>(&mut self, read: &[u8]) -> (r: Result<Step, SocksError<E>>)
        requires
            old(self).wf(),
            old(self).phase() != Phase::Established,
            old(self).filled() + read@.len() <= BUFFER,
            old(self).phase() == Phase::Requesting ==> !reply_cut_short(old(self).reply(read@)),
        ensures
            final(self).wf(),
            Handshake::same_goal(*old(self), *final(self)),
            read@.len() == 0 ==> (r matches Err(SocksError::Io(e)) && e.is_unexpected_eof())
                && *final(self) == *old(self),
            read@.len() > 0 && r is Err ==> Handshake::took(*old(self), *final(self), read@),
            read@.len() > 0 ==> received_outcome(*old(self), *final(self), read@, r),
    {
        if read.len() == 0 {
            return Err(SocksError::Io(IoError::unexpected_eof()));
        }
        let ghost before = *self;
        let reply = self.reply_bytes(read);
        let n: usize = read.len();
        self.put_front(read);
        self.filled = self.filled + n;
        match self.phase {
            Phase::Negotiating => {
                let (res, _n) = NegotiationRes::read(reply.as_slice());
                match res {
                    Err(ParsingError::Incomplete) => Ok(Step::Read),
                    Err(e) => Err(SocksError::Parsing(e)),
                    Ok(NegotiationRes(AuthMethod::NoneAcceptable)) => Err(
                        SocksError::Auth(AuthError::Unsupported),
                    ),
                    Ok(NegotiationRes(AuthMethod::NoAuth)) => {
                        if self.auth.is_some() {
                            return Err(SocksError::Auth(AuthError::MethodMismatch));
                        }
                        self.ask()
                    },
                    Ok(NegotiationRes(AuthMethod::UserPass)) => {
                        let mut send = FixedBuf::new(BUFFER);
                        match &self.auth {
                            None => {
                                return Err(SocksError::Auth(AuthError::MethodMismatch));
                            },
                            Some((user, pass)) => {
                                let req = AuthenticationReq(user.as_str(), pass.as_str());
                                match req.write_within(&mut send, BUFFER) {
                                    Ok(_) => {},
                                    Err(e) => {
                                        return Err(SocksError::Serialize(e));
                                    },
                                }
                            },
                        }
                        let bytes = send.into_vec();
                        assert(bytes@ =~= self.credentials());
                        self.phase = Phase::Authenticating;
                        self.filled = 0;
                        self.put_front(bytes.as_slice());
                        Ok(Step::Send(bytes))
                    },
                }
            },
            Phase::Authenticating => {
                let (res, _n) = AuthenticationRes::read(reply.as_slice());
                match res {
                    Err(ParsingError::Incomplete) => Ok(Step::Read),
                    Err(e) => Err(SocksError::Parsing(e)),
                    Ok(AuthenticationRes(false)) => Err(SocksError::Auth(AuthError::Failed)),
                    Ok(AuthenticationRes(true)) => self.ask(),
                }
            },
            Phase::Requesting => {
                match read_reply(reply.as_slice()) {
                    Err(ParsingError::Incomplete) => Ok(Step::Read),
                    Err(e) => Err(SocksError::Parsing(e)),
                    Ok(ProxyRes(Status::Success)) => {
                        self.phase = Phase::Established;
                        Ok(Step::Done)
                    },
                    Ok(ProxyRes(status)) => Err(SocksError::Command(status)),
                }
            },
            Phase::Established => Ok(Step::Done),
        }
    }
}

/// What bytes from the proxy lead to.
pub open spec fn received_outcome<E>(
    before: Handshake,
    after: Handshake,
    read: Seq<u8>,
    r: Result<Step, SocksError<E>>,
) -> bool {
    let reply = before.reply(read);
    let waits = r == Ok::<Step, SocksError<E>>(Step::Read) && Handshake::took(before, after, read);
    match before.phase() {
        Phase::Negotiating => match NegotiationRes::parse(reply).0 {
            Err(ParsingError::Incomplete) => waits,
            Err(e) => r == Err::<Step, SocksError<E>>(SocksError::Parsing(e)),
            Ok(NegotiationRes(method)) => if method == AuthMethod::NoneAcceptable {
                r == Err::<Step, SocksError<E>>(SocksError::Auth(AuthError::Unsupported))
            } else if method != before.method() {
                r == Err::<Step, SocksError<E>>(SocksError::Auth(AuthError::MethodMismatch))
            } else if method == AuthMethod::NoAuth {
                r matches Ok(step) && Handshake::asks(before, after, read, step)
            } else if before.credentials().len() <= BUFFER {
                r matches Ok(step) && Handshake::goes_on(
                    before,
                    after,
                    read,
                    Phase::Authenticating,
                    before.credentials(),
                    step,
                )
            } else {
                r == Err::<Step, SocksError<E>>(SocksError::Serialize(SerializeError::WouldOverflow))
            },
        },
        Phase::Authenticating => match AuthenticationRes::parse(reply).0 {
            Err(ParsingError::Incomplete) => waits,
            Err(e) => r == Err::<Step, SocksError<E>>(SocksError::Parsing(e)),
            Ok(AuthenticationRes(false)) => r == Err::<Step, SocksError<E>>(
                SocksError::Auth(AuthError::Failed),
            ),
            Ok(AuthenticationRes(true)) => r matches Ok(step) && Handshake::asks(
                before,
                after,
                read,
                step,
            ),
        },
        Phase::Requesting => match reply_of(reply) {
            Err(ParsingError::Incomplete) => waits,
            Err(e) => r == Err::<Step, SocksError<E>>(SocksError::Parsing(e)),
            Ok(ProxyRes(Status::Success)) => r == Ok::<Step, SocksError<E>>(Step::Done)
                && after.phase() == Phase::Established,
            Ok(ProxyRes(status)) => r == Err::<Step, SocksError<E>>(SocksError::Command(status)),
        },
        Phase::Established => true,
    }
}

/// A reply that comes in one read is taken for what it is.
pub proof fn lemma_single_read(h: Handshake, read: Seq<u8>)
    requires
        h.filled() == 0,
    ensures
        h.reply(read) == read,
{
    assert(h.reply(read) =~= read);
}

/// Only an accepted request leads to a tunnel: a handshake is established exactly when the proxy
/// answered a request with success.
pub proof fn lemma_established_on_success<E>(
    before: Handshake,
    after: Handshake,
    read: Seq<u8>,
    r: Result<Step, SocksError<E>>,
)
    requires
        before.phase() != Phase::Established,
        received_outcome(before, after, read, r),
    ensures
        r == Ok::<Step, SocksError<E>>(Step::Done) <==> before.phase() == Phase::Requesting
            && reply_of(before.reply(read)) == Ok::<ProxyRes, ParsingError>(
            ProxyRes(Status::Success),
        ),
{
}

impl<C> vstd::std_specs::convert::FromSpecImpl<ParsingError> for SocksError<C> {
    open spec fn obeys_from_spec() -> bool {
        true
    }

    open spec fn from_spec(err: ParsingError) -> SocksError<C> {
        SocksError::Parsing(err)
    }
}

impl<C> From<ParsingError> for SocksError<C> {
    fn from(err: ParsingError) -> (r: SocksError<C>) {
        SocksError::Parsing(err)
    }
}

impl<C> vstd::std_specs::convert::FromSpecImpl<AuthError> for SocksError<C> {
    open spec fn obeys_from_spec() -> bool {
        true
    }

    open spec fn from_spec(err: AuthError) -> SocksError<C> {
        SocksError::Auth(err)
    }
}

impl<C> From<AuthError> for SocksError<C> {
    fn from(err: AuthError) -> (r: SocksError<C>) {
        SocksError::Auth(err)
    }
}

impl<C> vstd::std_specs::convert::FromSpecImpl<Status> for SocksError<C> {
    open spec fn obeys_from_spec() -> bool {
        true
    }

    open spec fn from_spec(err: Status) -> SocksError<C> {
        SocksError::Command(err)
    }
}

impl<C> From<Status> for SocksError<C> {
    fn from(err: Status) -> (r: SocksError<C>) {
        SocksError::Command(err)
    }
}

impl<C> vstd::std_specs::convert::FromSpecImpl<SerializeError> for SocksError<C> {
    open spec fn obeys_from_spec() -> bool {
        true
    }

    open spec fn from_spec(err: SerializeError) -> SocksError<C> {
        SocksError::Serialize(err)
    }
}

impl<C> From<SerializeError> for SocksError<C> {
    fn from(err: SerializeError) -> (r: SocksError<C>) {
        SocksError::Serialize(err)
    }
}

impl<C> vstd::std_specs::convert::FromSpecImpl<IoError> for SocksError<C> {
    open spec fn obeys_from_spec() -> bool {
        true
    }

    open spec fn from_spec(err: IoError) -> SocksError<C> {
        SocksError::Io(err)
    }
}

impl<C> From<IoError> for SocksError<C> {
    fn from(err: IoError) -> (r: SocksError<C>) {
        SocksError::Io(err)
    }
}

/// What is put at the start takes the place of as many bytes, and the rest stays.
pub proof fn lemma_overwritten(buf: Seq<u8>, front: Seq<u8>, i: int)
    requires
        front.len() <= buf.len(),
        0 <= i < buf.len(),
    ensures
        overwritten(buf, front).len() == buf.len(),
        overwritten(buf, front)[i] == if i < front.len() {
            front[i]
        } else {
            buf[i]
        },
{
}

/// The handshake byte by byte, where each reply comes in one read. Only the offered method is gone
/// on with: without credentials the destination is asked for, otherwise the credentials are sent,
/// and the destination is asked for once they are accepted.
pub proof fn lemma_handshake_bytes<E>(
    before: Handshake,
    after: Handshake,
    read: Seq<u8>,
    r: Result<Step, SocksError<E>>,
)
    requires
        before.filled() == 0,
        read.len() >= 2,
        received_outcome(before, after, read, r),
    ensures
        ({
            let asked = r is Ok && r->Ok_0 is Send && r->Ok_0->Send_0@ == seq![5u8, 1u8, 0u8]
                + before.address().encoded() && after.phase() == Phase::Requesting;
            let negotiating = before.phase() == Phase::Negotiating;
            let authenticating = before.phase() == Phase::Authenticating;
            &&& negotiating && read[0] == 5 && read[1] == 0 && before.auth() is None ==> asked
            &&& negotiating && read[0] == 5 && read[1] == 2 && before.auth() is Some ==> ({
                let (user, pass) = before.auth()->0;
                let sent = credentials(user@, pass@);
                if sent.len() <= 513 {
                    r is Ok && r->Ok_0 is Send && r->Ok_0->Send_0@ == sent && after.phase()
                        == Phase::Authenticating
                } else {
                    r == Err::<Step, SocksError<E>>(
                        SocksError::Serialize(SerializeError::WouldOverflow),
                    )
                }
            })
            &&& negotiating && read[0] == 5 && read[1] == 255 ==> r == Err::<Step, SocksError<E>>(
                SocksError::Auth(AuthError::Unsupported),
            )
            &&& negotiating && read[0] == 5 && (read[1] == 0 && before.auth() is Some || read[1] == 2
                && before.auth() is None) ==> r == Err::<Step, SocksError<E>>(
                SocksError::Auth(AuthError::MethodMismatch),
            )
            &&& negotiating && (read[0] != 5 || read[1] != 0 && read[1] != 2 && read[1] != 255) ==> r
                == Err::<Step, SocksError<E>>(SocksError::Parsing(ParsingError::Other))
            &&& authenticating && read[0] == 1 && read[1] == 0 ==> asked
            &&& authenticating && read[0] == 1 && read[1] != 0 ==> r == Err::<Step, SocksError<E>>(
                SocksError::Auth(AuthError::Failed),
            )
            &&& authenticating && read[0] != 1 ==> r == Err::<Step, SocksError<E>>(
                SocksError::Parsing(ParsingError::Other),
            )
        }),
{
    lemma_single_read(before, read);
}

/// The reply to the request decides: with status zero the tunnel is established, with another one
/// that is known it is refused, and with one that is not known it is no reply.
pub proof fn lemma_request_answered<E>(
    before: Handshake,
    after: Handshake,
    read: Seq<u8>,
    bound: AddressView,
    rest: Seq<u8>,
    r: Result<Step, SocksError<E>>,
)
    requires
        before.filled() == 0,
        before.phase() == Phase::Requesting,
        bound.carried(),
        read.len() >= 3,
        read == read.take(3) + bound.encoded() + rest,
        read[0] == 5,
        read[2] == 0,
        received_outcome(before, after, read, r),
    ensures
        read[1] == 0 <==> r == Ok::<Step, SocksError<E>>(Step::Done),
        read[1] == 0 ==> after.phase() == Phase::Established,
        1 <= read[1] <= 8 ==> (r matches Err(SocksError::Command(status)) && status.code()
            == read[1]),
        read[1] > 8 ==> r == Err::<Step, SocksError<E>>(SocksError::Parsing(ParsingError::Other)),
{
    lemma_single_read(before, read);
    lemma_address_layout(bound);
    assert(read.len() >= 8);
    if read[1] <= 8 {
        let status = Status::of_code(read[1])->Ok_0;
        lemma_status_codes(read[1], status);
        lemma_proxy_res_accepted(status, bound, rest);
        assert(read =~= seq![0x05u8, status.code(), 0x00u8] + bound.encoded() + rest);
    } else {
        lemma_status_codes(read[1], Status::Success);
    }
}

/// Credentials are offered exactly where there are some.
pub proof fn lemma_method_offered(h: Handshake)
    ensures
        h.method().code_spec() == if h.auth() is Some {
            2u8
        } else {
            0u8
        },
{
}

/// A reply is cut short where it ends behind a known status, or within the sixteen octets and the
/// port of an IPv6 address, ten bytes or more of the whole being there. It is no reply yet.
pub proof fn lemma_cut_short(b: Seq<u8>)
    ensures
        reply_cut_short(b) ==> 2 <= b.len() < 22 && b[0] == 5 && b[1] <= 8 && ProxyRes::parse(b).0
            == Err::<ProxyRes, ParsingError>(ParsingError::Incomplete),
        b.len() == 2 && b[0] == 5 && b[1] <= 8 ==> reply_cut_short(b),
        10 <= b.len() < 22 && b[0] == 5 && b[1] <= 8 && b[2] == 0 && b[3] == 4 ==> reply_cut_short(b),
{
    if b.len() >= 2 {
        lemma_status_codes(b[1], Status::Success);
    }
}

} // verus!
