//! SOCKSv4.

use vstd::prelude::*;

use bytes::BytesMut;

pub mod errors;
pub mod messages;

pub use errors::SocksV4Error;

use super::message_bytes;
use super::next_message;
use super::Message;
use super::ParsingError;
use super::ReadStep;
use super::SerializeError;
use super::SocksError;
use crate::buffers::buffer_contents;
use crate::buffers::buffer_reserved;
use crate::buffers::buffer_slice;
use crate::buffers::buffer_with_capacity;
use crate::client::legacy::connect::proxy::http_connect::tunnel_port;
use crate::net::ip_of_text;
use crate::net::ipv4_of_text;
use crate::net::parse_ip;
use crate::net::IpAddr;
use crate::net::SocketAddr;
use crate::net::SocketAddrV4;
use crate::text::chars_of;
use crate::uri::Uri;
use messages::domain_request;
use messages::socket_request;
use messages::Address;
use messages::Request;
use messages::Response;
use messages::Status;

verus! {

/// Tunnel Proxy via SOCKSv4
///
/// This is a connector that wraps another connector, and after getting an underlying connection,
/// establishes a TCP tunnel over it using SOCKSv4.
#[derive(Debug)]
pub struct SocksV4<C> {
    pub inner: C,
    pub config: SocksConfig,
}

/// Where the proxy is, and who resolves names.
#[derive(Debug)]
pub struct SocksConfig {
    pub proxy: Uri,
    pub local_dns: bool,
}

impl<C> SocksV4<C> {
    /// Create a new SOCKSv4 handshake service
    ///
    /// Wraps an underlying connector and stores the address of a tunneling proxying server.
    ///
    /// The destination that a `SocksV4` is called with is not used to create the underlying
    /// connection, but in a SOCKS handshake with the proxy.
    pub fn new(proxy_dst: Uri, connector: C) -> (r: Self)
        ensures
            r.inner == connector,
            r.config.proxy == proxy_dst,
            !r.config.local_dns,
    {
        SocksV4 { inner: connector, config: SocksConfig::new(proxy_dst) }
    }

    /// Resolve domain names locally on the client, rather than on the proxy server.
    ///
    /// Disabled by default as local resolution of domain names can be detected as a DNS leak.
    pub fn local_dns(self, local_dns: bool) -> (r: Self)
        ensures
            r.inner == self.inner,
            r.config.proxy == self.config.proxy,
            r.config.local_dns == local_dns,
    {
        SocksV4 { inner: self.inner, config: SocksConfig { proxy: self.config.proxy, local_dns } }
    }
}

/// The host and port that the proxy is asked for. Without a port it is the one of `https`.
pub fn destination<E>(dst: &Uri) -> (r: Result<(String, u16), SocksError<E>>)
    ensures
        match r {
            Ok((host, port)) => {
                &&& dst@.host() == Some(host@)
                &&& port == tunnel_port(dst@)
                &&& port == match dst@.port() {
                    Some(p) => p,
                    None => 443u16,
                }
            },
            Err(e) => dst@.host() is None && e == SocksError::<E>::MissingHost,
        },
{
    let port: u16 = match dst.port() {
        Some(p) => p,
        None => 443,
    };
    match dst.host() {
        Some(host) => Ok((host.to_owned(), port)),
        None => Err(SocksError::MissingHost),
    }
}

/// The first IPv4 address of a list.
pub open spec fn first_v4(addrs: Seq<SocketAddr>) -> Option<SocketAddrV4>
    decreases addrs.len(),
{
    if addrs.len() == 0 {
        None
    } else {
        match addrs[0] {
            SocketAddr::V4(a) => Some(a),
            SocketAddr::V6(_) => first_v4(addrs.skip(1)),
        }
    }
}

/// What is to be done next in a handshake.
#[derive(Debug)]
pub enum Step {
    /// Resolve the name, and report the addresses with `resolved`.
    Lookup(String, u16),
    /// Send the bytes, then read, and report what came with `received`.
    Send(Vec<u8>),
    /// Read, and report what came with `received`.
    Read,
    /// The tunnel is established.
    Done,
}

/// Whether a step sends the given bytes.
pub open spec fn sends(step: Step, message: Seq<u8>) -> bool {
    step matches Step::Send(bytes) && bytes@ == message
}

/// A handshake with a proxy: the bytes of its reply so far.
#[derive(Debug)]
pub struct Handshake {
    recv: BytesMut,
}

impl Handshake {
    /// The bytes received and not yet understood.
    pub closed spec fn pending(&self) -> Seq<u8> {
        buffer_contents(self.recv)
    }

    /// How many bytes were reserved for the reply.
    pub closed spec fn reserved(&self) -> nat {
        buffer_reserved(self.recv)
    }

    /// Whether the reply is still awaited, with room for it.
    pub open spec fn waits(&self) -> bool {
        self.pending().len() < 8 && self.reserved() == 1024
    }

    /// The request for an address, if a buffer can hold it.
    fn request<E>(address: &Address) -> (r: Result<Step, SocksError<E>>)
        ensures
            match r {
                Ok(step) => sends(step, Request(address).encoded()) && Request(
                    address,
                ).encoded().len() <= isize::MAX,
                Err(e) => Request(address).encoded().len() > isize::MAX && e == SocksError::<
                    E,
                >::Serialize(SerializeError::WouldOverflow),
            },
    {
        let mut send = buffer_with_capacity(1024);
        assert(buffer_contents(send).len() == 0);
        match Request(address).write_to_buf(&mut send) {
            Ok(_) => {
                let mut bytes: Vec<u8> = Vec::new();
                bytes.extend_from_slice(buffer_slice(&send));
                assert(bytes@ =~= Request(address).encoded());
                Ok(Step::Send(bytes))
            },
            Err(e) => Err(SocksError::Serialize(e)),
        }
    }

    /// Begins a handshake. An IPv4 address is asked for as it is; an IPv6 address cannot be asked
    /// for; a name is resolved here or left to the proxy.
    pub fn start<E>(config: &SocksConfig, host: String, port: u16) -> (r: Result<
        (Handshake, Step),
        SocksError<E>,
    >)
        ensures
            match r {
                Ok((h, step)) => {
                    &&& h.pending() == Seq::<u8>::empty()
                    &&& h.reserved() == 1024
                    &&& match ip_of_text(host@) {
                        Some(octets) => ipv4_of_text(host@) is Some && sends(
                            step,
                            socket_request(octets, port),
                        ),
                        None => if config.local_dns {
                            step matches Step::Lookup(h, p) && h == host && p == port
                        } else {
                            sends(step, domain_request(host@, port))
                        },
                    }
                },
                Err(e) => {
                    ||| ip_of_text(host@) is Some && ipv4_of_text(host@) is None && e
                        == SocksError::<E>::V4(SocksV4Error::IpV6)
                    ||| ip_of_text(host@) is None && !config.local_dns && domain_request(
                        host@,
                        port,
                    ).len() > isize::MAX && e == SocksError::<E>::Serialize(
                        SerializeError::WouldOverflow,
                    )
                },
            },
    {
        let chars = chars_of(host.as_str());
        let address = match parse_ip(chars.as_slice()) {
            Some(IpAddr::V6(_)) => {
                return Err(SocksError::V4(SocksV4Error::IpV6));
            },
            Some(IpAddr::V4(ip)) => Address::Socket(SocketAddrV4 { ip, port }),
            None => {
                if config.local_dns {
                    return Ok(
                        (Handshake { recv: buffer_with_capacity(1024) }, Step::Lookup(host, port)),
                    );
                }
                Address::Domain(host, port)
            },
        };
        match Handshake::request(&address) {
            Ok(step) => {
                Ok((Handshake { recv: buffer_with_capacity(1024) }, step))
            },
            Err(e) => Err(e),
        }
    }

    /// Goes on with the addresses of the name: the first IPv4 address is asked for.
    pub fn resolved<E>(&self, addrs: &[SocketAddr]) -> (r: Result<Step, SocksError<E>>)
        ensures
            match first_v4(addrs@) {
                Some(a) => r matches Ok(step) && sends(step, socket_request(a.ip@, a.port)),
                None => r == Err::<Step, SocksError<E>>(SocksError::DnsFailure),
            },
    {
        let mut i: usize = 0;
        assert(addrs@.skip(0) == addrs@);
        while i < addrs.len()
            invariant
                i <= addrs.len(),
                first_v4(addrs@.skip(i as int)) == first_v4(addrs@),
            decreases addrs.len() - i,
        {
            assert(addrs@.skip(i as int).skip(1) == addrs@.skip(i + 1));
            if let SocketAddr::V4(a) = addrs[i] {
                return Handshake::request(&Address::Socket(a));
            }
            i = i + 1;
        }
        Err(SocksError::DnsFailure)
    }

    /// Goes on with bytes that came from the proxy. Reading nothing is the end of the stream,
    /// which is unexpected while the reply is awaited.
    pub fn received<E>(&mut self, read: &[u8]) -> (r: Result<Step, SocksError<E>>)
        requires
            old(self).pending().len() + read@.len() <= isize::MAX,
        ensures
            old(self).waits() && r is Ok && !(r->Ok_0 is Done) ==> final(self).waits(),
            read@.len() == 0 ==> final(self).pending() == old(self).pending() && r is Err,
            read@.len() == 0 ==> {
                ||| r == Err::<Step, SocksError<E>>(SocksError::Parsing(ParsingError::WouldOverflow))
                    && old(self).reserved() <= old(self).pending().len()
                ||| r matches Err(SocksError::Io(io)) && io.is_unexpected_eof()
            },
            read@.len() == 0 && old(self).waits() ==> (r matches Err(SocksError::Io(io))
                && io.is_unexpected_eof()),
            read@.len() > 0 ==> ({
                let (reply, n) = Response::parse(old(self).pending() + read@);
                match reply {
                    Ok(Response(Status::Success)) => r == Ok::<Step, SocksError<E>>(Step::Done)
                        && final(self).pending() == (old(self).pending() + read@).skip(n as int),
                    Ok(Response(status)) => r == Err::<Step, SocksError<E>>(
                        SocksError::V4(SocksV4Error::Command(status)),
                    ) && final(self).pending() == (old(self).pending() + read@).skip(n as int),
                    Err(ParsingError::Incomplete) => r == Ok::<Step, SocksError<E>>(Step::Read)
                        && final(self).pending() == old(self).pending() + read@
                        && final(self).reserved() == old(self).reserved(),
                    Err(e) => r == Err::<Step, SocksError<E>>(SocksError::Parsing(e))
                        && final(self).pending() == old(self).pending() + read@,
                }
            }),
    {
        match message_bytes::<E>(&mut self.recv, read) {
            Err(e) => {
                return Err(e);
            },
            Ok(()) => {},
        }
        let step: ReadStep<Response> = next_message(&mut self.recv);
        match step {
            ReadStep::Done(Response(Status::Success)) => Ok(Step::Done),
            ReadStep::Done(Response(status)) => Err(
                SocksError::V4(SocksV4Error::Command(status)),
            ),
            ReadStep::NeedMore => Ok(Step::Read),
            ReadStep::Failed(e) => Err(SocksError::Parsing(e)),
        }
    }
}

impl SocksConfig {
    /// A proxy that resolves names itself.
    pub fn new(proxy: Uri) -> (r: Self)
        ensures
            r.proxy == proxy,
            !r.local_dns,
    {
        SocksConfig { proxy, local_dns: false }
    }
}

/// The first IPv4 address is the one before which only IPv6 addresses stand, and there is none where
/// all addresses are of the other family.
pub proof fn lemma_first_v4(addrs: Seq<SocketAddr>)
    ensures
        first_v4(addrs) is None <==> (forall|i: int|
            0 <= i < addrs.len() ==> #[trigger] addrs[i] is V6),
        first_v4(addrs) matches Some(a) ==> exists|i: int|
            0 <= i < addrs.len() && #[trigger] addrs[i] == SocketAddr::V4(a) && (forall|j: int|
                0 <= j < i ==> #[trigger] addrs[j] is V6),
    decreases addrs.len(),
{
    if addrs.len() > 0 {
        let rest = addrs.skip(1);
        lemma_first_v4(rest);
        assert(forall|i: int| 0 <= i < rest.len() ==> #[trigger] rest[i] == addrs[i + 1]);
        match addrs[0] {
            SocketAddr::V4(_) => {},
            SocketAddr::V6(_) => {
                if first_v4(rest) is None {
                    assert forall|i: int| 0 <= i < addrs.len() implies #[trigger] addrs[i] is V6 by {
                        if i > 0 {
                            assert(rest[i - 1] is V6);
                        }
                    }
                } else {
                    let a = first_v4(rest)->0;
                    let i = choose|i: int|
                        0 <= i < rest.len() && #[trigger] rest[i] == SocketAddr::V4(a) && (forall|
                            j: int,
                        |
                            0 <= j < i ==> #[trigger] rest[j] is V6);
                    assert(addrs[i + 1] == SocketAddr::V4(a));
                    assert forall|j: int| 0 <= j < i + 1 implies #[trigger] addrs[j] is V6 by {
                        if j > 0 {
                            assert(rest[j - 1] is V6);
                        }
                    }
                }
            },
        }
    }
}

} // verus!
