//! A connector for the `http` scheme: from a URI to the addresses to connect to.

use vstd::prelude::*;

use super::config::Config;
use super::config::Platform;
use super::config::TcpKeepaliveConfig;
use super::dns::gai::TokioGaiResolver;
use super::dns::Name;
use super::dns::SocketAddrs;
use super::tcp::socket_steps;
use super::tcp::ConnectError;
use super::tcp::SocketStepView;
use crate::net::ipv4_of_text;
use crate::net::ipv6_of_text;
use crate::net::IpAddr;
use crate::net::Ipv4Addr;
use crate::net::Ipv6Addr;
use crate::net::SocketAddr;
use crate::text::chars_of;
use crate::text::string_of;
use crate::text::trim_end;
use crate::text::trim_start;
use crate::text::trimmed_end;
use crate::text::trimmed_start;
use crate::text::CharClass;
use crate::time::Duration;
use crate::uri::Uri;
use crate::uri::UriView;

verus! {

/// A connector for the `http` scheme.
#[derive(Debug)]
pub struct HttpConnector<R, S> {
    pub config: Config,
    pub resolver: R,
    pub connector: S,
}

/// A connector that uses `tokio` for TCP connections.
#[derive(Debug, Clone, Copy)]
pub struct TokioTcpConnector {
    _priv: (),
}

impl TokioTcpConnector {
    /// The one connector there is.
    pub closed spec fn default_spec() -> Self {
        TokioTcpConnector { _priv: () }
    }

    /// Create a new `TokioTcpConnector`.
    pub fn new() -> (r: Self)
        ensures
            r == TokioTcpConnector::default_spec(),
    {
        TokioTcpConnector { _priv: () }
    }
}

impl Config {
    /// The defaults: only the `http` scheme, and 300 milliseconds before the other family of
    /// addresses is tried.
    pub open spec fn is_default(self) -> bool {
        &&& self.connect_timeout is None
        &&& self.enforce_http
        &&& (self.happy_eyeballs_timeout matches Some(d) && d@ == 300_000_000)
        &&& self.tcp_keepalive_config.time is None
        &&& self.tcp_keepalive_config.interval is None
        &&& self.tcp_keepalive_config.retries is None
        &&& self.local_address_ipv4 is None
        &&& self.local_address_ipv6 is None
        &&& !self.nodelay
        &&& !self.reuse_address
        &&& self.send_buffer_size is None
        &&& self.recv_buffer_size is None
        &&& self.interface is None
        &&& self.tcp_user_timeout is None
    }
}

impl<R, S> HttpConnector<R, S> {
    /// Construct a new HttpConnector.
    pub fn new(resolver: R, connector: S) -> (r: Self)
        ensures
            r.config.is_default(),
            r.resolver == resolver,
            r.connector == connector,
    {
        HttpConnector {
            config: Config {
                connect_timeout: None,
                enforce_http: true,
                happy_eyeballs_timeout: Some(Duration::from_millis(300)),
                tcp_keepalive_config: TcpKeepaliveConfig::default(),
                local_address_ipv4: None,
                local_address_ipv6: None,
                nodelay: false,
                reuse_address: false,
                send_buffer_size: None,
                recv_buffer_size: None,
                interface: None,
                tcp_user_timeout: None,
            },
            resolver,
            connector,
        }
    }

    /// Whether only the configuration changed, to the given one.
    pub open spec fn reconfigured(before: Self, after: Self, config: Config) -> bool {
        after.config == config && after.resolver == before.resolver && after.connector
            == before.connector
    }

    /// Option to enforce all `Uri`s have the `http` scheme.
    ///
    /// Enabled by default.
    pub fn enforce_http(&mut self, is_enforced: bool)
        ensures
            Self::reconfigured(
                *old(self),
                *final(self),
                (Config { enforce_http: is_enforced, ..old(self).config }),
            ),
    {
        self.config.enforce_http = is_enforced;
    }

    /// Set that all sockets have `SO_KEEPALIVE` set with the supplied duration
    /// to remain idle before sending TCP keepalive probes.
    ///
    /// Default is `None`.
    pub fn set_keepalive(&mut self, time: Option<Duration>)
        ensures
            Self::reconfigured(
                *old(self),
                *final(self),
                (Config {
                    tcp_keepalive_config: (TcpKeepaliveConfig {
                        time,
                        ..old(self).config.tcp_keepalive_config
                    }),
                    ..old(self).config
                }),
            ),
    {
        self.config.tcp_keepalive_config.time = time;
    }

    /// Set the duration between two successive TCP keepalive retransmissions,
    /// if acknowledgement to the previous keepalive transmission is not received.
    pub fn set_keepalive_interval(&mut self, interval: Option<Duration>)
        ensures
            Self::reconfigured(
                *old(self),
                *final(self),
                (Config {
                    tcp_keepalive_config: (TcpKeepaliveConfig {
                        interval,
                        ..old(self).config.tcp_keepalive_config
                    }),
                    ..old(self).config
                }),
            ),
    {
        self.config.tcp_keepalive_config.interval = interval;
    }

    /// Set the number of retransmissions to be carried out before declaring that remote end is not
    /// available.
    pub fn set_keepalive_retries(&mut self, retries: Option<u32>)
        ensures
            Self::reconfigured(
                *old(self),
                *final(self),
                (Config {
                    tcp_keepalive_config: (TcpKeepaliveConfig {
                        retries,
                        ..old(self).config.tcp_keepalive_config
                    }),
                    ..old(self).config
                }),
            ),
    {
        self.config.tcp_keepalive_config.retries = retries;
    }

    /// Set that all sockets have `SO_NODELAY` set to the supplied value `nodelay`.
    ///
    /// Default is `false`.
    pub fn set_nodelay(&mut self, nodelay: bool)
        ensures
            Self::reconfigured(
                *old(self),
                *final(self),
                (Config { nodelay, ..old(self).config }),
            ),
    {
        self.config.nodelay = nodelay;
    }

    /// Sets the value of the SO_SNDBUF option on the socket.
    pub fn set_send_buffer_size(&mut self, size: Option<usize>)
        ensures
            Self::reconfigured(
                *old(self),
                *final(self),
                (Config { send_buffer_size: size, ..old(self).config }),
            ),
    {
        self.config.send_buffer_size = size;
    }

    /// Sets the value of the SO_RCVBUF option on the socket.
    pub fn set_recv_buffer_size(&mut self, size: Option<usize>)
        ensures
            Self::reconfigured(
                *old(self),
                *final(self),
                (Config { recv_buffer_size: size, ..old(self).config }),
            ),
    {
        self.config.recv_buffer_size = size;
    }

    /// Set that all sockets are bound to the configured address before connection.
    ///
    /// If `None`, the sockets will not be bound.
    pub fn set_local_address(&mut self, addr: Option<IpAddr>)
        ensures
            Self::reconfigured(
                *old(self),
                *final(self),
                (Config {
                    local_address_ipv4: match addr {
                        Some(IpAddr::V4(a)) => Some(a),
                        _ => None,
                    },
                    local_address_ipv6: match addr {
                        Some(IpAddr::V6(a)) => Some(a),
                        _ => None,
                    },
                    ..old(self).config
                }),
            ),
    {
        let (v4, v6): (Option<Ipv4Addr>, Option<Ipv6Addr>) = match addr {
            Some(IpAddr::V4(a)) => (Some(a), None),
            Some(IpAddr::V6(a)) => (None, Some(a)),
            None => (None, None),
        };
        self.config.local_address_ipv4 = v4;
        self.config.local_address_ipv6 = v6;
    }

    /// Set that all sockets are bound to the configured IPv4 or IPv6 address (depending on host's
    /// preferences) before connection.
    pub fn set_local_addresses(&mut self, addr_ipv4: Ipv4Addr, addr_ipv6: Ipv6Addr)
        ensures
            Self::reconfigured(
                *old(self),
                *final(self),
                (Config {
                    local_address_ipv4: Some(addr_ipv4),
                    local_address_ipv6: Some(addr_ipv6),
                    ..old(self).config
                }),
            ),
    {
        self.config.local_address_ipv4 = Some(addr_ipv4);
        self.config.local_address_ipv6 = Some(addr_ipv6);
    }

    /// Set the connect timeout.
    ///
    /// If a domain resolves to multiple IP addresses, the timeout will be
    /// evenly divided across them.
    pub fn set_connect_timeout(&mut self, dur: Option<Duration>)
        ensures
            Self::reconfigured(
                *old(self),
                *final(self),
                (Config { connect_timeout: dur, ..old(self).config }),
            ),
    {
        self.config.connect_timeout = dur;
    }

    /// Set timeout for [RFC 6555 (Happy Eyeballs)][RFC 6555] algorithm.
    ///
    /// If `None`, parallel connection attempts are disabled.
    ///
    /// Default is 300 milliseconds.
    ///
    /// [RFC 6555]: https://tools.ietf.org/html/rfc6555
    pub fn set_happy_eyeballs_timeout(&mut self, dur: Option<Duration>)
        ensures
            Self::reconfigured(
                *old(self),
                *final(self),
                (Config { happy_eyeballs_timeout: dur, ..old(self).config }),
            ),
    {
        self.config.happy_eyeballs_timeout = dur;
    }

    /// Set that all socket have `SO_REUSEADDR` set to the supplied value `reuse_address`.
    ///
    /// Default is `false`.
    pub fn set_reuse_address(&mut self, reuse_address: bool)
        ensures
            Self::reconfigured(
                *old(self),
                *final(self),
                (Config { reuse_address, ..old(self).config }),
            ),
    {
        self.config.reuse_address = reuse_address;
    }

    /// Sets the name of the interface to bind sockets produced by this connector.
    pub fn set_interface(&mut self, interface: String)
        ensures
            Self::reconfigured(
                *old(self),
                *final(self),
                (Config { interface: Some(interface), ..old(self).config }),
            ),
    {
        self.config.interface = Some(interface);
    }

    /// Sets the value of the TCP_USER_TIMEOUT option on the socket.
    pub fn set_tcp_user_timeout(&mut self, time: Option<Duration>)
        ensures
            Self::reconfigured(
                *old(self),
                *final(self),
                (Config { tcp_user_timeout: time, ..old(self).config }),
            ),
    {
        self.config.tcp_user_timeout = time;
    }
}

/// A connector for the `http` scheme that resolves names in a thread pool and then connects over
/// TCP.
#[derive(Debug)]
pub struct TokioHttpConnector<R> {
    pub inner: HttpConnector<R, TokioTcpConnector>,
}

impl TokioHttpConnector<TokioGaiResolver> {
    /// Construct a new TokioHttpConnector.
    pub fn new() -> (r: Self)
        ensures
            r.inner.config.is_default(),
    {
        TokioHttpConnector::new_with_resolver(TokioGaiResolver::new())
    }
}

impl<R> TokioHttpConnector<R> {
    /// Construct a new TokioHttpConnector.
    ///
    /// Takes a resolver to handle DNS lookups.
    pub fn new_with_resolver(resolver: R) -> (r: Self)
        ensures
            r.inner.config.is_default(),
            r.inner.resolver == resolver,
    {
        TokioHttpConnector { inner: HttpConnector::new(resolver, TokioTcpConnector::new()) }
    }
}

/// Why a URI is no destination.
pub open spec fn destination_error(enforce_http: bool, dst: UriView) -> Option<Seq<char>> {
    if enforce_http && dst.scheme != Some("http"@) {
        Some("invalid URL, scheme is not http"@)
    } else if !enforce_http && dst.scheme is None {
        Some("invalid URL, scheme is missing"@)
    } else if dst.host() is None {
        Some("invalid URL, host is missing"@)
    } else {
        None
    }
}

/// The port of a destination: the one that is written, or that of its scheme.
pub open spec fn destination_port(dst: UriView) -> u16 {
    match dst.port() {
        Some(port) => port,
        None => if dst.scheme == Some("https"@) {
            443
        } else {
            80
        },
    }
}

/// The host and port of a destination.
pub fn get_host_port<'u, E>(config: &Config, dst: &'u Uri) -> (r: Result<
    (&'u str, u16),
    ConnectError<E>,
>)
    ensures
        match destination_error(config.enforce_http, dst@) {
            Some(msg) => r matches Err(e) && e.msg@ == msg && e.addr is None && e.cause is None,
            None => r matches Ok((host, port)) && Some(host@) == dst@.host() && port
                == destination_port(dst@),
        },
{
    if config.enforce_http {
        if !dst.has_scheme("http") {
            return Err(ConnectError::plain("invalid URL, scheme is not http"));
        }
    } else if dst.scheme.is_none() {
        return Err(ConnectError::plain("invalid URL, scheme is missing"));
    }
    let host = match dst.host() {
        Some(s) => s,
        None => {
            return Err(ConnectError::plain("invalid URL, host is missing"));
        },
    };
    let port: u16 = match dst.port() {
        Some(port) => port,
        None => {
            if dst.has_scheme("https") {
                443
            } else {
                80
            }
        },
    };
    Ok((host, port))
}

/// An address with the port of the destination, where that was written or the address has none.
pub open spec fn port_set(addr: SocketAddr, host_port: u16, explicit: bool) -> SocketAddr {
    if explicit || addr.port_spec() == 0 {
        addr.with_port_spec(host_port)
    } else {
        addr
    }
}

/// Sets the port of an address to that of the destination, where that was written or the address
/// has none.
pub fn set_port(addr: &mut SocketAddr, host_port: u16, explicit: bool)
    ensures
        *final(addr) == port_set(*old(addr), host_port, explicit),
{
    if explicit || addr.port() == 0 {
        *addr = addr.with_port(host_port);
    }
}

/// A host without the brackets of an IPv6 literal.
pub open spec fn unbracketed(host: Seq<char>) -> Seq<char> {
    trimmed_end(trimmed_start(host, CharClass::Only('[')), CharClass::Only(']'))
}

/// How to come by the addresses of a destination.
#[derive(Debug)]
pub enum Target {
    /// The host is an address.
    Known(SocketAddrs),
    /// Resolve the name, and report the addresses with `resolved`.
    Resolve(Lookup),
}

/// A name to be resolved, and the port of its destination.
#[derive(Debug)]
pub struct Lookup {
    pub name: Name,
    pub port: u16,
    pub explicit: bool,
}

impl Lookup {
    /// The addresses to connect to, given those that the name resolved to.
    pub fn resolved(&self, addrs: Vec<SocketAddr>) -> (r: SocketAddrs)
        ensures
            r@ == addrs@.map_values(|addr: SocketAddr| port_set(addr, self.port, self.explicit)),
    {
        let mut out: Vec<SocketAddr> = Vec::new();
        let mut i: usize = 0;
        while i < addrs.len()
            invariant
                i <= addrs@.len(),
                out@.len() == i,
                forall|j: int|
                    0 <= j < i ==> #[trigger] out@[j] == port_set(addrs@[j], self.port, self.explicit),
            decreases addrs@.len() - i,
        {
            let mut addr = addrs[i];
            set_port(&mut addr, self.port, self.explicit);
            out.push(addr);
            i = i + 1;
        }
        assert(out@ =~= addrs@.map_values(
            |addr: SocketAddr| port_set(addr, self.port, self.explicit),
        ));
        SocketAddrs::new(out)
    }
}

impl<R, S> HttpConnector<R, S> {
    /// How to come by the addresses of a destination: a host that is an address is taken as such,
    /// any other is resolved.
    pub fn call_async<E>(&self, dst: &Uri) -> (r: Result<Target, ConnectError<E>>)
        ensures
            match destination_error(self.config.enforce_http, dst@) {
                Some(msg) => r matches Err(e) && e.msg@ == msg && e.addr is None && e.cause is None,
                None => {
                    let host = unbracketed(dst@.host()->0);
                    match r {
                        Ok(Target::Known(addrs)) => addrs@.len() == 1 && match addrs@[0] {
                            SocketAddr::V4(a) => ipv4_of_text(host) == Some(a.ip@) && a.port
                                == destination_port(dst@),
                            SocketAddr::V6(a) => ipv4_of_text(host) is None && ipv6_of_text(host)
                                == Some(a.ip@) && a.port == destination_port(dst@) && a.flowinfo == 0
                                && a.scope_id == 0,
                        },
                        Ok(Target::Resolve(lookup)) => {
                            &&& ipv4_of_text(host) is None
                            &&& ipv6_of_text(host) is None
                            &&& lookup.name@ == host
                            &&& lookup.port == destination_port(dst@)
                            &&& lookup.explicit == (dst@.port() is Some)
                        },
                        Err(_) => false,
                    }
                },
            },
    {
        let (host, port) = match get_host_port(&self.config, dst) {
            Ok(pair) => pair,
            Err(e) => {
                return Err(e);
            },
        };
        let chars = chars_of(host);
        let open = trim_start(chars.as_slice(), CharClass::Only('['));
        let bare = string_of(trim_end(open, CharClass::Only(']')));
        match SocketAddrs::try_parse(bare.as_str(), port) {
            Some(addrs) => Ok(Target::Known(addrs)),
            None => Ok(
                Target::Resolve(
                    Lookup { name: Name::new(bare), port, explicit: dst.port().is_some() },
                ),
            ),
        }
    }
}

/// An address that was resolved gets the destination's port exactly where the destination writes
/// one or the address has none; it stays the same address.
pub proof fn lemma_port_set(addr: SocketAddr, host_port: u16, explicit: bool)
    ensures
        port_set(addr, host_port, explicit).ip_spec() == addr.ip_spec(),
        port_set(addr, host_port, explicit).port_spec() == if explicit || addr.port_spec() == 0 {
            host_port
        } else {
            addr.port_spec()
        },
{
}

/// Extra information about the transport when an HttpConnector is used.
#[derive(Debug, Clone, Copy)]
pub struct HttpInfo {
    pub remote_addr: SocketAddr,
    pub local_addr: SocketAddr,
}

impl HttpInfo {
    /// The remote address of the connection.
    pub fn remote_addr(&self) -> (r: SocketAddr)
        ensures
            r == self.remote_addr,
    {
        self.remote_addr
    }

    /// The local address of the connection.
    pub fn local_addr(&self) -> (r: SocketAddr)
        ensures
            r == self.local_addr,
    {
        self.local_addr
    }
}

/// A URI is a destination where it has a host and a scheme, which must be `http` where that is
/// enforced. The scheme is looked at first.
pub proof fn lemma_destination(enforce_http: bool, dst: UriView)
    ensures
        ({
            let known = if enforce_http {
                dst.scheme == Some("http"@)
            } else {
                dst.scheme is Some
            };
            &&& destination_error(enforce_http, dst) is None <==> known && dst.authority is Some
            &&& known && dst.authority is None ==> destination_error(enforce_http, dst) == Some(
                "invalid URL, host is missing"@,
            )
            &&& !known && enforce_http ==> destination_error(enforce_http, dst) == Some(
                "invalid URL, scheme is not http"@,
            )
            &&& !known && !enforce_http ==> destination_error(enforce_http, dst) == Some(
                "invalid URL, scheme is missing"@,
            )
        }),
{
}

/// A port that is written is the one to connect to; otherwise it is 443 for `https` and 80 for every
/// other scheme.
pub proof fn lemma_destination_port(dst: UriView, port: u16)
    ensures
        dst.port() == Some(port) ==> destination_port(dst) == port,
        dst.port() is None && dst.scheme == Some("https"@) ==> destination_port(dst) == 443,
        dst.port() is None && dst.scheme != Some("https"@) ==> destination_port(dst) == 80,
{
}

/// A host is the same with brackets and without.
pub proof fn lemma_unbracketed(host: Seq<char>)
    requires
        host.len() > 0,
        forall|i: int| 0 <= i < host.len() ==> #[trigger] host[i] != '[' && host[i] != ']',
    ensures
        unbracketed(host) == host,
        unbracketed(seq!['['] + host + seq![']']) == host,
{
    let open = CharClass::Only('[');
    let close = CharClass::Only(']');
    let bracketed = seq!['['] + host + seq![']'];
    assert(host[0] != '[');
    assert(host[host.len() - 1] != ']');
    assert(trimmed_start(host, open) == host);
    assert(trimmed_end(host, close) == host);
    let inner = bracketed.skip(1);
    assert(inner =~= host + seq![']']);
    assert(inner[0] == host[0]);
    assert(trimmed_start(inner, open) == inner);
    assert(trimmed_start(bracketed, open) == inner);
    assert(inner.drop_last() =~= host);
    assert(trimmed_end(inner, close) == host);
}

/// By default the other family of addresses is tried after 300 milliseconds, only the scheme `http`
/// is a destination, and nothing is set on sockets.
pub proof fn lemma_defaults(config: Config, platform: Platform)
    requires
        config.is_default(),
    ensures
        config.happy_eyeballs_timeout is Some && config.happy_eyeballs_timeout->0@ == 300 * 1_000_000,
        config.connect_timeout is None,
        config.enforce_http,
        socket_steps(config, platform, None) == seq![
            SocketStepView::SetNonblocking,
            SocketStepView::SetNodelay(false),
        ],
{
    assert(socket_steps(config, platform, None) =~= seq![
        SocketStepView::SetNonblocking,
        SocketStepView::SetNodelay(false),
    ]);
}

} // verus!
