//! How sockets are set up.

use vstd::prelude::*;

use crate::net::Ipv4Addr;
use crate::net::Ipv6Addr;
use crate::time::Duration;

verus! {

/// How connections are made and their sockets are set up.
#[derive(Debug)]
pub struct Config {
    pub connect_timeout: Option<Duration>,
    pub enforce_http: bool,
    pub happy_eyeballs_timeout: Option<Duration>,
    pub tcp_keepalive_config: TcpKeepaliveConfig,
    pub local_address_ipv4: Option<Ipv4Addr>,
    pub local_address_ipv6: Option<Ipv6Addr>,
    pub nodelay: bool,
    pub reuse_address: bool,
    pub send_buffer_size: Option<usize>,
    pub recv_buffer_size: Option<usize>,
    pub interface: Option<String>,
    pub tcp_user_timeout: Option<Duration>,
}

/// What to set of the probes that keep a connection alive.
#[derive(Debug, Clone, Copy)]
pub struct TcpKeepaliveConfig {
    pub time: Option<Duration>,
    pub interval: Option<Duration>,
    pub retries: Option<u32>,
}

/// The probes that keep a connection alive, as they are set on a socket.
#[derive(Debug, Clone, Copy)]
pub struct TcpKeepalive {
    pub time: Option<Duration>,
    pub interval: Option<Duration>,
    pub retries: Option<u32>,
}

/// What the operating system can do with sockets.
#[derive(Debug, Clone, Copy, PartialEq, Eq, Structural)]
pub struct Platform {
    /// The interval between keepalive probes can be set.
    pub keepalive_interval: bool,
    /// The number of keepalive probes can be set.
    pub keepalive_retries: bool,
    /// A socket can be bound to an interface.
    pub interface: bool,
    /// The user timeout can be set.
    pub user_timeout: bool,
    /// A socket must be bound before it is connected.
    pub bind_required: bool,
}

impl Default for TcpKeepaliveConfig {
    fn default() -> (r: Self)
        ensures
            r.time is None,
            r.interval is None,
            r.retries is None,
    {
        TcpKeepaliveConfig { time: None, interval: None, retries: None }
    }
}

/// An option where it is supported.
pub open spec fn supported<T>(supported: bool, value: Option<T>) -> Option<T> {
    if supported {
        value
    } else {
        None
    }
}

impl TcpKeepaliveConfig {
    /// What is to be set on a socket, if there is anything.
    pub open spec fn keepalive(self, platform: Platform) -> Option<TcpKeepalive> {
        let ka = TcpKeepalive {
            time: self.time,
            interval: supported(platform.keepalive_interval, self.interval),
            retries: supported(platform.keepalive_retries, self.retries),
        };
        if ka.time is Some || ka.interval is Some || ka.retries is Some {
            Some(ka)
        } else {
            None
        }
    }

    /// What is to be set on a socket, if there is anything.
    pub fn into_tcpkeepalive(self, platform: Platform) -> (r: Option<TcpKeepalive>)
        ensures
            r == self.keepalive(platform),
    {
        let mut dirty = false;
        let mut ka = TcpKeepalive { time: None, interval: None, retries: None };
        if let Some(time) = self.time {
            ka.time = Some(time);
            dirty = true;
        }
        if let Some(interval) = self.interval {
            if platform.keepalive_interval {
                ka.interval = Some(interval);
                dirty = true;
            }
        }
        if let Some(retries) = self.retries {
            if platform.keepalive_retries {
                ka.retries = Some(retries);
                dirty = true;
            }
        }
        if dirty {
            Some(ka)
        } else {
            None
        }
    }
}

impl Config {
    /// The probes to set on a socket.
    pub fn tcp_keepalive(&self, platform: Platform) -> (r: Option<TcpKeepalive>)
        ensures
            r == self.tcp_keepalive_config.keepalive(platform),
    {
        self.tcp_keepalive_config.into_tcpkeepalive(platform)
    }
}

/// Probes are set where something of them is configured that the system supports: the time always,
/// the interval and the number of retries where they can be set.
pub proof fn lemma_keepalive(config: TcpKeepaliveConfig, platform: Platform)
    ensures
        config.keepalive(platform) is Some <==> config.time is Some || (config.interval is Some
            && platform.keepalive_interval) || (config.retries is Some
            && platform.keepalive_retries),
        config.keepalive(platform) matches Some(ka) ==> {
            &&& ka.time == config.time
            &&& platform.keepalive_interval ==> ka.interval == config.interval
            &&& !platform.keepalive_interval ==> ka.interval is None
            &&& platform.keepalive_retries ==> ka.retries == config.retries
            &&& !platform.keepalive_retries ==> ka.retries is None
        },
{
}

} // verus!
