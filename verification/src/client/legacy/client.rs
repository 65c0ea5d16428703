//! The connector of the client.

use vstd::prelude::*;

use crate::client::connect::config::Config;
use crate::client::connect::config::TcpKeepaliveConfig;
use crate::client::connect::dns::gai::TokioGaiResolver;
use crate::client::connect::http_connector::TokioHttpConnector;
use crate::time::Duration;

verus! {

/// Whether a configuration is the default one but for the time after which idle connections are
/// probed.
pub open spec fn is_default_with_keepalive(config: Config, time: Option<Duration>) -> bool {
    &&& config.tcp_keepalive_config.time == time
    &&& (Config {
        tcp_keepalive_config: (TcpKeepaliveConfig { time: None, ..config.tcp_keepalive_config }),
        ..config
    }).is_default()
}

/// The connector of a client that brings none. Idle connections are probed as long as the pool
/// keeps them, if there is a pool.
pub fn http_connector(pool_is_enabled: bool, pool_idle_timeout: Option<Duration>) -> (r:
    TokioHttpConnector<TokioGaiResolver>)
    ensures
        is_default_with_keepalive(
            r.inner.config,
            if pool_is_enabled {
                pool_idle_timeout
            } else {
                None
            },
        ),
{
    let mut connector = TokioHttpConnector::new();
    if pool_is_enabled {
        connector.inner.set_keepalive(pool_idle_timeout);
    }
    connector
}

} // verus!
