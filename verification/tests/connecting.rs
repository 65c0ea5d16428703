use hyper_util::client::connect::config::{Platform, TcpKeepaliveConfig};
use hyper_util::client::connect::dns::gai::{lookup_outcome, Lookup, LookupError};
use hyper_util::client::connect::dns::{Name, SocketAddrs};
use hyper_util::client::connect::http_connector::{
    get_host_port, set_port, HttpInfo, Target, TokioHttpConnector,
};
use hyper_util::client::connect::tcp::{
    bind_local_address, connect, connect_outcome, interface_index_failed, open_failed, step_failed, Cause, ConnectError,
    Connecting, ConnectingTcp, ConnectingTcpRemote, Race, RaceEvent, RaceStep, RemoteStep,
    SocketStep,
};
use hyper_util::client::legacy::client::http_connector;
use hyper_util::client::legacy::connect::unix::UnixConnector;
use hyper_util::error::IoErrorKind;
use hyper_util::net::{IpAddr, Ipv4Addr, Ipv6Addr, SocketAddr};
use hyper_util::time::Duration;
use hyper_util::uri::Uri;

const PLATFORM: Platform = Platform {
    keepalive_interval: true,
    keepalive_retries: true,
    interface: true,
    user_timeout: true,
    bind_required: false,
};

fn uri(s: &str) -> Uri {
    Uri::parse(s).unwrap()
}

fn v4(last: u8, port: u16) -> SocketAddr {
    SocketAddr::new(IpAddr::V4(Ipv4Addr { octets: [127, 0, 0, last] }), port)
}

fn v6(last: u8, port: u16) -> SocketAddr {
    let mut octets = [0u8; 16];
    octets[15] = last;
    SocketAddr::new(IpAddr::V6(Ipv6Addr { octets }), port)
}

fn all(mut addrs: SocketAddrs) -> Vec<SocketAddr> {
    let mut out = Vec::new();
    while let Some(addr) = addrs.next() {
        out.push(addr);
    }
    out
}

fn millis(n: u64) -> Duration {
    Duration::from_millis(n)
}

fn nanos(d: Duration) -> u64 {
    d.as_secs() * 1_000_000_000 + d.subsec_nanos() as u64
}

#[test]
fn names_keep_their_text() {
    let name = Name::from_str("example.com").unwrap();
    assert_eq!(name.as_str(), "example.com");
    assert_eq!(name, Name::new("example.com".into()));
}

#[test]
fn addresses_in_text_need_no_lookup() {
    assert_eq!(all(SocketAddrs::try_parse("127.0.0.1", 80).unwrap()), [v4(1, 80)]);
    assert_eq!(all(SocketAddrs::try_parse("::1", 80).unwrap()), [v6(1, 80)]);
    assert!(SocketAddrs::try_parse("example.com", 80).is_none());
}

#[test]
fn families_are_split_by_preference() {
    let addrs = || SocketAddrs::new(vec![v6(1, 80), v4(1, 80), v6(2, 80), v4(2, 80)]);
    let local4 = Some(Ipv4Addr { octets: [10, 0, 0, 1] });
    let local6 = Some(Ipv6Addr { octets: [1; 16] });

    // without local addresses the first address decides
    let (preferred, fallback) = addrs().split_by_preference(None, None);
    assert_eq!(all(preferred), [v6(1, 80), v6(2, 80)]);
    assert_eq!(all(fallback), [v4(1, 80), v4(2, 80)]);

    // with one local address only its family can be used
    let (preferred, fallback) = addrs().split_by_preference(local4, None);
    assert_eq!(all(preferred), [v4(1, 80), v4(2, 80)]);
    assert!(fallback.is_empty());
    let (preferred, fallback) = addrs().split_by_preference(None, local6);
    assert_eq!(all(preferred), [v6(1, 80), v6(2, 80)]);
    assert!(fallback.is_empty());

    let (preferred, fallback) = addrs().split_by_preference(local4, local6);
    assert_eq!(preferred.len() + fallback.len(), 4);

    let (preferred, fallback) = SocketAddrs::new(vec![]).split_by_preference(None, None);
    assert!(preferred.is_empty() && fallback.is_empty());
}

#[test]
fn lookups_end_with_an_answer_or_are_cancelled() {
    let addrs = lookup_outcome::<(), ()>(Lookup::Answered(Ok(SocketAddrs::new(vec![v4(1, 0)]))));
    assert_eq!(all(addrs.unwrap()), [v4(1, 0)]);
    let failed = lookup_outcome::<_, ()>(Lookup::Answered(Err("no such host")));
    assert!(matches!(failed, Err(LookupError::System("no such host"))));
    match lookup_outcome::<(), _>(Lookup::Cancelled("task 7 was cancelled")) {
        Err(LookupError::Io(kind, cause)) => {
            assert_eq!(kind, IoErrorKind::Interrupted);
            assert_eq!(cause, "task 7 was cancelled");
        }
        other => panic!("unexpected outcome: {other:?}"),
    }
}

#[test]
fn destinations_of_a_connector() {
    let mut connector = TokioHttpConnector::new();
    let config = &connector.inner.config;
    let at = |s: &str| get_host_port::<()>(config, &uri(s)).map(|(h, p)| (h.to_owned(), p));
    assert_eq!(at("http://example.com").unwrap(), ("example.com".to_owned(), 80));
    assert_eq!(at("http://example.com:81").unwrap(), ("example.com".to_owned(), 81));
    assert_eq!(at("https://example.com").unwrap_err().text(), "invalid URL, scheme is not http");
    assert_eq!(at("/path").unwrap_err().text(), "invalid URL, scheme is not http");

    connector.inner.enforce_http(false);
    let config = &connector.inner.config;
    let at = |s: &str| get_host_port::<()>(config, &uri(s)).map(|(h, p)| (h.to_owned(), p));
    assert_eq!(at("https://example.com").unwrap(), ("example.com".to_owned(), 443));
    assert_eq!(at("/path").unwrap_err().text(), "invalid URL, scheme is missing");
}

#[test]
fn targets_are_known_or_looked_up() {
    let connector = TokioHttpConnector::new();
    match connector.inner.call_async::<()>(&uri("http://127.0.0.1:8080")).unwrap() {
        Target::Known(addrs) => assert_eq!(all(addrs), [v4(1, 8080)]),
        other => panic!("unexpected target: {other:?}"),
    }
    match connector.inner.call_async::<()>(&uri("http://[::1]")).unwrap() {
        Target::Known(addrs) => assert_eq!(all(addrs), [v6(1, 80)]),
        other => panic!("unexpected target: {other:?}"),
    }
    match connector.inner.call_async::<()>(&uri("http://example.com")).unwrap() {
        Target::Resolve(lookup) => {
            assert_eq!(lookup.name.as_str(), "example.com");
            // a port that the resolver set stands, unless one was written
            let found = lookup.resolved(vec![v4(1, 0), v4(2, 8080)]);
            assert_eq!(all(found), [v4(1, 80), v4(2, 8080)]);
        }
        other => panic!("unexpected target: {other:?}"),
    }
    match connector.inner.call_async::<()>(&uri("http://example.com:81")).unwrap() {
        Target::Resolve(lookup) => {
            let found = lookup.resolved(vec![v4(1, 0), v4(2, 8080)]);
            assert_eq!(all(found), [v4(1, 81), v4(2, 81)]);
        }
        other => panic!("unexpected target: {other:?}"),
    }
}

#[test]
fn ports_are_set_where_they_are_missing() {
    let mut addr = v4(1, 0);
    set_port(&mut addr, 42, true);
    assert_eq!(addr.port(), 42);

    let mut addr = v4(1, 0);
    set_port(&mut addr, 443, false);
    assert_eq!(addr.port(), 443);

    let mut addr = v4(1, 8080);
    set_port(&mut addr, 443, false);
    assert_eq!(addr.port(), 8080);
}

#[test]
fn keepalive_of_a_socket() {
    let none = TcpKeepaliveConfig::default();
    assert!(none.into_tcpkeepalive(PLATFORM).is_none());

    let config = TcpKeepaliveConfig {
        time: Some(millis(60_000)),
        interval: Some(millis(1_000)),
        retries: Some(3),
    };
    let ka = config.into_tcpkeepalive(PLATFORM).unwrap();
    assert_eq!(ka.time.map(nanos), Some(60_000_000_000));
    assert_eq!(ka.interval.map(nanos), Some(1_000_000_000));
    assert_eq!(ka.retries, Some(3));

    let poor = Platform { keepalive_interval: false, keepalive_retries: false, ..PLATFORM };
    let ka = config.into_tcpkeepalive(poor).unwrap();
    assert!(ka.time.is_some() && ka.interval.is_none() && ka.retries.is_none());
    let only_retries = TcpKeepaliveConfig { time: None, interval: None, retries: Some(3) };
    assert!(only_retries.into_tcpkeepalive(poor).is_none());
}

#[test]
fn sockets_are_bound_to_local_addresses() {
    let local4 = Some(Ipv4Addr { octets: [10, 0, 0, 1] });
    let local6 = Some(Ipv6Addr { octets: [1; 16] });
    assert_eq!(
        bind_local_address(&v4(1, 80), &local4, &local6, false).unwrap().ip(),
        IpAddr::V4(local4.unwrap())
    );
    assert_eq!(
        bind_local_address(&v6(1, 80), &local4, &local6, false).unwrap().ip(),
        IpAddr::V6(local6.unwrap())
    );
    assert!(bind_local_address(&v6(1, 80), &local4, &None, false).is_none());
    assert_eq!(
        bind_local_address(&v6(1, 80), &local4, &None, true).unwrap(),
        v6(0, 0)
    );
}

#[test]
fn sockets_are_set_up_in_order() {
    let mut connector = TokioHttpConnector::new();
    let steps = connect(&v4(1, 80), &connector.inner.config, PLATFORM);
    assert!(matches!(steps[..], [SocketStep::SetNonblocking, SocketStep::SetNodelay(false)]));

    connector.inner.set_keepalive(Some(millis(1)));
    connector.inner.set_interface("eth0".into());
    connector.inner.set_tcp_user_timeout(Some(millis(2)));
    connector.inner.set_local_address(Some(IpAddr::V4(Ipv4Addr { octets: [10, 0, 0, 1] })));
    connector.inner.set_reuse_address(true);
    connector.inner.set_send_buffer_size(Some(3));
    connector.inner.set_recv_buffer_size(Some(4));
    connector.inner.set_nodelay(true);
    let steps = connect(&v4(1, 80), &connector.inner.config, PLATFORM);
    assert!(matches!(
        steps[..],
        [
            SocketStep::SetNonblocking,
            SocketStep::SetKeepalive(_),
            SocketStep::BindInterface(_),
            SocketStep::SetUserTimeout(_),
            SocketStep::BindLocal(_),
            SocketStep::SetReuseAddress,
            SocketStep::SetSendBufferSize(3),
            SocketStep::SetRecvBufferSize(4),
            SocketStep::SetNodelay(true),
        ]
    ));

    // what must not fail
    assert_eq!(
        step_failed(&steps[0], ()).unwrap_err().text(),
        "tcp set_nonblocking error"
    );
    assert!(step_failed(&steps[1], ()).is_ok());
    assert_eq!(step_failed(&steps[2], ()).unwrap_err().text(), "tcp bind interface error");
    assert_eq!(step_failed(&steps[4], ()).unwrap_err().text(), "tcp bind local error");
    assert!(step_failed(&steps[8], ()).is_ok());
    assert_eq!(open_failed(()).text(), "tcp open error");
    assert_eq!(
        interface_index_failed(()).text(),
        "error converting interface name to index"
    );
}

#[test]
fn local_addresses_of_both_families() {
    let ip4 = Ipv4Addr { octets: [10, 0, 0, 1] };
    let ip6 = Ipv6Addr { octets: [1; 16] };
    let mut connector = TokioHttpConnector::new();
    connector.inner.set_local_addresses(ip4, ip6);
    assert_eq!(connector.inner.config.local_address_ipv4, Some(ip4));
    assert_eq!(connector.inner.config.local_address_ipv6, Some(ip6));
    connector.inner.set_local_address(Some(IpAddr::V6(ip6)));
    assert_eq!(connector.inner.config.local_address_ipv4, None);
    assert_eq!(connector.inner.config.local_address_ipv6, Some(ip6));
    connector.inner.set_local_address(None);
    assert_eq!(connector.inner.config.local_address_ipv6, None);
}

#[test]
fn connecting_ends() {
    assert_eq!(connect_outcome::<_, ()>(Connecting::Connected(1)).unwrap(), 1);
    let e = connect_outcome::<(), _>(Connecting::Failed("refused")).unwrap_err();
    assert_eq!(e.text(), "tcp connect error");
    assert!(matches!(e.cause, Some(Cause::Outside("refused"))));
    let e = connect_outcome::<(), ()>(Connecting::Elapsed).unwrap_err();
    assert!(matches!(e.cause, Some(Cause::Io(io)) if io.kind == IoErrorKind::TimedOut));
}

#[test]
fn addresses_are_tried_in_order_and_the_first_error_stays() {
    let addrs = SocketAddrs::new(vec![v4(1, 80), v4(2, 80)]);
    let mut remote: ConnectingTcpRemote<&str> = ConnectingTcpRemote::new(addrs, Some(millis(10)));
    // the time is shared
    assert_eq!(remote.connect_timeout.map(nanos), Some(5_000_000));
    assert!(matches!(remote.connect(), RemoteStep::Attempt(a) if a == v4(1, 80)));
    remote.failed(v4(1, 80), ConnectError::new("tcp connect error", Cause::Outside("one")));
    assert!(matches!(remote.connect(), RemoteStep::Attempt(a) if a == v4(2, 80)));
    remote.failed(v4(2, 80), ConnectError::new("tcp connect error", Cause::Outside("two")));
    match remote.connect() {
        RemoteStep::GiveUp(e) => {
            assert!(matches!(e.cause, Some(Cause::Outside("one"))));
            assert_eq!(e.addr, Some(v4(1, 80)));
        }
        other => panic!("unexpected step: {other:?}"),
    }
}

#[test]
fn no_address_is_an_unreachable_network() {
    let mut remote: ConnectingTcpRemote<()> =
        ConnectingTcpRemote::new(SocketAddrs::new(vec![]), Some(millis(10)));
    // no division by the number of addresses
    assert!(remote.connect_timeout.is_none());
    match remote.connect() {
        RemoteStep::GiveUp(e) => {
            assert!(matches!(e.cause, Some(Cause::Io(io)) if io.kind == IoErrorKind::NotConnected))
        }
        other => panic!("unexpected step: {other:?}"),
    }
}

#[test]
fn the_other_family_is_a_fallback() {
    let mut connector = TokioHttpConnector::new();
    connector.inner.set_connect_timeout(Some(millis(10)));
    let addrs = SocketAddrs::new(vec![v6(1, 80), v4(1, 80), v4(2, 80)]);
    let plan: ConnectingTcp<()> = ConnectingTcp::new(addrs, &connector.inner.config);
    assert_eq!(plan.race(), Race::Delaying);
    let fallback = plan.fallback.unwrap();
    assert_eq!(nanos(fallback.delay), 300_000_000);
    assert_eq!(all(plan.preferred.addrs), [v6(1, 80)]);
    assert_eq!(all(fallback.remote.addrs), [v4(1, 80), v4(2, 80)]);
    assert_eq!(plan.preferred.connect_timeout.map(nanos), Some(10_000_000));
    assert_eq!(fallback.remote.connect_timeout.map(nanos), Some(5_000_000));

    connector.inner.set_happy_eyeballs_timeout(None);
    let addrs = SocketAddrs::new(vec![v6(1, 80), v4(1, 80)]);
    let plan: ConnectingTcp<()> = ConnectingTcp::new(addrs, &connector.inner.config);
    assert_eq!(plan.race(), Race::Alone);
    assert_eq!(all(plan.preferred.addrs), [v6(1, 80), v4(1, 80)]);
}

fn failure() -> Result<u8, ConnectError<()>> {
    Err(ConnectError::plain("failed"))
}

#[test]
fn races_end_with_the_first_connection_or_the_last_failure() {
    let next = |race: Race, event| match race.advance(event) {
        RaceStep::Continue(race) => race,
        RaceStep::Finished(r) => panic!("finished: {r:?}"),
    };
    assert_eq!(next(Race::Delaying, RaceEvent::Delay), Race::Racing);
    assert_eq!(next(Race::Delaying, RaceEvent::Preferred(failure())), Race::OnlyFallback);
    assert_eq!(next(Race::Racing, RaceEvent::Preferred(failure())), Race::OnlyFallback);
    assert_eq!(next(Race::Racing, RaceEvent::Fallback(failure())), Race::OnlyPreferred);
    assert!(matches!(
        Race::Racing.advance::<u8, ()>(RaceEvent::Fallback(Ok(4))),
        RaceStep::Finished(Ok(4))
    ));
    assert!(matches!(
        Race::Alone.advance(RaceEvent::Preferred(failure())),
        RaceStep::Finished(Err(_))
    ));
    assert!(matches!(
        Race::OnlyFallback.advance(RaceEvent::Fallback(failure())),
        RaceStep::Finished(Err(_))
    ));
}

// The race of both families, step by step.
fn run(events: Vec<RaceEvent<u8, ()>>) -> Result<u8, ConnectError<()>> {
    let mut race = Race::Delaying;
    for event in events {
        match race.advance(event) {
            RaceStep::Continue(next) => race = next,
            RaceStep::Finished(r) => return r,
        }
    }
    panic!("unfinished: {race:?}");
}

#[test]
fn a_race_fails_only_when_both_families_fail() {
    let late = Err(ConnectError::plain("late"));
    let r = run(vec![RaceEvent::Delay, RaceEvent::Fallback(failure()), RaceEvent::Preferred(late)]);
    assert_eq!(r.unwrap_err().text(), "late");
    let r = run(vec![RaceEvent::Preferred(failure()), RaceEvent::Fallback(Ok(4))]);
    assert_eq!(r.unwrap(), 4);
    let r = run(vec![RaceEvent::Delay, RaceEvent::Fallback(failure()), RaceEvent::Preferred(Ok(6))]);
    assert_eq!(r.unwrap(), 6);
}

#[test]
fn durations_are_divided() {
    let d = Duration::new(1, 500_000_000).unwrap();
    assert_eq!(nanos(d.checked_div(4).unwrap()), 375_000_000);
    assert_eq!(nanos(Duration::new(7, 1).unwrap().checked_div(2).unwrap()), 3_500_000_000);
    assert!(d.checked_div(0).is_none());
    assert!(Duration::new(0, 1_000_000_000).is_none());
}

#[test]
fn the_client_probes_what_its_pool_keeps() {
    let connector = http_connector(true, Some(millis(90_000)));
    assert_eq!(
        connector.inner.config.tcp_keepalive_config.time.map(nanos),
        Some(90_000_000_000)
    );
    let connector = http_connector(false, Some(millis(90_000)));
    assert!(connector.inner.config.tcp_keepalive_config.time.is_none());
}

#[test]
fn unix_connector_ignores_the_destination() {
    let connector = UnixConnector::new("/var/run/httpd.sock".into());
    assert_eq!(connector.call().to_str(), Some("/var/run/httpd.sock"));
}

#[test]
fn http_info_tells_both_ends() {
    let info = HttpInfo { remote_addr: v4(1, 80), local_addr: v4(2, 5000) };
    assert_eq!(info.remote_addr(), v4(1, 80));
    assert_eq!(info.local_addr(), v4(2, 5000));
}
