use hyper_util::client::legacy::connect::proxy::http_connect::{
    check_status, connect_request, destination, DriveStep, Driver, Headers, HttpConnect,
    HttpConnectError, Polled,
};
use hyper_util::client::legacy::connect::proxy::socks::v4;
use hyper_util::client::legacy::connect::proxy::socks::v5::messages::Status;
use hyper_util::client::legacy::connect::proxy::socks::v5::AuthError;
use hyper_util::client::legacy::connect::proxy::socks::{
    ParsingError, SerializeError, SocksError as Socks4Error,
};
use hyper_util::client::legacy::connect::proxy::socks5;
use hyper_util::client::legacy::connect::proxy::socks5::{Handshake, Socks, SocksError, Step};
use hyper_util::client::legacy::connect::proxy::tunnel::{
    Reply, ReplyStep, Tunnel, TunnelError, MAX_REPLY,
};
use hyper_util::error::IoErrorKind;
use hyper_util::header::FieldValue;
use hyper_util::net::{IpAddr, Ipv4Addr, Ipv6Addr, SocketAddr};
use hyper_util::uri::Uri;

fn uri(s: &str) -> Uri {
    Uri::parse(s).unwrap()
}

fn value(s: &str) -> FieldValue {
    FieldValue::from_str(s).unwrap()
}

type Failure = HttpConnectError<(), &'static str>;

// ===== CONNECT written by hand =====

#[test]
fn test_tunnel_works() {
    let connector = Tunnel::new(uri("http://127.0.0.1:8080"), ());
    let request: Result<Vec<u8>, TunnelError<()>> = connector.request(&uri("https://hyper.rs"));
    assert_eq!(
        request.unwrap(),
        b"CONNECT hyper.rs:443 HTTP/1.1\r\nHost: hyper.rs:443\r\n\r\n"
    );
    let mut reply = Reply::new();
    let step: Result<ReplyStep, TunnelError<()>> = reply.received(b"HTTP/1.1 200 OK\r\n\r\n");
    assert_eq!(step.unwrap(), ReplyStep::Done);
}

#[test]
fn tunnel_sends_authorization() {
    let connector = Tunnel::new(uri("http://127.0.0.1:8080"), ()).with_auth(value("Basic dGVzdA=="));
    let request: Result<Vec<u8>, TunnelError<()>> = connector.request(&uri("http://hyper.rs:8080"));
    assert_eq!(
        String::from_utf8(request.unwrap()).unwrap(),
        "CONNECT hyper.rs:8080 HTTP/1.1\r\nHost: hyper.rs:8080\r\nProxy-Authorization: Basic dGVzdA==\r\n\r\n"
    );
    let request: Result<Vec<u8>, TunnelError<()>> = connector.request(&uri("/path"));
    assert!(matches!(request, Err(TunnelError::MissingHost)));
}

#[test]
fn tunnel_replies() {
    let mut reply = Reply::new();
    let step: Result<ReplyStep, TunnelError<()>> = reply.received(b"HTTP/1.0 200 OK\r\nVia: x");
    assert_eq!(step.unwrap(), ReplyStep::Read);
    let step: Result<ReplyStep, TunnelError<()>> = reply.received(b"\r\n\r\n");
    assert_eq!(step.unwrap(), ReplyStep::Done);

    let step: Result<ReplyStep, TunnelError<()>> =
        Reply::new().received(b"HTTP/1.1 407 Proxy Authentication Required\r\n\r\n");
    assert!(matches!(step, Err(TunnelError::ProxyAuthRequired)));
    let step: Result<ReplyStep, TunnelError<()>> = Reply::new().received(b"HTTP/1.1 500 no\r\n\r\n");
    assert!(matches!(step, Err(TunnelError::TunnelUnsuccessful)));
    let step: Result<ReplyStep, TunnelError<()>> = Reply::new().received(b"");
    assert!(matches!(step, Err(TunnelError::TunnelUnexpectedEof)));

    let mut reply = Reply::new();
    let mut long = b"HTTP/1.1 200 OK\r\n".to_vec();
    long.resize(MAX_REPLY - 1, b'x');
    let step: Result<ReplyStep, TunnelError<()>> = reply.received(&long);
    assert_eq!(step.unwrap(), ReplyStep::Read);
    assert_eq!(reply.room(), 1);
    let step: Result<ReplyStep, TunnelError<()>> = reply.received(b"x");
    assert!(matches!(step, Err(TunnelError::ProxyHeadersTooLong)));
}

// ===== CONNECT over an HTTP connection =====

fn header(headers: &http::HeaderMap, name: &str) -> Option<String> {
    headers.get(name).map(|v| v.to_str().unwrap().to_owned())
}

#[test]
fn established() {
    let req = connect_request::<(), &str>("example.com", 443, &Headers::Empty).unwrap();
    assert_eq!(req.target.to_text(), "example.com:443");
    assert_eq!(header(&req.headers, "host").as_deref(), Some("example.com:443"));
    let outcome: Result<(), Failure> = check_status(200);
    outcome.expect("200 response should establish the tunnel");
}

#[test]
fn auth_header_is_sent() {
    let connector = HttpConnect::new(uri("http://proxy"), ()).with_auth(value("Basic dGVzdA=="));
    let req = connect_request::<(), &str>("example.com", 443, &connector.headers).unwrap();
    assert_eq!(
        header(&req.headers, "proxy-authorization").as_deref(),
        Some("Basic dGVzdA==")
    );
    assert!(req.headers["proxy-authorization"].is_sensitive());
}

#[test]
fn extra_headers_are_merged() {
    let mut first = http::HeaderMap::new();
    first.insert("x-one", http::HeaderValue::from_static("1"));
    first.insert("x-both", http::HeaderValue::from_static("first"));
    let mut second = http::HeaderMap::new();
    second.insert("x-both", http::HeaderValue::from_static("second"));
    second.insert("host", http::HeaderValue::from_static("other"));
    let connector = HttpConnect::new(uri("http://proxy"), ())
        .with_auth(value("Basic dGVzdA=="))
        .with_headers(first)
        .with_headers(second);
    let req = connect_request::<(), &str>("example.com", 443, &connector.headers).unwrap();
    assert_eq!(header(&req.headers, "x-one").as_deref(), Some("1"));
    assert_eq!(header(&req.headers, "x-both").as_deref(), Some("second"));
    assert_eq!(header(&req.headers, "host").as_deref(), Some("other"));
    assert_eq!(header(&req.headers, "proxy-authorization").as_deref(), Some("Basic dGVzdA=="));
    assert_eq!(req.headers.len(), 4);
}

#[test]
fn ipv6_hosts_get_brackets() {
    let req = connect_request::<(), &str>("::1", 8080, &Headers::Empty).unwrap();
    assert_eq!(req.target.to_text(), "[::1]:8080");
    let req = connect_request::<(), &str>("[::1]", 8080, &Headers::Empty).unwrap();
    assert_eq!(req.target.to_text(), "[::1]:8080");
    let req = connect_request::<(), &str>("exa mple", 8080, &Headers::Empty);
    assert!(matches!(req, Err(HttpConnectError::MissingHost)));
}

#[test]
fn ipv6_destinations_are_asked_for() {
    for (dst, authority) in [
        ("https://[::1]:8443", "[::1]:8443"),
        ("https://[2001:db8::7]/x", "[2001:db8::7]:443"),
        ("http://user@[::1]:80", "[::1]:80"),
    ] {
        let (host, port) = destination::<(), ()>(&uri(dst)).unwrap();
        let req = connect_request::<(), &str>(&host, port, &Headers::Empty).unwrap();
        assert_eq!(req.target.to_text(), authority);
        assert_eq!(header(&req.headers, "host").as_deref(), Some(authority));
    }
}

#[test]
fn connect_destinations() {
    assert_eq!(
        destination::<(), ()>(&uri("https://example.com")).unwrap(),
        ("example.com".to_owned(), 443)
    );
    assert_eq!(
        destination::<(), ()>(&uri("http://example.com:80/x")).unwrap(),
        ("example.com".to_owned(), 80)
    );
    assert_eq!(
        destination::<(), ()>(&uri("https://[::1]:8443")).unwrap(),
        ("[::1]".to_owned(), 8443)
    );
    assert!(matches!(destination::<(), ()>(&uri("/x")), Err(HttpConnectError::MissingHost)));
}

#[test]
fn proxy_auth_required() {
    let err: Failure = check_status(407).unwrap_err();
    assert!(matches!(err, HttpConnectError::ProxyAuthRequired));
    assert_eq!(err.text(), "http connect error: proxy authorization required");
}

#[test]
fn non_2xx_is_unsuccessful() {
    let err: Failure = check_status(500).unwrap_err();
    match err {
        HttpConnectError::Unsuccessful(status) => assert_eq!(status, 500),
        other => panic!("unexpected error: {other:?}"),
    }
    let err: Failure = check_status(500).unwrap_err();
    assert_eq!(
        err.text(),
        "http connect error: unsuccessful status (500 Internal Server Error)"
    );
    assert!(check_status::<(), ()>(299).is_ok());
    assert!(check_status::<(), ()>(300).is_err());
    assert!(check_status::<(), ()>(199).is_err());
}

#[test]
fn eof_before_response() {
    // the connection ends well while the response is still awaited
    let mut driver = Driver::new();
    let step: DriveStep<(), (), &str> = driver.polled(Polled::Pending);
    assert!(matches!(step, DriveStep::PollConnection));
    let step: DriveStep<(), (), &str> = driver.connection_polled(Polled::Ready(Ok(())));
    assert!(matches!(step, DriveStep::PollAgain));
    let step: DriveStep<(), (), &str> = driver.polled_again(Polled::Pending);
    assert!(matches!(step, DriveStep::Finished(Err(HttpConnectError::UnexpectedEof))));

    // the connection fails
    let mut driver = Driver::new();
    let step: DriveStep<(), (), &str> = driver.connection_polled(Polled::Ready(Err("closed")));
    assert!(matches!(step, DriveStep::Finished(Err(HttpConnectError::Handshake("closed")))));
}

#[test]
fn a_resolved_connection_is_not_polled_again() {
    let mut driver = Driver::new();
    let step: DriveStep<(), (), ()> = driver.connection_polled(Polled::Pending);
    assert!(matches!(step, DriveStep::Wait));
    let step: DriveStep<u8, (), ()> = driver.polled(Polled::Pending);
    assert!(matches!(step, DriveStep::PollConnection));
    let step: DriveStep<u8, (), ()> = driver.connection_polled(Polled::Ready(Ok(())));
    assert!(matches!(step, DriveStep::PollAgain));
    let step: DriveStep<u8, (), ()> = driver.polled_again(Polled::Ready(Ok(7)));
    assert!(matches!(step, DriveStep::Finished(Ok(7))));
    let step: DriveStep<u8, (), ()> = driver.polled(Polled::Pending);
    assert!(matches!(step, DriveStep::Wait));
}

// ===== SOCKS 5 =====

fn sent(step: Step) -> Vec<u8> {
    match step {
        Step::Send(bytes) => bytes,
        other => panic!("unexpected step: {other:?}"),
    }
}

fn receive(h: &mut Handshake, read: &[u8]) -> Result<Step, SocksError<()>> {
    assert!(h.accepts(read));
    h.received(read)
}

fn start(dst: &str, auth: Option<(String, String)>) -> (Handshake, Step) {
    let (host, port) = socks5::destination::<()>(&uri(dst)).unwrap();
    Handshake::start::<()>(host, port, auth).unwrap()
}

#[test]
fn test_socks_without_auth_works() {
    let connector = Socks::new(uri("http://127.0.0.1:1080"), ());
    let (mut h, step) = start("http://127.0.0.1:8080", connector.auth);

    // negotiation req/res
    assert_eq!(sent(step), [0x05, 0x01, 0x00]);
    let step = receive(&mut h, &[0x05, 0x00]).unwrap();

    // command req/rs
    let [p1, p2] = 8080u16.to_be_bytes();
    let [ip1, ip2, ip3, ip4] = [0x7f, 0x00, 0x00, 0x01];
    assert_eq!(sent(step), [0x05, 0x01, 0x00, 0x01, ip1, ip2, ip3, ip4, p1, p2]);

    let message = [0x05, 0x00, 0x00, 0x01, ip1, ip2, ip3, ip4, p1, p2];
    assert!(matches!(receive(&mut h, &message), Ok(Step::Done)));
}

#[test]
fn test_socks_with_auth_works() {
    let connector =
        Socks::new(uri("http://127.0.0.1:1080"), ()).with_auth("user".into(), "pass".into());
    let (mut h, step) = start("http://127.0.0.1:8080", connector.auth);

    // negotiation req/res
    assert_eq!(sent(step), [0x05, 0x01, 0x02]);
    let step = receive(&mut h, &[0x05, 0x02]).unwrap();

    // auth req/res
    let [u1, u2, u3, u4] = b"user";
    let [p1, p2, p3, p4] = b"pass";
    let message = [0x01, 0x04, *u1, *u2, *u3, *u4, 0x04, *p1, *p2, *p3, *p4];
    assert_eq!(sent(step), message);
    let step = receive(&mut h, &[0x01, 0x00]).unwrap();

    // command req/res
    let [p1, p2] = 8080u16.to_be_bytes();
    let [ip1, ip2, ip3, ip4] = [0x7f, 0x00, 0x00, 0x01];
    assert_eq!(sent(step), [0x05, 0x01, 0x00, 0x01, ip1, ip2, ip3, ip4, p1, p2]);

    let message = [0x05, 0x00, 0x00, 0x01, ip1, ip2, ip3, ip4, p1, p2];
    assert!(matches!(receive(&mut h, &message), Ok(Step::Done)));
}

#[test]
fn test_socks_with_domain_works() {
    let auth = Some(("user".to_owned(), "pass".to_owned()));
    let (mut h, step) = start("https://hyper.rs:443", auth);

    // negotiation req/res
    assert_eq!(sent(step), [0x05, 0x01, 0x02]);
    let step = receive(&mut h, &[0x05, 0x02]).unwrap();

    // auth req/res
    let [u1, u2, u3, u4] = b"user";
    let [p1, p2, p3, p4] = b"pass";
    let message = [0x01, 0x04, *u1, *u2, *u3, *u4, 0x04, *p1, *p2, *p3, *p4];
    assert_eq!(sent(step), message);
    let step = receive(&mut h, &[0x01, 0x00]).unwrap();

    // command req/res
    let host = "hyper.rs";
    let port: u16 = 443;
    let mut message = vec![0x05, 0x01, 0x00, 0x03, host.len() as u8];
    message.extend(host.bytes());
    message.extend(port.to_be_bytes());
    assert_eq!(sent(step), message);

    let mut message = vec![0x05, 0x00, 0x00, 0x03, host.len() as u8];
    message.extend(host.bytes());
    message.extend(port.to_be_bytes());
    assert!(matches!(receive(&mut h, &message), Ok(Step::Done)));
}

#[test]
fn socks_destinations() {
    assert!(matches!(socks5::destination::<()>(&uri("/x")), Err(SocksError::MissingHost)));
    assert!(matches!(
        socks5::destination::<()>(&uri("http://example.com")),
        Err(SocksError::MissingPort)
    ));
    let long = "a".repeat(256);
    assert!(matches!(
        Handshake::start::<()>(long, 80, None),
        Err(SocksError::HostTooLong)
    ));
    assert!(Handshake::start::<()>("a".repeat(255), 80, None).is_ok());
}

#[test]
fn socks_refusals() {
    let auth = Some(("user".to_owned(), "pass".to_owned()));

    let (mut h, _) = start("http://example.com:80", None);
    assert!(matches!(
        receive(&mut h, &[0x05, 0xff]),
        Err(SocksError::Auth(AuthError::Unsupported))
    ));

    let (mut h, _) = start("http://example.com:80", auth.clone());
    assert!(matches!(
        receive(&mut h, &[0x05, 0x00]),
        Err(SocksError::Auth(AuthError::MethodMismatch))
    ));

    let (mut h, _) = start("http://example.com:80", None);
    assert!(matches!(
        receive(&mut h, &[0x05, 0x02]),
        Err(SocksError::Auth(AuthError::MethodMismatch))
    ));

    let (mut h, _) = start("http://example.com:80", auth);
    receive(&mut h, &[0x05, 0x02]).unwrap();
    assert!(matches!(
        receive(&mut h, &[0x01, 0x01]),
        Err(SocksError::Auth(AuthError::Failed))
    ));

    let (mut h, _) = start("http://example.com:80", None);
    receive(&mut h, &[0x05, 0x00]).unwrap();
    let refused = [0x05, 0x05, 0x00, 0x01, 0, 0, 0, 0, 0, 0];
    assert!(matches!(
        receive(&mut h, &refused),
        Err(SocksError::Command(Status::ConnectionRefused))
    ));

    let (mut h, _) = start("http://example.com:80", None);
    assert!(matches!(
        receive(&mut h, &[0x04, 0x00]),
        Err(SocksError::Parsing(ParsingError::Other))
    ));

    let (mut h, _) = start("http://example.com:80", None);
    match receive(&mut h, &[]) {
        Err(SocksError::Io(e)) => assert_eq!(e.kind, IoErrorKind::UnexpectedEof),
        other => panic!("unexpected result: {other:?}"),
    }

    let long = Some(("u".repeat(300), "p".repeat(300)));
    let (mut h, _) = start("http://example.com:80", long);
    assert!(matches!(
        receive(&mut h, &[0x05, 0x02]),
        Err(SocksError::Serialize(SerializeError::WouldOverflow))
    ));
}

#[test]
fn socks_reads_start_at_the_front_of_the_buffer() {
    // the second read takes the place of the first, in front of the rest of the offer
    let (mut h, _) = start("http://127.0.0.1:8080", None);
    assert!(matches!(receive(&mut h, &[0x05]), Ok(Step::Read)));
    assert!(matches!(
        receive(&mut h, &[0x00]),
        Err(SocksError::Parsing(ParsingError::Other))
    ));

    // in front of the rest of the credentials
    let auth = Some(("user".to_owned(), "pass".to_owned()));
    let (mut h, _) = start("http://127.0.0.1:8080", auth);
    sent(receive(&mut h, &[0x05, 0x02]).unwrap());
    assert!(matches!(receive(&mut h, &[0x01]), Ok(Step::Read)));
    assert!(matches!(
        receive(&mut h, &[0x01]),
        Err(SocksError::Auth(AuthError::Failed))
    ));

    // in front of the rest of the request
    let (mut h, _) = start("http://127.0.0.1:8080", None);
    sent(receive(&mut h, &[0x05, 0x00]).unwrap());
    assert!(matches!(receive(&mut h, &[0x05]), Ok(Step::Read)));
    let rest = [0x05, 0x00, 0x00, 0x01, 127, 0, 0, 1, 0x1F];
    assert!(matches!(receive(&mut h, &rest), Ok(Step::Done)));
}

#[test]
fn socks_reads_that_cannot_be_taken() {
    let (mut h, _) = start("http://127.0.0.1:8080", None);
    assert!(!h.accepts(&[0; 514]));
    assert!(h.accepts(&[0; 513]));
    sent(receive(&mut h, &[0x05, 0x00]).unwrap());
    // cut behind the status, and within an IPv6 address
    assert!(!h.accepts(&[0x05, 0x00]));
    assert!(!h.accepts(&[0x05, 0x00, 0x00, 0x04, 0, 0, 0, 0, 0, 0]));
    assert!(h.accepts(&[0x05, 0x00, 0x00, 0x04, 0, 0, 0, 0, 0]));
    assert!(matches!(
        receive(&mut h, &[0x04, 0x00]),
        Err(SocksError::Parsing(ParsingError::Other))
    ));
}

// ===== SOCKS 4 =====

#[test]
fn socks4_asks_for_addresses_and_names() {
    let config = v4::SocksConfig::new(uri("http://proxy"));
    let (host, port) = v4::destination::<()>(&uri("http://127.0.0.1:8080")).unwrap();
    let (mut h, step) = v4::Handshake::start::<()>(&config, host, port).unwrap();
    match step {
        v4::Step::Send(bytes) => {
            assert_eq!(bytes, [0x04, 0x01, 0x1f, 0x90, 127, 0, 0, 1, 0x00, 0x00])
        }
        other => panic!("unexpected step: {other:?}"),
    }
    assert!(matches!(h.received::<()>(&[0x00, 90]), Ok(v4::Step::Read)));
    assert!(matches!(h.received::<()>(&[0, 0, 0, 0, 0, 0]), Ok(v4::Step::Done)));

    let (mut h, step) = v4::Handshake::start::<()>(&config, "hyper.rs".into(), 80).unwrap();
    match step {
        v4::Step::Send(bytes) => {
            let mut expected = vec![0x04, 0x01, 0x00, 0x50, 0, 0, 0, 255, 0x00, 0x00];
            expected.extend(b"hyper.rs");
            expected.push(0x00);
            assert_eq!(bytes, expected)
        }
        other => panic!("unexpected step: {other:?}"),
    }
    assert!(matches!(
        h.received::<()>(&[0x00, 91, 0, 0, 0, 0, 0, 0]),
        Err(Socks4Error::V4(v4::SocksV4Error::Command(v4::messages::Status::Failed)))
    ));
}

#[test]
fn socks4_streams_that_end_early() {
    let config = v4::SocksConfig::new(uri("http://proxy"));
    for received in 0..8 {
        let (mut h, _) = v4::Handshake::start::<()>(&config, "hyper.rs".into(), 80).unwrap();
        if received > 0 {
            let reply = [0x00, 90, 0, 0, 0, 0, 0];
            assert!(matches!(h.received::<()>(&reply[..received]), Ok(v4::Step::Read)));
        }
        match h.received::<()>(&[]) {
            Err(Socks4Error::Io(e)) => assert_eq!(e.kind, IoErrorKind::UnexpectedEof),
            other => panic!("unexpected result: {other:?}"),
        }
    }
}

#[test]
fn socks4_resolves_names_itself() {
    let connector = v4::SocksV4::new(uri("http://proxy"), ()).local_dns(true);
    let (h, step) =
        v4::Handshake::start::<()>(&connector.config, "hyper.rs".into(), 80).unwrap();
    assert!(matches!(step, v4::Step::Lookup(_, 80)));
    let v6 = SocketAddr::new(IpAddr::V6(Ipv6Addr { octets: [1; 16] }), 80);
    let v4_addr = SocketAddr::new(IpAddr::V4(Ipv4Addr { octets: [1, 2, 3, 4] }), 80);
    match h.resolved::<()>(&[v6, v4_addr]).unwrap() {
        v4::Step::Send(bytes) => {
            assert_eq!(bytes, [0x04, 0x01, 0x00, 0x50, 1, 2, 3, 4, 0x00, 0x00])
        }
        other => panic!("unexpected step: {other:?}"),
    }
    assert!(matches!(h.resolved::<()>(&[v6]), Err(Socks4Error::DnsFailure)));
    assert!(matches!(
        v4::Handshake::start::<()>(&connector.config, "::1".into(), 80),
        Err(Socks4Error::V4(v4::SocksV4Error::IpV6))
    ));
}
