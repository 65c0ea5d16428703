use bytes::BytesMut;
use hyper_util::buffers::FixedBuf;
use hyper_util::client::legacy::connect::proxy::socks::v4;
use hyper_util::client::legacy::connect::proxy::socks::v5;
use hyper_util::client::legacy::connect::proxy::socks::v5::messages::{
    Address, AuthMethod, AuthenticationReq, AuthenticationRes, NegotiationReq, NegotiationRes,
    ProxyReq, ProxyRes, Status,
};
use hyper_util::client::legacy::connect::proxy::socks::{
    message_bytes, message_bytes_with, next_message, Message, ParsingError, ReadStep,
    SerializeError, SocksError,
};
use hyper_util::error::IoErrorKind;
use hyper_util::net::{IpAddr, Ipv4Addr, Ipv6Addr, SocketAddr, SocketAddrV4};

const LOCALHOST: Ipv4Addr = Ipv4Addr { octets: [127, 0, 0, 1] };

fn localhost_v6() -> Ipv6Addr {
    let mut octets = [0u8; 16];
    octets[15] = 1;
    Ipv6Addr { octets }
}

#[test]
fn request_serialization_with_socket() {
    let expected = [
        0x04, // protocol version
        0x01, // command: connect
        0x1F, 0x90, // destination port: 8080
        127, 0, 0, 1,    // destination address: 127.0.0.1
        0x00, // userid (empty)
        0x00, // null terminator
    ];

    let addr = v4::messages::Address::Socket(SocketAddrV4 { ip: LOCALHOST, port: 8080 });
    let mut buf = BytesMut::with_capacity(expected.len());
    let n = v4::messages::Request(&addr).write_to_buf(&mut buf).unwrap();
    assert_eq!(n, buf.len());
    assert_eq!(&buf[..], &expected[..]);
}

#[test]
fn request_serialization_with_domain() {
    let expected = [
        0x04, // protocol version
        0x01, // command: connect
        0x1F, 0x90, // destination port: 8080
        0x00, 0x00, 0x00, 0xFF, // invalid IP: signals that a domain follows (SOCKS4a)
        0x00, // userid (empty)
        0x00, // null terminator
        b'e', b'x', b'a', b'm', b'p', b'l', b'e', b'.', b'c', b'o', b'm', // domain
        0x00, // null terminator
    ];

    let addr = v4::messages::Address::Domain("example.com".into(), 8080);
    let mut buf = BytesMut::with_capacity(expected.len());
    let n = v4::messages::Request(&addr).write_to_buf(&mut buf).unwrap();
    assert_eq!(n, buf.len());
    assert_eq!(&buf[..], &expected[..]);
}

#[test]
fn response_deserialization() {
    let raw = [
        0x00, // reply version
        90,   // status: request granted
        0x1F, 0x90, // port: 8080 (ignored, only used for BIND)
        127, 0, 0, 1, // address: 127.0.0.1 (ignored, only used for BIND)
    ];
    let mut view = BytesMut::from(&raw[..]);

    let res = v4::messages::Response::try_from(&mut view).unwrap();
    assert_eq!(res, v4::messages::Response(v4::messages::Status::Success));
    assert!(view.is_empty());
}

#[test]
fn response_incomplete() {
    let raw = [
        0x00, // reply version
        90,   // status: request granted
        0x00, // truncated mid-port
    ];

    let err = v4::messages::Response::try_from(&mut BytesMut::from(&raw[..])).unwrap_err();
    assert!(matches!(err, ParsingError::Incomplete));
}

#[test]
fn request_serialization_would_overflow() {
    let addr = v4::messages::Address::Socket(SocketAddrV4 { ip: LOCALHOST, port: 8080 });
    let mut short = FixedBuf::new(5);
    let err = v4::messages::Request(&addr).write_to_buf(&mut short).unwrap_err();
    assert!(matches!(err, SerializeError::WouldOverflow));
}

#[test]
fn v4_response_of_each_status() {
    let statuses = [
        (90u8, v4::messages::Status::Success),
        (91, v4::messages::Status::Failed),
        (92, v4::messages::Status::IdentFailure),
        (93, v4::messages::Status::IdentMismatch),
    ];
    for (code, status) in statuses {
        let raw = [0x00, code, 0, 0, 0, 0, 0, 0];
        let mut view = BytesMut::from(&raw[..]);
        let res = v4::messages::Response::try_from(&mut view).unwrap();
        assert_eq!(res, v4::messages::Response(status));
    }
    let mut view = BytesMut::from(&[0x00u8, 94, 0, 0, 0, 0, 0, 0][..]);
    let err = v4::messages::Response::try_from(&mut view).unwrap_err();
    assert!(matches!(err, ParsingError::Other));
    let mut view = BytesMut::from(&[0x01u8, 90, 0, 0, 0, 0, 0, 0][..]);
    let err = v4::messages::Response::try_from(&mut view).unwrap_err();
    assert!(matches!(err, ParsingError::Other));
}

#[test]
fn negotiation_req_serialization() {
    let expected = [
        0x05, // protocol version
        0x01, // number of authentication methods: 1
        0x00, // method: no authentication
    ];

    let mut buf = BytesMut::with_capacity(expected.len());
    let n = NegotiationReq(&AuthMethod::NoAuth)
        .write_to_buf(&mut buf)
        .unwrap();
    assert_eq!(n, buf.len());
    assert_eq!(&buf[..], &expected[..]);
}

#[test]
fn negotiation_res_deserialization() {
    let raw = [
        0x05, // protocol version
        0x02, // selected method: username/password
    ];

    let mut view = BytesMut::from(&raw[..]);

    let res = NegotiationRes::try_from(&mut view).unwrap();
    assert_eq!(res, NegotiationRes(AuthMethod::UserPass));
    assert!(view.is_empty());
}

#[test]
fn authentication_req_serialization() {
    let expected = [
        0x01, // authentication version
        0x04, // username length: 4
        b'u', b's', b'e', b'r', // username
        0x04, // password length: 4
        b'p', b'a', b's', b's', // password
    ];

    let mut buf = BytesMut::with_capacity(expected.len());
    let n = AuthenticationReq("user", "pass")
        .write_to_buf(&mut buf)
        .unwrap();
    assert_eq!(n, buf.len());
    assert_eq!(&buf[..], &expected[..]);
}

#[test]
fn authentication_res_deserialization() {
    let raw = [
        0x01, // authentication version
        0x00, // status: success
    ];
    assert_eq!(
        AuthenticationRes::try_from(&mut BytesMut::from(&raw[..])).unwrap(),
        AuthenticationRes(true)
    );

    let raw = [
        0x01, // authentication version
        0x01, // status: failure
    ];
    assert_eq!(
        AuthenticationRes::try_from(&mut BytesMut::from(&raw[..])).unwrap(),
        AuthenticationRes(false)
    );
}

#[test]
fn proxy_req_serialization() {
    let expected = [
        0x05, // protocol version
        0x01, // command: connect
        0x00, // reserved
        0x01, // address type: IPv4
        127, 0, 0, 1, // destination address: 127.0.0.1
        0x1F, 0x90, // destination port: 8080
    ];

    let addr = Address::Socket(SocketAddr::new(IpAddr::V4(LOCALHOST), 8080));

    let mut buf = BytesMut::with_capacity(expected.len());
    let n = ProxyReq(&addr).write_to_buf(&mut buf).unwrap();
    assert_eq!(n, buf.len());
    assert_eq!(&buf[..], &expected[..]);
}

#[test]
fn proxy_res_deserialization() {
    let raw = [
        0x05, // protocol version
        0x00, // reply: success
        0x00, // reserved
        0x01, // address type: IPv4
        127, 0, 0, 1, // bound address: 127.0.0.1
        0x1F, 0x90, // bound port: 8080
    ];
    let mut view = BytesMut::from(&raw[..]);

    let res = ProxyRes::try_from(&mut view).unwrap();
    assert_eq!(res, ProxyRes(Status::Success));
    assert!(view.is_empty());
}

#[test]
fn serialization_would_overflow() {
    let mut buf = BytesMut::with_capacity(2);

    let err = NegotiationReq(&AuthMethod::NoAuth)
        .write_to_buf(&mut buf)
        .unwrap_err();
    assert!(matches!(err, SerializeError::WouldOverflow));
}

#[test]
fn reserved_room_takes_messages_in_a_row() {
    let addr = Address::Socket(SocketAddr::new(IpAddr::V4(LOCALHOST), 8080));
    let mut buf = BytesMut::with_capacity(3 + 11 + 7 + 10);

    let n = NegotiationReq(&AuthMethod::UserPass).write_to_buf(&mut buf).unwrap();
    assert_eq!(n, 3);
    let n = AuthenticationReq("user", "pass").write_to_buf(&mut buf).unwrap();
    assert_eq!(n, 11);
    let n = addr.write_to_buf(&mut buf).unwrap();
    assert_eq!(n, 7);
    let n = ProxyReq(&addr).write_to_buf(&mut buf).unwrap();
    assert_eq!(n, 10);

    assert_eq!(&buf[..3], &[0x05, 0x01, 0x02]);
    assert_eq!(&buf[3..14], b"\x01\x04user\x04pass");
    assert_eq!(&buf[14..21], &[0x01, 127, 0, 0, 1, 0x1F, 0x90]);
    assert_eq!(&buf[21..], &[0x05, 0x01, 0x00, 0x01, 127, 0, 0, 1, 0x1F, 0x90]);
}

fn assert_address_roundtrips(addr: Address) {
    let mut buf = BytesMut::with_capacity(64);

    let n = addr.write_to_buf(&mut buf).unwrap();
    assert_eq!(n, buf.len());

    assert_eq!(Address::try_from(&mut buf).unwrap(), addr);
    assert!(buf.is_empty(), "address bytes should be fully consumed");
}

#[test]
fn address_roundtrip_ipv4() {
    assert_address_roundtrips(Address::Socket(SocketAddr::new(IpAddr::V4(LOCALHOST), 8080)));
}

#[test]
fn address_roundtrip_ipv6() {
    assert_address_roundtrips(Address::Socket(SocketAddr::new(
        IpAddr::V6(localhost_v6()),
        8080,
    )));
}

#[test]
fn address_roundtrip_domain() {
    assert_address_roundtrips(Address::Domain("example.com".into(), 8080));
}

#[test]
fn address_of_unknown_type_is_refused() {
    let mut buf = BytesMut::from(&[0x02u8, 1, 2, 3, 4, 5, 6, 7][..]);
    let err = Address::try_from(&mut buf).unwrap_err();
    assert!(matches!(err, ParsingError::Other));
}

#[test]
fn domain_that_is_no_text_is_refused() {
    let mut buf = BytesMut::from(&[0x03u8, 2, 0xff, 0xfe, 0x00, 0x50][..]);
    let err = Address::try_from(&mut buf).unwrap_err();
    assert!(matches!(err, ParsingError::Other));
}

#[test]
fn v5_status_codes_and_texts() {
    let statuses = [
        (0u8, Status::Success, "success"),
        (1, Status::GeneralServerFailure, "general server failure"),
        (2, Status::ConnectionNotAllowed, "connection not allowed"),
        (3, Status::NetworkUnreachable, "network unreachable"),
        (4, Status::HostUnreachable, "host unreachable"),
        (5, Status::ConnectionRefused, "connection refused"),
        (6, Status::TtlExpired, "ttl expired"),
        (7, Status::CommandNotSupported, "command not supported"),
        (8, Status::AddressTypeNotSupported, "address type not supported"),
    ];
    for (code, status, text) in statuses {
        assert_eq!(Status::try_from(code).unwrap(), status);
        assert_eq!(status.text(), text);
    }
    assert!(matches!(Status::try_from(9), Err(ParsingError::Other)));
}

// A SOCKS5 ProxyRes message. Successful, bound to 127.0.0.1:8080.
const SEG1: [u8; 4] = [0x05, 0x00, 0x00, 0x01];
const SEG2: [u8; 6] = [0x7F, 0x00, 0x00, 0x01, 0x1F, 0x90];

// A SOCKS5 NegotiationRes message: username/password method selected.
const NEG_RES: [u8; 2] = [0x05, 0x02];
// A SOCKS5 AuthenticationRes message: success.
const AUTH_RES: [u8; 2] = [0x01, 0x00];

// Reads a message from a connection that gives the pieces one by one.
fn read_message<M: Message>(
    pieces: &mut Vec<Vec<u8>>,
    buf: &mut BytesMut,
) -> Result<M, SocksError<()>> {
    loop {
        match next_message(buf) {
            ReadStep::Done(m) => return Ok(m),
            ReadStep::Failed(e) => return Err(e.into()),
            ReadStep::NeedMore => {
                let piece = if pieces.is_empty() { Vec::new() } else { pieces.remove(0) };
                message_bytes(buf, &piece)?;
            }
        }
    }
}

#[test]
fn it_works_in_one_read() {
    let mut pieces = vec![[&SEG1[..], &SEG2[..]].concat()];
    let mut buf = BytesMut::new();

    let m: Result<ProxyRes, SocksError<()>> = read_message(&mut pieces, &mut buf);
    assert!(m.is_ok());
    assert_eq!(m.unwrap(), ProxyRes(Status::Success));
}

#[test]
fn it_works_in_multiple_reads() {
    let mut pieces = vec![SEG1.to_vec(), SEG2.to_vec()];
    let mut buf = BytesMut::new();

    let m: Result<ProxyRes, SocksError<()>> = read_message(&mut pieces, &mut buf);
    assert!(m.is_ok());
    assert_eq!(m.unwrap(), ProxyRes(Status::Success));
}

#[test]
fn optimistic_sending_works_in_single_read() {
    // Messages will arrive in a single read
    let message = [&NEG_RES[..], &AUTH_RES[..], &SEG1[..], &SEG2[..]].concat();
    let mut pieces = vec![message];
    let mut buf = BytesMut::new();

    let m: Result<NegotiationRes, SocksError<()>> = read_message(&mut pieces, &mut buf);
    assert_eq!(m.unwrap(), NegotiationRes(AuthMethod::UserPass));
    assert!(pieces.is_empty());

    // the other messages are parsed from the buffer, not read from the connection
    let m: Result<AuthenticationRes, SocksError<()>> = read_message(&mut pieces, &mut buf);
    assert_eq!(m.unwrap(), AuthenticationRes(true));

    let m: Result<ProxyRes, SocksError<()>> = read_message(&mut pieces, &mut buf);
    assert_eq!(m.unwrap(), ProxyRes(Status::Success));

    assert!(buf.is_empty(), "all handshake bytes should be consumed");
}

#[test]
fn optimistic_sending_works_in_multiple_reads() {
    let message = [&NEG_RES[..], &AUTH_RES[..], &SEG1[..], &SEG2[..]].concat();
    let mut pieces: Vec<Vec<u8>> = message.chunks(message.len() / 4).map(|c| c.to_vec()).collect();
    let mut buf = BytesMut::new();

    let m: Result<NegotiationRes, SocksError<()>> = read_message(&mut pieces, &mut buf);
    assert_eq!(m.unwrap(), NegotiationRes(AuthMethod::UserPass));

    let m: Result<AuthenticationRes, SocksError<()>> = read_message(&mut pieces, &mut buf);
    assert_eq!(m.unwrap(), AuthenticationRes(true));

    let m: Result<ProxyRes, SocksError<()>> = read_message(&mut pieces, &mut buf);
    assert_eq!(m.unwrap(), ProxyRes(Status::Success));

    assert!(buf.is_empty(), "all handshake bytes should be consumed");
}

#[test]
fn end_of_stream_within_a_message() {
    let mut pieces = vec![SEG1.to_vec()];
    let mut buf = BytesMut::with_capacity(64);
    let m: Result<ProxyRes, SocksError<()>> = read_message(&mut pieces, &mut buf);
    match m {
        Err(SocksError::Io(e)) => assert_eq!(e.kind, IoErrorKind::UnexpectedEof),
        other => panic!("unexpected result: {other:?}"),
    }
    // what has come stays in the buffer
    assert_eq!(&buf[..], &SEG1[..]);

    let mut buf = BytesMut::from(&SEG1[..]);
    let full: Result<(), SocksError<()>> = message_bytes_with(&mut buf, &[], true);
    assert!(matches!(full, Err(SocksError::Parsing(ParsingError::WouldOverflow))));
}

#[test]
fn a_byte_that_is_no_message_fails() {
    let mut pieces = vec![vec![0x04u8, 0x00]];
    let mut buf = BytesMut::new();
    let m: Result<NegotiationRes, SocksError<()>> = read_message(&mut pieces, &mut buf);
    assert!(matches!(m, Err(SocksError::Parsing(ParsingError::Other))));
}

#[test]
fn socks_error_texts() {
    let texts: Vec<(SocksError<()>, &str)> = vec![
        (SocksError::Inner(()), "SOCKS error: failed to create underlying connection"),
        (SocksError::DnsFailure, "SOCKS error: could not resolve to acceptable address type"),
        (SocksError::MissingHost, "SOCKS error: missing destination host"),
        (SocksError::MissingPort, "SOCKS error: missing destination port"),
        (SocksError::Parsing(ParsingError::Other), "SOCKS error: failed parsing server response"),
        (SocksError::Serialize(SerializeError::WouldOverflow), "SOCKS error: failed serialize request"),
    ];
    for (error, text) in texts {
        assert_eq!(error.text(), text);
    }
    assert_eq!(v5::SocksV5Error::HostTooLong.text(), "host address is more than 255 characters");
    assert_eq!(v4::SocksV4Error::IpV6.text(), "IPV6 is not supported");
}
