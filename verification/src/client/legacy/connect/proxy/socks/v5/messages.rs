//! Messages of SOCKSv5.

use vstd::prelude::*;

use bytes::BytesMut;
use vstd::utf8::decode_utf8;
use vstd::utf8::encode_utf8;
use vstd::utf8::encode_utf8_decode_utf8;
use vstd::utf8::encode_utf8_valid_utf8;
use vstd::utf8::valid_utf8;

use super::super::take_message;
use super::super::Message;
use super::super::ParsingError;
use super::super::SerializeError;
use crate::buffers::be16;
use crate::buffers::buffer_advance;
use crate::buffers::buffer_contents;
use crate::buffers::buffer_reserved;
use crate::buffers::buffer_slice;
use crate::buffers::from_be16;
use crate::buffers::lemma_be16_order;
use crate::buffers::lemma_be16_roundtrip;
use crate::buffers::spare_room;
use crate::buffers::Sink;
use crate::net::IpAddr;
use crate::net::Ipv4Addr;
use crate::net::Ipv6Addr;
use crate::net::SocketAddr;
use crate::text::utf8_text;

verus! {

/// Offers one authentication method.
///
/// +----+----------+----------+
/// |VER | NMETHODS | METHODS  |
/// +----+----------+----------+
/// | 1  |    1     | 1 to 255 |
/// +----+----------+----------+
#[derive(Debug, PartialEq)]
pub struct NegotiationReq<'a>(pub &'a AuthMethod);

/// The method that the proxy chose.
///
/// +----+--------+
/// |VER | METHOD |
/// +----+--------+
/// | 1  |   1    |
/// +----+--------+
#[derive(Debug, PartialEq)]
pub struct NegotiationRes(pub AuthMethod);

/// User name and password.
///
/// +----+------+----------+------+----------+
/// |VER | ULEN |  UNAME   | PLEN |  PASSWD  |
/// +----+------+----------+------+----------+
/// | 1  |  1   | 1 to 255 |  1   | 1 to 255 |
/// +----+------+----------+------+----------+
#[derive(Debug, PartialEq)]
pub struct AuthenticationReq<'a>(pub &'a str, pub &'a str);

/// Whether the proxy accepted the credentials.
///
/// +----+--------+
/// |VER | STATUS |
/// +----+--------+
/// | 1  |   1    |
/// +----+--------+
#[derive(Debug, PartialEq)]
pub struct AuthenticationRes(pub bool);

/// A request to connect to an address.
///
/// +----+-----+-------+------+----------+----------+
/// |VER | CMD |  RSV  | ATYP | DST.ADDR | DST.PORT |
/// +----+-----+-------+------+----------+----------+
/// | 1  |  1  | X'00' |  1   | Variable |    2     |
/// +----+-----+-------+------+----------+----------+
#[derive(Debug, PartialEq)]
pub struct ProxyReq<'a>(pub &'a Address);

/// The proxy's answer to a request.
///
/// +----+-----+-------+------+----------+----------+
/// |VER | REP |  RSV  | ATYP | BND.ADDR | BND.PORT |
/// +----+-----+-------+------+----------+----------+
/// | 1  |  1  | X'00' |  1   | Variable |    2     |
/// +----+-----+-------+------+----------+----------+
#[derive(Debug, PartialEq)]
pub struct ProxyRes(pub Status);

/// A way to authenticate.
#[derive(Debug, Clone, Copy, PartialEq, Eq, Structural)]
pub enum AuthMethod {
    NoAuth,
    UserPass,
    NoneAcceptable,
}

/// A destination: an address, or a name that the proxy resolves.
#[derive(Debug, PartialEq)]
pub enum Address {
    Socket(SocketAddr),
    Domain(String, u16),
}

/// What an address says on the wire.
#[verifier::ext_equal]
pub enum AddressView {
    V4(Seq<u8>, u16),
    V6(Seq<u8>, u16),
    Domain(Seq<char>, u16),
}

/// What the proxy says of a request.
#[derive(Debug, Clone, Copy, PartialEq, Eq, Structural)]
pub enum Status {
    Success,
    GeneralServerFailure,
    ConnectionNotAllowed,
    NetworkUnreachable,
    HostUnreachable,
    ConnectionRefused,
    TtlExpired,
    CommandNotSupported,
    AddressTypeNotSupported,
}

impl AuthMethod {
    /// The code of the method on the wire.
    pub open spec fn code_spec(self) -> u8 {
        match self {
            AuthMethod::NoAuth => 0x00,
            AuthMethod::UserPass => 0x02,
            AuthMethod::NoneAcceptable => 0xff,
        }
    }

    /// The method with the given code.
    pub open spec fn of_code(byte: u8) -> Result<AuthMethod, ParsingError> {
        if byte == 0x00 {
            Ok(AuthMethod::NoAuth)
        } else if byte == 0x02 {
            Ok(AuthMethod::UserPass)
        } else if byte == 0xff {
            Ok(AuthMethod::NoneAcceptable)
        } else {
            Err(ParsingError::Other)
        }
    }

    /// The code of the method on the wire.
    pub fn code(self) -> (r: u8)
        ensures
            r == self.code_spec(),
    {
        match self {
            AuthMethod::NoAuth => 0x00,
            AuthMethod::UserPass => 0x02,
            AuthMethod::NoneAcceptable => 0xff,
        }
    }

    /// The method with the given code.
    pub fn try_from(byte: u8) -> (r: Result<AuthMethod, ParsingError>)
        ensures
            r == AuthMethod::of_code(byte),
            r matches Ok(m) ==> m.code_spec() == byte,
            r is Err ==> forall|m: AuthMethod| m.code_spec() != byte,
    {
        match byte {
            0x00 => Ok(AuthMethod::NoAuth),
            0x02 => Ok(AuthMethod::UserPass),
            0xff => Ok(AuthMethod::NoneAcceptable),
            _ => Err(ParsingError::Other),
        }
    }
}

impl Status {
    /// The code of the status on the wire.
    pub open spec fn code(self) -> u8 {
        match self {
            Status::Success => 0,
            Status::GeneralServerFailure => 1,
            Status::ConnectionNotAllowed => 2,
            Status::NetworkUnreachable => 3,
            Status::HostUnreachable => 4,
            Status::ConnectionRefused => 5,
            Status::TtlExpired => 6,
            Status::CommandNotSupported => 7,
            Status::AddressTypeNotSupported => 8,
        }
    }

    /// The status with the given code.
    pub open spec fn of_code(byte: u8) -> Result<Status, ParsingError> {
        if byte == 0 {
            Ok(Status::Success)
        } else if byte == 1 {
            Ok(Status::GeneralServerFailure)
        } else if byte == 2 {
            Ok(Status::ConnectionNotAllowed)
        } else if byte == 3 {
            Ok(Status::NetworkUnreachable)
        } else if byte == 4 {
            Ok(Status::HostUnreachable)
        } else if byte == 5 {
            Ok(Status::ConnectionRefused)
        } else if byte == 6 {
            Ok(Status::TtlExpired)
        } else if byte == 7 {
            Ok(Status::CommandNotSupported)
        } else if byte == 8 {
            Ok(Status::AddressTypeNotSupported)
        } else {
            Err(ParsingError::Other)
        }
    }

    /// The status with the given code.
    pub fn try_from(byte: u8) -> (r: Result<Status, ParsingError>)
        ensures
            r == Status::of_code(byte),
            r matches Ok(s) ==> s.code() == byte,
            r is Err ==> forall|s: Status| s.code() != byte,
    {
        match byte {
            0x00 => Ok(Status::Success),
            0x01 => Ok(Status::GeneralServerFailure),
            0x02 => Ok(Status::ConnectionNotAllowed),
            0x03 => Ok(Status::NetworkUnreachable),
            0x04 => Ok(Status::HostUnreachable),
            0x05 => Ok(Status::ConnectionRefused),
            0x06 => Ok(Status::TtlExpired),
            0x07 => Ok(Status::CommandNotSupported),
            0x08 => Ok(Status::AddressTypeNotSupported),
            _ => Err(ParsingError::Other),
        }
    }

    /// What the status says.
    pub open spec fn detail(self) -> Seq<char> {
        match self {
            Status::Success => "success"@,
            Status::GeneralServerFailure => "general server failure"@,
            Status::ConnectionNotAllowed => "connection not allowed"@,
            Status::NetworkUnreachable => "network unreachable"@,
            Status::HostUnreachable => "host unreachable"@,
            Status::ConnectionRefused => "connection refused"@,
            Status::TtlExpired => "ttl expired"@,
            Status::CommandNotSupported => "command not supported"@,
            Status::AddressTypeNotSupported => "address type not supported"@,
        }
    }

    /// What the status says.
    pub fn text(&self) -> (r: &'static str)
        ensures
            r@ == self.detail(),
    {
        match self {
            Status::Success => "success",
            Status::GeneralServerFailure => "general server failure",
            Status::ConnectionNotAllowed => "connection not allowed",
            Status::NetworkUnreachable => "network unreachable",
            Status::HostUnreachable => "host unreachable",
            Status::ConnectionRefused => "connection refused",
            Status::TtlExpired => "ttl expired",
            Status::CommandNotSupported => "command not supported",
            Status::AddressTypeNotSupported => "address type not supported",
        }
    }
}

/// What writing a message into a limited room does: the message is appended whole, or the buffer
/// is left alone.
pub open spec fn written_whole<B: Sink>(
    before: B,
    after: B,
    room: usize,
    message: Seq<u8>,
    r: Result<usize, SerializeError>,
) -> bool {
    match r {
        Ok(n) => {
            &&& message.len() <= room
            &&& n == message.len()
            &&& after.written() == before.written() + message
            &&& after.room() == before.room() - n
            &&& after.reserved() == before.reserved()
        },
        Err(_) => message.len() > room && after == before,
    }
}

/// What writing a message into whatever room a buffer has left does. A message that fits in what
/// was reserved for the buffer is always written, and one that no allocation could hold is always
/// refused; between the two, the size of the allocation decides.
pub open spec fn written_or_refused(
    before: BytesMut,
    after: BytesMut,
    message: Seq<u8>,
    r: Result<usize, SerializeError>,
) -> bool {
    match r {
        Ok(n) => {
            &&& buffer_contents(before).len() + message.len() <= isize::MAX
            &&& n == message.len()
            &&& buffer_contents(after) == buffer_contents(before) + message
            &&& buffer_reserved(after) == buffer_reserved(before)
        },
        Err(_) => {
            &&& buffer_contents(before).len() + message.len() > buffer_reserved(before)
            &&& after == before
        },
    }
}

impl<'a> NegotiationReq<'a> {
    /// The message on the wire.
    pub open spec fn encoded(self) -> Seq<u8> {
        seq![0x05u8, 0x01u8, self.0.code_spec()]
    }

    /// Appends the message if it fits in the given room.
    pub fn write_within<B: Sink>(&self, buf: &mut B, room: usize) -> (r: Result<
        usize,
        SerializeError,
    >)
        requires
            room <= old(buf).room(),
        ensures
            written_whole(*old(buf), *final(buf), room, self.encoded(), r),
    {
        if room < 3 {
            return Err(SerializeError::WouldOverflow);
        }
        let ghost start = buf.written();
        buf.put_u8(0x05);
        buf.put_u8(0x01);
        buf.put_u8(self.0.code());
        assert(buf.written() =~= start + self.encoded());
        Ok(3)
    }

    /// Appends the message if it fits in the buffer as it is allocated.
    pub fn write_to_buf(&self, buf: &mut BytesMut) -> (r: Result<usize, SerializeError>)
        ensures
            written_or_refused(*old(buf), *final(buf), self.encoded(), r),
    {
        let room: usize = spare_room(buf);
        self.write_within(buf, room)
    }
}

/// User name and password on the wire. Each length is one byte.
pub open spec fn credentials(user: Seq<char>, pass: Seq<char>) -> Seq<u8> {
    let u = encode_utf8(user);
    let p = encode_utf8(pass);
    seq![0x01u8, (u.len() % 256) as u8] + u + seq![(p.len() % 256) as u8] + p
}

/// Credentials can be read back: the first length is that of the user, the second, right behind the
/// user, that of the password, and the message ends with the last byte of the password.
pub proof fn lemma_credentials_read_back(user: Seq<char>, pass: Seq<char>)
    requires
        encode_utf8(user).len() <= 255,
        encode_utf8(pass).len() <= 255,
    ensures
        ({
            let b = credentials(user, pass);
            let ulen = b[1] as int;
            let plen = b[2 + ulen] as int;
            &&& b[0] == 1
            &&& ulen == encode_utf8(user).len()
            &&& plen == encode_utf8(pass).len()
            &&& b.len() == 3 + ulen + plen
            &&& b.subrange(2, 2 + ulen) == encode_utf8(user)
            &&& b.subrange(3 + ulen, 3 + ulen + plen) == encode_utf8(pass)
            &&& decode_utf8(b.subrange(2, 2 + ulen)) == user
            &&& decode_utf8(b.subrange(3 + ulen, 3 + ulen + plen)) == pass
        }),
{
    let u = encode_utf8(user);
    let p = encode_utf8(pass);
    let b = credentials(user, pass);
    let m = u.len() as int;
    let n = p.len() as int;
    assert(b.subrange(2, 2 + m) =~= u);
    assert(b[2 + m] == n);
    assert(b.subrange(3 + m, 3 + m + n) =~= p);
    encode_utf8_decode_utf8(user);
    encode_utf8_decode_utf8(pass);
}

/// Different credentials are different messages.
pub proof fn lemma_credentials_distinct(
    user: Seq<char>,
    pass: Seq<char>,
    other_user: Seq<char>,
    other_pass: Seq<char>,
)
    requires
        encode_utf8(user).len() <= 255,
        encode_utf8(pass).len() <= 255,
        encode_utf8(other_user).len() <= 255,
        encode_utf8(other_pass).len() <= 255,
        credentials(user, pass) == credentials(other_user, other_pass),
    ensures
        user == other_user,
        pass == other_pass,
{
    lemma_credentials_read_back(user, pass);
    lemma_credentials_read_back(other_user, other_pass);
}

impl<'a> AuthenticationReq<'a> {
    /// The message on the wire.
    pub open spec fn encoded(self) -> Seq<u8> {
        credentials(self.0@, self.1@)
    }

    /// Appends the message if it fits in the given room.
    pub fn write_within<B: Sink>(&self, buf: &mut B, room: usize) -> (r: Result<
        usize,
        SerializeError,
    >)
        requires
            room <= old(buf).room(),
        ensures
            written_whole(*old(buf), *final(buf), room, self.encoded(), r),
            r is Ok && encode_utf8(self.0@).len() <= 255 && encode_utf8(self.1@).len() <= 255 ==> ({
                let b = final(buf).written().skip(old(buf).written().len() as int);
                let ulen = encode_utf8(self.0@).len() as int;
                let plen = encode_utf8(self.1@).len() as int;
                &&& b.len() == 3 + ulen + plen
                &&& b[0] == 1 && b[1] == ulen && b[2 + ulen] == plen
                &&& b.subrange(2, 2 + ulen) == encode_utf8(self.0@)
                &&& b.skip(3 + ulen) == encode_utf8(self.1@)
            }),
    {
        let user = self.0.as_bytes();        let pass = self.1.as_bytes();
        if room < 3 || room - 3 < user.len() || room - 3 - user.len() < pass.len() {
            return Err(SerializeError::WouldOverflow);
        }
        let ghost start = buf.written();
        buf.put_u8(0x01);
        buf.put_u8((user.len() % 256) as u8);
        buf.put_slice(user);
        buf.put_u8((pass.len() % 256) as u8);
        buf.put_slice(pass);
        assert(buf.written() =~= start + self.encoded());
        proof {
            let b = buf.written().skip(start.len() as int);
            assert(b =~= self.encoded());
            let ulen = user@.len() as int;
            assert(b.skip(3 + ulen) =~= pass@);
            assert(b.subrange(2, 2 + ulen) =~= user@);
        }
        Ok(3 + user.len() + pass.len())
    }

    /// Appends the message if it fits in the buffer as it is allocated.
    pub fn write_to_buf(&self, buf: &mut BytesMut) -> (r: Result<usize, SerializeError>)
        ensures
            written_or_refused(*old(buf), *final(buf), self.encoded(), r),
    {
        let room: usize = spare_room(buf);
        self.write_within(buf, room)
    }
}

impl View for Address {
    type V = AddressView;

    open spec fn view(&self) -> AddressView {
        match self {
            Address::Socket(SocketAddr::V4(a)) => AddressView::V4(a.ip@, a.port),
            Address::Socket(SocketAddr::V6(a)) => AddressView::V6(a.ip@, a.port),
            Address::Domain(domain, port) => AddressView::Domain(domain@, *port),
        }
    }
}

impl AddressView {
    /// The address on the wire.
    pub open spec fn encoded(self) -> Seq<u8> {
        match self {
            AddressView::V4(ip, port) => seq![0x01u8] + ip + be16(port),
            AddressView::V6(ip, port) => seq![0x04u8] + ip + be16(port),
            AddressView::Domain(domain, port) => {
                let name = encode_utf8(domain);
                seq![0x03u8, (name.len() % 256) as u8] + name + be16(port)
            },
        }
    }

    /// What the bytes at the start of `b` say, and how many of them are read to find out.
    pub open spec fn parse(b: Seq<u8>) -> (Result<AddressView, ParsingError>, nat) {
        if b.len() < 2 {
            (Err(ParsingError::Incomplete), 0)
        } else if b[0] == 0x01 {
            if b.len() < 7 {
                (Err(ParsingError::Incomplete), 1)
            } else {
                (Ok(AddressView::V4(b.subrange(1, 5), from_be16(b[5], b[6]))), 7)
            }
        } else if b[0] == 0x03 {
            let n = b[1] as int;
            if n == 0 {
                (Err(ParsingError::Other), 2)
            } else if b.len() < n + 4 {
                (Err(ParsingError::Incomplete), 2)
            } else if !valid_utf8(b.subrange(2, n + 2)) {
                (Err(ParsingError::Other), 2)
            } else {
                (
                    Ok(
                        AddressView::Domain(
                            decode_utf8(b.subrange(2, n + 2)),
                            from_be16(b[n + 2], b[n + 3]),
                        ),
                    ),
                    (n + 4) as nat,
                )
            }
        } else if b[0] == 0x04 {
            if b.len() < 19 {
                (Err(ParsingError::Incomplete), 1)
            } else {
                (Ok(AddressView::V6(b.subrange(1, 17), from_be16(b[17], b[18]))), 19)
            }
        } else {
            (Err(ParsingError::Other), 1)
        }
    }

    /// Whether the protocol can carry the address: octets of the right number, and a name of 1 to
    /// 255 bytes.
    pub open spec fn carried(self) -> bool {
        match self {
            AddressView::V4(ip, _) => ip.len() == 4,
            AddressView::V6(ip, _) => ip.len() == 16,
            AddressView::Domain(domain, _) => 1 <= encode_utf8(domain).len() <= 255,
        }
    }
}

impl Address {
    /// Whether the address has no flow and no scope, which the protocol does not carry.
    pub open spec fn is_plain(self) -> bool {
        match self {
            Address::Socket(SocketAddr::V6(a)) => a.flowinfo == 0 && a.scope_id == 0,
            _ => true,
        }
    }

    /// Appends the address if it fits in the given room.
    pub fn write_within<B: Sink>(&self, buf: &mut B, room: usize) -> (r: Result<
        usize,
        SerializeError,
    >)
        requires
            room <= old(buf).room(),
        ensures
            written_whole(*old(buf), *final(buf), room, self@.encoded(), r),
    {
        let ghost start = buf.written();
        match self {
            Address::Socket(SocketAddr::V4(v4)) => {
                if room < 7 {
                    return Err(SerializeError::WouldOverflow);
                }
                buf.put_u8(0x01);
                buf.put_slice(&v4.ip.octets);
                buf.put_u16(v4.port);
                assert(buf.written() =~= start + self@.encoded());
                Ok(7)
            },
            Address::Socket(SocketAddr::V6(v6)) => {
                if room < 19 {
                    return Err(SerializeError::WouldOverflow);
                }
                buf.put_u8(0x04);
                buf.put_slice(&v6.ip.octets);
                buf.put_u16(v6.port);
                assert(buf.written() =~= start + self@.encoded());
                Ok(19)
            },
            Address::Domain(domain, port) => {
                let name = domain.as_str().as_bytes();
                if room < 4 || room - 4 < name.len() {
                    return Err(SerializeError::WouldOverflow);
                }
                buf.put_u8(0x03);
                buf.put_u8((name.len() % 256) as u8);
                buf.put_slice(name);
                buf.put_u16(*port);
                assert(buf.written() =~= start + self@.encoded());
                Ok(4 + name.len())
            },
        }
    }

    /// Appends the address if it fits in the buffer as it is allocated.
    pub fn write_to_buf(&self, buf: &mut BytesMut) -> (r: Result<usize, SerializeError>)
        ensures
            written_or_refused(*old(buf), *final(buf), self@.encoded(), r),
    {
        let room: usize = spare_room(buf);
        self.write_within(buf, room)
    }

    /// Reads an address from the start of `b`, and tells how many bytes that took.
    pub fn read(b: &[u8]) -> (r: (Result<Address, ParsingError>, usize))
        ensures
            match r.0 {
                Ok(a) => AddressView::parse(b@).0 == Ok::<AddressView, ParsingError>(a@)
                    && a.is_plain(),
                Err(e) => AddressView::parse(b@).0 == Err::<AddressView, ParsingError>(e),
            },
            r.1 == AddressView::parse(b@).1,
            r.1 <= b@.len(),
    {
        if b.len() < 2 {
            return (Err(ParsingError::Incomplete), 0);
        }
        let kind: u8 = b[0];
        if kind == 0x01 {
            if b.len() < 7 {
                return (Err(ParsingError::Incomplete), 1);
            }
            let ip = Ipv4Addr { octets: [b[1], b[2], b[3], b[4]] };
            let port: u16 = b[5] as u16 * 256 + b[6] as u16;
            assert(ip@ =~= b@.subrange(1, 5));
            (Ok(Address::Socket(SocketAddr::new(IpAddr::V4(ip), port))), 7)
        } else if kind == 0x03 {
            let n: usize = b[1] as usize;
            if n == 0 {
                return (Err(ParsingError::Other), 2);
            }
            if b.len() < n + 4 {
                return (Err(ParsingError::Incomplete), 2);
            }
            match utf8_text(&b[2..n + 2]) {
                None => (Err(ParsingError::Other), 2),
                Some(domain) => {
                    let port: u16 = b[n + 2] as u16 * 256 + b[n + 3] as u16;
                    (Ok(Address::Domain(domain, port)), n + 4)
                },
            }
        } else if kind == 0x04 {
            if b.len() < 19 {
                return (Err(ParsingError::Incomplete), 1);
            }
            let ip = Ipv6Addr {
                octets: [
                    b[1],
                    b[2],
                    b[3],
                    b[4],
                    b[5],
                    b[6],
                    b[7],
                    b[8],
                    b[9],
                    b[10],
                    b[11],
                    b[12],
                    b[13],
                    b[14],
                    b[15],
                    b[16],
                ],
            };
            let port: u16 = b[17] as u16 * 256 + b[18] as u16;
            assert(ip@ =~= b@.subrange(1, 17));
            (Ok(Address::Socket(SocketAddr::new(IpAddr::V6(ip), port))), 19)
        } else {
            (Err(ParsingError::Other), 1)
        }
    }

    /// Reads an address from the front of a buffer and drops what was read.
    pub fn try_from(buf: &mut BytesMut) -> (r: Result<Address, ParsingError>)
        ensures
            match r {
                Ok(a) => AddressView::parse(buffer_contents(*old(buf))).0 == Ok::<
                    AddressView,
                    ParsingError,
                >(a@) && a.is_plain(),
                Err(e) => AddressView::parse(buffer_contents(*old(buf))).0 == Err::<
                    AddressView,
                    ParsingError,
                >(e),
            },
            buffer_contents(*final(buf)) == buffer_contents(*old(buf)).skip(
                AddressView::parse(buffer_contents(*old(buf))).1 as int,
            ),
    {
        let (r, n) = Address::read(buffer_slice(buf));
        buffer_advance(buf, n);
        r
    }
}

/// Reading gives back the address that was written, and takes exactly its bytes.
pub proof fn lemma_address_roundtrip(address: AddressView, rest: Seq<u8>)
    requires
        address.carried(),
    ensures
        AddressView::parse(address.encoded() + rest) == (
            Ok::<AddressView, ParsingError>(address),
            address.encoded().len(),
        ),
{
    let b = address.encoded() + rest;
    match address {
        AddressView::V4(ip, port) => {
            lemma_be16_roundtrip(port);
            assert(b.subrange(1, 5) =~= ip);
        },
        AddressView::V6(ip, port) => {
            lemma_be16_roundtrip(port);
            assert(b.subrange(1, 17) =~= ip);
        },
        AddressView::Domain(domain, port) => {
            let name = encode_utf8(domain);
            lemma_be16_roundtrip(port);
            encode_utf8_valid_utf8(domain);
            encode_utf8_decode_utf8(domain);
            assert(b[1] == name.len());
            assert(b.subrange(2, (name.len() + 2) as int) =~= name);
        },
    }
}

/// What has been decided of an address stays decided, whatever follows.
pub proof fn lemma_address_stable(b: Seq<u8>, rest: Seq<u8>)
    requires
        AddressView::parse(b).0 != Err::<AddressView, ParsingError>(ParsingError::Incomplete),
    ensures
        AddressView::parse(b + rest) == AddressView::parse(b),
{
    let w = b + rest;
    if b[0] == 0x01 {
        assert(w.subrange(1, 5) =~= b.subrange(1, 5));
    } else if b[0] == 0x03 {
        let n = b[1] as int;
        if n > 0 {
            assert(w.subrange(2, n + 2) =~= b.subrange(2, n + 2));
        }
    } else if b[0] == 0x04 {
        assert(w.subrange(1, 17) =~= b.subrange(1, 17));
    }
}

/// An address on the wire: the kind, the octets or the length and the bytes of the name, and the
/// port with the greater byte first.
pub proof fn lemma_address_layout(address: AddressView)
    requires
        address.carried(),
    ensures
        ({
            let b = address.encoded();
            let n = b.len() as int;
            match address {
                AddressView::V4(ip, port) => {
                    &&& n == 7 && b[0] == 1
                    &&& b.subrange(1, 5) == ip
                    &&& 256 * b[5] + b[6] == port
                },
                AddressView::V6(ip, port) => {
                    &&& n == 19 && b[0] == 4
                    &&& b.subrange(1, 17) == ip
                    &&& 256 * b[17] + b[18] == port
                },
                AddressView::Domain(domain, port) => {
                    &&& n == 4 + b[1] && b[0] == 3
                    &&& b.subrange(2, 2 + b[1]) == encode_utf8(domain)
                    &&& 256 * b[n - 2] + b[n - 1] == port
                },
            }
        }),
{
    let b = address.encoded();
    match address {
        AddressView::V4(ip, port) => {
            lemma_be16_order(port, 0, 0);
            assert(b.subrange(1, 5) =~= ip);
        },
        AddressView::V6(ip, port) => {
            lemma_be16_order(port, 0, 0);
            assert(b.subrange(1, 17) =~= ip);
        },
        AddressView::Domain(domain, port) => {
            lemma_be16_order(port, 0, 0);
            let name = encode_utf8(domain);
            assert(b[1] == name.len());
            assert(b.subrange(2, 2 + b[1]) =~= name);
        },
    }
}

/// What is read as an address stands in the bytes, and takes as many of them as it is long.
pub proof fn lemma_address_read(b: Seq<u8>)
    ensures
        match AddressView::parse(b) {
            (Ok(AddressView::V4(ip, port)), n) => {
                &&& n == 7 && b.len() >= 7 && b[0] == 1
                &&& ip == b.subrange(1, 5)
                &&& port == 256 * b[5] + b[6]
            },
            (Ok(AddressView::V6(ip, port)), n) => {
                &&& n == 19 && b.len() >= 19 && b[0] == 4
                &&& ip == b.subrange(1, 17)
                &&& port == 256 * b[17] + b[18]
            },
            (Ok(AddressView::Domain(domain, port)), n) => {
                let k = b[1] as int;
                &&& n == 4 + k && b.len() >= n && b[0] == 3 && k > 0
                &&& valid_utf8(b.subrange(2, 2 + k))
                &&& domain == decode_utf8(b.subrange(2, 2 + k))
                &&& port == 256 * b[2 + k] + b[3 + k]
            },
            (Err(ParsingError::Incomplete), _) => {
                ||| b.len() < 2
                ||| b[0] == 1 && b.len() < 7
                ||| b[0] == 4 && b.len() < 19
                ||| b[0] == 3 && b[1] > 0 && b.len() < 4 + b[1]
            },
            (Err(e), _) => {
                &&& e == ParsingError::Other && b.len() >= 2
                &&& b[0] != 1 && b[0] != 4
                &&& b[0] == 3 ==> b[1] == 0 || b.len() >= 4 + b[1] && !valid_utf8(
                    b.subrange(2, 2 + b[1]),
                )
            },
        },
{
}

/// The methods and their codes.
pub proof fn lemma_method_codes(byte: u8, method: AuthMethod)
    ensures
        AuthMethod::of_code(method.code_spec()) == Ok::<AuthMethod, ParsingError>(method),
        AuthMethod::of_code(byte) is Ok <==> byte == 0 || byte == 2 || byte == 255,
        AuthMethod::of_code(byte) == Ok::<AuthMethod, ParsingError>(AuthMethod::NoAuth) <==> byte
            == 0,
        AuthMethod::of_code(byte) == Ok::<AuthMethod, ParsingError>(AuthMethod::UserPass) <==> byte
            == 2,
{
}

/// The statuses are numbered from zero, which is success, to eight.
pub proof fn lemma_status_codes(byte: u8, status: Status)
    ensures
        Status::of_code(status.code()) == Ok::<Status, ParsingError>(status),
        status.code() <= 8,
        Status::of_code(byte) is Ok <==> byte <= 8,
        Status::of_code(byte) == Ok::<Status, ParsingError>(Status::Success) <==> byte == 0,
        status is GeneralServerFailure <==> status.code() == 1,
        status is ConnectionNotAllowed <==> status.code() == 2,
        status is NetworkUnreachable <==> status.code() == 3,
        status is HostUnreachable <==> status.code() == 4,
        status is ConnectionRefused <==> status.code() == 5,
        status is TtlExpired <==> status.code() == 6,
        status is CommandNotSupported <==> status.code() == 7,
        status is AddressTypeNotSupported <==> status.code() == 8,
{
}

/// The requests on the wire: the version, then what is asked for. One method is offered.
pub proof fn lemma_requests_layout(method: AuthMethod, address: Address)
    ensures
        ({
            let b = NegotiationReq(&method).encoded();
            &&& b.len() == 3 && b[0] == 5 && b[1] == 1
            &&& AuthMethod::of_code(b[2]) == Ok::<AuthMethod, ParsingError>(method)
        }),
        ({
            let b = ProxyReq(&address).encoded();
            &&& b.len() == 3 + address@.encoded().len() && b[0] == 5 && b[1] == 1 && b[2] == 0
            &&& b.skip(3) == address@.encoded()
        }),
{
    let b = ProxyReq(&address).encoded();
    assert(b.skip(3) =~= address@.encoded());
}

/// What the replies say, byte by byte.
pub proof fn lemma_replies_layout(b: Seq<u8>, method: AuthMethod, accepted: bool, status: Status)
    ensures
        NegotiationRes::parse(b).0 == Ok::<NegotiationRes, ParsingError>(NegotiationRes(method))
            <==> b.len() >= 2 && b[0] == 5 && b[1] == method.code_spec(),
        AuthenticationRes::parse(b).0 == Ok::<AuthenticationRes, ParsingError>(
            AuthenticationRes(accepted),
        ) <==> b.len() >= 2 && b[0] == 1 && (b[1] == 0 <==> accepted),
        ProxyRes::parse(b).0 == Ok::<ProxyRes, ParsingError>(ProxyRes(status)) <==> b.len() >= 3
            && b[0] == 5 && b[1] == status.code() && b[2] == 0 && AddressView::parse(b.skip(3)).0
            is Ok,
        NegotiationRes::parse(b).0 == Err::<NegotiationRes, ParsingError>(ParsingError::Incomplete)
            <==> b.len() < 2,
        AuthenticationRes::parse(b).0 == Err::<AuthenticationRes, ParsingError>(
            ParsingError::Incomplete,
        ) <==> b.len() < 2,
        NegotiationRes::parse(b).0 is Ok ==> NegotiationRes::parse(b).1 == 2,
        AuthenticationRes::parse(b).0 is Ok ==> AuthenticationRes::parse(b).1 == 2,
        ProxyRes::parse(b).0 is Ok ==> ProxyRes::parse(b).1 == 3 + AddressView::parse(b.skip(3)).1,
{
}

impl<'a> ProxyReq<'a> {
    /// The message on the wire.
    pub open spec fn encoded(self) -> Seq<u8> {
        seq![0x05u8, 0x01u8, 0x00u8] + self.0@.encoded()
    }

    /// Appends the message if it fits in the given room.
    pub fn write_within<B: Sink>(&self, buf: &mut B, room: usize) -> (r: Result<
        usize,
        SerializeError,
    >)
        requires
            room <= old(buf).room(),
        ensures
            written_whole(*old(buf), *final(buf), room, self.encoded(), r),
    {
        let fits = match self.0 {
            Address::Socket(SocketAddr::V4(_)) => room >= 10,
            Address::Socket(SocketAddr::V6(_)) => room >= 22,
            Address::Domain(domain, _) => room >= 7 && room - 7 >= domain.as_str().as_bytes().len(),
        };
        assert(fits == (self.encoded().len() <= room));
        if !fits {
            return Err(SerializeError::WouldOverflow);
        }
        let ghost start = buf.written();
        buf.put_u8(0x05);
        buf.put_u8(0x01);
        buf.put_u8(0x00);
        let ghost head = buf.written();
        assert(head =~= start + seq![0x05u8, 0x01u8, 0x00u8]);
        match self.0.write_within(buf, room - 3) {
            Ok(n) => {
                assert(buf.written() =~= start + self.encoded());
                Ok(3 + n)
            },
            Err(e) => Err(e),
        }
    }

    /// Appends the message if it fits in the buffer as it is allocated.
    pub fn write_to_buf(&self, buf: &mut BytesMut) -> (r: Result<usize, SerializeError>)
        ensures
            written_or_refused(*old(buf), *final(buf), self.encoded(), r),
    {
        let room: usize = spare_room(buf);
        self.write_within(buf, room)
    }
}

impl Message for NegotiationRes {
    open spec fn parse(b: Seq<u8>) -> (Result<Self, ParsingError>, nat) {
        if b.len() < 2 {
            (Err(ParsingError::Incomplete), 0)
        } else if b[0] != 0x05 {
            (Err(ParsingError::Other), 1)
        } else {
            match AuthMethod::of_code(b[1]) {
                Ok(method) => (Ok(NegotiationRes(method)), 2),
                Err(e) => (Err(e), 2),
            }
        }
    }

    fn read(b: &[u8]) -> (r: (Result<Self, ParsingError>, usize)) {
        if b.len() < 2 {
            return (Err(ParsingError::Incomplete), 0);
        }
        if b[0] != 0x05 {
            return (Err(ParsingError::Other), 1);
        }
        match AuthMethod::try_from(b[1]) {
            Ok(method) => (Ok(NegotiationRes(method)), 2),
            Err(e) => (Err(e), 2),
        }
    }

    proof fn lemma_stable(b: Seq<u8>, rest: Seq<u8>) {
    }
}

impl NegotiationRes {
    /// Reads the message from the front of a buffer and drops what was read.
    pub fn try_from(buf: &mut BytesMut) -> (r: Result<NegotiationRes, ParsingError>)
        ensures
            r == NegotiationRes::parse(buffer_contents(*old(buf))).0,
            buffer_contents(*final(buf)) == buffer_contents(*old(buf)).skip(
                NegotiationRes::parse(buffer_contents(*old(buf))).1 as int,
            ),
    {
        take_message(buf)
    }
}

impl Message for AuthenticationRes {
    open spec fn parse(b: Seq<u8>) -> (Result<Self, ParsingError>, nat) {
        if b.len() < 2 {
            (Err(ParsingError::Incomplete), 0)
        } else if b[0] != 0x01 {
            (Err(ParsingError::Other), 1)
        } else {
            (Ok(AuthenticationRes(b[1] == 0)), 2)
        }
    }

    fn read(b: &[u8]) -> (r: (Result<Self, ParsingError>, usize)) {
        if b.len() < 2 {
            return (Err(ParsingError::Incomplete), 0);
        }
        if b[0] != 0x01 {
            return (Err(ParsingError::Other), 1);
        }
        (Ok(AuthenticationRes(b[1] == 0)), 2)
    }

    proof fn lemma_stable(b: Seq<u8>, rest: Seq<u8>) {
    }
}

impl AuthenticationRes {
    /// Reads the message from the front of a buffer and drops what was read.
    pub fn try_from(buf: &mut BytesMut) -> (r: Result<AuthenticationRes, ParsingError>)
        ensures
            r == AuthenticationRes::parse(buffer_contents(*old(buf))).0,
            buffer_contents(*final(buf)) == buffer_contents(*old(buf)).skip(
                AuthenticationRes::parse(buffer_contents(*old(buf))).1 as int,
            ),
    {
        take_message(buf)
    }
}

impl Message for ProxyRes {
    open spec fn parse(b: Seq<u8>) -> (Result<Self, ParsingError>, nat) {
        if b.len() < 3 {
            (Err(ParsingError::Incomplete), 0)
        } else if b[0] != 0x05 {
            (Err(ParsingError::Other), 1)
        } else {
            match Status::of_code(b[1]) {
                Err(e) => (Err(e), 2),
                Ok(status) => if b[2] != 0x00 {
                    (Err(ParsingError::Other), 3)
                } else {
                    let (address, n) = AddressView::parse(b.skip(3));
                    match address {
                        Ok(_) => (Ok(ProxyRes(status)), 3 + n),
                        Err(e) => (Err(e), 3 + n),
                    }
                },
            }
        }
    }

    fn read(b: &[u8]) -> (r: (Result<Self, ParsingError>, usize)) {
        if b.len() < 3 {
            return (Err(ParsingError::Incomplete), 0);
        }
        if b[0] != 0x05 {
            return (Err(ParsingError::Other), 1);
        }
        match Status::try_from(b[1]) {
            Err(e) => (Err(e), 2),
            Ok(status) => {
                if b[2] != 0x00 {
                    return (Err(ParsingError::Other), 3);
                }
                assert(b@.subrange(3, b@.len() as int) == b@.skip(3));
                let (address, n) = Address::read(&b[3..b.len()]);
                match address {
                    Ok(_) => (Ok(ProxyRes(status)), 3 + n),
                    Err(e) => (Err(e), 3 + n),
                }
            },
        }
    }

    proof fn lemma_stable(b: Seq<u8>, rest: Seq<u8>) {
        if b[0] == 0x05 && Status::of_code(b[1]) is Ok && b[2] == 0x00 {
            lemma_address_stable(b.skip(3), rest);
            assert((b + rest).skip(3) =~= b.skip(3) + rest);
        }
    }
}

impl ProxyRes {
    /// Reads the message from the front of a buffer and drops what was read.
    pub fn try_from(buf: &mut BytesMut) -> (r: Result<ProxyRes, ParsingError>)
        ensures
            r == ProxyRes::parse(buffer_contents(*old(buf))).0,
            buffer_contents(*final(buf)) == buffer_contents(*old(buf)).skip(
                ProxyRes::parse(buffer_contents(*old(buf))).1 as int,
            ),
    {
        take_message(buf)
    }
}

/// Every reply with a known status is read, whatever address the proxy bound, and what follows it
/// stays in place.
pub proof fn lemma_proxy_res_accepted(status: Status, bound: AddressView, rest: Seq<u8>)
    requires
        bound.carried(),
    ensures
        ProxyRes::parse(seq![0x05u8, status.code(), 0x00u8] + bound.encoded() + rest) == (
            Ok::<ProxyRes, ParsingError>(ProxyRes(status)),
            3 + bound.encoded().len(),
        ),
{
    lemma_address_roundtrip(bound, rest);
    assert((seq![0x05u8, status.code(), 0x00u8] + bound.encoded() + rest).skip(3)
        =~= bound.encoded() + rest);
}

} // verus!
