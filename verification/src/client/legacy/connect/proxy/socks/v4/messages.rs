//! Messages of SOCKSv4 and SOCKSv4a.

use vstd::prelude::*;

use bytes::BytesMut;
use vstd::utf8::encode_utf8;

use super::super::take_message;
use super::super::Message;
use super::super::ParsingError;
use super::super::SerializeError;
use crate::buffers::be16;
use crate::buffers::lemma_be16_order;
use crate::buffers::buffer_contents;
use crate::buffers::Sink;
use crate::net::SocketAddrV4;

verus! {

/// A request to connect to an address.
///
/// +-----+-----+----+----+----+----+----+----+-------------+------+------------+------+
/// |  VN |  CD | DSTPORT |        DSTIP      |    USERID   | NULL |   DOMAIN   | NULL |
/// +-----+-----+----+----+----+----+----+----+-------------+------+------------+------+
/// |  1  |  1  |    2    |         4         |   Variable  |  1   |  Variable  |   1  |
/// +-----+-----+----+----+----+----+----+----+-------------+------+------------+------+
///                                                                ^^^^^^^^^^^^^^^^^^^^^
///                                                   optional: only do if IP is 0.0.0.X
#[derive(Debug, PartialEq)]
pub struct Request<'a>(pub &'a Address);

/// The proxy's answer to a request.
///
/// +-----+-----+----+----+----+----+----+----+
/// |  VN |  CD | DSTPORT |       DSTIP       |
/// +-----+-----+----+----+----+----+----+----+
/// |  1  |  1  |    2    |         4         |
/// +-----+-----+----+----+----+----+----+----+
///             ^^^^^^^^^^^^^^^^^^^^^^^^^^^^^^^
///              ignore: only for SOCKSv4 BIND
#[derive(Debug, PartialEq)]
pub struct Response(pub Status);

/// A destination: an address, or a name that the proxy resolves.
#[derive(Debug, PartialEq)]
pub enum Address {
    Socket(SocketAddrV4),
    Domain(String, u16),
}

/// What the proxy says of a request.
#[derive(Debug, Clone, Copy, PartialEq, Eq, Structural)]
pub enum Status {
    Success,
    Failed,
    IdentFailure,
    IdentMismatch,
}

impl Status {
    /// The code of the status on the wire.
    pub open spec fn code(self) -> u8 {
        match self {
            Status::Success => 90,
            Status::Failed => 91,
            Status::IdentFailure => 92,
            Status::IdentMismatch => 93,
        }
    }

    /// The status with the given code.
    pub open spec fn of_code(byte: u8) -> Result<Status, ParsingError> {
        if byte == 90 {
            Ok(Status::Success)
        } else if byte == 91 {
            Ok(Status::Failed)
        } else if byte == 92 {
            Ok(Status::IdentFailure)
        } else if byte == 93 {
            Ok(Status::IdentMismatch)
        } else {
            Err(ParsingError::Other)
        }
    }

    /// The status with the given code.
    pub fn try_from(byte: u8) -> (r: Result<Status, ParsingError>)
        ensures
            r == Status::of_code(byte),
            r matches Ok(s) ==> s.code() == byte,
            r is Err ==> forall|s: Status| s.code() != byte,
    {
        match byte {
            90 => Ok(Status::Success),
            91 => Ok(Status::Failed),
            92 => Ok(Status::IdentFailure),
            93 => Ok(Status::IdentMismatch),
            _ => Err(ParsingError::Other),
        }
    }

    /// What the status says.
    pub open spec fn detail(self) -> Seq<char> {
        match self {
            Status::Success => "success"@,
            Status::Failed => "server failed to execute command"@,
            Status::IdentFailure => "server ident service failed"@,
            Status::IdentMismatch => "server ident service did not recognise client identifier"@,
        }
    }

    /// What the status says.
    pub fn text(&self) -> (r: &'static str)
        ensures
            r@ == self.detail(),
    {
        match self {
            Status::Success => "success",
            Status::Failed => "server failed to execute command",
            Status::IdentFailure => "server ident service failed",
            Status::IdentMismatch => "server ident service did not recognise client identifier",
        }
    }
}

/// The request for an address on the wire, with an empty user.
pub open spec fn socket_request(ip: Seq<u8>, port: u16) -> Seq<u8> {
    seq![4u8, 1u8] + be16(port) + ip + seq![0u8, 0u8]
}

/// The request for a name on the wire. The name travels behind an address that cannot exist.
pub open spec fn domain_request(domain: Seq<char>, port: u16) -> Seq<u8> {
    socket_request(seq![0u8, 0u8, 0u8, 0xffu8], port) + encode_utf8(domain) + seq![0u8]
}

/// The requests on the wire: version and command, the port with the greater byte first, four octets,
/// two zeros. A name follows, with a zero at its end, behind octets of which only the last is not
/// zero.
pub proof fn lemma_requests_layout(ip: Seq<u8>, port: u16, domain: Seq<char>)
    requires
        ip.len() == 4,
    ensures
        ({
            let b = socket_request(ip, port);
            &&& b.len() == 10 && b[0] == 4 && b[1] == 1 && 256 * b[2] + b[3] == port
            &&& b.subrange(4, 8) == ip
            &&& b[8] == 0 && b[9] == 0
        }),
        ({
            let b = domain_request(domain, port);
            let n = b.len() as int;
            &&& n == 11 + encode_utf8(domain).len() && b[0] == 4 && b[1] == 1
            &&& 256 * b[2] + b[3] == port
            &&& b[4] == 0 && b[5] == 0 && b[6] == 0 && b[7] == 255 && b[8] == 0 && b[9] == 0
            &&& b.subrange(10, n - 1) == encode_utf8(domain)
            &&& b[n - 1] == 0
        }),
{
    lemma_be16_order(port, 0, 0);
    assert(socket_request(ip, port).subrange(4, 8) =~= ip);
    let b = domain_request(domain, port);
    assert(b.subrange(10, b.len() - 1) =~= encode_utf8(domain));
}

/// The statuses are numbered from ninety, which is success, on. A reply has eight bytes, a zero
/// first and the status second.
pub proof fn lemma_replies_layout(b: Seq<u8>, status: Status)
    ensures
        Status::of_code(status.code()) == Ok::<Status, ParsingError>(status),
        90 <= status.code() <= 93,
        status is Success <==> status.code() == 90,
        status is Failed <==> status.code() == 91,
        status is IdentFailure <==> status.code() == 92,
        Response::parse(b).0 == Ok::<Response, ParsingError>(Response(status)) <==> b.len() >= 8
            && b[0] == 0 && b[1] == status.code(),
        Response::parse(b).0 == Err::<Response, ParsingError>(ParsingError::Incomplete) <==> b.len()
            < 8,
        Response::parse(b).0 is Ok ==> Response::parse(b).1 == 8,
{
}

impl<'a> Request<'a> {
    /// The request on the wire.
    pub open spec fn encoded(self) -> Seq<u8> {
        match *self.0 {
            Address::Socket(socket) => socket_request(socket.ip@, socket.port),
            Address::Domain(domain, port) => domain_request(domain@, port),
        }
    }

    /// Appends the request if there is room for all of it.
    pub fn write_to_buf<B: Sink>(&self, buf: &mut B) -> (r: Result<usize, SerializeError>)
        ensures
            match r {
                Ok(n) => {
                    &&& self.encoded().len() <= old(buf).room()
                    &&& n == self.encoded().len()
                    &&& final(buf).written() == old(buf).written() + self.encoded()
                    &&& final(buf).room() == old(buf).room() - n
                },
                Err(_) => {
                    &&& self.encoded().len() > old(buf).room()
                    &&& *final(buf) == *old(buf)
                },
            },
    {
        let room: usize = buf.remaining_mut();
        let ghost start = buf.written();
        match self.0 {
            Address::Socket(socket) => {
                if room < 10 {
                    return Err(SerializeError::WouldOverflow);
                }
                buf.put_u8(0x04);
                buf.put_u8(0x01);
                buf.put_u16(socket.port);
                buf.put_slice(&socket.ip.octets);
                buf.put_u8(0x00);
                buf.put_u8(0x00);
                assert(buf.written() =~= start + self.encoded());
                Ok(10)
            },
            Address::Domain(domain, port) => {
                let name = domain.as_str().as_bytes();
                if room < 11 || room - 11 < name.len() {
                    return Err(SerializeError::WouldOverflow);
                }
                buf.put_u8(0x04);
                buf.put_u8(0x01);
                buf.put_u16(*port);
                let nowhere: [u8; 4] = [0x00, 0x00, 0x00, 0xff];
                buf.put_slice(&nowhere);
                buf.put_u8(0x00);
                buf.put_u8(0x00);
                buf.put_slice(name);
                buf.put_u8(0x00);
                assert(buf.written() =~= start + self.encoded());
                Ok(11 + name.len())
            },
        }
    }
}

impl Message for Response {
    open spec fn parse(b: Seq<u8>) -> (Result<Self, ParsingError>, nat) {
        if b.len() < 8 {
            (Err(ParsingError::Incomplete), 0)
        } else if b[0] != 0 {
            (Err(ParsingError::Other), 1)
        } else {
            match Status::of_code(b[1]) {
                Ok(status) => (Ok(Response(status)), 8),
                Err(e) => (Err(e), 2),
            }
        }
    }

    fn read(b: &[u8]) -> (r: (Result<Self, ParsingError>, usize)) {
        if b.len() < 8 {
            return (Err(ParsingError::Incomplete), 0);
        }
        if b[0] != 0x00 {
            return (Err(ParsingError::Other), 1);
        }
        match Status::try_from(b[1]) {
            Ok(status) => (Ok(Response(status)), 8),
            Err(e) => (Err(e), 2),
        }
    }

    proof fn lemma_stable(b: Seq<u8>, rest: Seq<u8>) {
    }
}

impl Response {
    /// Reads a response from the front of a buffer and drops what was read.
    pub fn try_from(buf: &mut BytesMut) -> (r: Result<Response, ParsingError>)
        ensures
            r == Response::parse(buffer_contents(*old(buf))).0,
            buffer_contents(*final(buf)) == buffer_contents(*old(buf)).skip(
                Response::parse(buffer_contents(*old(buf))).1 as int,
            ),
    {
        take_message(buf)
    }
}

/// Every reply with a known status is read, whatever port and address it carries, and it takes
/// eight bytes.
pub proof fn lemma_response_accepted(status: Status, port: u16, ip: Seq<u8>, rest: Seq<u8>)
    requires
        ip.len() == 4,
    ensures
        Response::parse(seq![0u8, status.code()] + be16(port) + ip + rest) == (
            Ok::<Response, ParsingError>(Response(status)),
            8nat,
        ),
{
}

} // verus!
