//! The SOCKS protocols: their errors, and how a reply is read from a connection.

use vstd::prelude::*;

use bytes::BytesMut;

use crate::buffers::buffer_advance;
use crate::buffers::buffer_contents;
use crate::buffers::buffer_put_slice;
use crate::buffers::buffer_reserved;
use crate::buffers::buffer_slice;
use crate::buffers::spare_room;
use crate::error::IoError;

pub mod v4;
pub mod v5;

use v4::SocksV4Error;
use v5::SocksV5Error;

verus! {

/// Why a tunnel through a SOCKS proxy could not be made. `C` is the error of the connector below.
#[derive(Debug)]
pub enum SocksError<C> {
    /// The connection to the proxy failed.
    Inner(C),
    /// Reading from or writing to the proxy failed.
    Io(IoError),
    /// The host name has no address that the protocol can carry.
    DnsFailure,
    /// The destination has no host.
    MissingHost,
    /// The destination has no port.
    MissingPort,
    /// A failure of SOCKSv4.
    V4(SocksV4Error),
    /// A failure of SOCKSv5.
    V5(SocksV5Error),
    /// The proxy's reply could not be read.
    Parsing(ParsingError),
    /// The request does not fit its buffer.
    Serialize(SerializeError),
}

/// Why bytes are not a message.
#[derive(Debug, Clone, Copy, PartialEq, Eq, Structural)]
pub enum ParsingError {
    /// More bytes are needed to tell.
    Incomplete,
    /// The buffer is full.
    WouldOverflow,
    /// No message starts with these bytes.
    Other,
}

/// Why a message was not written.
#[derive(Debug, Clone, Copy, PartialEq, Eq, Structural)]
pub enum SerializeError {
    /// The buffer lacks the room.
    WouldOverflow,
}

/// A reply of a proxy.
pub trait Message: Sized {
    /// What the bytes at the start of `b` say, and how many of them are read to find out.
    spec fn parse(b: Seq<u8>) -> (Result<Self, ParsingError>, nat);

    /// Reads a message from the start of `b`, and tells how many bytes that took.
    fn read(b: &[u8]) -> (r: (Result<Self, ParsingError>, usize))
        ensures
            r.0 == Self::parse(b@).0,
            r.1 == Self::parse(b@).1,
            r.1 <= b@.len(),
    ;

    /// What has been decided stays decided, whatever follows: reading depends on the bytes of the
    /// message alone.
    proof fn lemma_stable(b: Seq<u8>, rest: Seq<u8>)
        requires
            Self::parse(b).0 != Err::<Self, ParsingError>(ParsingError::Incomplete),
        ensures
            Self::parse(b + rest) == Self::parse(b),
    ;
}

/// Reads a message from the front of a buffer and drops the bytes that this took.
pub(crate) fn take_message<M: Message>(buf: &mut BytesMut) -> (r: Result<M, ParsingError>)
    ensures
        r == M::parse(buffer_contents(*old(buf))).0,
        buffer_contents(*final(buf)) == buffer_contents(*old(buf)).skip(
            M::parse(buffer_contents(*old(buf))).1 as int,
        ),
{
    let (r, n) = M::read(buffer_slice(buf));
    buffer_advance(buf, n);
    r
}

/// What to do next to get a message.
#[derive(Debug)]
pub enum ReadStep<M> {
    /// The message is there.
    Done(M),
    /// Read from the connection, and report what came with `message_bytes`.
    NeedMore,
    /// The bytes are no message.
    Failed(ParsingError),
}

/// Looks for a message at the front of the bytes received so far. Only a complete message is
/// taken from the buffer.
pub fn next_message<M: Message>(buf: &mut BytesMut) -> (r: ReadStep<M>)
    ensures
        ({
            let (result, n) = M::parse(buffer_contents(*old(buf)));
            match result {
                Ok(m) => r == ReadStep::Done(m) && buffer_contents(*final(buf)) == buffer_contents(
                    *old(buf),
                ).skip(n as int),
                Err(ParsingError::Incomplete) => r == ReadStep::<M>::NeedMore && *final(buf)
                    == *old(buf),
                Err(e) => r == ReadStep::<M>::Failed(e) && *final(buf) == *old(buf),
            }
        }),
{
    let (r, n) = M::read(buffer_slice(buf));
    match r {
        Ok(m) => {
            buffer_advance(buf, n);
            ReadStep::Done(m)
        },
        Err(ParsingError::Incomplete) => ReadStep::NeedMore,
        Err(e) => ReadStep::Failed(e),
    }
}

/// Adds what was read from the connection to the bytes received so far. Reading nothing is the
/// end of the stream: an overflow if the buffer was full, an unexpected end otherwise.
pub fn message_bytes_with<C>(buf: &mut BytesMut, read: &[u8], full: bool) -> (r: Result<
    (),
    SocksError<C>,
>)
    requires
        buffer_contents(*old(buf)).len() + read@.len() <= isize::MAX,
    ensures
        read@.len() > 0 ==> r is Ok,
        read@.len() == 0 && full ==> r == Err::<(), SocksError<C>>(
            SocksError::Parsing(ParsingError::WouldOverflow),
        ),
        read@.len() == 0 && !full ==> (r matches Err(SocksError::Io(e)) && e.is_unexpected_eof()),
        buffer_contents(*final(buf)) == buffer_contents(*old(buf)) + read@,
        buffer_reserved(*final(buf)) == buffer_reserved(*old(buf)),
{
    if read.len() == 0 {
        assert(buffer_contents(*buf) + read@ =~= buffer_contents(*buf));
        if full {
            return Err(SocksError::Parsing(ParsingError::WouldOverflow));
        } else {
            return Err(SocksError::Io(IoError::unexpected_eof()));
        }
    }
    buffer_put_slice(buf, read);
    Ok(())
}

/// Adds what was read from the connection to the bytes received so far. The end of the stream is
/// an overflow only if the bytes fill all that was reserved for the buffer; whether they then fill
/// the allocation too depends on the allocator.
pub fn message_bytes<C>(buf: &mut BytesMut, read: &[u8]) -> (r: Result<(), SocksError<C>>)
    requires
        buffer_contents(*old(buf)).len() + read@.len() <= isize::MAX,
    ensures
        r is Ok <==> read@.len() > 0,
        r matches Err(e) ==> {
            ||| e == SocksError::<C>::Parsing(ParsingError::WouldOverflow) && buffer_reserved(
                *old(buf),
            ) <= buffer_contents(*old(buf)).len()
            ||| e matches SocksError::Io(io) && io.is_unexpected_eof()
        },
        buffer_contents(*final(buf)) == buffer_contents(*old(buf)) + read@,
        buffer_reserved(*final(buf)) == buffer_reserved(*old(buf)),
{
    let full = spare_room(buf) == 0;
    message_bytes_with(buf, read, full)
}

/// A message can be read in any number of pieces: as soon as the bytes received so far decide,
/// they decide what the whole stream says, and they leave what follows the message in place.
pub proof fn lemma_message_in_pieces<M: Message>(received: Seq<u8>, later: Seq<u8>)
    requires
        M::parse(received).0 is Ok,
        M::parse(received).1 <= received.len(),
    ensures
        M::parse(received + later) == M::parse(received),
        (received + later).skip(M::parse(received).1 as int) == received.skip(
            M::parse(received).1 as int,
        ) + later,
{
    M::lemma_stable(received, later);
    assert((received + later).skip(M::parse(received).1 as int) =~= received.skip(
        M::parse(received).1 as int,
    ) + later);
}

impl<C> SocksError<C> {
    /// What the error says, after a common start.
    pub open spec fn detail(self) -> Seq<char> {
        match self {
            SocksError::Inner(_) => "failed to create underlying connection"@,
            SocksError::Io(_) => "io error during SOCKS handshake"@,
            SocksError::DnsFailure => "could not resolve to acceptable address type"@,
            SocksError::MissingHost => "missing destination host"@,
            SocksError::MissingPort => "missing destination port"@,
            SocksError::Parsing(_) => "failed parsing server response"@,
            SocksError::Serialize(_) => "failed serialize request"@,
            SocksError::V4(e) => e.detail(),
            SocksError::V5(e) => e.detail(),
        }
    }

    /// The message of the error.
    pub fn text(&self) -> (r: String)
        ensures
            r@ == "SOCKS error: "@ + self.detail(),
    {
        let mut out = "SOCKS error: ".to_owned();
        out.append(
            match self {
                SocksError::Inner(_) => "failed to create underlying connection",
                SocksError::Io(_) => "io error during SOCKS handshake",
                SocksError::DnsFailure => "could not resolve to acceptable address type",
                SocksError::MissingHost => "missing destination host",
                SocksError::MissingPort => "missing destination port",
                SocksError::Parsing(_) => "failed parsing server response",
                SocksError::Serialize(_) => "failed serialize request",
                SocksError::V4(e) => e.text(),
                SocksError::V5(e) => e.text(),
            },
        );
        out
    }
}

impl<C> vstd::std_specs::convert::FromSpecImpl<ParsingError> for SocksError<C> {
    open spec fn obeys_from_spec() -> bool {
        true
    }

    open spec fn from_spec(err: ParsingError) -> SocksError<C> {
        SocksError::Parsing(err)
    }
}

impl<C> From<ParsingError> for SocksError<C> {
    fn from(err: ParsingError) -> (r: SocksError<C>) {
        SocksError::Parsing(err)
    }
}

impl<C> vstd::std_specs::convert::FromSpecImpl<SerializeError> for SocksError<C> {
    open spec fn obeys_from_spec() -> bool {
        true
    }

    open spec fn from_spec(err: SerializeError) -> SocksError<C> {
        SocksError::Serialize(err)
    }
}

impl<C> From<SerializeError> for SocksError<C> {
    fn from(err: SerializeError) -> (r: SocksError<C>) {
        SocksError::Serialize(err)
    }
}

impl<C> vstd::std_specs::convert::FromSpecImpl<IoError> for SocksError<C> {
    open spec fn obeys_from_spec() -> bool {
        true
    }

    open spec fn from_spec(err: IoError) -> SocksError<C> {
        SocksError::Io(err)
    }
}

impl<C> From<IoError> for SocksError<C> {
    fn from(err: IoError) -> (r: SocksError<C>) {
        SocksError::Io(err)
    }
}

impl<C> vstd::std_specs::convert::FromSpecImpl<SocksV4Error> for SocksError<C> {
    open spec fn obeys_from_spec() -> bool {
        true
    }

    open spec fn from_spec(err: SocksV4Error) -> SocksError<C> {
        SocksError::V4(err)
    }
}

impl<C> From<SocksV4Error> for SocksError<C> {
    fn from(err: SocksV4Error) -> (r: SocksError<C>) {
        SocksError::V4(err)
    }
}

impl<C> vstd::std_specs::convert::FromSpecImpl<SocksV5Error> for SocksError<C> {
    open spec fn obeys_from_spec() -> bool {
        true
    }

    open spec fn from_spec(err: SocksV5Error) -> SocksError<C> {
        SocksError::V5(err)
    }
}

impl<C> From<SocksV5Error> for SocksError<C> {
    fn from(err: SocksV5Error) -> (r: SocksError<C>) {
        SocksError::V5(err)
    }
}

} // verus!
