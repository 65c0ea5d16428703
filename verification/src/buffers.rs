//! Byte buffers that messages are written to and read from.

use vstd::prelude::*;

use bytes::Buf;
use bytes::Bytes;
use bytes::BytesMut;

verus! {

/// The growable buffer of the `bytes` crate.
#[verifier::external_type_specification]
#[verifier::external_body]
pub struct ExBytesMut(bytes::BytesMut);

/// The shared immutable buffer of the `bytes` crate.
#[verifier::external_type_specification]
#[verifier::external_body]
pub struct ExBytes(bytes::Bytes);

/// The bytes that a growable buffer holds.
pub uninterp spec fn buffer_contents(b: BytesMut) -> Seq<u8>;

/// The capacity that a growable buffer was asked to have when it was made, less the bytes that
/// have been dropped from its front since.
pub uninterp spec fn buffer_reserved(b: BytesMut) -> nat;

/// The bytes that a shared buffer still holds.
pub uninterp spec fn shared_contents(b: Bytes) -> Seq<u8>;

/// `BytesMut` dereferences to the slice of the bytes that it holds.
#[verifier::external_body]
pub(crate) fn buffer_slice(b: &BytesMut) -> (r: &[u8])
    ensures
        r@ == buffer_contents(*b),
{
    &b[..]
}

/// `BytesMut::advance` drops bytes from the front, and their place with them. It panics beyond
/// the end, so `requires` keeps the count within the contents.
#[verifier::external_body]
pub(crate) fn buffer_advance(b: &mut BytesMut, count: usize)
    requires
        count <= buffer_contents(*old(b)).len(),
    ensures
        buffer_contents(*final(b)) == buffer_contents(*old(b)).skip(count as int),
        buffer_reserved(*final(b)) == if count <= buffer_reserved(*old(b)) {
            (buffer_reserved(*old(b)) - count) as nat
        } else {
            0
        },
{
    b.advance(count)
}

/// `BytesMut::put_slice` appends the bytes, growing the buffer as needed and never shrinking it.
/// An allocation holds at most `isize::MAX` bytes, beyond which the call panics.
#[verifier::external_body]
pub(crate) fn buffer_put_slice(b: &mut BytesMut, src: &[u8])
    requires
        buffer_contents(*old(b)).len() + src@.len() <= isize::MAX,
    ensures
        buffer_contents(*final(b)) == buffer_contents(*old(b)) + src@,
        buffer_reserved(*final(b)) == buffer_reserved(*old(b)),
{
    bytes::BufMut::put_slice(b, src)
}

/// `BytesMut::remaining_mut` is what the longest allocation leaves beside the contents.
#[verifier::external_body]
pub(crate) fn buffer_remaining_mut(b: &BytesMut) -> (r: usize)
    ensures
        r == isize::MAX - buffer_contents(*b).len(),
{
    bytes::BufMut::remaining_mut(b)
}

/// `BytesMut::capacity` is what the allocation holds in all: the contents and the room behind
/// them, never more than `isize::MAX`, and no less than what was reserved. How much more than that
/// the allocation holds depends on the allocator, and is left open.
#[verifier::external_body]
pub(crate) fn buffer_capacity(b: &BytesMut) -> (r: usize)
    ensures
        buffer_contents(*b).len() <= r <= isize::MAX,
        buffer_reserved(*b) <= r,
{
    b.capacity()
}

/// `BytesMut::with_capacity` makes an empty buffer that holds at least as many bytes as asked
/// without another allocation. The request itself must fit an allocation.
#[verifier::external_body]
pub(crate) fn buffer_with_capacity(capacity: usize) -> (r: BytesMut)
    requires
        capacity <= isize::MAX,
    ensures
        buffer_contents(r) == Seq::<u8>::empty(),
        buffer_reserved(r) == capacity,
{
    BytesMut::with_capacity(capacity)
}

/// `Bytes` dereferences to the slice of the bytes that it holds.
#[verifier::external_body]
pub(crate) fn shared_slice(b: &Bytes) -> (r: &[u8])
    ensures
        r@ == shared_contents(*b),
{
    &b[..]
}

/// `Bytes::advance` drops bytes from the front. It panics beyond the end, so `requires` keeps the
/// count within the contents.
#[verifier::external_body]
pub(crate) fn shared_advance(b: &mut Bytes, count: usize)
    requires
        count <= shared_contents(*old(b)).len(),
    ensures
        shared_contents(*final(b)) == shared_contents(*old(b)).skip(count as int),
{
    b.advance(count)
}

/// The room behind the contents that can be filled without another allocation.
pub fn spare_room(b: &BytesMut) -> (r: usize)
    ensures
        buffer_contents(*b).len() + r <= isize::MAX,
        buffer_reserved(*b) <= buffer_contents(*b).len() + r,
{
    let capacity: usize = buffer_capacity(b);
    let filled: usize = buffer_slice(b).len();
    capacity - filled
}

/// The two bytes of a number in network order.
pub open spec fn be16(n: u16) -> Seq<u8> {
    seq![(n / 256) as u8, (n % 256) as u8]
}

/// The number that two bytes write in network order.
pub open spec fn from_be16(hi: u8, lo: u8) -> u16 {
    (hi * 256 + lo) as u16
}

/// Two bytes in network order give back the number that was written.
pub proof fn lemma_be16_roundtrip(n: u16)
    ensures
        be16(n).len() == 2,
        from_be16(be16(n)[0], be16(n)[1]) == n,
{
}

/// In network order the byte that counts for more comes first.
pub proof fn lemma_be16_order(n: u16, hi: u8, lo: u8)
    ensures
        be16(n).len() == 2,
        256 * be16(n)[0] + be16(n)[1] == n,
        from_be16(hi, lo) == 256 * hi + lo,
{
}

/// A place that bytes are appended to.
pub trait Sink: Sized {
    /// What has been written so far.
    spec fn written(&self) -> Seq<u8>;

    /// How many bytes more it takes.
    spec fn room(&self) -> nat;

    /// How many bytes were reserved for it.
    spec fn reserved(&self) -> nat;

    /// How many bytes more it takes.
    fn remaining_mut(&self) -> (r: usize)
        ensures
            r == self.room(),
    ;

    /// Appends bytes.
    fn put_slice(&mut self, src: &[u8])
        requires
            src@.len() <= old(self).room(),
        ensures
            final(self).written() == old(self).written() + src@,
            final(self).room() == old(self).room() - src@.len(),
            final(self).reserved() == old(self).reserved(),
    ;

    /// Appends one byte.
    fn put_u8(&mut self, byte: u8)
        requires
            1 <= old(self).room(),
        ensures
            final(self).written() == old(self).written().push(byte),
            final(self).room() == old(self).room() - 1,
            final(self).reserved() == old(self).reserved(),
    {
        let one: [u8; 1] = [byte];
        let ghost before = self.written();
        self.put_slice(&one);
        assert(self.written() =~= before.push(byte));
    }

    /// Appends a number in network order.
    fn put_u16(&mut self, n: u16)
        requires
            2 <= old(self).room(),
        ensures
            final(self).written() == old(self).written() + be16(n),
            final(self).room() == old(self).room() - 2,
            final(self).reserved() == old(self).reserved(),
    {
        let two: [u8; 2] = [(n / 256) as u8, (n % 256) as u8];
        let ghost before = self.written();
        self.put_slice(&two);
        assert(self.written() =~= before + be16(n));
    }
}

impl Sink for BytesMut {
    open spec fn written(&self) -> Seq<u8> {
        buffer_contents(*self)
    }

    open spec fn room(&self) -> nat {
        (isize::MAX - buffer_contents(*self).len()) as nat
    }

    open spec fn reserved(&self) -> nat {
        buffer_reserved(*self)
    }

    fn remaining_mut(&self) -> (r: usize) {
        buffer_remaining_mut(self)
    }

    fn put_slice(&mut self, src: &[u8]) {
        let _room: usize = buffer_remaining_mut(self);
        buffer_put_slice(self, src);
    }
}

/// A buffer that takes a fixed number of bytes.
#[derive(Debug)]
pub struct FixedBuf {
    bytes: Vec<u8>,
    limit: usize,
}

impl FixedBuf {
    /// The bytes written so far never exceed the limit.
    #[verifier::type_invariant]
    spec fn within_limit(self) -> bool {
        self.bytes@.len() <= self.limit
    }

    /// Makes an empty buffer that takes `limit` bytes.
    pub fn new(limit: usize) -> (r: FixedBuf)
        ensures
            r.written() == Seq::<u8>::empty(),
            r.room() == limit,
            r.reserved() == limit,
    {
        FixedBuf { bytes: Vec::new(), limit }
    }

    /// The bytes written so far.
    pub fn as_slice(&self) -> (r: &[u8])
        ensures
            r@ == self.written(),
    {
        self.bytes.as_slice()
    }

    /// Gives the bytes written.
    pub fn into_vec(self) -> (r: Vec<u8>)
        ensures
            r@ == self.written(),
    {
        self.bytes
    }
}

impl Sink for FixedBuf {
    closed spec fn written(&self) -> Seq<u8> {
        self.bytes@
    }

    closed spec fn room(&self) -> nat {
        (self.limit - self.bytes@.len()) as nat
    }

    closed spec fn reserved(&self) -> nat {
        self.limit as nat
    }

    fn remaining_mut(&self) -> (r: usize) {
        proof {
            use_type_invariant(self);
        }
        self.limit - self.bytes.len()
    }

    fn put_slice(&mut self, src: &[u8]) {
        proof {
            use_type_invariant(&*self);
        }
        let mut bytes: Vec<u8> = Vec::new();
        std::mem::swap(&mut bytes, &mut self.bytes);
        bytes.extend_from_slice(src);
        self.bytes = bytes;
    }
}

} // verus!
