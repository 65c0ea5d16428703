//! Reading again what was read ahead.

use vstd::prelude::*;

use bytes::Bytes;

use crate::buffers::shared_advance;
use crate::buffers::shared_contents;
use crate::buffers::shared_slice;

verus! {

/// Combine a buffer with an IO, rewinding reads to use the buffer.
#[derive(Debug)]
pub struct Rewind<T> {
    pub pre: Option<Bytes>,
    pub inner: T,
}

/// Where a read is answered from.
#[derive(Debug)]
pub enum RewindRead {
    /// From the buffer, with these bytes.
    Buffered(Vec<u8>),
    /// From the inner IO.
    Inner,
}

impl<T> Rewind<T> {
    /// The bytes that are read again first.
    pub open spec fn prefix(self) -> Seq<u8> {
        match self.pre {
            Some(b) => shared_contents(b),
            None => Seq::empty(),
        }
    }

    /// Puts bytes that were read ahead before an IO.
    pub fn new_buffered(io: T, buf: Bytes) -> (r: Self)
        ensures
            r.prefix() == shared_contents(buf),
            r.inner == io,
    {
        Rewind { pre: Some(buf), inner: io }
    }

    /// Reads up to `room` bytes from the buffer as long as it has some, and from then on from the
    /// inner IO.
    pub fn poll_read(&mut self, room: usize) -> (r: RewindRead)
        ensures
            final(self).inner == old(self).inner,
            final(self).pre is Some ==> final(self).prefix().len() > 0,
            match r {
                RewindRead::Buffered(bytes) => {
                    &&& old(self).prefix().len() > 0
                    &&& bytes@.len() == vstd::math::min(
                        old(self).prefix().len() as int,
                        room as int,
                    )
                    &&& bytes@ + final(self).prefix() == old(self).prefix()
                },
                RewindRead::Inner => old(self).prefix().len() == 0 && final(self).pre is None,
            },
    {
        if let Some(mut prefix) = self.pre.take() {
            let len: usize = shared_slice(&prefix).len();
            if len > 0 {
                let copy_len: usize = if len < room {
                    len
                } else {
                    room
                };
                let mut bytes: Vec<u8> = Vec::new();
                let ghost all = shared_contents(prefix);
                bytes.extend_from_slice(&shared_slice(&prefix)[0..copy_len]);
                shared_advance(&mut prefix, copy_len);
                assert(bytes@ + shared_contents(prefix) =~= all);
                if copy_len < len {
                    self.pre = Some(prefix);
                } else {
                    assert(shared_contents(prefix) =~= Seq::<u8>::empty());
                }
                return RewindRead::Buffered(bytes);
            }
        }
        RewindRead::Inner
    }
}

/// The prefix that is left, and the bytes given so far, after reads with the given rooms.
pub open spec fn reads(prefix: Seq<u8>, rooms: Seq<nat>) -> (Seq<u8>, Seq<u8>)
    decreases rooms.len(),
{
    if rooms.len() == 0 || prefix.len() == 0 {
        (prefix, Seq::empty())
    } else {
        let n = vstd::math::min(prefix.len() as int, rooms[0] as int);
        let (left, given) = reads(prefix.skip(n), rooms.skip(1));
        (left, prefix.take(n) + given)
    }
}

/// However reads are sized, they give the buffered bytes in order, none lost and none twice.
pub proof fn lemma_reads_in_order(prefix: Seq<u8>, rooms: Seq<nat>)
    ensures
        ({
            let (left, given) = reads(prefix, rooms);
            given + left == prefix
        }),
    decreases rooms.len(),
{
    if rooms.len() == 0 || prefix.len() == 0 {
        assert(Seq::<u8>::empty() + prefix =~= prefix);
    } else {
        let n = vstd::math::min(prefix.len() as int, rooms[0] as int);
        lemma_reads_in_order(prefix.skip(n), rooms.skip(1));
        let (left, given) = reads(prefix.skip(n), rooms.skip(1));
        assert((prefix.take(n) + given) + left =~= prefix.take(n) + (given + left));
        assert(prefix.take(n) + prefix.skip(n) =~= prefix);
    }
}

} // verus!
