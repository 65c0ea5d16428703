//! Which version of HTTP a client speaks.

use vstd::prelude::*;

use vstd::utf8::encode_utf8;
use vstd::utf8::is_ascii_chars;
use vstd::utf8::is_ascii_chars_encode_utf8;

use crate::text::same_bytes;

verus! {

/// A version of HTTP.
#[derive(Debug, Clone, Copy, PartialEq, Eq, Structural)]
pub enum Protocol {
    H1,
    H2,
}

/// The bytes that an HTTP/2 connection starts with: `PRI * HTTP/2.0`, two line ends, `SM` and two
/// line ends.
pub open spec fn h2_preface() -> Seq<u8> {
    seq![
        0x50u8, 0x52u8, 0x49u8, 0x20u8, 0x2au8, 0x20u8, 0x48u8, 0x54u8, 0x54u8, 0x50u8, 0x2fu8,
        0x32u8, 0x2eu8, 0x30u8, 0x0du8, 0x0au8, 0x0du8, 0x0au8, 0x53u8, 0x4du8, 0x0du8, 0x0au8,
        0x0du8, 0x0au8,
    ]
}

/// The version that a connection speaks, if the bytes that it starts with tell: the first that
/// differs from the preface means HTTP/1, and the whole preface HTTP/2.
pub open spec fn protocol_of(b: Seq<u8>) -> Option<Protocol> {
    let n = vstd::math::min(b.len() as int, 24);
    if b.take(n) != h2_preface().take(n) {
        Some(Protocol::H1)
    } else if b.len() >= 24 {
        Some(Protocol::H2)
    } else {
        None
    }
}

/// The preface in words, and what it decides: a byte that differs from it means HTTP/1, all of its
/// bytes mean HTTP/2, and fewer of them leave the version open.
pub proof fn lemma_preface_decides(b: Seq<u8>)
    ensures
        ({
            let preface = encode_utf8("PRI * HTTP/2.0\r\n\r\nSM\r\n\r\n"@);
            let differs = exists|i: int|
                0 <= i < b.len() && i < preface.len() && b[i] != #[trigger] preface[i];
            protocol_of(b) == if differs {
                Some(Protocol::H1)
            } else if b.len() < preface.len() {
                None
            } else {
                Some(Protocol::H2)
            }
        }),
{
    let text = "PRI * HTTP/2.0\r\n\r\nSM\r\n\r\n"@;
    let preface = encode_utf8(text);
    reveal_strlit("PRI * HTTP/2.0\r\n\r\nSM\r\n\r\n");
    assert(is_ascii_chars(text));
    is_ascii_chars_encode_utf8(text);
    assert(preface =~= h2_preface());
    let n = vstd::math::min(b.len() as int, 24);
    if b.take(n) != preface.take(n) {
        assert(!(b.take(n) =~= preface.take(n)));
        let i = choose|i: int| 0 <= i < n && b.take(n)[i] != preface.take(n)[i];
        assert(b[i] != preface[i]);
    } else {
        assert forall|i: int| 0 <= i < b.len() && i < preface.len() implies b[i]
            == #[trigger] preface[i] by {
            assert(b.take(n)[i] == preface.take(n)[i]);
        }
    }
}

/// Bytes of a connection that were read to find out its version.
#[derive(Debug)]
pub struct Detection {
    buf: Vec<u8>,
}

impl Detection {
    /// The bytes read so far.
    pub closed spec fn bytes(&self) -> Seq<u8> {
        self.buf@
    }

    /// Nothing has been read.
    pub fn new() -> (r: Detection)
        ensures
            r.bytes() == Seq::<u8>::empty(),
    {
        Detection { buf: Vec::new() }
    }

    /// Goes on with bytes that were read. Gives the version once that is known; until then more is
    /// to be read.
    pub fn received(&mut self, read: &[u8]) -> (r: Option<Protocol>)
        ensures
            final(self).bytes() == old(self).bytes() + read@,
            r == protocol_of(old(self).bytes() + read@),
    {
        let ghost before = self.buf@;
        self.buf.extend_from_slice(read);
        assert(self.buf@ =~= before + read@);
        let preface: [u8; 24] = [
            0x50, 0x52, 0x49, 0x20, 0x2a, 0x20, 0x48, 0x54, 0x54, 0x50, 0x2f, 0x32, 0x2e, 0x30,
            0x0d, 0x0a, 0x0d, 0x0a, 0x53, 0x4d, 0x0d, 0x0a, 0x0d, 0x0a,
        ];
        assert(preface@ =~= h2_preface());
        let len: usize = if self.buf.len() < 24 {
            self.buf.len()
        } else {
            24
        };
        let whole: &[u8] = &preface;
        let head: &[u8] = &self.buf.as_slice()[0..len];
        let expected: &[u8] = &whole[0..len];
        assert(head@ =~= self.buf@.take(len as int));
        assert(expected@ =~= h2_preface().take(len as int));
        if !same_bytes(head, expected) {
            return Some(Protocol::H1);
        }
        if self.buf.len() < 24 {
            None
        } else {
            Some(Protocol::H2)
        }
    }

    /// The bytes that were read, which the connection starts with.
    pub fn into_bytes(self) -> (r: Vec<u8>)
        ensures
            r@ == self.bytes(),
    {
        self.buf
    }
}

/// Once the version is known, more bytes do not change it: it does not matter how the bytes are
/// split over reads.
pub proof fn lemma_protocol_stable(b: Seq<u8>, more: Seq<u8>)
    requires
        protocol_of(b) is Some,
    ensures
        protocol_of(b + more) == protocol_of(b),
{
    let n = vstd::math::min(b.len() as int, 24);
    let w = b + more;
    let m = vstd::math::min(w.len() as int, 24);
    assert(w.take(m).take(n) =~= b.take(n));
    assert(h2_preface().take(m).take(n) =~= h2_preface().take(n));
    if b.len() >= 24 {
        assert(w.take(24) =~= b.take(24));
    }
}

/// A connection is HTTP/2 exactly when it starts with the whole preface.
pub proof fn lemma_h2_needs_preface(b: Seq<u8>)
    ensures
        protocol_of(b) == Some(Protocol::H2) <==> b.len() >= 24 && b.take(24) == h2_preface(),
{
    assert(h2_preface().take(24) =~= h2_preface());
}

} // verus!
