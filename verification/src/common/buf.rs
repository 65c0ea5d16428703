//! Buffers that tell when they have been read to the end.

use vstd::prelude::*;

use bytes::Bytes;

use crate::buffers::shared_advance;
use crate::buffers::shared_contents;
use crate::buffers::shared_slice;

verus! {

/// The other end of a `NotifyOnEos`: it is to be woken when the buffer has been advanced to the
/// end.
#[derive(Debug)]
pub struct EosSignaler {
    _priv: (),
}

/// A buffer that tells, once, that it has been advanced to the end.
///
/// For the notification to work, the buffer must be advanced often enough to reach its end.
#[derive(Debug)]
pub struct NotifyOnEos<B> {
    inner: B,
    has_already_signaled: bool,
}

impl<B> NotifyOnEos<B> {
    /// Whether the end has been told of.
    pub closed spec fn signaled(&self) -> bool {
        self.has_already_signaled
    }

    /// The buffer.
    pub closed spec fn inner(&self) -> B {
        self.inner
    }

    /// Wraps a buffer.
    pub fn new(inner: B) -> (r: (Self, EosSignaler))
        ensures
            r.0.inner() == inner,
            !r.0.signaled(),
    {
        (NotifyOnEos { inner, has_already_signaled: false }, EosSignaler { _priv: () })
    }

    /// Takes note that the inner buffer was advanced. Tells whether the signaler is to be woken:
    /// the first time that nothing remains.
    pub fn advanced(&mut self, has_remaining: bool) -> (r: bool)
        ensures
            r == (!has_remaining && !old(self).signaled()),
            r == wakes(old(self).signaled(), has_remaining),
            final(self).signaled() == (old(self).signaled() || !has_remaining),
            final(self).signaled() == told_of_end(old(self).signaled(), has_remaining),
            final(self).inner() == old(self).inner(),
    {
        if !has_remaining && !self.has_already_signaled {
            self.has_already_signaled = true;
            true
        } else {
            false
        }
    }
}

impl NotifyOnEos<Bytes> {
    /// How many bytes remain.
    pub fn remaining(&self) -> (r: usize)
        ensures
            r == shared_contents(self.inner()).len(),
    {
        shared_slice(&self.inner).len()
    }

    /// The bytes that remain.
    pub fn chunk(&self) -> (r: &[u8])
        ensures
            r@ == shared_contents(self.inner()),
    {
        shared_slice(&self.inner)
    }

    /// Drops bytes from the front. Tells whether the signaler is to be woken.
    pub fn advance(&mut self, cnt: usize) -> (r: bool)
        requires
            cnt <= shared_contents(old(self).inner()).len(),
        ensures
            shared_contents(final(self).inner()) == shared_contents(old(self).inner()).skip(cnt as int),
            r == (shared_contents(old(self).inner()).len() == cnt && !old(self).signaled()),
            final(self).signaled() == (old(self).signaled() || shared_contents(
                old(self).inner(),
            ).len() == cnt),
    {
        shared_advance(&mut self.inner, cnt);
        let has_remaining = shared_slice(&self.inner).len() > 0;
        self.advanced(has_remaining)
    }
}

/// Whether an advance wakes the signaler, given whether the end was told of and whether bytes
/// remain.
pub open spec fn wakes(signaled: bool, has_remaining: bool) -> bool {
    !has_remaining && !signaled
}

/// Whether the end has been told of after an advance.
pub open spec fn told_of_end(signaled: bool, has_remaining: bool) -> bool {
    signaled || !has_remaining
}

/// What a sequence of advances says, and whether the end has been told of after it. Each entry is
/// whether bytes remained.
pub open spec fn notifications(signaled: bool, remained: Seq<bool>) -> nat
    decreases remained.len(),
{
    if remained.len() == 0 {
        0
    } else {
        (if wakes(signaled, remained[0]) {
            1nat
        } else {
            0nat
        }) + notifications(told_of_end(signaled, remained[0]), remained.skip(1))
    }
}

/// However often a buffer is advanced, its signaler is woken at most once, and it is woken if ever
/// nothing remained.
pub proof fn lemma_notified_once(remained: Seq<bool>)
    ensures
        notifications(false, remained) == if remained.contains(false) {
            1nat
        } else {
            0nat
        },
    decreases remained.len(),
{
    if remained.len() > 0 {
        if !remained[0] {
            assert(remained.contains(false));
            lemma_no_more_notifications(remained.skip(1));
        } else {
            lemma_notified_once(remained.skip(1));
            let rest = remained.skip(1);
            if rest.contains(false) {
                let i = choose|i: int| 0 <= i < rest.len() && rest[i] == false;
                assert(remained[i + 1] == false);
            }
            if remained.contains(false) {
                let i = choose|i: int| 0 <= i < remained.len() && remained[i] == false;
                assert(rest[i - 1] == false);
            }
        }
    }
}

proof fn lemma_no_more_notifications(remained: Seq<bool>)
    ensures
        notifications(true, remained) == 0,
    decreases remained.len(),
{
    if remained.len() > 0 {
        lemma_no_more_notifications(remained.skip(1));
    }
}

} // verus!
