//! Client side `Expect: 100-Continue` support
//!
//! This module contains the `ExpectContinueBody` request body wrapper
//! and the `wrap` convenience helper for building it.

use vstd::prelude::*;

use http::HeaderMap;
use vstd::utf8::encode_utf8;

use crate::header::few_names;
use crate::header::header_or_insert;
use crate::header::headers_of;
use crate::header::Field;
use crate::header::FieldValue;
use crate::header::FieldValueView;

verus! {

/// ExpectContinueBody is a request body wrapper that withholds
/// its data until the client is cleared to send.
///
/// The body is cleared to send when a `100-continue` is received, when none can be received any
/// more, or when the optional timeout elapses.
///
/// HTTP/1.1 only. Use the `wrap` helper for building this conveniently.
#[derive(Debug)]
pub struct ExpectContinueBody<B> {
    pub inner: B,
    pub has_sleep: bool,
    pub released: bool,
}

/// How a poll for a frame goes on.
#[derive(Debug, Clone, Copy, PartialEq, Eq, Structural)]
pub enum FrameStep {
    /// Poll the signal, and report with `signal_polled`.
    PollSignal,
    /// Poll the timeout, and report with `sleep_polled`.
    PollSleep,
    /// The body is withheld.
    Pending,
    /// Poll the inner body; what that gives is the answer.
    PollInner,
}

impl<B> ExpectContinueBody<B> {
    /// Withholds a body.
    pub fn new(inner: B, has_sleep: bool) -> (r: Self)
        ensures
            r == (ExpectContinueBody { inner, has_sleep, released: false }),
    {
        ExpectContinueBody { inner, has_sleep, released: false }
    }

    /// Where a poll for a frame begins.
    pub fn poll_frame(&self) -> (r: FrameStep)
        ensures
            r == at_first(self.released),
            r == if self.released {
                FrameStep::PollInner
            } else {
                FrameStep::PollSignal
            },
    {
        if self.released {
            FrameStep::PollInner
        } else {
            FrameStep::PollSignal
        }
    }

    /// Goes on after the signal was polled. It is ready when it was sent, and when its sender is
    /// gone.
    pub fn signal_polled(&mut self, is_ready: bool) -> (r: FrameStep)
        requires
            !old(self).released,
        ensures
            *final(self) == (ExpectContinueBody { released: is_ready, ..*old(self) }),
            r == after_signal(old(self).has_sleep, is_ready),
            r == if is_ready {
                FrameStep::PollInner
            } else if old(self).has_sleep {
                FrameStep::PollSleep
            } else {
                FrameStep::Pending
            },
    {
        if is_ready {
            self.released = true;
            FrameStep::PollInner
        } else if self.has_sleep {
            FrameStep::PollSleep
        } else {
            FrameStep::Pending
        }
    }

    /// Goes on after the timeout was polled.
    pub fn sleep_polled(&mut self, is_ready: bool) -> (r: FrameStep)
        requires
            !old(self).released,
            old(self).has_sleep,
        ensures
            *final(self) == (ExpectContinueBody { released: is_ready, ..*old(self) }),
            r == after_sleep(is_ready),
            r == if is_ready {
                FrameStep::PollInner
            } else {
                FrameStep::Pending
            },
    {
        if is_ready {
            self.released = true;
            FrameStep::PollInner
        } else {
            FrameStep::Pending
        }
    }
}

/// What watches for the informational response that releases a body.
#[derive(Debug)]
pub struct ContinueHook {
    pub has_sender: bool,
}

impl ContinueHook {
    /// Goes on with an informational response. Tells whether the signal is to be sent: on the
    /// first response with the status 100.
    pub fn on_informational(&mut self, status: u16) -> (r: bool)
        ensures
            r == (status == 100 && old(self).has_sender),
            r == signals(old(self).has_sender, status),
            final(self).has_sender == (old(self).has_sender && status != 100),
            final(self).has_sender == (old(self).has_sender && !r),
    {
        if status == 100 && self.has_sender {
            self.has_sender = false;
            true
        } else {
            false
        }
    }
}

/// Where a poll for a frame begins.
pub open spec fn at_first(released: bool) -> FrameStep {
    if released {
        FrameStep::PollInner
    } else {
        FrameStep::PollSignal
    }
}

/// How a poll for a frame goes on after the signal was polled.
pub open spec fn after_signal(has_sleep: bool, is_ready: bool) -> FrameStep {
    if is_ready {
        FrameStep::PollInner
    } else if has_sleep {
        FrameStep::PollSleep
    } else {
        FrameStep::Pending
    }
}

/// How a poll for a frame goes on after the timeout was polled.
pub open spec fn after_sleep(is_ready: bool) -> FrameStep {
    if is_ready {
        FrameStep::PollInner
    } else {
        FrameStep::Pending
    }
}

/// How a poll for a frame ends, given what the signal and the timeout say if they are polled.
pub open spec fn frame_end(has_sleep: bool, released: bool, signal: bool, sleep: bool) -> FrameStep {
    match at_first(released) {
        FrameStep::PollSignal => match after_signal(has_sleep, signal) {
            FrameStep::PollSleep => after_sleep(sleep),
            end => end,
        },
        end => end,
    }
}

/// A poll reaches the inner body exactly where the body is released, or the signal is ready, or
/// there is a timeout that is ready; otherwise the body is withheld.
pub proof fn lemma_frame_end(has_sleep: bool, released: bool, signal: bool, sleep: bool)
    ensures
        frame_end(has_sleep, released, signal, sleep) == FrameStep::PollInner <==> released || signal
            || (has_sleep && sleep),
        frame_end(has_sleep, released, signal, sleep) == FrameStep::Pending <==> !released && !signal
            && !(has_sleep && sleep),
{
}

/// Whether an informational response sends the signal.
pub open spec fn signals(has_sender: bool, status: u16) -> bool {
    has_sender && status == 100
}

/// How often the signal is sent over some informational responses.
pub open spec fn signals_sent(has_sender: bool, statuses: Seq<u16>) -> nat
    decreases statuses.len(),
{
    if statuses.len() == 0 {
        0
    } else {
        let now = signals(has_sender, statuses[0]);
        (if now {
            1nat
        } else {
            0nat
        }) + signals_sent(has_sender && !now, statuses.skip(1))
    }
}

/// The signal is sent once if a response with the status 100 comes, and never otherwise.
pub proof fn lemma_signal_sent_once(has_sender: bool, statuses: Seq<u16>)
    ensures
        signals_sent(has_sender, statuses) == if has_sender && statuses.contains(100u16) {
            1nat
        } else {
            0nat
        },
    decreases statuses.len(),
{
    if statuses.len() > 0 {
        let rest = statuses.skip(1);
        lemma_signal_sent_once(has_sender && !signals(has_sender, statuses[0]), rest);
        if rest.contains(100u16) {
            let i = choose|i: int| 0 <= i < rest.len() && rest[i] == 100u16;
            assert(statuses[i + 1] == 100u16);
        }
        if statuses.contains(100u16) && statuses[0] != 100u16 {
            let i = choose|i: int| 0 <= i < statuses.len() && statuses[i] == 100u16;
            assert(rest[i - 1] == 100u16);
        }
        if statuses[0] == 100u16 {
            assert(statuses.contains(statuses[0]));
        }
    }
}

/// Headers with `Expect: 100-continue`, if there was no such field.
pub open spec fn with_expect(headers: Map<Seq<char>, Seq<FieldValueView>>) -> Map<
    Seq<char>,
    Seq<FieldValueView>,
> {
    if headers.contains_key(Field::Expect.name()) {
        headers
    } else {
        headers.insert(
            Field::Expect.name(),
            seq![FieldValueView { bytes: encode_utf8("100-continue"@), sensitive: false }],
        )
    }
}

/// wrap returns a request whose body is withheld until 100/timeout
///
/// It adds `Expect: 100-continue` header to the request if absent.
/// Wraps the body in `ExpectContinueBody`.
/// Gives the hook that releases the body on a 100.
pub fn wrap<B>(headers: &mut HeaderMap<http::HeaderValue>, body: B, has_sleep: bool) -> (r: (
    ExpectContinueBody<B>,
    ContinueHook,
))
    requires
        few_names(headers_of(*old(headers)).dom().insert(Field::Expect.name())),
    ensures
        headers_of(*final(headers)) == with_expect(headers_of(*old(headers))),
        r.0 == (ExpectContinueBody { inner: body, has_sleep, released: false }),
        r.1.has_sender,
{
    proof {
        reveal_strlit("100-continue");
        vstd::utf8::is_ascii_chars_encode_utf8("100-continue"@);
    }
    let value = FieldValue::from_str("100-continue").unwrap();
    assert(value@ =~= (FieldValueView { bytes: encode_utf8("100-continue"@), sensitive: false }));
    header_or_insert(headers, Field::Expect, &value);
    (ExpectContinueBody::new(body, has_sleep), ContinueHook { has_sender: true })
}

/// Whether a body is released after polls at which the signal and the timeout were ready or not.
pub open spec fn released_after(has_sleep: bool, polls: Seq<(bool, bool)>) -> bool
    decreases polls.len(),
{
    if polls.len() == 0 {
        false
    } else {
        frame_end(
            has_sleep,
            released_after(has_sleep, polls.drop_last()),
            polls.last().0,
            polls.last().1,
        ) == FrameStep::PollInner
    }
}

/// A body is withheld exactly until the first poll at which the signal or its timeout is ready,
/// and it is not withheld again.
pub proof fn lemma_withheld_until_cleared(has_sleep: bool, polls: Seq<(bool, bool)>)
    ensures
        released_after(has_sleep, polls) <==> exists|i: int|
            0 <= i < polls.len() && ((#[trigger] polls[i]).0 || has_sleep && polls[i].1),
        forall|more: (bool, bool)|
            released_after(has_sleep, polls) ==> #[trigger] released_after(
                has_sleep,
                polls.push(more),
            ),
    decreases polls.len(),
{
    assert forall|more: (bool, bool)| released_after(has_sleep, polls) implies #[trigger] released_after(
        has_sleep,
        polls.push(more),
    ) by {
        assert(polls.push(more).drop_last() =~= polls);
    }
    if polls.len() > 0 {
        let before = polls.drop_last();
        lemma_withheld_until_cleared(has_sleep, before);
        if released_after(has_sleep, before) {
            let i = choose|i: int|
                0 <= i < before.len() && ((#[trigger] before[i]).0 || has_sleep && before[i].1);
            assert(polls[i] == before[i]);
        }
        if released_after(has_sleep, polls) && !released_after(has_sleep, before) {
            let last = polls[polls.len() - 1];
            assert(last.0 || has_sleep && last.1);
        }
        if exists|i: int|
            0 <= i < polls.len() && ((#[trigger] polls[i]).0 || has_sleep && polls[i].1) {
            let i = choose|i: int|
                0 <= i < polls.len() && ((#[trigger] polls[i]).0 || has_sleep && polls[i].1);
            if i < polls.len() - 1 {
                assert(before[i] == polls[i]);
            }
        }
    }
}

/// The request expects `100-continue` unless it had an `Expect` header, which then stays, and all
/// other headers stay as they were.
pub proof fn lemma_expect_added(headers: Map<Seq<char>, Seq<FieldValueView>>, name: Seq<char>)
    ensures
        headers.contains_key("expect"@) ==> with_expect(headers) == headers,
        !headers.contains_key("expect"@) ==> with_expect(headers)["expect"@].len() == 1
            && with_expect(headers)["expect"@][0].bytes == encode_utf8("100-continue"@),
        name != "expect"@ ==> (with_expect(headers).contains_key(name) <==> headers.contains_key(
            name,
        )),
        name != "expect"@ && headers.contains_key(name) ==> with_expect(headers)[name]
            == headers[name],
{
}

} // verus!
