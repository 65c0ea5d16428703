//! Reading one source to its end and then another.

use vstd::prelude::*;

verus! {

/// Reads from the first source to its end, and then from the second. Writes go to the second.
#[derive(Debug)]
pub struct PrependAsyncRead<T1, T2> {
    pub first: T1,
    pub second: T2,
    pub state: State,
}

/// The source that is read.
#[derive(Debug, Clone, Copy, PartialEq, Eq, Structural)]
pub enum State {
    First,
    Second,
}

/// How a read from the first source ended.
#[derive(Debug)]
pub enum FirstRead<E> {
    Pending,
    /// It filled this many bytes.
    Filled(usize),
    Failed(E),
}

/// How a read goes on.
#[derive(Debug)]
pub enum ReadStep<E> {
    /// Read from the first source, and report with `first_read`.
    ReadFirst,
    /// Read from the second source; what that gives is the answer.
    ReadSecond,
    /// The answer is what the first source gave.
    Pending,
    Done,
    Failed(E),
}

impl<T1, T2> PrependAsyncRead<T1, T2> {
    /// Reads `first` before `second`.
    pub fn new(first: T1, second: T2) -> (r: Self)
        ensures
            r.first == first,
            r.second == second,
            r.state == State::First,
    {
        PrependAsyncRead { first, second, state: State::First }
    }

    /// Where a read begins.
    pub fn poll_read<E>(&self) -> (r: ReadStep<E>)
        ensures
            r == (match self.state {
                State::First => ReadStep::<E>::ReadFirst,
                State::Second => ReadStep::<E>::ReadSecond,
            }),
            r is ReadFirst <==> self.state is First,
    {
        match self.state {
            State::First => ReadStep::ReadFirst,
            State::Second => ReadStep::ReadSecond,
        }
    }

    /// Goes on after a read from the first source. One that fills nothing is its end, and the
    /// second source is read from then on.
    pub fn first_read<E>(&mut self, read: FirstRead<E>) -> (r: ReadStep<E>)
        requires
            old(self).state == State::First,
        ensures
            final(self).first == old(self).first,
            final(self).second == old(self).second,
            final(self).state == (if read == FirstRead::<E>::Filled(0) {
                State::Second
            } else {
                State::First
            }),
            read matches FirstRead::Filled(n) ==> final(self).state == source_after(
                old(self).state,
                n as nat,
            ),
            match read {
                FirstRead::Pending => r == ReadStep::<E>::Pending,
                FirstRead::Filled(n) => if n == 0 {
                    r == ReadStep::<E>::ReadSecond
                } else {
                    r == ReadStep::<E>::Done
                },
                FirstRead::Failed(e) => r == ReadStep::<E>::Failed(e),
            },
    {
        match read {
            FirstRead::Pending => ReadStep::Pending,
            FirstRead::Filled(n) => {
                if n == 0 {
                    self.state = State::Second;
                    ReadStep::ReadSecond
                } else {
                    ReadStep::Done
                }
            },
            FirstRead::Failed(e) => ReadStep::Failed(e),
        }
    }
}

/// The source that is read after the current one has filled some bytes.
pub open spec fn source_after(state: State, filled: nat) -> State {
    match state {
        State::First => if filled == 0 {
            State::Second
        } else {
            State::First
        },
        State::Second => State::Second,
    }
}

/// The source that is read after some reads, each with the number of bytes that it filled.
pub open spec fn source_after_all(filled: Seq<nat>) -> State
    decreases filled.len(),
{
    if filled.len() == 0 {
        State::First
    } else {
        source_after(source_after_all(filled.drop_last()), filled.last())
    }
}

/// The first source is read until a read of it fills nothing, and the second one from then on.
pub proof fn lemma_sources_in_order(filled: Seq<nat>)
    ensures
        source_after_all(filled) == State::Second <==> exists|i: int|
            0 <= i < filled.len() && #[trigger] filled[i] == 0,
    decreases filled.len(),
{
    if filled.len() > 0 {
        let before = filled.drop_last();
        lemma_sources_in_order(before);
        if source_after_all(before) == State::Second {
            let i = choose|i: int| 0 <= i < before.len() && #[trigger] before[i] == 0;
            assert(filled[i] == 0);
        } else if filled.last() == 0 {
            assert(filled[filled.len() - 1] == 0);
        }
        if exists|i: int| 0 <= i < filled.len() && #[trigger] filled[i] == 0 {
            let i = choose|i: int| 0 <= i < filled.len() && #[trigger] filled[i] == 0;
            if i < before.len() {
                assert(before[i] == 0);
            }
        }
    }
}

} // verus!
