//! Singleton pools
//!
//! A singleton pool ensures that only one active connection is made. It bundles all concurrent
//! calls, so that one service is made for all of them. Every call gets a clone of the service once
//! it is made.
//!
//! While the service is being made, one participant drives that work. If it is cancelled, the work
//! is not cancelled for the others: the baton passes to another participant.

use vstd::prelude::*;

verus! {

/// Names a participant.
#[derive(Debug, Clone, Copy, PartialEq, Eq, Structural)]
pub struct WaiterId(pub usize);

/// The participant that polls the shared future. `W` is what wakes a task.
#[derive(Debug)]
pub struct Driver<W> {
    pub id: WaiterId,
    pub waker: Option<W>,
}

/// A participant that waits for the result. `T` is what the result is sent through.
#[derive(Debug)]
pub struct Waiter<W, T> {
    pub id: WaiterId,
    pub waker: Option<W>,
    pub tx: T,
}

/// The participants in the making of a service, and the future that makes it.
#[derive(Debug)]
pub struct Batch<F, W, T> {
    pub future: Option<F>,
    pub next_id: WaiterId,
    pub driver: Option<Driver<W>>,
    pub waiters: Vec<Waiter<W, T>>,
}

/// How far a singleton has come.
#[derive(Debug)]
pub enum State<F, S, W, T> {
    Empty,
    Making(Batch<F, W, T>),
    Made(S),
}

/// What a participant does when it is polled while the service is being made.
#[derive(Debug, Clone, Copy, PartialEq, Eq, Structural)]
pub enum Turn {
    /// Poll the shared future.
    Drive,
    /// Wait to be woken.
    Wait,
}

impl<F, W, T> Batch<F, W, T> {
    /// The ids of the waiting participants.
    pub open spec fn waiter_ids(self) -> Seq<WaiterId> {
        Seq::new(self.waiters@.len(), |i: int| self.waiters@[i].id)
    }

    /// Whether the participant waits.
    pub open spec fn waits(self, id: WaiterId) -> bool {
        self.waiter_ids().contains(id)
    }

    /// Whether the participant drives.
    pub open spec fn drives(self, id: WaiterId) -> bool {
        self.driver matches Some(d) && d.id == id
    }

    /// Whether the id belongs to a participant.
    pub open spec fn participates(self, id: WaiterId) -> bool {
        self.drives(id) || self.waits(id)
    }

    /// How many participants there are.
    pub open spec fn count(self) -> nat {
        self.waiters@.len() + if self.driver is Some {
            1nat
        } else {
            0nat
        }
    }

    /// Every id was given out, and to one participant only.
    pub open spec fn ids_distinct(self) -> bool {
        &&& self.waiter_ids().no_duplicates()
        &&& forall|i: int|
            0 <= i < self.waiters@.len() ==> (#[trigger] self.waiters@[i]).id.0 < self.next_id.0
        &&& (self.driver matches Some(d) ==> d.id.0 < self.next_id.0 && !self.waits(d.id))
    }

    /// A service is being made: there is a future, one participant drives it, and every id is
    /// given to one participant only.
    pub open spec fn making(self) -> bool {
        self.future is Some && self.driver is Some && self.ids_distinct()
    }

    /// A batch without participants.
    pub fn new(future: F) -> (r: Self)
        ensures
            r.future == Some(future),
            r.next_id == WaiterId(0),
            r.driver is None,
            r.waiters@.len() == 0,
            r.ids_distinct(),
    {
        Batch { future: Some(future), next_id: WaiterId(0), driver: None, waiters: Vec::new() }
    }

    /// Adds the participant that drives.
    pub fn register_driver(&mut self) -> (r: WaiterId)
        requires
            old(self).ids_distinct(),
            old(self).next_id.0 < usize::MAX,
        ensures
            r == old(self).next_id,
            final(self).next_id.0 == old(self).next_id.0 + 1,
            final(self).driver == Some(Driver::<W> { id: r, waker: None }),
            final(self).future == old(self).future,
            final(self).waiters == old(self).waiters,
            final(self).ids_distinct(),
    {
        let id = self.next_id;
        assert(!self.waits(id)) by {
            if self.waits(id) {
                let i = choose|i: int|
                    0 <= i < self.waiter_ids().len() && self.waiter_ids()[i] == id;
                assert(self.waiters@[i].id.0 < self.next_id.0);
            }
        }
        self.next_id = WaiterId(id.0 + 1);
        self.driver = Some(Driver { id, waker: None });
        id
    }

    /// Adds a participant that waits. The result will be sent through `tx`.
    pub fn register_waiter(&mut self, tx: T) -> (r: WaiterId)
        requires
            old(self).ids_distinct(),
            old(self).next_id.0 < usize::MAX,
        ensures
            r == old(self).next_id,
            final(self).next_id.0 == old(self).next_id.0 + 1,
            final(self).driver == old(self).driver,
            final(self).future == old(self).future,
            final(self).waiters@ == old(self).waiters@.push(Waiter { id: r, waker: None, tx }),
            final(self).ids_distinct(),
            !old(self).participates(r),
    {
        let id = self.next_id;
        let ghost before = *self;
        self.next_id = WaiterId(id.0 + 1);
        self.waiters.push(Waiter { id, waker: None, tx });
        proof {
            assert forall|i: int| 0 <= i < before.waiter_ids().len() implies #[trigger] before.waiter_ids()[i]
                != id by {
                assert(before.waiters@[i].id.0 < before.next_id.0);
            }
            assert(self.waiter_ids() =~= before.waiter_ids().push(id));
            if self.driver is Some {
                let d = self.driver->0;
                assert(!self.waits(d.id)) by {
                    assert(!before.waits(d.id));
                    if self.waits(d.id) {
                        let i = choose|i: int|
                            0 <= i < self.waiter_ids().len() && self.waiter_ids()[i] == d.id;
                        if i < before.waiter_ids().len() {
                            assert(before.waiter_ids()[i] == d.id);
                        }
                    }
                }
            }
        }
        id
    }

    /// Where a waiting participant stands.
    fn position(&self, id: WaiterId) -> (r: Option<usize>)
        ensures
            match r {
                Some(i) => i < self.waiters@.len() && self.waiters@[i as int].id == id,
                None => !self.waits(id),
            },
    {
        let mut i: usize = 0;
        while i < self.waiters.len()
            invariant
                i <= self.waiters@.len(),
                forall|j: int| 0 <= j < i ==> (#[trigger] self.waiters@[j]).id != id,
            decreases self.waiters@.len() - i,
        {
            if self.waiters[i].id == id {
                return Some(i);
            }
            i = i + 1;
        }
        assert(!self.waits(id)) by {
            if self.waits(id) {
                let j = choose|j: int|
                    0 <= j < self.waiter_ids().len() && self.waiter_ids()[j] == id;
                assert(self.waiters@[j].id == id);
            }
        }
        None
    }

    /// What removing a participant does. A waiter leaves, and the last one takes its place. The
    /// driver is followed by the last waiter, which is to be woken; without one, the making ends.
    pub open spec fn removed(
        before: Self,
        after: Self,
        id: WaiterId,
        emptied: bool,
        woken: Option<W>,
    ) -> bool {
        &&& after.next_id == before.next_id
        &&& if before.waits(id) {
            &&& !emptied
            &&& woken is None
            &&& after.future == before.future
            &&& after.driver == before.driver
            &&& exists|i: int|
                0 <= i < before.waiters@.len() && (#[trigger] before.waiters@[i]).id == id
                    && after.waiters@ == before.waiters@.update(
                    i,
                    before.waiters@.last(),
                ).drop_last()
        } else if before.drives(id) {
            if before.waiters@.len() > 0 {
                let next = before.waiters@.last();
                &&& !emptied
                &&& woken == next.waker
                &&& after.future == before.future
                &&& after.driver == Some(Driver::<W> { id: next.id, waker: None })
                &&& after.waiters@ == before.waiters@.drop_last()
            } else {
                &&& emptied
                &&& woken is None
                &&& after.future is None
                &&& after.driver is None
                &&& after.waiters@ == before.waiters@
            }
        } else {
            !emptied && woken is None && after == before
        }
    }

    /// Removes a participant. Tells whether it was the last one, and whom to wake.
    pub fn remove(&mut self, id: WaiterId) -> (r: (bool, Option<W>))
        requires
            old(self).making(),
        ensures
            Self::removed(*old(self), *final(self), id, r.0, r.1),
            !r.0 ==> final(self).making(),
            r.0 <==> old(self).drives(id) && old(self).waiters@.len() == 0,
            final(self).count() == old(self).count() - if old(self).participates(id) {
                1int
            } else {
                0int
            },
            forall|other: WaiterId| #[trigger]
                final(self).participates(other) <==> old(self).participates(other) && other != id,
    {
        let ghost before = *self;
        if let Some(pos) = self.position(id) {
            let _left = self.waiters.swap_remove(pos);
            proof {
                assert(before.waiter_ids()[pos as int] == id);
                lemma_swap_remove(before, *self, pos as int);
                assert(before.waits(id));
                assert(before.waiters@[pos as int].id == id);
            }
            return (false, None);
        }
        let driving = match &self.driver {
            Some(driver) => driver.id == id,
            None => false,
        };
        if driving {
            if let Some(waiter) = self.waiters.pop() {
                self.driver = Some(Driver { id: waiter.id, waker: None });
                proof {
                    lemma_promote(before, *self);
                }
                return (false, waiter.waker);
            }
            self.driver = None;
            self.future = None;
            proof {
                assert(self.waiter_ids() =~= Seq::<WaiterId>::empty());
                assert(before.waiter_ids() =~= Seq::<WaiterId>::empty());
            }
            return (true, None);
        }
        (false, None)
    }

    /// What a participant does when it is polled.
    pub fn poll(&self, id: WaiterId) -> (r: Turn)
        ensures
            r == if self.drives(id) {
                Turn::Drive
            } else {
                Turn::Wait
            },
    {
        match &self.driver {
            Some(driver) if driver.id == id => Turn::Drive,
            _ => Turn::Wait,
        }
    }

    /// What wakes a waiting participant, if that is known.
    pub fn waker(&self, id: WaiterId) -> (r: Option<&W>)
        ensures
            match r {
                Some(w) => exists|i: int|
                    0 <= i < self.waiters@.len() && (#[trigger] self.waiters@[i]).id == id
                        && self.waiters@[i].waker == Some(*w),
                None => forall|i: int|
                    0 <= i < self.waiters@.len() && (#[trigger] self.waiters@[i]).id == id
                        && self.ids_distinct() ==> self.waiters@[i].waker is None,
            },
    {
        match self.position(id) {
            Some(pos) => {
                proof {
                    assert forall|i: int|
                        0 <= i < self.waiters@.len() && (#[trigger] self.waiters@[i]).id == id
                            && self.ids_distinct() implies i == pos by {
                        assert(self.waiter_ids()[i] == self.waiter_ids()[pos as int]);
                    }
                }
                self.waiters[pos].waker.as_ref()
            },
            None => {
                proof {
                    assert forall|i: int|
                        0 <= i < self.waiters@.len() && (#[trigger] self.waiters@[i]).id == id
                            && self.ids_distinct() implies self.waiters@[i].waker is None by {
                        assert(self.waiter_ids()[i] == id);
                    }
                }
                None
            },
        }
    }

    /// Keeps what wakes a waiting participant, unless what is kept already does. `will_wake` tells
    /// whether it does.
    pub fn store_waker(&mut self, id: WaiterId, waker: W, will_wake: bool)
        requires
            old(self).making(),
        ensures
            final(self).making(),
            final(self).driver == old(self).driver,
            final(self).future == old(self).future,
            final(self).next_id == old(self).next_id,
            final(self).waiters@.len() == old(self).waiters@.len(),
            forall|i: int|
                0 <= i < old(self).waiters@.len() ==> #[trigger] final(self).waiters@[i] == (if old(
                    self,
                ).waiters@[i].id == id && !(old(self).waiters@[i].waker is Some && will_wake) {
                    Waiter { waker: Some(waker), ..old(self).waiters@[i] }
                } else {
                    old(self).waiters@[i]
                }),
            forall|other: WaiterId| #[trigger]
                final(self).participates(other) <==> old(self).participates(other),
    {
        let ghost before = *self;
        if let Some(pos) = self.position(id) {
            proof {
                assert forall|i: int|
                    0 <= i < before.waiters@.len() && (#[trigger] before.waiters@[i]).id
                        == id implies i == pos by {
                    assert(before.waiter_ids()[i] == before.waiter_ids()[pos as int]);
                }
            }
            if !(self.waiters[pos].waker.is_some() && will_wake) {
                self.waiters[pos].waker = Some(waker);
            }
        } else {
            proof {
                assert forall|i: int| 0 <= i < before.waiters@.len() implies (
                #[trigger] before.waiters@[i]).id != id by {
                    assert(before.waiter_ids()[i] == before.waiters@[i].id);
                }
            }
        }
        assert(self.waiter_ids() =~= before.waiter_ids());
    }

    /// Keeps what wakes the driver, unless what is kept already does. `will_wake` tells whether it
    /// does.
    pub fn store_driver_waker(&mut self, waker: W, will_wake: bool)
        requires
            old(self).making(),
        ensures
            final(self).making(),
            final(self).future == old(self).future,
            final(self).next_id == old(self).next_id,
            final(self).waiters == old(self).waiters,
            final(self).driver matches Some(d) && d.id == old(self).driver->0.id && d.waker == (if old(
                self,
            ).driver->0.waker is Some && will_wake {
                old(self).driver->0.waker
            } else {
                Some(waker)
            }),
            forall|other: WaiterId| #[trigger]
                final(self).participates(other) <==> old(self).participates(other),
    {
        let ghost before = *self;
        if let Some(driver) = self.driver.take() {
            let kept = if driver.waker.is_some() && will_wake {
                driver.waker
            } else {
                Some(waker)
            };
            self.driver = Some(Driver { id: driver.id, waker: kept });
        }
        assert(self.waiter_ids() =~= before.waiter_ids());
    }

    /// Ends the making with a result: every waiting participant is sent a clone of it.
    pub fn send_result<R: Clone>(&mut self, result: &R) -> (r: Vec<(T, R)>)
        ensures
            final(self).waiters@.len() == 0,
            final(self).driver == old(self).driver,
            final(self).future == old(self).future,
            final(self).next_id == old(self).next_id,
            r@.len() == old(self).waiters@.len(),
            forall|i: int|
                0 <= i < r@.len() ==> (#[trigger] r@[i]).0 == old(self).waiters@[i].tx && cloned(
                    *result,
                    r@[i].1,
                ),
    {
        let mut waiters: Vec<Waiter<W, T>> = Vec::new();
        std::mem::swap(&mut waiters, &mut self.waiters);
        let ghost all = waiters@;
        let mut sent: Vec<(T, R)> = Vec::new();
        let mut back: Vec<(T, R)> = Vec::new();
        while waiters.len() > 0
            invariant
                waiters@.len() <= all.len(),
                waiters@ == all.take(waiters@.len() as int),
                back@.len() == all.len() - waiters@.len(),
                forall|i: int|
                    0 <= i < back@.len() ==> (#[trigger] back@[i]).0 == all[all.len() - 1 - i].tx
                        && cloned(*result, back@[i].1),
            decreases waiters@.len(),
        {
            let ghost n = waiters@.len();
            let waiter = waiters.pop().unwrap();
            assert(waiter == all[n - 1]);
            assert(waiters@ =~= all.take(n - 1));
            let copy = result.clone();
            back.push((waiter.tx, copy));
        }
        let ghost reversed = back@;
        while back.len() > 0
            invariant
                back@.len() <= reversed.len(),
                reversed.len() == all.len(),
                back@ == reversed.take(back@.len() as int),
                sent@.len() == reversed.len() - back@.len(),
                forall|i: int|
                    0 <= i < sent@.len() ==> #[trigger] sent@[i] == reversed[reversed.len() - 1 - i],
            decreases back@.len(),
        {
            let ghost n = back@.len();
            let pair = back.pop().unwrap();
            assert(back@ =~= reversed.take(n - 1));
            sent.push(pair);
        }
        sent
    }
}

proof fn lemma_swap_remove<F, W, T>(before: Batch<F, W, T>, after: Batch<F, W, T>, pos: int)
    requires
        before.making(),
        0 <= pos < before.waiters@.len(),
        after.future == before.future,
        after.driver == before.driver,
        after.next_id == before.next_id,
        after.waiters@ == before.waiters@.update(pos, before.waiters@.last()).drop_last(),
    ensures
        after.making(),
        forall|other: WaiterId| #[trigger]
            after.participates(other) <==> before.participates(other)
                && other != before.waiters@[pos].id,
{
    let old_ids = before.waiter_ids();
    let new_ids = after.waiter_ids();
    let n = old_ids.len();
    let id = old_ids[pos];
    assert(forall|i: int| 0 <= i < new_ids.len() ==> #[trigger] new_ids[i] == if i == pos {
        old_ids[n - 1]
    } else {
        old_ids[i]
    });
    assert forall|i: int, j: int|
        0 <= i < new_ids.len() && 0 <= j < new_ids.len() && i != j implies new_ids[i] != new_ids[j] by {
        let a = if i == pos {
            n - 1
        } else {
            i
        };
        let b = if j == pos {
            n - 1
        } else {
            j
        };
        assert(old_ids[a] != old_ids[b]);
    }
    assert forall|other: WaiterId| #[trigger] new_ids.contains(other) <==> old_ids.contains(other)
        && other != id by {
        if new_ids.contains(other) {
            let i = choose|i: int| 0 <= i < new_ids.len() && new_ids[i] == other;
            let a = if i == pos {
                n - 1
            } else {
                i
            };
            assert(old_ids[a] == other);
        }
        if old_ids.contains(other) && other != id {
            let i = choose|i: int| 0 <= i < old_ids.len() && old_ids[i] == other;
            if i == n - 1 {
                assert(new_ids[pos] == other);
            } else {
                assert(new_ids[i] == other);
            }
        }
    }
    assert forall|i: int| 0 <= i < after.waiters@.len() implies (
    #[trigger] after.waiters@[i]).id.0 < after.next_id.0 by {
        let a = if i == pos {
            n - 1
        } else {
            i
        };
        assert(after.waiters@[i] == before.waiters@[a]);
    }
    assert(before.waits(id));
    assert forall|other: WaiterId| #[trigger]
        after.participates(other) <==> before.participates(other) && other != id by {
        assert(after.waits(other) <==> before.waits(other) && other != id);
    }
}

proof fn lemma_promote<F, W, T>(before: Batch<F, W, T>, after: Batch<F, W, T>)
    requires
        before.making(),
        before.waiters@.len() > 0,
        after.future == before.future,
        after.next_id == before.next_id,
        after.waiters@ == before.waiters@.drop_last(),
        after.driver == Some(Driver::<W> { id: before.waiters@.last().id, waker: None }),
    ensures
        after.making(),
        forall|other: WaiterId| #[trigger]
            after.participates(other) <==> before.participates(other)
                && other != before.driver->0.id,
{
    let old_ids = before.waiter_ids();
    let new_ids = after.waiter_ids();
    let last = before.waiters@.last().id;
    assert(old_ids =~= new_ids.push(last));
    assert(!new_ids.contains(last)) by {
        if new_ids.contains(last) {
            let i = choose|i: int| 0 <= i < new_ids.len() && new_ids[i] == last;
            assert(old_ids[i] == old_ids[old_ids.len() - 1]);
        }
    }
    assert forall|i: int| 0 <= i < after.waiters@.len() implies (
    #[trigger] after.waiters@[i]).id.0 < after.next_id.0 by {
        assert(after.waiters@[i] == before.waiters@[i]);
    }
    assert(new_ids.no_duplicates()) by {
        assert forall|i: int, j: int|
            0 <= i < new_ids.len() && 0 <= j < new_ids.len() && i != j implies new_ids[i]
            != new_ids[j] by {
            assert(old_ids[i] != old_ids[j]);
        }
    }
    assert forall|other: WaiterId| #[trigger]
        after.participates(other) <==> before.participates(other) && other != before.driver->0.id by {
        if new_ids.contains(other) {
            let i = choose|i: int| 0 <= i < new_ids.len() && new_ids[i] == other;
            assert(old_ids[i] == other);
            assert(before.waits(other));
        }
        if old_ids.contains(other) {
            let i = choose|i: int| 0 <= i < old_ids.len() && old_ids[i] == other;
            if i < new_ids.len() {
                assert(new_ids[i] == other);
            }
        }
        assert(old_ids[old_ids.len() - 1] == last);
    }
}

/// What a call on a singleton needs.
#[derive(Debug)]
pub enum CallStep<S> {
    /// Start to make the service, and report the future with `begin`.
    Make,
    /// Wait for the service that is being made, with `join`.
    Join,
    /// The service is there.
    Made(S),
}

/// What a participant has received of the result.
#[derive(Debug)]
pub enum Received<S, E> {
    /// It has nothing to receive from, or nothing has come.
    Nothing,
    /// The result.
    Value(Result<S, E>),
    /// The result will not come this way.
    Cancelled,
}

/// A call on a singleton that has not been answered.
#[derive(Debug)]
pub enum SingletonFuture<S> {
    /// The service is being made. `receiving` tells whether the result may be sent.
    Participating { id: WaiterId, receiving: bool },
    /// The service was there.
    Made { svc: Option<S> },
}

/// A service that a singleton gave out.
#[derive(Debug)]
pub struct Singled<S> {
    pub inner: S,
}

/// Why a singleton made no service.
#[derive(Debug)]
pub struct SingletonError<E>(pub E);

impl<E> SingletonError<E> {
    /// The error of the maker.
    pub fn new(error: E) -> (r: Self)
        ensures
            r.0 == error,
    {
        SingletonError(error)
    }

    /// What the error says.
    pub fn text(&self) -> (r: &'static str)
        ensures
            r@ == "singleton connection error"@,
    {
        "singleton connection error"
    }
}

impl<S> Singled<S> {
    /// A service that was given out.
    pub fn new(inner: S) -> (r: Self)
        ensures
            r.inner == inner,
    {
        Singled { inner }
    }
}

/// How a call goes on when it is polled.
#[derive(Debug)]
pub enum FutureStep<S, E> {
    /// It is answered.
    Ready(Result<Singled<S>, SingletonError<E>>),
    /// Poll the shared future, and report with `driver_polled`.
    Drive,
    /// Keep what wakes the task with `park`, and wait.
    Park,
}

/// How a poll of the driver goes on.
#[derive(Debug)]
pub enum Driven<S, E, T> {
    /// Wait to be woken.
    Pending,
    /// The service is made: send the clones, and answer the call.
    Made(Vec<(T, S)>, Singled<S>),
    /// The making failed: send the clones of the error, and answer the call.
    Failed(Vec<(T, E)>, SingletonError<E>),
}

/// A singleton pool over an inner service.
///
/// The singleton wraps an inner service maker, bundling all calls to ensure
/// only one service is created. Once made, it returns clones of the made
/// service.
#[derive(Debug)]
pub struct Singleton<M, F, S, W, T> {
    pub mk_svc: M,
    pub state: State<F, S, W, T>,
}

impl<M, F, S, W, T> Singleton<M, F, S, W, T> {
    /// Create a new singleton pool over an inner make service.
    pub fn new(mk_svc: M) -> (r: Self)
        ensures
            r.mk_svc == mk_svc,
            r.state is Empty,
    {
        Singleton { mk_svc, state: State::new() }
    }

    /// Retains the inner made service if `keep` says so.
    pub fn retain(&mut self, keep: bool)
        requires
            old(self).state.wf(),
        ensures
            final(self).mk_svc == old(self).mk_svc,
            final(self).state.wf(),
            final(self).state == (if old(self).state is Made && !keep {
                State::Empty
            } else {
                old(self).state
            }),
    {
        self.state.retain(keep);
    }

    /// Returns whether this singleton pool is empty.
    ///
    /// If this pool has created a shared instance, or is currently in the
    /// process of creating one, this returns false.
    pub fn is_empty(&self) -> (r: bool)
        ensures
            r == (self.state is Empty),
    {
        self.state.is_empty()
    }

    /// Whether the maker has to be ready for the next call. Only an empty singleton calls it.
    pub fn needs_maker(&self) -> (r: bool)
        ensures
            r == (self.state is Empty),
    {
        self.state.is_empty()
    }
}

impl<F, S, W, T> State<F, S, W, T> {
    /// While a service is made, one participant drives that, and every id is given to one
    /// participant only.
    pub open spec fn wf(self) -> bool {
        self matches State::Making(batch) ==> batch.making()
    }

    /// A singleton that has made nothing.
    pub fn new() -> (r: Self)
        ensures
            r is Empty,
    {
        State::Empty
    }

    /// Returns whether this singleton pool is empty.
    ///
    /// If this pool has created a shared instance, or is currently in the
    /// process of creating one, this returns false.
    pub fn is_empty(&self) -> (r: bool)
        ensures
            r == (self is Empty),
    {
        match self {
            State::Empty => true,
            _ => false,
        }
    }

    /// Retains the inner made service if `keep` says so.
    pub fn retain(&mut self, keep: bool)
        requires
            old(self).wf(),
        ensures
            final(self).wf(),
            *final(self) == (if *old(self) is Made && !keep {
                State::Empty
            } else {
                *old(self)
            }),
    {
        match self {
            State::Made(_) => {
                if !keep {
                    *self = State::Empty;
                }
            },
            _ => {},
        }
    }

    /// Forgets the service, because one that was given out has failed.
    pub fn clear(&mut self)
        ensures
            *final(self) is Empty,
    {
        *self = State::Empty;
    }

    /// Takes note of how a service that was given out was polled for readiness. An error clears
    /// the singleton. The outcome is handed back.
    pub fn ready_polled<E>(&mut self, polled: Option<Result<(), E>>) -> (r: Option<Result<(), E>>)
        ensures
            r == polled,
            polled matches Some(Err(_)) ==> *final(self) is Empty,
            !(polled matches Some(Err(_))) ==> *final(self) == *old(self),
    {
        if let Some(Err(_)) = &polled {
            self.clear();
        }
        polled
    }

    /// What a call needs. Only an empty singleton makes a service.
    pub fn call(&self) -> (r: CallStep<S>) where S: Clone
        ensures
            match *self {
                State::Empty => r is Make,
                State::Making(_) => r is Join,
                State::Made(svc) => r matches CallStep::Made(copy) && cloned(svc, copy),
            },
    {
        match self {
            State::Empty => CallStep::Make,
            State::Making(_) => CallStep::Join,
            State::Made(svc) => CallStep::Made(svc.clone()),
        }
    }

    /// Starts the making of a service. The caller drives it.
    pub fn begin(&mut self, future: F) -> (r: SingletonFuture<S>)
        requires
            *old(self) is Empty,
        ensures
            final(self).wf(),
            *final(self) matches State::Making(batch) && {
                &&& batch.future == Some(future)
                &&& batch.drives(WaiterId(0))
                &&& batch.waiters@.len() == 0
                &&& batch.next_id == WaiterId(1)
            },
            r == (SingletonFuture::<S>::Participating { id: WaiterId(0), receiving: false }),
    {
        let mut batch = Batch::new(future);
        let id = batch.register_driver();
        *self = State::Making(batch);
        SingletonFuture::Participating { id, receiving: false }
    }

    /// Joins the making of a service. The result will be sent through `tx`.
    pub fn join(&mut self, tx: T) -> (r: SingletonFuture<S>)
        requires
            old(self).wf(),
            *old(self) matches State::Making(batch) && batch.next_id.0 < usize::MAX,
        ensures
            final(self).wf(),
            *old(self) matches State::Making(before) && *final(self) matches State::Making(after) && {
                &&& r == (SingletonFuture::<S>::Participating {
                    id: before.next_id,
                    receiving: true,
                })
                &&& !before.participates(before.next_id)
                &&& after.waiters@ == before.waiters@.push(
                    Waiter { id: before.next_id, waker: None, tx },
                )
                &&& after.next_id.0 == before.next_id.0 + 1
                &&& after.driver == before.driver
                &&& after.future == before.future
            },
    {
        let mut taken = State::Empty;
        std::mem::swap(&mut taken, self);
        match taken {
            State::Making(mut batch) => {
                let id = batch.register_waiter(tx);
                *self = State::Making(batch);
                SingletonFuture::Participating { id, receiving: true }
            },
            other => {
                assert(false);
                *self = other;
                SingletonFuture::Made { svc: None }
            },
        }
    }

    /// Keeps what wakes a waiting participant. `will_wake` tells whether what is kept already does.
    pub fn park(&mut self, id: WaiterId, waker: W, will_wake: bool)
        requires
            old(self).wf(),
            *old(self) is Making,
        ensures
            final(self).wf(),
            *old(self) matches State::Making(before) && *final(self) matches State::Making(after) && {
                &&& after.next_id == before.next_id
                &&& after.driver == before.driver
                &&& after.future == before.future
                &&& after.waiters@.len() == before.waiters@.len()
                &&& forall|i: int|
                    0 <= i < before.waiters@.len() ==> #[trigger] after.waiters@[i] == (
                    if before.waiters@[i].id == id && !(before.waiters@[i].waker is Some
                        && will_wake) {
                        Waiter { waker: Some(waker), ..before.waiters@[i] }
                    } else {
                        before.waiters@[i]
                    })
            },
    {
        let mut taken = State::Empty;
        std::mem::swap(&mut taken, self);
        match taken {
            State::Making(mut batch) => {
                batch.store_waker(id, waker, will_wake);
                *self = State::Making(batch);
            },
            other => {
                *self = other;
            },
        }
    }

    /// Goes on after the driver polled the shared future. The result ends the making: it goes to
    /// every participant, a service stays for later calls, and an error leaves the singleton empty.
    pub fn driver_polled<E>(&mut self, polled: Option<Result<S, E>>, waker: W, will_wake: bool) -> (r:
        Driven<S, E, T>) where S: Clone, E: Clone
        requires
            old(self).wf(),
            *old(self) is Making,
        ensures
            final(self).wf(),
            *old(self) matches State::Making(before) && match polled {
                None => {
                    &&& r is Pending
                    &&& *final(self) matches State::Making(after)
                    &&& after.next_id == before.next_id
                    &&& after.waiters == before.waiters
                    &&& after.future == before.future
                    &&& after.driver matches Some(d)
                    &&& d.id == before.driver->0.id
                    &&& d.waker == (if before.driver->0.waker is Some && will_wake {
                        before.driver->0.waker
                    } else {
                        Some(waker)
                    })
                },
                Some(Ok(svc)) => r matches Driven::Made(sent, own) && {
                    &&& own.inner == svc
                    &&& *final(self) matches State::Made(kept)
                    &&& cloned(svc, kept)
                    &&& sent@.len() == before.waiters@.len()
                    &&& forall|i: int|
                        0 <= i < sent@.len() ==> (#[trigger] sent@[i]).0 == before.waiters@[i].tx
                            && cloned(svc, sent@[i].1)
                },
                Some(Err(e)) => r matches Driven::Failed(sent, own) && {
                    &&& own.0 == e
                    &&& *final(self) is Empty
                    &&& sent@.len() == before.waiters@.len()
                    &&& forall|i: int|
                        0 <= i < sent@.len() ==> (#[trigger] sent@[i]).0 == before.waiters@[i].tx
                            && cloned(e, sent@[i].1)
                },
            },
    {
        let mut taken = State::Empty;
        std::mem::swap(&mut taken, self);
        match taken {
            State::Making(mut batch) => match polled {
                None => {
                    batch.store_driver_waker(waker, will_wake);
                    *self = State::Making(batch);
                    Driven::Pending
                },
                Some(Ok(svc)) => {
                    let sent = batch.send_result(&svc);
                    *self = State::Made(svc.clone());
                    Driven::Made(sent, Singled::new(svc))
                },
                Some(Err(e)) => {
                    let sent = batch.send_result(&e);
                    Driven::Failed(sent, SingletonError::new(e))
                },
            },
            other => {
                *self = other;
                Driven::Pending
            },
        }
    }

    /// Takes note that a participant has gone. With the last one the making ends; a driver is
    /// followed by another participant, which is to be woken.
    pub fn cancel(&mut self, id: WaiterId) -> (r: Option<W>)
        requires
            old(self).wf(),
        ensures
            final(self).wf(),
            match *old(self) {
                State::Making(before) => if before.drives(id) && before.waiters@.len() == 0 {
                    *final(self) is Empty && r is None
                } else {
                    &&& *final(self) matches State::Making(after)
                    &&& Batch::removed(before, after, id, false, r)
                    &&& forall|other: WaiterId| #[trigger]
                        after.participates(other) <==> before.participates(other) && other != id
                },
                _ => *final(self) == *old(self) && r is None,
            },
    {
        let mut taken = State::Empty;
        std::mem::swap(&mut taken, self);
        match taken {
            State::Making(mut batch) => {
                let (emptied, woken) = batch.remove(id);
                if !emptied {
                    *self = State::Making(batch);
                }
                woken
            },
            other => {
                *self = other;
                None
            },
        }
    }
}

impl<S> SingletonFuture<S> {
    /// Goes on with a call that is polled, given what it has received. A participant in the making
    /// of a service is never polled once the singleton is empty again.
    pub fn poll<F, W, T, E>(&mut self, state: &State<F, S, W, T>, received: Received<S, E>) -> (r:
        FutureStep<S, E>) where S: Clone
        requires
            match *old(self) {
                SingletonFuture::Participating { .. } => received is Value || !(*state is Empty),
                SingletonFuture::Made { svc } => svc is Some,
            },
        ensures
            match *old(self) {
                SingletonFuture::Made { svc } => {
                    &&& r matches FutureStep::Ready(Ok(singled))
                    &&& Some(singled.inner) == svc
                    &&& *final(self) == (SingletonFuture::<S>::Made { svc: None })
                },
                SingletonFuture::Participating { id, receiving } => {
                    &&& *final(self) == (SingletonFuture::<S>::Participating {
                        id,
                        receiving: receiving && !(received is Cancelled),
                    })
                    &&& match received {
                        Received::Value(Ok(svc)) => r matches FutureStep::Ready(Ok(singled))
                            && singled.inner == svc,
                        Received::Value(Err(e)) => r matches FutureStep::Ready(Err(error))
                            && error.0 == e,
                        _ => match *state {
                            State::Making(batch) => if batch.drives(id) {
                                r is Drive
                            } else {
                                r is Park
                            },
                            State::Made(svc) => r matches FutureStep::Ready(Ok(singled)) && cloned(
                                svc,
                                singled.inner,
                            ),
                            State::Empty => true,
                        },
                    }
                },
            },
    {
        match self {
            SingletonFuture::Made { svc } => {
                let svc = svc.take().unwrap();
                FutureStep::Ready(Ok(Singled::new(svc)))
            },
            SingletonFuture::Participating { id, receiving } => {
                match received {
                    Received::Value(Ok(svc)) => {
                        return FutureStep::Ready(Ok(Singled::new(svc)));
                    },
                    Received::Value(Err(e)) => {
                        return FutureStep::Ready(Err(SingletonError::new(e)));
                    },
                    Received::Cancelled => {
                        *receiving = false;
                    },
                    Received::Nothing => {},
                }
                match state {
                    State::Making(batch) => match batch.poll(*id) {
                        Turn::Drive => FutureStep::Drive,
                        Turn::Wait => FutureStep::Park,
                    },
                    State::Made(svc) => FutureStep::Ready(Ok(Singled::new(svc.clone()))),
                    State::Empty => FutureStep::Park,
                }
            },
        }
    }
}

/// Cancelling one participant leaves every other one in place: it still takes part, and someone
/// still drives.
pub proof fn lemma_cancellation_is_local<F, W, T>(
    before: Batch<F, W, T>,
    after: Batch<F, W, T>,
    id: WaiterId,
    other: WaiterId,
    woken: Option<W>,
)
    requires
        before.making(),
        Batch::removed(before, after, id, false, woken),
        before.participates(other),
        other != id,
    ensures
        after.making(),
        after.participates(other),
{
    if before.waits(id) {
        let i = choose|i: int|
            0 <= i < before.waiters@.len() && (#[trigger] before.waiters@[i]).id == id
                && after.waiters@ == before.waiters@.update(i, before.waiters@.last()).drop_last();
        lemma_swap_remove(before, after, i);
        assert(after.participates(other) <==> before.participates(other) && other != id);
    } else if before.drives(id) {
        lemma_promote(before, after);
        assert(after.participates(other) <==> before.participates(other) && other
            != before.driver->0.id);
    }
}

/// A driver that goes is followed by a participant that waited, which is woken to drive; the future
/// stays the same. Where none waited, the making ends. A participant that waits goes without
/// anything else happening.
pub proof fn lemma_handed_over<F, W, T>(
    before: Batch<F, W, T>,
    after: Batch<F, W, T>,
    id: WaiterId,
    emptied: bool,
    woken: Option<W>,
)
    requires
        before.making(),
        Batch::removed(before, after, id, emptied, woken),
    ensures
        emptied <==> before.drives(id) && before.waiters@.len() == 0,
        emptied ==> after.future is None,
        !emptied ==> after.future == before.future,
        before.drives(id) && !emptied ==> exists|i: int|
            0 <= i < before.waiters@.len() && after.drives((#[trigger] before.waiters@[i]).id)
                && woken == before.waiters@[i].waker,
        !before.drives(id) ==> after.driver == before.driver && woken is None,
        before.participates(id) && !emptied ==> after.waiters@.len() == before.waiters@.len() - 1,
{
    if before.drives(id) {
        assert(!before.waits(id)) by {
            assert(before.driver->0.id == id);
        }
        if before.waiters@.len() > 0 {
            let last = before.waiters@[before.waiters@.len() - 1];
            assert(after.drives(last.id));
        }
    }
}

} // verus!
