//! Utility to gracefully shutdown a server.
//!
//! A shutdown waits for every watched future and every watcher. The watched futures learn of the
//! shutdown by a second count, which it brings to zero.

use vstd::prelude::*;

use slab::Slab;

verus! {

/// The slab of the `slab` crate: values under keys that it gives out.
#[verifier::external_type_specification]
#[verifier::external_body]
#[verifier::reject_recursive_types(T)]
pub struct ExSlab<T>(slab::Slab<T>);

/// The values that a slab holds, by key.
pub uninterp spec fn slab_contents(s: Slab<Option<u64>>) -> Map<usize, Option<u64>>;

/// `Slab::new` holds nothing.
#[verifier::external_body]
fn slab_new() -> (r: Slab<Option<u64>>)
    ensures
        (slab_contents(r) == Map::<usize, Option<u64>>::empty()),
{
    Slab::new()
}

/// `Slab::insert` puts a value under a key that held none, and gives the key. A slab holds fewer
/// values than there are keys: memory is exhausted long before.
#[verifier::external_body]
fn slab_insert(s: &mut Slab<Option<u64>>, value: Option<u64>) -> (r: usize)
    ensures
        !slab_contents(*old(s)).contains_key(r),
        slab_contents(*final(s)) == slab_contents(*old(s)).insert(r, value),
{
    s.insert(value)
}

/// `Slab::get_mut` gives the place of a value. A key that holds none has no place, so `requires`
/// leaves it out.
#[verifier::external_body]
fn slab_get_mut(s: &mut Slab<Option<u64>>, key: usize) -> (r: &mut Option<u64>)
    requires
        slab_contents(*old(s)).contains_key(key),
    ensures
        *r == slab_contents(*old(s))[key],
        slab_contents(*final(s)) == slab_contents(*old(s)).insert(key, *final(r)),
{
    s.get_mut(key).expect("key is held")
}

/// `Slab::remove` takes a value out. It panics on a key that holds none, so `requires` leaves it
/// out.
#[verifier::external_body]
fn slab_remove(s: &mut Slab<Option<u64>>, key: usize) -> (r: Option<u64>)
    requires
        slab_contents(*old(s)).contains_key(key),
    ensures
        r == slab_contents(*old(s))[key],
        slab_contents(*final(s)) == slab_contents(*old(s)).remove(key),
{
    s.remove(key)
}

/// `Slab::iter` visits every value once, in the order of the keys. Here it gives the keys.
#[verifier::external_body]
fn slab_keys(s: &Slab<Option<u64>>) -> (r: Vec<usize>)
    ensures
        r@.to_set() == slab_contents(*s).dom(),
        forall|i: int, j: int| 0 <= i < j < r@.len() ==> r@[i] < r@[j],
{
    s.iter().map(|(key, _)| key).collect()
}

/// A count of those that a shutdown waits for, and what wakes those that wait for it to become
/// zero. Wakers are named by numbers.
#[derive(Debug)]
pub struct GracefulState {
    counter: usize,
    waker_list: Slab<Option<u64>>,
}

/// The wakers under the given keys, in order.
pub open spec fn wakers_at(list: Map<usize, Option<u64>>, keys: Seq<usize>) -> Seq<u64>
    decreases keys.len(),
{
    if keys.len() == 0 {
        Seq::empty()
    } else {
        let before = wakers_at(list, keys.drop_last());
        match list[keys.last()] {
            Some(w) => before.push(w),
            None => before,
        }
    }
}

/// A list of wakers with all of them taken out.
pub open spec fn all_taken(list: Map<usize, Option<u64>>) -> Map<usize, Option<u64>> {
    list.map_values(|w: Option<u64>| None::<u64>)
}

/// Whether keys are those of a list, in ascending order.
pub open spec fn lists_keys(list: Map<usize, Option<u64>>, keys: Seq<usize>) -> bool {
    &&& keys.to_set() == list.dom()
    &&& forall|i: int, j: int| 0 <= i < j < keys.len() ==> keys[i] < keys[j]
}

/// Whether these are all wakers of a list, in the order of their keys.
pub open spec fn all_woken(list: Map<usize, Option<u64>>, woken: Seq<u64>) -> bool {
    exists|keys: Seq<usize>| #[trigger]
        lists_keys(list, keys) && woken == wakers_at(list, keys)
}

/// A count with one more, which wraps around.
pub open spec fn one_more(count: usize) -> usize {
    if count == usize::MAX {
        0
    } else {
        (count + 1) as usize
    }
}

/// A count with one less, which wraps around.
pub open spec fn one_less(count: usize) -> usize {
    if count == 0 {
        usize::MAX
    } else {
        (count - 1) as usize
    }
}

impl GracefulState {
    /// The count.
    pub closed spec fn count(&self) -> usize {
        self.counter
    }

    /// The wakers.
    pub closed spec fn wakers(&self) -> Map<usize, Option<u64>> {
        slab_contents(self.waker_list)
    }

    /// A count without wakers.
    pub fn new(counter: usize) -> (r: GracefulState)
        ensures
            r.count() == counter,
            r.wakers() == Map::<usize, Option<u64>>::empty(),
    {
        GracefulState { counter, waker_list: slab_new() }
    }

    /// Counts one more.
    pub fn subscribe(&mut self)
        ensures
            final(self).count() == one_more(old(self).count()),
            final(self).wakers() == old(self).wakers(),
    {
        self.counter = self.counter.wrapping_add(1);
    }

    /// Counts one less. If it was the last, gives all that are to be woken.
    pub fn unsubscribe(&mut self) -> (r: Vec<u64>)
        ensures
            final(self).count() == one_less(old(self).count()),
            final(self).count() == 0 ==> all_woken(old(self).wakers(), r@),
            final(self).count() != 0 ==> r@.len() == 0,
            old(self).count() != 1 ==> r@.len() == 0 && final(self).wakers() == old(self).wakers(),
            old(self).count() == 1 ==> all_woken(old(self).wakers(), r@) && final(self).wakers()
                == all_taken(old(self).wakers()),
    {
        let before: usize = self.counter;
        self.counter = self.counter.wrapping_sub(1);
        let mut woken: Vec<u64> = Vec::new();
        if before == 1 {
            let keys = slab_keys(&self.waker_list);
            let ghost list = slab_contents(self.waker_list);
            assert(lists_keys(list, keys@));
            let ghost start = *self;
            let mut i: usize = 0;
            while i < keys.len()
                invariant
                    i <= keys@.len(),
                    self.counter == start.counter,
                    lists_keys(list, keys@),
                    slab_contents(self.waker_list).dom() == list.dom(),
                    forall|j: int|
                        0 <= j < i ==> slab_contents(self.waker_list)[#[trigger] keys@[j]] is None,
                    forall|j: int|
                        i <= j < keys@.len() ==> slab_contents(self.waker_list)[#[trigger] keys@[j]]
                            == list[keys@[j]],
                    woken@ == wakers_at(list, keys@.take(i as int)),
                decreases keys@.len() - i,
            {
                let key: usize = keys[i];
                let ghost more = keys@.take(i + 1);
                assert(more.drop_last() == keys@.take(i as int));
                assert(more.last() == key);
                assert(keys@.to_set().contains(key)) by {
                    assert(keys@[i as int] == key);
                }
                let ghost earlier = slab_contents(self.waker_list);
                let waker = slab_get_mut(&mut self.waker_list, key).take();
                assert(waker == list[key]);
                assert(slab_contents(self.waker_list).dom() =~= earlier.dom());
                if let Some(waker) = waker {
                    woken.push(waker);
                }
                i = i + 1;
            }
            assert(keys@.take(keys@.len() as int) == keys@);
            proof {
                let after = slab_contents(self.waker_list);
                assert forall|k: usize| after.contains_key(k) implies after[k] is None by {
                    assert(keys@.to_set().contains(k));
                    let j = choose|j: int| 0 <= j < keys@.len() && keys@[j] == k;
                    assert(after[keys@[j]] is None);
                }
                assert(after =~= all_taken(list));
                assert(list == old(self).wakers());
                assert(lists_keys(old(self).wakers(), keys@));
            }
        }
        woken
    }
}

/// A wait for a count to become zero.
#[derive(Debug)]
pub struct GracefulWaiter {
    key: Option<usize>,
}

impl GracefulWaiter {
    /// Where the wait keeps what wakes it.
    pub closed spec fn key(&self) -> Option<usize> {
        self.key
    }

    /// A wait that has not begun.
    pub fn new() -> (r: GracefulWaiter)
        ensures
            r.key() is None,
    {
        GracefulWaiter { key: None }
    }

    /// Whether the count is zero. If it is not, keeps what wakes the task.
    pub fn poll(&mut self, state: &mut GracefulState, waker: u64) -> (r: bool)
        requires
            old(self).key() matches Some(key) ==> old(state).wakers().contains_key(key),
        ensures
            r == (old(state).count() == 0),
            final(state).count() == old(state).count(),
            r ==> final(state).wakers() == old(state).wakers() && final(self).key() == old(
                self,
            ).key(),
            !r ==> {
                &&& final(self).key() is Some
                &&& old(self).key() is Some ==> final(self).key() == old(self).key()
                &&& old(self).key() is None ==> !old(state).wakers().contains_key(
                    final(self).key()->0,
                )
                &&& final(state).wakers() == old(state).wakers().insert(
                    final(self).key()->0,
                    Some(waker),
                )
            },
    {
        if state.counter == 0 {
            return true;
        }
        self.key = Some(
            match self.key {
                Some(key) => {
                    *slab_get_mut(&mut state.waker_list, key) = Some(waker);
                    key
                },
                None => slab_insert(&mut state.waker_list, Some(waker)),
            },
        );
        false
    }

    /// Ends the wait: what wakes it is forgotten.
    pub fn cancel(&mut self, state: &mut GracefulState)
        requires
            old(self).key() matches Some(key) ==> old(state).wakers().contains_key(key),
        ensures
            final(self).key() is None,
            final(state).count() == old(state).count(),
            final(state).wakers() == (match old(self).key() {
                Some(key) => old(state).wakers().remove(key),
                None => old(state).wakers(),
            }),
    {
        if let Some(key) = self.key.take() {
            let _waker = slab_remove(&mut state.waker_list, key);
        }
    }
}

/// A graceful shutdown watcher
///
/// It waits for its watchers and the futures that they watch. Those learn from it that the
/// shutdown has begun.
#[derive(Debug)]
pub struct GracefulShutdown {
    /// Counts watchers and watched futures.
    pub state: GracefulState,
    /// Is one until the shutdown begins.
    pub future_state: GracefulState,
}

impl GracefulShutdown {
    /// Create a new graceful shutdown watcher
    pub fn new() -> (r: Self)
        ensures
            r.state.count() == 0,
            r.state.wakers() == Map::<usize, Option<u64>>::empty(),
            r.future_state.count() == 1,
            r.future_state.wakers() == Map::<usize, Option<u64>>::empty(),
    {
        GracefulShutdown { state: GracefulState::new(0), future_state: GracefulState::new(1) }
    }

    /// Whether watched futures are told to shut down.
    pub open spec fn begun(self) -> bool {
        self.future_state.count() == 0
    }

    /// Get a graceful shutdown watcher
    ///
    /// From now on the shutdown waits for it, too.
    pub fn watcher(&mut self) -> (r: GracefulWatcher)
        ensures
            final(self).state.count() == one_more(old(self).state.count()),
            final(self).state.wakers() == old(self).state.wakers(),
            final(self).future_state == old(self).future_state,
    {
        self.state.subscribe();
        GracefulWatcher { _priv: () }
    }

    /// Wait for a graceful shutdown
    ///
    /// Gives the watched futures that are to be woken, and the wait for the end of the shutdown,
    /// which is on `state`.
    pub fn shutdown(&mut self) -> (r: (Vec<u64>, GracefulWaiter))
        requires
            old(self).future_state.count() == 1,
        ensures
            final(self).begun(),
            final(self).state == old(self).state,
            final(self).future_state.wakers() == all_taken(old(self).future_state.wakers()),
            all_woken(old(self).future_state.wakers(), r.0@),
            r.1.key() is None,
    {
        let woken = self.future_state.unsubscribe();
        (woken, GracefulWaiter::new())
    }
}

impl Default for GracefulShutdown {
    fn default() -> (r: Self)
        ensures
            r.state.count() == 0,
            r.state.wakers() == Map::<usize, Option<u64>>::empty(),
            r.future_state.count() == 1,
            r.future_state.wakers() == Map::<usize, Option<u64>>::empty(),
    {
        GracefulShutdown::new()
    }
}

/// A graceful shutdown watcher.
#[derive(Debug)]
pub struct GracefulWatcher {
    _priv: (),
}

impl GracefulWatcher {
    /// Watch a future for graceful shutdown: from now on the shutdown waits for it.
    pub fn watch(&self, shutdown: &mut GracefulShutdown) -> (r: GracefulFuture)
        ensures
            final(shutdown).state.count() == one_more(old(shutdown).state.count()),
            final(shutdown).state.wakers() == old(shutdown).state.wakers(),
            final(shutdown).future_state == old(shutdown).future_state,
            !r.cancelled(),
            !r.finished(),
            r.key() is None,
    {
        shutdown.state.subscribe();
        GracefulFuture { cancel: GracefulWaiter::new(), cancelled: false, finished: false }
    }

    /// Drops the watcher: the shutdown no longer waits for it. Gives all that are to be woken.
    pub fn dropped(self, shutdown: &mut GracefulShutdown) -> (r: Vec<u64>)
        ensures
            final(shutdown).state.count() == one_less(old(shutdown).state.count()),
            final(shutdown).state.count() == 0 ==> all_woken(old(shutdown).state.wakers(), r@),
            final(shutdown).future_state == old(shutdown).future_state,
            old(shutdown).state.count() != 1 ==> r@.len() == 0 && final(shutdown).state.wakers()
                == old(shutdown).state.wakers(),
            old(shutdown).state.count() == 1 ==> all_woken(old(shutdown).state.wakers(), r@)
                && final(shutdown).state.wakers() == all_taken(old(shutdown).state.wakers()),
    {
        shutdown.state.unsubscribe()
    }
}

/// A watched future: its wait for the shutdown to begin, and whether its connection was told.
#[derive(Debug)]
pub struct GracefulFuture {
    cancel: GracefulWaiter,
    cancelled: bool,
    finished: bool,
}

impl GracefulFuture {
    /// Where its wait keeps what wakes it.
    pub closed spec fn key(&self) -> Option<usize> {
        self.cancel.key()
    }

    /// Whether the connection was told to shut down.
    pub closed spec fn cancelled(&self) -> bool {
        self.cancelled
    }

    /// Whether the connection has ended.
    pub closed spec fn finished(&self) -> bool {
        self.finished
    }

    /// Goes on with a watched future that is polled. Tells whether its connection is to be told to
    /// shut down: once, the first time it is polled after the shutdown began. The connection is
    /// polled after that in any case.
    pub fn poll(&mut self, shutdown: &mut GracefulShutdown, waker: u64) -> (r: bool)
        requires
            old(self).key() matches Some(key) ==> old(shutdown).future_state.wakers().contains_key(
                key,
            ),
        ensures
            r == (!old(self).cancelled() && old(shutdown).begun()),
            r == told(old(self).cancelled(), old(shutdown).begun()),
            final(self).cancelled() == knows(old(self).cancelled(), old(shutdown).begun()),
            final(self).cancelled() == (old(self).cancelled() || old(shutdown).begun()),
            final(self).finished() == old(self).finished(),
            final(shutdown).state == old(shutdown).state,
            final(shutdown).future_state.count() == old(shutdown).future_state.count(),
            !old(self).cancelled() && !old(shutdown).begun() ==> {
                &&& final(self).key() is Some
                &&& old(self).key() is Some ==> final(self).key() == old(self).key()
                &&& old(self).key() is None ==> !old(
                    shutdown,
                ).future_state.wakers().contains_key(final(self).key()->0)
                &&& final(shutdown).future_state.wakers() == old(
                    shutdown,
                ).future_state.wakers().insert(final(self).key()->0, Some(waker))
            },
            old(self).cancelled() || old(shutdown).begun() ==> final(self).key() == old(self).key()
                && final(shutdown).future_state.wakers() == old(shutdown).future_state.wakers(),
    {
        if !self.cancelled {
            if self.cancel.poll(&mut shutdown.future_state, waker) {
                self.cancelled = true;
                return true;
            }
        }
        false
    }

    /// Takes note that the connection has ended: the shutdown no longer waits for it. Gives all
    /// that are to be woken.
    pub fn ready(&mut self, shutdown: &mut GracefulShutdown) -> (r: Vec<u64>)
        requires
            !old(self).finished(),
        ensures
            final(self).finished(),
            final(shutdown).state.count() == 0 ==> all_woken(old(shutdown).state.wakers(), r@),
            final(self).cancelled() == old(self).cancelled(),
            final(self).key() == old(self).key(),
            final(shutdown).state.count() == one_less(old(shutdown).state.count()),
            final(shutdown).future_state == old(shutdown).future_state,
            old(shutdown).state.count() != 1 ==> r@.len() == 0 && final(shutdown).state.wakers()
                == old(shutdown).state.wakers(),
            old(shutdown).state.count() == 1 ==> all_woken(old(shutdown).state.wakers(), r@)
                && final(shutdown).state.wakers() == all_taken(old(shutdown).state.wakers()),
    {
        self.finished = true;
        shutdown.state.unsubscribe()
    }

    /// Drops the watched future: what wakes it is forgotten. The shutdown goes on waiting for it
    /// if its connection has not ended.
    pub fn dropped(self, shutdown: &mut GracefulShutdown)
        requires
            self.key() matches Some(key) ==> old(shutdown).future_state.wakers().contains_key(key),
        ensures
            final(shutdown).state == old(shutdown).state,
            final(shutdown).future_state.count() == old(shutdown).future_state.count(),
            final(shutdown).future_state.wakers() == (match self.key() {
                Some(key) => old(shutdown).future_state.wakers().remove(key),
                None => old(shutdown).future_state.wakers(),
            }),
    {
        let mut cancel = self.cancel;
        cancel.cancel(&mut shutdown.future_state);
    }
}

/// Every waker in a list is among those that are woken.
pub proof fn lemma_all_woken(list: Map<usize, Option<u64>>, woken: Seq<u64>, key: usize)
    requires
        all_woken(list, woken),
        list.contains_key(key),
        list[key] is Some,
    ensures
        woken.contains(list[key]->0),
{
    let keys = choose|keys: Seq<usize>| #[trigger]
        lists_keys(list, keys) && woken == wakers_at(list, keys);
    assert(keys.to_set().contains(key));
    let i = choose|i: int| 0 <= i < keys.len() && keys[i] == key;
    lemma_waker_kept(list, keys, i);
}

/// None but the wakers in a list are woken, and afterwards the list keeps its places but no waker.
pub proof fn lemma_only_woken(list: Map<usize, Option<u64>>, woken: Seq<u64>, waker: u64)
    requires
        all_woken(list, woken),
    ensures
        woken.contains(waker) ==> exists|key: usize|
            list.contains_key(key) && #[trigger] list[key] == Some(waker),
        all_taken(list).dom() == list.dom(),
        forall|key: usize| list.contains_key(key) ==> #[trigger] all_taken(list)[key] is None,
{
    let keys = choose|keys: Seq<usize>| #[trigger]
        lists_keys(list, keys) && woken == wakers_at(list, keys);
    assert(all_taken(list).dom() =~= list.dom());
    if woken.contains(waker) {
        let i = lemma_waker_from(list, keys, waker);
        assert(keys.to_set().contains(keys[i]));
        assert(list[keys[i]] == Some(waker));
    }
}

proof fn lemma_waker_from(list: Map<usize, Option<u64>>, keys: Seq<usize>, waker: u64) -> (i: int)
    requires
        wakers_at(list, keys).contains(waker),
    ensures
        0 <= i < keys.len(),
        list[keys[i]] == Some(waker),
    decreases keys.len(),
{
    let before = wakers_at(list, keys.drop_last());
    if list[keys.last()] == Some(waker) {
        keys.len() - 1
    } else {
        let all = wakers_at(list, keys);
        let j = choose|j: int| 0 <= j < all.len() && all[j] == waker;
        assert(before[j] == waker);
        lemma_waker_from(list, keys.drop_last(), waker)
    }
}

proof fn lemma_waker_kept(list: Map<usize, Option<u64>>, keys: Seq<usize>, i: int)
    requires
        0 <= i < keys.len(),
        list[keys[i]] is Some,
    ensures
        wakers_at(list, keys).contains(list[keys[i]]->0),
    decreases keys.len(),
{
    let before = wakers_at(list, keys.drop_last());
    if i == keys.len() - 1 {
        let all = before.push(list[keys[i]]->0);
        assert(all[all.len() - 1] == list[keys[i]]->0);
    } else {
        lemma_waker_kept(list, keys.drop_last(), i);
        let j = choose|j: int| 0 <= j < before.len() && before[j] == list[keys[i]]->0;
        assert(wakers_at(list, keys)[j] == before[j]);
    }
}

/// The count after watchers and watched futures began (`true`) and ended (`false`) in some order.
pub open spec fn count_after(count: usize, events: Seq<bool>) -> usize
    decreases events.len(),
{
    if events.len() == 0 {
        count
    } else if events.last() {
        one_more(count_after(count, events.drop_last()))
    } else {
        one_less(count_after(count, events.drop_last()))
    }
}

/// How many have begun and not ended.
pub open spec fn alive(events: Seq<bool>) -> int
    decreases events.len(),
{
    if events.len() == 0 {
        0
    } else if events.last() {
        alive(events.drop_last()) + 1
    } else {
        alive(events.drop_last()) - 1
    }
}

/// The shutdown waits for exactly those that have begun and not ended: the count that its wait
/// reads is their number, so the wait is over when none is left and not before.
pub proof fn lemma_waits_for_all(events: Seq<bool>)
    requires
        forall|n: int| 0 <= n <= events.len() ==> 0 <= alive(#[trigger] events.take(n)) <= usize::MAX,
    ensures
        count_after(0, events) == alive(events),
        count_after(0, events) == 0 <==> alive(events) == 0,
    decreases events.len(),
{
    assert(events.take(events.len() as int) == events);
    if events.len() > 0 {
        let before = events.drop_last();
        assert(events.take(before.len() as int) == before);
        assert forall|n: int| 0 <= n <= before.len() implies 0 <= alive(#[trigger] before.take(n))
            <= usize::MAX by {
            assert(events.take(n) == before.take(n));
        }
        lemma_waits_for_all(before);
    }
}

/// Whether a connection is told to shut down when its future is polled, given whether it was told
/// before and whether the shutdown has begun.
pub open spec fn told(cancelled: bool, begun: bool) -> bool {
    !cancelled && begun
}

/// Whether a connection has been told to shut down after its future was polled.
pub open spec fn knows(cancelled: bool, begun: bool) -> bool {
    cancelled || begun
}

/// How often the connection of a watched future is told to shut down, if the shutdown had begun
/// (`true`) or not at each of its polls.
pub open spec fn tellings(cancelled: bool, begun: Seq<bool>) -> nat
    decreases begun.len(),
{
    if begun.len() == 0 {
        0
    } else {
        (if told(cancelled, begun[0]) {
            1nat
        } else {
            0nat
        }) + tellings(knows(cancelled, begun[0]), begun.skip(1))
    }
}

/// A connection is told to shut down at most once, and it is told if its future is polled after
/// the shutdown began.
pub proof fn lemma_told_once(cancelled: bool, begun: Seq<bool>)
    ensures
        tellings(cancelled, begun) == if !cancelled && begun.contains(true) {
            1nat
        } else {
            0nat
        },
    decreases begun.len(),
{
    if begun.len() > 0 {
        let rest = begun.skip(1);
        lemma_told_once(cancelled || begun[0], rest);
        if rest.contains(true) {
            let i = choose|i: int| 0 <= i < rest.len() && rest[i] == true;
            assert(begun[i + 1] == true);
        }
        if begun.contains(true) && !begun[0] {
            let i = choose|i: int| 0 <= i < begun.len() && begun[i] == true;
            assert(rest[i - 1] == true);
        }
        if begun[0] {
            assert(begun.contains(begun[0]));
        }
    }
}

/// Counting one more and one less undo each other, and each changes the count by one where it can.
pub proof fn lemma_counts(count: usize)
    ensures
        one_less(one_more(count)) == count,
        one_more(one_less(count)) == count,
        count < usize::MAX ==> one_more(count) == count + 1,
        count > 0 ==> one_less(count) == count - 1,
{
}

} // verus!
