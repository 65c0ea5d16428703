use hyper_util::client::pool::singleton::{
    CallStep, Driven, FutureStep, Received, Singleton, SingletonFuture, State, WaiterId,
};

type Pool = Singleton<(), &'static str, &'static str, u64, u64>;
type Step = FutureStep<&'static str, &'static str>;

// A call on the pool: the future that makes a service is named, and results are sent to `tx`.
fn call(pool: &mut Pool, tx: u64) -> SingletonFuture<&'static str> {
    match pool.state.call() {
        CallStep::Make => pool.state.begin("making"),
        CallStep::Join => pool.state.join(tx),
        CallStep::Made(svc) => SingletonFuture::Made { svc: Some(svc) },
    }
}

fn id(future: &SingletonFuture<&'static str>) -> WaiterId {
    match future {
        SingletonFuture::Participating { id, .. } => *id,
        SingletonFuture::Made { .. } => panic!("not participating"),
    }
}

fn poll(pool: &Pool, future: &mut SingletonFuture<&'static str>) -> Step {
    future.poll(&pool.state, Received::Nothing)
}

fn drive(pool: &mut Pool, result: Result<&'static str, &'static str>) -> Vec<(u64, String)> {
    match pool.state.driver_polled(Some(result), 0, false) {
        Driven::Made(sent, own) => {
            let mut all: Vec<(u64, String)> =
                sent.into_iter().map(|(tx, svc)| (tx, svc.to_owned())).collect();
            all.insert(0, (0, own.inner.to_owned()));
            all
        }
        Driven::Failed(sent, own) => {
            let mut all: Vec<(u64, String)> =
                sent.into_iter().map(|(tx, e)| (tx, e.to_owned())).collect();
            all.insert(0, (0, own.0.to_owned()));
            all
        }
        Driven::Pending => panic!("pending"),
    }
}

#[test]
fn first_call_drives_subsequent_wait() {
    let mut singleton: Pool = Singleton::new(());
    assert!(singleton.needs_maker());
    // First call: should go into Driving
    let mut fut1 = call(&mut singleton, 1);
    // Second call: should go into Waiting
    let mut fut2 = call(&mut singleton, 2);
    assert!(!singleton.needs_maker());
    assert!(!singleton.is_empty());

    assert!(matches!(poll(&singleton, &mut fut1), FutureStep::Drive));
    assert!(matches!(poll(&singleton, &mut fut2), FutureStep::Park));

    // Both futures should resolve to the same value
    assert_eq!(drive(&mut singleton, Ok("svc")), [(0, "svc".into()), (2, "svc".into())]);
    match fut2.poll::<_, _, _, &str>(&singleton.state, Received::Value(Ok("svc"))) {
        FutureStep::Ready(Ok(singled)) => assert_eq!(singled.inner, "svc"),
        other => panic!("unexpected step: {other:?}"),
    }
}

#[test]
fn made_state_returns_immediately() {
    let mut singleton: Pool = Singleton::new(());
    // Drive first call to completion
    let mut fut1 = call(&mut singleton, 1);
    assert!(matches!(poll(&singleton, &mut fut1), FutureStep::Drive));
    drive(&mut singleton, Ok("svc"));

    // Second call should not hit inner service
    let mut fut2 = call(&mut singleton, 2);
    match poll(&singleton, &mut fut2) {
        FutureStep::Ready(Ok(singled)) => assert_eq!(singled.inner, "svc"),
        other => panic!("unexpected step: {other:?}"),
    }
}

#[test]
fn cached_service_poll_ready_error_clears_singleton() {
    let mut singleton: Pool = Singleton::new(());
    call(&mut singleton, 1);
    drive(&mut singleton, Ok("svc"));
    assert!(!singleton.needs_maker());

    // A service that was given out is polled: only an error clears the singleton
    assert_eq!(singleton.state.ready_polled::<&str>(None), None);
    assert_eq!(singleton.state.ready_polled::<&str>(Some(Ok(()))), Some(Ok(())));
    assert!(!singleton.needs_maker());
    assert_eq!(singleton.state.ready_polled(Some(Err("gone"))), Some(Err("gone")));

    // After error, the singleton should be cleared, so a new call drives outer again
    assert!(singleton.needs_maker());
    let mut fut2 = call(&mut singleton, 2);
    assert!(matches!(poll(&singleton, &mut fut2), FutureStep::Drive));
    assert_eq!(drive(&mut singleton, Ok("svc2")), [(0, "svc2".into())]);
}

#[test]
fn cancel_waiter_does_not_affect_others() {
    let mut singleton: Pool = Singleton::new(());
    let mut fut1 = call(&mut singleton, 1);
    let fut2 = call(&mut singleton, 2);
    assert!(singleton.state.cancel(id(&fut2)).is_none()); // cancel one waiter

    assert!(matches!(poll(&singleton, &mut fut1), FutureStep::Drive));
    assert_eq!(drive(&mut singleton, Ok("svc")), [(0, "svc".into())]);
}

#[test]
fn maker_error_is_shared_with_waiters() {
    let mut singleton: Pool = Singleton::new(());
    call(&mut singleton, 1);
    call(&mut singleton, 2);
    let mut fut3 = call(&mut singleton, 3);

    assert_eq!(
        drive(&mut singleton, Err("maker failed")),
        [(0, "maker failed".into()), (2, "maker failed".into()), (3, "maker failed".into())]
    );
    match fut3.poll(&singleton.state, Received::Value(Err("maker failed"))) {
        FutureStep::Ready(Err(error)) => {
            assert_eq!(error.0, "maker failed");
            assert_eq!(error.text(), "singleton connection error");
        }
        other => panic!("unexpected step: {other:?}"),
    }
    assert!(singleton.is_empty());
}

#[test]
fn cancel_driver_hands_off_to_waiter() {
    let mut singleton: Pool = Singleton::new(());
    let mut fut1 = call(&mut singleton, 1);
    let mut fut2 = call(&mut singleton, 2);

    // poll driver just once, and then drop
    assert!(matches!(poll(&singleton, &mut fut1), FutureStep::Drive));
    assert!(matches!(
        singleton.state.driver_polled::<&str>(None, 11, false),
        Driven::Pending
    ));
    assert!(singleton.state.cancel(id(&fut1)).is_none());

    // the channel of a promoted waiter is gone
    let step = fut2.poll::<_, _, _, &str>(&singleton.state, Received::Cancelled);
    assert!(matches!(step, FutureStep::Drive));
    assert_eq!(drive(&mut singleton, Ok("svc")), [(0, "svc".into())]);
}

#[test]
fn cancel_driver_promotes_parked_waiter() {
    let mut singleton: Pool = Singleton::new(());
    let mut fut1 = call(&mut singleton, 1);
    let mut fut2 = call(&mut singleton, 2);

    assert!(matches!(poll(&singleton, &mut fut1), FutureStep::Drive));

    // Poll the waiter once so it parks and stores a waker in the batch.
    assert!(matches!(poll(&singleton, &mut fut2), FutureStep::Park));
    singleton.state.park(id(&fut2), 22, false);

    // When the driver is dropped, the promoted parked waiter must be
    // woken so it can take over driving the shared make future.
    assert_eq!(singleton.state.cancel(id(&fut1)), Some(22));

    // Poll after promotion, before the maker responds, so the waiter
    // actually takes over as driver and stores its own waker.
    let step = fut2.poll::<_, _, _, &str>(&singleton.state, Received::Cancelled);
    assert!(matches!(step, FutureStep::Drive));
    assert!(matches!(
        singleton.state.driver_polled::<&str>(None, 23, false),
        Driven::Pending
    ));
    assert_eq!(drive(&mut singleton, Ok("svc")), [(0, "svc".into())]);
}

#[test]
fn cancel_all_waiters_clears_singleton() {
    let mut singleton: Pool = Singleton::new(());
    let fut1 = call(&mut singleton, 1);
    let fut2 = call(&mut singleton, 2);

    singleton.state.cancel(id(&fut1));
    assert!(!singleton.is_empty());
    singleton.state.cancel(id(&fut2));

    assert!(singleton.is_empty());
}

#[test]
fn cancel_non_driver_waiter_does_not_block_others() {
    let mut singleton: Pool = Singleton::new(());
    let mut fut1 = call(&mut singleton, 1);
    let fut2 = call(&mut singleton, 2);
    let mut fut3 = call(&mut singleton, 3);
    singleton.state.cancel(id(&fut2));

    assert!(matches!(poll(&singleton, &mut fut1), FutureStep::Drive));
    assert!(matches!(poll(&singleton, &mut fut3), FutureStep::Park));
    assert_eq!(drive(&mut singleton, Ok("svc")), [(0, "svc".into()), (3, "svc".into())]);
}

#[test]
fn retain_drops_only_a_made_service() {
    let mut singleton: Pool = Singleton::new(());
    singleton.retain(false);
    assert!(singleton.is_empty());
    call(&mut singleton, 1);
    singleton.retain(false);
    assert!(matches!(singleton.state, State::Making(_)));
    drive(&mut singleton, Ok("svc"));
    singleton.retain(true);
    assert!(!singleton.is_empty());
    singleton.retain(false);
    assert!(singleton.is_empty());
}
