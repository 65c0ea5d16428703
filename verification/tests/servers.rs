use bytes::Bytes;
use hyper_util::common::buf::NotifyOnEos;
use hyper_util::common::rewind::{Rewind, RewindRead};
use hyper_util::rt::executor::{CurrentSpanExecutor, MkSpanExecutor, WithSpanExecutor};
use hyper_util::server::conn::{Detection, Protocol};
use hyper_util::server::graceful::{GracefulShutdown, GracefulWatcher};
use hyper_util::util::prepend_async_read::{FirstRead, PrependAsyncRead, ReadStep, State};

struct MockIo(&'static [u8]);

// Reads into a buffer of the given length.
fn read(rewind: &mut Rewind<MockIo>, room: usize) -> Vec<u8> {
    match rewind.poll_read(room) {
        RewindRead::Buffered(bytes) => bytes,
        RewindRead::Inner => {
            let len = std::cmp::min(rewind.inner.0.len(), room);
            let (now, later) = rewind.inner.0.split_at(len);
            rewind.inner.0 = later;
            now.to_vec()
        }
    }
}

#[test]
fn read_full_from_prebuf() {
    let mut rewind = Rewind {
        pre: Some(Bytes::from_static(b"hello")),
        inner: MockIo(b"world"),
    };

    assert_eq!(read(&mut rewind, 5), b"hello");
    assert!(rewind.pre.is_none());
}

#[test]
fn read_partial_from_prebuf_leaves_remainder() {
    let mut rewind = Rewind {
        pre: Some(Bytes::from_static(b"hello")),
        inner: MockIo(b"world"),
    };

    assert_eq!(read(&mut rewind, 3), b"hel");
    assert_eq!(rewind.pre.as_ref().map(|b| &b[..]), Some(&b"lo"[..]));
}

#[test]
fn read_exhausts_prebuf_then_reads_inner() {
    let mut rewind = Rewind {
        pre: Some(Bytes::from_static(b"hi")),
        inner: MockIo(b"world"),
    };

    assert_eq!(read(&mut rewind, 2), b"hi");
    assert!(rewind.pre.is_none());

    assert_eq!(read(&mut rewind, 5), b"world");
}

#[test]
fn read_with_empty_prebuf_uses_inner() {
    let mut rewind = Rewind {
        pre: Some(Bytes::from_static(b"")),
        inner: MockIo(b"world"),
    };

    assert_eq!(read(&mut rewind, 5), b"world");
    assert!(rewind.pre.is_none());
}

#[test]
fn buffered_bytes_come_in_order() {
    let mut rewind = Rewind::new_buffered(MockIo(b" world"), Bytes::from_static(b"hello"));
    let mut all = Vec::new();
    for room in [1usize, 0, 3, 9, 4, 9] {
        all.extend(read(&mut rewind, room));
    }
    assert_eq!(all, b"hello world");
}

#[test]
fn test_get_notified_immediately() {
    let buf = Bytes::from_static(b"abc");
    let (mut buf, _signaler) = NotifyOnEos::new(buf);
    assert!(buf.advance(3));
}

#[test]
fn test_get_notified_after_1ms() {
    let buf = Bytes::from_static(b"abc");
    let (mut buf, _signaler) = NotifyOnEos::new(buf);
    // nothing is told before the end is reached
    assert!(!buf.advance(0));
    assert!(buf.advance(3));
}

#[test]
fn notified_once_and_at_the_end() {
    let (mut buf, _signaler) = NotifyOnEos::new(Bytes::from_static(b"abc"));
    assert_eq!(buf.remaining(), 3);
    assert!(!buf.advance(1));
    assert_eq!(buf.chunk(), b"bc");
    assert!(buf.advance(2));
    assert_eq!(buf.remaining(), 0);
    assert!(!buf.advance(0));
}

#[test]
fn prepended_source_is_read_first() {
    let mut io = PrependAsyncRead::new("first", "second");
    assert!(matches!(io.poll_read::<()>(), ReadStep::ReadFirst));
    assert!(matches!(io.first_read::<()>(FirstRead::Pending), ReadStep::Pending));
    assert!(matches!(io.first_read::<()>(FirstRead::Filled(3)), ReadStep::Done));
    assert!(matches!(io.first_read(FirstRead::Failed("no")), ReadStep::Failed("no")));
    assert_eq!(io.state, State::First);
    assert!(matches!(io.first_read::<()>(FirstRead::Filled(0)), ReadStep::ReadSecond));
    assert!(matches!(io.poll_read::<()>(), ReadStep::ReadSecond));
    assert_eq!((io.first, io.second), ("first", "second"));
}

const PREFACE: &[u8] = b"PRI * HTTP/2.0\r\n\r\nSM\r\n\r\n";

#[test]
fn conn_http1() {
    let mut detection = Detection::new();
    assert_eq!(detection.received(b"GET / HTTP/1.1\r\n\r\n"), Some(Protocol::H1));
    assert_eq!(detection.into_bytes(), b"GET / HTTP/1.1\r\n\r\n");
}

#[test]
fn conn_http2() {
    let mut detection = Detection::new();
    assert_eq!(detection.received(PREFACE), Some(Protocol::H2));
    assert_eq!(detection.into_bytes(), PREFACE);
}

// The bytes that told the version are read again by the connection.
fn rewound(detection: Detection) -> Vec<u8> {
    let buf = Bytes::from(detection.into_bytes());
    let mut io = Rewind::new_buffered(MockIo(b"Hello, world!"), buf);
    let mut all = read(&mut io, 64);
    all.extend(read(&mut io, 64));
    all
}

#[test]
fn auto_http1() {
    let mut detection = Detection::new();
    assert_eq!(detection.received(b"GET / HTTP/1.1\r\n"), Some(Protocol::H1));
    assert_eq!(rewound(detection), b"GET / HTTP/1.1\r\nHello, world!");
}

#[test]
fn auto_http2() {
    let mut detection = Detection::new();
    assert_eq!(detection.received(PREFACE), Some(Protocol::H2));
    assert_eq!(rewound(detection), [PREFACE, b"Hello, world!"].concat());
}

#[test]
fn versions_are_detected_however_the_bytes_come() {
    let mut detection = Detection::new();
    for byte in &PREFACE[..23] {
        assert_eq!(detection.received(&[*byte]), None);
    }
    assert_eq!(detection.received(b"\nmore"), Some(Protocol::H2));

    // a method that starts like the preface
    let mut detection = Detection::new();
    assert_eq!(detection.received(b""), None);
    assert_eq!(detection.received(b"P"), None);
    assert_eq!(detection.received(b"OST / HTTP/1.1\r\n"), Some(Protocol::H1));
    assert_eq!(detection.received(b"Host: x\r\n"), Some(Protocol::H1));
}

// A graceful shutdown with some watched connections, each under its own waker.
fn watched(n: u64) -> (GracefulShutdown, Vec<GracefulWatcher>) {
    let mut graceful = GracefulShutdown::new();
    let watchers = (0..n).map(|_| graceful.watcher()).collect();
    (graceful, watchers)
}

#[test]
fn test_graceful_shutdown_ok() {
    let (mut graceful, watchers) = watched(3);
    let mut shutdown_counter = 0;
    let mut conns = Vec::new();
    for (i, watcher) in watchers.iter().enumerate() {
        let mut conn = watcher.watch(&mut graceful);
        assert!(!conn.poll(&mut graceful, 100 + i as u64));
        conns.push(conn);
    }
    assert_eq!(shutdown_counter, 0);

    let (woken, mut waiter) = graceful.shutdown();
    assert_eq!(woken, [100, 101, 102]);
    assert!(!waiter.poll(&mut graceful.state, 7));
    for conn in conns.iter_mut() {
        if conn.poll(&mut graceful, 0) {
            shutdown_counter += 1;
        }
        assert!(conn.ready(&mut graceful).is_empty());
    }
    let mut last = Vec::new();
    for watcher in watchers {
        assert!(last.is_empty());
        last = watcher.dropped(&mut graceful);
    }
    assert_eq!(last, [7]);
    assert!(waiter.poll(&mut graceful.state, 8));
    assert_eq!(shutdown_counter, 3);
}

#[test]
fn test_graceful_shutdown_delayed_ok() {
    // connections that are watched only after the shutdown began are told, too
    let (mut graceful, watchers) = watched(3);
    let (woken, mut waiter) = graceful.shutdown();
    assert!(woken.is_empty());
    let mut shutdown_counter = 0;
    for watcher in watchers {
        assert!(!waiter.poll(&mut graceful.state, 7));
        let mut conn = watcher.watch(&mut graceful);
        if conn.poll(&mut graceful, 1) {
            shutdown_counter += 1;
        }
        conn.ready(&mut graceful);
        watcher.dropped(&mut graceful);
    }
    assert!(waiter.poll(&mut graceful.state, 7));
    assert_eq!(shutdown_counter, 3);
}

#[test]
fn test_graceful_shutdown_multi_per_watcher_ok() {
    let (mut graceful, watchers) = watched(3);
    let mut conns = Vec::new();
    for (i, watcher) in watchers.iter().enumerate() {
        for _ in 0..=i {
            conns.push(watcher.watch(&mut graceful));
        }
    }
    let (_, mut waiter) = graceful.shutdown();
    for watcher in watchers {
        watcher.dropped(&mut graceful);
    }
    let mut shutdown_counter = 0;
    for conn in conns.iter_mut() {
        assert!(!waiter.poll(&mut graceful.state, 7));
        if conn.poll(&mut graceful, 1) {
            shutdown_counter += 1;
        }
        conn.ready(&mut graceful);
    }
    assert!(waiter.poll(&mut graceful.state, 7));
    assert_eq!(shutdown_counter, 6);
}

#[test]
fn test_graceful_shutdown_timeout() {
    let (mut graceful, watchers) = watched(3);
    let mut conns: Vec<_> = watchers.iter().map(|w| w.watch(&mut graceful)).collect();
    let (_, mut waiter) = graceful.shutdown();
    for watcher in watchers {
        watcher.dropped(&mut graceful);
    }
    let mut shutdown_counter = 0;
    for (i, conn) in conns.iter_mut().enumerate() {
        if conn.poll(&mut graceful, 1) {
            shutdown_counter += 1;
        }
        // the first connection does not end
        if i > 0 {
            conn.ready(&mut graceful);
        }
    }
    assert_eq!(shutdown_counter, 3);
    assert!(
        !waiter.poll(&mut graceful.state, 7),
        "shutdown should not be completed: as not all our conns finish"
    );
}

#[test]
fn dropped_waits_are_not_woken() {
    let (mut graceful, watchers) = watched(1);
    let mut first = watchers[0].watch(&mut graceful);
    let mut second = watchers[0].watch(&mut graceful);
    first.poll(&mut graceful, 1);
    second.poll(&mut graceful, 2);
    second.poll(&mut graceful, 3);
    first.dropped(&mut graceful);
    let (woken, mut waiter) = graceful.shutdown();
    assert_eq!(woken, [3]);
    waiter.poll(&mut graceful.state, 9);
    waiter.cancel(&mut graceful.state);
    second.ready(&mut graceful);
    // the dropped future is still counted
    for watcher in watchers {
        assert!(watcher.dropped(&mut graceful).is_empty());
    }
    assert!(!waiter.poll(&mut graceful.state, 10));
}

#[test]
fn executors_hold_what_they_were_given() {
    assert_eq!(CurrentSpanExecutor::new(1).inner, 1);
    let executor = WithSpanExecutor::new(2, tracing::Span::none());
    assert_eq!(executor.inner, 2);
    assert!(executor.span.is_none());
    // no subscriber is set, so no span is active
    let executor = WithSpanExecutor::current(3);
    assert_eq!(executor.inner, 3);
    assert!(executor.span.is_none());
    let executor = MkSpanExecutor::new(4, || tracing::Span::none());
    assert_eq!(executor.inner, 4);
    assert!(executor.make_span().is_none());
}
