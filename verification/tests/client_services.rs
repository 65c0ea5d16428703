use hyper_util::client::expect_continue::{wrap, ExpectContinueBody, FrameStep};
use hyper_util::client::service;
use hyper_util::client::services;
use hyper_util::header::{has_room_for, header_count, FieldValue};
use hyper_util::uri::Uri;

fn uri(s: &str) -> Uri {
    Uri::parse(s).unwrap()
}

fn host_of(dst: &str) -> Option<String> {
    let mut headers = http::HeaderMap::new();
    service::SetHost::new(()).call(&uri(dst), &mut headers);
    headers.get("host").map(|v| v.to_str().unwrap().to_owned())
}

#[test]
fn host_names_the_port_unless_it_is_the_usual_one() {
    assert_eq!(host_of("http://hyper.rs/x").as_deref(), Some("hyper.rs"));
    assert_eq!(host_of("http://hyper.rs:80").as_deref(), Some("hyper.rs"));
    assert_eq!(host_of("http://hyper.rs:443").as_deref(), Some("hyper.rs:443"));
    assert_eq!(host_of("https://hyper.rs:443").as_deref(), Some("hyper.rs"));
    assert_eq!(host_of("wss://hyper.rs:443").as_deref(), Some("hyper.rs"));
    assert_eq!(host_of("https://hyper.rs:80").as_deref(), Some("hyper.rs:80"));
    assert_eq!(host_of("http://[::1]:8080").as_deref(), Some("[::1]:8080"));
    assert_eq!(host_of("/relative"), None);
}

#[test]
fn a_host_that_is_there_stays() {
    let mut headers = http::HeaderMap::new();
    headers.insert("host", http::HeaderValue::from_static("own.example"));
    service::SetHost::new(()).call(&uri("http://hyper.rs"), &mut headers);
    assert_eq!(headers["host"], "own.example");
    services::set_host::SetHost::new(()).call(&uri("http://hyper.rs"), &mut headers);
    assert_eq!(headers["host"], "own.example");

    let mut headers = http::HeaderMap::new();
    services::set_host::SetHost::new(()).call(&uri("http://hyper.rs:8080"), &mut headers);
    services::set_host::SetHost::new(()).call(&uri("http://other.rs"), &mut headers);
    assert_eq!(headers["host"], "hyper.rs:8080");
    assert_eq!(headers.len(), 1);
}

#[test]
fn inner_services_are_kept() {
    assert_eq!(*service::SetHost::new(7).inner(), 7);
    assert_eq!(*service::Http1RequestTarget::new(8).inner(), 8);
}

fn target(is_connect: bool, dst: &str) -> String {
    let mut dst = uri(dst);
    service::Http1RequestTarget::new(()).call(is_connect, &mut dst);
    let once = dst.to_text();
    service::Http1RequestTarget::new(()).call(is_connect, &mut dst);
    assert_eq!(dst.to_text(), once);
    once
}

#[test]
fn request_targets() {
    assert_eq!(target(false, "http://hyper.rs/guides?x=1"), "/guides?x=1");
    assert_eq!(target(false, "http://hyper.rs"), "/");
    assert_eq!(target(true, "https://hyper.rs:443/guides"), "hyper.rs:443");
}

#[test]
fn request_targets_through_a_proxy() {
    let proxied = services::http1_request_target::Http1RequestTarget::new((), true);
    let mut dst = uri("http://hyper.rs/guides");
    proxied.call(false, &mut dst);
    assert_eq!(dst.to_text(), "http://hyper.rs/guides");
    let mut dst = uri("https://hyper.rs/guides");
    proxied.call(false, &mut dst);
    assert_eq!(dst.to_text(), "/guides");
    let mut dst = uri("/guides");
    proxied.call(false, &mut dst);
    assert_eq!(dst.to_text(), "/guides");
    let mut dst = uri("https://hyper.rs/guides");
    proxied.call(true, &mut dst);
    assert_eq!(dst.to_text(), "hyper.rs");
    let direct = services::http1_request_target::Http1RequestTarget::new((), false);
    let mut dst = uri("http://hyper.rs/guides");
    direct.call(false, &mut dst);
    assert_eq!(dst.to_text(), "/guides");
}

#[test]
fn withholds_body_until_signalled() {
    let mut body = ExpectContinueBody::new("hi", false);

    assert_eq!(body.poll_frame(), FrameStep::PollSignal);
    assert_eq!(body.signal_polled(false), FrameStep::Pending);

    assert_eq!(body.poll_frame(), FrameStep::PollSignal);
    assert_eq!(body.signal_polled(true), FrameStep::PollInner);
    assert_eq!(body.inner, "hi");

    // it is not withheld again
    assert_eq!(body.poll_frame(), FrameStep::PollInner);
}

#[test]
fn release_body_with_timeout() {
    let mut body = ExpectContinueBody::new("hi", true);

    assert_eq!(body.poll_frame(), FrameStep::PollSignal);
    assert_eq!(body.signal_polled(false), FrameStep::PollSleep);
    assert_eq!(body.sleep_polled(false), FrameStep::Pending);

    assert_eq!(body.poll_frame(), FrameStep::PollSignal);
    assert_eq!(body.signal_polled(false), FrameStep::PollSleep);
    assert_eq!(body.sleep_polled(true), FrameStep::PollInner);
    assert_eq!(body.poll_frame(), FrameStep::PollInner);
}

#[test]
fn release_on_signal_cancel() {
    // a signal whose sender is gone is ready, too
    let mut body = ExpectContinueBody::new("hi", false);
    assert_eq!(body.poll_frame(), FrameStep::PollSignal);
    assert_eq!(body.signal_polled(false), FrameStep::Pending);
    assert_eq!(body.signal_polled(true), FrameStep::PollInner);
    assert_eq!(body.poll_frame(), FrameStep::PollInner);
}

#[test]
fn wrapped_requests_expect_to_continue() {
    let mut headers = http::HeaderMap::new();
    let (body, mut hook) = wrap(&mut headers, "hi", false);
    assert_eq!(headers["expect"], "100-continue");
    assert_eq!(body.poll_frame(), FrameStep::PollSignal);
    assert!(!hook.on_informational(103));
    assert!(hook.on_informational(100));
    assert!(!hook.on_informational(100));

    let mut headers = http::HeaderMap::new();
    headers.insert("expect", http::HeaderValue::from_static("other"));
    wrap(&mut headers, "hi", true);
    assert_eq!(headers["expect"], "other");
    assert_eq!(headers.len(), 1);
}

#[test]
fn header_values() {
    assert!(FieldValue::from_str("a\tb").is_some());
    assert!(FieldValue::from_str("a\nb").is_none());
    assert!(FieldValue::from_str("caf\u{e9}").is_none());
    assert!(FieldValue::from_bytes(&[0xff]).is_some());
    assert!(FieldValue::from_bytes(&[0x7f]).is_none());
    let mut v = FieldValue::from_str("x").unwrap();
    assert!(!v.is_sensitive());
    v.set_sensitive(true);
    assert!(v.clone().is_sensitive());
}

#[test]
fn header_names_are_counted_once() {
    let mut headers = http::HeaderMap::new();
    assert_eq!(header_count(&headers), 0);
    headers.append("x-a", http::HeaderValue::from_static("1"));
    headers.append("x-a", http::HeaderValue::from_static("2"));
    headers.append("x-b", http::HeaderValue::from_static("3"));
    assert_eq!(header_count(&headers), 2);
    assert!(has_room_for(&headers, 6550));
    assert!(!has_room_for(&headers, 6551));
}

#[test]
fn uris_are_taken_apart() {
    let u = uri("https://user@Example.com:8443/a?b#c");
    assert!(u.has_scheme("https"));
    assert_eq!(u.host(), Some("Example.com"));
    assert_eq!(u.port(), Some(8443));
    assert_eq!(u.path_and_query.as_deref(), Some("/a?b"));
    assert_eq!(u.to_text(), "https://user@Example.com:8443/a?b");
    assert!(Uri::parse("http://exa mple").is_none());
    assert_eq!(Uri::root("https", "hyper.rs:1").unwrap().to_text(), "https://hyper.rs:1/");
    assert!(Uri::root("https", "a b").is_none());
}
