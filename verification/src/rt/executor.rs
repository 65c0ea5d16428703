//! Executors that run futures in tracing spans.

use vstd::prelude::*;

use tracing::Span;

verus! {

/// The span of the `tracing` crate.
#[verifier::external_type_specification]
#[verifier::external_body]
pub struct ExSpan(tracing::Span);

/// `Span::current` gives the span that is active where it is called. Nothing is stated of it: it
/// depends on the thread and on the subscriber.
#[verifier::external_body]
fn current_span() -> (r: Span) {
    Span::current()
}

/// An executor that propagates the current tracing span to its futures.
#[derive(Clone, Copy, Debug, Default)]
pub struct CurrentSpanExecutor<E> {
    pub inner: E,
}

/// An executor that propagates a provided tracing span to its futures.
#[derive(Debug)]
pub struct WithSpanExecutor<E> {
    pub inner: E,
    pub span: Span,
}

/// An executor that uses a callback to propagate tracing span to its futures.
#[derive(Clone, Debug)]
pub struct MkSpanExecutor<E, F> {
    pub inner: E,
    pub mk: F,
}

impl<E> CurrentSpanExecutor<E> {
    /// Wrap an executor to propagate the current tracing span to its futures.
    pub fn new(inner: E) -> (r: Self)
        ensures
            r.inner == inner,
    {
        CurrentSpanExecutor { inner }
    }
}

impl<E> WithSpanExecutor<E> {
    /// Wrap an executor to propagate the provided tracing span to its futures.
    pub fn new(inner: E, span: Span) -> (r: Self)
        ensures
            r.inner == inner,
            r.span == span,
    {
        WithSpanExecutor { inner, span }
    }

    /// Wrap an executor to propagate the current tracing span to its futures.
    ///
    /// This will instrument futures with the span that is active at the call-site of _this_
    /// function.
    pub fn current(inner: E) -> (r: Self)
        ensures
            r.inner == inner,
    {
        WithSpanExecutor { inner, span: current_span() }
    }
}

impl<E, F> MkSpanExecutor<E, F> {
    /// Wrap an executor that creates new spans to instrument spawned futures.
    pub fn new(inner: E, mk: F) -> (r: Self)
        ensures
            r.inner == inner,
            r.mk == mk,
    {
        MkSpanExecutor { inner, mk }
    }
}

impl<E, F: Fn() -> Span> MkSpanExecutor<E, F> {
    /// Makes the span of a future that is spawned. The callback is called once for each.
    pub fn make_span(&self) -> (r: Span)
        requires
            self.mk.requires(()),
        ensures
            self.mk.ensures((), r),
    {
        (self.mk)()
    }
}

} // verus!
