use vstd::prelude::*;

use std::marker::PhantomData;
use std::time::Duration;

verus! {

/// Retries without waiting.
#[derive(Clone, Copy, Debug, PartialEq, Eq, Structural)]
pub struct InstantBackoffStrategy;

/// Waits the same delay before every retry.
pub struct ConstantBackoffStrategy {
    delay: Duration,
}

impl ConstantBackoffStrategy {
    pub closed spec fn delay_spec(self) -> Duration {
        self.delay
    }

    /// A backoff of `delay` before every retry.
    pub fn new(delay: Duration) -> (r: Self)
        ensures
            r.delay_spec() == delay,
    {
        ConstantBackoffStrategy { delay }
    }

    /// The delay before every retry.
    pub fn delay(&self) -> (r: Duration)
        ensures
            r == self.delay_spec(),
    {
        self.delay
    }
}

/// Runs a frame and, when it fails, runs it again up to `retries` more times, waiting as the
/// backoff says.
pub struct RetriableTaskFrame<T, B> {
    frame: T,
    retries: u32,
    backoff: B,
}

impl<T, B> RetriableTaskFrame<T, B> {
    pub closed spec fn frame_spec(self) -> T {
        self.frame
    }

    pub closed spec fn retries_spec(self) -> u32 {
        self.retries
    }

    pub closed spec fn backoff_spec(self) -> B {
        self.backoff
    }

    /// Retries `frame` up to `retries` times (at least one) with the given backoff.
    pub fn new(frame: T, retries: u32, backoff: B) -> (r: Self)
        requires
            retries > 0,
        ensures
            r.frame_spec() == frame,
            r.retries_spec() == retries,
            r.backoff_spec() == backoff,
    {
        RetriableTaskFrame { frame, retries, backoff }
    }

    /// The number of retries.
    pub fn retries(&self) -> (r: u32)
        ensures
            r == self.retries_spec(),
    {
        self.retries
    }
}

/// Runs a frame and fails it when it takes longer than `max_duration`.
pub struct TimeoutTaskFrame<T> {
    frame: T,
    max_duration: Duration,
}

impl<T> TimeoutTaskFrame<T> {
    pub closed spec fn frame_spec(self) -> T {
        self.frame
    }

    pub closed spec fn max_duration_spec(self) -> Duration {
        self.max_duration
    }

    /// Runs `frame` for at most `max_duration`.
    pub fn new(frame: T, max_duration: Duration) -> (r: Self)
        ensures
            r.frame_spec() == frame,
            r.max_duration_spec() == max_duration,
    {
        TimeoutTaskFrame { frame, max_duration }
    }

    /// The longest the frame may run.
    pub fn max_duration(&self) -> (r: Duration)
        ensures
            r == self.max_duration_spec(),
    {
        self.max_duration
    }
}

/// Runs a primary frame and, when it fails, a fallback frame.
pub struct FallbackTaskFrame<T, T2> {
    primary: T,
    fallback: T2,
}

impl<T, T2> FallbackTaskFrame<T, T2> {
    pub closed spec fn primary_spec(self) -> T {
        self.primary
    }

    pub closed spec fn fallback_spec(self) -> T2 {
        self.fallback
    }

    /// Runs `primary`, then `fallback` when `primary` fails.
    pub fn new(primary: T, fallback: T2) -> (r: Self)
        ensures
            r.primary_spec() == primary,
            r.fallback_spec() == fallback,
    {
        FallbackTaskFrame { primary, fallback }
    }
}

/// A frame that does nothing and succeeds, with the error type `E`.
pub struct NoOperationTaskFrame<E>(PhantomData<E>);

impl<E> NoOperationTaskFrame<E> {
    /// The frame that does nothing.
    pub fn new() -> (r: Self) {
        NoOperationTaskFrame(PhantomData)
    }
}

/// Runs a frame when a predicate holds, and a fallback frame otherwise; a false predicate is
/// an error when `error_on_false` is set.
pub struct ConditionalFrame<T, T2, P> {
    frame: T,
    fallback: T2,
    predicate: P,
    error_on_false: bool,
}

impl<T, T2, P> ConditionalFrame<T, T2, P> {
    pub closed spec fn frame_spec(self) -> T {
        self.frame
    }

    pub closed spec fn fallback_spec(self) -> T2 {
        self.fallback
    }

    pub closed spec fn predicate_spec(self) -> P {
        self.predicate
    }

    pub closed spec fn error_on_false_spec(self) -> bool {
        self.error_on_false
    }

    /// Runs `frame` when `predicate` holds and `fallback` otherwise.
    pub fn new(frame: T, fallback: T2, predicate: P, error_on_false: bool) -> (r: Self)
        ensures
            r.frame_spec() == frame,
            r.fallback_spec() == fallback,
            r.predicate_spec() == predicate,
            r.error_on_false_spec() == error_on_false,
    {
        ConditionalFrame { frame, fallback, predicate, error_on_false }
    }

    /// Whether a false predicate is an error.
    pub fn error_on_false(&self) -> (r: bool)
        ensures
            r == self.error_on_false_spec(),
    {
        self.error_on_false
    }
}

} // verus!
