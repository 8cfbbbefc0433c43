use vstd::prelude::*;

use std::time::Duration;

use crate::frames::{
    ConditionalFrame, ConstantBackoffStrategy, FallbackTaskFrame, InstantBackoffStrategy,
    NoOperationTaskFrame, RetriableTaskFrame, TimeoutTaskFrame,
};

verus! {

/// Builds a frame by wrapping it, layer after layer, in the frames that give it retries,
/// timeouts, fallbacks and conditions.
pub struct TaskFrameBuilder<T>(T);

impl<T> TaskFrameBuilder<T> {
    pub closed spec fn frame_spec(self) -> T {
        self.0
    }

    /// Starts from `frame`.
    pub fn new(frame: T) -> (r: Self)
        ensures
            r.frame_spec() == frame,
    {
        TaskFrameBuilder(frame)
    }

    /// Retries the frame up to `retries` times (at least one), without waiting.
    pub fn with_instant_retry(self, retries: u32) -> (r: TaskFrameBuilder<
        RetriableTaskFrame<T, InstantBackoffStrategy>,
    >)
        requires
            retries > 0,
        ensures
            r.frame_spec().frame_spec() == self.frame_spec(),
            r.frame_spec().retries_spec() == retries,
    {
        TaskFrameBuilder(RetriableTaskFrame::new(self.0, retries, InstantBackoffStrategy))
    }

    /// Retries the frame up to `retries` times (at least one), waiting `delay` before each.
    pub fn with_retry(self, retries: u32, delay: Duration) -> (r: TaskFrameBuilder<
        RetriableTaskFrame<T, ConstantBackoffStrategy>,
    >)
        requires
            retries > 0,
        ensures
            r.frame_spec().frame_spec() == self.frame_spec(),
            r.frame_spec().retries_spec() == retries,
            r.frame_spec().backoff_spec().delay_spec() == delay,
    {
        TaskFrameBuilder(
            RetriableTaskFrame::new(self.0, retries, ConstantBackoffStrategy::new(delay)),
        )
    }

    /// Retries the frame up to `retries` times (at least one), waiting as `strat` says.
    pub fn with_backoff_retry<B>(self, retries: u32, strat: B) -> (r: TaskFrameBuilder<
        RetriableTaskFrame<T, B>,
    >)
        requires
            retries > 0,
        ensures
            r.frame_spec().frame_spec() == self.frame_spec(),
            r.frame_spec().retries_spec() == retries,
            r.frame_spec().backoff_spec() == strat,
    {
        TaskFrameBuilder(RetriableTaskFrame::new(self.0, retries, strat))
    }

    /// Fails the frame when it runs longer than `max_duration`.
    pub fn with_timeout(self, max_duration: Duration) -> (r: TaskFrameBuilder<TimeoutTaskFrame<T>>)
        ensures
            r.frame_spec().frame_spec() == self.frame_spec(),
            r.frame_spec().max_duration_spec() == max_duration,
    {
        TaskFrameBuilder(TimeoutTaskFrame::new(self.0, max_duration))
    }

    /// Runs `fallback` when the frame fails.
    pub fn with_fallback<T2>(self, fallback: T2) -> (r: TaskFrameBuilder<FallbackTaskFrame<T, T2>>)
        ensures
            r.frame_spec().primary_spec() == self.frame_spec(),
            r.frame_spec().fallback_spec() == fallback,
    {
        TaskFrameBuilder(FallbackTaskFrame::new(self.0, fallback))
    }

    /// Runs the frame only when `predicate` holds, and does nothing otherwise (a false
    /// predicate is no error).
    pub fn with_condition<E, P>(self, predicate: P) -> (r: TaskFrameBuilder<
        ConditionalFrame<T, NoOperationTaskFrame<E>, P>,
    >)
        ensures
            r.frame_spec().frame_spec() == self.frame_spec(),
            r.frame_spec().predicate_spec() == predicate,
            !r.frame_spec().error_on_false_spec(),
    {
        TaskFrameBuilder(ConditionalFrame::new(self.0, NoOperationTaskFrame::new(), predicate, false))
    }

    /// Runs the frame when `predicate` holds and `fallback` otherwise (a false predicate is no
    /// error).
    pub fn with_fallback_condition<T2, P>(self, fallback: T2, predicate: P) -> (r: TaskFrameBuilder<
        ConditionalFrame<T, T2, P>,
    >)
        ensures
            r.frame_spec().frame_spec() == self.frame_spec(),
            r.frame_spec().fallback_spec() == fallback,
            r.frame_spec().predicate_spec() == predicate,
            !r.frame_spec().error_on_false_spec(),
    {
        TaskFrameBuilder(ConditionalFrame::new(self.0, fallback, predicate, false))
    }

    /// The frame built so far.
    pub fn build(self) -> (r: T)
        ensures
            r == self.frame_spec(),
    {
        self.0
    }
}

} // verus!
