use chronographer::frame_builder::TaskFrameBuilder;
use chronographer::frames::ConstantBackoffStrategy;
use chronographer::identifier::{SnowflakeID, CHRONOGRAPHER_EPOCH_MS};
use chronographer::scheduler::{
    dispatch_worker_index, keeps_draining, work_step, SchedulerInitConfig, SchedulerWork, WorkAction,
    WorkEvent, WorkPhase, DEFAULT_WORKERS,
};
use std::time::Duration;

#[test]
fn snowflake_counts_within_a_millisecond() {
    let prev = (5u64 << 16) | 3;
    let next = SnowflakeID::next_after(prev, CHRONOGRAPHER_EPOCH_MS + 5).unwrap();
    assert_eq!(next.as_u64(), (5 << 16) | 4);
    assert!(next.as_u64() > prev);
}

#[test]
fn snowflake_restarts_the_sequence_in_a_new_millisecond() {
    let prev = (5u64 << 16) | 7;
    let next = SnowflakeID::next_after(prev, CHRONOGRAPHER_EPOCH_MS + 6).unwrap();
    assert_eq!(next.as_u64(), 6 << 16);
    assert_eq!(next.as_usize(), (6usize) << 16);
}

#[test]
fn snowflake_waits_when_the_sequence_is_used_up() {
    let prev = (5u64 << 16) | 0xFFFF;
    assert_eq!(SnowflakeID::next_after(prev, CHRONOGRAPHER_EPOCH_MS + 5), None);
}

#[test]
fn snowflakes_increase() {
    let mut prev = 0u64;
    for now in [1u64, 1, 1, 2, 2, 9] {
        let id = SnowflakeID::next_after(prev, CHRONOGRAPHER_EPOCH_MS + now).unwrap();
        assert!(id.as_u64() > prev);
        prev = id.as_u64();
    }
    assert_eq!(SnowflakeID::from_value(prev), SnowflakeID::from_value((9 << 16) | 0));
}

#[test]
fn worker_index_takes_the_low_bits() {
    assert_eq!(dispatch_worker_index(13, 8), 5);
    assert_eq!(dispatch_worker_index(usize::MAX, 64), 63);
    assert_eq!(dispatch_worker_index(12345, 1), 0);
}

#[test]
fn init_config_defaults_to_sixty_four_workers() {
    let config = SchedulerInitConfig::new("dispatcher", "store", "engine");
    assert_eq!(config.workers(), DEFAULT_WORKERS);
    assert_eq!(DEFAULT_WORKERS, 64);
    let config = config.with_workers(8);
    assert_eq!(config.workers(), 8);
    assert_eq!(config.into_parts(), ("dispatcher", "store", "engine"));
    assert_ne!(SchedulerWork::Trigger, SchedulerWork::Dispatch);
}

#[test]
fn frame_builder_wraps_layers() {
    let timed = TaskFrameBuilder::new(1u8).with_timeout(Duration::from_millis(250)).build();
    assert_eq!(timed.max_duration(), Duration::from_millis(250));
    let retried = TaskFrameBuilder::new(timed).with_retry(3, Duration::from_secs(1)).build();
    assert_eq!(retried.retries(), 3);
    let instant = TaskFrameBuilder::new(2u8).with_instant_retry(5).build();
    assert_eq!(instant.retries(), 5);
    let custom = TaskFrameBuilder::new(2u8)
        .with_backoff_retry(2, ConstantBackoffStrategy::new(Duration::from_secs(4)))
        .build();
    assert_eq!(custom.retries(), 2);
    let conditional = TaskFrameBuilder::new(3u8).with_condition::<(), _>(true).build();
    assert!(!conditional.error_on_false());
    let with_fallback = TaskFrameBuilder::new(3u8).with_fallback_condition(4u8, false).build();
    assert!(!with_fallback.error_on_false());
    let _fallback = TaskFrameBuilder::new(3u8).with_fallback(4u8).build();
    assert_eq!(ConstantBackoffStrategy::new(Duration::from_secs(2)).delay(), Duration::from_secs(2));
}

#[test]
fn workers_decide_what_follows_each_piece_of_work() {
    assert_eq!(
        work_step(SchedulerWork::Trigger, WorkPhase::LookingUp, WorkEvent::TaskFound(true)),
        (WorkPhase::Triggering, WorkAction::ComputeTrigger)
    );
    assert_eq!(
        work_step(SchedulerWork::Dispatch, WorkPhase::LookingUp, WorkEvent::TaskFound(true)),
        (WorkPhase::Dispatching, WorkAction::Dispatch)
    );
    assert_eq!(
        work_step(SchedulerWork::Dispatch, WorkPhase::LookingUp, WorkEvent::TaskFound(false)),
        (WorkPhase::Finished, WorkAction::NextWork)
    );
    assert_eq!(
        work_step(SchedulerWork::Trigger, WorkPhase::Triggering, WorkEvent::TriggerComputed(true)),
        (WorkPhase::Scheduling, WorkAction::Schedule)
    );
    assert_eq!(
        work_step(SchedulerWork::Trigger, WorkPhase::Triggering, WorkEvent::TriggerComputed(false)),
        (WorkPhase::Finished, WorkAction::RemoveTask)
    );
    assert_eq!(
        work_step(SchedulerWork::Trigger, WorkPhase::Scheduling, WorkEvent::Scheduled(false)),
        (WorkPhase::Finished, WorkAction::RemoveTask)
    );
    assert_eq!(
        work_step(SchedulerWork::Trigger, WorkPhase::Scheduling, WorkEvent::Scheduled(true)),
        (WorkPhase::Finished, WorkAction::NextWork)
    );
    assert_eq!(
        work_step(SchedulerWork::Dispatch, WorkPhase::Dispatching, WorkEvent::Ran(true)),
        (WorkPhase::Finished, WorkAction::QueueReschedule(true))
    );
    assert!(keeps_draining(3, 3));
    assert!(!keeps_draining(3, 5));
}
