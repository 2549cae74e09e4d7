use logpipe::batch::{BatchConfig, RetryConfig};
use logpipe::pipeline::{
    conclude, flatten, may_start, reserve, Batcher, Flight, FlushStep, Heard, OnError, TaskEnd,
};
use logpipe::{Error, LogEvent, PipelineBuilder};

fn event(message: &str) -> LogEvent {
    LogEvent::new(message.to_string())
}

#[test]
fn waits_double_up_to_a_limit() {
    let retry = RetryConfig { max_attempts: 9, initial_backoff_ms: 500, max_backoff_ms: 30_000 };
    let waits: Vec<u64> = (0..9).map(|n| retry.backoff(n)).collect();
    assert_eq!(waits, [500, 500, 1_000, 2_000, 4_000, 8_000, 16_000, 30_000, 30_000]);
    assert_eq!(retry.backoff(usize::MAX / 1_000_000_000_000), 30_000);
    let short = RetryConfig { max_attempts: 1, initial_backoff_ms: 9, max_backoff_ms: 3 };
    assert_eq!(short.backoff(1), 3);
    let none = RetryConfig { max_attempts: 1, initial_backoff_ms: 0, max_backoff_ms: 3 };
    assert_eq!(none.backoff(40), 0);
}

fn batch_of(messages: &[&str], receipt: Option<u32>) -> Heard<u32> {
    Heard::Batch { events: messages.iter().map(|m| event(m)).collect(), receipt }
}

fn flight_of(batches: Vec<Heard<u32>>) -> Flight<u32> {
    let mut b: Batcher<u32> = Batcher::new();
    for heard in batches {
        b.hear(heard, 0, &BatchConfig::default());
    }
    b.hear(Heard::Deadline, 0, &BatchConfig::default());
    b.hand_over().unwrap()
}

#[test]
fn a_batch_is_full_by_count_or_by_size() {
    let batch = BatchConfig::default().max_events(2).max_bytes(1_000_000).timeout(100);
    let mut b: Batcher<u32> = Batcher::new();
    b.hear(batch_of(&["a"], None), 7, &batch);
    assert!(!b.due);
    assert_eq!(b.deadline, Some(107));
    b.hear(batch_of(&["b"], Some(1)), 50, &batch);
    assert!(b.due);
    assert_eq!(b.deadline, Some(107));
    let small = BatchConfig::default().max_bytes(200);
    let mut b: Batcher<u32> = Batcher::new();
    b.hear(batch_of(&[""], None), 0, &small);
    assert!(!b.due);
    b.hear(batch_of(&[""], None), 0, &small);
    assert!(b.due);
}

#[test]
fn receipts_are_given_for_what_is_stored() {
    let retry = RetryConfig { max_attempts: 2, initial_backoff_ms: 10, max_backoff_ms: 100 };
    let mut f = flight_of(vec![batch_of(&["a", "b"], Some(1)), batch_of(&["c"], Some(2))]);
    let messages: Vec<&str> = f.pending.events.iter().map(|e| e.message.as_str()).collect();
    assert_eq!(messages, ["a", "b", "c"]);
    assert!(matches!(f.start_flush(), FlushStep::Write));
    assert!(matches!(f.written(false, &retry, OnError::Stop), FlushStep::Wait(10)));
    match f.written(true, &retry, OnError::Stop) {
        FlushStep::Done(receipts) => assert_eq!(receipts, [1, 2]),
        _ => panic!("stored"),
    }
    assert!(f.pending.events.is_empty());
}

#[test]
fn a_batch_that_fails_gives_no_receipts() {
    let retry = RetryConfig { max_attempts: 1, initial_backoff_ms: 10, max_backoff_ms: 100 };
    let mut f = flight_of(vec![batch_of(&["a"], Some(1))]);
    assert!(matches!(f.start_flush(), FlushStep::Write));
    assert!(matches!(f.written(false, &retry, OnError::Stop), FlushStep::Failed));
    assert_eq!(f.pending.receipts, [1]);
    assert!(matches!(f.start_flush(), FlushStep::Write));
    match f.written(false, &retry, OnError::Drop) {
        FlushStep::Done(receipts) => assert!(receipts.is_empty()),
        _ => panic!("dropped"),
    }
    assert!(f.pending.events.is_empty());
}

#[test]
fn a_batch_without_events_is_done_at_once() {
    let mut f = flight_of(vec![batch_of(&[], Some(7))]);
    match f.start_flush() {
        FlushStep::Done(receipts) => assert_eq!(receipts, [7]),
        _ => panic!("nothing to store"),
    }
    assert!(f.pending.receipts.is_empty());
}

#[test]
fn a_batch_takes_no_more_room_than_there_is() {
    assert_eq!(reserve(&Vec::new(), 10), 1);
    assert_eq!(reserve(&vec![event("x")], 1_000), 161);
    assert_eq!(reserve(&vec![event("x"), event("y")], 200), 200);
}

#[test]
fn tasks_that_break_off_are_errors() {
    assert!(flatten(TaskEnd::Ended(Ok(()))).is_ok());
    let err = flatten(TaskEnd::Ended(Err(Error::sink("full")))).err().unwrap();
    assert!(matches!(err, Error::Sink(_)));
    let err = flatten(TaskEnd::Broken("boom".to_string())).err().unwrap();
    assert!(matches!(err, Error::Other(_)));
    assert!(err.message().contains("任务异常退出: boom"), "{}", err.message());
}

#[test]
fn a_pipeline_needs_both_ends() {
    let err = PipelineBuilder::new().build(false, true).err().unwrap();
    assert!(err.message().contains("缺少 source"), "{}", err.message());
    let err = PipelineBuilder::new().build(true, false).err().unwrap();
    assert!(err.message().contains("缺少 sink"), "{}", err.message());
    let plan = PipelineBuilder::new().build(true, true).ok().unwrap();
    assert_eq!(plan.buffer, 64);
    assert_eq!(plan.max_inflight_bytes, 64 * 1024 * 1024);
    assert_eq!(plan.batch.max_events, 10_000);
    assert_eq!(plan.retry.max_attempts, 5);
    assert_eq!(plan.on_error, OnError::Stop);
    let plan = PipelineBuilder::new()
        .buffer(0)
        .max_inflight_bytes(0)
        .on_error(OnError::Drop)
        .require_healthy(true)
        .build(true, true)
        .ok()
        .unwrap();
    assert_eq!(plan.buffer, 1);
    assert_eq!(plan.max_inflight_bytes, 1);
    assert!(plan.require_healthy);
    assert_eq!(plan.on_error, OnError::Drop);
}

#[test]
fn a_pipeline_reacts_to_what_it_hears() {
    let batch = BatchConfig::default().max_events(2);
    let mut b: Batcher<u32> = Batcher::new();
    assert!(b.listens() && !b.is_over());
    b.hear(batch_of(&["a"], Some(1)), 5, &batch);
    assert!(b.listens() && b.hand_over().is_none());
    assert_eq!(b.deadline, Some(1_005));
    b.hear(Heard::Deadline, 1_005, &batch);
    assert!(!b.listens());
    let first = b.hand_over().unwrap();
    assert_eq!(first.pending.receipts, [1]);
    assert_eq!(b.deadline, None);
    assert!(b.listens());
    b.hear(Heard::Closed, 1_007, &batch);
    assert!(!b.listens() && !b.is_over());
    assert!(b.hand_over().unwrap().pending.events.is_empty());
    assert!(b.is_over());
}

#[test]
fn batches_are_gathered_while_one_is_stored() {
    let batch = BatchConfig::default().max_events(2);
    let retry = RetryConfig::default();
    let mut b: Batcher<u32> = Batcher::new();
    b.hear(batch_of(&["a", "b"], Some(1)), 0, &batch);
    let mut first = b.hand_over().unwrap();
    assert!(matches!(first.start_flush(), FlushStep::Write));
    // The sink is at work: the next batch comes in and is due, but has to wait.
    b.hear(batch_of(&["c", "d"], Some(2)), 10, &batch);
    assert!(b.due && !b.listens());
    match first.written(true, &retry, OnError::Stop) {
        FlushStep::Done(receipts) => assert_eq!(receipts, [1]),
        _ => panic!("stored"),
    }
    let second = b.hand_over().unwrap();
    assert_eq!(second.pending.receipts, [2]);
    assert_eq!(second.pending.events[0].message, "c");
}

#[test]
fn what_failed_first_is_reported() {
    let err = conclude(Err(Error::sink("full")), TaskEnd::Ended(Err(Error::other("closed"))));
    assert_eq!(err.err().unwrap().message(), "full");
    let err = conclude(Ok(()), TaskEnd::Broken("boom".to_string())).err().unwrap();
    assert!(err.message().contains("boom"));
    assert!(conclude(Ok(()), TaskEnd::Ended(Ok(()))).is_ok());
}

#[test]
fn a_sink_that_is_not_fit_stops_the_start_if_it_has_to_be() {
    assert!(may_start(Err(Error::sink("no table")), true).is_err());
    assert!(may_start(Err(Error::sink("no table")), false).is_ok());
    assert!(may_start(Ok(()), true).is_ok());
}
