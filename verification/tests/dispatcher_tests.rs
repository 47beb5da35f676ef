use waasabi_matrix::dispatcher::DispatchError;
use waasabi_matrix::dispatcher::RateLimitedDispatcher;
use waasabi_matrix::dispatcher::TokenBucket;
use waasabi_matrix::dispatcher::DISPATCH_QUOTA_PER_MINUTE;

const SECOND: u64 = 1_000_000_000;

#[test]
fn tasks_come_out_in_submission_order() {
    let mut d = RateLimitedDispatcher::new();
    for task in [10u64, 20, 30, 40] {
        assert_eq!(d.submit(task), Ok(()));
    }
    let mut seen = Vec::new();
    while let Some(task) = d.take_next() {
        seen.push(task);
    }
    assert_eq!(seen, vec![10, 20, 30, 40]);
}

#[test]
fn interleaved_producers_share_one_global_order() {
    // two producers alternating; whatever the interleaving, execution
    // follows the single order the queue accepted the tasks in
    let mut d = RateLimitedDispatcher::new();
    let producer_a = [1u64, 3, 5];
    let producer_b = [2u64, 4, 6];
    for i in 0..3 {
        d.submit(producer_a[i]).unwrap();
        d.submit(producer_b[i]).unwrap();
    }
    let mut seen = Vec::new();
    while let Some(task) = d.take_next() {
        seen.push(task);
    }
    assert_eq!(seen, vec![1, 2, 3, 4, 5, 6]);
}

#[test]
fn submit_after_disconnect_drops_the_task_without_error() {
    let mut d = RateLimitedDispatcher::new();
    d.submit(1).unwrap();
    d.disconnect();
    assert_eq!(d.submit(2), Err(DispatchError::SendError));
    // fire-and-forget never errors; the task is merely dropped
    let accepted = d.launch(3);
    assert!(!accepted);
    assert_eq!(d.take_next(), Some(1));
    assert_eq!(d.take_next(), None);
}

#[test]
fn burst_is_limited_to_the_quota() {
    let quota = DISPATCH_QUOTA_PER_MINUTE;
    let mut d = RateLimitedDispatcher::new();
    let mut bucket = TokenBucket::per_minute(quota, 0);
    // ten times the quota arrives at once
    for task in 0..(10 * quota as u64) {
        d.submit(task).unwrap();
    }
    // at the same instant, exactly the burst allowance gets through
    let mut executed: u64 = 0;
    while d.execute_ready(&mut bucket, 0).is_some() {
        executed += 1;
    }
    assert_eq!(executed, quota as u64);
    // one second later one more token has grown back
    assert_eq!(d.execute_ready(&mut bucket, SECOND), Some(quota as u64));
    assert!(d.execute_ready(&mut bucket, SECOND).is_none());
    // half a minute in, exactly the refilled tokens get through
    let mut more: u64 = 0;
    while d.execute_ready(&mut bucket, 30 * SECOND).is_some() {
        more += 1;
    }
    assert_eq!(more, 29);
    // in total never more than the burst plus one per second elapsed
    assert_eq!(executed + 1 + more, quota as u64 + 30);
}

#[test]
fn tokens_do_not_pile_up_beyond_the_burst() {
    let mut bucket = TokenBucket::per_minute(60, 0);
    let mut d = RateLimitedDispatcher::new();
    for task in 0..1000u64 {
        d.submit(task).unwrap();
    }
    // after an hour idle the bucket still holds only the burst allowance
    let hour = 3600 * SECOND;
    let mut executed = 0;
    while d.execute_ready(&mut bucket, hour).is_some() {
        executed += 1;
    }
    assert_eq!(executed, 60);
}

#[test]
fn consumer_without_pending_tasks_spends_no_token() {
    let mut bucket = TokenBucket::per_minute(60, 0);
    let mut d = RateLimitedDispatcher::new();
    assert!(d.execute_ready(&mut bucket, 0).is_none());
    d.submit(7).unwrap();
    // the idle poll above did not consume the burst
    let mut executed = 0;
    while d.execute_ready(&mut bucket, 0).is_some() {
        executed += 1;
    }
    assert_eq!(executed, 1);
}
