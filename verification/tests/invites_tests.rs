use waasabi_matrix::invites::InviteRetryQueue;
use waasabi_matrix::invites::INVITE_ATTEMPTS;

#[test]
fn a_failed_immediate_join_books_the_room() {
    let mut q = InviteRetryQueue::new();
    let room = "!r:hs".to_string();
    let joined = q.record_invite(&room, false);
    assert!(!joined);
    assert!(q.is_pending(&room));
    assert_eq!(q.attempts_for(&room), Some(INVITE_ATTEMPTS - 1));
}

#[test]
fn a_successful_immediate_join_leaves_no_entry() {
    let mut q = InviteRetryQueue::new();
    let room = "!r:hs".to_string();
    let joined = q.record_invite(&room, true);
    assert!(joined);
    assert!(!q.is_pending(&room));
    assert_eq!(q.len(), 0);
}

#[test]
fn reinviting_resets_the_budget() {
    let mut q = InviteRetryQueue::new();
    let room = "!r:hs".to_string();
    q.ingest_invite(&room);
    let outcomes = vec![false];
    q.retry_tick(&outcomes);
    q.retry_tick(&outcomes);
    assert_eq!(q.attempts_for(&room), Some(INVITE_ATTEMPTS - 2));
    q.ingest_invite(&room);
    assert_eq!(q.attempts_for(&room), Some(INVITE_ATTEMPTS));
    assert_eq!(q.len(), 1);
}

#[test]
fn removed_exactly_after_the_last_failure_never_before() {
    let mut q = InviteRetryQueue::new();
    let room = "!r:hs".to_string();
    q.ingest_invite(&room);
    // the budget covers INVITE_ATTEMPTS failing cycles; the room stays
    // pending through all but the last and is gone exactly after it
    for cycle in 1..=INVITE_ATTEMPTS {
        assert!(q.is_pending(&room), "gone before cycle {}", cycle);
        let outcomes = vec![false; q.len()];
        let joined = q.retry_tick(&outcomes);
        assert!(joined.is_empty());
        if cycle < INVITE_ATTEMPTS {
            assert_eq!(q.attempts_for(&room), Some(INVITE_ATTEMPTS - cycle));
        }
    }
    assert!(!q.is_pending(&room));
    assert_eq!(q.len(), 0);
}

#[test]
fn success_on_the_third_retry_reports_the_room_and_clears_it() {
    // two failures, then success on the third cycle
    let mut q = InviteRetryQueue::new();
    let room = "R1".to_string();
    q.ingest_invite(&room);
    assert!(q.retry_tick(&vec![false]).is_empty());
    assert!(q.retry_tick(&vec![false]).is_empty());
    let joined = q.retry_tick(&vec![true]);
    assert_eq!(joined, vec!["R1".to_string()]);
    assert!(!q.is_pending(&room));
    assert_eq!(q.len(), 0);
}

#[test]
fn a_cycle_handles_every_entry_in_queue_order() {
    let mut q = InviteRetryQueue::new();
    let (a, b, c) = ("!a:hs".to_string(), "!b:hs".to_string(), "!c:hs".to_string());
    q.ingest_invite(&a);
    q.ingest_invite(&b);
    q.ingest_invite(&c);
    assert_eq!(q.pending_rooms(), vec![a.clone(), b.clone(), c.clone()]);
    // a succeeds, b fails, c succeeds
    let joined = q.retry_tick(&vec![true, false, true]);
    assert_eq!(joined, vec![a.clone(), c.clone()]);
    assert_eq!(q.pending_rooms(), vec![b.clone()]);
    assert_eq!(q.attempts_for(&b), Some(INVITE_ATTEMPTS - 1));
}
