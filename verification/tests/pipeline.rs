use ommapin::backoff::{backoff_seconds, retry_delay_seconds};
use ommapin::bookmark::{BookmarkPayload, SubmitIntent};
use ommapin::pinboard::{evaluate_response, PinboardError};
use ommapin::queue::QueueStore;
use ommapin::session::{settle_submission, validate_token};
use ommapin::worker::apply_send_outcome;

fn sample_payload() -> BookmarkPayload {
    BookmarkPayload {
        url: "https://example.com/".to_string(),
        title: "Example".to_string(),
        notes: "some notes".to_string(),
        tags: vec!["tech".to_string(), "rust".to_string()],
        private: true,
        read_later: false,
        intent: SubmitIntent::Create,
    }
}

#[test]
fn backoff_is_bounded() {
    assert_eq!(backoff_seconds(1), 15);
    assert_eq!(backoff_seconds(4), 900);
    assert_eq!(backoff_seconds(20), 3600);
}

#[test]
fn retry_delay_respects_retry_after_override() {
    assert_eq!(retry_delay_seconds(1, Some(120)), 120);
    assert_eq!(retry_delay_seconds(3, Some(5)), 180);
}

#[test]
fn backoff_schedule_exact_values() {
    assert_eq!(retry_delay_seconds(0, None), 15);
    assert_eq!(retry_delay_seconds(1, None), 15);
    assert_eq!(retry_delay_seconds(2, None), 45);
    assert_eq!(retry_delay_seconds(3, None), 180);
    assert_eq!(retry_delay_seconds(4, None), 900);
    assert_eq!(retry_delay_seconds(5, None), 3600);
    assert_eq!(retry_delay_seconds(11, None), 3600);
}

#[test]
fn enqueued_entry_becomes_due_only_when_time_arrives() {
    let mut q = QueueStore::new();
    let payload = sample_payload();
    let id = q.enqueue(&payload, "network error", 15, 1000);
    assert!(q.due_items(1, 1000).is_empty());
    assert!(q.due_items(1, 1014).is_empty());
    let due = q.due_items(1, 1015);
    assert_eq!(due.len(), 1);
    assert_eq!(due[0].id, id);
    assert_eq!(due[0].attempt_count, 0);
}

#[test]
fn enqueue_floors_delay_at_minimum() {
    let mut q = QueueStore::new();
    let payload = sample_payload();
    let id = q.enqueue(&payload, "err", 0, 100);
    assert!(q.due_items(1, 102).is_empty());
    let due = q.due_items(1, 103);
    assert_eq!(due.len(), 1);
    assert_eq!(due[0].id, id);
}

#[test]
fn queued_payload_reads_back_equal() {
    let mut q = QueueStore::new();
    let payload = sample_payload();
    let id = q.enqueue(&payload, "offline", 3, 50);
    let listed = q.list(50);
    assert_eq!(listed.len(), 1);
    assert_eq!(listed[0].id, id);
    assert_eq!(listed[0].payload, payload);
    assert_eq!(listed[0].last_error.as_deref(), Some("offline"));
    let due = q.due_items(5, 100);
    assert_eq!(due.len(), 1);
    assert_eq!(due[0].payload, payload);
}

#[test]
fn twelve_failures_turn_entry_terminally_failed() {
    let mut q = QueueStore::new();
    let payload = sample_payload();
    let id = q.enqueue(&payload, "first", 3, 0);
    for attempts in 0..12 {
        q.mark_retry(id, attempts, "still failing", None, 0);
    }
    assert!(q.due_items(10, i64::MAX - 10_000).is_empty());
    assert!(q.list(10).is_empty());
    let stats = q.stats();
    assert_eq!(stats.pending, 0);
    assert_eq!(stats.failed, 1);
}

#[test]
fn eleven_failures_keep_entry_pending() {
    let mut q = QueueStore::new();
    let payload = sample_payload();
    let id = q.enqueue(&payload, "first", 3, 0);
    for attempts in 0..11 {
        q.mark_retry(id, attempts, "still failing", None, 0);
    }
    let stats = q.stats();
    assert_eq!(stats.pending, 1);
    assert_eq!(stats.failed, 1);
    let due = q.due_items(10, 10_000);
    assert_eq!(due.len(), 1);
    assert_eq!(due[0].id, id);
    assert_eq!(due[0].attempt_count, 11);
}

#[test]
fn mark_sent_removes_entry_for_good() {
    let mut q = QueueStore::new();
    let payload = sample_payload();
    let id = q.enqueue(&payload, "err", 3, 0);
    let other = q.enqueue(&payload, "err", 3, 0);
    q.mark_sent(id);
    let due = q.due_items(10, 10_000);
    assert_eq!(due.len(), 1);
    assert_eq!(due[0].id, other);
    assert!(q.list(10).iter().all(|item| item.id != id));
    assert_eq!(q.stats().pending, 1);
}

#[test]
fn due_items_come_earliest_deadline_first() {
    let mut q = QueueStore::new();
    let payload = sample_payload();
    let slow = q.enqueue(&payload, "e", 900, 0);
    let fast = q.enqueue(&payload, "e", 15, 0);
    let mid = q.enqueue(&payload, "e", 45, 0);
    let due = q.due_items(10, 10_000);
    assert_eq!(due.len(), 3);
    assert_eq!(due[0].id, fast);
    assert_eq!(due[1].id, mid);
    assert_eq!(due[2].id, slow);
    let capped = q.due_items(2, 10_000);
    assert_eq!(capped.len(), 2);
    assert_eq!(capped[0].id, fast);
    assert_eq!(capped[1].id, mid);
}

#[test]
fn stats_count_retried_pending_as_failed() {
    let mut q = QueueStore::new();
    let payload = sample_payload();
    let first = q.enqueue(&payload, "e", 3, 0);
    let _second = q.enqueue(&payload, "e", 3, 0);
    q.mark_retry(first, 0, "again", None, 0);
    let stats = q.stats();
    assert_eq!(stats.pending, 2);
    assert_eq!(stats.failed, 1);
}

#[test]
fn worker_removes_entry_on_success() {
    let mut q = QueueStore::new();
    let payload = sample_payload();
    let _id = q.enqueue(&payload, "e", 3, 0);
    let due = q.due_items(1, 100);
    assert_eq!(due.len(), 1);
    let halt = apply_send_outcome(&mut q, &due[0], &Ok(()), 100);
    assert!(!halt);
    assert_eq!(q.stats().pending, 0);
    assert!(q.due_items(1, 10_000).is_empty());
}

#[test]
fn worker_halts_batch_on_rate_limit() {
    let mut q = QueueStore::new();
    let payload = sample_payload();
    let id = q.enqueue(&payload, "e", 3, 0);
    let due = q.due_items(1, 100);
    let outcome: Result<(), PinboardError> = Err(PinboardError::RateLimited {
        retry_after_secs: 120,
        message: "slow down".to_string(),
    });
    let halt = apply_send_outcome(&mut q, &due[0], &outcome, 100);
    assert!(halt);
    // rescheduled at now + max(hint, base) = 100 + 120
    assert!(q.due_items(1, 219).is_empty());
    let due2 = q.due_items(1, 220);
    assert_eq!(due2.len(), 1);
    assert_eq!(due2[0].id, id);
    assert_eq!(due2[0].attempt_count, 1);
    assert_eq!(due2[0].last_error.as_deref(), Some("slow down"));
}

#[test]
fn worker_continues_batch_on_other_failures() {
    let mut q = QueueStore::new();
    let payload = sample_payload();
    let _id = q.enqueue(&payload, "e", 3, 0);
    let due = q.due_items(1, 100);
    let outcome: Result<(), PinboardError> = Err(PinboardError::Network {
        message: "connection reset".to_string(),
    });
    let halt = apply_send_outcome(&mut q, &due[0], &outcome, 100);
    assert!(!halt);
    assert_eq!(q.stats().pending, 1);
}

#[test]
fn settle_reports_sent_without_touching_queue() {
    let mut q = QueueStore::new();
    let payload = sample_payload();
    let r = settle_submission(&mut q, &payload, &Ok(()), 100).unwrap();
    assert_eq!(r.status, "sent");
    assert_eq!(r.message, "Saved to Pinboard");
    assert!(!r.queued);
    assert_eq!(q.stats().pending, 0);
}

#[test]
fn settle_queues_retryable_failure_with_hint() {
    let mut q = QueueStore::new();
    let payload = sample_payload();
    let outcome: Result<(), PinboardError> = Err(PinboardError::RateLimited {
        retry_after_secs: 120,
        message: "too many requests".to_string(),
    });
    let r = settle_submission(&mut q, &payload, &outcome, 100).unwrap();
    assert_eq!(r.status, "queued");
    assert!(r.queued);
    assert_eq!(
        r.message,
        "Pinboard unavailable right now. Queued for retry: too many requests"
    );
    assert!(q.due_items(1, 219).is_empty());
    assert_eq!(q.due_items(1, 220).len(), 1);
}

#[test]
fn settle_queues_with_default_delay_without_hint() {
    let mut q = QueueStore::new();
    let payload = sample_payload();
    let outcome: Result<(), PinboardError> = Err(PinboardError::Network {
        message: "offline".to_string(),
    });
    let r = settle_submission(&mut q, &payload, &outcome, 100).unwrap();
    assert!(r.queued);
    assert!(q.due_items(1, 114).is_empty());
    assert_eq!(q.due_items(1, 115).len(), 1);
}

#[test]
fn settle_rejects_terminal_failure_without_persisting() {
    let mut q = QueueStore::new();
    let payload = sample_payload();
    let outcome: Result<(), PinboardError> = Err(PinboardError::Api {
        code: "item already exists".to_string(),
        retryable: false,
    });
    let err = settle_submission(&mut q, &payload, &outcome, 100).unwrap_err();
    assert_eq!(err, "Pinboard rejected bookmark: item already exists");
    assert_eq!(q.stats().pending, 0);
    assert!(q.list(10).is_empty());
}

#[test]
fn validate_token_requires_separator() {
    assert_eq!(validate_token("  user:TOKEN  ").unwrap(), "user:TOKEN");
    let err = validate_token("justauser").unwrap_err();
    assert_eq!(err, "Pinboard token should look like username:TOKEN");
}

#[test]
fn rate_limited_response_carries_header_delay() {
    let r = evaluate_response(429, Some("120"), "");
    match r {
        Err(PinboardError::RateLimited {
            retry_after_secs,
            ..
        }) => assert_eq!(retry_after_secs, 120),
        other => panic!("expected a rate-limited classification, got {:?}", other),
    }
}

#[test]
fn now_unix_is_nonnegative() {
    assert!(ommapin::clock::now_unix() >= 0);
}

#[test]
fn due_order_breaks_ties_by_identity() {
    let mut q = QueueStore::new();
    let payload = sample_payload();
    let a = q.enqueue(&payload, "e", 60, 0);
    let b = q.enqueue(&payload, "e", 60, 0);
    let due = q.due_items(10, 100);
    assert_eq!(due.len(), 2);
    assert!(a < b);
    assert_eq!(due[0].id, a);
    assert_eq!(due[1].id, b);
}

#[test]
fn retry_after_header_is_parsed_strictly() {
    let cases = [
        (" +120 ", 120),
        ("120", 120),
        ("0", 30),
        ("-5", 30),
        ("99999999999999999999", 30),
        ("12abc", 30),
        ("", 30),
    ];
    for (header, expected) in cases {
        let err = evaluate_response(429, Some(header), "").unwrap_err();
        assert_eq!(
            err.retry_after_secs(),
            Some(expected),
            "header {header:?} should give {expected}"
        );
    }
}
