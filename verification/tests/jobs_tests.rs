use struxio::jobs::{
    event_for_error, retryable_http_status, step, ChildCounts, DeliveryAction, JobError, JobEvent,
    JobSnapshot, JobStatus, RetryPolicy, Retryability, PPM,
};
use struxio::models::BatchStatus;

/// A jitter sample given as a fraction of one, in parts per million.
fn unit(fraction: f64) -> u32 {
    (fraction * PPM as f64).round() as u32
}

fn policy() -> RetryPolicy {
    RetryPolicy::new(3, 100, 800, unit(0.25))
}

fn walk(events: &[JobEvent]) -> (JobSnapshot, Vec<DeliveryAction>) {
    let mut snap = JobSnapshot::pending();
    let mut actions = Vec::new();
    for event in events {
        let decision = step(snap, *event, policy(), unit(0.5));
        snap = decision.snapshot;
        actions.push(decision.action);
    }
    (snap, actions)
}

#[test]
fn pending_delivery_claims_attempt_one_and_executes() {
    let decision = step(JobSnapshot::pending(), JobEvent::Deliver, policy(), unit(0.5));
    assert_eq!(decision.snapshot.status, JobStatus::Processing);
    assert_eq!(decision.snapshot.attempt, 1);
    assert_eq!(decision.action, DeliveryAction::Execute);
}

#[test]
fn processing_reclaim_does_not_burn_an_attempt() {
    let current = JobSnapshot { status: JobStatus::Processing, attempt: 1 };
    let decision = step(current, JobEvent::Deliver, policy(), unit(0.5));
    assert_eq!(decision.snapshot.attempt, 1);
    assert_eq!(decision.action, DeliveryAction::Execute);
}

#[test]
fn success_is_acked_and_becomes_completed() {
    let current = JobSnapshot { status: JobStatus::Processing, attempt: 1 };
    let decision = step(current, JobEvent::Succeed, policy(), unit(0.5));
    assert_eq!(decision.snapshot.status, JobStatus::Completed);
    assert_eq!(decision.action, DeliveryAction::AckComplete);
}

#[test]
fn retryable_failure_schedules_retry_before_max_attempts() {
    let current = JobSnapshot { status: JobStatus::Processing, attempt: 1 };
    let decision = step(current, JobEvent::FailRetryable, policy(), unit(0.5));
    assert_eq!(decision.snapshot.status, JobStatus::Retrying);
    assert_eq!(decision.snapshot.attempt, 1);
    match decision.action {
        DeliveryAction::AckRetry { delay_ms } => assert_eq!(delay_ms, 100),
        other => panic!("expected retry, got {other:?}"),
    }
}

#[test]
fn retryable_failure_dead_letters_when_attempts_exhausted() {
    let current = JobSnapshot { status: JobStatus::Processing, attempt: 3 };
    let decision = step(current, JobEvent::FailRetryable, policy(), unit(0.5));
    assert_eq!(decision.snapshot.status, JobStatus::Failed);
    assert_eq!(decision.action, DeliveryAction::AckDeadLetter);
}

#[test]
fn permanent_failure_dead_letters_on_first_attempt() {
    let current = JobSnapshot { status: JobStatus::Processing, attempt: 1 };
    let decision = step(current, JobEvent::FailPermanent, policy(), unit(0.5));
    assert_eq!(decision.snapshot.status, JobStatus::Failed);
    assert_eq!(decision.action, DeliveryAction::AckDeadLetter);
}

#[test]
fn terminal_redelivery_is_idempotent_skip() {
    for status in [JobStatus::Completed, JobStatus::Failed] {
        let current = JobSnapshot { status, attempt: 2 };
        let decision = step(current, JobEvent::Deliver, policy(), unit(0.5));
        assert_eq!(decision.snapshot, current);
        assert_eq!(decision.action, DeliveryAction::AckSkip);

        let succeed = step(current, JobEvent::Succeed, policy(), unit(0.5));
        assert_eq!(succeed.action, DeliveryAction::AckSkip);
        assert_eq!(succeed.snapshot.status, status);

        let fail = step(current, JobEvent::FailRetryable, policy(), unit(0.5));
        assert_eq!(fail.action, DeliveryAction::AckSkip);
        assert_eq!(fail.snapshot.status, status);
    }
}

#[test]
fn malformed_payload_is_dead_lettered_without_running() {
    let decision = step(JobSnapshot::pending(), JobEvent::Malformed, policy(), unit(0.5));
    assert_eq!(decision.snapshot.status, JobStatus::Pending);
    assert_eq!(decision.action, DeliveryAction::AckMalformed);
}

#[test]
fn retry_then_success_path() {
    let (snap, actions) = walk(&[
        JobEvent::Deliver,
        JobEvent::FailRetryable,
        JobEvent::Deliver,
        JobEvent::Succeed,
    ]);
    assert_eq!(snap.status, JobStatus::Completed);
    assert_eq!(snap.attempt, 2);
    assert_eq!(
        actions,
        vec![
            DeliveryAction::Execute,
            DeliveryAction::AckRetry { delay_ms: 100 },
            DeliveryAction::Execute,
            DeliveryAction::AckComplete,
        ]
    );
}

#[test]
fn retry_then_exhaustion_path() {
    let (snap, actions) = walk(&[
        JobEvent::Deliver,
        JobEvent::FailRetryable,
        JobEvent::Deliver,
        JobEvent::FailRetryable,
        JobEvent::Deliver,
        JobEvent::FailRetryable,
    ]);
    assert_eq!(snap.status, JobStatus::Failed);
    assert_eq!(snap.attempt, 3);
    assert_eq!(actions.last(), Some(&DeliveryAction::AckDeadLetter));
    assert!(actions.iter().filter(|a| **a == DeliveryAction::Execute).count() == 3);
}

#[test]
fn backoff_is_exponential_and_capped_without_jitter() {
    let policy = policy();
    assert_eq!(policy.backoff(1, unit(0.5)), 100);
    assert_eq!(policy.backoff(2, unit(0.5)), 200);
    assert_eq!(policy.backoff(3, unit(0.5)), 400);
    assert_eq!(policy.backoff(4, unit(0.5)), 800);
    assert_eq!(policy.backoff(8, unit(0.5)), 800);
}

#[test]
fn backoff_jitter_stays_within_configured_ratio() {
    let policy = policy();
    let low = policy.backoff(1, unit(0.0));
    let high = policy.backoff(1, unit(1.0));
    assert_eq!(low, 75);
    assert_eq!(high, 125);
}

#[test]
fn retryability_is_explicit_on_job_errors() {
    let retry = JobError::retryable("429 from provider".to_string());
    let permanent = JobError::permanent("document not found".to_string());
    assert_eq!(retry.retryability(), Retryability::Retryable);
    assert_eq!(permanent.retryability(), Retryability::Permanent);
    assert_eq!(event_for_error(&retry), JobEvent::FailRetryable);
    assert_eq!(event_for_error(&permanent), JobEvent::FailPermanent);
}

#[test]
fn provider_http_status_retryability() {
    for status in [408, 429, 500, 502, 503, 504] {
        assert!(retryable_http_status(status), "{status}");
    }
    for status in [400, 401, 403, 404, 422] {
        assert!(!retryable_http_status(status), "{status}");
    }
}

#[test]
fn batch_stays_processing_while_any_child_is_retrying() {
    let counts = ChildCounts { pending: 0, processing: 0, retrying: 1, completed: 2, failed: 1 };
    assert_eq!(counts.batch_status(), BatchStatus::Processing);
    assert!(!counts.is_terminal());
}

#[test]
fn batch_terminal_states_are_honest() {
    assert_eq!(
        ChildCounts { pending: 3, processing: 0, retrying: 0, completed: 0, failed: 0 }.batch_status(),
        BatchStatus::Pending
    );
    assert_eq!(
        ChildCounts { pending: 0, processing: 1, retrying: 0, completed: 1, failed: 0 }.batch_status(),
        BatchStatus::Processing
    );
    assert_eq!(
        ChildCounts { pending: 0, processing: 0, retrying: 0, completed: 3, failed: 0 }.batch_status(),
        BatchStatus::Completed
    );
    assert_eq!(
        ChildCounts { pending: 0, processing: 0, retrying: 0, completed: 2, failed: 1 }.batch_status(),
        BatchStatus::PartiallyCompleted
    );
    assert_eq!(
        ChildCounts { pending: 0, processing: 0, retrying: 0, completed: 0, failed: 3 }.batch_status(),
        BatchStatus::Failed
    );
}

#[test]
fn counters_do_not_change_on_skip_of_already_terminal_job() {
    let before = ChildCounts { pending: 0, processing: 0, retrying: 0, completed: 1, failed: 0 };
    let decision = step(
        JobSnapshot { status: JobStatus::Completed, attempt: 1 },
        JobEvent::Succeed,
        policy(),
        unit(0.5),
    );
    assert_eq!(decision.action, DeliveryAction::AckSkip);
    assert_eq!(before.completed, 1);
    assert_eq!(before.failed, 0);
}

#[test]
fn retry_policy_new_clamps_its_inputs() {
    let p = RetryPolicy::new(0, 500, 100, 2 * PPM);
    assert_eq!(p.max_attempts, 1);
    assert_eq!(p.initial_backoff_ms, 500);
    assert_eq!(p.max_backoff_ms, 500);
    assert_eq!(p.jitter_ratio_ppm, PPM);
    assert!(p.can_retry(0));
    assert!(!p.can_retry(1));
}

#[test]
fn full_jitter_ratio_can_reach_zero_delay() {
    let p = RetryPolicy::new(5, 1_000, 60_000, PPM);
    assert_eq!(p.backoff(1, 0), 0);
    assert_eq!(p.backoff(1, PPM), 2_000);
    assert_eq!(p.backoff(1, PPM / 2), 1_000);
}

#[test]
fn backoff_exponent_stops_at_sixteen_doublings() {
    let p = RetryPolicy::new(100, 1, u64::MAX, 0);
    assert_eq!(p.backoff(17, PPM / 2), 65_536);
    assert_eq!(p.backoff(40, PPM / 2), 65_536);
    assert_eq!(p.backoff(0, PPM / 2), 1);
}

#[test]
fn sampled_backoff_stays_within_the_jitter_bounds() {
    let p = policy();
    for _ in 0..50 {
        let ms = p.sampled_backoff(1);
        assert!((75..=125).contains(&ms), "{ms}");
    }
}

#[test]
fn job_status_text_round_trips() {
    for status in [
        JobStatus::Pending,
        JobStatus::Processing,
        JobStatus::Retrying,
        JobStatus::Completed,
        JobStatus::Failed,
    ] {
        assert_eq!(JobStatus::parse(status.as_str()), Some(status));
        assert_eq!(status.is_open(), !status.is_terminal());
    }
    assert_eq!(JobStatus::parse("done"), None);
}

#[test]
fn job_error_message_is_its_text() {
    assert_eq!(JobError::permanent("bad".to_string()).message(), "bad");
    assert_eq!(JobError::retryable("later".to_string()).message(), "later");
}

#[test]
fn processing_past_the_budget_is_dead_lettered_on_redelivery() {
    let current = JobSnapshot { status: JobStatus::Processing, attempt: 4 };
    let decision = step(current, JobEvent::Deliver, policy(), unit(0.5));
    assert_eq!(decision.snapshot.status, JobStatus::Failed);
    assert_eq!(decision.action, DeliveryAction::AckDeadLetter);
    let zero = step(JobSnapshot { status: JobStatus::Processing, attempt: 0 }, JobEvent::Deliver, policy(), unit(0.5));
    assert_eq!(zero.snapshot.attempt, 1);
    assert_eq!(zero.action, DeliveryAction::Execute);
}

#[test]
fn delivery_beyond_max_attempts_dead_letters() {
    let current = JobSnapshot { status: JobStatus::Retrying, attempt: 3 };
    let decision = step(current, JobEvent::Deliver, policy(), unit(0.5));
    assert_eq!(decision.snapshot, JobSnapshot { status: JobStatus::Failed, attempt: 4 });
    assert_eq!(decision.action, DeliveryAction::AckDeadLetter);
}

#[test]
fn batch_without_started_children_is_pending() {
    let counts = ChildCounts { pending: 0, processing: 0, retrying: 0, completed: 0, failed: 0 };
    assert_eq!(counts.batch_status(), BatchStatus::Pending);
    assert!(!counts.is_terminal());
    let done = ChildCounts { pending: 0, processing: 0, retrying: 0, completed: 0, failed: 1 };
    assert!(done.is_terminal());
}
