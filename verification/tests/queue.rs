use openresearch_cli::queue::hidden_claim_allowed;
use std::collections::VecDeque;

use openresearch_cli::chat::TurnOverrides;
use openresearch_cli::queue::{
    cancel_queued, dispatch_state, find_client_turn, queue_admission, requeue_failed, resume_delay,
    still_pending, Admission, QueuedMessage,
};

fn overrides() -> TurnOverrides {
    TurnOverrides {
        model: None,
        permission_mode: None,
        permission_revision: None,
        plan_mode: None,
        plan_revision: None,
        reasoning_level: None,
    }
}

fn message(id: &str, client_turn_id: &str) -> QueuedMessage {
    QueuedMessage {
        id: id.to_string(),
        client_turn_id: client_turn_id.to_string(),
        request_hash: format!("hash-{id}"),
        text: format!("text {id}"),
        transcript_text: None,
        overrides: overrides(),
        images: Vec::new(),
        annotations: Vec::new(),
        dispatch_attempts: 0,
        dispatch_error: None,
        next_retry_at: None,
    }
}

fn ids(queue: &VecDeque<QueuedMessage>) -> Vec<String> {
    queue.iter().map(|m| m.id.clone()).collect()
}

#[test]
fn cancelling_removes_only_that_message() {
    let mut queue: VecDeque<QueuedMessage> =
        vec![message("q1", "c1"), message("q2", "c2"), message("q3", "c3")].into();
    assert!(cancel_queued(&mut queue, "q2"));
    assert_eq!(ids(&queue), vec!["q1", "q3"]);
    assert!(!cancel_queued(&mut queue, "q2"));
    assert_eq!(ids(&queue), vec!["q1", "q3"]);
}

#[test]
fn cancelling_an_unknown_message_reports_nothing_removed() {
    let mut queue: VecDeque<QueuedMessage> = vec![message("q1", "c1")].into();
    assert!(!cancel_queued(&mut queue, "zz"));
    assert_eq!(ids(&queue), vec!["q1"]);
}

#[test]
fn a_failed_dispatch_goes_back_to_the_front() {
    let mut queue: VecDeque<QueuedMessage> = vec![message("q1", "c1"), message("q2", "c2")].into();
    let item = queue.pop_front().unwrap();
    requeue_failed(&mut queue, item, "harness offline".to_string(), Some(2_000), 1_000);
    assert_eq!(ids(&queue), vec!["q1", "q2"]);
    let front = &queue[0];
    assert_eq!(front.dispatch_attempts, 1);
    assert_eq!(front.dispatch_error.as_deref(), Some("harness offline"));
    assert_eq!(front.next_retry_at, Some(3_000));
    assert_eq!(dispatch_state(front), "retrying");
}

#[test]
fn exhausted_retries_leave_the_message_blocked() {
    let mut queue: VecDeque<QueuedMessage> = VecDeque::new();
    requeue_failed(&mut queue, message("q1", "c1"), "no".to_string(), None, 1_000);
    assert_eq!(queue[0].next_retry_at, None);
    assert_eq!(dispatch_state(&queue[0]), "blocked");
    assert_eq!(dispatch_state(&message("q2", "c2")), "queued");
}

#[test]
fn resuming_waits_for_the_retry_time_of_the_oldest_message() {
    let mut queue: VecDeque<QueuedMessage> = VecDeque::new();
    assert_eq!(resume_delay(&queue, false, 3, 0), None);
    let mut first = message("q1", "c1");
    first.next_retry_at = Some(5_000);
    first.dispatch_attempts = 2;
    queue.push_back(first);
    assert_eq!(resume_delay(&queue, false, 3, 1_000), Some(4_000));
    assert_eq!(resume_delay(&queue, false, 3, 9_000), Some(0));
    assert_eq!(resume_delay(&queue, true, 3, 1_000), None);
    assert_eq!(resume_delay(&queue, false, 1, 1_000), None);
}

#[test]
fn a_retry_is_stale_once_the_front_changed() {
    let mut queue: VecDeque<QueuedMessage> = VecDeque::new();
    requeue_failed(&mut queue, message("q1", "c1"), "e".to_string(), Some(10), 100);
    assert!(still_pending(&queue, "q1", Some(110)));
    assert!(!still_pending(&queue, "q1", Some(120)));
    assert!(!still_pending(&queue, "q2", Some(110)));
    assert!(cancel_queued(&mut queue, "q1"));
    assert!(!still_pending(&queue, "q1", Some(110)));
}

#[test]
fn a_repeated_submission_finds_its_parked_message() {
    let queue: VecDeque<QueuedMessage> =
        vec![message("q1", "c1"), message("q2", "c2"), message("q3", "c2")].into();
    assert_eq!(find_client_turn(&queue, "c2"), Some(1));
    assert_eq!(find_client_turn(&queue, "c9"), None);
}

#[test]
fn an_idle_session_starts_the_turn_and_a_busy_one_parks_it() {
    let empty: VecDeque<QueuedMessage> = VecDeque::new();
    assert!(matches!(
        queue_admission(false, None, &empty, "c1", "h", false, false, false, true),
        Ok(Admission::Claim)
    ));
    assert!(matches!(
        queue_admission(false, None, &empty, "c1", "h", true, false, false, true),
        Ok(Admission::Enqueue)
    ));
    let waiting: VecDeque<QueuedMessage> = vec![message("q1", "c0")].into();
    assert!(matches!(
        queue_admission(false, None, &waiting, "c1", "h", false, false, false, true),
        Ok(Admission::Enqueue)
    ));
}

#[test]
fn a_repeated_submission_is_answered_or_refused_by_its_content() {
    let queue: VecDeque<QueuedMessage> = vec![message("q1", "c1")].into();
    assert!(matches!(
        queue_admission(false, None, &queue, "c1", "hash-q1", true, false, false, true),
        Ok(Admission::Parked)
    ));
    assert!(matches!(
        queue_admission(false, None, &queue, "c1", "other", true, false, false, true),
        Err("clientTurnId was already used with different content")
    ));
    assert!(matches!(
        queue_admission(false, Some("h"), &queue, "c9", "h", true, false, false, true),
        Ok(Admission::AwaitPending)
    ));
    assert!(matches!(
        queue_admission(false, Some("h"), &queue, "c9", "x", true, false, false, true),
        Err("clientTurnId was already used with different content")
    ));
}

#[test]
fn refusals_of_a_busy_session() {
    let empty: VecDeque<QueuedMessage> = VecDeque::new();
    assert!(matches!(
        queue_admission(true, None, &empty, "c1", "h", false, false, false, true),
        Err("chat session not found")
    ));
    assert!(matches!(
        queue_admission(false, None, &empty, "c1", "h", true, true, false, true),
        Err("session is stopping — send again once it is idle")
    ));
    assert!(matches!(
        queue_admission(false, None, &empty, "c1", "h", true, false, true, true),
        Err("message content is required")
    ));
    assert!(matches!(
        queue_admission(false, None, &empty, "c1", "h", true, false, false, false),
        Err("message content is required")
    ));
}

#[test]
fn hidden_turns_claim_only_idle_sessions() {
    let empty: VecDeque<QueuedMessage> = VecDeque::new();
    assert!(hidden_claim_allowed(false, false, &empty));
    let waiting: VecDeque<QueuedMessage> = vec![message("q1", "c1")].into();
    assert!(!hidden_claim_allowed(false, false, &waiting));
    assert!(!hidden_claim_allowed(true, false, &empty));
    assert!(!hidden_claim_allowed(false, true, &empty));
}
