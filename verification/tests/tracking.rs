use wordle_timer_bot::retry::{MemberError, RetryDecision, RetrySchedule};
use wordle_timer_bot::tracker::{GameStateTracker, NotifyAction};

// Wall-clock instants in milliseconds since the Unix epoch. In January
// the reference timezone (Sydney) is eleven hours ahead of UTC.
const JAN1_0000_UTC: i64 = 1704067200000; // 2024-01-01T00:00Z, Jan 1 11:00 in Sydney
const JAN1_1000_UTC: i64 = 1704103200000; // 2024-01-01T10:00Z, Jan 1 21:00 in Sydney
const JAN1_1400_UTC: i64 = 1704117600000; // 2024-01-01T14:00Z, Jan 2 01:00 in Sydney
const JAN1_2000_UTC: i64 = 1704139200000; // 2024-01-01T20:00Z, Jan 2 07:00 in Sydney
const JAN2_0000_UTC: i64 = 1704153600000; // 2024-01-02T00:00Z, Jan 2 11:00 in Sydney

#[test]
fn presence_starts_and_accumulates_time() {
    let mut t = GameStateTracker::new();
    t.handle_presence(42, true, 1000, JAN1_0000_UTC);
    let st = t.get(42).unwrap();
    assert_eq!(st.total_active_ms, 0);
    assert_eq!(st.last_start_ms, 1000);
    assert!(!st.completed);

    // Stopping play folds the elapsed attempt into the total.
    t.handle_presence(42, false, 6000, JAN1_0000_UTC);
    let st = t.get(42).unwrap();
    assert_eq!(st.total_active_ms, 5000);
    assert_eq!(st.last_start_ms, 6000);

    // Starting again on the same day keeps the record.
    t.handle_presence(42, true, 9000, JAN1_0000_UTC);
    let st = t.get(42).unwrap();
    assert_eq!(st.total_active_ms, 5000);
}

#[test]
fn stale_record_replaced_on_next_day() {
    let mut t = GameStateTracker::new();
    t.handle_presence(42, true, 1000, JAN1_0000_UTC);
    t.handle_presence(42, false, 31000, JAN1_0000_UTC);
    assert_eq!(t.get(42).unwrap().total_active_ms, 30000);

    // The next activity event a calendar day later replaces the record
    // wholesale: the prior accumulated time is discarded.
    t.handle_presence(42, true, 50000, JAN2_0000_UTC);
    let st = t.get(42).unwrap();
    assert_eq!(st.total_active_ms, 0);
    assert_eq!(st.created_utc_ms, JAN2_0000_UTC);
    assert_eq!(st.last_start_ms, 50000);
}

#[test]
fn staleness_follows_reference_timezone_not_utc() {
    // Created at Jan 1 21:00 Sydney; an event four hours later falls on
    // Jan 2 in Sydney although both instants share the UTC date: stale.
    let mut t = GameStateTracker::new();
    t.handle_presence(7, true, 1000, JAN1_1000_UTC);
    t.handle_presence(7, false, 2000, JAN1_1000_UTC);
    assert_eq!(t.get(7).unwrap().total_active_ms, 1000);
    t.handle_presence(7, true, 9000, JAN1_1400_UTC);
    assert_eq!(t.get(7).unwrap().total_active_ms, 0);
    assert_eq!(t.get(7).unwrap().created_utc_ms, JAN1_1400_UTC);

    // Two instants on the same Sydney day (early morning and later
    // morning of Jan 2) are current for each other.
    let mut t2 = GameStateTracker::new();
    t2.handle_presence(8, true, 1000, JAN1_1400_UTC);
    t2.handle_presence(8, false, 4000, JAN1_1400_UTC);
    t2.handle_presence(8, true, 9000, JAN1_2000_UTC);
    assert_eq!(t2.get(8).unwrap().total_active_ms, 3000);
}

#[test]
fn verified_completion_sends_once_then_edits_nothing() {
    let mut t = GameStateTracker::new();
    t.handle_presence(42, true, 1000, JAN1_0000_UTC);
    assert!(t.needs_verification(42, JAN1_0000_UTC));

    let act = t.handle_verified(42, true, 11000, JAN1_0000_UTC, 900);
    assert_eq!(act, Some(NotifyAction::Send { total_active_ms: 10000 }));
    let st = t.get(42).unwrap();
    assert!(st.completed);
    assert_eq!(st.total_active_ms, 10000);
    assert_eq!(st.channel_id, Some(900));
    t.record_notification(42, 555);
    assert_eq!(t.get(42).unwrap().completion_msg_id, Some(555));

    // Handling the attachment path again for an already-completed
    // record changes nothing and requests no further notification.
    let again = t.handle_verified(42, true, 99000, JAN1_0000_UTC, 900);
    assert_eq!(again, None);
    let st = t.get(42).unwrap();
    assert_eq!(st.total_active_ms, 10000);
    assert_eq!(st.completion_msg_id, Some(555));
    assert!(!t.needs_verification(42, JAN1_0000_UTC));
}

#[test]
fn failed_verification_changes_nothing() {
    let mut t = GameStateTracker::new();
    t.handle_presence(42, true, 1000, JAN1_0000_UTC);
    let act = t.handle_verified(42, false, 11000, JAN1_0000_UTC, 900);
    assert_eq!(act, None);
    let st = t.get(42).unwrap();
    assert!(!st.completed);
    assert_eq!(st.total_active_ms, 0);
    // An unknown player is ignored outright.
    assert_eq!(t.handle_verified(99, true, 11000, JAN1_0000_UTC, 900), None);
}

#[test]
fn completed_presence_events_accrue_no_time() {
    let mut t = GameStateTracker::new();
    t.handle_presence(42, true, 1000, JAN1_0000_UTC);
    t.handle_verified(42, true, 5000, JAN1_0000_UTC, 900);
    assert_eq!(t.get(42).unwrap().total_active_ms, 4000);
    // A later stop event does not grow the total of a completed record.
    t.handle_presence(42, false, 50000, JAN1_0000_UTC);
    assert_eq!(t.get(42).unwrap().total_active_ms, 4000);
}

#[test]
fn tracker_lists_users_in_insertion_order() {
    let mut t = GameStateTracker::new();
    t.handle_presence(3, true, 1000, JAN1_0000_UTC);
    t.handle_presence(1, true, 1000, JAN1_0000_UTC);
    t.handle_presence(2, true, 1000, JAN1_0000_UTC);
    assert_eq!(t.users(), vec![3u64, 1, 2]);
    assert!(t.get(9).is_none());
}

#[test]
fn retry_exhaustion_attempts_and_backoff() {
    // An operation failing every time is attempted exactly
    // `max_attempts` times; the sleeps between attempts are 1, 2 and 4
    // seconds, summing to 2^(max_attempts - 1) - 1, with no sleep after
    // the final attempt.
    let max_attempts = 4;
    let mut schedule = RetrySchedule::new(max_attempts);
    let mut attempts = 0u32;
    let mut sleeps: Vec<u64> = Vec::new();
    loop {
        // One (always failing) attempt happens here.
        attempts += 1;
        match schedule.record_failure() {
            RetryDecision::RetryAfter(secs) => sleeps.push(secs),
            RetryDecision::Exhausted => break,
        }
    }
    assert_eq!(attempts, max_attempts);
    assert_eq!(sleeps, vec![1, 2, 4]);
    assert_eq!(sleeps.iter().sum::<u64>(), (1u64 << (max_attempts - 1)) - 1);
}

#[test]
fn member_error_messages() {
    assert_eq!(
        MemberError::NotFound("no guild".to_string()).message(),
        "Member not found: no guild"
    );
    assert_eq!(MemberError::ApiError("http 500".to_string()).message(), "API error: http 500");
    assert_eq!(
        MemberError::RetryExhausted("gave up".to_string()).message(),
        "Retry attempts exhausted: gave up"
    );
}
