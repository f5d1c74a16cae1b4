use octos_tui::viewport::{is_prefix_preserved, CommittedFingerprint, FlushPlan, ScrollbackTracker};

fn fp(session: &str, count: usize, hash: u64) -> CommittedFingerprint {
    CommittedFingerprint { session_id: session.to_string(), message_count: count, content_hash: hash }
}

#[test]
fn first_flush_emits_all_committed_messages() {
    let mut tracker = ScrollbackTracker::new();
    assert_eq!(tracker.sync(fp("local:test", 2, 11)), FlushPlan::Append { from: 0 });
}

#[test]
fn appending_a_message_flushes_only_the_new_one() {
    let mut tracker = ScrollbackTracker::new();
    assert_eq!(tracker.sync(fp("local:test", 2, 11)), FlushPlan::Append { from: 0 });
    assert_eq!(tracker.sync(fp("local:test", 4, 22)), FlushPlan::Append { from: 2 });
}

#[test]
fn no_new_messages_flushes_nothing() {
    let mut tracker = ScrollbackTracker::new();
    let _ = tracker.sync(fp("local:test", 2, 11));
    // Appending from the current count appends nothing.
    assert_eq!(tracker.sync(fp("local:test", 2, 11)), FlushPlan::Append { from: 2 });
}

#[test]
fn late_activity_log_archive_triggers_reflush() {
    let mut tracker = ScrollbackTracker::new();
    let _ = tracker.sync(fp("local:test", 2, 11));
    // Same count, different content: the finalized history changed.
    assert_eq!(tracker.sync(fp("local:test", 2, 99)), FlushPlan::Reflush);
}

#[test]
fn session_switch_triggers_reset_and_full_reflush() {
    let mut tracker = ScrollbackTracker::new();
    let _ = tracker.sync(fp("local:test", 2, 11));
    assert_eq!(tracker.sync(fp("local:other", 2, 33)), FlushPlan::Reflush);
}

#[test]
fn empty_session_flushes_nothing() {
    let mut tracker = ScrollbackTracker::new();
    assert_eq!(tracker.sync(fp("local:test", 0, 0)), FlushPlan::Nothing);
    // The first message after an empty session is an append, not a reset.
    assert_eq!(tracker.sync(fp("local:test", 1, 5)), FlushPlan::Append { from: 0 });
}

#[test]
fn shrinking_history_reflushes() {
    let mut tracker = ScrollbackTracker::new();
    let _ = tracker.sync(fp("local:test", 4, 11));
    assert_eq!(tracker.sync(fp("local:test", 3, 12)), FlushPlan::Reflush);
    assert_eq!(tracker.flushed_messages, 3);
}

#[test]
fn prefix_check_compares_hashes_only_at_equal_counts() {
    assert!(is_prefix_preserved(&fp("s", 2, 1), &fp("s", 2, 1), 2));
    assert!(!is_prefix_preserved(&fp("s", 2, 1), &fp("s", 2, 9), 2));
    assert!(is_prefix_preserved(&fp("s", 2, 1), &fp("s", 5, 9), 2));
    assert!(!is_prefix_preserved(&fp("s", 4, 1), &fp("s", 3, 9), 4));
}
