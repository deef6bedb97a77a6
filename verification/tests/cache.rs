use holly::cache::Cache;
use holly::chat::ChatMessage;

fn msg(sender: &str, content: &str, chat_id: &str) -> ChatMessage {
    ChatMessage::new(sender.to_string(), content.to_string(), chat_id.to_string())
}

fn msgs(contents: &[&str]) -> Vec<ChatMessage> {
    contents.iter().map(|c| msg("alice", c, "room")).collect()
}

#[test]
fn first_sight_reports_nothing_and_tracks() {
    let mut cache = Cache::new();
    assert!(!cache.check_key("room"));
    let sample = msgs(&["a", "b", "c"]);
    assert!(cache.check("room", &sample).is_none());
    assert!(cache.check_key("room"));
    assert_eq!(cache.size(), 1);
}

#[test]
fn identical_sample_reports_nothing() {
    let mut cache = Cache::new();
    let sample = msgs(&["a", "b", "c"]);
    assert!(cache.check("room", &sample).is_none());
    assert!(cache.check("room", &sample).is_none());
    assert!(cache.check("room", &sample).is_none());
    assert_eq!(cache.size(), 1);
}

#[test]
fn weak_alignment_falls_back_to_last_message() {
    let mut cache = Cache::new();
    let stored = msgs(&["a", "b", "c"]);
    assert!(cache.check("room", &stored).is_none());
    // Forward alignment matches only "b" and "c": too weak, so only the
    // changed last message is reported.
    let fresh = msgs(&["b", "c", "d", "e"]);
    let report = cache.check("room", &fresh).expect("a change must be reported");
    assert_eq!(report.len(), 1);
    assert!(report[0] == msg("alice", "e", "room"));
}

#[test]
fn strong_alignment_reports_the_new_tail() {
    let mut cache = Cache::new();
    let stored = msgs(&["a", "b", "c", "d", "e"]);
    assert!(cache.check("room", &stored).is_none());
    let fresh = msgs(&["a", "b", "c", "d", "e", "f", "g"]);
    let report = cache.check("room", &fresh).expect("a change must be reported");
    assert_eq!(report.len(), 2);
    assert!(report[0] == msg("alice", "f", "room"));
    assert!(report[1] == msg("alice", "g", "room"));
}

#[test]
fn empty_sample_leaves_baseline_unchanged() {
    let mut cache = Cache::new();
    let stored = msgs(&["a", "b", "c", "d", "e"]);
    assert!(cache.check("room", &stored).is_none());
    assert!(cache.check("room", &msgs(&[])).is_none());
    assert_eq!(cache.size(), 1);
    // The old baseline must still be in place: a sample extending it by one
    // aligns on all five stored elements and reports exactly the overrun.
    let fresh = msgs(&["a", "b", "c", "d", "e", "f"]);
    let report = cache.check("room", &fresh).expect("a change must be reported");
    assert_eq!(report.len(), 1);
    assert!(report[0] == msg("alice", "f", "room"));
}

#[test]
fn empty_baseline_is_treated_as_unseen() {
    let mut cache = Cache::new();
    assert!(cache.check("room", &msgs(&[])).is_none());
    assert!(cache.check_key("room"));
    // The recorded-empty baseline is replaced silently, like a first sight.
    assert!(cache.check("room", &msgs(&["a"])).is_none());
    // ... and is then a real baseline.
    let report = cache.check("room", &msgs(&["b"])).expect("a change must be reported");
    assert_eq!(report.len(), 1);
    assert!(report[0] == msg("alice", "b", "room"));
}

#[test]
fn equal_last_message_reports_nothing_on_weak_alignment() {
    let mut cache = Cache::new();
    assert!(cache.check("room", &msgs(&["a", "b"])).is_none());
    // No alignment, but the last element agrees: nothing is reported.
    assert!(cache.check("room", &msgs(&["x", "b"])).is_none());
    // The sample still replaced the baseline.
    let report = cache
        .check("room", &msgs(&["x", "b", "c"]))
        .expect("a change must be reported");
    assert_eq!(report.len(), 1);
    assert!(report[0] == msg("alice", "c", "room"));
}

#[test]
fn shorter_sample_reports_nothing_but_becomes_baseline() {
    let mut cache = Cache::new();
    assert!(cache.check("room", &msgs(&["a", "b", "c", "d", "e"])).is_none());
    // The new sample is exhausted before the baseline: nothing is new.
    assert!(cache.check("room", &msgs(&["a", "b"])).is_none());
    // The shorter sample became the baseline: one more element aligns on
    // both stored elements and the changed last message is reported.
    let report = cache.check("room", &msgs(&["a", "b", "c"])).expect("a change must be reported");
    assert_eq!(report.len(), 1);
    assert!(report[0] == msg("alice", "c", "room"));
}

#[test]
fn fully_matched_sample_reports_empty_tail() {
    let mut cache = Cache::new();
    assert!(cache.check("room", &msgs(&["x", "a", "b", "c", "d"])).is_none());
    // All four sample elements align (more than the threshold), and nothing
    // overruns: the reported tail is empty.
    let report = cache.check("room", &msgs(&["a", "b", "c", "d"])).expect("a report is due");
    assert_eq!(report.len(), 0);
}

#[test]
fn conversations_are_tracked_independently() {
    let mut cache = Cache::new();
    assert!(cache.check("room1", &msgs(&["a", "b", "c", "d"])).is_none());
    assert!(cache.check("room2", &msgs(&["x"])).is_none());
    assert_eq!(cache.size(), 2);
    let fresh = msgs(&["a", "b", "c", "d", "e"]);
    let report = cache.check("room1", &fresh).expect("a change must be reported");
    assert_eq!(report.len(), 1);
    assert!(report[0] == msg("alice", "e", "room"));
    // room2 is untouched.
    assert!(cache.check("room2", &msgs(&["x"])).is_none());
}
