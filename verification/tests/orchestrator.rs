use holly::cache::Cache;
use holly::chat::ChatMessage;
use holly::orchestrator::classify;
use holly::orchestrator::select_candidates;
use holly::orchestrator::ChatSummary;
use holly::orchestrator::Command;
use holly::orchestrator::ErrorBudget;
use holly::orchestrator::TRACKING_CAP;

fn summary(id: &str, unread: bool) -> ChatSummary {
    ChatSummary { id: id.to_string(), unread }
}

fn sample(content: &str) -> Vec<ChatMessage> {
    vec![ChatMessage::new("alice".to_string(), content.to_string(), "room".to_string())]
}

#[test]
fn sentinel_senders_select_their_commands() {
    assert_eq!(classify("<screenshot>"), Command::Screenshot);
    assert_eq!(classify("<html>"), Command::Snapshot);
    assert_eq!(classify("<restart>"), Command::Restart);
    assert_eq!(classify("<refresh>"), Command::Refresh);
    assert_eq!(classify("<file>"), Command::FileTransfer);
    assert_eq!(classify("alice"), Command::Send);
    assert_eq!(classify(""), Command::Send);
    assert_eq!(classify("<screenshot> "), Command::Send);
}

#[test]
fn unread_and_untracked_conversations_are_selected() {
    let mut cache = Cache::new();
    assert!(cache.check("known", &sample("a")).is_none());
    let chats = vec![
        summary("known", false),
        summary("known", true),
        summary("fresh", false),
    ];
    let picked = select_candidates(&cache, chats);
    assert_eq!(picked.len(), 2);
    assert_eq!(picked[0].id, "known");
    assert!(picked[0].unread);
    assert_eq!(picked[1].id, "fresh");
}

#[test]
fn cap_blocks_a_new_unread_free_conversation() {
    let mut cache = Cache::new();
    for i in 0..TRACKING_CAP {
        assert!(cache.check(&format!("room{i}"), &sample("a")).is_none());
    }
    assert_eq!(cache.size(), TRACKING_CAP);
    // A 21st, never-unread conversation is never admitted, however often
    // it is listed; an unread one still is.
    for _ in 0..3 {
        let chats = vec![summary("latecomer", false), summary("urgent", true)];
        let picked = select_candidates(&cache, chats);
        assert_eq!(picked.len(), 1);
        assert_eq!(picked[0].id, "urgent");
    }
    assert!(!cache.check_key("latecomer"));
    assert_eq!(cache.size(), TRACKING_CAP);
}

#[test]
fn error_budget_turns_fatal_past_the_limit() {
    let mut budget = ErrorBudget::new();
    for _ in 0..10 {
        assert!(!budget.record_error());
    }
    assert!(budget.record_error());
    assert!(budget.record_error());
}
