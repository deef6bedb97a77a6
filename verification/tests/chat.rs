use holly::chat::ChatMessage;

fn msg(sender: &str, content: &str, chat_id: &str) -> ChatMessage {
    ChatMessage::new(sender.to_string(), content.to_string(), chat_id.to_string())
}

#[test]
fn clean_transliterates_to_ascii() {
    let mut m = msg("alice", "h\u{e9}llo w\u{f6}rld \u{2014} \u{c6}neid", "room");
    m.clean();
    assert_eq!(m.content, "hello world -- AEneid");
    assert_eq!(m.sender, "alice");
    assert_eq!(m.chat_id, "room");
}

#[test]
fn clean_keeps_ascii_content() {
    let mut m = msg("alice", "plain ascii, kept as is!", "room");
    m.clean();
    assert_eq!(m.content, "plain ascii, kept as is!");
}

#[test]
fn equality_is_structural() {
    assert!(msg("a", "b", "c") == msg("a", "b", "c"));
    assert!(msg("a", "b", "c") != msg("a", "x", "c"));
    assert!(msg("a", "b", "c") != msg("x", "b", "c"));
    assert!(msg("a", "b", "c") != msg("a", "b", "x"));
}

#[test]
fn clone_preserves_all_fields() {
    let m = msg("alice", "hello", "room");
    let copy = m.clone();
    assert!(copy == m);
}
