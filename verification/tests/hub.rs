use holly::chat::ChatMessage;
use holly::hub::Registry;
use holly::hub::QUEUE_CAPACITY;

fn msg(content: &str) -> ChatMessage {
    ChatMessage::new("alice".to_string(), content.to_string(), "room".to_string())
}

#[test]
fn fanout_isolates_a_broken_connection() {
    let mut reg = Registry::new();
    let id0 = reg.register();
    let id1 = reg.register();
    let id2 = reg.register();
    assert_eq!(reg.len(), 3);

    // One connection's transport broke; fan-out must drop it and still
    // deliver to the other two.
    reg.close(id1);
    reg.broadcast(&msg("first"));
    assert_eq!(reg.len(), 2);
    assert!(reg.drain(id1).is_none());

    let q0 = reg.drain(id0).expect("survivor must be live");
    let q2 = reg.drain(id2).expect("survivor must be live");
    assert_eq!(q0.len(), 1);
    assert_eq!(q2.len(), 1);
    assert!(q0[0] == msg("first"));
    assert!(q2[0] == msg("first"));

    // A subsequent broadcast reaches only the two survivors.
    reg.broadcast(&msg("second"));
    assert_eq!(reg.len(), 2);
    let q0 = reg.drain(id0).expect("survivor must be live");
    let q2 = reg.drain(id2).expect("survivor must be live");
    assert_eq!(q0.len(), 1);
    assert_eq!(q2.len(), 1);
    assert!(q0[0] == msg("second"));
    assert!(q2[0] == msg("second"));
}

#[test]
fn full_queue_counts_as_disconnection() {
    let mut reg = Registry::new();
    let slow = reg.register();
    let fast = reg.register();
    for i in 0..QUEUE_CAPACITY {
        reg.broadcast(&msg(&format!("m{i}")));
        // Only the fast consumer keeps up.
        let drained = reg.drain(fast).expect("fast consumer stays live");
        assert_eq!(drained.len(), 1);
    }
    assert_eq!(reg.len(), 2);
    // The slow consumer's queue is full now: the next broadcast drops it.
    reg.broadcast(&msg("overflow"));
    assert_eq!(reg.len(), 1);
    assert!(reg.drain(slow).is_none());
    let drained = reg.drain(fast).expect("fast consumer stays live");
    assert_eq!(drained.len(), 1);
}

#[test]
fn drain_empties_the_queue() {
    let mut reg = Registry::new();
    let id = reg.register();
    reg.broadcast(&msg("a"));
    reg.broadcast(&msg("b"));
    let drained = reg.drain(id).expect("connection is live");
    assert_eq!(drained.len(), 2);
    assert!(drained[0] == msg("a"));
    assert!(drained[1] == msg("b"));
    // Delivery order matches detection order, and draining leaves the
    // queue empty.
    let drained = reg.drain(id).expect("connection is live");
    assert_eq!(drained.len(), 0);
}

#[test]
fn broadcast_to_empty_registry_is_a_no_op() {
    let mut reg = Registry::new();
    reg.broadcast(&msg("nobody listens"));
    assert_eq!(reg.len(), 0);
}
