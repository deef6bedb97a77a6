use holly::framing::split_packets;

#[test]
fn two_coalesced_records_are_reconstructed() {
    let r1 = br#"{"sender":"alice","content":"hi","chat_id":"room"}"#.to_vec();
    let r2 = br#"{"sender":"bob","content":"yo","chat_id":"room"}"#.to_vec();
    let mut chunk = r1.clone();
    chunk.extend_from_slice(&r2);
    let packets = split_packets(&chunk);
    assert_eq!(packets.len(), 2);
    assert_eq!(packets[0], r1);
    assert_eq!(packets[1], r2);
}

#[test]
fn single_record_passes_through() {
    let r = br#"{"sender":"alice","content":"hi","chat_id":"room"}"#.to_vec();
    let packets = split_packets(&r);
    assert_eq!(packets, vec![r]);
}

#[test]
fn three_coalesced_records_are_reconstructed() {
    let r1 = br#"{"sender":"a","content":"1","chat_id":"r"}"#.to_vec();
    let r2 = br#"{"sender":"b","content":"2","chat_id":"r"}"#.to_vec();
    let r3 = br#"{"sender":"c","content":"3","chat_id":"r"}"#.to_vec();
    let mut chunk = r1.clone();
    chunk.extend_from_slice(&r2);
    chunk.extend_from_slice(&r3);
    let packets = split_packets(&chunk);
    assert_eq!(packets, vec![r1, r2, r3]);
}

#[test]
fn empty_chunk_yields_one_empty_object() {
    let packets = split_packets(&[]);
    assert_eq!(packets, vec![b"{}".to_vec()]);
}

#[test]
fn boundary_inside_a_payload_missplits() {
    // The documented fragility: a payload holding the close-open sequence
    // is split at it.
    let r = br#"{"content":"}{"}"#.to_vec();
    let packets = split_packets(&r);
    assert_eq!(packets.len(), 2);
}
