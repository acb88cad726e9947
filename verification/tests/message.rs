use socket_relay::message::BufferedMessage;

#[test]
fn new_message_holds_what_it_was_given() {
    let msg = BufferedMessage::new(vec![4u32, 5], vec![10u8, 20, 30]);
    assert_eq!(msg.fds, vec![4u32, 5]);
    assert_eq!(msg.bytes, vec![10u8, 20, 30]);
    assert_eq!(msg.len(), 3);
    assert!(!msg.is_empty());
}

#[test]
fn message_without_bytes_is_empty_even_with_descriptors() {
    let msg = BufferedMessage::new(vec![4u32], Vec::new());
    assert_eq!(msg.len(), 0);
    assert!(msg.is_empty());
}

#[test]
fn remainder_keeps_the_tail_and_drops_the_descriptors() {
    let msg = BufferedMessage::new(vec![7u32, 8, 9], vec![1u8, 2, 3, 4, 5]);
    let rest = msg.into_remainder(2);
    assert_eq!(rest.bytes, vec![3u8, 4, 5]);
    assert!(rest.fds.is_empty());
}

#[test]
fn remainder_after_nothing_sent_is_all_bytes() {
    let msg = BufferedMessage::new(vec![7u32], vec![1u8, 2, 3]);
    let rest = msg.into_remainder(0);
    assert_eq!(rest.bytes, vec![1u8, 2, 3]);
    assert!(rest.fds.is_empty());
}

#[test]
fn remainder_after_everything_sent_is_empty() {
    let msg = BufferedMessage::new(Vec::<u32>::new(), vec![1u8, 2, 3]);
    let rest = msg.into_remainder(3);
    assert!(rest.bytes.is_empty());
    assert!(rest.is_empty());
}
