use rojo::message_queue::MessageQueue;

#[test]
fn cursor_counts_pushes() {
    let mut q: MessageQueue<u32> = MessageQueue::new();
    assert_eq!(q.cursor(), 0);
    assert!(q.push(10));
    assert_eq!(q.cursor(), 1);
    assert!(q.push(11));
    assert_eq!(q.cursor(), 2);
}

#[test]
fn messages_since_gives_the_tail() {
    let mut q: MessageQueue<u32> = MessageQueue::new();
    q.push(10);
    q.push(11);
    q.push(12);
    assert_eq!(q.get_messages_since(0), (3, vec![&10, &11, &12]));
    assert_eq!(q.get_messages_since(1), (3, vec![&11, &12]));
    assert_eq!(q.get_messages_since(3), (3, Vec::<&u32>::new()));
}

#[test]
fn successive_reads_have_no_gap_and_no_repeat() {
    let mut q: MessageQueue<u32> = MessageQueue::new();
    q.push(1);
    q.push(2);
    let (c1, first) = q.get_messages_since(0);
    let mut seen: Vec<u32> = first.into_iter().copied().collect();
    q.push(3);
    q.push(4);
    let (c2, second) = q.get_messages_since(c1);
    seen.extend(second.into_iter().copied());
    assert_eq!(c1, 2);
    assert_eq!(c2, 4);
    assert_eq!(seen, vec![1, 2, 3, 4]);
}

#[test]
fn subscribe_at_current_cursor_waits() {
    let mut q: MessageQueue<u32> = MessageQueue::new();
    assert_eq!(q.subscribe(0), None);
    q.push(7);
    assert_eq!(q.subscribe(1), None);
}

#[test]
fn subscribe_ordering() {
    let mut q: MessageQueue<&str> = MessageQueue::new();
    assert_eq!(q.get_messages_since(0), (0, Vec::new()));
    assert_eq!(q.subscribe(0), None);
    q.push("patch");
    assert_eq!(q.subscribe(0), Some((1, vec![&"patch"])));
    assert_eq!(q.subscribe(1), None);
}

#[test]
fn subscriber_from_another_session_is_answered_at_once() {
    let q: MessageQueue<u32> = MessageQueue::new();
    assert_eq!(q.subscribe(42), Some((0, Vec::new())));
    let mut q: MessageQueue<u32> = MessageQueue::new();
    q.push(1);
    assert_eq!(q.subscribe(5), Some((1, Vec::new())));
}
