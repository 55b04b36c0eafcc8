use timewarp::input_queue::InputQueue;
use timewarp::message::{Message, MessagePayload, Sign};
use timewarp::output_queue::OutputQueue;

#[test]
fn test_priority_queue_operations() {
    let mut priority_queue = InputQueue::new(5);

    let message1 = Message {
        send_time: 1,
        rec_time: 10,
        sender: 1,
        receiver: 2,
        sign: Sign::Message,
        message: MessagePayload::new(1, "Hello".to_string()),
    };

    let message2 = Message {
        send_time: 2,
        rec_time: 5,
        sender: 2,
        receiver: 1,
        sign: Sign::Message,
        message: MessagePayload::new(2, "World".to_string()),
    };

    let message3 = Message {
        send_time: 3,
        rec_time: 8,
        sender: 3,
        receiver: 2,
        sign: Sign::Message,
        message: MessagePayload::new(3, "!".to_string()),
    };

    priority_queue.insert(message1.clone());
    priority_queue.insert(message2.clone());
    priority_queue.insert(message3.clone());

    assert_eq!(priority_queue.remove_smallest(), Some(message2.clone()));
    assert_eq!(priority_queue.remove_smallest(), Some(message3.clone()));
    assert_eq!(priority_queue.remove_smallest(), Some(message1.clone()));

    assert_eq!(priority_queue.remove_smallest(), None);
}

#[test]
fn test_priority_queue_with_duplicates() {
    let mut priority_queue = InputQueue::new(5);

    // Define messages as variables
    let mut message1 = Message {
        send_time: 2,
        rec_time: 5,
        sender: 1,
        receiver: 2,
        sign: Sign::Message,
        message: MessagePayload::new(1, "Duplicate".to_string()),
    };

    priority_queue.insert(message1.clone());
    priority_queue.insert(message1.clone());

    assert_eq!(priority_queue.remove_smallest(), None);

    priority_queue.insert(message1.clone());
    message1.sign = Sign::Antimessage;
    priority_queue.insert(message1.clone());

    assert_eq!(priority_queue.remove_smallest(), None);
}

#[test]
fn test_priority_queue_edge_cases() {
    let mut priority_queue = InputQueue::new(5);

    let message1 = Message {
        send_time: 1,
        rec_time: 7,
        sender: 1,
        receiver: 2,
        sign: Sign::Message,
        message: MessagePayload::new(1, "Edge".to_string()),
    };

    let message2 = Message {
        send_time: 2,
        rec_time: 3,
        sender: 2,
        receiver: 1,
        sign: Sign::Message,
        message: MessagePayload::new(2, "Cases".to_string()),
    };

    let message3 = Message {
        send_time: 3,
        rec_time: 8,
        sender: 3,
        receiver: 2,
        sign: Sign::Message,
        message: MessagePayload::new(3, "Testing".to_string()),
    };

    let message4 = Message {
        send_time: 4,
        rec_time: 4,
        sender: 4,
        receiver: 1,
        sign: Sign::Message,
        message: MessagePayload::new(4, "More".to_string()),
    };

    let message5 = Message {
        send_time: 5,
        rec_time: 6,
        sender: 5,
        receiver: 2,
        sign: Sign::Message,
        message: MessagePayload::new(5, "Tests".to_string()),
    };

    priority_queue.insert(message1.clone());
    priority_queue.insert(message2.clone());
    priority_queue.insert(message3.clone());

    // Remove smallest element >= threshold
    assert_eq!(priority_queue.peek_smallest_greater(), Some(message1.clone()));
    assert_eq!(priority_queue.remove_smallest(), Some(message2));

    // Insert messages again
    priority_queue.insert(message4.clone());
    priority_queue.insert(message5.clone());

    // Remove smallest element
    assert_eq!(priority_queue.remove_smallest(), Some(message4));
    assert_eq!(priority_queue.peek_smallest_greater(), Some(message5.clone()));
    assert_eq!(priority_queue.remove_smallest(), Some(message5));
    assert_eq!(priority_queue.remove_smallest(), Some(message1));
    assert_eq!(priority_queue.remove_smallest(), Some(message3));
    assert_eq!(priority_queue.remove_smallest(), None);
}

#[test]
fn test_push_pop_send_time() {
    let msg1 = Message {
        send_time: 1,
        rec_time: 0,
        sender: 0,
        receiver: 0,
        sign: Sign::Message,
        message: MessagePayload::new(1, "Test".to_string()),
    };

    let msg2 = Message {
        send_time: 2,
        rec_time: 0,
        sender: 0,
        receiver: 0,
        sign: Sign::Message,
        message: MessagePayload::new(2, "MessagePayload".to_string()),
    };

    let msg3 = Message {
        send_time: 3,
        rec_time: 0,
        sender: 0,
        receiver: 0,
        sign: Sign::Message,
        message: MessagePayload::new(3, "MessagePayload".to_string()),
    };

    let mut pq = OutputQueue::new();
    pq.push(msg1.clone());
    pq.push(msg2.clone());
    pq.push(msg3.clone());

    println!("{:?}", pq);
    assert_eq!(pq.pop(), Some(msg1.clone()));
    assert_eq!(pq.pop(), Some(msg2.clone()));
    assert_eq!(pq.pop(), Some(msg3.clone()));
    assert_eq!(pq.pop(), None);

    pq.push(msg3.clone());
    pq.push(msg2.clone());
    pq.push(msg1.clone());

    assert_eq!(pq.pop(), Some(msg1));
    assert_eq!(pq.pop(), Some(msg2));
    assert_eq!(pq.pop(), Some(msg3));
    assert_eq!(pq.pop(), None);
}

#[test]
fn test_push_duplicate() {
    let msg1 = Message {
        send_time: 1,
        rec_time: 5,
        sender: 1,
        receiver: 2,
        sign: Sign::Message,
        message: MessagePayload::new(1, "MessagePayload".to_string()),
    };
    assert_eq!(msg1, msg1);

    let mut pq = OutputQueue::new();
    pq.push(msg1.clone());
    pq.push(msg1.clone());

    assert_eq!(pq.pop(), None);
}

#[test]
fn test_range() {
    let msg1 = Message {
        send_time: 1,
        rec_time: 0,
        sender: 0,
        receiver: 0,
        sign: Sign::Message,
        message: MessagePayload::new(1, "Test".to_string()),
    };

    let msg2 = Message {
        send_time: 2,
        rec_time: 0,
        sender: 0,
        receiver: 0,
        sign: Sign::Message,
        message: MessagePayload::new(2, "MessagePayload".to_string()),
    };

    let msg3 = Message {
        send_time: 3,
        rec_time: 0,
        sender: 0,
        receiver: 0,
        sign: Sign::Message,
        message: MessagePayload::new(3, "MessagePayload".to_string()),
    };

    let mut pq = OutputQueue::new();
    pq.push(msg1.clone());
    pq.push(msg2.clone());
    pq.push(msg3.clone());

    let range_result = pq.range(1, 3);
    assert_eq!(range_result, vec![msg1.clone(), msg2.clone(), msg3.clone()]);

    let range_result = pq.range(2, 4);
    assert_eq!(range_result, vec![msg2.clone(), msg3.clone()]);

    let range_result = pq.range(1, 4);
    assert_eq!(range_result, vec![msg1.clone(), msg2.clone(), msg3.clone()]);

    let range_result = pq.range(4, 5);
    assert_eq!(range_result, vec![]);
}

// Messages with equal receive times but distinct payload identities do not
// annihilate: both stay in the queue.
#[test]
fn test_equal_receive_times_coexist() {
    let mut priority_queue = InputQueue::new(0);

    let msg_a = Message {
        send_time: 0,
        rec_time: 4,
        sender: 1,
        receiver: 2,
        sign: Sign::Message,
        message: MessagePayload::new(1, "first".to_string()),
    };
    let msg_b = Message {
        send_time: 0,
        rec_time: 4,
        sender: 1,
        receiver: 2,
        sign: Sign::Message,
        message: MessagePayload::new(2, "second".to_string()),
    };

    priority_queue.insert(msg_a.clone());
    priority_queue.insert(msg_b.clone());

    // arrival order is kept among equal receive times
    assert_eq!(priority_queue.remove_smallest(), Some(msg_a));
    assert_eq!(priority_queue.remove_smallest(), Some(msg_b));
    assert_eq!(priority_queue.remove_smallest(), None);
}

// The annihilation law on concrete values: a batch with one paired class and
// one singleton leaves exactly the singleton behind.
#[test]
fn test_annihilation_parity() {
    let mut queue = InputQueue::new(0);

    let paired = Message {
        send_time: 1,
        rec_time: 2,
        sender: 1,
        receiver: 2,
        sign: Sign::Message,
        message: MessagePayload::new(1, "paired".to_string()),
    };
    let mut twin = paired.clone();
    twin.sign = Sign::Antimessage;
    let single = Message {
        send_time: 1,
        rec_time: 9,
        sender: 1,
        receiver: 2,
        sign: Sign::Message,
        message: MessagePayload::new(2, "single".to_string()),
    };

    queue.insert(paired);
    queue.insert(single.clone());
    queue.insert(twin);

    assert_eq!(queue.remove_smallest(), Some(single));
    assert_eq!(queue.remove_smallest(), None);

    // the same batch through the output queue
    let sent = Message {
        send_time: 3,
        rec_time: 8,
        sender: 1,
        receiver: 2,
        sign: Sign::Message,
        message: MessagePayload::new(3, "sent".to_string()),
    };
    let mut anti = sent.clone();
    anti.sign = Sign::Antimessage;
    let kept = Message {
        send_time: 7,
        rec_time: 9,
        sender: 1,
        receiver: 2,
        sign: Sign::Message,
        message: MessagePayload::new(4, "kept".to_string()),
    };

    let mut out = OutputQueue::new();
    out.push(sent);
    out.push(kept.clone());
    out.push(anti);

    assert_eq!(out.pop(), Some(kept));
    assert_eq!(out.pop(), None);
}

// The pending peek respects the cursor strictly: entries at the cursor are
// already processed, the first entry above it comes back.
#[test]
fn test_peek_strictly_above_cursor() {
    let mut queue = InputQueue::new(0);
    let msg = Message {
        send_time: 0,
        rec_time: 3,
        sender: 1,
        receiver: 2,
        sign: Sign::Message,
        message: MessagePayload::new(1, "edge".to_string()),
    };
    queue.insert(msg.clone());

    assert_eq!(queue.peek_smallest_greater(), Some(msg.clone()));
    queue.update_threshold(2);
    assert_eq!(queue.peek_smallest_greater(), Some(msg.clone()));
    queue.update_threshold(3);
    assert_eq!(queue.peek_smallest_greater(), None);
}
