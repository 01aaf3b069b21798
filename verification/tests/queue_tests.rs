use amqp_patterns::queue::{Envelope, Held, QueueModel};

fn first(id: u64) -> Envelope {
    Envelope { id, redelivered: false }
}

fn again(id: u64) -> Envelope {
    Envelope { id, redelivered: true }
}

#[test]
fn empty_queue_hands_out_nothing() {
    let mut q = QueueModel::new();
    assert_eq!(q.waiting(), 0);
    assert_eq!(q.dispatch(), None);
    assert_eq!(q.next(), None);
    q.publish(1);
    assert_eq!(q.waiting(), 1);
    assert_eq!(q.dispatch(), None);
    assert_eq!(q.waiting_at(0), Some(first(1)));
    assert_eq!(q.waiting_at(1), None);
}

#[test]
fn messages_go_out_in_the_order_they_came() {
    let mut q = QueueModel::new();
    let c = q.join(None);
    for id in [5u64, 3, 9] {
        q.publish(id);
    }
    assert_eq!(q.dispatch(), Some(Held { consumer: c, message: first(5) }));
    assert_eq!(q.dispatch(), Some(Held { consumer: c, message: first(3) }));
    assert_eq!(q.dispatch(), Some(Held { consumer: c, message: first(9) }));
    assert_eq!(q.dispatch(), None);
    assert_eq!(q.holding(c), 3);
}

#[test]
fn unacknowledged_message_is_delivered_again_after_a_disconnect() {
    let mut q = QueueModel::new();
    let a = q.join(Some(1));
    q.publish(7);
    assert_eq!(q.dispatch(), Some(Held { consumer: a, message: first(7) }));
    assert_eq!(q.waiting(), 0);
    // the consumer goes away before it acknowledges
    q.disconnect(a);
    assert_eq!(q.holding(a), 0);
    assert_eq!(q.waiting(), 1);
    assert_eq!(q.waiting_at(0), Some(again(7)));
    assert!(!q.is_eligible(a));
    assert_eq!(q.dispatch(), None);
    let b = q.join(Some(1));
    assert_eq!(q.dispatch(), Some(Held { consumer: b, message: again(7) }));
    assert!(q.ack(b, 7));
    assert_eq!(q.waiting(), 0);
    assert_eq!(q.holding(b), 0);
    assert_eq!(q.dispatch(), None);
}

#[test]
fn disconnect_returns_what_was_held_in_order_and_in_front() {
    let mut q = QueueModel::new();
    let a = q.join(None);
    let b = q.join(None);
    for id in 1..=5u64 {
        q.publish(id);
    }
    assert_eq!(q.dispatch().map(|h| h.consumer), Some(a));
    assert_eq!(q.dispatch().map(|h| h.consumer), Some(b));
    assert_eq!(q.dispatch().map(|h| h.consumer), Some(a));
    assert_eq!(q.holding(a), 2);
    assert_eq!(q.holding(b), 1);
    q.disconnect(a);
    assert_eq!(q.waiting(), 4);
    assert_eq!(q.waiting_at(0), Some(again(1)));
    assert_eq!(q.waiting_at(1), Some(again(3)));
    assert_eq!(q.waiting_at(2), Some(first(4)));
    assert_eq!(q.waiting_at(3), Some(first(5)));
    assert_eq!(q.holding(b), 1);
    assert_eq!(q.dispatch(), Some(Held { consumer: b, message: again(1) }));
    q.disconnect(9);
    assert_eq!(q.waiting(), 3);
}

#[test]
fn burst_over_two_consumers_with_prefetch_one_in_the_queue() {
    let mut q = QueueModel::new();
    let a = q.join(Some(1));
    let b = q.join(Some(1));
    let n: u64 = 25;
    for id in 1..=n {
        q.publish(id);
    }
    let mut done: Vec<(usize, u64)> = Vec::new();
    let mut in_hand: Vec<Held> = Vec::new();
    while done.len() < n as usize {
        while let Some(h) = q.dispatch() {
            in_hand.push(h);
            assert!(q.holding(a) <= 1);
            assert!(q.holding(b) <= 1);
        }
        assert_eq!(q.holding(a) + q.holding(b), in_hand.len());
        assert!(in_hand.len() <= 2);
        let h = in_hand.remove(0);
        assert!(q.ack(h.consumer, h.message.id));
        done.push((h.consumer, h.message.id));
    }
    assert_eq!(q.waiting(), 0);
    let ids: Vec<u64> = done.iter().map(|d| d.1).collect();
    assert_eq!(ids, (1..=n).collect::<Vec<u64>>());
    let by_a = done.iter().filter(|d| d.0 == a).count();
    let by_b = done.iter().filter(|d| d.0 == b).count();
    assert_eq!(by_a + by_b, 25);
    assert!(by_a >= 12 && by_b >= 12);
}

#[test]
fn busy_consumer_is_passed_over() {
    let mut q = QueueModel::new();
    let slow = q.join(Some(1));
    let fast = q.join(Some(1));
    for id in 1..=4u64 {
        q.publish(id);
    }
    assert_eq!(q.dispatch(), Some(Held { consumer: slow, message: first(1) }));
    assert_eq!(q.dispatch(), Some(Held { consumer: fast, message: first(2) }));
    assert_eq!(q.dispatch(), None);
    assert!(q.ack(fast, 2));
    assert_eq!(q.next(), Some(fast));
    assert_eq!(q.dispatch(), Some(Held { consumer: fast, message: first(3) }));
    assert!(q.ack(fast, 3));
    assert_eq!(q.dispatch(), Some(Held { consumer: fast, message: first(4) }));
    assert_eq!(q.holding(slow), 1);
    assert_eq!(q.holding(fast), 1);
}

#[test]
fn turns_go_round() {
    let mut q = QueueModel::new();
    let a = q.join(None);
    let b = q.join(None);
    let c = q.join(None);
    for id in 1..=7u64 {
        q.publish(id);
    }
    let mut order: Vec<usize> = Vec::new();
    while let Some(h) = q.dispatch() {
        order.push(h.consumer);
    }
    assert_eq!(order, vec![a, b, c, a, b, c, a]);
}

#[test]
fn rejected_with_requeue_waits_in_front() {
    let mut q = QueueModel::new();
    let a = q.join(Some(1));
    q.publish(1);
    q.publish(2);
    assert_eq!(q.dispatch(), Some(Held { consumer: a, message: first(1) }));
    assert!(q.nack(a, 1, true));
    assert_eq!(q.waiting(), 2);
    assert_eq!(q.waiting_at(0), Some(again(1)));
    assert_eq!(q.waiting_at(1), Some(first(2)));
    assert_eq!(q.dispatch(), Some(Held { consumer: a, message: again(1) }));
}

#[test]
fn rejected_without_requeue_is_gone() {
    let mut q = QueueModel::new();
    let a = q.join(Some(1));
    q.publish(1);
    q.dispatch();
    assert!(q.nack(a, 1, false));
    assert_eq!(q.waiting(), 0);
    assert_eq!(q.holding(a), 0);
}

#[test]
fn settling_what_is_not_held_changes_nothing() {
    let mut q = QueueModel::new();
    let a = q.join(None);
    let b = q.join(None);
    q.publish(1);
    assert_eq!(q.dispatch(), Some(Held { consumer: a, message: first(1) }));
    assert!(!q.ack(b, 1));
    assert!(!q.ack(a, 2));
    assert!(!q.nack(b, 1, true));
    assert!(!q.ack(7, 1));
    assert_eq!(q.holding(a), 1);
    assert_eq!(q.waiting(), 0);
    assert!(q.ack(a, 1));
    assert!(!q.ack(a, 1));
}

#[test]
fn prefetch_zero_gets_nothing() {
    let mut q = QueueModel::new();
    let a = q.join(Some(0));
    q.publish(1);
    assert!(!q.is_eligible(a));
    assert_eq!(q.dispatch(), None);
    assert!(!q.is_eligible(5));
}

#[test]
fn each_task_is_acknowledged_once_by_one_worker() {
    let mut q = QueueModel::new();
    let workers = [q.join(Some(1)), q.join(Some(1))];
    let n: u64 = 40;
    for id in 1..=n {
        q.publish(id);
    }
    let mut acks: [Vec<u64>; 2] = [Vec::new(), Vec::new()];
    let mut busy: [Option<u64>; 2] = [None, None];
    let mut turn: usize = 0;
    while acks[0].len() + acks[1].len() < n as usize {
        while let Some(h) = q.dispatch() {
            // a worker that is busy with a task is given no further task
            assert_eq!(busy[h.consumer], None);
            busy[h.consumer] = Some(h.message.id);
        }
        // one of the busy workers finishes; they take turns, the second being slower
        let w = if busy[turn % 2].is_some() { turn % 2 } else { (turn + 1) % 2 };
        turn += if turn % 3 == 0 { 2 } else { 1 };
        let id = busy[w].take().expect("a busy worker");
        let other = 1 - w;
        assert!(!q.ack(workers[other], id));
        assert!(q.ack(workers[w], id));
        assert!(!q.ack(workers[w], id));
        acks[w].push(id);
    }
    assert_eq!(acks[0].len() + acks[1].len(), n as usize);
    let mut all: Vec<u64> = acks[0].iter().chain(acks[1].iter()).copied().collect();
    all.sort();
    assert_eq!(all, (1..=n).collect::<Vec<u64>>());
    assert_eq!(q.waiting(), 0);
    assert_eq!(q.holding(workers[0]) + q.holding(workers[1]), 0);
}
