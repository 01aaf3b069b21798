use amqp_patterns::consumer::{handle, Consumer, Handled, Window, Work};
use amqp_patterns::error::ErrorKind;
use amqp_patterns::message::{Command, Delivery, Properties};

fn delivery(tag: u64, payload: &[u8]) -> Delivery {
    Delivery {
        tag,
        routing_key: String::from("task_queue"),
        payload: payload.to_vec(),
        properties: Properties::new(),
        redelivered: false,
    }
}

#[test]
fn window_without_limit_takes_everything() {
    let mut w = Window::new(None);
    for tag in 1..=100u64 {
        assert!(w.eligible());
        assert!(w.offer(tag));
    }
    assert_eq!(w.held(), 100);
}

#[test]
fn window_of_one_holds_one() {
    let mut w = Window::new(Some(1));
    assert!(w.eligible());
    assert!(w.offer(1));
    assert!(!w.eligible());
    assert!(!w.offer(2));
    assert_eq!(w.held(), 1);
    assert!(w.holds(1));
    assert!(!w.holds(2));
    assert!(w.settle(1));
    assert!(w.eligible());
    assert!(w.offer(2));
    assert_eq!(w.held(), 1);
}

#[test]
fn window_of_zero_holds_nothing() {
    let mut w = Window::new(Some(0));
    assert!(!w.eligible());
    assert!(!w.offer(1));
    assert_eq!(w.held(), 0);
}

#[test]
fn window_takes_a_tag_once() {
    let mut w = Window::new(Some(3));
    assert!(w.offer(5));
    assert!(!w.offer(5));
    assert_eq!(w.held(), 1);
    assert!(w.offer(6));
    assert!(w.offer(7));
    assert!(!w.offer(8));
    assert_eq!(w.held(), 3);
}

#[test]
fn settling_an_unknown_tag_changes_nothing() {
    let mut w = Window::new(Some(2));
    assert!(w.offer(1));
    assert!(!w.settle(9));
    assert_eq!(w.held(), 1);
    assert!(w.settle(1));
    assert!(!w.settle(1));
    assert_eq!(w.held(), 0);
}

#[test]
fn burst_over_two_consumers_with_prefetch_one() {
    let mut consumers = [Consumer::new(Work::Task, Some(1)), Consumer::new(Work::Task, Some(1))];
    let mut held: [Option<u64>; 2] = [None, None];
    let mut done: Vec<u64> = Vec::new();
    for tag in 1..=20u64 {
        let d = delivery(tag, b"task.");
        let mut taken = false;
        for turn in 0..2usize {
            let c = ((tag as usize) + turn) % 2;
            let handled = consumers[c].on_delivery(&d);
            assert!(consumers[c].unacknowledged() <= 1);
            if handled.command == (Command::Ack { tag }) {
                held[c] = Some(tag);
                taken = true;
                break;
            }
            assert_eq!(handled.command, Command::Nack { tag, requeue: true });
        }
        if !taken {
            for c in 0..2usize {
                let finished = held[c].take().expect("a held task");
                assert!(consumers[c].on_settled(finished));
                done.push(finished);
            }
            let handled = consumers[0].on_delivery(&d);
            assert_eq!(handled.command, Command::Ack { tag });
            held[0] = Some(tag);
        }
        assert!(consumers[0].unacknowledged() <= 1);
        assert!(consumers[1].unacknowledged() <= 1);
    }
    assert!(done.len() >= 18);
}

#[test]
fn shown_text_is_acknowledged() {
    let handled = handle(Work::Show, &delivery(3, b"Hello World!"));
    assert_eq!(
        handled,
        Handled { text: Some(String::from("Hello World!")), seconds: 0, command: Command::Ack { tag: 3 } }
    );
}

#[test]
fn task_takes_a_second_for_each_dot() {
    let handled = handle(Work::Task, &delivery(4, b"Fourth message...."));
    assert_eq!(handled.text, Some(String::from("Fourth message....")));
    assert_eq!(handled.seconds, 4);
    assert_eq!(handled.command, Command::Ack { tag: 4 });
    assert_eq!(handle(Work::Task, &delivery(5, b"no dots")).seconds, 0);
    assert_eq!(handle(Work::Show, &delivery(6, b"dots...")).seconds, 0);
}

#[test]
fn malformed_payload_is_rejected_for_good() {
    for work in [Work::Show, Work::Task] {
        let handled = handle(work, &delivery(8, &[b'a', 0xff, b'.']));
        assert_eq!(
            handled,
            Handled { text: None, seconds: 0, command: Command::Nack { tag: 8, requeue: false } }
        );
    }
}

#[test]
fn consumer_goes_on_after_a_malformed_payload() {
    let mut c = Consumer::new(Work::Show, Some(1));
    let bad = c.on_delivery(&delivery(1, &[0xc0]));
    assert_eq!(bad.command, Command::Nack { tag: 1, requeue: false });
    assert!(c.on_settled(1));
    let good = c.on_delivery(&delivery(2, b"fine"));
    assert_eq!(good.text, Some(String::from("fine")));
    assert_eq!(good.command, Command::Ack { tag: 2 });
}

#[test]
fn consumer_turns_away_what_exceeds_its_window() {
    let mut c = Consumer::new(Work::Task, Some(1));
    assert_eq!(c.on_delivery(&delivery(1, b"a.")).command, Command::Ack { tag: 1 });
    let second = c.on_delivery(&delivery(2, b"b."));
    assert_eq!(second, Handled { text: None, seconds: 0, command: Command::Nack { tag: 2, requeue: true } });
    assert_eq!(c.unacknowledged(), 1);
    assert!(!c.on_settled(2));
    assert!(c.on_settled(1));
    assert_eq!(c.unacknowledged(), 0);
    assert_eq!(c.on_delivery(&delivery(2, b"b.")).command, Command::Ack { tag: 2 });
}

#[test]
fn cancelled_consumer_takes_nothing_new_and_settles_what_it_holds() {
    let mut c = Consumer::new(Work::Show, None);
    assert_eq!(c.on_delivery(&delivery(1, b"one")).command, Command::Ack { tag: 1 });
    assert_eq!(c.on_delivery(&delivery(2, b"two")).command, Command::Ack { tag: 2 });
    assert!(!c.done());
    c.cancel();
    assert!(!c.done());
    let late = c.on_delivery(&delivery(3, b"three"));
    assert_eq!(late, Handled { text: None, seconds: 0, command: Command::Nack { tag: 3, requeue: true } });
    assert_eq!(c.unacknowledged(), 2);
    assert!(c.on_settled(1));
    assert!(!c.done());
    assert!(c.on_settled(2));
    assert!(c.done());
    assert!(!c.on_settled(3));
}

#[test]
fn handled_deliveries_and_their_errors() {
    assert_eq!(handle(Work::Show, &delivery(1, b"fine")).error(), None);
    assert_eq!(handle(Work::Show, &delivery(1, &[0xff])).error(), Some(ErrorKind::DeliveryDecodeError));
    let mut c = Consumer::new(Work::Show, Some(0));
    assert_eq!(c.on_delivery(&delivery(1, b"fine")).error(), None);
}
