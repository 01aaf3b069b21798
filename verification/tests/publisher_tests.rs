use amqp_patterns::consumer::{handle, Work};
use amqp_patterns::error::ErrorKind;
use amqp_patterns::message::{Command, Delivery, Properties};
use amqp_patterns::publisher::{publish, publish_outcome, publish_text, text_message, Confirmation};
use amqp_patterns::routing::ExchangeKind;

#[test]
fn published_text_arrives_as_it_was_sent() {
    let message = text_message("logs", "", "caf\u{e9} \u{2615}", false);
    assert_eq!(message.exchange, "logs");
    assert_eq!(message.routing_key, "");
    assert_eq!(message.payload, "caf\u{e9} \u{2615}".as_bytes().to_vec());
    assert_eq!(message.properties, Properties::new());
    let handled = handle(Work::Show, &Delivery {
        tag: 1,
        routing_key: message.routing_key.clone(),
        payload: message.payload.clone(),
        properties: message.properties.clone(),
        redelivered: true,
    });
    assert_eq!(handled.text, Some(String::from("caf\u{e9} \u{2615}")));
    assert_eq!(handled.command, Command::Ack { tag: 1 });
}

#[test]
fn publish_outcomes() {
    assert_eq!(publish_outcome(Confirmation::Ack), Ok(()));
    assert_eq!(publish_outcome(Confirmation::NotRequested), Err(ErrorKind::PublishUnconfirmed));
    assert_eq!(publish_outcome(Confirmation::Nack), Err(ErrorKind::PublishUnconfirmed));
    assert_eq!(publish_outcome(Confirmation::DeadlinePassed), Err(ErrorKind::PublishUnconfirmed));
}

#[test]
fn routing_key_is_required_except_for_fanout() {
    let props = Properties::new().with_persistence(true);
    assert_eq!(publish(ExchangeKind::Direct, "direct_logs", "", b"x".to_vec(), props.clone()), None);
    assert_eq!(publish(ExchangeKind::Topic, "topic_logs", "", b"x".to_vec(), props.clone()), None);
    assert_eq!(
        publish(ExchangeKind::Fanout, "logs", "", b"x".to_vec(), props.clone()),
        Some(amqp_patterns::message::Publish {
            exchange: String::from("logs"),
            routing_key: String::new(),
            payload: b"x".to_vec(),
            properties: props.clone(),
        })
    );
    assert_eq!(
        publish(ExchangeKind::Direct, "", "hello", vec![1, 2, 3], Properties::new()),
        Some(amqp_patterns::message::Publish {
            exchange: String::new(),
            routing_key: String::from("hello"),
            payload: vec![1, 2, 3],
            properties: Properties::new(),
        })
    );
    assert_eq!(
        publish(ExchangeKind::Fanout, "logs", "kept", Vec::new(), Properties::new()).map(|m| m.routing_key),
        Some(String::from("kept"))
    );
}

#[test]
fn publish_text_carries_the_bytes_of_the_text() {
    assert_eq!(publish_text(ExchangeKind::Topic, "topic_logs", "", "x", false), None);
    assert_eq!(
        publish_text(ExchangeKind::Topic, "topic_logs", "kern.info", "caf\u{e9}", true),
        Some(text_message("topic_logs", "kern.info", "caf\u{e9}", true))
    );
    assert_eq!(
        publish_text(ExchangeKind::Fanout, "logs", "", "line", false).map(|m| m.payload),
        Some(b"line".to_vec())
    );
}

#[test]
fn only_an_acknowledged_publish_is_confirmed() {
    let confirmed: Vec<Confirmation> = [
        Confirmation::Ack,
        Confirmation::Nack,
        Confirmation::NotRequested,
        Confirmation::DeadlinePassed,
    ]
    .into_iter()
    .filter(|answer| publish_outcome(*answer).is_ok())
    .collect();
    assert_eq!(confirmed, vec![Confirmation::Ack]);
}
