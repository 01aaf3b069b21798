//! The publishing side: the message that is handed to the channel, and what
//! the broker's answer means.

use vstd::prelude::*;
use vstd::utf8::encode_utf8;
use crate::consumer::{handle_spec, Work};
use crate::error::ErrorKind;
use crate::message::{CommandView, DeliveryView, Properties, PropertiesView, Publish, PublishView};
use crate::routing::ExchangeKind;

verus! {

/// The message that carries `text`: its UTF-8 bytes, with no reply queue and
/// no correlation id.
pub open spec fn text_message_spec(
    exchange: Seq<char>,
    routing_key: Seq<char>,
    text: Seq<char>,
    persistent: bool,
) -> PublishView {
    PublishView {
        exchange,
        routing_key,
        payload: encode_utf8(text),
        properties: PropertiesView { persistent, reply_to: None, correlation_id: None },
    }
}

/// Whether a message with `routing_key` may be published to an exchange of
/// `kind`: a routing key is required, except for a fanout exchange, which
/// ignores it.
pub open spec fn has_routing_key(kind: ExchangeKind, routing_key: Seq<char>) -> bool {
    kind is Fanout || routing_key.len() > 0
}

/// The message that carries `text` to `exchange` under `routing_key`.
pub fn text_message(exchange: &str, routing_key: &str, text: &str, persistent: bool) -> (message:
    Publish)
    ensures
        message@ == text_message_spec(exchange@, routing_key@, text@, persistent),
{
    Publish {
        exchange: String::from_str(exchange),
        routing_key: String::from_str(routing_key),
        payload: text.as_bytes_vec(),
        properties: Properties::new().with_persistence(persistent),
    }
}

/// The message that carries `payload` to `exchange`, an exchange of `kind`,
/// under `routing_key`; `None` where the routing key is missing and the
/// exchange needs one.
pub fn publish(
    kind: ExchangeKind,
    exchange: &str,
    routing_key: &str,
    payload: Vec<u8>,
    properties: Properties,
) -> (r: Option<Publish>)
    ensures
        r is Some <==> has_routing_key(kind, routing_key@),
        r matches Some(message) ==> message@ == (PublishView {
            exchange: exchange@,
            routing_key: routing_key@,
            payload: payload@,
            properties: properties@,
        }),
{
    let needs_key: bool = match kind {
        ExchangeKind::Fanout => false,
        _ => true,
    };
    if needs_key && routing_key.unicode_len() == 0 {
        None
    } else {
        Some(
            Publish {
                exchange: String::from_str(exchange),
                routing_key: String::from_str(routing_key),
                payload,
                properties,
            },
        )
    }
}

/// The message that carries `text` to `exchange`, an exchange of `kind`, under
/// `routing_key`; `None` where the routing key is missing and the exchange
/// needs one.
pub fn publish_text(
    kind: ExchangeKind,
    exchange: &str,
    routing_key: &str,
    text: &str,
    persistent: bool,
) -> (r: Option<Publish>)
    ensures
        r is Some <==> has_routing_key(kind, routing_key@),
        r matches Some(message) ==> message@ == text_message_spec(
            exchange@,
            routing_key@,
            text@,
            persistent,
        ),
{
    publish(
        kind,
        exchange,
        routing_key,
        text.as_bytes_vec(),
        Properties::new().with_persistence(persistent),
    )
}

/// The broker's answer to a published message.
#[derive(Clone, Copy, Debug, PartialEq, Eq, Structural)]
pub enum Confirmation {
    /// The broker has acknowledged receipt of the message.
    Ack,
    /// The broker has refused the message.
    Nack,
    /// The channel does not ask for confirmations: the message was handed over
    /// and no answer will come.
    NotRequested,
    /// No answer came before the deadline.
    DeadlinePassed,
}

/// Whether the answer confirms the message: the broker has acknowledged
/// receipt of it. Nothing else does.
pub open spec fn is_confirmed(answer: Confirmation) -> bool {
    answer is Ack
}

/// What the broker's answer means to the publisher: success once the broker
/// has acknowledged receipt, and `PublishUnconfirmed` for a refusal, a missed
/// deadline and an answer that will never come. No failure is passed over,
/// and nothing is published again here: whether to try once more is the
/// caller's decision.
pub fn publish_outcome(answer: Confirmation) -> (r: Result<(), ErrorKind>)
    ensures
        r == (if is_confirmed(answer) {
            Ok::<(), ErrorKind>(())
        } else {
            Err::<(), ErrorKind>(ErrorKind::PublishUnconfirmed)
        }),
{
    match answer {
        Confirmation::Ack => Ok(()),
        Confirmation::Nack | Confirmation::NotRequested | Confirmation::DeadlinePassed => Err(
            ErrorKind::PublishUnconfirmed,
        ),
    }
}

/// The delivery that a consumer gets of a published message.
pub open spec fn delivery_of(message: PublishView, tag: u64, redelivered: bool) -> DeliveryView {
    DeliveryView {
        tag,
        routing_key: message.routing_key,
        payload: message.payload,
        properties: message.properties,
        redelivered,
    }
}

/// What is published as a text is consumed as the same text, and
/// acknowledged, on the first delivery and on every later one.
pub proof fn lemma_text_arrives(
    exchange: Seq<char>,
    routing_key: Seq<char>,
    text: Seq<char>,
    persistent: bool,
    work: Work,
    tag: u64,
    redelivered: bool,
)
    ensures
        ({
            let message = text_message_spec(exchange, routing_key, text, persistent);
            let handled = handle_spec(work, delivery_of(message, tag, redelivered));
            handled.text == Some(text) && handled.command == (CommandView::Ack { tag })
        }),
{
    vstd::utf8::encode_utf8_valid_utf8(text);
    vstd::utf8::encode_utf8_decode_utf8(text);
}

} // verus!
