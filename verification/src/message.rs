//! Messages as a publisher hands them over and as a consumer receives them.

use vstd::prelude::*;

verus! {

/// The view of an optional name.
pub open spec fn name_view(name: Option<String>) -> Option<Seq<char>> {
    match name {
        Some(s) => Some(s@),
        None => None,
    }
}

/// A copy of an optional name.
pub fn copy_name(name: &Option<String>) -> (r: Option<String>)
    ensures
        r == *name,
{
    match name {
        Some(s) => Some(s.clone()),
        None => None,
    }
}

/// The metadata that travels with a payload.
#[derive(Debug, Clone, PartialEq, Eq)]
pub struct Properties {
    /// Whether the broker is asked to keep the message across a restart.
    pub persistent: bool,
    /// The queue on which the sender awaits a reply.
    pub reply_to: Option<String>,
    /// The token that ties a reply to its request.
    pub correlation_id: Option<String>,
}

/// What `Properties` hold, as mathematical values.
pub struct PropertiesView {
    pub persistent: bool,
    pub reply_to: Option<Seq<char>>,
    pub correlation_id: Option<Seq<char>>,
}

impl View for Properties {
    type V = PropertiesView;

    open spec fn view(&self) -> PropertiesView {
        PropertiesView {
            persistent: self.persistent,
            reply_to: name_view(self.reply_to),
            correlation_id: name_view(self.correlation_id),
        }
    }
}

impl Properties {
    /// Transient, with no reply queue and no correlation id.
    pub fn new() -> (p: Properties)
        ensures
            p@ == (PropertiesView { persistent: false, reply_to: None, correlation_id: None }),
    {
        Properties { persistent: false, reply_to: None, correlation_id: None }
    }

    /// The same properties with the persistence flag set to `persistent`.
    pub fn with_persistence(self, persistent: bool) -> (p: Properties)
        ensures
            p@ == (PropertiesView { persistent, ..self@ }),
    {
        Properties { persistent, reply_to: self.reply_to, correlation_id: self.correlation_id }
    }

    /// The same properties with `queue` as the reply queue.
    pub fn with_reply_to(self, queue: String) -> (p: Properties)
        ensures
            p@ == (PropertiesView { reply_to: Some(queue@), ..self@ }),
    {
        Properties {
            persistent: self.persistent,
            reply_to: Some(queue),
            correlation_id: self.correlation_id,
        }
    }

    /// The same properties with `id` as the correlation id.
    pub fn with_correlation_id(self, id: String) -> (p: Properties)
        ensures
            p@ == (PropertiesView { correlation_id: Some(id@), ..self@ }),
    {
        Properties { persistent: self.persistent, reply_to: self.reply_to, correlation_id: Some(id) }
    }

    /// A copy with the same contents.
    pub fn duplicate(&self) -> (p: Properties)
        ensures
            p == *self,
    {
        Properties {
            persistent: self.persistent,
            reply_to: copy_name(&self.reply_to),
            correlation_id: copy_name(&self.correlation_id),
        }
    }
}

/// An outbound message: payload, destination and metadata.
#[derive(Debug, Clone, PartialEq, Eq)]
pub struct Publish {
    /// The exchange to publish to; the empty name is the default exchange,
    /// which routes to the queue named by the routing key.
    pub exchange: String,
    /// The routing key; a fanout exchange ignores it.
    pub routing_key: String,
    /// The payload bytes.
    pub payload: Vec<u8>,
    /// The metadata.
    pub properties: Properties,
}

/// What a `Publish` holds, as mathematical values.
pub struct PublishView {
    pub exchange: Seq<char>,
    pub routing_key: Seq<char>,
    pub payload: Seq<u8>,
    pub properties: PropertiesView,
}

impl View for Publish {
    type V = PublishView;

    open spec fn view(&self) -> PublishView {
        PublishView {
            exchange: self.exchange@,
            routing_key: self.routing_key@,
            payload: self.payload@,
            properties: self.properties@,
        }
    }
}

/// A message as the broker delivers it to a consumer.
#[derive(Debug, Clone, PartialEq, Eq)]
pub struct Delivery {
    /// The tag by which the delivery is acknowledged.
    pub tag: u64,
    /// The routing key the message was published with.
    pub routing_key: String,
    /// The payload bytes.
    pub payload: Vec<u8>,
    /// The metadata.
    pub properties: Properties,
    /// Whether the broker has delivered this message before.
    pub redelivered: bool,
}

/// What a `Delivery` holds, as mathematical values.
pub struct DeliveryView {
    pub tag: u64,
    pub routing_key: Seq<char>,
    pub payload: Seq<u8>,
    pub properties: PropertiesView,
    pub redelivered: bool,
}

impl View for Delivery {
    type V = DeliveryView;

    open spec fn view(&self) -> DeliveryView {
        DeliveryView {
            tag: self.tag,
            routing_key: self.routing_key@,
            payload: self.payload@,
            properties: self.properties@,
            redelivered: self.redelivered,
        }
    }
}

/// What the caller does next on the channel.
#[derive(Debug, Clone, PartialEq, Eq)]
pub enum Command {
    /// Publish the message and await the broker's confirmation.
    Publish(Publish),
    /// Acknowledge the delivery with this tag.
    Ack { tag: u64 },
    /// Reject the delivery with this tag; with `requeue` the broker offers it again.
    Nack { tag: u64, requeue: bool },
    /// Nothing to do: await the next event.
    Wait,
    /// Leave the loop with the failure of what was last tried. Nothing is
    /// acknowledged and nothing rejected: what is held unacknowledged stays
    /// so, and the broker offers it again.
    Fail,
}

/// What a `Command` holds, as mathematical values.
pub enum CommandView {
    Publish(PublishView),
    Ack { tag: u64 },
    Nack { tag: u64, requeue: bool },
    Wait,
    Fail,
}

impl View for Command {
    type V = CommandView;

    open spec fn view(&self) -> CommandView {
        match self {
            Command::Publish(p) => CommandView::Publish(p@),
            Command::Ack { tag } => CommandView::Ack { tag: *tag },
            Command::Nack { tag, requeue } => CommandView::Nack { tag: *tag, requeue: *requeue },
            Command::Wait => CommandView::Wait,
            Command::Fail => CommandView::Fail,
        }
    }
}

} // verus!
