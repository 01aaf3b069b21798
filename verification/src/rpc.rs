//! Request and reply over queues: the serving side and the correlation of
//! replies with pending requests on the calling side.

use vstd::prelude::*;
use crate::error::ErrorKind;
use crate::fib::{fib_checked, fib_of, FIB_MAX_ARG};
use crate::message::{
    Command, CommandView, Delivery, DeliveryView, Properties, PropertiesView, Publish, PublishView,
};
use crate::names::NameTable;
use crate::publisher::delivery_of;
use crate::text::{decimal_of, encode_i32, i32_of_decimal, lemma_i32_roundtrip, parse_i32};

verus! {

/// Where the serving side stands between two requests.
#[derive(Clone, Copy, Debug, PartialEq, Eq, Structural)]
pub enum ServerState {
    /// Ready for a request.
    Idle,
    /// The reply to the request delivered under `tag` is on its way to the
    /// broker; the request is not acknowledged yet.
    Replying { tag: u64 },
    /// The reply to the request delivered under `tag` could not be published:
    /// the server has left the loop, and the request stays unacknowledged.
    Failed { tag: u64 },
}

/// The reply that a request is owed: the Fibonacci number of its argument, in
/// decimal, sent through the default exchange to the request's reply queue
/// under the request's correlation id. `None` where the payload is no decimal
/// `i32`, the argument has no Fibonacci number that fits, the reply queue is
/// missing or has an empty name, or the correlation id is missing.
pub open spec fn reply_for(request: DeliveryView) -> Option<PublishView> {
    let argument = i32_of_decimal(request.payload);
    if argument is Some && 0 <= argument->0 <= FIB_MAX_ARG && request.properties.reply_to is Some
        && request.properties.reply_to->0.len() > 0 && request.properties.correlation_id is Some {
        Some(
            PublishView {
                exchange: Seq::empty(),
                routing_key: request.properties.reply_to->0,
                payload: decimal_of(fib_of(argument->0 as nat) as int),
                properties: PropertiesView {
                    persistent: false,
                    reply_to: None,
                    correlation_id: request.properties.correlation_id,
                },
            },
        )
    } else {
        None
    }
}

/// The serving side's move on a delivery from the request queue.
///
/// An idle server publishes the reply that the request is owed, keeping the
/// acknowledgment for later, and rejects, for good, a request that is owed
/// none: one with an empty payload as any other, and the loop goes on. A
/// server that is busy with a reply, or has left the loop, hands the delivery
/// back to the broker.
pub open spec fn server_on_request(state: ServerState, request: DeliveryView) -> (
    ServerState,
    CommandView,
) {
    match state {
        ServerState::Idle => match reply_for(request) {
            Some(reply) => (ServerState::Replying { tag: request.tag }, CommandView::Publish(reply)),
            None => (state, CommandView::Nack { tag: request.tag, requeue: false }),
        },
        _ => (state, CommandView::Nack { tag: request.tag, requeue: true }),
    }
}

/// The serving side's move once the publishing of a reply has come to an end.
/// After a confirmed reply the request is acknowledged. After a reply that
/// failed or was not confirmed the request is neither acknowledged nor
/// rejected: the server leaves the loop with the failure, and the broker
/// offers the request again.
pub open spec fn server_on_outcome(state: ServerState, confirmed: bool) -> (
    ServerState,
    CommandView,
) {
    match state {
        ServerState::Replying { tag } => if confirmed {
            (ServerState::Idle, CommandView::Ack { tag })
        } else {
            (ServerState::Failed { tag }, CommandView::Fail)
        },
        _ => (state, CommandView::Wait),
    }
}

/// The serving side of the request/reply pattern.
///
/// A request may be served more than once: one whose reply failed or was not
/// confirmed, or whose server went away before acknowledging, stays
/// unacknowledged and is delivered again.
pub struct RpcServer {
    state: ServerState,
}

impl View for RpcServer {
    type V = ServerState;

    closed spec fn view(&self) -> ServerState {
        self.state
    }
}

impl RpcServer {
    /// An idle server.
    pub fn new() -> (server: RpcServer)
        ensures
            server@ == ServerState::Idle,
    {
        RpcServer { state: ServerState::Idle }
    }

    /// Where the server stands.
    pub fn state(&self) -> (state: ServerState)
        ensures
            state == self@,
    {
        self.state
    }

    /// Takes a delivery from the request queue and says what to do with it.
    pub fn on_request(&mut self, request: &Delivery) -> (command: Command)
        ensures
            (final(self)@, command@) == server_on_request(old(self)@, request@),
    {
        match self.state {
            ServerState::Idle => {},
            _ => {
                return Command::Nack { tag: request.tag, requeue: true };
            },
        }
        let rejected = Command::Nack { tag: request.tag, requeue: false };
        let argument: i32 = match parse_i32(request.payload.as_slice()) {
            Some(n) => n,
            None => {
                return rejected;
            },
        };
        let result: i32 = match fib_checked(argument) {
            Some(r) => r,
            None => {
                return rejected;
            },
        };
        let reply_to: String = match &request.properties.reply_to {
            Some(queue) => queue.clone(),
            None => {
                return rejected;
            },
        };
        if reply_to.as_str().unicode_len() == 0 {
            return rejected;
        }
        let correlation_id: String = match &request.properties.correlation_id {
            Some(id) => id.clone(),
            None => {
                return rejected;
            },
        };
        proof {
            crate::fib::lemma_fib_limits();
            crate::fib::lemma_fib_monotonic(argument as nat, 46);
        }
        self.state = ServerState::Replying { tag: request.tag };
        Command::Publish(
            Publish {
                exchange: String::new(),
                routing_key: reply_to,
                payload: encode_i32(result),
                properties: Properties::new().with_correlation_id(correlation_id),
            },
        )
    }

    /// Takes the end of the publishing of a reply, `confirmed` where the
    /// broker has confirmed it, and says what to do with the request.
    pub fn on_publish_outcome(&mut self, confirmed: bool) -> (command: Command)
        ensures
            (final(self)@, command@) == server_on_outcome(old(self)@, confirmed),
    {
        match self.state {
            ServerState::Replying { tag } => {
                if confirmed {
                    self.state = ServerState::Idle;
                    Command::Ack { tag }
                } else {
                    self.state = ServerState::Failed { tag };
                    Command::Fail
                }
            },
            _ => Command::Wait,
        }
    }
}


/// Where a request stands on the calling side.
#[derive(Clone, Copy, Debug, PartialEq, Eq, Structural)]
pub enum RequestState {
    /// The request has its correlation id and its reply queue.
    Created,
    /// The broker has confirmed the request.
    Published,
    /// The caller consumes from the reply queue.
    AwaitingReply,
    /// The reply has arrived.
    Matched,
    /// The deadline has passed without a reply.
    TimedOut,
    /// The connection went away before the reply came.
    ConnectionLost,
}

/// What can happen to a request, besides the arrival of its reply.
#[derive(Clone, Copy, Debug, PartialEq, Eq, Structural)]
pub enum RequestEvent {
    /// The broker has confirmed the publishing of the request.
    PublishConfirmed,
    /// The caller has begun to consume from the reply queue.
    Subscribed,
    /// The caller's deadline has passed.
    DeadlinePassed,
    /// The connection has been closed.
    ConnectionClosed,
}

/// Whether a request in this state is over.
pub open spec fn is_terminal(state: RequestState) -> bool {
    state is Matched || state is TimedOut || state is ConnectionLost
}

/// The state of a request after an event. A request that is over stays as it
/// is; a deadline or a lost connection ends any other; a confirmation moves a
/// created request on, and the subscription a published one.
pub open spec fn next_state(state: RequestState, event: RequestEvent) -> RequestState {
    if is_terminal(state) {
        state
    } else {
        match event {
            RequestEvent::DeadlinePassed => RequestState::TimedOut,
            RequestEvent::ConnectionClosed => RequestState::ConnectionLost,
            RequestEvent::PublishConfirmed => if state is Created {
                RequestState::Published
            } else {
                state
            },
            RequestEvent::Subscribed => if state is Published {
                RequestState::AwaitingReply
            } else {
                state
            },
        }
    }
}

/// The state of a request after an event.
pub fn advance(state: RequestState, event: RequestEvent) -> (next: RequestState)
    ensures
        next == next_state(state, event),
{
    match state {
        RequestState::Matched | RequestState::TimedOut | RequestState::ConnectionLost => state,
        _ => match event {
            RequestEvent::DeadlinePassed => RequestState::TimedOut,
            RequestEvent::ConnectionClosed => RequestState::ConnectionLost,
            RequestEvent::PublishConfirmed => match state {
                RequestState::Created => RequestState::Published,
                _ => state,
            },
            RequestEvent::Subscribed => match state {
                RequestState::Published => RequestState::AwaitingReply,
                _ => state,
            },
        },
    }
}

/// Whether a request in this state is over.
pub fn terminal(state: RequestState) -> (r: bool)
    ensures
        r == is_terminal(state),
{
    match state {
        RequestState::Matched | RequestState::TimedOut | RequestState::ConnectionLost => true,
        _ => false,
    }
}

/// What a delivery on the reply queue turned out to be.
#[derive(Clone, Copy, Debug, PartialEq, Eq, Structural)]
pub enum ReplyOutcome {
    /// The reply to a request that awaited it, with the value it carries.
    Matched { value: i32 },
    /// A delivery that answers no request awaiting a reply.
    Stray,
    /// The reply to a request that awaits it, with a payload that is no
    /// decimal `i32`.
    Undecodable,
}

/// The failure that an outcome is reported as, if it is one.
pub open spec fn outcome_error(outcome: ReplyOutcome) -> Option<ErrorKind> {
    match outcome {
        ReplyOutcome::Matched { .. } => None,
        ReplyOutcome::Stray => Some(ErrorKind::StrayReply),
        ReplyOutcome::Undecodable => Some(ErrorKind::DeliveryDecodeError),
    }
}

/// The failure that the end of a request is reported as, if it is one.
pub open spec fn state_error(state: RequestState) -> Option<ErrorKind> {
    match state {
        RequestState::TimedOut => Some(ErrorKind::RpcTimeout),
        RequestState::ConnectionLost => Some(ErrorKind::ConnectionFailure),
        _ => None,
    }
}

impl ReplyOutcome {
    /// The failure that the outcome is reported as, if it is one. Neither of
    /// the two ends the consume loop.
    pub fn error(self) -> (r: Option<ErrorKind>)
        ensures
            r == outcome_error(self),
    {
        match self {
            ReplyOutcome::Matched { .. } => None,
            ReplyOutcome::Stray => Some(ErrorKind::StrayReply),
            ReplyOutcome::Undecodable => Some(ErrorKind::DeliveryDecodeError),
        }
    }
}

impl RequestState {
    /// The failure that the end of a request is reported as, if it is one: a
    /// request that timed out is told apart from one that was answered.
    pub fn error(self) -> (r: Option<ErrorKind>)
        ensures
            r == state_error(self),
    {
        match self {
            RequestState::TimedOut => Some(ErrorKind::RpcTimeout),
            RequestState::ConnectionLost => Some(ErrorKind::ConnectionFailure),
            _ => None,
        }
    }
}

/// The outcome of a delivery on the reply queue, and what to do with the
/// delivery.
#[derive(Debug, Clone, PartialEq, Eq)]
pub struct ReplyStep {
    pub outcome: ReplyOutcome,
    pub command: Command,
}

/// The pending requests and the reply queue of a caller, as mathematical values.
pub struct RpcClientView {
    pub reply_queue: Seq<char>,
    pub pending: Map<Seq<char>, RequestState>,
}

/// The message that carries a request: the argument in decimal, sent through
/// the default exchange, with the reply queue and the correlation id.
pub open spec fn request_message(
    reply_queue: Seq<char>,
    id: Seq<char>,
    argument: i32,
    routing_key: Seq<char>,
) -> PublishView {
    PublishView {
        exchange: Seq::empty(),
        routing_key,
        payload: decimal_of(argument as int),
        properties: PropertiesView {
            persistent: false,
            reply_to: Some(reply_queue),
            correlation_id: Some(id),
        },
    }
}

/// Whether a request can be created under the correlation id `id`: no pending
/// request has that id, and the request has a queue to go to.
pub open spec fn can_begin(client: RpcClientView, id: Seq<char>, routing_key: Seq<char>) -> bool {
    !client.pending.contains_key(id) && routing_key.len() > 0
}

/// What a message is, if there is one, as mathematical values.
pub open spec fn message_view(message: Option<Publish>) -> Option<PublishView> {
    match message {
        Some(m) => Some(m@),
        None => None,
    }
}

/// What creating a request under the correlation id `id` comes to. Where the
/// request can be created, it is pending from now on, in the state `Created`,
/// and the message that carries it is the result; where it cannot, nothing
/// changes and there is no result.
pub open spec fn begun(
    before: RpcClientView,
    after: RpcClientView,
    id: Seq<char>,
    argument: i32,
    routing_key: Seq<char>,
    result: Option<PublishView>,
) -> bool {
    if can_begin(before, id, routing_key) {
        &&& result == Some(request_message(before.reply_queue, id, argument, routing_key))
        &&& after == (RpcClientView {
            pending: before.pending.insert(id, RequestState::Created),
            ..before
        })
    } else {
        result is None && after == before
    }
}

/// Whether a delivery on the reply queue answers a request that awaits a reply.
pub open spec fn answers(pending: Map<Seq<char>, RequestState>, reply: DeliveryView) -> bool {
    &&& reply.properties.correlation_id is Some
    &&& pending.contains_key(reply.properties.correlation_id->0)
    &&& pending[reply.properties.correlation_id->0] is AwaitingReply
}

/// What a delivery on the reply queue is, given the pending requests.
pub open spec fn reply_outcome(pending: Map<Seq<char>, RequestState>, reply: DeliveryView) -> ReplyOutcome {
    if answers(pending, reply) {
        match i32_of_decimal(reply.payload) {
            Some(value) => ReplyOutcome::Matched { value },
            None => ReplyOutcome::Undecodable,
        }
    } else {
        ReplyOutcome::Stray
    }
}

/// The pending requests after a delivery on the reply queue: a matched request
/// leaves the table, and nothing else changes.
pub open spec fn pending_after_reply(
    pending: Map<Seq<char>, RequestState>,
    reply: DeliveryView,
) -> Map<Seq<char>, RequestState> {
    if reply_outcome(pending, reply) is Matched {
        pending.remove(reply.properties.correlation_id->0)
    } else {
        pending
    }
}

/// What to do with a delivery on the reply queue: a reply that cannot be read
/// is rejected for good, every other delivery is acknowledged.
pub open spec fn reply_command(outcome: ReplyOutcome, tag: u64) -> CommandView {
    if outcome is Undecodable {
        CommandView::Nack { tag, requeue: false }
    } else {
        CommandView::Ack { tag }
    }
}

/// The pending requests after an event on the request `id`: an unknown id
/// changes nothing, a request that is over leaves the table, any other moves
/// to its next state.
pub open spec fn pending_after_event(
    pending: Map<Seq<char>, RequestState>,
    id: Seq<char>,
    event: RequestEvent,
) -> Map<Seq<char>, RequestState> {
    if !pending.contains_key(id) {
        pending
    } else if is_terminal(next_state(pending[id], event)) {
        pending.remove(id)
    } else {
        pending.insert(id, next_state(pending[id], event))
    }
}

/// Whether `c` is a decimal digit or one of the letters `a` to `f`.
pub open spec fn is_lower_hex(c: char) -> bool {
    ('0' <= c && c <= '9') || ('a' <= c && c <= 'f')
}

/// Whether `s` has the shape of a random UUID in its hyphenated form: 36
/// characters, hyphens after the 8th, 12th, 16th and 20th digit, lower-case
/// hexadecimal digits elsewhere, and the version digit `4`.
pub open spec fn is_random_uuid(s: Seq<char>) -> bool {
    &&& s.len() == 36
    &&& forall|i: int|
        0 <= i < 36 ==> if i == 8 || i == 13 || i == 18 || i == 23 {
            #[trigger] s[i] == '-'
        } else {
            is_lower_hex(s[i])
        }
    &&& s[14] == '4'
}

/// `uuid::Uuid::new_v4`, written out by `to_string`: a fresh random identifier
/// in the shape that `is_random_uuid` describes. Nothing is claimed of which
/// identifier it is: two calls may give the same one. The call panics where
/// the operating system cannot supply random bytes.
#[verifier::external_body]
fn new_correlation_id() -> (id: String)
    ensures
        is_random_uuid(id@),
{
    uuid::Uuid::new_v4().to_string()
}

/// The calling side of the request/reply pattern: the table of requests that
/// await their replies on one reply queue.
pub struct RpcClient {
    reply_queue: String,
    pending: NameTable<RequestState>,
}

impl View for RpcClient {
    type V = RpcClientView;

    closed spec fn view(&self) -> RpcClientView {
        RpcClientView { reply_queue: self.reply_queue@, pending: self.pending@ }
    }
}

impl RpcClient {
    /// A caller that awaits its replies on `reply_queue`, with no request pending.
    pub fn new(reply_queue: String) -> (client: RpcClient)
        ensures
            client@ == (RpcClientView { reply_queue: reply_queue@, pending: Map::empty() }),
    {
        RpcClient { reply_queue, pending: NameTable::new() }
    }

    /// The state of the pending request `id`, if there is one.
    pub fn state_of(&self, id: &str) -> (r: Option<RequestState>)
        ensures
            r == (if self@.pending.contains_key(id@) {
                Some(self@.pending[id@])
            } else {
                None
            }),
    {
        self.pending.get(id)
    }

    /// Creates the request for `argument` under the correlation id `id` and
    /// returns the message that carries it. An id that is already pending is
    /// refused, and so is an empty routing key: nothing changes and `None` is
    /// returned.
    pub fn begin(&mut self, id: String, argument: i32, routing_key: &str) -> (r: Option<Publish>)
        ensures
            begun(old(self)@, final(self)@, id@, argument, routing_key@, message_view(r)),
            final(self)@.reply_queue == old(self)@.reply_queue,
            r is Some <==> can_begin(old(self)@, id@, routing_key@),
            r is None ==> final(self)@ == old(self)@,
            r matches Some(message) ==> message@ == request_message(
                old(self)@.reply_queue,
                id@,
                argument,
                routing_key@,
            ) && final(self)@.pending == old(self)@.pending.insert(id@, RequestState::Created),
    {
        if routing_key.unicode_len() == 0 || self.pending.contains(id.as_str()) {
            return None;
        }
        self.pending.insert(id.clone(), RequestState::Created);
        Some(
            Publish {
                exchange: String::new(),
                routing_key: String::from_str(routing_key),
                payload: encode_i32(argument),
                properties: Properties::new().with_reply_to(
                    self.reply_queue.clone(),
                ).with_correlation_id(id),
            },
        )
    }

    /// Creates the request for `argument` under a fresh random correlation id
    /// and returns the message that carries it: what `begin` does with an id
    /// in the shape of a random UUID. Should the id be pending already,
    /// nothing changes and `None` is returned: the caller asks again. With an
    /// empty routing key nothing is ever created; with a routing key and no
    /// pending request in the way, the request is created.
    pub fn request(&mut self, argument: i32, routing_key: &str) -> (r: Option<Publish>)
        ensures
            exists|id: Seq<char>|
                is_random_uuid(id) && #[trigger] begun(
                    old(self)@,
                    final(self)@,
                    id,
                    argument,
                    routing_key@,
                    message_view(r),
                ),
            final(self)@.reply_queue == old(self)@.reply_queue,
            r is None ==> final(self)@ == old(self)@,
            r is Some ==> routing_key@.len() > 0,
            r matches Some(message) ==> {
                &&& message@.properties.correlation_id is Some
                &&& is_random_uuid(message@.properties.correlation_id->0)
                &&& !old(self)@.pending.contains_key(message@.properties.correlation_id->0)
                &&& message@ == request_message(
                    old(self)@.reply_queue,
                    message@.properties.correlation_id->0,
                    argument,
                    routing_key@,
                )
                &&& final(self)@.pending == old(self)@.pending.insert(
                    message@.properties.correlation_id->0,
                    RequestState::Created,
                )
            },
    {
        let id = new_correlation_id();
        let ghost drawn = id@;
        let r = self.begin(id, argument, routing_key);
        assert(begun(old(self)@, self@, drawn, argument, routing_key@, message_view(r)));
        r
    }

    /// Records an event on the request `id` and returns the state it has
    /// reached; `None` for an id that is not pending. A request that the event
    /// ends leaves the table, so that a reply that comes later is a stray.
    pub fn on_event(&mut self, id: &str, event: RequestEvent) -> (r: Option<RequestState>)
        ensures
            final(self)@.reply_queue == old(self)@.reply_queue,
            final(self)@.pending == pending_after_event(old(self)@.pending, id@, event),
            r == (if old(self)@.pending.contains_key(id@) {
                Some(next_state(old(self)@.pending[id@], event))
            } else {
                None
            }),
    {
        match self.pending.get(id) {
            None => None,
            Some(state) => {
                let next = advance(state, event);
                if terminal(next) {
                    self.pending.remove(id);
                } else {
                    self.pending.insert(String::from_str(id), next);
                }
                Some(next)
            },
        }
    }

    /// Takes a delivery from the reply queue. The reply to a request that
    /// awaits it completes that request, which leaves the table, and no other;
    /// any other delivery is a stray and changes nothing.
    pub fn on_reply(&mut self, reply: &Delivery) -> (step: ReplyStep)
        ensures
            final(self)@.reply_queue == old(self)@.reply_queue,
            final(self)@.pending == pending_after_reply(old(self)@.pending, reply@),
            step.outcome == reply_outcome(old(self)@.pending, reply@),
            step.command@ == reply_command(step.outcome, reply.tag),
    {
        let stray = ReplyStep { outcome: ReplyOutcome::Stray, command: Command::Ack { tag: reply.tag } };
        let id: &String = match &reply.properties.correlation_id {
            Some(id) => id,
            None => {
                return stray;
            },
        };
        match self.pending.get(id.as_str()) {
            Some(RequestState::AwaitingReply) => {},
            _ => {
                return stray;
            },
        }
        match parse_i32(reply.payload.as_slice()) {
            Some(value) => {
                self.pending.remove(id.as_str());
                ReplyStep {
                    outcome: ReplyOutcome::Matched { value },
                    command: Command::Ack { tag: reply.tag },
                }
            },
            None => ReplyStep {
                outcome: ReplyOutcome::Undecodable,
                command: Command::Nack { tag: reply.tag, requeue: false },
            },
        }
    }
}

/// A delivery on the reply queue leaves every request but the one it names as
/// it was: a reply never completes a request with another correlation id.
pub proof fn lemma_reply_spares_others(
    pending: Map<Seq<char>, RequestState>,
    reply: DeliveryView,
    other: Seq<char>,
)
    requires
        reply.properties.correlation_id != Some(other),
    ensures
        pending_after_reply(pending, reply).contains_key(other) == pending.contains_key(other),
        pending.contains_key(other) ==> pending_after_reply(pending, reply)[other] == pending[other],
{
}

/// A delivery is matched only where it names a request that awaits a reply,
/// and that request is then no longer pending: a second reply is a stray.
pub proof fn lemma_reply_matches_once(pending: Map<Seq<char>, RequestState>, reply: DeliveryView)
    requires
        reply_outcome(pending, reply) is Matched,
    ensures
        answers(pending, reply),
        reply_outcome(pending_after_reply(pending, reply), reply) is Stray,
{
}

/// A delivery that names no pending request is a stray: it changes nothing
/// and is acknowledged.
pub proof fn lemma_unknown_reply_is_stray(
    pending: Map<Seq<char>, RequestState>,
    reply: DeliveryView,
)
    requires
        reply.properties.correlation_id is None || !pending.contains_key(
            reply.properties.correlation_id->0,
        ),
    ensures
        reply_outcome(pending, reply) is Stray,
        pending_after_reply(pending, reply) == pending,
        reply_command(reply_outcome(pending, reply), reply.tag) == (CommandView::Ack {
            tag: reply.tag,
        }),
{
}

/// Once the deadline of a request has passed, or the connection is lost, a
/// reply that comes for it is a stray.
pub proof fn lemma_late_reply_is_stray(
    pending: Map<Seq<char>, RequestState>,
    id: Seq<char>,
    event: RequestEvent,
    reply: DeliveryView,
)
    requires
        event is DeadlinePassed || event is ConnectionClosed,
        reply.properties.correlation_id == Some(id),
        forall|k: Seq<char>| pending.contains_key(k) ==> !is_terminal(#[trigger] pending[k]),
    ensures
        reply_outcome(pending_after_event(pending, id, event), reply) is Stray,
{
}

/// No request that is over is ever pending: whatever happens to a table that
/// holds none, it holds none afterwards.
pub proof fn lemma_pending_are_live(
    pending: Map<Seq<char>, RequestState>,
    id: Seq<char>,
    event: RequestEvent,
    reply: DeliveryView,
)
    requires
        forall|k: Seq<char>| pending.contains_key(k) ==> !is_terminal(#[trigger] pending[k]),
    ensures
        forall|k: Seq<char>| #[trigger]
            pending_after_event(pending, id, event).contains_key(k) ==> !is_terminal(
                pending_after_event(pending, id, event)[k],
            ),
        forall|k: Seq<char>| #[trigger]
            pending_after_reply(pending, reply).contains_key(k) ==> !is_terminal(
                pending_after_reply(pending, reply)[k],
            ),
        forall|k: Seq<char>| #[trigger]
            pending.insert(id, RequestState::Created).contains_key(k) ==> !is_terminal(
                pending.insert(id, RequestState::Created)[k],
            ),
{
}

/// A request reaches `Matched` by no event: only its reply completes it. And
/// a request that is over stays as it is.
pub proof fn lemma_request_lifecycle(state: RequestState, event: RequestEvent)
    ensures
        next_state(state, event) is Matched ==> state is Matched,
        is_terminal(state) ==> next_state(state, event) == state,
        next_state(state, event) is Published ==> state is Created || state is Published,
        next_state(state, event) is AwaitingReply ==> state is Published || state is AwaitingReply,
{
}

/// The serving side acknowledges a request only after the broker has
/// confirmed the reply to it, and then the request that it replied to: a
/// server that goes away before that leaves the request to be delivered again.
pub proof fn lemma_ack_follows_reply(state: ServerState, request: DeliveryView, confirmed: bool)
    ensures
        !(server_on_request(state, request).1 is Ack),
        server_on_outcome(state, confirmed).1 matches CommandView::Ack { tag } ==> confirmed
            && state == (ServerState::Replying { tag }),
        server_on_request(state, request).0 matches ServerState::Replying { tag } ==> tag
            == request.tag || state == (ServerState::Replying { tag }),
{
}

/// A reply that failed or was not confirmed is answered with neither an
/// acknowledgment nor a rejection: the request stays unacknowledged, the
/// server leaves the loop with the failure, and serves nothing more.
pub proof fn lemma_failed_reply_leaves_request(state: ServerState, request: DeliveryView)
    ensures
        !(server_on_outcome(state, false).1 is Ack),
        !(server_on_outcome(state, false).1 is Nack),
        state matches ServerState::Replying { tag } ==> server_on_outcome(state, false) == (
            ServerState::Failed { tag },
            CommandView::Fail,
        ),
        state is Failed ==> server_on_request(state, request) == (
            state,
            CommandView::Nack { tag: request.tag, requeue: true },
        ),
{
}

/// A request that cannot be read is a failure of that delivery alone: it is
/// rejected for good, gets no reply, and the server is ready for the next
/// request as it was. An empty payload is such a request.
pub proof fn lemma_unreadable_request_is_local(request: DeliveryView)
    ensures
        i32_of_decimal(request.payload) is None ==> server_on_request(ServerState::Idle, request)
            == (ServerState::Idle, CommandView::Nack { tag: request.tag, requeue: false }),
        request.payload.len() == 0 ==> server_on_request(ServerState::Idle, request) == (
            ServerState::Idle,
            CommandView::Nack { tag: request.tag, requeue: false },
        ),
{
}

/// A call returns what it asked for. The request for an argument that has a
/// Fibonacci number within reach is owed a reply; the reply goes to the
/// caller's reply queue under the request's correlation id; and on the
/// calling side it completes the request with that Fibonacci number, whatever
/// else is pending.
pub proof fn lemma_call_returns_fib(
    client: RpcClientView,
    id: Seq<char>,
    argument: i32,
    routing_key: Seq<char>,
    request_tag: u64,
    reply_tag: u64,
    redelivered: bool,
)
    requires
        0 <= argument <= FIB_MAX_ARG,
        client.reply_queue.len() > 0,
        client.pending.contains_key(id),
        client.pending[id] is AwaitingReply,
    ensures
        ({
            let request = delivery_of(
                request_message(client.reply_queue, id, argument, routing_key),
                request_tag,
                redelivered,
            );
            &&& reply_for(request) is Some
            &&& reply_for(request)->0.routing_key == client.reply_queue
            &&& reply_for(request)->0.properties.correlation_id == Some(id)
            &&& reply_outcome(
                client.pending,
                delivery_of(reply_for(request)->0, reply_tag, redelivered),
            ) == (ReplyOutcome::Matched { value: fib_of(argument as nat) as i32 })
        }),
{
    lemma_i32_roundtrip(argument);
    crate::fib::lemma_fib_limits();
    crate::fib::lemma_fib_monotonic(argument as nat, 46);
    lemma_i32_roundtrip(fib_of(argument as nat) as i32);
}

} // verus!
