//! The six patterns: what each role declares, publishes and consumes.

use vstd::prelude::*;
use crate::consumer::{Consumer, Work};
use crate::message::Publish;
use crate::publisher::{has_routing_key, publish_text, text_message, text_message_spec};
use crate::routing::ExchangeKind;
use crate::text::{split_whitespace, texts_view, words_of};
use crate::topology::{
    declare_exchange_spec, declare_queue_spec, resolved_name, BindingView, ExchangeAttrs,
    QueueAttrs, Topology, TopologyError, TopologyView,
};

verus! {

/// The queue of the point-to-point pattern.
pub const HELLO_QUEUE: &'static str = "hello";

/// The text that the point-to-point pattern sends.
pub const HELLO_TEXT: &'static str = "Hello World!";

/// The queue of the work-queue pattern.
pub const TASK_QUEUE: &'static str = "task_queue";

/// The consumer tag of a worker.
pub const WORKER_TAG: &'static str = "rust_consumer";

/// The fanout exchange of the broadcast pattern.
pub const LOGS_EXCHANGE: &'static str = "logs";

/// The direct exchange of the routing pattern.
pub const DIRECT_LOGS_EXCHANGE: &'static str = "direct_logs";

/// The topic exchange of the topic pattern.
pub const TOPIC_LOGS_EXCHANGE: &'static str = "topic_logs";

/// The request queue of the request/reply pattern.
pub const RPC_QUEUE: &'static str = "rpc_queue";

/// The exchange that a subscription draws from.
#[derive(Debug, Clone, PartialEq, Eq)]
pub struct Source {
    pub name: String,
    pub kind: ExchangeKind,
}

/// What a consuming role sets up before it consumes.
#[derive(Debug, Clone, PartialEq, Eq)]
pub struct Subscription {
    /// The exchange to declare and to bind the queue to; `None` where the
    /// queue is fed through the default exchange alone.
    pub source: Option<Source>,
    /// The name of the queue; empty for an anonymous queue, which the broker
    /// names.
    pub queue: String,
    /// The attributes of the queue.
    pub attrs: QueueAttrs,
    /// The keys or patterns under which the queue is bound to the source.
    pub binding_keys: Vec<String>,
    /// The prefetch limit to set on the channel before consuming; `None` sets
    /// none.
    pub prefetch: Option<u16>,
    /// The consumer tag; empty to let the broker choose one.
    pub consumer_tag: String,
}

/// What a `Subscription` holds, as mathematical values.
pub struct SubscriptionView {
    pub source: Option<(Seq<char>, ExchangeKind)>,
    pub queue: Seq<char>,
    pub attrs: QueueAttrs,
    pub binding_keys: Seq<Seq<char>>,
    pub prefetch: Option<u16>,
    pub consumer_tag: Seq<char>,
}

impl View for Subscription {
    type V = SubscriptionView;

    open spec fn view(&self) -> SubscriptionView {
        SubscriptionView {
            source: match self.source {
                Some(s) => Some((s.name@, s.kind)),
                None => None,
            },
            queue: self.queue@,
            attrs: self.attrs,
            binding_keys: texts_view(self.binding_keys@),
            prefetch: self.prefetch,
            consumer_tag: self.consumer_tag@,
        }
    }
}

/// The attributes of a queue that is neither durable nor exclusive.
pub open spec fn plain_queue() -> QueueAttrs {
    QueueAttrs { durable: false, exclusive: false, auto_delete: false }
}

/// The attributes of a queue that outlives a restart of the broker.
pub open spec fn durable_queue() -> QueueAttrs {
    QueueAttrs { durable: true, exclusive: false, auto_delete: false }
}

/// The attributes of a queue that belongs to one connection.
pub open spec fn exclusive_queue() -> QueueAttrs {
    QueueAttrs { durable: false, exclusive: true, auto_delete: false }
}

/// The attributes of a reply queue: it belongs to one connection, and goes
/// when its consumer goes.
pub open spec fn reply_queue() -> QueueAttrs {
    QueueAttrs { durable: false, exclusive: true, auto_delete: true }
}

/// The message of the point-to-point pattern: the greeting, sent through the
/// default exchange to the queue `hello`.
pub fn send() -> (message: Publish)
    ensures
        message@ == text_message_spec(Seq::empty(), HELLO_QUEUE@, HELLO_TEXT@, false),
        has_routing_key(ExchangeKind::Direct, message@.routing_key),
{
    proof {
        reveal_strlit("");
        reveal_strlit("hello");
    }
    assert(""@ =~= Seq::<char>::empty());
    text_message("", HELLO_QUEUE, HELLO_TEXT, false)
}

/// The message that carries a task: persistent, sent through the default
/// exchange to the task queue.
pub fn new_task(msg: &str) -> (message: Publish)
    ensures
        message@ == text_message_spec(Seq::empty(), TASK_QUEUE@, msg@, true),
        has_routing_key(ExchangeKind::Direct, message@.routing_key),
{
    proof {
        reveal_strlit("");
        reveal_strlit("task_queue");
    }
    assert(""@ =~= Seq::<char>::empty());
    text_message("", TASK_QUEUE, msg, true)
}

/// The message that broadcasts a log line: sent to the fanout exchange, with
/// an empty routing key.
pub fn emit_log(msg: &str) -> (message: Publish)
    ensures
        message@ == text_message_spec(LOGS_EXCHANGE@, Seq::empty(), msg@, false),
        has_routing_key(ExchangeKind::Fanout, message@.routing_key),
{
    proof {
        reveal_strlit("");
    }
    assert(""@ =~= Seq::<char>::empty());
    text_message(LOGS_EXCHANGE, "", msg, false)
}

/// The message that carries a log line of one severity: sent to the direct
/// exchange, with the severity as its routing key; `None` for an empty
/// severity.
pub fn emit_log_direct(msg: &str, severity: &str) -> (r: Option<Publish>)
    ensures
        r is Some <==> severity@.len() > 0,
        r matches Some(message) ==> message@ == text_message_spec(
            DIRECT_LOGS_EXCHANGE@,
            severity@,
            msg@,
            false,
        ),
{
    publish_text(ExchangeKind::Direct, DIRECT_LOGS_EXCHANGE, severity, msg, false)
}

/// The message that carries a log line on a topic: sent to the topic
/// exchange, with the topic as its routing key; `None` for an empty topic.
pub fn emit_log_topic(msg: &str, routing_key: &str) -> (r: Option<Publish>)
    ensures
        r is Some <==> routing_key@.len() > 0,
        r matches Some(message) ==> message@ == text_message_spec(
            TOPIC_LOGS_EXCHANGE@,
            routing_key@,
            msg@,
            false,
        ),
{
    publish_text(ExchangeKind::Topic, TOPIC_LOGS_EXCHANGE, routing_key, msg, false)
}

/// What the receiver of the point-to-point pattern sets up: the queue `hello`,
/// no prefetch limit.
pub fn receive() -> (s: Subscription)
    ensures
        s@ == (SubscriptionView {
            source: None,
            queue: HELLO_QUEUE@,
            attrs: plain_queue(),
            binding_keys: Seq::empty(),
            prefetch: None,
            consumer_tag: Seq::empty(),
        }),
{
    let s = Subscription {
        source: None,
        queue: String::from_str(HELLO_QUEUE),
        attrs: QueueAttrs { durable: false, exclusive: false, auto_delete: false },
        binding_keys: Vec::new(),
        prefetch: None,
        consumer_tag: String::new(),
    };
    assert(s@.binding_keys =~= Seq::<Seq<char>>::empty());
    s
}

/// What a worker sets up: the durable task queue, and a prefetch limit of one,
/// so that a task goes to a worker that is not busy.
pub fn worker() -> (s: Subscription)
    ensures
        s@ == (SubscriptionView {
            source: None,
            queue: TASK_QUEUE@,
            attrs: durable_queue(),
            binding_keys: Seq::empty(),
            prefetch: Some(1u16),
            consumer_tag: WORKER_TAG@,
        }),
{
    let s = Subscription {
        source: None,
        queue: String::from_str(TASK_QUEUE),
        attrs: QueueAttrs { durable: true, exclusive: false, auto_delete: false },
        binding_keys: Vec::new(),
        prefetch: Some(1),
        consumer_tag: String::from_str(WORKER_TAG),
    };
    assert(s@.binding_keys =~= Seq::<Seq<char>>::empty());
    s
}

/// What a subscriber to `exchange` sets up: an anonymous queue of its own,
/// bound under each of `keys`.
pub open spec fn subscriber(exchange: Seq<char>, kind: ExchangeKind, keys: Seq<Seq<char>>) -> SubscriptionView {
    SubscriptionView {
        source: Some((exchange, kind)),
        queue: Seq::empty(),
        attrs: exclusive_queue(),
        binding_keys: keys,
        prefetch: None,
        consumer_tag: Seq::empty(),
    }
}

fn subscribe_to(exchange: &str, kind: ExchangeKind, keys: Vec<String>) -> (s: Subscription)
    ensures
        s@ == subscriber(exchange@, kind, texts_view(keys@)),
{
    Subscription {
        source: Some(Source { name: String::from_str(exchange), kind }),
        queue: String::new(),
        attrs: QueueAttrs { durable: false, exclusive: true, auto_delete: false },
        binding_keys: keys,
        prefetch: None,
        consumer_tag: String::new(),
    }
}

/// What a receiver of the broadcast sets up: an anonymous queue of its own,
/// bound to the fanout exchange under the empty key.
pub fn receive_logs() -> (s: Subscription)
    ensures
        s@ == subscriber(LOGS_EXCHANGE@, ExchangeKind::Fanout, seq![Seq::empty()]),
{
    let mut keys: Vec<String> = Vec::new();
    keys.push(String::new());
    assert(texts_view(keys@) =~= seq![Seq::<char>::empty()]);
    subscribe_to(LOGS_EXCHANGE, ExchangeKind::Fanout, keys)
}

/// What a receiver of chosen severities sets up: an anonymous queue of its
/// own, bound to the direct exchange once for each severity named in
/// `severities`, which holds them separated by white space.
pub fn receive_logs_direct(severities: &str) -> (s: Subscription)
    ensures
        s@ == subscriber(DIRECT_LOGS_EXCHANGE@, ExchangeKind::Direct, words_of(severities@)),
{
    subscribe_to(DIRECT_LOGS_EXCHANGE, ExchangeKind::Direct, split_whitespace(severities))
}

/// What a receiver of chosen topics sets up: an anonymous queue of its own,
/// bound to the topic exchange once for each pattern named in `binding_keys`,
/// which holds them separated by white space.
pub fn receive_logs_topic(binding_keys: &str) -> (s: Subscription)
    ensures
        s@ == subscriber(TOPIC_LOGS_EXCHANGE@, ExchangeKind::Topic, words_of(binding_keys@)),
{
    subscribe_to(TOPIC_LOGS_EXCHANGE, ExchangeKind::Topic, split_whitespace(binding_keys))
}

/// What the serving side of the request/reply pattern sets up: the request
/// queue, and a prefetch limit of one.
pub fn rpc_server() -> (s: Subscription)
    ensures
        s@ == (SubscriptionView {
            source: None,
            queue: RPC_QUEUE@,
            attrs: plain_queue(),
            binding_keys: Seq::empty(),
            prefetch: Some(1u16),
            consumer_tag: Seq::empty(),
        }),
{
    let s = Subscription {
        source: None,
        queue: String::from_str(RPC_QUEUE),
        attrs: QueueAttrs { durable: false, exclusive: false, auto_delete: false },
        binding_keys: Vec::new(),
        prefetch: Some(1),
        consumer_tag: String::new(),
    };
    assert(s@.binding_keys =~= Seq::<Seq<char>>::empty());
    s
}

/// What the calling side of the request/reply pattern sets up: an anonymous,
/// exclusive, auto-deleting queue of its own, on which the replies arrive.
pub fn rpc_client() -> (s: Subscription)
    ensures
        s@ == (SubscriptionView {
            source: None,
            queue: Seq::empty(),
            attrs: reply_queue(),
            binding_keys: Seq::empty(),
            prefetch: None,
            consumer_tag: Seq::empty(),
        }),
{
    let s = Subscription {
        source: None,
        queue: String::new(),
        attrs: QueueAttrs { durable: false, exclusive: true, auto_delete: true },
        binding_keys: Vec::new(),
        prefetch: None,
        consumer_tag: String::new(),
    };
    assert(s@.binding_keys =~= Seq::<Seq<char>>::empty());
    s
}

/// The consumer of the point-to-point pattern and of the three log patterns:
/// it shows each text.
pub fn log_consumer(s: &Subscription) -> (c: Consumer)
    ensures
        c@.work == Work::Show,
        !c@.cancelled,
        c@.window.held == Seq::<u64>::empty(),
        c@.window.limit == (match s.prefetch {
            Some(n) => Some(n as nat),
            None => None,
        }),
{
    Consumer::new(Work::Show, s.prefetch)
}

/// The consumer of the work-queue pattern: each text is a task.
pub fn task_consumer(s: &Subscription) -> (c: Consumer)
    ensures
        c@.work == Work::Task,
        !c@.cancelled,
        c@.window.held == Seq::<u64>::empty(),
        c@.window.limit == (match s.prefetch {
            Some(n) => Some(n as nat),
            None => None,
        }),
{
    Consumer::new(Work::Task, s.prefetch)
}


/// The topology after `queue` has been bound to `exchange` under each of
/// `keys`.
pub open spec fn bind_keys(
    t: TopologyView,
    queue: Seq<char>,
    exchange: Seq<char>,
    keys: Seq<Seq<char>>,
) -> TopologyView
    decreases keys.len(),
{
    if keys.len() == 0 {
        t
    } else {
        let before = bind_keys(t, queue, exchange, keys.drop_last());
        TopologyView {
            bindings: before.bindings.insert(
                BindingView { queue, exchange, pattern: keys.last() },
            ),
            ..before
        }
    }
}

/// The topology after a subscription has been set up, the broker having
/// answered the declaration of the queue with the name `assigned`: the source
/// is declared, then the queue, and the queue is bound to the source under
/// each binding key. A conflict on the source or on the queue is the result,
/// and nothing is set up.
pub open spec fn set_up(t: TopologyView, s: SubscriptionView, assigned: Seq<char>) -> Result<
    TopologyView,
    TopologyError,
> {
    let name = resolved_name(s.queue, assigned);
    match s.source {
        None => declare_queue_spec(t, name, s.attrs),
        Some((exchange, kind)) => match declare_exchange_spec(
            t,
            exchange,
            ExchangeAttrs { kind, durable: false },
        ) {
            Err(e) => Err(e),
            Ok(with_exchange) => match declare_queue_spec(with_exchange, name, s.attrs) {
                Err(e) => Err(e),
                Ok(with_queue) => Ok(bind_keys(with_queue, name, exchange, s.binding_keys)),
            },
        },
    }
}

impl Subscription {
    /// Records in `topology` what the subscription sets up, the broker having
    /// answered the declaration of the queue with the name `assigned`. Returns
    /// the name of the queue to consume from.
    pub fn declare(&self, topology: &mut Topology, assigned: &str) -> (r: Result<
        String,
        TopologyError,
    >)
        ensures
            match set_up(old(topology)@, self@, assigned@) {
                Ok(t) => r is Ok && r->Ok_0@ == resolved_name(self.queue@, assigned@)
                    && final(topology)@ == t,
                Err(e) => r == Err::<String, TopologyError>(e)
                    && final(topology)@ == old(topology)@,
            },
    {
        let source: &Source = match &self.source {
            None => {
                return topology.declare_queue(
                    self.queue.as_str(),
                    assigned,
                    self.attrs.durable,
                    self.attrs.exclusive,
                    self.attrs.auto_delete,
                );
            },
            Some(source) => source,
        };
        // a conflict on either declaration is found before anything is recorded
        let name = crate::topology::resolve_queue_name(self.queue.as_str(), assigned);
        match topology.exchange(source.name.as_str()) {
            Some(known) => {
                if known.kind != source.kind || known.durable {
                    return Err(TopologyError::Conflict);
                }
            },
            None => {},
        }
        match topology.queue(name.as_str()) {
            Some(known) => {
                if known.durable != self.attrs.durable || known.exclusive != self.attrs.exclusive
                    || known.auto_delete != self.attrs.auto_delete {
                    return Err(TopologyError::Conflict);
                }
            },
            None => {},
        }
        let declared_exchange = topology.declare_exchange(source.name.as_str(), source.kind, false);
        assert(declared_exchange is Ok);
        let declared_queue = topology.declare_queue(
            self.queue.as_str(),
            assigned,
            self.attrs.durable,
            self.attrs.exclusive,
            self.attrs.auto_delete,
        );
        assert(declared_queue is Ok);
        let ghost with_queue = topology@;
        let ghost keys = texts_view(self.binding_keys@);
        let mut i: usize = 0;
        while i < self.binding_keys.len()
            invariant
                i <= self.binding_keys@.len(),
                keys == texts_view(self.binding_keys@),
                with_queue.queues.contains_key(name@),
                with_queue.exchanges.contains_key(source.name@),
                topology@ == bind_keys(with_queue, name@, source.name@, keys.take(i as int)),
            decreases self.binding_keys@.len() - i,
        {
            proof {
                lemma_bind_keys_keeps(with_queue, name@, source.name@, keys.take(i as int));
                assert(keys.take(i + 1).drop_last() =~= keys.take(i as int));
                assert(keys.take(i + 1).last() == self.binding_keys@[i as int]@);
            }
            let bound = topology.bind(
                name.as_str(),
                source.name.as_str(),
                self.binding_keys[i].as_str(),
            );
            assert(bound is Ok);
            i = i + 1;
        }
        assert(keys.take(i as int) =~= keys);
        Ok(name)
    }
}

/// Binding a queue changes neither the exchanges nor the queues.
pub proof fn lemma_bind_keys_keeps(
    t: TopologyView,
    queue: Seq<char>,
    exchange: Seq<char>,
    keys: Seq<Seq<char>>,
)
    ensures
        bind_keys(t, queue, exchange, keys).exchanges == t.exchanges,
        bind_keys(t, queue, exchange, keys).queues == t.queues,
    decreases keys.len(),
{
    if keys.len() > 0 {
        lemma_bind_keys_keeps(t, queue, exchange, keys.drop_last());
    }
}

/// Setting up a subscription a second time, with the same answer of the
/// broker, succeeds and changes nothing.
pub proof fn lemma_set_up_twice(t: TopologyView, s: SubscriptionView, assigned: Seq<char>)
    requires
        set_up(t, s, assigned) is Ok,
    ensures
        set_up(set_up(t, s, assigned)->Ok_0, s, assigned) == set_up(t, s, assigned),
{
    let name = resolved_name(s.queue, assigned);
    match s.source {
        None => {},
        Some((exchange, kind)) => {
            let attrs = ExchangeAttrs { kind, durable: false };
            let with_exchange = declare_exchange_spec(t, exchange, attrs)->Ok_0;
            let with_queue = declare_queue_spec(with_exchange, name, s.attrs)->Ok_0;
            let once = bind_keys(with_queue, name, exchange, s.binding_keys);
            lemma_bind_keys_keeps(with_queue, name, exchange, s.binding_keys);
            assert(declare_exchange_spec(once, exchange, attrs) == Ok::<
                TopologyView,
                TopologyError,
            >(once));
            assert(declare_queue_spec(once, name, s.attrs) == Ok::<TopologyView, TopologyError>(
                once,
            ));
            lemma_bind_keys_again(with_queue, name, exchange, s.binding_keys, s.binding_keys.len() as int);
            assert(s.binding_keys.take(s.binding_keys.len() as int) =~= s.binding_keys);
        },
    }
}

/// Binding again under the first `n` of the keys that a queue is bound under
/// already changes nothing.
pub proof fn lemma_bind_keys_again(
    t: TopologyView,
    queue: Seq<char>,
    exchange: Seq<char>,
    keys: Seq<Seq<char>>,
    n: int,
)
    requires
        0 <= n <= keys.len(),
    ensures
        bind_keys(bind_keys(t, queue, exchange, keys), queue, exchange, keys.take(n)) == bind_keys(
            t,
            queue,
            exchange,
            keys,
        ),
    decreases n,
{
    let once = bind_keys(t, queue, exchange, keys);
    if n > 0 {
        lemma_bind_keys_again(t, queue, exchange, keys, n - 1);
        assert(keys.take(n).drop_last() =~= keys.take(n - 1));
        assert(keys.take(n).last() == keys[n - 1]);
        lemma_bind_keys_holds(t, queue, exchange, keys, n - 1);
        let b = BindingView { queue, exchange, pattern: keys[n - 1] };
        assert(once.bindings.insert(b) =~= once.bindings);
    }
}

/// A queue bound under `keys` is bound under each of them.
pub proof fn lemma_bind_keys_holds(
    t: TopologyView,
    queue: Seq<char>,
    exchange: Seq<char>,
    keys: Seq<Seq<char>>,
    i: int,
)
    requires
        0 <= i < keys.len(),
    ensures
        bind_keys(t, queue, exchange, keys).bindings.contains(
            BindingView { queue, exchange, pattern: keys[i] },
        ),
    decreases keys.len(),
{
    if i < keys.len() - 1 {
        lemma_bind_keys_holds(t, queue, exchange, keys.drop_last(), i);
    }
}

/// One call on the channel that sets a subscription up.
#[derive(Debug, Clone, PartialEq, Eq)]
pub enum Step {
    /// Declare the exchange, transient, of this name and kind.
    DeclareExchange { name: String, kind: ExchangeKind },
    /// Declare the queue; the broker answers with the name it knows it by.
    DeclareQueue { name: String, attrs: QueueAttrs },
    /// Bind the queue that was declared to the exchange under the key.
    Bind { exchange: String, key: String },
    /// Set the prefetch limit on the channel.
    Qos { limit: u16 },
    /// Begin to consume from the queue that was declared.
    Consume { consumer_tag: String },
}

/// What a `Step` holds, as mathematical values.
pub enum StepView {
    DeclareExchange { name: Seq<char>, kind: ExchangeKind },
    DeclareQueue { name: Seq<char>, attrs: QueueAttrs },
    Bind { exchange: Seq<char>, key: Seq<char> },
    Qos { limit: u16 },
    Consume { consumer_tag: Seq<char> },
}

impl View for Step {
    type V = StepView;

    open spec fn view(&self) -> StepView {
        match self {
            Step::DeclareExchange { name, kind } => StepView::DeclareExchange {
                name: name@,
                kind: *kind,
            },
            Step::DeclareQueue { name, attrs } => StepView::DeclareQueue {
                name: name@,
                attrs: *attrs,
            },
            Step::Bind { exchange, key } => StepView::Bind { exchange: exchange@, key: key@ },
            Step::Qos { limit } => StepView::Qos { limit: *limit },
            Step::Consume { consumer_tag } => StepView::Consume { consumer_tag: consumer_tag@ },
        }
    }
}

/// The steps that a vector of steps stands for.
pub open spec fn steps_view(steps: Seq<Step>) -> Seq<StepView> {
    Seq::new(steps.len(), |i: int| steps[i]@)
}

/// The declaration of the source, where the subscription has one.
pub open spec fn source_steps(s: SubscriptionView) -> Seq<StepView> {
    match s.source {
        Some((name, kind)) => seq![StepView::DeclareExchange { name, kind }],
        None => Seq::empty(),
    }
}

/// One binding to the source for each binding key, in the order of the keys;
/// none where the subscription has no source.
pub open spec fn bind_steps(s: SubscriptionView) -> Seq<StepView> {
    match s.source {
        Some((name, kind)) => Seq::new(
            s.binding_keys.len(),
            |i: int| StepView::Bind { exchange: name, key: s.binding_keys[i] },
        ),
        None => Seq::empty(),
    }
}

/// The setting of the prefetch limit, where the subscription has one.
pub open spec fn qos_steps(s: SubscriptionView) -> Seq<StepView> {
    match s.prefetch {
        Some(limit) => seq![StepView::Qos { limit }],
        None => Seq::empty(),
    }
}

/// The calls that set a subscription up, in their order: the source is
/// declared, if there is one; the queue is declared; the queue is bound under
/// each key; the prefetch limit is set, if there is one; and only then the
/// consumer begins to consume.
pub open spec fn steps_of(s: SubscriptionView) -> Seq<StepView> {
    source_steps(s) + seq![StepView::DeclareQueue { name: s.queue, attrs: s.attrs }] + bind_steps(
        s,
    ) + qos_steps(s) + seq![StepView::Consume { consumer_tag: s.consumer_tag }]
}

impl Subscription {
    /// The calls that set the subscription up, in the order in which they are
    /// made. A call that fails ends the set-up: none of the later ones is made.
    pub fn steps(&self) -> (steps: Vec<Step>)
        ensures
            steps_view(steps@) == steps_of(self@),
    {
        let mut steps: Vec<Step> = Vec::new();
        match &self.source {
            Some(source) => {
                steps.push(
                    Step::DeclareExchange { name: source.name.clone(), kind: source.kind },
                );
            },
            None => {},
        }
        assert(steps_view(steps@) =~= source_steps(self@));
        steps.push(Step::DeclareQueue { name: self.queue.clone(), attrs: self.attrs });
        let ghost declared = source_steps(self@) + seq![
            StepView::DeclareQueue { name: self@.queue, attrs: self@.attrs },
        ];
        assert(steps_view(steps@) =~= declared);
        match &self.source {
            Some(source) => {
                let mut i: usize = 0;
                while i < self.binding_keys.len()
                    invariant
                        i <= self.binding_keys@.len(),
                        self.source == Some(*source),
                        steps_view(steps@) == declared + bind_steps(self@).take(i as int),
                    decreases self.binding_keys@.len() - i,
                {
                    let ghost before = steps_view(steps@);
                    steps.push(
                        Step::Bind {
                            exchange: source.name.clone(),
                            key: self.binding_keys[i].clone(),
                        },
                    );
                    assert(steps_view(steps@) =~= before.push(bind_steps(self@)[i as int]));
                    assert(bind_steps(self@).take(i + 1) =~= bind_steps(self@).take(i as int).push(
                        bind_steps(self@)[i as int],
                    ));
                    assert(declared + bind_steps(self@).take(i + 1) =~= (declared + bind_steps(
                        self@,
                    ).take(i as int)).push(bind_steps(self@)[i as int]));
                    i = i + 1;
                }
                assert(bind_steps(self@).take(i as int) =~= bind_steps(self@));
            },
            None => {
                assert(declared + bind_steps(self@) =~= declared);
            },
        }
        let ghost bound = declared + bind_steps(self@);
        assert(steps_view(steps@) == bound);
        match self.prefetch {
            Some(limit) => {
                steps.push(Step::Qos { limit });
            },
            None => {},
        }
        assert(steps_view(steps@) =~= bound + qos_steps(self@));
        steps.push(Step::Consume { consumer_tag: self.consumer_tag.clone() });
        assert(steps_view(steps@) =~= steps_of(self@));
        steps
    }
}

/// The set-up ends with the one call that begins to consume, and the prefetch
/// limit, where there is one, is set once, by the call just before that one:
/// no delivery arrives before the limit stands. The queue is declared before
/// it is bound.
pub proof fn lemma_qos_before_consume(s: SubscriptionView)
    ensures
        steps_of(s).len() >= 2,
        steps_of(s).last() == (StepView::Consume { consumer_tag: s.consumer_tag }),
        forall|i: int| 0 <= i < steps_of(s).len() - 1 ==> !(#[trigger] steps_of(s)[i] is Consume),
        s.prefetch matches Some(limit) ==> steps_of(s)[steps_of(s).len() - 2] == (StepView::Qos {
            limit,
        }) && forall|i: int|
            0 <= i < steps_of(s).len() - 2 ==> !(#[trigger] steps_of(s)[i] is Qos),
        s.prefetch is None ==> forall|i: int|
            0 <= i < steps_of(s).len() ==> !(#[trigger] steps_of(s)[i] is Qos),
        forall|i: int, j: int|
            0 <= i < steps_of(s).len() && 0 <= j < steps_of(s).len() && steps_of(s)[i] is Bind
                && steps_of(s)[j] is DeclareQueue ==> j < i,
{
    let a = source_steps(s);
    let b = seq![StepView::DeclareQueue { name: s.queue, attrs: s.attrs }];
    let c = bind_steps(s);
    let d = qos_steps(s);
    let e = seq![StepView::Consume { consumer_tag: s.consumer_tag }];
    let all = steps_of(s);
    assert(all == a + b + c + d + e);
    assert(all.len() == a.len() + 1 + c.len() + d.len() + 1);
    assert forall|i: int| 0 <= i < all.len() implies (#[trigger] all[i]) == (if i < a.len() {
        a[i]
    } else if i < a.len() + 1 {
        b[0]
    } else if i < a.len() + 1 + c.len() {
        c[i - a.len() - 1]
    } else if i < a.len() + 1 + c.len() + d.len() {
        d[i - a.len() - 1 - c.len()]
    } else {
        e[0]
    }) by {}
    assert forall|i: int| 0 <= i < a.len() implies (#[trigger] a[i]) is DeclareExchange by {}
    assert forall|i: int| 0 <= i < c.len() implies (#[trigger] c[i]) is Bind by {}
    assert forall|i: int| 0 <= i < d.len() implies (#[trigger] d[i]) is Qos by {}
}

} // verus!
