//! Exchanges, queues and the bindings between them, as a client has declared
//! them on the broker.

use vstd::prelude::*;
use crate::error::ErrorKind;
use crate::names::NameTable;
use crate::routing::{binding_match, binding_matches, ExchangeKind};
use crate::text::same_name;

verus! {

/// What an exchange is declared with, besides its name.
#[derive(Clone, Copy, Debug, PartialEq, Eq, Structural)]
pub struct ExchangeAttrs {
    /// The routing rule.
    pub kind: ExchangeKind,
    /// Whether the exchange outlives a restart of the broker.
    pub durable: bool,
}

/// What a queue is declared with, besides its name.
#[derive(Clone, Copy, Debug, PartialEq, Eq, Structural)]
pub struct QueueAttrs {
    /// Whether the queue outlives a restart of the broker.
    pub durable: bool,
    /// Whether the queue belongs to the declaring connection alone.
    pub exclusive: bool,
    /// Whether the broker drops the queue when its last consumer leaves.
    pub auto_delete: bool,
}

/// A rule that lets messages pass from an exchange to a queue.
#[derive(Clone, Debug, PartialEq, Eq)]
pub struct Binding {
    /// The queue that receives.
    pub queue: String,
    /// The exchange that routes.
    pub exchange: String,
    /// The binding key or pattern; a fanout exchange ignores it.
    pub pattern: String,
}

/// What a `Binding` holds, as mathematical values.
pub struct BindingView {
    pub queue: Seq<char>,
    pub exchange: Seq<char>,
    pub pattern: Seq<char>,
}

impl View for Binding {
    type V = BindingView;

    open spec fn view(&self) -> BindingView {
        BindingView { queue: self.queue@, exchange: self.exchange@, pattern: self.pattern@ }
    }
}

/// Why a declaration was refused.
#[derive(Clone, Copy, Debug, PartialEq, Eq, Structural)]
pub enum TopologyError {
    /// An entity of that name exists with other attributes.
    Conflict,
    /// A binding names a queue or an exchange that has not been declared.
    NotFound,
}

impl TopologyError {
    /// The kind of failure that the refusal is reported as: either way the
    /// declaration is in conflict with the topology as it stands.
    pub fn kind(self) -> (kind: ErrorKind)
        ensures
            kind == ErrorKind::TopologyConflict,
    {
        ErrorKind::TopologyConflict
    }
}

/// The declared topology, as mathematical values.
pub struct TopologyView {
    pub exchanges: Map<Seq<char>, ExchangeAttrs>,
    pub queues: Map<Seq<char>, QueueAttrs>,
    pub bindings: Set<BindingView>,
}

/// The attributes of the default exchange, whose name is empty.
pub open spec fn default_exchange() -> ExchangeAttrs {
    ExchangeAttrs { kind: ExchangeKind::Direct, durable: true }
}

/// The binding that every queue has from its declaration on: on the default
/// exchange, under its own name.
pub open spec fn default_binding(queue: Seq<char>) -> BindingView {
    BindingView { queue, exchange: Seq::empty(), pattern: queue }
}

/// The topology before anything is declared: the default exchange alone.
pub open spec fn initial_topology() -> TopologyView {
    TopologyView {
        exchanges: Map::empty().insert(Seq::empty(), default_exchange()),
        queues: Map::empty(),
        bindings: Set::empty(),
    }
}

/// Declaring an exchange: a new name is recorded, a known name with the same
/// attributes changes nothing, and a known name with other attributes is a
/// conflict.
pub open spec fn declare_exchange_spec(
    t: TopologyView,
    name: Seq<char>,
    attrs: ExchangeAttrs,
) -> Result<TopologyView, TopologyError> {
    if !t.exchanges.contains_key(name) {
        Ok(TopologyView { exchanges: t.exchanges.insert(name, attrs), ..t })
    } else if t.exchanges[name] == attrs {
        Ok(t)
    } else {
        Err(TopologyError::Conflict)
    }
}

/// Declaring a queue: a new name is recorded together with its binding on the
/// default exchange, a known name with the same attributes changes nothing,
/// and a known name with other attributes is a conflict.
pub open spec fn declare_queue_spec(
    t: TopologyView,
    name: Seq<char>,
    attrs: QueueAttrs,
) -> Result<TopologyView, TopologyError> {
    if !t.queues.contains_key(name) {
        Ok(
            TopologyView {
                queues: t.queues.insert(name, attrs),
                bindings: t.bindings.insert(default_binding(name)),
                ..t
            },
        )
    } else if t.queues[name] == attrs {
        Ok(t)
    } else {
        Err(TopologyError::Conflict)
    }
}

/// Binding a queue to an exchange: both must have been declared; the binding
/// is then part of the topology, whether it was before or not.
pub open spec fn bind_spec(t: TopologyView, binding: BindingView) -> Result<
    TopologyView,
    TopologyError,
> {
    if t.queues.contains_key(binding.queue) && t.exchanges.contains_key(binding.exchange) {
        Ok(TopologyView { bindings: t.bindings.insert(binding), ..t })
    } else {
        Err(TopologyError::NotFound)
    }
}

/// Whether `binding` carries a message published to `exchange` with `key`.
pub open spec fn carries(t: TopologyView, binding: BindingView, exchange: Seq<char>, key: Seq<char>) -> bool {
    &&& t.bindings.contains(binding)
    &&& binding.exchange == exchange
    &&& t.exchanges.contains_key(exchange)
    &&& binding_match(t.exchanges[exchange].kind, binding.pattern, key)
}

/// The queues that a message published to `exchange` with `key` reaches.
pub open spec fn routes_spec(t: TopologyView, exchange: Seq<char>, key: Seq<char>) -> Set<Seq<char>> {
    Set::new(
        |queue: Seq<char>|
            exists|binding: BindingView|
                binding.queue == queue && #[trigger] carries(t, binding, exchange, key),
    )
}

/// Whether the default exchange is there, every declared queue is bound to it
/// under its own name, and every binding joins a declared queue and a declared
/// exchange.
pub open spec fn consistent(t: TopologyView) -> bool {
    &&& t.exchanges.contains_key(Seq::empty())
    &&& t.exchanges[Seq::empty()] == default_exchange()
    &&& forall|q: Seq<char>| #[trigger]
        t.queues.contains_key(q) ==> t.bindings.contains(default_binding(q))
    &&& forall|b: BindingView| #[trigger]
        t.bindings.contains(b) ==> t.queues.contains_key(b.queue) && t.exchanges.contains_key(
            b.exchange,
        )
}

/// The name under which a queue is known: the requested one, or, for an
/// anonymous queue, the one that the broker assigned.
pub open spec fn resolved_name(requested: Seq<char>, assigned: Seq<char>) -> Seq<char> {
    if requested.len() == 0 {
        assigned
    } else {
        requested
    }
}

/// The name under which a queue is known: the requested one, or, for an
/// anonymous queue, the one that the broker assigned.
pub fn resolve_queue_name(requested: &str, assigned: &str) -> (name: String)
    ensures
        name@ == resolved_name(requested@, assigned@),
{
    if requested.unicode_len() == 0 {
        String::from_str(assigned)
    } else {
        String::from_str(requested)
    }
}

/// The set of bindings that a sequence of bindings stands for.
spec fn binding_set(bindings: Seq<Binding>) -> Set<BindingView> {
    Set::new(|b: BindingView| exists|i: int| 0 <= i < bindings.len() && #[trigger] bindings[i]@ == b)
}

/// The set of names that a sequence of names stands for.
pub open spec fn name_set(names: Seq<String>) -> Set<Seq<char>> {
    Set::new(|n: Seq<char>| exists|i: int| 0 <= i < names.len() && #[trigger] names[i]@ == n)
}

/// Whether the binding at `i` carries a message published to `exchange`, an
/// exchange of `kind`, with `key`, and leads to `queue`.
spec fn leads_to(
    bindings: Seq<Binding>,
    i: int,
    kind: ExchangeKind,
    exchange: Seq<char>,
    key: Seq<char>,
    queue: Seq<char>,
) -> bool {
    &&& 0 <= i < bindings.len()
    &&& bindings[i]@.queue == queue
    &&& bindings[i]@.exchange == exchange
    &&& binding_match(kind, bindings[i]@.pattern, key)
}

fn holds_name(names: &Vec<String>, name: &str) -> (r: bool)
    ensures
        r == name_set(names@).contains(name@),
{
    let mut i: usize = 0;
    while i < names.len()
        invariant
            i <= names@.len(),
            forall|j: int| 0 <= j < i ==> names@[j]@ != name@,
        decreases names@.len() - i,
    {
        if same_name(names[i].as_str(), name) {
            assert(names@[i as int]@ == name@);
            return true;
        }
        i = i + 1;
    }
    false
}

/// A client's record of what it has declared on the broker.
pub struct Topology {
    exchanges: NameTable<ExchangeAttrs>,
    queues: NameTable<QueueAttrs>,
    bindings: Vec<Binding>,
}

impl View for Topology {
    type V = TopologyView;

    closed spec fn view(&self) -> TopologyView {
        TopologyView {
            exchanges: self.exchanges@,
            queues: self.queues@,
            bindings: binding_set(self.bindings@),
        }
    }
}

impl Topology {
    /// The topology before anything is declared.
    pub fn new() -> (t: Topology)
        ensures
            t@ == initial_topology(),
    {
        let mut exchanges: NameTable<ExchangeAttrs> = NameTable::new();
        exchanges.insert(String::new(), ExchangeAttrs { kind: ExchangeKind::Direct, durable: true });
        let t = Topology { exchanges, queues: NameTable::new(), bindings: Vec::new() };
        assert(binding_set(t.bindings@) =~= Set::<BindingView>::empty());
        t
    }

    /// The attributes of the exchange `name`, if it is declared.
    pub fn exchange(&self, name: &str) -> (r: Option<ExchangeAttrs>)
        ensures
            r == (if self@.exchanges.contains_key(name@) {
                Some(self@.exchanges[name@])
            } else {
                None
            }),
    {
        self.exchanges.get(name)
    }

    /// The attributes of the queue `name`, if it is declared.
    pub fn queue(&self, name: &str) -> (r: Option<QueueAttrs>)
        ensures
            r == (if self@.queues.contains_key(name@) {
                Some(self@.queues[name@])
            } else {
                None
            }),
    {
        self.queues.get(name)
    }

    fn has_binding(&self, queue: &str, exchange: &str, pattern: &str) -> (r: bool)
        ensures
            r == self@.bindings.contains(
                BindingView { queue: queue@, exchange: exchange@, pattern: pattern@ },
            ),
    {
        let ghost wanted = BindingView { queue: queue@, exchange: exchange@, pattern: pattern@ };
        let mut i: usize = 0;
        while i < self.bindings.len()
            invariant
                i <= self.bindings@.len(),
                wanted == (BindingView { queue: queue@, exchange: exchange@, pattern: pattern@ }),
                forall|j: int| 0 <= j < i ==> self.bindings@[j]@ != wanted,
            decreases self.bindings@.len() - i,
        {
            let b = &self.bindings[i];
            if same_name(b.queue.as_str(), queue) && same_name(b.exchange.as_str(), exchange)
                && same_name(b.pattern.as_str(), pattern) {
                assert(self.bindings@[i as int]@ == wanted);
                return true;
            }
            i = i + 1;
        }
        false
    }

    fn add_binding(&mut self, queue: &str, exchange: &str, pattern: &str)
        ensures
            final(self)@ == (TopologyView {
                bindings: old(self)@.bindings.insert(
                    BindingView { queue: queue@, exchange: exchange@, pattern: pattern@ },
                ),
                ..old(self)@
            }),
    {
        let ghost wanted = BindingView { queue: queue@, exchange: exchange@, pattern: pattern@ };
        let ghost before = self.bindings@;
        if !self.has_binding(queue, exchange, pattern) {
            self.bindings.push(
                Binding {
                    queue: String::from_str(queue),
                    exchange: String::from_str(exchange),
                    pattern: String::from_str(pattern),
                },
            );
            let ghost after = self.bindings@;
            assert(binding_set(after) =~= binding_set(before).insert(wanted)) by {
                assert(after[before.len() as int]@ == wanted);
                assert forall|b: BindingView| binding_set(before).contains(b) implies binding_set(
                    after,
                ).contains(b) by {
                    let i = choose|i: int| 0 <= i < before.len() && #[trigger] before[i]@ == b;
                    assert(after[i]@ == b);
                }
                assert forall|b: BindingView| binding_set(after).contains(b) && b
                    != wanted implies binding_set(before).contains(b) by {
                    let i = choose|i: int| 0 <= i < after.len() && #[trigger] after[i]@ == b;
                    assert(before[i]@ == b);
                }
            }
        } else {
            assert(binding_set(before) =~= binding_set(before).insert(wanted));
        }
    }

    /// Declares the exchange `name` of `kind`.
    pub fn declare_exchange(&mut self, name: &str, kind: ExchangeKind, durable: bool) -> (r: Result<
        (),
        TopologyError,
    >)
        ensures
            match declare_exchange_spec(old(self)@, name@, ExchangeAttrs { kind, durable }) {
                Ok(t) => r is Ok && final(self)@ == t,
                Err(e) => r == Err::<(), TopologyError>(e) && final(self)@ == old(self)@,
            },
    {
        let attrs = ExchangeAttrs { kind, durable };
        match self.exchanges.get(name) {
            None => {
                self.exchanges.insert(String::from_str(name), attrs);
                Ok(())
            },
            Some(known) => {
                if known.kind == kind && known.durable == durable {
                    Ok(())
                } else {
                    Err(TopologyError::Conflict)
                }
            },
        }
    }

    /// Declares a queue. `requested` is the name asked for, empty for an
    /// anonymous queue; `assigned` is the name in the broker's answer. Returns
    /// the name under which the queue is known from now on.
    pub fn declare_queue(
        &mut self,
        requested: &str,
        assigned: &str,
        durable: bool,
        exclusive: bool,
        auto_delete: bool,
    ) -> (r: Result<String, TopologyError>)
        ensures
            match declare_queue_spec(
                old(self)@,
                resolved_name(requested@, assigned@),
                QueueAttrs { durable, exclusive, auto_delete },
            ) {
                Ok(t) => r is Ok && r->Ok_0@ == resolved_name(requested@, assigned@) && final(self)@
                    == t,
                Err(e) => r == Err::<String, TopologyError>(e) && final(self)@ == old(self)@,
            },
    {
        let attrs = QueueAttrs { durable, exclusive, auto_delete };
        let name = resolve_queue_name(requested, assigned);
        match self.queues.get(name.as_str()) {
            None => {
                self.queues.insert(name.clone(), attrs);
                self.add_binding(name.as_str(), "", name.as_str());
                proof {
                    reveal_strlit("");
                    assert(""@ =~= Seq::<char>::empty());
                }
                Ok(name)
            },
            Some(known) => {
                if known.durable == durable && known.exclusive == exclusive && known.auto_delete
                    == auto_delete {
                    Ok(name)
                } else {
                    Err(TopologyError::Conflict)
                }
            },
        }
    }

    /// Binds `queue` to `exchange` under `pattern`.
    pub fn bind(&mut self, queue: &str, exchange: &str, pattern: &str) -> (r: Result<
        (),
        TopologyError,
    >)
        ensures
            match bind_spec(
                old(self)@,
                BindingView { queue: queue@, exchange: exchange@, pattern: pattern@ },
            ) {
                Ok(t) => r is Ok && final(self)@ == t,
                Err(e) => r == Err::<(), TopologyError>(e) && final(self)@ == old(self)@,
            },
    {
        if self.queues.contains(queue) && self.exchanges.contains(exchange) {
            self.add_binding(queue, exchange, pattern);
            Ok(())
        } else {
            Err(TopologyError::NotFound)
        }
    }
}


impl Topology {
    /// The queues that a message published to `exchange` with routing key
    /// `key` reaches, each once. A message to an undeclared exchange reaches
    /// none.
    pub fn routes(&self, exchange: &str, key: &str) -> (queues: Vec<String>)
        ensures
            name_set(queues@) == routes_spec(self@, exchange@, key@),
            forall|i: int, j: int| 0 <= i < j < queues@.len() ==> queues@[i]@ != queues@[j]@,
    {
        let mut out: Vec<String> = Vec::new();
        let kind: ExchangeKind = match self.exchanges.get(exchange) {
            Some(attrs) => attrs.kind,
            None => {
                assert(name_set(out@) =~= routes_spec(self@, exchange@, key@)) by {
                    assert forall|q: Seq<char>| !routes_spec(self@, exchange@, key@).contains(
                        q,
                    ) by {}
                }
                return out;
            },
        };
        let mut i: usize = 0;
        while i < self.bindings.len()
            invariant
                i <= self.bindings@.len(),
                self@.exchanges.contains_key(exchange@),
                kind == self@.exchanges[exchange@].kind,
                forall|a: int, b: int| 0 <= a < b < out@.len() ==> out@[a]@ != out@[b]@,
                forall|q: Seq<char>| #[trigger]
                    name_set(out@).contains(q) <==> exists|j: int|
                        j < i && leads_to(self.bindings@, j, kind, exchange@, key@, q),
            decreases self.bindings@.len() - i,
        {
            let b = &self.bindings[i];
            let ghost before = out@;
            if same_name(b.exchange.as_str(), exchange) && binding_matches(
                kind,
                b.pattern.as_str(),
                key,
            ) {
                assert(leads_to(self.bindings@, i as int, kind, exchange@, key@, b.queue@));
                if !holds_name(&out, b.queue.as_str()) {
                    out.push(b.queue.clone());
                    assert(out@[before.len() as int]@ == b.queue@);
                    assert forall|q: Seq<char>| #[trigger]
                        name_set(out@).contains(q) <==> (name_set(before).contains(q) || q
                            == b.queue@) by {
                        if name_set(before).contains(q) {
                            let j = choose|j: int| 0 <= j < before.len() && #[trigger] before[j]@ == q;
                            assert(out@[j]@ == q);
                        }
                        if name_set(out@).contains(q) {
                            let j = choose|j: int| 0 <= j < out@.len() && #[trigger] out@[j]@ == q;
                            if j < before.len() {
                                assert(before[j]@ == q);
                            }
                        }
                    }
                    assert forall|a2: int, b2: int| 0 <= a2 < b2 < out@.len() implies out@[a2]@
                        != out@[b2]@ by {
                        if b2 == before.len() {
                            assert(before[a2]@ == out@[a2]@);
                        } else {
                            assert(before[a2]@ == out@[a2]@);
                            assert(before[b2]@ == out@[b2]@);
                        }
                    }
                }
            }
            assert forall|q: Seq<char>| #[trigger]
                name_set(out@).contains(q) <==> exists|j: int|
                    j < i + 1 && leads_to(self.bindings@, j, kind, exchange@, key@, q) by {
                if name_set(before).contains(q) {
                    let j = choose|j: int|
                        j < i && leads_to(self.bindings@, j, kind, exchange@, key@, q);
                    assert(j < i + 1 && leads_to(self.bindings@, j, kind, exchange@, key@, q));
                }
                if exists|j: int|
                    j < i + 1 && leads_to(self.bindings@, j, kind, exchange@, key@, q) {
                    let j = choose|j: int|
                        j < i + 1 && leads_to(self.bindings@, j, kind, exchange@, key@, q);
                    if j < i {
                        assert(name_set(before).contains(q));
                    }
                }
            }
            i = i + 1;
        }
        assert(name_set(out@) =~= routes_spec(self@, exchange@, key@)) by {
            assert forall|q: Seq<char>| name_set(out@).contains(q) implies routes_spec(
                self@,
                exchange@,
                key@,
            ).contains(q) by {
                let j = choose|j: int|
                    j < i && leads_to(self.bindings@, j, kind, exchange@, key@, q);
                let binding = self.bindings@[j]@;
                assert(binding_set(self.bindings@).contains(binding));
                assert(carries(self@, binding, exchange@, key@));
            }
            assert forall|q: Seq<char>|
                routes_spec(self@, exchange@, key@).contains(q) implies name_set(out@).contains(
                q,
            ) by {
                let binding = choose|binding: BindingView|
                    binding.queue == q && #[trigger] carries(self@, binding, exchange@, key@);
                let j = choose|j: int|
                    0 <= j < self.bindings@.len() && #[trigger] self.bindings@[j]@ == binding;
                assert(leads_to(self.bindings@, j, kind, exchange@, key@, q));
            }
        }
        out
    }
}

/// Declaring an exchange a second time with the same attributes succeeds and
/// changes nothing.
pub proof fn lemma_redeclare_exchange(t: TopologyView, name: Seq<char>, attrs: ExchangeAttrs)
    requires
        declare_exchange_spec(t, name, attrs) is Ok,
    ensures
        declare_exchange_spec(declare_exchange_spec(t, name, attrs)->Ok_0, name, attrs)
            == declare_exchange_spec(t, name, attrs),
{
}

/// Declaring a queue a second time with the same attributes succeeds and
/// changes nothing.
pub proof fn lemma_redeclare_queue(t: TopologyView, name: Seq<char>, attrs: QueueAttrs)
    requires
        declare_queue_spec(t, name, attrs) is Ok,
    ensures
        declare_queue_spec(declare_queue_spec(t, name, attrs)->Ok_0, name, attrs)
            == declare_queue_spec(t, name, attrs),
{
}

/// Binding a second time with the same queue, exchange and pattern succeeds
/// and changes nothing.
pub proof fn lemma_rebind(t: TopologyView, binding: BindingView)
    requires
        bind_spec(t, binding) is Ok,
    ensures
        bind_spec(bind_spec(t, binding)->Ok_0, binding) == bind_spec(t, binding),
{
    let once = bind_spec(t, binding)->Ok_0;
    assert(once.bindings.insert(binding) =~= once.bindings);
}

/// A declaration that conflicts with the topology leaves no trace: the same
/// declarations succeed afterwards as before.
pub proof fn lemma_conflict_is_stable(t: TopologyView, name: Seq<char>, attrs: ExchangeAttrs)
    requires
        declare_exchange_spec(t, name, attrs) is Err,
    ensures
        t.exchanges.contains_key(name),
        t.exchanges[name] != attrs,
        declare_exchange_spec(t, name, t.exchanges[name]) == Ok::<TopologyView, TopologyError>(t),
{
}

/// The topology is consistent before anything is declared, and every
/// successful declaration keeps it so.
pub proof fn lemma_consistency(
    t: TopologyView,
    name: Seq<char>,
    exchange: ExchangeAttrs,
    queue: QueueAttrs,
    binding: BindingView,
)
    ensures
        consistent(initial_topology()),
        consistent(t) && declare_exchange_spec(t, name, exchange) is Ok ==> consistent(
            declare_exchange_spec(t, name, exchange)->Ok_0,
        ),
        consistent(t) && declare_queue_spec(t, name, queue) is Ok ==> consistent(
            declare_queue_spec(t, name, queue)->Ok_0,
        ),
        consistent(t) && bind_spec(t, binding) is Ok ==> consistent(bind_spec(t, binding)->Ok_0),
{
}

/// In a consistent topology a message published to the default exchange with
/// the name of a declared queue as its routing key reaches that queue.
pub proof fn lemma_default_route(t: TopologyView, queue: Seq<char>)
    requires
        consistent(t),
        t.queues.contains_key(queue),
    ensures
        routes_spec(t, Seq::empty(), queue).contains(queue),
{
    assert(carries(t, default_binding(queue), Seq::empty(), queue));
}

/// A fanout exchange hands a message to every queue bound to it, whatever the
/// routing key and the binding patterns are.
pub proof fn lemma_fanout_reaches_all(t: TopologyView, binding: BindingView, key: Seq<char>)
    requires
        t.bindings.contains(binding),
        t.exchanges.contains_key(binding.exchange),
        t.exchanges[binding.exchange].kind == ExchangeKind::Fanout,
    ensures
        routes_spec(t, binding.exchange, key).contains(binding.queue),
{
    assert(carries(t, binding, binding.exchange, key));
}

} // verus!
