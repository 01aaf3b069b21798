use amqp_patterns::consumer::Work;
use amqp_patterns::message::{Command, Delivery, Properties, Publish};
use amqp_patterns::patterns::{
    emit_log, emit_log_direct, emit_log_topic, log_consumer, new_task, receive, receive_logs,
    receive_logs_direct, receive_logs_topic, rpc_client, rpc_server, send, task_consumer, worker,
    Source, Step, Subscription,
};
use amqp_patterns::routing::ExchangeKind;
use amqp_patterns::topology::{QueueAttrs, Topology, TopologyError};

fn deliver(message: &Publish, tag: u64, redelivered: bool) -> Delivery {
    Delivery {
        tag,
        routing_key: message.routing_key.clone(),
        payload: message.payload.clone(),
        properties: message.properties.clone(),
        redelivered,
    }
}

fn plain() -> QueueAttrs {
    QueueAttrs { durable: false, exclusive: false, auto_delete: false }
}

fn exclusive() -> QueueAttrs {
    QueueAttrs { durable: false, exclusive: true, auto_delete: false }
}

#[test]
fn send_says_hello() {
    assert_eq!(
        send(),
        Publish {
            exchange: String::new(),
            routing_key: String::from("hello"),
            payload: b"Hello World!".to_vec(),
            properties: Properties::new(),
        }
    );
}

#[test]
fn new_task_is_persistent() {
    assert_eq!(
        new_task("Second message.."),
        Publish {
            exchange: String::new(),
            routing_key: String::from("task_queue"),
            payload: b"Second message..".to_vec(),
            properties: Properties { persistent: true, reply_to: None, correlation_id: None },
        }
    );
}

#[test]
fn emit_log_goes_to_the_fanout_exchange() {
    assert_eq!(
        emit_log("info: Hello World!"),
        Publish {
            exchange: String::from("logs"),
            routing_key: String::new(),
            payload: b"info: Hello World!".to_vec(),
            properties: Properties::new(),
        }
    );
}

#[test]
fn emit_log_direct_routes_by_severity() {
    assert_eq!(
        emit_log_direct("Run. Run.", "error"),
        Some(Publish {
            exchange: String::from("direct_logs"),
            routing_key: String::from("error"),
            payload: b"Run. Run.".to_vec(),
            properties: Properties::new(),
        })
    );
    assert_eq!(emit_log_direct("Run. Run.", ""), None);
}

#[test]
fn emit_log_topic_routes_by_topic() {
    assert_eq!(
        emit_log_topic("A critical kernel error", "kern.critical"),
        Some(Publish {
            exchange: String::from("topic_logs"),
            routing_key: String::from("kern.critical"),
            payload: b"A critical kernel error".to_vec(),
            properties: Properties::new(),
        })
    );
    assert_eq!(emit_log_topic("A critical kernel error", ""), None);
}

#[test]
fn receive_subscribes_to_hello() {
    assert_eq!(
        receive(),
        Subscription {
            source: None,
            queue: String::from("hello"),
            attrs: plain(),
            binding_keys: Vec::new(),
            prefetch: None,
            consumer_tag: String::new(),
        }
    );
}

#[test]
fn worker_takes_one_task_at_a_time() {
    assert_eq!(
        worker(),
        Subscription {
            source: None,
            queue: String::from("task_queue"),
            attrs: QueueAttrs { durable: true, exclusive: false, auto_delete: false },
            binding_keys: Vec::new(),
            prefetch: Some(1),
            consumer_tag: String::from("rust_consumer"),
        }
    );
}

#[test]
fn receive_logs_binds_an_anonymous_queue() {
    assert_eq!(
        receive_logs(),
        Subscription {
            source: Some(Source { name: String::from("logs"), kind: ExchangeKind::Fanout }),
            queue: String::new(),
            attrs: exclusive(),
            binding_keys: vec![String::new()],
            prefetch: None,
            consumer_tag: String::new(),
        }
    );
}

#[test]
fn receive_logs_direct_binds_each_severity() {
    let s = receive_logs_direct("info warning  error");
    assert_eq!(s.source, Some(Source { name: String::from("direct_logs"), kind: ExchangeKind::Direct }));
    assert_eq!(s.binding_keys, vec!["info", "warning", "error"]);
    assert_eq!(s.queue, "");
    assert_eq!(s.attrs, exclusive());
    assert_eq!(s.prefetch, None);
    assert_eq!(receive_logs_direct("").binding_keys, Vec::<String>::new());
}

#[test]
fn receive_logs_topic_binds_each_pattern() {
    let s = receive_logs_topic("kern.* *.critical");
    assert_eq!(s.source, Some(Source { name: String::from("topic_logs"), kind: ExchangeKind::Topic }));
    assert_eq!(s.binding_keys, vec!["kern.*", "*.critical"]);
    assert_eq!(receive_logs_topic("anonymous.info").binding_keys, vec!["anonymous.info"]);
}

#[test]
fn rpc_roles_set_up_their_queues() {
    assert_eq!(
        rpc_server(),
        Subscription {
            source: None,
            queue: String::from("rpc_queue"),
            attrs: plain(),
            binding_keys: Vec::new(),
            prefetch: Some(1),
            consumer_tag: String::new(),
        }
    );
    assert_eq!(
        rpc_client(),
        Subscription {
            source: None,
            queue: String::new(),
            attrs: QueueAttrs { durable: false, exclusive: true, auto_delete: true },
            binding_keys: Vec::new(),
            prefetch: None,
            consumer_tag: String::new(),
        }
    );
}

#[test]
fn hello_world_is_consumed_once_and_acknowledged() {
    let mut topology = Topology::new();
    let plan = receive();
    let queue = plan.declare(&mut topology, "hello").expect("no conflict");
    assert_eq!(queue, "hello");
    let message = send();
    assert_eq!(topology.routes(&message.exchange, &message.routing_key), vec!["hello"]);
    let mut consumer = log_consumer(&plan);
    let handled = consumer.on_delivery(&deliver(&message, 1, false));
    assert_eq!(handled.text, Some(String::from("Hello World!")));
    assert_eq!(handled.seconds, 0);
    assert_eq!(handled.command, Command::Ack { tag: 1 });
    assert_eq!(consumer.unacknowledged(), 1);
    assert!(consumer.on_settled(1));
    assert_eq!(consumer.unacknowledged(), 0);
    assert!(!consumer.on_settled(1));
}

#[test]
fn task_is_worked_on_then_acknowledged() {
    let mut topology = Topology::new();
    let plan = worker();
    assert_eq!(plan.declare(&mut topology, "task_queue"), Ok(String::from("task_queue")));
    let message = new_task("Third message...");
    assert_eq!(topology.routes(&message.exchange, &message.routing_key), vec!["task_queue"]);
    let mut consumer = task_consumer(&plan);
    let handled = consumer.on_delivery(&deliver(&message, 1, false));
    assert_eq!(handled.seconds, 3);
    assert_eq!(handled.command, Command::Ack { tag: 1 });
    let busy = consumer.on_delivery(&deliver(&new_task("Fourth...."), 2, false));
    assert_eq!(busy.command, Command::Nack { tag: 2, requeue: true });
    assert!(consumer.on_settled(1));
}

#[test]
fn redelivered_task_is_worked_on_again() {
    let plan = worker();
    let message = new_task("Again.");
    let mut first = task_consumer(&plan);
    assert_eq!(first.on_delivery(&deliver(&message, 1, false)).command, Command::Ack { tag: 1 });
    // the first worker goes away before it acknowledges; the broker offers the task again
    let mut second = task_consumer(&plan);
    let handled = second.on_delivery(&deliver(&message, 1, true));
    assert_eq!(handled.text, Some(String::from("Again.")));
    assert_eq!(handled.seconds, 1);
    assert_eq!(handled.command, Command::Ack { tag: 1 });
}

#[test]
fn broadcast_reaches_every_receiver() {
    let mut topology = Topology::new();
    let plan = receive_logs();
    assert_eq!(plan.declare(&mut topology, "amq.gen-a"), Ok(String::from("amq.gen-a")));
    assert_eq!(plan.declare(&mut topology, "amq.gen-b"), Ok(String::from("amq.gen-b")));
    let message = emit_log("info: Hello World!");
    let mut reached = topology.routes(&message.exchange, &message.routing_key);
    reached.sort();
    assert_eq!(reached, vec!["amq.gen-a", "amq.gen-b"]);
}

#[test]
fn severities_reach_their_receivers() {
    let mut topology = Topology::new();
    receive_logs_direct("info warning error").declare(&mut topology, "all").expect("no conflict");
    receive_logs_direct("error").declare(&mut topology, "errors").expect("no conflict");
    let error = emit_log_direct("Run. Run. Or it will explode.", "error").expect("a severity");
    let mut reached = topology.routes(&error.exchange, &error.routing_key);
    reached.sort();
    assert_eq!(reached, vec!["all", "errors"]);
    let info = emit_log_direct("Hello", "info").expect("a severity");
    assert_eq!(topology.routes(&info.exchange, &info.routing_key), vec!["all"]);
    let debug = emit_log_direct("Hello", "debug").expect("a severity");
    assert_eq!(topology.routes(&debug.exchange, &debug.routing_key), Vec::<String>::new());
}

#[test]
fn topics_reach_their_receivers() {
    let mut topology = Topology::new();
    receive_logs_topic("#").declare(&mut topology, "all").expect("no conflict");
    receive_logs_topic("kern.*").declare(&mut topology, "kern").expect("no conflict");
    receive_logs_topic("kern.* *.critical").declare(&mut topology, "both").expect("no conflict");
    let message = emit_log_topic("A critical kernel error", "kern.critical").expect("a topic");
    let mut reached = topology.routes(&message.exchange, &message.routing_key);
    reached.sort();
    assert_eq!(reached, vec!["all", "both", "kern"]);
    let other = emit_log_topic("x", "anonymous.info").expect("a topic");
    assert_eq!(topology.routes(&other.exchange, &other.routing_key), vec!["all"]);
}

#[test]
fn setting_up_twice_changes_nothing() {
    let mut topology = Topology::new();
    let plan = receive_logs_topic("kern.* *.critical");
    assert_eq!(plan.declare(&mut topology, "q"), Ok(String::from("q")));
    assert_eq!(plan.declare(&mut topology, "q"), Ok(String::from("q")));
    assert_eq!(topology.routes("topic_logs", "kern.critical"), vec!["q"]);
    assert_eq!(topology.queue("q"), Some(exclusive()));
}

#[test]
fn set_up_in_conflict_records_nothing() {
    let mut topology = Topology::new();
    topology.declare_queue("q", "q", true, false, false).expect("no conflict");
    let plan = receive_logs_direct("error");
    assert_eq!(plan.declare(&mut topology, "q"), Err(TopologyError::Conflict));
    assert_eq!(topology.exchange("direct_logs"), None);
    let mut other = Topology::new();
    other.declare_exchange("direct_logs", ExchangeKind::Topic, false).expect("no conflict");
    assert_eq!(plan.declare(&mut other, "fresh"), Err(TopologyError::Conflict));
    assert_eq!(other.queue("fresh"), None);
}

#[test]
fn consumers_of_the_patterns() {
    let shown = log_consumer(&receive());
    assert_eq!(shown.unacknowledged(), 0);
    let mut tasks = task_consumer(&worker());
    let d = Delivery {
        tag: 1,
        routing_key: String::from("task_queue"),
        payload: b"..".to_vec(),
        properties: Properties::new(),
        redelivered: false,
    };
    assert_eq!(tasks.on_delivery(&d).seconds, 2);
    let mut logs = log_consumer(&receive_logs());
    assert_eq!(logs.on_delivery(&d).seconds, 0);
    let _ = Work::Show;
}

#[test]
fn worker_sets_the_prefetch_limit_before_it_consumes() {
    assert_eq!(
        worker().steps(),
        vec![
            Step::DeclareQueue {
                name: String::from("task_queue"),
                attrs: QueueAttrs { durable: true, exclusive: false, auto_delete: false },
            },
            Step::Qos { limit: 1 },
            Step::Consume { consumer_tag: String::from("rust_consumer") },
        ]
    );
}

#[test]
fn receiver_of_hello_declares_and_consumes() {
    assert_eq!(
        receive().steps(),
        vec![
            Step::DeclareQueue { name: String::from("hello"), attrs: plain() },
            Step::Consume { consumer_tag: String::new() },
        ]
    );
}

#[test]
fn topic_receiver_binds_in_the_order_of_its_keys() {
    assert_eq!(
        receive_logs_topic("kern.* *.critical #").steps(),
        vec![
            Step::DeclareExchange { name: String::from("topic_logs"), kind: ExchangeKind::Topic },
            Step::DeclareQueue { name: String::new(), attrs: exclusive() },
            Step::Bind { exchange: String::from("topic_logs"), key: String::from("kern.*") },
            Step::Bind { exchange: String::from("topic_logs"), key: String::from("*.critical") },
            Step::Bind { exchange: String::from("topic_logs"), key: String::from("#") },
            Step::Consume { consumer_tag: String::new() },
        ]
    );
}

#[test]
fn broadcast_receiver_binds_once() {
    assert_eq!(
        receive_logs().steps(),
        vec![
            Step::DeclareExchange { name: String::from("logs"), kind: ExchangeKind::Fanout },
            Step::DeclareQueue { name: String::new(), attrs: exclusive() },
            Step::Bind { exchange: String::from("logs"), key: String::new() },
            Step::Consume { consumer_tag: String::new() },
        ]
    );
}

#[test]
fn rpc_server_sets_the_prefetch_limit_before_it_consumes() {
    assert_eq!(
        rpc_server().steps(),
        vec![
            Step::DeclareQueue { name: String::from("rpc_queue"), attrs: plain() },
            Step::Qos { limit: 1 },
            Step::Consume { consumer_tag: String::new() },
        ]
    );
}

#[test]
fn keys_without_a_source_are_not_bound() {
    let plan = Subscription {
        source: None,
        queue: String::from("q"),
        attrs: plain(),
        binding_keys: vec![String::from("ignored")],
        prefetch: Some(7),
        consumer_tag: String::from("t"),
    };
    assert_eq!(
        plan.steps(),
        vec![
            Step::DeclareQueue { name: String::from("q"), attrs: plain() },
            Step::Qos { limit: 7 },
            Step::Consume { consumer_tag: String::from("t") },
        ]
    );
}

#[test]
fn every_plan_ends_with_the_one_consume() {
    let plans = [
        receive(),
        worker(),
        receive_logs(),
        receive_logs_direct("info error"),
        receive_logs_topic(""),
        rpc_server(),
        rpc_client(),
    ];
    for plan in plans {
        let steps = plan.steps();
        let consumes = steps.iter().filter(|s| matches!(s, Step::Consume { .. })).count();
        assert_eq!(consumes, 1);
        assert!(matches!(steps.last(), Some(Step::Consume { .. })));
        let qos = steps.iter().position(|s| matches!(s, Step::Qos { .. }));
        assert_eq!(qos.is_some(), plan.prefetch.is_some());
        if let Some(at) = qos {
            assert_eq!(at + 2, steps.len());
        }
    }
}
