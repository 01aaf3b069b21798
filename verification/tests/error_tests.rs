use amqp_patterns::error::{kind_of_refusal, ErrorKind, Failure, Reach, PRECONDITION_FAILED};

#[test]
fn error_kinds_and_their_reach() {
    assert_eq!(ErrorKind::ConnectionFailure.reach(), Reach::Connection);
    assert_eq!(ErrorKind::TopologyConflict.reach(), Reach::Call);
    assert_eq!(ErrorKind::PublishUnconfirmed.reach(), Reach::Call);
    assert_eq!(ErrorKind::RpcTimeout.reach(), Reach::Call);
    assert_eq!(ErrorKind::DeliveryDecodeError.reach(), Reach::Delivery);
    assert_eq!(ErrorKind::StrayReply.reach(), Reach::Delivery);
    assert!(ErrorKind::ConnectionFailure.fatal());
    assert!(ErrorKind::TopologyConflict.fatal());
    assert!(!ErrorKind::PublishUnconfirmed.fatal());
    assert!(!ErrorKind::RpcTimeout.fatal());
    assert!(!ErrorKind::ConnectionFailure.keeps_consuming());
    for kind in [
        ErrorKind::TopologyConflict,
        ErrorKind::PublishUnconfirmed,
        ErrorKind::DeliveryDecodeError,
        ErrorKind::StrayReply,
        ErrorKind::RpcTimeout,
    ] {
        assert!(kind.keeps_consuming());
    }
}

#[test]
fn failure_reports_operation_and_target() {
    let failure = Failure::new(ErrorKind::TopologyConflict, "declare_queue", "task_queue");
    assert_eq!(failure.kind, ErrorKind::TopologyConflict);
    assert_eq!(failure.report(), "TopologyConflict in declare_queue on task_queue");
    assert_eq!(ErrorKind::RpcTimeout.name(), "RpcTimeout");
    assert_eq!(
        Failure::new(ErrorKind::ConnectionFailure, "connect", "amqp://127.0.0.1:5672/%2f").report(),
        "ConnectionFailure in connect on amqp://127.0.0.1:5672/%2f"
    );
}

#[test]
fn refusals_by_their_reply_code() {
    assert_eq!(PRECONDITION_FAILED, 406);
    assert_eq!(kind_of_refusal(Some(406)), ErrorKind::TopologyConflict);
    assert_eq!(kind_of_refusal(Some(404)), ErrorKind::ConnectionFailure);
    assert_eq!(kind_of_refusal(Some(403)), ErrorKind::ConnectionFailure);
    assert_eq!(kind_of_refusal(Some(320)), ErrorKind::ConnectionFailure);
    assert_eq!(kind_of_refusal(Some(0)), ErrorKind::ConnectionFailure);
    assert_eq!(kind_of_refusal(Some(u16::MAX)), ErrorKind::ConnectionFailure);
    assert_eq!(kind_of_refusal(None), ErrorKind::ConnectionFailure);
}
