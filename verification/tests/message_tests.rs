use amqp_patterns::message::{copy_name, Properties};

#[test]
fn properties_builders() {
    let p = Properties::new();
    assert_eq!(p, Properties { persistent: false, reply_to: None, correlation_id: None });
    let p = p.with_persistence(true).with_reply_to(String::from("r")).with_correlation_id(String::from("c"));
    assert_eq!(
        p,
        Properties {
            persistent: true,
            reply_to: Some(String::from("r")),
            correlation_id: Some(String::from("c")),
        }
    );
    assert_eq!(p.duplicate(), p);
    assert_eq!(copy_name(&Some(String::from("x"))), Some(String::from("x")));
    assert_eq!(copy_name(&None), None);
}
