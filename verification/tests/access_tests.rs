use burst::access::{fresh_group_name, fresh_key_name, group_description, ingress_rules};
use burst::connect::{
    connect_decision, ssh_endpoint, ssh_username, ConnectStep, CONNECT_ATTEMPT_TIMEOUT_SECS,
    CONNECT_BUDGET_SECS, CONNECT_RETRY_DELAY_SECS,
};

#[test]
fn group_names_carry_prefix_and_random_suffix() {
    let a = fresh_group_name();
    assert_eq!(a.len(), 25);
    assert!(a.starts_with("burst_security_"));
    assert!(a[15..].chars().all(|c| c.is_ascii_alphanumeric()));
}

#[test]
fn key_names_carry_prefix_and_random_suffix() {
    let a = fresh_key_name();
    assert_eq!(a.len(), 20);
    assert!(a.starts_with("burst_key_"));
    assert!(a[10..].chars().all(|c| c.is_ascii_alphanumeric()));
}

#[test]
fn group_description_text() {
    assert_eq!(group_description(), "Temporary access groups for burst vms");
}

#[test]
fn ingress_rules_open_ssh_and_vpc_traffic() {
    let rules = ingress_rules("sg-42");
    assert_eq!(rules.len(), 2);

    assert_eq!(rules[0].group_id, "sg-42");
    assert_eq!(rules[0].ip_protocol, "tcp");
    assert_eq!(rules[0].from_port, 22);
    assert_eq!(rules[0].to_port, 22);
    assert_eq!(rules[0].cidr_ip, "0.0.0.0/0");

    assert_eq!(rules[1].group_id, "sg-42");
    assert_eq!(rules[1].ip_protocol, "tcp");
    assert_eq!(rules[1].from_port, 0);
    assert_eq!(rules[1].to_port, 65535);
    assert_eq!(rules[1].cidr_ip, "172.31.0.0/16");
}

#[test]
fn connect_policy_constants() {
    assert_eq!(CONNECT_ATTEMPT_TIMEOUT_SECS, 3);
    assert_eq!(CONNECT_RETRY_DELAY_SECS, 1);
    assert_eq!(CONNECT_BUDGET_SECS, 60);
}

#[test]
fn connect_gives_up_only_after_the_budget() {
    assert!(matches!(connect_decision(true, 0), ConnectStep::Proceed));
    assert!(matches!(connect_decision(true, 500), ConnectStep::Proceed));
    assert!(matches!(
        connect_decision(false, 0),
        ConnectStep::RetryAfterDelay
    ));
    assert!(matches!(
        connect_decision(false, 60),
        ConnectStep::RetryAfterDelay
    ));
    assert!(matches!(connect_decision(false, 61), ConnectStep::GiveUp));
}

#[test]
fn ssh_targets() {
    assert_eq!(ssh_username(), "ec2-user");
    assert_eq!(ssh_endpoint("3.4.5.6"), "3.4.5.6:22");
}
