use burst::text::{
    contains_str, is_transient_describe_failure, is_transient_terminate_failure, str_eq,
};

#[test]
fn str_eq_compares_characters() {
    assert!(str_eq("sir-1", "sir-1"));
    assert!(!str_eq("sir-1", "sir-2"));
    assert!(!str_eq("sir", "sir-1"));
    assert!(str_eq("", ""));
}

#[test]
fn contains_finds_substrings() {
    assert!(contains_str("hello world", "lo wo"));
    assert!(contains_str("hello", ""));
    assert!(contains_str("hello", "hello"));
    assert!(!contains_str("hello", "hello!"));
    assert!(!contains_str("abc", "cb"));
}

#[test]
fn describe_race_message_is_transient() {
    assert!(is_transient_describe_failure(
        "The spot instance request ID 'sir-abc123' does not exist"
    ));
}

#[test]
fn describe_message_needs_both_signals() {
    assert!(!is_transient_describe_failure("sir-abc123 does not exist"));
    assert!(!is_transient_describe_failure("The spot instance request ID is malformed"));
    assert!(!is_transient_describe_failure("RequestLimitExceeded"));
}

#[test]
fn terminate_transport_flakes_are_transient() {
    assert!(is_transient_terminate_failure("Pooled stream disconnected"));
    assert!(is_transient_terminate_failure("io error: broken pipe"));
    assert!(!is_transient_terminate_failure("UnauthorizedOperation"));
}
