use nowhere::protocol::util::{check_target_len, validate_target, TargetError, TARGET_LEN_MAX};

#[test]
fn validates_host_port_forms() {
    assert!(validate_target("example.com:443").is_ok());
    assert!(validate_target("93.184.216.34:443").is_ok());
    assert!(validate_target("[::1]:443").is_ok());
    assert!(validate_target(":443").is_ok());
    assert!(validate_target("example.com:").is_err());
    assert!(validate_target("::1:443").is_err());
}

#[test]
fn checks_target_length_boundaries() {
    let max_len_target = format!("{}:1", "a".repeat(TARGET_LEN_MAX - 2));
    let too_long_target = format!("{}:1", "a".repeat(TARGET_LEN_MAX - 1));

    assert!(check_target_len("test", "").is_err());
    assert!(check_target_len("test", &max_len_target).is_ok());
    assert!(check_target_len("test", &too_long_target).is_err());
}

#[test]
fn target_errors_name_the_broken_part() {
    assert_eq!(validate_target("[::1"), Err(TargetError::MissingBracket));
    assert_eq!(validate_target("[::1]443"), Err(TargetError::MissingPort));
    assert_eq!(validate_target("[::1]"), Err(TargetError::MissingPort));
    assert_eq!(validate_target("example.com"), Err(TargetError::TooManyColons));
    assert_eq!(validate_target("a:b:c"), Err(TargetError::TooManyColons));
    assert_eq!(validate_target("example.com:"), Err(TargetError::EmptyPort));
    assert_eq!(validate_target("[::1]:"), Err(TargetError::EmptyPort));
    assert_eq!(validate_target(""), Err(TargetError::TooManyColons));
}

#[test]
fn bracketed_host_ends_at_first_bracket_and_port_takes_the_rest() {
    // The port after a bracketed host is not checked further.
    assert!(validate_target("[::1]:x:y]").is_ok());
    assert!(validate_target("[a]b]:1").is_err());
    // Non-ASCII hosts are searched by bytes all the same.
    assert!(validate_target("例え.jp:80").is_ok());
}

#[test]
fn length_error_keeps_context_and_length() {
    let err = check_target_len("ctx", "").unwrap_err();
    assert_eq!(err.context, "ctx");
    assert_eq!(err.len, 0);
    let long = "a".repeat(TARGET_LEN_MAX + 1);
    let err = check_target_len("other", &long).unwrap_err();
    assert_eq!(err.context, "other");
    assert_eq!(err.len, TARGET_LEN_MAX + 1);
    assert!(check_target_len("x", "a").is_ok());
}

#[test]
fn length_error_message_names_context_and_length() {
    let err = check_target_len("test", "").unwrap_err();
    assert_eq!(err.message(), "test: invalid target length: 0");
    let long = "a".repeat(TARGET_LEN_MAX + 1);
    let err = check_target_len("protocol::request::write_request_frame", &long).unwrap_err();
    assert_eq!(
        err.message(),
        "protocol::request::write_request_frame: invalid target length: 513"
    );
    let err = check_target_len("c", &"b".repeat(10_000)).unwrap_err();
    assert_eq!(err.message(), "c: invalid target length: 10000");
}

#[test]
fn target_errors_read_as_validate_target_words_them() {
    assert_eq!(
        TargetError::MissingBracket.message(),
        "protocol::util::validate_target: invalid target address: missing ']' in address"
    );
    assert_eq!(
        TargetError::MissingPort.message(),
        "protocol::util::validate_target: invalid target address: missing port in address"
    );
    assert_eq!(
        TargetError::TooManyColons.message(),
        "protocol::util::validate_target: invalid target address: too many colons in address"
    );
    assert_eq!(
        validate_target("example.com:").unwrap_err().message(),
        "protocol::util::validate_target: invalid target address: empty port"
    );
}
