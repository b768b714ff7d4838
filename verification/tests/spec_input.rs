use nowhere::protocol::spec_input::{
    decode_username, query_value, validate_optional, validate_required, InputError, MAX_INPUT_LEN,
};

#[test]
fn username_is_percent_decoded() {
    assert_eq!(decode_username("change-me").unwrap(), b"change-me".to_vec());
    assert_eq!(decode_username("a%20b%3F").unwrap(), b"a b?".to_vec());
    assert_eq!(decode_username("100%").unwrap(), b"100%".to_vec());
    assert_eq!(decode_username("%zz%4").unwrap(), b"%zz%4".to_vec());
    assert_eq!(decode_username("%E4%BE%8B").unwrap(), "例".as_bytes().to_vec());
    assert!(matches!(decode_username("%ff"), Err(InputError::InvalidUsername)));
}

#[test]
fn required_and_optional_inputs_are_bounded() {
    assert!(matches!(validate_required("spec", b""), Err(InputError::Missing(n)) if n == "spec"));
    assert!(validate_required("spec", b"nightfall").is_ok());
    let long = vec![b'a'; MAX_INPUT_LEN + 1];
    assert!(matches!(validate_required("key", &long), Err(InputError::TooLong(n)) if n == "key"));
    assert!(validate_required("key", &long[..MAX_INPUT_LEN]).is_ok());
    assert!(validate_optional("alpn", b"").is_ok());
    assert!(matches!(validate_optional("alpn", &long), Err(InputError::OptionalTooLong(n)) if n == "alpn"));
}

#[test]
fn query_values_are_found_and_decoded() {
    let q = Some("tls=2&spec=night%20fall&alpn=now/1&flag");
    assert_eq!(query_value(q, "spec").unwrap(), Some("night fall".to_string()));
    assert_eq!(query_value(q, "tls").unwrap(), Some("2".to_string()));
    assert_eq!(query_value(q, "flag").unwrap(), Some(String::new()));
    assert_eq!(query_value(q, "missing").unwrap(), None);
    assert_eq!(query_value(None, "spec").unwrap(), None);
    assert_eq!(query_value(Some("a=1&a=2"), "a").unwrap(), Some("1".to_string()));
    assert_eq!(query_value(Some("sp%65c=x"), "spec").unwrap(), Some("x".to_string()));
    assert_eq!(query_value(Some(""), "").unwrap(), Some(String::new()));
    assert_eq!(query_value(Some("k=a=b"), "k").unwrap(), Some("a=b".to_string()));
}

#[test]
fn query_decoding_errors_stop_the_search() {
    assert!(matches!(query_value(Some("%ff=1&spec=x"), "spec"), Err(InputError::InvalidQueryKey)));
    assert!(matches!(query_value(Some("spec=%ff"), "spec"), Err(InputError::InvalidQueryValue(k)) if k == "spec"));
    assert_eq!(query_value(Some("spec=x&%ff=1"), "spec").unwrap(), Some("x".to_string()));
    assert!(matches!(query_value(Some("other=%ff&spec=x"), "spec"), Ok(Some(_))));
}

#[test]
fn input_errors_read_as_the_checks_word_them() {
    assert_eq!(
        decode_username("%ff").unwrap_err().message(),
        "protocol::spec::decode_username: invalid percent-encoded username"
    );
    assert_eq!(
        validate_required("spec", b"").unwrap_err().message(),
        "protocol::spec::validate_required: missing spec"
    );
    let long = vec![b'a'; MAX_INPUT_LEN + 1];
    assert_eq!(
        validate_required("key", &long).unwrap_err().message(),
        "protocol::spec::validate_required: key exceeds 1024 bytes"
    );
    assert_eq!(
        validate_optional("alpn", &long).unwrap_err().message(),
        "protocol::spec::validate_optional: alpn exceeds 1024 bytes"
    );
    assert_eq!(
        query_value(Some("%ff=1"), "spec").unwrap_err().message(),
        "protocol::spec::query_value: invalid percent-encoded query key"
    );
    assert_eq!(
        query_value(Some("spec=%ff"), "spec").unwrap_err().message(),
        "protocol::spec::query_value: invalid percent-encoded spec"
    );
}
