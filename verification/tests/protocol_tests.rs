use pm::protocol::{decode_request, encode_request, parse_request, Request};

fn msg(tokens: &[&str]) -> Vec<String> {
    tokens.iter().map(|t| t.to_string()).collect()
}

#[test]
fn parse_exact_words() {
    assert!(matches!(parse_request(&msg(&["status"])), Some(Request::Status)));
    assert!(matches!(parse_request(&msg(&["remove"])), Some(Request::Remove)));
    assert!(matches!(parse_request(&msg(&["on"])), Some(Request::On)));
    assert!(matches!(parse_request(&msg(&["quit"])), Some(Request::Quit)));
}

#[test]
fn parse_add_with_arguments() {
    match parse_request(&msg(&["add", "foo", "/bin/sleep", "100", "x y"])) {
        Some(Request::Add { name, cmd, args }) => {
            assert_eq!(name, "foo");
            assert_eq!(cmd, "/bin/sleep");
            assert_eq!(args, vec!["100".to_string(), "x y".to_string()]);
        }
        other => panic!("wrong parse: {:?}", other.is_some()),
    }
}

#[test]
fn parse_add_without_arguments_is_usage() {
    assert!(matches!(parse_request(&msg(&["add"])), Some(Request::AddUsage)));
    assert!(matches!(parse_request(&msg(&["add", "foo"])), Some(Request::AddUsage)));
}

#[test]
fn parse_prefix_letters() {
    assert!(matches!(parse_request(&msg(&["ls"])), Some(Request::List)));
    assert!(matches!(parse_request(&msg(&["l"])), Some(Request::List)));
    assert!(matches!(parse_request(&msg(&["list-everything"])), Some(Request::List)));
    match parse_request(&msg(&["restart", "foo"])) {
        Some(Request::Restart { name: Some(n) }) => assert_eq!(n, "foo"),
        _ => panic!("wrong parse"),
    }
    assert!(matches!(parse_request(&msg(&["r"])), Some(Request::Restart { name: None })));
    match parse_request(&msg(&["enable", "a"])) {
        Some(Request::Enable { name }) => assert_eq!(name, "a"),
        _ => panic!("wrong parse"),
    }
    assert!(matches!(parse_request(&msg(&["e"])), Some(Request::EnableUsage)));
    match parse_request(&msg(&["d", "b"])) {
        Some(Request::Disable { name }) => assert_eq!(name, "b"),
        _ => panic!("wrong parse"),
    }
    assert!(matches!(parse_request(&msg(&["disable"])), Some(Request::DisableUsage)));
}

#[test]
fn remove_is_matched_before_the_restart_prefix() {
    assert!(matches!(parse_request(&msg(&["remove"])), Some(Request::Remove)));
    assert!(matches!(parse_request(&msg(&["remov"])), Some(Request::Restart { name: None })));
}

#[test]
fn parse_unknown_token() {
    match parse_request(&msg(&["off"])) {
        Some(Request::Unknown { token }) => assert_eq!(token, "off"),
        _ => panic!("wrong parse"),
    }
}

#[test]
fn parse_empty_message_is_a_protocol_error() {
    assert!(parse_request(&Vec::new()).is_none());
}

#[test]
fn wire_round_trip_status() {
    let bytes = encode_request(&"status".to_string(), &Vec::new()).expect("encodes");
    assert!(!bytes.is_empty());
    assert!(matches!(decode_request(bytes.as_slice()), Some(Request::Status)));
}

#[test]
fn wire_round_trip_add() {
    let params = vec!["foo".to_string(), "/bin/echo".to_string(), "a b".to_string()];
    let bytes = encode_request(&"add".to_string(), &params).expect("encodes");
    match decode_request(bytes.as_slice()) {
        Some(Request::Add { name, cmd, args }) => {
            assert_eq!(name, "foo");
            assert_eq!(cmd, "/bin/echo");
            assert_eq!(args, vec!["a b".to_string()]);
        }
        _ => panic!("wrong decode"),
    }
}

#[test]
fn decode_of_garbage_bytes_is_none() {
    // 0xFF... is no valid standard-encoded Vec<String>
    let bytes: Vec<u8> = vec![0xFF, 0xFF, 0xFF, 0xFF, 0xFF, 0xFF, 0xFF, 0xFF, 0xFF];
    assert!(decode_request(bytes.as_slice()).is_none());
}
