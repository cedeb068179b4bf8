use tinyserver::request::{parse_request_line, RequestError};

#[test]
fn three_tokens_parse() {
    let line = b"GET / HTTP/1.1";
    let rl = parse_request_line(line).unwrap();
    assert_eq!(rl.method, b"GET".to_vec());
    assert_eq!(rl.path, b"/".to_vec());
    assert_eq!(rl.version, b"HTTP/1.1".to_vec());
}

#[test]
fn two_tokens_are_malformed() {
    // The boundary case: exactly two tokens must surface as a malformed
    // request, not an out-of-bounds fault.
    let line = b"GET /";
    assert!(matches!(parse_request_line(line), Err(RequestError::MalformedRequest)));
}

#[test]
fn empty_and_blank_lines_are_malformed() {
    assert!(matches!(parse_request_line(b""), Err(RequestError::MalformedRequest)));
    assert!(matches!(parse_request_line(b"   \t "), Err(RequestError::MalformedRequest)));
    assert!(matches!(parse_request_line(b"GET"), Err(RequestError::MalformedRequest)));
}

#[test]
fn extra_whitespace_is_skipped() {
    let line = b"  GET \t /download  HTTP/1.1\r\n";
    let rl = parse_request_line(line).unwrap();
    assert_eq!(rl.method, b"GET".to_vec());
    assert_eq!(rl.path, b"/download".to_vec());
    assert_eq!(rl.version, b"HTTP/1.1".to_vec());
}

#[test]
fn tokens_past_the_third_are_ignored() {
    let rl = parse_request_line(b"GET / HTTP/1.1 junk trailing").unwrap();
    assert_eq!(rl.version, b"HTTP/1.1".to_vec());
}
