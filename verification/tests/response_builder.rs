use tinyserver::response::Response;
use tinyserver::wire::{bytes_eq, dec_usize, str_bytes};

fn b(s: &str) -> Vec<u8> {
    s.as_bytes().to_vec()
}

#[test]
fn simple_response_exact_bytes() {
    let resp = Response::new(b("HTTP/1.1 200 OK"), b("hello.html"), Some(b("text/html")), b("hello"));
    let out = resp.simple_response();
    assert_eq!(out, b("HTTP/1.1 200 OK\r\nContent-Length: 5\r\n\r\nhello"));
}

#[test]
fn simple_response_empty_body() {
    let resp = Response::new(b("HTTP/1.1 200 OK"), b("hello.html"), None, Vec::new());
    let out = resp.simple_response();
    assert_eq!(out, b("HTTP/1.1 200 OK\r\nContent-Length: 0\r\n\r\n"));
}

#[test]
fn file_response_exact_bytes() {
    let body = vec![0u8, 159, 146, 150];
    let resp = Response::new(
        b("HTTP/1.1 200 OK"),
        b("test.mp3"),
        Some(b("audio/mpeg")),
        body.clone(),
    );
    let out = resp.file_response();
    let mut expected = b(
        "HTTP/1.1 200 OK\r\nConnection: keep-alive\r\nContent-Length: 4\r\nContent-Type: audio/mpeg\r\nContent-Disposition: attachment; filename*=test.mp3\r\n\r\n",
    );
    expected.extend_from_slice(&body);
    assert_eq!(out, expected);
}

#[test]
fn file_response_default_kind() {
    let resp = Response::new(b("HTTP/1.1 200 OK"), b("blob.bin"), None, b("xy"));
    let out = resp.file_response();
    let expected = b(
        "HTTP/1.1 200 OK\r\nConnection: keep-alive\r\nContent-Length: 2\r\nContent-Type: application/octet-stream\r\nContent-Disposition: attachment; filename*=blob.bin\r\n\r\nxy",
    );
    assert_eq!(out, expected);
}

#[test]
fn content_length_matches_body_len() {
    // The declared length equals the body's byte count, and exactly one
    // blank line separates headers from body.
    for n in [0usize, 1, 9, 10, 57, 255] {
        let body = vec![b'a'; n];
        let resp = Response::new(b("HTTP/1.1 200 OK"), b("x"), None, body.clone());
        let out = resp.simple_response();
        let marker = b"\r\n\r\n";
        let pos = out
            .windows(4)
            .position(|w| w == marker)
            .expect("header block must end in a blank line");
        assert_eq!(
            out.windows(4).filter(|w| *w == marker).count(),
            1 + body.windows(4).filter(|w| *w == marker).count(),
        );
        let header = std::str::from_utf8(&out[..pos]).unwrap();
        let declared: usize = header
            .rsplit("Content-Length: ")
            .next()
            .unwrap()
            .parse()
            .unwrap();
        assert_eq!(declared, n);
        assert_eq!(&out[pos + 4..], &body[..]);
    }
}

#[test]
fn building_twice_is_byte_identical() {
    let make = || {
        Response::new(b("HTTP/1.1 200 OK"), b("test.mp3"), Some(b("audio/mpeg")), b("payload"))
    };
    assert_eq!(make().simple_response(), make().simple_response());
    assert_eq!(make().file_response(), make().file_response());
}

#[test]
fn len_reports_body_bytes() {
    let resp = Response::new(b("HTTP/1.1 200 OK"), b("x"), None, b("abcd"));
    assert_eq!(resp.len(), 4);
}

#[test]
fn decimal_rendering() {
    assert_eq!(dec_usize(0), b("0"));
    assert_eq!(dec_usize(7), b("7"));
    assert_eq!(dec_usize(10), b("10"));
    assert_eq!(dec_usize(12345), b("12345"));
}

#[test]
fn byte_helpers() {
    assert!(bytes_eq(b"abc", b"abc"));
    assert!(!bytes_eq(b"abc", b"abd"));
    assert!(!bytes_eq(b"abc", b"ab"));
    assert_eq!(str_bytes("HTTP/1.1 200 OK"), b("HTTP/1.1 200 OK"));
}
