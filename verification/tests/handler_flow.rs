use tinyserver::handler::{bad_request_response, get_response_parts, plan_request, render_response};
use tinyserver::request::RequestError;
use tinyserver::routes::register_routes;

fn b(s: &str) -> Vec<u8> {
    s.as_bytes().to_vec()
}

#[test]
fn index_request_served_inline() {
    // GET / with the fixed routes: success status, inline framing, length
    // equal to the resource's byte count.
    let routes = register_routes();
    let plan = plan_request(b"GET / HTTP/1.1", &routes).unwrap();
    assert_eq!(plan.status_line, b("HTTP/1.1 200 OK"));
    assert_eq!(plan.desc.name, b("hello.html"));
    assert!(!plan.attachment);
    let body = b("<html>hello</html>");
    let out = render_response(plan, Some(body));
    assert_eq!(out, b("HTTP/1.1 200 OK\r\nContent-Length: 18\r\n\r\n<html>hello</html>"));
}

#[test]
fn download_request_served_as_attachment() {
    // GET /download: success status, attachment framing, declared kind and
    // file name, body carried byte for byte.
    let routes = register_routes();
    let plan = plan_request(b"GET /download HTTP/1.1", &routes).unwrap();
    assert_eq!(plan.status_line, b("HTTP/1.1 200 OK"));
    assert_eq!(plan.desc.name, b("test.mp3"));
    assert_eq!(plan.desc.kind, b("audio/mpeg"));
    assert!(plan.attachment);
    let body = vec![255u8, 0, 127, 10, 13, 10];
    let out = render_response(plan, Some(body.clone()));
    let mut expected = b(
        "HTTP/1.1 200 OK\r\nConnection: keep-alive\r\nContent-Length: 6\r\nContent-Type: audio/mpeg\r\nContent-Disposition: attachment; filename*=test.mp3\r\n\r\n",
    );
    expected.extend_from_slice(&body);
    assert_eq!(out, expected);
}

#[test]
fn missing_path_served_not_found() {
    // GET /missing: not-found status, inline framing, fallback page as body.
    let routes = register_routes();
    let plan = plan_request(b"GET /missing HTTP/1.1", &routes).unwrap();
    assert_eq!(plan.status_line, b("HTTP/1.1 404 NOT FOUND"));
    assert_eq!(plan.desc.name, b("404.html"));
    assert_eq!(plan.desc.kind, b("text/html"));
    assert!(!plan.attachment);
    let fallback = b("<html>oops</html>");
    let out = render_response(plan, Some(fallback));
    assert_eq!(out, b("HTTP/1.1 404 NOT FOUND\r\nContent-Length: 17\r\n\r\n<html>oops</html>"));
}

#[test]
fn short_request_line_is_rejected() {
    let routes = register_routes();
    assert!(matches!(plan_request(b"GET /", &routes), Err(RequestError::MalformedRequest)));
    assert_eq!(
        bad_request_response(),
        b("HTTP/1.1 400 BAD REQUEST\r\nContent-Length: 0\r\n\r\n"),
    );
}

#[test]
fn failed_fetch_turns_into_server_error() {
    let routes = register_routes();
    let plan = plan_request(b"GET / HTTP/1.1", &routes).unwrap();
    let out = render_response(plan, None);
    assert_eq!(out, b("HTTP/1.1 500 INTERNAL SERVER ERROR\r\nContent-Length: 0\r\n\r\n"));
}

#[test]
fn response_parts_follow_the_table() {
    let routes = register_routes();
    let (status, desc) = get_response_parts(b"/", &routes);
    assert_eq!(status, b("HTTP/1.1 200 OK"));
    assert_eq!(desc.name, b("hello.html"));
    let (status, desc) = get_response_parts(b"/nowhere", &routes);
    assert_eq!(status, b("HTTP/1.1 404 NOT FOUND"));
    assert_eq!(desc.name, b("404.html"));
}
