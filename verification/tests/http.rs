use bifrost_dns::http::{
    decode_chunked, http_request_text, parse_chunked_body, parse_http_response, response_body_readable,
    response_status, Connection, DEFAULT_HOST, DEFAULT_PORT,
};

#[test]
fn connection_defaults_to_local_api_port() {
    let c = Connection::from_values(None, None);
    assert_eq!(c.host, DEFAULT_HOST);
    assert_eq!(c.port, DEFAULT_PORT);
    assert_eq!(c.base_url(), "127.0.0.1:15353");
}

#[test]
fn connection_reads_host_and_port() {
    let c = Connection::from_values(Some("dns.local"), Some("8080"));
    assert_eq!(c.base_url(), "dns.local:8080");
    let c = Connection::from_values(Some("h"), Some("+7"));
    assert_eq!(c.port, 7);
}

#[test]
fn connection_ignores_bad_port() {
    assert_eq!(Connection::from_values(None, Some("70000")).port, 15353);
    assert_eq!(Connection::from_values(None, Some(" 80")).port, 15353);
    assert_eq!(Connection::from_values(None, Some("")).port, 15353);
    assert_eq!(Connection::from_values(None, Some("0")).base_url(), "127.0.0.1:0");
}

#[test]
fn request_text_without_body() {
    assert_eq!(
        http_request_text("GET", "/health", None),
        "GET /health HTTP/1.1\r\nHost: localhost\r\nConnection: close\r\n\r\n"
    );
}

#[test]
fn request_text_with_body_counts_bytes() {
    assert_eq!(
        http_request_text("POST", "/api/v1/records", Some("{\"a\":\"é\"}")),
        "POST /api/v1/records HTTP/1.1\r\nHost: localhost\r\nContent-Type: application/json\r\nContent-Length: 10\r\nConnection: close\r\n\r\n{\"a\":\"é\"}"
    );
}

#[test]
fn chunked_single_chunk() {
    assert_eq!(parse_chunked_body("5\r\nhello\r\n0\r\n\r\n"), "hello");
}

#[test]
fn chunked_several_chunks_and_padding() {
    assert_eq!(parse_chunked_body("3\r\nabc\r\n 2 \r\nde\r\n0\r\n\r\n"), "abcde");
    assert_eq!(parse_chunked_body("a\r\n0123456789\r\n0\r\n"), "0123456789");
    assert_eq!(parse_chunked_body("+1\r\nx\r\n"), "x");
}

#[test]
fn chunked_stops_where_reading_stops() {
    assert_eq!(parse_chunked_body(""), "");
    assert_eq!(parse_chunked_body("no line end"), "");
    assert_eq!(parse_chunked_body("zz\r\nabc"), "");
    assert_eq!(parse_chunked_body("2\r\nab\r\nq\r\nrest"), "ab");
}

#[test]
fn chunked_that_cannot_be_sliced_is_refused() {
    assert_eq!(decode_chunked("9\r\nhi"), None);
    assert_eq!(decode_chunked("2\r\nab"), None);
    assert_eq!(decode_chunked("1\r\né\r\n"), None);
    assert_eq!(decode_chunked("2\r\nab\r\n"), Some("ab".to_string()));
}

#[test]
fn response_plain_body() {
    let text = "HTTP/1.1 200 OK\r\ncontent-type: application/json\r\n\r\n{\"status\":\"ok\"}";
    assert_eq!(response_status(text), Some(200));
    assert!(response_body_readable(text));
    assert_eq!(parse_http_response(text), Some((200, "{\"status\":\"ok\"}".to_string())));
}

#[test]
fn response_without_body() {
    let text = "HTTP/1.1 204 No Content\r\ncontent-length: 0\r\n\r\n";
    assert_eq!(parse_http_response(text), Some((204, String::new())));
    assert_eq!(parse_http_response("HTTP/1.1 404 Not Found"), Some((404, String::new())));
}

#[test]
fn response_chunked_body() {
    let text = "HTTP/1.1 200 OK\r\ntransfer-encoding: chunked\r\n\r\n5\r\nhello\r\n0\r\n\r\n";
    assert!(response_body_readable(text));
    assert_eq!(parse_http_response(text), Some((200, "hello".to_string())));
}

#[test]
fn response_chunked_body_that_cannot_be_read() {
    let text = "HTTP/1.1 200 OK\r\ntransfer-encoding: chunked\r\n\r\n9\r\nhi";
    assert_eq!(response_status(text), Some(200));
    assert!(!response_body_readable(text));
}

#[test]
fn response_without_status() {
    assert_eq!(response_status(""), None);
    assert_eq!(parse_http_response("garbage"), None);
    assert_eq!(parse_http_response("HTTP/1.1 abc OK\r\n\r\nx"), None);
    assert_eq!(parse_http_response("HTTP/1.1 99999 OK\r\n\r\nx"), None);
}

#[test]
fn response_body_is_everything_after_the_blank_line() {
    let text = "HTTP/1.1 200 OK\r\n\r\nfirst\r\n\r\nsecond";
    assert_eq!(parse_http_response(text), Some((200, "first\r\n\r\nsecond".to_string())));
}
