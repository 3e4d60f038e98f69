use stockbit_chatbot::client::Client;
use stockbit_chatbot::text::same_text;
use stockbit_chatbot::http_client::{FetchError, HeaderMap, HttpClient, HttpMethod, Response, ResponseError};

#[test]
fn response_reads_status_headers_and_body() {
    let text = "HTTP/1.1 200 OK\r\nContent-Type: application/json\r\nX-Trace:  abc \r\n\r\n{\"ok\":true}";
    let r = Response::new(text).unwrap();
    assert_eq!(r.status, 200);
    assert_eq!(r.headers.get("content-type"), Some(&"application/json".to_string()));
    assert_eq!(r.headers.get("x-trace"), Some(&"abc".to_string()));
    assert_eq!(r.headers.get("Content-Type"), None);
    assert_eq!(r.body, Some("{\"ok\":true}".to_string()));
}

#[test]
fn response_without_blank_line_has_no_body() {
    let r = Response::new("HTTP/1.1 404 Not Found\r\nA: b").unwrap();
    assert_eq!(r.status, 404);
    assert_eq!(r.headers.get("a"), Some(&"b".to_string()));
    assert_eq!(r.body, None);
}

#[test]
fn response_body_stops_at_second_blank_line() {
    let r = Response::new("HTTP/1.1 200 OK\r\n\r\nfirst\r\n\r\nsecond").unwrap();
    assert_eq!(r.body, Some("first".to_string()));
    let r = Response::new("HTTP/1.1 200 OK\r\n\r\n").unwrap();
    assert_eq!(r.body, Some("".to_string()));
}

#[test]
fn response_later_header_replaces_earlier() {
    let r = Response::new("HTTP/1.1 200 OK\nSet: 1\nSET : 2\nno colon here\n").unwrap();
    assert_eq!(r.headers.get("set"), Some(&"2".to_string()));
    assert_eq!(r.headers.get("no colon here"), None);
}

#[test]
fn response_header_name_is_lower_cased_in_unicode() {
    let r = Response::new("HTTP/1.1 200 OK\r\nÄRGER-X: Wert\r\n").unwrap();
    assert_eq!(r.headers.get("ärger-x"), Some(&"Wert".to_string()));
}

#[test]
fn response_value_keeps_later_colons() {
    let r = Response::new("HTTP/1.1 200 OK\r\nDate: 12:30:00\r\n\r\n").unwrap();
    assert_eq!(r.headers.get("date"), Some(&"12:30:00".to_string()));
}

#[test]
fn response_errors() {
    assert_eq!(Response::new("").unwrap_err(), ResponseError::EmptyRequest);
    assert_eq!(Response::new("\r\n\r\nbody").unwrap_err(), ResponseError::EmptyRequest);
    assert_eq!(Response::new(" \t\r\nA: b").unwrap_err(), ResponseError::MissingHttp);
    assert_eq!(Response::new("HTTP/1.1\r\n").unwrap_err(), ResponseError::NoStatusCode);
    assert_eq!(Response::new("HTTP/1.1 OK\r\n").unwrap_err(), ResponseError::InvalidStatus);
    assert_eq!(Response::new("HTTP/1.1 2147483648").unwrap_err(), ResponseError::InvalidStatus);
    assert_eq!(Response::new("HTTP/1.1 -").unwrap_err(), ResponseError::InvalidStatus);
    assert_eq!(Response::new("HTTP/1.1 1_0").unwrap_err(), ResponseError::InvalidStatus);
}

#[test]
fn response_status_as_i32_parses_it() {
    assert_eq!(Response::new("HTTP/1.1 +7 X").unwrap().status, 7);
    assert_eq!(Response::new("HTTP/1.1 -404").unwrap().status, -404);
    assert_eq!(Response::new("HTTP/1.1 007").unwrap().status, 7);
    assert_eq!(Response::new("HTTP/1.1 -2147483648").unwrap().status, i32::MIN);
    assert_eq!(Response::new("HTTP/1.1 2147483647").unwrap().status, i32::MAX);
    assert_eq!(Response::new("  HTTP/1.1 \u{3000} 201\r\n").unwrap().status, 201);
}

#[test]
fn header_map_gives_back_what_was_written() {
    let mut m = HeaderMap::new();
    assert_eq!(m.get("a"), None);
    m.insert("a".to_string(), "1".to_string());
    m.insert("b".to_string(), "2".to_string());
    m.insert("a".to_string(), "3".to_string());
    assert_eq!(m.get("a"), Some(&"3".to_string()));
    assert_eq!(m.get("b"), Some(&"2".to_string()));
}

#[test]
fn prepare_get_uses_path_and_query() {
    let plan = HttpClient::prepare(HttpMethod::GET, "https://api.telegram.org/bot123/getUpdates?offset=5", "").unwrap();
    assert_eq!(plan.host, "api.telegram.org");
    assert_eq!(plan.port, 443);
    assert_eq!(
        plan.request,
        "GET /bot123/getUpdates?offset=5 HTTP/1.1\r\nHost: api.telegram.org\r\nConnection: close\r\n\r\n"
    );
    let plan = HttpClient::prepare(HttpMethod::GET, "http://127.0.0.1:7878/order", "").unwrap();
    assert_eq!(plan.host, "127.0.0.1");
    assert_eq!(plan.port, 7878);
    assert_eq!(plan.request, "GET /order HTTP/1.1\r\nHost: 127.0.0.1\r\nConnection: close\r\n\r\n");
}

#[test]
fn prepare_post_sends_json_with_byte_length() {
    let body = "{\"text\":\"é\"}";
    let plan = HttpClient::prepare(HttpMethod::POST, "http://127.0.0.1:11434/api/generate", body).unwrap();
    assert_eq!(plan.port, 11434);
    let expected = format!(
        "POST /bot7994038141:AAFIcLqsTY_xI-eAsv32l1-JEAVTx9Y8-Ks/sendMessage HTTP/1.1\r\nHost: {}\r\nContent-Type: application/json\r\nContent-Length: {}\r\nConnection: close\r\n\r\n{}",
        "127.0.0.1",
        13,
        body
    );
    assert_eq!(body.len(), 13);
    assert_eq!(plan.request, expected);
}

#[test]
fn prepare_errors() {
    assert_eq!(HttpClient::prepare(HttpMethod::GET, "not a url", "").unwrap_err(), FetchError::InvalidUrl);
    assert_eq!(HttpClient::prepare(HttpMethod::GET, "unix:/tmp/socket", "").unwrap_err(), FetchError::NoHost);
    assert_eq!(HttpClient::prepare(HttpMethod::GET, "foo://example.com/x", "").unwrap_err(), FetchError::NoPort);
}

#[test]
fn client_request_text() {
    let json = "{\"prompt\":\"hi\"}";
    assert_eq!(
        Client::request_text(false, json),
        format!(
            "POST /api/generate HTTP/1.1\r\nHost: localhost:11434\r\nContent-Type: application/json\r\nContent-Length: {}\r\nConnection: close\r\n\r\n{}",
            json.len(),
            json
        )
    );
    assert_eq!(
        Client::request_text(true, json),
        format!(
            "POST /api/generate HTTP/1.1\r\nHost: localhost:11434\r\nContent-Type: application/json\r\nContent-Length: {}\r\nConnection: keep-alive\r\n\r\n{}",
            json.len(),
            json
        )
    );
}

#[test]
fn status_line_and_body_read_back() {
    for code in [0, 200, 404, -1, i32::MAX, i32::MIN] {
        let text = format!("HTTP/1.1 {}\r\n\r\nhello\r\nworld", code);
        let r = Response::new(&text).unwrap();
        assert_eq!(r.status, code);
        assert_eq!(r.headers.get("hello"), None);
        assert_eq!(r.body, Some("hello\r\nworld".to_string()));
    }
}

#[test]
fn header_map_lists_each_field_once() {
    let r = Response::new("HTTP/1.1 200 OK\r\nA: 1\r\nB: 2\r\na: 3\r\n\r\n").unwrap();
    let mut fields = r.headers.fields();
    fields.sort();
    assert_eq!(fields, vec![("a".to_string(), "3".to_string()), ("b".to_string(), "2".to_string())]);
}

#[test]
fn same_text_compares_characters() {
    assert!(same_text("héllo", "héllo"));
    assert!(!same_text("héllo", "hello"));
    assert!(!same_text("ab", "abc"));
    assert!(same_text("", ""));
}
