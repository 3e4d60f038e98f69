use stockbit_chatbot::notification::svc::Notification;
use stockbit_chatbot::server::{Dispatch, Server, BAD_REQUEST, NOT_FOUND, OK_RESPONSE, OPTIONS_CORS};

fn reply_of(d: Dispatch) -> (String, bool) {
    match d {
        Dispatch::Reply { text, flush } => (text, flush),
        Dispatch::Chatbot { .. } => panic!("expected a reply"),
    }
}

#[test]
fn dispatch_refuses_full_buffer() {
    let big = vec![b'a'; 1024];
    assert_eq!(reply_of(Server::dispatch(&big)), (format!("{}{}", BAD_REQUEST, "Requets too large"), true));
}

#[test]
fn dispatch_answers_cors_preflight() {
    let d = Server::dispatch(b"OPTIONS /chatbot HTTP/1.1\r\nHost: x\r\n\r\n");
    assert_eq!(reply_of(d), (OPTIONS_CORS.to_string(), false));
}

#[test]
fn dispatch_hands_chatbot_body_over() {
    match Server::dispatch(b"POST /chatbot HTTP/1.1\r\nContent-Length: 2\r\n\r\n{}") {
        Dispatch::Chatbot { body } => assert_eq!(body, Some("{}".to_string())),
        other => panic!("unexpected {:?}", other),
    }
    match Server::dispatch(b"POST /chatbot HTTP/1.1\r\n") {
        Dispatch::Chatbot { body } => assert_eq!(body, None),
        other => panic!("unexpected {:?}", other),
    }
}

#[test]
fn dispatch_answers_unknown_route_with_404() {
    let d = Server::dispatch(b"GET /other HTTP/1.1\r\n\r\n");
    assert_eq!(reply_of(d), (format!("{}{}", "404 Not Found", NOT_FOUND), false));
}

#[test]
fn dispatch_answers_parse_error_with_400() {
    let d = Server::dispatch(b"BREW /chatbot HTTP/1.1\r\n\r\n");
    assert_eq!(reply_of(d), (format!("{}{}", BAD_REQUEST, "Missing Method"), true));
    let d = Server::dispatch(b"");
    assert_eq!(reply_of(d), (format!("{}{}", BAD_REQUEST, "Empty Request"), true));
}

#[test]
fn compose_puts_status_first() {
    assert_eq!(Server::compose("content", "status"), "statuscontent");
}

#[test]
fn dispatch_reads_invalid_utf8_lossily() {
    let d = Server::dispatch(b"OPTIONS /chatbot HTTP/1.1\r\nX: \xff\r\n\r\n");
    assert_eq!(reply_of(d), (OPTIONS_CORS.to_string(), false));
    let d = Server::dispatch(b"OPTIONS /chat\xffbot HTTP/1.1\r\n\r\n");
    assert_eq!(reply_of(d), (format!("{}{}", "404 Not Found", NOT_FOUND), false));
}

#[test]
fn notification_reply_and_subscription() {
    assert_eq!(Notification::reply(true), (OK_RESPONSE.to_string(), String::new()));
    assert_eq!(Notification::reply(false), (BAD_REQUEST.to_string(), String::new()));
    let sub = Notification::default_subscription();
    assert!(sub.endpoint.starts_with("https://fcm.googleapis.com/fcm/send/"));
    assert_eq!(sub.expiration_time, None);
    assert_eq!(sub.keys.auth, "gN0P_D1siTLc1nJnRtBV8Q");
}
