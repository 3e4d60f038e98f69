use vstd::prelude::*;

use crate::http_client::opt_chars;
use crate::telegram::model::{GetUpdatesResp, TeleMessage};
use request_http_parser::parser::{Method, Request};
use vstd::utf8::{decode_utf8, valid_utf8};

verus! {

pub const BAD_REQUEST: &'static str = "HTTP/1.1 400 Bad Request\r\n\r\n";

pub const NOT_FOUND: &'static str = "HTTP/1.1 404 Not Found\r\n\r\n";

pub const OPTIONS_CORS: &'static str = "HTTP/1.1 204 No Content\r\nAccess-Control-Allow-Origin: *\r\nAccess-Control-Allow-Methods: POST, GET, OPTIONS\r\nAccess-Control-Allow-Headers: Content-Type\r\nAccess-Control-Max-Age: 86400\r\n\r\n";

pub const OK_RESPONSE: &'static str = "HTTP/1.1 200 OK\r\nContent-Type: application/json\r\n\r\n";

/// The method of an incoming request.
#[derive(Debug, Clone, Copy, PartialEq, Eq, Structural)]
pub enum RequestMethod {
    Get,
    Post,
    Put,
    Patch,
    Delete,
    Head,
    Options,
}

/// What the server reads of an incoming request.
#[derive(Debug)]
pub struct ParsedRequest {
    pub method: RequestMethod,
    pub path: String,
    pub body: Option<String>,
}

/// What `request_http_parser::parser::Request::new` gives for `text`: the
/// method, the (normalized) path and the body; or the text of its error.
pub uninterp spec fn parsed_request(text: Seq<char>) -> Result<
    (RequestMethod, Seq<char>, Option<Seq<char>>),
    Seq<char>,
>;

/// Parses an incoming request with `request_http_parser`; keeps its method,
/// path and body, or the `Display` text of its error. The contract names the
/// result only: the crate's parsing is not restated here.
#[verifier::external_body]
fn parse_request(text: &str) -> (r: Result<ParsedRequest, String>)
    ensures
        match r {
            Ok(p) => parsed_request(text@) == Ok::<_, Seq<char>>(
                (p.method, p.path@, opt_chars(p.body)),
            ),
            Err(e) => parsed_request(text@) == Err::<
                (RequestMethod, Seq<char>, Option<Seq<char>>),
                _,
            >(e@),
        },
{
    match Request::new(text) {
        Ok(req) => Ok(ParsedRequest {
            method: match req.method {
                Method::GET => RequestMethod::Get, Method::POST => RequestMethod::Post,
                Method::PUT => RequestMethod::Put, Method::PATCH => RequestMethod::Patch,
                Method::DELETE => RequestMethod::Delete, Method::HEAD => RequestMethod::Head,
                Method::OPTIONS => RequestMethod::Options,
            },
            path: req.path,
            body: req.body,
        }),
        Err(e) => Err(e.to_string()),
    }
}

/// What `String::from_utf8_lossy` gives for `bytes`.
pub uninterp spec fn lossy_text(bytes: Seq<u8>) -> Seq<char>;

/// The text of `bytes`, each invalid UTF-8 sequence replaced
/// (`String::from_utf8_lossy`). The contract states that valid UTF-8 is
/// decoded as such and names the result otherwise.
#[verifier::external_body]
pub(crate) fn decode_lossy(bytes: &[u8]) -> (r: String)
    ensures
        r@ == lossy_text(bytes@),
        valid_utf8(bytes@) ==> r@ == decode_utf8(bytes@),
{
    String::from_utf8_lossy(bytes).into_owned()
}

/// What the server does with a request it has read.
#[derive(Debug)]
pub enum Dispatch {
    /// Write `text` back (and flush when `flush`), and end.
    Reply { text: String, flush: bool },
    /// Stream the chatbot's answer to `body`.
    Chatbot { body: Option<String> },
}

/// The size from which a request is refused as too large.
pub open spec fn request_limit() -> nat {
    1024
}

/// What the server does with the bytes `received` of a request: the text to
/// write back and whether to flush, or the body to hand to the chatbot.
pub open spec fn dispatch_of(received: Seq<u8>) -> (Option<(Seq<char>, bool)>, Option<Seq<char>>) {
    if received.len() >= request_limit() {
        (Some((BAD_REQUEST@ + "Requets too large"@, true)), None)
    } else {
        match parsed_request(lossy_text(received)) {
            Err(e) => (Some((BAD_REQUEST@ + e, true)), None),
            Ok((method, path, body)) => if method == RequestMethod::Options && path
                == "/chatbot"@ {
                (Some((OPTIONS_CORS@, false)), None)
            } else if method == RequestMethod::Post && path == "/chatbot"@ {
                (None, body)
            } else {
                (Some(("404 Not Found"@ + NOT_FOUND@, false)), None)
            },
        }
    }
}

/// The view of a dispatch: the reply and flush, or the chatbot's body.
pub open spec fn dispatch_view(d: Dispatch) -> (Option<(Seq<char>, bool)>, Option<Seq<char>>) {
    match d {
        Dispatch::Reply { text, flush } => (Some((text@, flush)), None),
        Dispatch::Chatbot { body } => (None, opt_chars(body)),
    }
}

/// The HTTP server of the chatbot.
pub struct Server {}

impl Server {
    /// Decides what to do with the bytes `received` of a request: refuse it
    /// when it fills the read buffer, answer a parse error with `400` and the
    /// error, answer `OPTIONS /chatbot` with the CORS headers, hand the body
    /// of `POST /chatbot` to the chatbot, and answer anything else with `404`.
    pub fn dispatch(received: &[u8]) -> (r: Dispatch)
        ensures
            dispatch_view(r) == dispatch_of(received@),
            (r is Chatbot) == (dispatch_of(received@).0 is None),
    {
        if received.len() >= 1024 {
            let mut text = String::new();
            text.append(BAD_REQUEST);
            text.append("Requets too large");
            return Dispatch::Reply { text, flush: true };
        }
        let request_text = decode_lossy(received);
        match parse_request(request_text.as_str()) {
            Err(e) => {
                let mut text = String::new();
                text.append(BAD_REQUEST);
                text.append(e.as_str());
                Dispatch::Reply { text, flush: true }
            },
            Ok(req) => {
                let is_chatbot = crate::text::same_text(req.path.as_str(), "/chatbot");
                if req.method == RequestMethod::Options && is_chatbot {
                    proof {
                        reveal_strlit("");
                        assert(OPTIONS_CORS@ + ""@ == OPTIONS_CORS@);
                    }
                    Dispatch::Reply { text: Self::compose("", OPTIONS_CORS), flush: false }
                } else if req.method == RequestMethod::Post && is_chatbot {
                    Dispatch::Chatbot { body: req.body }
                } else {
                    Dispatch::Reply { text: Self::compose(NOT_FOUND, "404 Not Found"), flush: false }
                }
            },
        }
    }

    /// What the server writes back for a route's `(content, status)`: the
    /// status, then the content.
    pub fn compose(content: &str, status: &str) -> (r: String)
        ensures
            r@ == status@ + content@,
    {
        let mut r = String::new();
        r.append(status);
        r.append(content);
        r
    }
}

impl Server {
    /// The next offset and the echo to send for a batch of updates: with no
    /// update, the offset stays and nothing is sent; otherwise the offset
    /// moves past the first update, whose message is echoed to its chat.
    pub fn echo_reply(update_id: i64, updates: &GetUpdatesResp) -> (r: (i64, Option<TeleMessage>))
        requires
            updates.result.len() > 0 ==> updates.result[0].update_id < i64::MAX,
        ensures
            updates.result.len() == 0 ==> r.0 == update_id && r.1 is None,
            updates.result.len() > 0 ==> {
                &&& r.0 == updates.result[0].update_id + 1
                &&& r.1 matches Some(m)
                &&& m.chat_id == updates.result[0].message.chat.id
                &&& m.text@ == "Echo "@ + updates.result[0].message.text@
            },
    {
        if updates.result.len() == 0 {
            return (update_id, None);
        }
        let first = &updates.result[0];
        let mut text = String::new();
        text.append("Echo ");
        text.append(first.message.text.as_str());
        (first.update_id + 1, Some(TeleMessage { chat_id: first.message.chat.id, text }))
    }
}

} // verus!

verus! {

/// Only `POST /chatbot` reaches the chatbot, with the request's body; a
/// request that parses with a method other than `POST` and `OPTIONS` is
/// answered `404` whatever its path, and so is a `POST` to another path.
pub proof fn lemma_only_post_chatbot_reaches_chatbot(
    received: Seq<u8>,
    method: RequestMethod,
    path: Seq<char>,
    body: Option<Seq<char>>,
)
    requires
        received.len() < request_limit(),
        parsed_request(lossy_text(received)) == Ok::<_, Seq<char>>((method, path, body)),
    ensures
        (dispatch_of(received).0 is None) == (method == RequestMethod::Post && path
            == "/chatbot"@),
        dispatch_of(received).0 is None ==> dispatch_of(received).1 == body,
        method != RequestMethod::Post && method != RequestMethod::Options ==> dispatch_of(
            received,
        ) == (Some(("404 Not Found"@ + NOT_FOUND@, false)), None::<Seq<char>>),
        method == RequestMethod::Post && path != "/chatbot"@ ==> dispatch_of(received) == (
            Some(("404 Not Found"@ + NOT_FOUND@, false)),
            None::<Seq<char>>,
        ),
{
}

/// A request that fills the read buffer is refused before it is parsed.
pub proof fn lemma_full_buffer_is_refused(received: Seq<u8>)
    requires
        received.len() >= request_limit(),
    ensures
        dispatch_of(received) == (
            Some((BAD_REQUEST@ + "Requets too large"@, true)),
            None::<Seq<char>>,
        ),
{
}

} // verus!
