use vstd::prelude::*;

use crate::server::{BAD_REQUEST, OK_RESPONSE};

verus! {

/// The chatbot endpoint.
pub struct ChatbotService {}

impl ChatbotService {
    /// The `(content, status)` of the chatbot route: a request without a
    /// body is refused with `400` and the status text `body`; a request with
    /// one, once its answer has streamed, gets `200` and no status text.
    pub fn reply(body: &Option<String>) -> (r: (String, String))
        ensures
            body is None ==> r.0@ == BAD_REQUEST@ && r.1@ == "body"@,
            body is Some ==> r.0@ == OK_RESPONSE@ && r.1@ == Seq::<char>::empty(),
    {
        match body {
            None => (String::from_str(BAD_REQUEST), String::from_str("body")),
            Some(_) => (String::from_str(OK_RESPONSE), String::new()),
        }
    }
}

} // verus!
