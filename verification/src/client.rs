use vstd::prelude::*;

use crate::http_client::{post_request, post_request_text};
use vstd::utf8::encode_utf8;

verus! {

/// A client of the model server's generate endpoint.
pub struct Client {}

impl Client {
    /// The request that asks the model server on `localhost:11434` to
    /// generate from `json_body`; a streaming request keeps the connection
    /// alive, another one closes it.
    pub fn request_text(is_stream: bool, json_body: &str) -> (r: String)
        requires
            encode_utf8(json_body@).len() <= usize::MAX,
        ensures
            r@ == post_request(
                "/api/generate"@,
                "localhost:11434"@,
                if is_stream {
                    "keep-alive"@
                } else {
                    "close"@
                },
                json_body@,
            ),
    {
        if is_stream {
            post_request_text("/api/generate", "localhost:11434", "keep-alive", json_body)
        } else {
            post_request_text("/api/generate", "localhost:11434", "close", json_body)
        }
    }
}

} // verus!
