use vstd::prelude::*;

use crate::http_client::{post_request, post_request_text};
use crate::number::{hex_lower, push_hex};
use crate::text::push_char;
use vstd::utf8::{decode_utf8, encode_utf8, valid_utf8};

verus! {

/// What the chatbot writes to its client before the first chunk of the
/// streamed answer.
pub const STREAM_HEADERS: &'static str = "HTTP/1.1 200 OK\r\nAccess-Control-Allow-Origin: *\r\nContent-Type: text/plain\r\nTransfer-Encoding: chunked\r\n\r\n";

/// The model server's client: what it sends, and how it reads the reply.
pub struct LlamaClient {}

impl LlamaClient {
    /// The streaming generate request that sends `json_body` to the model
    /// server at `llama_url`.
    pub fn request_text(llama_url: &str, json_body: &str) -> (r: String)
        requires
            encode_utf8(json_body@).len() <= usize::MAX,
        ensures
            r@ == post_request("/api/generate"@, llama_url@, "keep-alive"@, json_body@),
    {
        post_request_text("/api/generate", llama_url, "keep-alive", json_body)
    }
}

/// The bytes `"response":"`, which open a piece of generated text.
pub open spec fn response_key() -> Seq<u8> {
    seq![34u8, 114u8, 101u8, 115u8, 112u8, 111u8, 110u8, 115u8, 101u8, 34u8, 58u8, 34u8]
}

/// The bytes `"done":true`, which end the stream.
pub open spec fn done_key() -> Seq<u8> {
    seq![34u8, 100u8, 111u8, 110u8, 101u8, 34u8, 58u8, 116u8, 114u8, 117u8, 101u8]
}

/// Whether `s` ends with `p`.
pub open spec fn ends_with(s: Seq<u8>, p: Seq<u8>) -> bool {
    p.len() <= s.len() && s.subrange(s.len() - p.len(), s.len() as int) == p
}

/// The byte that the escape `\` followed by `b` stands for.
pub open spec fn unescaped(b: u8) -> u8 {
    if b == 110 {
        10u8
    } else if b == 114 {
        13u8
    } else if b == 116 {
        9u8
    } else if b == 48 {
        0u8
    } else {
        b
    }
}

/// The state of a scan over the streamed reply.
pub struct ScanView {
    /// Inside the string value of a `"response"` key.
    pub in_response: bool,
    /// The previous byte of that value was a backslash.
    pub escape_next: bool,
    /// The bytes outside values since the last `"response":"`.
    pub json_buffer: Seq<u8>,
    /// The unescaped bytes of the current value so far.
    pub response_bytes: Seq<u8>,
    /// All generated text so far.
    pub collected: Seq<char>,
}

/// What one byte of the reply makes the scanner do.
pub enum ScanOutput {
    /// Nothing to pass on.
    Nothing,
    /// A piece of generated text is complete.
    Text(Seq<char>),
    /// The reply is complete.
    Done,
}

/// One byte of the reply: the next state and what to do.
pub open spec fn scan_step(st: ScanView, b: u8) -> (ScanView, ScanOutput) {
    if st.in_response {
        if st.escape_next {
            (
                ScanView {
                    escape_next: false,
                    response_bytes: st.response_bytes.push(unescaped(b)),
                    ..st
                },
                ScanOutput::Nothing,
            )
        } else if b == 92 {
            (ScanView { escape_next: true, ..st }, ScanOutput::Nothing)
        } else if b == 34 {
            if valid_utf8(st.response_bytes) {
                let text = decode_utf8(st.response_bytes);
                (
                    ScanView {
                        in_response: false,
                        response_bytes: Seq::empty(),
                        collected: st.collected + text,
                        ..st
                    },
                    ScanOutput::Text(text),
                )
            } else {
                (
                    ScanView { in_response: false, response_bytes: Seq::empty(), ..st },
                    ScanOutput::Nothing,
                )
            }
        } else {
            (ScanView { response_bytes: st.response_bytes.push(b), ..st }, ScanOutput::Nothing)
        }
    } else {
        let jb = st.json_buffer.push(b);
        if ends_with(jb, response_key()) {
            (ScanView { in_response: true, json_buffer: Seq::empty(), ..st }, ScanOutput::Nothing)
        } else if ends_with(jb, done_key()) {
            (ScanView { json_buffer: jb, ..st }, ScanOutput::Done)
        } else {
            (ScanView { json_buffer: jb, ..st }, ScanOutput::Nothing)
        }
    }
}

/// The state in which a scan starts.
pub open spec fn scan_start() -> ScanView {
    ScanView {
        in_response: false,
        escape_next: false,
        json_buffer: Seq::empty(),
        response_bytes: Seq::empty(),
        collected: Seq::empty(),
    }
}

/// A scan over `bytes` from `st`: the state after it, the pieces of text it
/// completed, and whether it met the end of the reply (the bytes after that
/// are not read).
pub open spec fn scan(st: ScanView, bytes: Seq<u8>) -> (ScanView, Seq<Seq<char>>, bool)
    decreases bytes.len(),
{
    if bytes.len() == 0 {
        (st, Seq::empty(), false)
    } else {
        let (s1, texts, done) = scan(st, bytes.drop_last());
        if done {
            (s1, texts, done)
        } else {
            match scan_step(s1, bytes.last()).1 {
                ScanOutput::Nothing => (scan_step(s1, bytes.last()).0, texts, false),
                ScanOutput::Text(t) => (scan_step(s1, bytes.last()).0, texts.push(t), false),
                ScanOutput::Done => (scan_step(s1, bytes.last()).0, texts, true),
            }
        }
    }
}

/// What one byte of the reply makes the scanner do.
pub enum ScanEvent {
    Nothing,
    Text(String),
    Done,
}

impl ScanEvent {
    pub open spec fn view_output(&self) -> ScanOutput {
        match self {
            ScanEvent::Nothing => ScanOutput::Nothing,
            ScanEvent::Text(s) => ScanOutput::Text(s@),
            ScanEvent::Done => ScanOutput::Done,
        }
    }
}

/// The string that `bytes` encode in UTF-8, if they are valid UTF-8
/// (`String::from_utf8`).
#[verifier::external_body]
pub(crate) fn utf8_text(bytes: Vec<u8>) -> (r: Option<String>)
    ensures
        r is Some <==> valid_utf8(bytes@),
        r matches Some(s) ==> s@ == decode_utf8(bytes@),
{
    String::from_utf8(bytes).ok()
}

/// Reads the streamed reply of the model server and picks out the generated
/// text: the string values of the `"response"` keys, unescaped.
pub struct ResponseScanner {
    in_response: bool,
    escape_next: bool,
    json_buffer: Vec<u8>,
    response_bytes: Vec<u8>,
    collected: String,
}

impl View for ResponseScanner {
    type V = ScanView;

    closed spec fn view(&self) -> ScanView {
        ScanView {
            in_response: self.in_response,
            escape_next: self.escape_next,
            json_buffer: self.json_buffer@,
            response_bytes: self.response_bytes@,
            collected: self.collected@,
        }
    }
}

/// Whether `v` ends with `"response":"`.
fn ends_with_response_key(v: &Vec<u8>) -> (r: bool)
    ensures
        r == ends_with(v@, response_key()),
{
    let n = v.len();
    if n < 12 {
        return false;
    }
    let r = v[n - 12] == 34 && v[n - 11] == 114 && v[n - 10] == 101 && v[n - 9] == 115 && v[n
        - 8] == 112 && v[n - 7] == 111 && v[n - 6] == 110 && v[n - 5] == 115 && v[n - 4] == 101
        && v[n - 3] == 34 && v[n - 2] == 58 && v[n - 1] == 34;
    proof {
        let tail = v@.subrange(n - 12, n as int);
        if r {
            assert(tail =~= response_key());
        } else {
            if tail == response_key() {
                assert(tail[0] == v@[n - 12] && tail[1] == v@[n - 11] && tail[2] == v@[n - 10]
                    && tail[3] == v@[n - 9] && tail[4] == v@[n - 8] && tail[5] == v@[n - 7]
                    && tail[6] == v@[n - 6] && tail[7] == v@[n - 5] && tail[8] == v@[n - 4]
                    && tail[9] == v@[n - 3] && tail[10] == v@[n - 2] && tail[11] == v@[n - 1]);
            }
        }
    }
    r
}

/// Whether `v` ends with `"done":true`.
fn ends_with_done_key(v: &Vec<u8>) -> (r: bool)
    ensures
        r == ends_with(v@, done_key()),
{
    let n = v.len();
    if n < 11 {
        return false;
    }
    let r = v[n - 11] == 34 && v[n - 10] == 100 && v[n - 9] == 111 && v[n - 8] == 110 && v[n
        - 7] == 101 && v[n - 6] == 34 && v[n - 5] == 58 && v[n - 4] == 116 && v[n - 3] == 114
        && v[n - 2] == 117 && v[n - 1] == 101;
    proof {
        let tail = v@.subrange(n - 11, n as int);
        if r {
            assert(tail =~= done_key());
        } else {
            if tail == done_key() {
                assert(tail[0] == v@[n - 11] && tail[1] == v@[n - 10] && tail[2] == v@[n - 9]
                    && tail[3] == v@[n - 8] && tail[4] == v@[n - 7] && tail[5] == v@[n - 6]
                    && tail[6] == v@[n - 5] && tail[7] == v@[n - 4] && tail[8] == v@[n - 3]
                    && tail[9] == v@[n - 2] && tail[10] == v@[n - 1]);
            }
        }
    }
    r
}

impl ResponseScanner {
    /// A scanner at the start of a reply.
    pub fn new() -> (r: ResponseScanner)
        ensures
            r@ == scan_start(),
    {
        ResponseScanner {
            in_response: false,
            escape_next: false,
            json_buffer: Vec::new(),
            response_bytes: Vec::new(),
            collected: String::new(),
        }
    }

    /// All generated text so far.
    pub fn collected(&self) -> (r: &String)
        ensures
            r@ == self@.collected,
    {
        &self.collected
    }

    /// Reads one byte of the reply.
    pub fn feed(&mut self, b: u8) -> (r: ScanEvent)
        ensures
            (final(self)@, r.view_output()) == scan_step(old(self)@, b),
    {
        if self.in_response {
            if self.escape_next {
                let u = if b == 110 {
                    10u8
                } else if b == 114 {
                    13u8
                } else if b == 116 {
                    9u8
                } else if b == 48 {
                    0u8
                } else {
                    b
                };
                self.response_bytes.push(u);
                self.escape_next = false;
                ScanEvent::Nothing
            } else if b == 92 {
                self.escape_next = true;
                ScanEvent::Nothing
            } else if b == 34 {
                self.in_response = false;
                let mut bytes: Vec<u8> = Vec::new();
                std::mem::swap(&mut bytes, &mut self.response_bytes);
                match utf8_text(bytes) {
                    Some(text) => {
                        self.collected.append(text.as_str());
                        ScanEvent::Text(text)
                    },
                    None => ScanEvent::Nothing,
                }
            } else {
                self.response_bytes.push(b);
                ScanEvent::Nothing
            }
        } else {
            self.json_buffer.push(b);
            if ends_with_response_key(&self.json_buffer) {
                self.in_response = true;
                self.json_buffer = Vec::new();
                ScanEvent::Nothing
            } else if ends_with_done_key(&self.json_buffer) {
                ScanEvent::Done
            } else {
                ScanEvent::Nothing
            }
        }
    }
}

/// The texts that a sequence of strings holds.
pub open spec fn texts_of(v: Seq<String>) -> Seq<Seq<char>> {
    v.map_values(|s: String| s@)
}

impl ResponseScanner {
    /// Reads the bytes of one read from the reply, up to the end of the reply
    /// if they hold it; gives the pieces of text completed, in order, and
    /// whether the reply ended.
    pub fn feed_chunk(&mut self, chunk: &[u8]) -> (r: (Vec<String>, bool))
        ensures
            scan(old(self)@, chunk@) == (final(self)@, texts_of(r.0@), r.1),
    {
        let ghost start = self@;
        let mut texts: Vec<String> = Vec::new();
        let mut i: usize = 0;
        assert(chunk@.take(0) =~= Seq::<u8>::empty());
        assert(texts_of(texts@) =~= Seq::<Seq<char>>::empty());
        while i < chunk.len()
            invariant
                i <= chunk.len(),
                start == old(self)@,
                scan(start, chunk@.take(i as int)) == (self@, texts_of(texts@), false),
            decreases chunk.len() - i,
        {
            let b = chunk[i];
            let ghost before = self@;
            let ghost prev_texts = texts@;
            let event = self.feed(b);
            proof {
                assert(chunk@.take(i + 1).drop_last() =~= chunk@.take(i as int));
                assert(chunk@.take(i + 1).last() == b);
            }
            match event {
                ScanEvent::Nothing => {},
                ScanEvent::Text(text) => {
                    texts.push(text);
                    assert(texts_of(texts@) =~= texts_of(prev_texts).push(texts@.last()@));
                },
                ScanEvent::Done => {
                    proof {
                        let k = (i + 1) as int;
                        lemma_scan_split(start, chunk@.take(k), chunk@.skip(k));
                        assert(chunk@.take(k) + chunk@.skip(k) =~= chunk@);
                    }
                    return (texts, true);
                },
            }
            i = i + 1;
        }
        assert(chunk@.take(i as int) =~= chunk@);
        (texts, false)
    }
}

/// Bytes may arrive in any split into reads: a scan over `a + b` is a scan
/// over `a` followed by a scan over `b` from where it stopped, unless the
/// reply ended within `a`, after which `b` is not read.
pub proof fn lemma_scan_split(st: ScanView, a: Seq<u8>, b: Seq<u8>)
    ensures
        scan(st, a + b) == (if scan(st, a).2 {
            scan(st, a)
        } else {
            (
                scan(scan(st, a).0, b).0,
                scan(st, a).1 + scan(scan(st, a).0, b).1,
                scan(scan(st, a).0, b).2,
            )
        }),
    decreases b.len(),
{
    if b.len() == 0 {
        assert(a + b =~= a);
        assert(scan(st, a).1 + Seq::<Seq<char>>::empty() =~= scan(st, a).1);
    } else {
        lemma_scan_split(st, a, b.drop_last());
        assert((a + b).drop_last() =~= a + b.drop_last());
        assert((a + b).last() == b.last());
        let (s1, t1, d1) = scan(st, a);
        if !d1 {
            let (s2, t2, d2) = scan(s1, b.drop_last());
            if !d2 {
                match scan_step(s2, b.last()).1 {
                    ScanOutput::Text(t) => {
                        assert((t1 + t2).push(t) =~= t1 + t2.push(t));
                    },
                    _ => {},
                }
            }
        }
    }
}

/// The header of a chunk of a chunked transfer that carries `text`: its
/// length in UTF-8 bytes in lower-case hexadecimal, then `"\r\n"`.
pub fn chunk_header(text: &str) -> (r: String)
    requires
        encode_utf8(text@).len() <= usize::MAX,
    ensures
        r@ == hex_lower(encode_utf8(text@).len()) + "\r\n"@,
{
    let mut r = String::new();
    push_hex(&mut r, text.len() as u64);
    r.append("\r\n");
    r
}

/// The text that a scan collects is the text it hands out, piece by piece:
/// what the streamed reply returns in full equals the concatenation of the
/// chunks it streamed.
pub proof fn lemma_scan_collects_its_texts(st: ScanView, bytes: Seq<u8>)
    ensures
        scan(st, bytes).0.collected == st.collected + scan(st, bytes).1.flatten(),
    decreases bytes.len(),
{
    if bytes.len() == 0 {
        assert(Seq::<Seq<char>>::empty().flatten() =~= Seq::<char>::empty());
        assert(st.collected + Seq::<char>::empty() =~= st.collected);
    } else {
        lemma_scan_collects_its_texts(st, bytes.drop_last());
        let (s1, t1, d1) = scan(st, bytes.drop_last());
        if !d1 {
            match scan_step(s1, bytes.last()).1 {
                ScanOutput::Text(t) => {
                    t1.lemma_flatten_push(t);
                    assert(st.collected + t1.push(t).flatten() =~= st.collected + t1.flatten()
                        + t);
                },
                _ => {},
            }
        }
    }
}

/// A scan over the reads `reads`, one after the other, each from where the
/// last one stopped, until the reply ends.
pub open spec fn scan_reads(st: ScanView, reads: Seq<Seq<u8>>) -> (ScanView, Seq<Seq<char>>, bool)
    decreases reads.len(),
{
    if reads.len() == 0 {
        (st, Seq::empty(), false)
    } else {
        let (s1, t1, d1) = scan_reads(st, reads.drop_last());
        if d1 {
            (s1, t1, d1)
        } else {
            let (s2, t2, d2) = scan(s1, reads.last());
            (s2, t1 + t2, d2)
        }
    }
}

/// However the streamed bytes are split into reads, feeding the reads in
/// order gives what one scan over all the bytes gives: the same state, the
/// same pieces of text (and so the same text collected and the same chunks
/// written), and the same end.
pub proof fn lemma_scan_any_reads(st: ScanView, reads: Seq<Seq<u8>>)
    ensures
        scan_reads(st, reads) == scan(st, reads.flatten()),
    decreases reads.len(),
{
    if reads.len() == 0 {
        assert(reads.flatten() =~= Seq::<u8>::empty());
        assert(scan(st, Seq::<u8>::empty()) == (st, Seq::<Seq<char>>::empty(), false));
    } else {
        let front = reads.drop_last();
        lemma_scan_any_reads(st, front);
        assert(reads == front.push(reads.last()));
        front.lemma_flatten_push(reads.last());
        lemma_scan_split(st, front.flatten(), reads.last());
    }
}

/// Inside a response value, bytes that are neither a quote nor a backslash
/// are kept as they are, and nothing is handed out.
pub proof fn lemma_scan_keeps_plain_bytes(st: ScanView, bytes: Seq<u8>)
    requires
        st.in_response,
        !st.escape_next,
        forall|i: int| 0 <= i < bytes.len() ==> #[trigger] bytes[i] != 34 && bytes[i] != 92,
    ensures
        scan(st, bytes) == (
            ScanView { response_bytes: st.response_bytes + bytes, ..st },
            Seq::<Seq<char>>::empty(),
            false,
        ),
    decreases bytes.len(),
{
    if bytes.len() == 0 {
        assert(st.response_bytes + bytes =~= st.response_bytes);
    } else {
        let front = bytes.drop_last();
        assert forall|i: int| 0 <= i < front.len() implies #[trigger] front[i] != 34 && front[i]
            != 92 by {
            assert(front[i] == bytes[i]);
        }
        lemma_scan_keeps_plain_bytes(st, front);
        assert(bytes.last() == bytes[bytes.len() - 1]);
        assert((st.response_bytes + front).push(bytes.last()) =~= st.response_bytes + bytes);
    }
}

/// A response value whose bytes are valid UTF-8 (and hold no quote or
/// backslash) is handed out whole when its closing quote comes, as the text
/// those bytes encode, whatever characters it holds, and that text is added
/// to what was collected.
pub proof fn lemma_scan_hands_out_valid_text(st: ScanView, bytes: Seq<u8>)
    requires
        st.in_response,
        !st.escape_next,
        st.response_bytes == Seq::<u8>::empty(),
        valid_utf8(bytes),
        forall|i: int| 0 <= i < bytes.len() ==> #[trigger] bytes[i] != 34 && bytes[i] != 92,
    ensures
        scan(st, bytes.push(34)).1 == seq![decode_utf8(bytes)],
        !scan(st, bytes.push(34)).2,
        scan(st, bytes.push(34)).0.collected == st.collected + decode_utf8(bytes),
        !scan(st, bytes.push(34)).0.in_response,
        scan(st, bytes.push(34)).0.response_bytes == Seq::<u8>::empty(),
{
    lemma_scan_keeps_plain_bytes(st, bytes);
    assert(bytes.push(34).drop_last() =~= bytes);
    assert(Seq::<u8>::empty() + bytes =~= bytes);
    assert(Seq::<Seq<char>>::empty().push(decode_utf8(bytes)) =~= seq![decode_utf8(bytes)]);
}

/// Outside a value, the bytes of a prefix of `"response":"` are only
/// buffered.
proof fn lemma_scan_key_prefix(st: ScanView, k: int)
    requires
        !st.in_response,
        st.json_buffer == Seq::<u8>::empty(),
        0 <= k < 12,
    ensures
        scan(st, response_key().take(k)) == (
            ScanView { json_buffer: response_key().take(k), ..st },
            Seq::<Seq<char>>::empty(),
            false,
        ),
    decreases k,
{
    let key = response_key();
    if k == 0 {
        assert(key.take(0) =~= Seq::<u8>::empty());
    } else {
        lemma_scan_key_prefix(st, k - 1);
        assert(key.take(k).drop_last() =~= key.take(k - 1));
        assert(key.take(k - 1).push(key.take(k).last()) =~= key.take(k));
        if k == 11 {
            let tail = key.take(k).subrange(0, 11);
            assert(tail[1] == 114u8);
            assert(done_key()[1] == 100u8);
        }
    }
}

/// The bytes `"response":"` open a response value.
pub proof fn lemma_scan_opens_response(st: ScanView)
    requires
        !st.in_response,
        st.json_buffer == Seq::<u8>::empty(),
    ensures
        scan(st, response_key()) == (
            ScanView { in_response: true, json_buffer: Seq::empty(), ..st },
            Seq::<Seq<char>>::empty(),
            false,
        ),
{
    let key = response_key();
    lemma_scan_key_prefix(st, 11);
    assert(key.drop_last() =~= key.take(11));
    assert(key.take(11).push(key.last()) =~= key);
    assert(key.take(11).push(key.last()).subrange(0, 12) =~= key);
}

/// From the start of a reply, `"response":"`, then valid UTF-8 bytes without
/// a quote or backslash, then a closing quote hand out exactly the text those
/// bytes encode, and collect it.
pub proof fn lemma_scan_reads_one_value(bytes: Seq<u8>)
    requires
        valid_utf8(bytes),
        forall|i: int| 0 <= i < bytes.len() ==> #[trigger] bytes[i] != 34 && bytes[i] != 92,
    ensures
        scan(scan_start(), response_key() + bytes.push(34)).1 == seq![decode_utf8(bytes)],
        !scan(scan_start(), response_key() + bytes.push(34)).2,
        scan(scan_start(), response_key() + bytes.push(34)).0.collected == decode_utf8(bytes),
{
    let st = scan_start();
    lemma_scan_opens_response(st);
    lemma_scan_split(st, response_key(), bytes.push(34));
    let opened = ScanView { in_response: true, json_buffer: Seq::empty(), ..st };
    lemma_scan_hands_out_valid_text(opened, bytes);
    assert(Seq::<Seq<char>>::empty() + seq![decode_utf8(bytes)] =~= seq![decode_utf8(bytes)]);
    assert(Seq::<char>::empty() + decode_utf8(bytes) =~= decode_utf8(bytes));
}

} // verus!
