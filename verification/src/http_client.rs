use vstd::prelude::*;

use crate::number::{
    decimal, is_digit, lemma_decimal_digits, lemma_decimal_roundtrip, parse_i32_range, parsed_i32,
    push_decimal, signed_decimal,
};
use vstd::utf8::encode_utf8;
use crate::text::{
    chars_of, find_char_exec, find_char_from, lemma_find_char_from, lemma_skip_spaces_bounds,
    lemma_skip_word_bounds, line_at, lines_from, lowercase, lowercase_of, same_text,
    skip_spaces_exec, skip_word_exec, string_of_range, sub_vec, trimmed, trimmed_range, words_from,
    find_from, is_space, lemma_find_char_none, lemma_find_from_first, lemma_find_from_none,
    lemma_skip_spaces_run, lemma_skip_word_run, lemma_trimmed_keeps_inner_text, occurs_at,
};

verus! {

/// The view of an optional string: its characters, if any.
pub open spec fn opt_chars(o: Option<String>) -> Option<Seq<char>> {
    match o {
        Some(s) => Some(s@),
        None => None,
    }
}

/// Header fields by name, each name at most once; a later value for a name
/// replaces the earlier one.
#[derive(Debug)]
pub struct HeaderMap {
    entries: Vec<(String, String)>,
}

impl HeaderMap {
    #[verifier::type_invariant]
    spec fn names_unique(self) -> bool {
        forall|i: int, j: int|
            0 <= i < self.entries.len() && 0 <= j < self.entries.len() && i != j
                ==> #[trigger] self.entries[i].0@ != #[trigger] self.entries[j].0@
    }

    spec fn index_of(self, name: Seq<char>) -> int {
        choose|i: int| 0 <= i < self.entries.len() && #[trigger] self.entries[i].0@ == name
    }
}

impl View for HeaderMap {
    type V = Map<Seq<char>, Seq<char>>;

    closed spec fn view(&self) -> Map<Seq<char>, Seq<char>> {
        Map::new(
            |name: Seq<char>|
                exists|i: int| 0 <= i < self.entries.len() && #[trigger] self.entries[i].0@ == name,
            |name: Seq<char>| self.entries[self.index_of(name)].1@,
        )
    }
}

impl HeaderMap {
    /// An empty map.
    pub fn new() -> (r: HeaderMap)
        ensures
            r@ == Map::<Seq<char>, Seq<char>>::empty(),
    {
        let r = HeaderMap { entries: Vec::new() };
        assert(r@ =~= Map::<Seq<char>, Seq<char>>::empty());
        r
    }

    /// The position of the field named `name`.
    fn position(&self, name: &str) -> (r: Option<usize>)
        ensures
            match r {
                Some(i) => i < self.entries.len() && self.entries[i as int].0@ == name@,
                None => forall|i: int|
                    0 <= i < self.entries.len() ==> #[trigger] self.entries[i].0@ != name@,
            },
    {
        let mut i: usize = 0;
        while i < self.entries.len()
            invariant
                i <= self.entries.len(),
                forall|j: int| 0 <= j < i ==> #[trigger] self.entries[j].0@ != name@,
            decreases self.entries.len() - i,
        {
            if same_text(self.entries[i].0.as_str(), name) {
                return Some(i);
            }
            i = i + 1;
        }
        None
    }

    /// The value of the field named `name`.
    pub fn get(&self, name: &str) -> (r: Option<&String>)
        ensures
            match r {
                Some(v) => self@.contains_key(name@) && v@ == self@[name@],
                None => !self@.contains_key(name@),
            },
    {
        proof {
            use_type_invariant(self);
        }
        match self.position(name) {
            Some(i) => {
                proof {
                    let k = self.index_of(name@);
                    assert(self.entries[i as int].0@ == name@);
                    assert(self.entries[k].0@ == name@);
                    assert(k == i);
                }
                Some(&self.entries[i].1)
            },
            None => None,
        }
    }

    /// Every field, once each, as (name, value) pairs.
    pub fn fields(&self) -> (r: Vec<(String, String)>)
        ensures
            forall|i: int|
                0 <= i < r.len() ==> self@.contains_key(#[trigger] r[i].0@) && self@[r[i].0@]
                    == r[i].1@,
            forall|name: Seq<char>|
                #[trigger] self@.contains_key(name) ==> exists|i: int|
                    0 <= i < r.len() && #[trigger] r[i].0@ == name,
            forall|i: int, j: int|
                0 <= i < r.len() && 0 <= j < r.len() && i != j ==> #[trigger] r[i].0@
                    != #[trigger] r[j].0@,
    {
        proof {
            use_type_invariant(self);
        }
        let mut r: Vec<(String, String)> = Vec::new();
        let mut i: usize = 0;
        while i < self.entries.len()
            invariant
                i <= self.entries.len(),
                r.len() == i,
                forall|k: int| 0 <= k < i ==> #[trigger] r[k].0@ == self.entries[k].0@ && r[k].1@
                    == self.entries[k].1@,
            decreases self.entries.len() - i,
        {
            let name = self.entries[i].0.clone();
            let value = self.entries[i].1.clone();
            r.push((name, value));
            i = i + 1;
        }
        proof {
            assert forall|k: int| 0 <= k < r.len() implies self@.contains_key(#[trigger] r[k].0@)
                && self@[r[k].0@] == r[k].1@ by {
                assert(self.entries[k].0@ == r[k].0@);
                let j = self.index_of(r[k].0@);
                assert(self.entries[j].0@ == r[k].0@);
                assert(j == k);
            }
            assert forall|name: Seq<char>| #[trigger] self@.contains_key(name) implies exists|
                k: int,
            | 0 <= k < r.len() && #[trigger] r[k].0@ == name by {
                let j = choose|j: int| 0 <= j < self.entries.len() && #[trigger] self.entries[j].0@ == name;
                assert(r[j].0@ == name);
            }
            assert forall|a: int, b: int|
                0 <= a < r.len() && 0 <= b < r.len() && a != b implies #[trigger] r[a].0@
                != #[trigger] r[b].0@ by {
                assert(r[a].0@ == self.entries[a].0@);
                assert(r[b].0@ == self.entries[b].0@);
            }
        }
        r
    }

    /// Sets the field `name` to `value`, replacing an earlier value.
    pub fn insert(&mut self, name: String, value: String)
        ensures
            final(self)@ == old(self)@.insert(name@, value@),
    {
        proof {
            use_type_invariant(&*self);
        }
        let ghost before = *self;
        match self.position(name.as_str()) {
            Some(i) => {
                let mut es: Vec<(String, String)> = Vec::new();
                std::mem::swap(&mut es, &mut self.entries);
                es.set(i, (name, value));
                assert forall|a: int, b: int|
                    0 <= a < es.len() && 0 <= b < es.len() && a != b implies #[trigger] es[a].0@
                    != #[trigger] es[b].0@ by {
                    assert(es[a].0@ == before.entries[a].0@);
                    assert(es[b].0@ == before.entries[b].0@);
                }
                self.entries = es;
                proof {
                    assert forall|k: Seq<char>|
                        #[trigger] self@.contains_key(k) == before@.insert(
                            name@,
                            value@,
                        ).contains_key(k) by {
                        if before@.contains_key(k) {
                            let j = choose|j: int|
                                0 <= j < before.entries.len() && #[trigger] before.entries[j].0@
                                    == k;
                            assert(self.entries[j].0@ == k);
                        }
                        if self@.contains_key(k) {
                            let j = choose|j: int|
                                0 <= j < self.entries.len() && #[trigger] self.entries[j].0@ == k;
                            if j != i {
                                assert(before.entries[j].0@ == k);
                            }
                        }
                    }
                    assert forall|k: Seq<char>| #[trigger]
                        self@.contains_key(k) implies self@[k] == before@.insert(
                        name@,
                        value@,
                    )[k] by {
                        let j = self.index_of(k);
                        if k == name@ {
                            assert(self.entries[i as int].0@ == k);
                            assert(j == i);
                        } else {
                            let jb = before.index_of(k);
                            assert(before.entries[jb].0@ == k);
                            assert(jb != i);
                            assert(self.entries[jb].0@ == k);
                            assert(j == jb);
                        }
                    }
                    assert(self@ =~= before@.insert(name@, value@));
                }
            },
            None => {
                let mut es: Vec<(String, String)> = Vec::new();
                std::mem::swap(&mut es, &mut self.entries);
                es.push((name, value));
                assert forall|a: int, b: int|
                    0 <= a < es.len() && 0 <= b < es.len() && a != b implies #[trigger] es[a].0@
                    != #[trigger] es[b].0@ by {
                    if a < before.entries.len() {
                        assert(es[a] == before.entries[a]);
                    }
                    if b < before.entries.len() {
                        assert(es[b] == before.entries[b]);
                    }
                }
                self.entries = es;
                proof {
                    let n = before.entries.len() as int;
                    assert forall|k: Seq<char>|
                        #[trigger] self@.contains_key(k) == before@.insert(
                            name@,
                            value@,
                        ).contains_key(k) by {
                        if before@.contains_key(k) {
                            let j = choose|j: int|
                                0 <= j < before.entries.len() && #[trigger] before.entries[j].0@
                                    == k;
                            assert(self.entries[j].0@ == k);
                        }
                        if k == name@ {
                            assert(self.entries[n].0@ == k);
                        }
                        if self@.contains_key(k) {
                            let j = choose|j: int|
                                0 <= j < self.entries.len() && #[trigger] self.entries[j].0@ == k;
                            if j != n {
                                assert(before.entries[j].0@ == k);
                            }
                        }
                    }
                    assert forall|k: Seq<char>| #[trigger]
                        self@.contains_key(k) implies self@[k] == before@.insert(
                        name@,
                        value@,
                    )[k] by {
                        let j = self.index_of(k);
                        if k == name@ {
                            assert(self.entries[n].0@ == k);
                            assert(j == n);
                        } else {
                            let jb = before.index_of(k);
                            assert(before.entries[jb].0@ == k);
                            assert(self.entries[jb].0@ == k);
                            assert(j == jb);
                        }
                    }
                    assert(self@ =~= before@.insert(name@, value@));
                }
            },
        }
    }
}

} // verus!

verus! {

/// The blank line that ends a message head: `"\r\n\r\n"`.
pub open spec fn blank_line() -> Seq<char> {
    seq!['\r', '\n', '\r', '\n']
}

/// `find_from(v, blank_line(), i)`.
pub fn find_blank_line(v: &Vec<char>, i: usize) -> (r: Option<usize>)
    ensures
        match r {
            Some(m) => find_from(v@, blank_line(), i as int) == Some(m as int) && m + 4 <= v.len(),
            None => find_from(v@, blank_line(), i as int) is None,
        },
{
    let n = v.len();
    if i > n || n - i < 4 {
        return None;
    }
    let mut j = i;
    while j < n && n - j >= 4
        invariant
            i <= j <= n == v.len(),
            find_from(v@, blank_line(), j as int) == find_from(v@, blank_line(), i as int),
        decreases n - j,
    {
        if v[j] == '\r' && v[j + 1] == '\n' && v[j + 2] == '\r' && v[j + 3] == '\n' {
            assert(v@.subrange(j as int, j + 4) =~= blank_line());
            return Some(j);
        }
        assert(!occurs_at(v@, blank_line(), j as int)) by {
            if occurs_at(v@, blank_line(), j as int) {
                let w = v@.subrange(j as int, j + 4);
                assert(w[0] == v@[j as int] && w[1] == v@[j + 1] && w[2] == v@[j + 2] && w[3]
                    == v@[j + 3]);
            }
        }
        j = j + 1;
    }
    None
}

/// What a message's text holds before its first blank line (all of it when
/// there is none).
pub open spec fn head_of(s: Seq<char>) -> Seq<char> {
    match find_from(s, blank_line(), 0) {
        Some(m) => s.take(m),
        None => s,
    }
}

/// What a message's text holds between its first and second blank lines, or
/// after the first when there is no second; `None` without a blank line.
pub open spec fn body_of(s: Seq<char>) -> Option<Seq<char>> {
    match find_from(s, blank_line(), 0) {
        Some(m) => Some(
            match find_from(s, blank_line(), m + 4) {
                Some(m2) => s.subrange(m + 4, m2),
                None => s.skip(m + 4),
            },
        ),
        None => None,
    }
}

/// The header field that a head line gives: the trimmed, lower-cased text
/// before its first `:` and the trimmed text after it.
pub open spec fn header_field(line: Seq<char>) -> Option<(Seq<char>, Seq<char>)> {
    match find_char_from(line, ':', 0) {
        Some(k) => Some((lowercase_of(trimmed(line.take(k))), trimmed(line.skip(k + 1)))),
        None => None,
    }
}

/// The header fields that `lines` give, in order, a later one replacing an
/// earlier one of the same name.
pub open spec fn header_map(lines: Seq<Seq<char>>) -> Map<Seq<char>, Seq<char>>
    decreases lines.len(),
{
    if lines.len() == 0 {
        Map::empty()
    } else {
        let before = header_map(lines.drop_last());
        match header_field(lines.last()) {
            Some((name, value)) => before.insert(name, value),
            None => before,
        }
    }
}

/// Why a response text does not parse.
#[derive(Debug, Clone, Copy, PartialEq, Eq, Structural)]
pub enum ResponseError {
    /// The head has no line ("Empty Request").
    EmptyRequest,
    /// The first line has no word ("Missing Http").
    MissingHttp,
    /// The first line has no second word ("No Status Code").
    NoStatusCode,
    /// The second word of the first line is no `i32`.
    InvalidStatus,
}

/// What a response text parses to: the status code, the header fields and the
/// body; or why it does not parse.
pub open spec fn parsed_response(s: Seq<char>) -> Result<
    (i32, Map<Seq<char>, Seq<char>>, Option<Seq<char>>),
    ResponseError,
> {
    let lines = lines_from(head_of(s), 0);
    if lines.len() == 0 {
        Err(ResponseError::EmptyRequest)
    } else {
        let words = words_from(lines[0], 0);
        if words.len() == 0 {
            Err(ResponseError::MissingHttp)
        } else if words.len() == 1 {
            Err(ResponseError::NoStatusCode)
        } else {
            match parsed_i32(words[1]) {
                Some(code) => Ok((code, header_map(lines.skip(1)), body_of(s))),
                None => Err(ResponseError::InvalidStatus),
            }
        }
    }
}

/// A parsed HTTP response.
#[derive(Debug)]
pub struct Response {
    pub status: i32,
    pub headers: HeaderMap,
    pub body: Option<String>,
}

impl Response {
    /// Parses the text of an HTTP response: the status code is the second
    /// word of the first line, each later head line with a `:` gives a header
    /// field, and the body is what follows the first blank line, up to a
    /// second one.
    pub fn new(request: &str) -> (r: Result<Response, ResponseError>)
        ensures
            match parsed_response(request@) {
                Ok((status, headers, body)) => r matches Ok(resp) && resp.status == status
                    && resp.headers@ == headers && opt_chars(resp.body) == body,
                Err(e) => r == Err::<Response, ResponseError>(e),
            },
    {
        let s = chars_of(request);
        let n = s.len();
        let sep = find_blank_line(&s, 0);
        let head_end = match sep {
            Some(m) => m,
            None => n,
        };
        let body = match sep {
            None => None,
            Some(m) => {
                let next = find_blank_line(&s, m + 4);
                match next {
                    Some(m2) => {
                        proof {
                            lemma_find_from_bounds(s@, blank_line(), m + 4);
                        }
                        Some(string_of_range(&s, m + 4, m2))
                    },
                    None => Some(string_of_range(&s, m + 4, n)),
                }
            },
        };
        proof {
            lemma_find_from_bounds(s@, blank_line(), 0);
        }
        let head = sub_vec(&s, 0, head_end);
        assert(head@ == head_of(s@));
        if head.len() == 0 {
            return Err(ResponseError::EmptyRequest);
        }
        let (first_end, mut pos) = line_at(&head, 0);
        let first = sub_vec(&head, 0, first_end);
        let ghost lines = lines_from(head@, 0);
        assert(lines[0] == first@);
        let fl = first.len();
        let a = skip_spaces_exec(&first, 0, fl);
        proof {
            lemma_skip_spaces_bounds(first@, 0);
        }
        if a >= fl {
            return Err(ResponseError::MissingHttp);
        }
        let b = skip_word_exec(&first, a, fl);
        proof {
            lemma_skip_word_bounds(first@, a as int);
        }
        let a2 = skip_spaces_exec(&first, b, fl);
        proof {
            lemma_skip_spaces_bounds(first@, b as int);
            assert(words_from(first@, 0) == seq![first@.subrange(a as int, b as int)]
                + words_from(first@, b as int));
        }
        if a2 >= fl {
            assert(words_from(first@, b as int) == Seq::<Seq<char>>::empty());
            assert(words_from(first@, 0).len() == 1);
            return Err(ResponseError::NoStatusCode);
        }
        let b2 = skip_word_exec(&first, a2, fl);
        proof {
            lemma_skip_word_bounds(first@, a2 as int);
            assert(words_from(first@, b as int) == seq![first@.subrange(a2 as int, b2 as int)]
                + words_from(first@, b2 as int));
            let w = words_from(first@, 0);
            assert(w[1] == first@.subrange(a2 as int, b2 as int));
        }
        let mut headers = HeaderMap::new();
        let ghost mut done: Seq<Seq<char>> = Seq::empty();
        while pos < head.len()
            invariant
                0 < pos <= head.len(),
                lines == lines_from(head@, 0),
                lines == seq![first@] + done + lines_from(head@, pos as int),
                headers@ == header_map(done),
            decreases head.len() - pos,
        {
            let (end, next) = line_at(&head, pos);
            let line = sub_vec(&head, pos, end);
            let colon = find_char_exec(&line, ':', 0);
            let ghost prev = done;
            match colon {
                Some(k) => {
                    proof {
                        lemma_find_char_from(line@, ':', 0);
                    }
                    let name = trimmed_range(&line, 0, k);
                    let value = trimmed_range(&line, k + 1, line.len());
                    let lower = lowercase(name.as_str());
                    assert(line@.subrange(0, k as int) == line@.take(k as int));
                    assert(line@.subrange(k + 1, line@.len() as int) == line@.skip(k + 1));
                    headers.insert(lower, value);
                },
                None => {},
            }
            proof {
                done = done.push(line@);
                assert(done.drop_last() == prev);
                assert(seq![first@] + prev + lines_from(head@, pos as int) == seq![first@] + done
                    + lines_from(head@, next as int));
            }
            pos = next;
        }
        proof {
            assert(lines_from(head@, pos as int) == Seq::<Seq<char>>::empty());
            assert(lines.skip(1) == done);
        }
        match parse_i32_range(&first, a2, b2) {
            Some(code) => Ok(Response { status: code, headers, body }),
            None => Err(ResponseError::InvalidStatus),
        }
    }
}

pub proof fn lemma_find_from_bounds(s: Seq<char>, p: Seq<char>, i: int)
    ensures
        find_from(s, p, i) matches Some(m) ==> i <= m && occurs_at(s, p, m),
    decreases s.len() + 1 - i,
{
    if !(i < 0 || i + p.len() > s.len()) && !occurs_at(s, p, i) {
        lemma_find_from_bounds(s, p, i + 1);
    }
}

} // verus!

verus! {

/// The text of a `POST` request for `path` on `host` that sends the JSON
/// `body`, its `Content-Length` being the length of `body` in UTF-8 bytes.
pub open spec fn post_request(
    path: Seq<char>,
    host: Seq<char>,
    connection: Seq<char>,
    body: Seq<char>,
) -> Seq<char> {
    "POST "@ + path + " HTTP/1.1\r\nHost: "@ + host
        + "\r\nContent-Type: application/json\r\nContent-Length: "@ + decimal(
        encode_utf8(body).len(),
    ) + "\r\nConnection: "@ + connection + "\r\n\r\n"@ + body
}

/// The text of a `GET` request for `target` on `host` that closes the
/// connection after the response.
pub open spec fn get_request(target: Seq<char>, host: Seq<char>) -> Seq<char> {
    "GET "@ + target + " HTTP/1.1\r\nHost: "@ + host + "\r\nConnection: close\r\n\r\n"@
}

/// Builds `post_request(path, host, connection, body)`.
pub fn post_request_text(path: &str, host: &str, connection: &str, body: &str) -> (r: String)
    requires
        encode_utf8(body@).len() <= usize::MAX,
    ensures
        r@ == post_request(path@, host@, connection@, body@),
{
    let mut r = String::new();
    r.append("POST ");
    r.append(path);
    r.append(" HTTP/1.1\r\nHost: ");
    r.append(host);
    r.append("\r\nContent-Type: application/json\r\nContent-Length: ");
    push_decimal(&mut r, body.len() as u64);
    r.append("\r\nConnection: ");
    r.append(connection);
    r.append("\r\n\r\n");
    r.append(body);
    r
}

/// Builds `get_request(target, host)`.
pub fn get_request_text(target: &str, host: &str) -> (r: String)
    ensures
        r@ == get_request(target@, host@),
{
    let mut r = String::new();
    r.append("GET ");
    r.append(target);
    r.append(" HTTP/1.1\r\nHost: ");
    r.append(host);
    r.append("\r\nConnection: close\r\n\r\n");
    r
}

} // verus!

verus! {

/// The request method of a fetch.
#[derive(Debug, Clone, Copy, PartialEq, Eq, Structural)]
pub enum HttpMethod {
    GET,
    POST,
}

/// The parts of a URL that a fetch needs: host, port (the scheme's default
/// when none is written), path and query.
#[derive(Debug)]
pub struct UrlParts {
    pub host: Option<String>,
    pub port: Option<u16>,
    pub path: String,
    pub query: Option<String>,
}

/// What `url::Url::parse` gives for `input`, read through `host_str`,
/// `port_or_known_default`, `path` and `query`; `None` when it refuses the
/// input.
pub uninterp spec fn url_parts(input: Seq<char>) -> Option<
    (Option<Seq<char>>, Option<u16>, Seq<char>, Option<Seq<char>>),
>;

/// Parses `input` with `url::Url::parse` and reads the host, the port (or the
/// scheme's default), the path and the query of the result. The contract
/// names the result only: the URL standard's parsing is not restated here.
#[verifier::external_body]
fn split_url(input: &str) -> (r: Option<UrlParts>)
    ensures
        match r {
            Some(p) => url_parts(input@) == Some(
                (opt_chars(p.host), p.port, p.path@, opt_chars(p.query)),
            ),
            None => url_parts(input@) is None,
        },
{
    let u = url::Url::parse(input).ok()?;
    Some(
        UrlParts {
            host: u.host_str().map(|h| h.to_string()),
            port: u.port_or_known_default(),
            path: u.path().to_string(),
            query: u.query().map(|q| q.to_string()),
        },
    )
}

/// The path to which every `POST` of a fetch is sent.
pub open spec fn send_message_path() -> Seq<char> {
    "/bot7994038141:AAFIcLqsTY_xI-eAsv32l1-JEAVTx9Y8-Ks/sendMessage"@
}

/// The request target of a URL: its path, then `?` and its query if it has
/// one.
pub open spec fn request_target(path: Seq<char>, query: Option<Seq<char>>) -> Seq<char> {
    match query {
        Some(q) => path + "?"@ + q,
        None => path,
    }
}

/// Why a URL cannot be fetched.
#[derive(Debug, Clone, Copy, PartialEq, Eq, Structural)]
pub enum FetchError {
    /// The URL does not parse ("Invalid Url").
    InvalidUrl,
    /// The URL has no host ("error url host").
    NoHost,
    /// The URL has no port and its scheme no default one ("error url port").
    NoPort,
}

/// Where a fetch connects and what it sends there.
#[derive(Debug)]
pub struct FetchPlan {
    pub host: String,
    pub port: u16,
    pub request: String,
}

/// The host, port and request text of a fetch of `url` with `method`, the
/// JSON `body` being sent by a `POST`.
pub open spec fn fetch_plan(method: HttpMethod, url: Seq<char>, body: Seq<char>) -> Result<
    (Seq<char>, u16, Seq<char>),
    FetchError,
> {
    match url_parts(url) {
        None => Err(FetchError::InvalidUrl),
        Some((host, port, path, query)) => match host {
            None => Err(FetchError::NoHost),
            Some(h) => match port {
                None => Err(FetchError::NoPort),
                Some(p) => Ok(
                    (
                        h,
                        p,
                        match method {
                            HttpMethod::GET => get_request(request_target(path, query), h),
                            HttpMethod::POST => post_request(
                                send_message_path(),
                                h,
                                "close"@,
                                body,
                            ),
                        },
                    ),
                ),
            },
        },
    }
}

/// A client that fetches a URL over TLS.
pub struct HttpClient {}

impl HttpClient {
    /// Where to connect and what to send to fetch `url` with `method`; `body`
    /// is the JSON text that a `POST` sends.
    pub fn prepare(method: HttpMethod, url: &str, body: &str) -> (r: Result<FetchPlan, FetchError>)
        requires
            encode_utf8(body@).len() <= usize::MAX,
        ensures
            match fetch_plan(method, url@, body@) {
                Ok((host, port, request)) => r matches Ok(plan) && plan.host@ == host && plan.port
                    == port && plan.request@ == request,
                Err(e) => r == Err::<FetchPlan, FetchError>(e),
            },
    {
        let parts = match split_url(url) {
            Some(p) => p,
            None => return Err(FetchError::InvalidUrl),
        };
        let host = match parts.host {
            Some(h) => h,
            None => return Err(FetchError::NoHost),
        };
        let port = match parts.port {
            Some(p) => p,
            None => return Err(FetchError::NoPort),
        };
        let request = match method {
            HttpMethod::GET => {
                let mut target = parts.path;
                match parts.query {
                    Some(q) => {
                        target.append("?");
                        target.append(q.as_str());
                    },
                    None => {},
                }
                get_request_text(target.as_str(), host.as_str())
            },
            HttpMethod::POST => post_request_text(
                "/bot7994038141:AAFIcLqsTY_xI-eAsv32l1-JEAVTx9Y8-Ks/sendMessage",
                host.as_str(),
                "close",
                body,
            ),
        };
        Ok(FetchPlan { host, port, request })
    }
}

/// What a header map gives back is what was last written to it: after
/// `insert(name, value)`, `get(name)` finds `value`, and every other name
/// finds what it found before.
pub proof fn lemma_get_after_insert(
    before: HeaderMap,
    after: HeaderMap,
    name: Seq<char>,
    value: Seq<char>,
)
    requires
        after@ == before@.insert(name, value),
    ensures
        after@.contains_key(name) && after@[name] == value,
        forall|other: Seq<char>|
            other != name ==> (#[trigger] after@.contains_key(other) == before@.contains_key(other))
                && (before@.contains_key(other) ==> after@[other] == before@[other]),
{
}

} // verus!

verus! {

/// A response written as the status line `HTTP/1.1 <code>`, a blank line and
/// a body that holds no blank line parses back to that code, no header field,
/// and that body.
pub proof fn lemma_status_line_roundtrip(code: i32, body: Seq<char>)
    requires
        forall|i: int| !#[trigger] occurs_at(body, blank_line(), i),
    ensures
        parsed_response("HTTP/1.1 "@ + signed_decimal(code as int) + blank_line() + body) == Ok::<
            _,
            ResponseError,
        >((code, Map::<Seq<char>, Seq<char>>::empty(), Some(body))),
{
    reveal_strlit("HTTP/1.1 ");
    let version = "HTTP/1.1 "@;
    let dec = signed_decimal(code as int);
    let p = version + dec;
    let s = p + blank_line() + body;
    let m = p.len() as int;
    let sep = blank_line();
    // The digits of the code, with a sign when negative.
    assert forall|k: int| 0 <= k < dec.len() implies (#[trigger] dec[k] == '-' || is_digit(
        dec[k],
    )) by {
        if code < 0 {
            lemma_decimal_digits((-code) as nat);
            if k > 0 {
                assert(dec[k] == decimal((-code) as nat)[k - 1]);
            }
        } else {
            lemma_decimal_digits(code as nat);
        }
    }
    assert(dec.len() >= 1) by {
        if code < 0 {
            lemma_decimal_digits((-code) as nat);
        } else {
            lemma_decimal_digits(code as nat);
        }
    }
    assert forall|k: int| 0 <= k < p.len() implies #[trigger] p[k] != '\r' && p[k] != '\n' by {
        if k >= version.len() {
            assert(p[k] == dec[k - version.len()]);
        }
    }
    // The first blank line comes right after the status line.
    assert(s.subrange(m, m + 4) =~= sep);
    assert forall|k: int| 0 <= k < m implies !#[trigger] occurs_at(s, sep, k) by {
        if occurs_at(s, sep, k) {
            assert(s.subrange(k, k + 4)[0] == s[k]);
            assert(s[k] == p[k]);
        }
    }
    lemma_find_from_first(s, sep, 0, m);
    assert forall|k: int| m + 4 <= k implies !#[trigger] occurs_at(s, sep, k) by {
        if occurs_at(s, sep, k) {
            assert(s.subrange(k, k + 4) =~= body.subrange(k - m - 4, k - m));
            assert(occurs_at(body, sep, k - m - 4));
        }
    }
    lemma_find_from_none(s, sep, m + 4);
    assert(s.skip(m + 4) =~= body);
    assert(s.take(m) =~= p);
    // The head is one line.
    lemma_find_char_none(p, '\n', 0);
    assert(p.subrange(0, p.len() as int) =~= p);
    assert(lines_from(p, 0) =~= seq![p]);
    // Its words are the version and the code.
    assert forall|k: int| 0 <= k < 8 implies !is_space(#[trigger] p[k]) by {}
    assert(is_space(p[8]));
    assert forall|k: int| 9 <= k < p.len() implies !is_space(#[trigger] p[k]) by {
        assert(p[k] == dec[k - 9]);
    }
    lemma_skip_spaces_run(p, 0, 0);
    lemma_skip_word_run(p, 0, 8);
    lemma_skip_spaces_run(p, 8, 9);
    lemma_skip_word_run(p, 9, p.len() as int);
    lemma_skip_spaces_run(p, p.len() as int, p.len() as int);
    assert(words_from(p, p.len() as int) =~= Seq::<Seq<char>>::empty());
    assert(words_from(p, 8) =~= seq![p.subrange(9, p.len() as int)]);
    assert(p.subrange(9, p.len() as int) =~= dec);
    let words = words_from(p, 0);
    assert(words =~= seq![p.subrange(0, 8), dec]);
    lemma_decimal_roundtrip(code);
    assert(seq![p].skip(1) =~= Seq::<Seq<char>>::empty());
}

} // verus!

verus! {

/// A head line `name:value` gives the field named by the lower-cased, trimmed
/// `name` whose value is the text after the first `:` with only its outer
/// white space removed: inner spaces and later colons are kept.
pub proof fn lemma_header_value_keeps_inner_text(
    name: Seq<char>,
    lead: Seq<char>,
    value: Seq<char>,
    trail: Seq<char>,
)
    requires
        forall|k: int| 0 <= k < name.len() ==> #[trigger] name[k] != ':',
        forall|k: int| 0 <= k < lead.len() ==> is_space(#[trigger] lead[k]),
        forall|k: int| 0 <= k < trail.len() ==> is_space(#[trigger] trail[k]),
        value.len() > 0 ==> !is_space(value[0]) && !is_space(value.last()),
    ensures
        header_field(name + seq![':'] + lead + value + trail) == Some(
            (lowercase_of(trimmed(name)), value),
        ),
{
    let line = name + seq![':'] + lead + value + trail;
    let k = name.len() as int;
    assert forall|j: int| 0 <= j < k implies #[trigger] line[j] != ':' by {
        assert(line[j] == name[j]);
    }
    assert(line[k] == ':');
    lemma_find_char_from(line, ':', 0);
    assert(find_char_from(line, ':', 0) == Some(k)) by {
        match find_char_from(line, ':', 0) {
            Some(f) => {
                if f > k {
                    assert(line[k] != ':');
                }
            },
            None => {
                assert(line[k] != ':');
            },
        }
    }
    assert(line.take(k) =~= name);
    assert(line.skip(k + 1) =~= lead + value + trail);
    lemma_trimmed_keeps_inner_text(lead, value, trail);
}

} // verus!

verus! {

/// A `GET` asks for the URL's whole path and whole query, on the URL's host
/// and port; a `POST` goes to the same host and port and ends with the whole
/// body.
pub proof fn lemma_fetch_sends_whole_target(
    url: Seq<char>,
    host: Seq<char>,
    port: u16,
    path: Seq<char>,
    query: Option<Seq<char>>,
    body: Seq<char>,
)
    requires
        url_parts(url) == Some((Some(host), Some(port), path, query)),
    ensures
        fetch_plan(HttpMethod::GET, url, body) == Ok::<_, FetchError>(
            (
                host,
                port,
                "GET "@ + path + match query {
                    Some(q) => "?"@ + q,
                    None => Seq::empty(),
                } + " HTTP/1.1\r\nHost: "@ + host + "\r\nConnection: close\r\n\r\n"@,
            ),
        ),
        fetch_plan(HttpMethod::POST, url, body) matches Ok((h, p, request)) && h == host && p
            == port && request.len() >= body.len() && request.subrange(
            request.len() - body.len(),
            request.len() as int,
        ) == body,
{
    match query {
        Some(q) => {
            assert("GET "@ + (path + "?"@ + q) =~= "GET "@ + path + ("?"@ + q));
        },
        None => {
            assert("GET "@ + path =~= "GET "@ + path + Seq::<char>::empty());
        },
    }
    let request = post_request(send_message_path(), host, "close"@, body);
    let head = "POST "@ + send_message_path() + " HTTP/1.1\r\nHost: "@ + host
        + "\r\nContent-Type: application/json\r\nContent-Length: "@ + decimal(
        encode_utf8(body).len(),
    ) + "\r\nConnection: "@ + "close"@ + "\r\n\r\n"@;
    assert(request == head + body);
    assert((head + body).subrange(head.len() as int, (head + body).len() as int) =~= body);
}

} // verus!
