//! Heads of HTTP messages between peers: the request heads that are sent, and the parts of a
//! response head that decide how its body is read.

use crate::text::{
    chars_of, contains, cut_first, decimal, decimal_text, eq_ignore_ascii_case, holds_text,
    line_parts, lines, lowered, parse_number, parsed_number, same, same_ignoring_case, split_once,
    starts_with, string_of_range, to_ascii_lowercase, trim, trimmed, views,
};
use vstd::prelude::*;

verus! {

/// The header that carries the shared secret of a group of peers.
pub const PEER_TOKEN_HEADER: &'static str = "x-auto-sync-token";

/// A header field: its name in lower case and its value, both trimmed.
#[derive(Debug)]
pub struct Header {
    pub name: String,
    pub value: String,
}

impl View for Header {
    type V = (Seq<char>, Seq<char>);

    open spec fn view(&self) -> (Seq<char>, Seq<char>) {
        (self.name@, self.value@)
    }
}

/// The header field that a line holds; a line without a colon holds none.
pub open spec fn header_of(line: Seq<char>) -> Option<(Seq<char>, Seq<char>)> {
    match cut_first(line, ':') {
        Some(cut) => Some((lowered(trimmed(cut.0)), trimmed(cut.1))),
        None => None,
    }
}

/// The header fields of the given lines.
pub open spec fn headers_of(lines: Seq<Seq<char>>) -> Seq<(Seq<char>, Seq<char>)> {
    lines.filter_map(|l: Seq<char>| header_of(l))
}

/// Whether a header of this name mentions `word`, in any case.
pub open spec fn mentions(
    headers: Seq<(Seq<char>, Seq<char>)>,
    name: Seq<char>,
    word: Seq<char>,
) -> bool {
    exists|i: int|
        0 <= i < headers.len() && (#[trigger] headers[i]).0 == name && holds_text(
            lowered(headers[i].1),
            word,
        )
}

/// The value of the first header of this name.
pub open spec fn first_named(
    headers: Seq<(Seq<char>, Seq<char>)>,
    name: Seq<char>,
) -> Option<Seq<char>>
    decreases headers.len(),
{
    if headers.len() == 0 {
        None
    } else if headers[0].0 == name {
        Some(headers[0].1)
    } else {
        first_named(headers.drop_first(), name)
    }
}

/// What a response head says.
#[derive(Debug)]
pub struct Head {
    pub status_line: String,
    pub close: bool,
    pub chunked: bool,
    pub content_length: Option<usize>,
}

/// The model of a `Head`.
pub struct HeadModel {
    pub status_line: Seq<char>,
    pub close: bool,
    pub chunked: bool,
    pub content_length: Option<usize>,
}

impl View for Head {
    type V = HeadModel;

    open spec fn view(&self) -> HeadModel {
        HeadModel {
            status_line: self.status_line@,
            close: self.close,
            chunked: self.chunked,
            content_length: self.content_length,
        }
    }
}

/// The head that a text holds: its first line is the status line, the others are header fields.
/// A `Content-Length` that is no number counts as absent.
pub open spec fn head_of(text: Seq<char>) -> HeadModel {
    let all = line_parts(text);
    let headers = headers_of(
        if all.len() == 0 {
            all
        } else {
            all.drop_first()
        },
    );
    HeadModel {
        status_line: if all.len() == 0 {
            Seq::empty()
        } else {
            all[0]
        },
        close: mentions(headers, "connection"@, "close"@),
        chunked: mentions(headers, "transfer-encoding"@, "chunked"@),
        content_length: match first_named(headers, "content-length"@) {
            Some(value) => match parsed_number(value, 10, usize::MAX as int) {
                Some(n) => Some(n as usize),
                None => None,
            },
            None => None,
        },
    }
}

/// The header fields of the lines from index `from` on.
fn headers_from(all: &Vec<String>, from: usize) -> (out: Vec<Header>)
    requires
        from <= all.len(),
    ensures
        views(out@) == headers_of(views(all@).skip(from as int)),
{
    let ghost ls = views(all@).skip(from as int);
    let ghost f = |l: Seq<char>| header_of(l);
    let mut out: Vec<Header> = Vec::new();
    proof {
        assert(ls.take(0) =~= Seq::empty());
        assert(views(out@) =~= ls.take(0).filter_map(f));
    }
    for i in from..all.len()
        invariant
            from <= all.len(),
            ls == views(all@).skip(from as int),
            f == (|l: Seq<char>| header_of(l)),
            views(out@) == ls.take(i - from).filter_map(f),
    {
        proof {
            ls.lemma_filter_map_take_succ(f, i - from);
            assert(ls[i - from] == all@[i as int]@);
        }
        let ghost was = views(out@);
        match split_once(all[i].as_str(), ':') {
            None => {
                proof {
                    assert(ls.take(i - from + 1).filter_map(f) =~= was);
                }
            },
            Some(cut) => {
                let name = to_ascii_lowercase(trim(cut.0.as_str()).as_str());
                let value = trim(cut.1.as_str());
                let h = Header { name, value };
                let ghost hv = h@;
                out.push(h);
                proof {
                    assert(views(out@) =~= was.push(hv));
                    assert(f(ls[i - from]) == Some(hv));
                    assert(ls.take(i - from + 1).filter_map(f) =~= was.push(hv));
                }
            },
        }
    }
    proof {
        assert(ls.take(all@.len() - from) =~= ls);
    }
    out
}

/// Whether a header of this name mentions `word`, in any case.
fn any_mentions(headers: &Vec<Header>, name: &str, word: &str) -> (r: bool)
    ensures
        r == mentions(views(headers@), name@, word@),
{
    for i in 0..headers.len()
        invariant
            forall|j: int|
                0 <= j < i ==> !((#[trigger] views(headers@)[j]).0 == name@ && holds_text(
                    lowered(views(headers@)[j].1),
                    word@,
                )),
    {
        proof {
            assert(views(headers@)[i as int] == headers@[i as int]@);
        }
        if same(headers[i].name.as_str(), name) {
            let value = to_ascii_lowercase(headers[i].value.as_str());
            if contains(value.as_str(), word) {
                return true;
            }
        }
    }
    false
}

/// The number in the first header of this name.
fn number_named(headers: &Vec<Header>, name: &str) -> (r: Option<usize>)
    ensures
        r == (match first_named(views(headers@), name@) {
            Some(value) => match parsed_number(value, 10, usize::MAX as int) {
                Some(n) => Some(n as usize),
                None => None,
            },
            None => None,
        }),
{
    let ghost hs = views(headers@);
    proof {
        assert(hs.skip(0) =~= hs);
    }
    for i in 0..headers.len()
        invariant
            hs == views(headers@),
            first_named(hs, name@) == first_named(hs.skip(i as int), name@),
    {
        proof {
            assert(hs.skip(i as int)[0] == headers@[i as int]@);
            assert(hs.skip(i as int).drop_first() =~= hs.skip(i + 1));
        }
        if same(headers[i].name.as_str(), name) {
            return match parse_number(headers[i].value.as_str(), 10, usize::MAX as u64) {
                Some(n) => Some(n as usize),
                None => None,
            };
        }
    }
    None
}

/// Reads a response head.
pub fn parse_head(text: &str) -> (r: Head)
    ensures
        r@ == head_of(text@),
{
    let all = lines(text);
    let ghost ls = views(all@);
    let empty: bool = all.len() == 0;
    let status_line: String = if empty {
        String::new()
    } else {
        all[0].clone()
    };
    let from: usize = if empty {
        0
    } else {
        1
    };
    let headers = headers_from(&all, from);
    proof {
        if empty {
            assert(ls.skip(0) =~= ls);
            assert(status_line@ =~= Seq::<char>::empty());
        } else {
            assert(ls.skip(1) =~= ls.drop_first());
            assert(ls[0] == all@[0]@);
        }
    }
    Head {
        status_line,
        close: any_mentions(&headers, "connection", "close"),
        chunked: any_mentions(&headers, "transfer-encoding", "chunked"),
        content_length: number_named(&headers, "content-length"),
    }
}

/// Whether a status line reports success.
pub open spec fn is_success(status_line: Seq<char>) -> bool {
    "HTTP/1.1 200"@.is_prefix_of(status_line) || "HTTP/1.0 200"@.is_prefix_of(status_line)
}

/// Whether a status line reports success.
pub fn status_is_success(status_line: &str) -> (r: bool)
    ensures
        r == is_success(status_line@),
{
    starts_with(status_line, "HTTP/1.1 200") || starts_with(status_line, "HTTP/1.0 200")
}

/// The most characters of an error body that are shown.
pub const DETAIL_LIMIT: usize = 2048;

/// The part of an error body that is shown: its text, trimmed and cut.
pub open spec fn detail_of(body: Seq<char>) -> Seq<char> {
    let t = trimmed(body);
    if t.len() <= DETAIL_LIMIT {
        t
    } else {
        t.take(DETAIL_LIMIT as int)
    }
}

/// What is reported of a response without success.
pub open spec fn refusal_text(status_line: Seq<char>, body: Seq<char>) -> Seq<char> {
    let head = "peer returned non-200 response: "@ + trimmed(status_line);
    if detail_of(body).len() == 0 {
        head
    } else {
        head + ": "@ + detail_of(body)
    }
}

/// What is reported of a response without success, from its status line and its body as text.
pub fn refusal(status_line: &str, body: &str) -> (r: String)
    ensures
        r@ == refusal_text(status_line@, body@),
{
    let t = trim(body);
    let chars = chars_of(t.as_str());
    let n: usize = if chars.len() <= DETAIL_LIMIT {
        chars.len()
    } else {
        DETAIL_LIMIT
    };
    let detail = string_of_range(&chars, 0, n);
    proof {
        assert(detail@ =~= detail_of(body@));
    }
    let mut r = "peer returned non-200 response: ".to_string();
    r.append(trim(status_line).as_str());
    if n > 0 {
        r.append(": ");
        r.append(detail.as_str());
    }
    r
}

/// The header line that carries the shared secret; there is none without one.
pub open spec fn token_line(token: Seq<char>) -> Seq<char> {
    if token.len() == 0 {
        Seq::empty()
    } else {
        PEER_TOKEN_HEADER@ + ": "@ + token + "\r\n"@
    }
}

/// The request line and the header lines that every request has.
pub open spec fn request_start(
    method: Seq<char>,
    path: Seq<char>,
    host: Seq<char>,
    port: u16,
    accept: Seq<char>,
) -> Seq<char> {
    method + " "@ + path + " HTTP/1.1\r\nHost: "@ + host + ":"@ + decimal_text(port as nat)
        + "\r\nConnection: keep-alive\r\nAccept: "@ + accept + "\r\n"@
}

/// The line that announces the length of a body.
pub open spec fn length_line(n: nat) -> Seq<char> {
    "Content-Length: "@ + decimal_text(n) + "\r\n"@
}

/// The head of a buffered request. A length is announced for every body that is not empty and for
/// every `POST`.
pub open spec fn buffered_request_text(
    method: Seq<char>,
    path: Seq<char>,
    host: Seq<char>,
    port: u16,
    token: Seq<char>,
    content_type: Option<Seq<char>>,
    body_len: nat,
) -> Seq<char> {
    request_start(method, path, host, port, "application/json"@) + token_line(token) + (
    match content_type {
        Some(t) => "Content-Type: "@ + t + "\r\n"@,
        None => Seq::empty(),
    }) + (if body_len > 0 || same_ignoring_case(method, "POST"@) {
        length_line(body_len)
    } else {
        Seq::empty()
    }) + "\r\n"@
}

/// The head of a request whose body is streamed.
pub open spec fn streamed_request_text(
    path: Seq<char>,
    host: Seq<char>,
    port: u16,
    token: Seq<char>,
    body_len: nat,
) -> Seq<char> {
    request_start("POST"@, path, host, port, "application/json"@)
        + "Content-Type: application/octet-stream\r\n"@ + length_line(body_len) + token_line(token)
        + "\r\n"@
}

/// The head of a request whose response is a stream of JSON lines.
pub open spec fn ndjson_request_text(
    path: Seq<char>,
    host: Seq<char>,
    port: u16,
    token: Seq<char>,
    body_len: nat,
) -> Seq<char> {
    request_start("POST"@, path, host, port, "application/x-ndjson"@)
        + "Content-Type: application/json\r\n"@ + token_line(token) + length_line(body_len)
        + "\r\n"@
}

/// Appends the header line that carries the shared secret.
fn add_token_line(out: &mut String, token: &str)
    ensures
        final(out)@ == old(out)@ + token_line(token@),
{
    if chars_of(token).len() > 0 {
        out.append(PEER_TOKEN_HEADER);
        out.append(": ");
        out.append(token);
        out.append("\r\n");
    }
    proof {
        assert(out@ =~= old(out)@ + token_line(token@));
    }
}

/// Appends the line that announces the length of a body.
fn add_length_line(out: &mut String, n: u64)
    ensures
        final(out)@ == old(out)@ + length_line(n as nat),
{
    out.append("Content-Length: ");
    out.append(decimal(n).as_str());
    out.append("\r\n");
    proof {
        assert(out@ =~= old(out)@ + length_line(n as nat));
    }
}

/// The request line and the header lines that every request has.
fn start_request(method: &str, path: &str, host: &str, port: u16, accept: &str) -> (r: String)
    ensures
        r@ == request_start(method@, path@, host@, port, accept@),
{
    let mut r = method.to_string();
    r.append(" ");
    r.append(path);
    r.append(" HTTP/1.1\r\nHost: ");
    r.append(host);
    r.append(":");
    r.append(decimal(port as u64).as_str());
    r.append("\r\nConnection: keep-alive\r\nAccept: ");
    r.append(accept);
    r.append("\r\n");
    r
}

/// The head of a buffered request.
pub fn buffered_request(
    method: &str,
    path: &str,
    host: &str,
    port: u16,
    token: &str,
    content_type: Option<&str>,
    body_len: usize,
) -> (r: String)
    ensures
        r@ == buffered_request_text(
            method@,
            path@,
            host@,
            port,
            token@,
            (match content_type {
                Some(t) => Some(t@),
                None => None,
            }),
            body_len as nat,
        ),
{
    let mut r = start_request(method, path, host, port, "application/json");
    add_token_line(&mut r, token);
    let ghost before = r@;
    match content_type {
        Some(t) => {
            r.append("Content-Type: ");
            r.append(t);
            r.append("\r\n");
            proof {
                assert(r@ =~= before + ("Content-Type: "@ + t@ + "\r\n"@));
            }
        },
        None => {
            proof {
                assert(r@ =~= before + Seq::<char>::empty());
            }
        },
    }
    let ghost typed = r@;
    if body_len > 0 || eq_ignore_ascii_case(method, "POST") {
        add_length_line(&mut r, body_len as u64);
    } else {
        proof {
            assert(r@ =~= typed + Seq::<char>::empty());
        }
    }
    r.append("\r\n");
    r
}

/// The head of a request whose body is streamed.
pub fn streamed_request(path: &str, host: &str, port: u16, token: &str, body_len: u64) -> (r: String)
    ensures
        r@ == streamed_request_text(path@, host@, port, token@, body_len as nat),
{
    let mut r = start_request("POST", path, host, port, "application/json");
    r.append("Content-Type: application/octet-stream\r\n");
    add_length_line(&mut r, body_len);
    add_token_line(&mut r, token);
    r.append("\r\n");
    r
}

/// The head of a request whose response is a stream of JSON lines.
pub fn ndjson_request(path: &str, host: &str, port: u16, token: &str, body_len: usize) -> (r: String)
    ensures
        r@ == ndjson_request_text(path@, host@, port, token@, body_len as nat),
{
    let mut r = start_request("POST", path, host, port, "application/x-ndjson");
    r.append("Content-Type: application/json\r\n");
    add_token_line(&mut r, token);
    add_length_line(&mut r, body_len as u64);
    r.append("\r\n");
    r
}

/// Whether a failed request is tried once more: only the first attempt, on a connection that came
/// out of the pool, before anything was delivered. A repeat would deliver it twice.
pub fn retries(attempt: u32, reused: bool, delivered: bool) -> (r: bool)
    ensures
        r == (attempt == 0 && reused && !delivered),
{
    reused && attempt == 0 && !delivered
}

/// Whether the head of a message has a line.
#[verifier::opaque]
pub open spec fn has_header(text: Seq<char>, line: Seq<char>) -> bool {
    exists|a: Seq<char>, b: Seq<char>|
        text == #[trigger] (a + line + "\r\n"@ + b) && (a.len() == 0 || (a.len() >= 2
            && a[a.len() - 2] == '\r' && a[a.len() - 1] == '\n'))
}

/// What stands behind a text that ends with a line break is a line of its own, if a line break
/// follows it.
proof fn lemma_header(a: Seq<char>, line: Seq<char>, b: Seq<char>, text: Seq<char>)
    requires
        text == a + line + "\r\n"@ + b,
        a.len() == 0 || (a.len() >= 2 && a[a.len() - 2] == '\r' && a[a.len() - 1] == '\n'),
    ensures
        has_header(text, line),
{
    reveal(has_header);
}

/// What the start of a request says, and that it ends with a line break.
proof fn lemma_request_start(
    method: Seq<char>,
    path: Seq<char>,
    host: Seq<char>,
    port: u16,
    accept: Seq<char>,
    rest: Seq<char>,
)
    ensures
        ({
            let start = request_start(method, path, host, port, accept);
            let text = start + rest;
            &&& start.len() >= 2
            &&& start[start.len() - 2] == '\r'
            &&& start[start.len() - 1] == '\n'
            &&& has_header(text, method + " "@ + path + " HTTP/1.1"@)
            &&& has_header(text, "Host: "@ + host + ":"@ + decimal_text(port as nat))
            &&& has_header(text, "Accept: "@ + accept)
        }),
{
    reveal_strlit("\r\n");
    reveal_strlit(" HTTP/1.1\r\nHost: ");
    reveal_strlit(" HTTP/1.1");
    reveal_strlit("Host: ");
    reveal_strlit("\r\nConnection: keep-alive\r\nAccept: ");
    reveal_strlit("Connection: keep-alive");
    reveal_strlit("Accept: ");
    let nl = "\r\n"@;
    let start = request_start(method, path, host, port, accept);
    let text = start + rest;
    let first = method + " "@ + path + " HTTP/1.1"@;
    let second = "Host: "@ + host + ":"@ + decimal_text(port as nat);
    let third = "Connection: keep-alive"@;
    let fourth = "Accept: "@ + accept;
    assert(" HTTP/1.1\r\nHost: "@ =~= " HTTP/1.1"@ + nl + "Host: "@);
    assert("\r\nConnection: keep-alive\r\nAccept: "@ =~= nl + third + nl + "Accept: "@);
    assert(start =~= first + nl + second + nl + third + nl + fourth + nl);
    let none = Seq::<char>::empty();
    let a = first + nl;
    let b = a + second + nl;
    let c = b + third + nl;
    assert(text =~= none + first + nl + (second + nl + third + nl + fourth + nl + rest));
    lemma_header(none, first, second + nl + third + nl + fourth + nl + rest, text);
    assert(text =~= a + second + nl + (third + nl + fourth + nl + rest));
    lemma_header(a, second, third + nl + fourth + nl + rest, text);
    assert(text =~= c + fourth + nl + rest);
    lemma_header(c, fourth, rest, text);
}

/// A buffered request names what it asks for and of whom. It carries the shared secret where there
/// is one, the type of its body where it has one, and the length of its body where there is a body
/// or it is a `POST`; and it ends with a blank line.
pub proof fn buffered_requests_say_what_they_carry(
    method: Seq<char>,
    path: Seq<char>,
    host: Seq<char>,
    port: u16,
    token: Seq<char>,
    content_type: Option<Seq<char>>,
    body_len: nat,
)
    ensures
        ({
            let text = buffered_request_text(
                method,
                path,
                host,
                port,
                token,
                content_type,
                body_len,
            );
            &&& has_header(text, method + " "@ + path + " HTTP/1.1"@)
            &&& has_header(text, "Host: "@ + host + ":"@ + decimal_text(port as nat))
            &&& token.len() > 0 ==> has_header(text, "x-auto-sync-token: "@ + token)
            &&& content_type is Some ==> has_header(text, "Content-Type: "@ + content_type->0)
            &&& body_len > 0 || lowered(method) == lowered("POST"@) ==> has_header(
                text,
                "Content-Length: "@ + decimal_text(body_len),
            )
            &&& text.len() >= 4
            &&& text.skip(text.len() - 4) == "\r\n\r\n"@
        }),
{
    reveal_strlit(": ");
    reveal_strlit("x-auto-sync-token");
    reveal_strlit("x-auto-sync-token: ");
    let nl = "\r\n"@;
    let start = request_start(method, path, host, port, "application/json"@);
    let secret = "x-auto-sync-token: "@ + token;
    let kind = if content_type is Some {
        Some("Content-Type: "@ + content_type->0)
    } else {
        None
    };
    let length = if body_len > 0 || same_ignoring_case(method, "POST"@) {
        Some("Content-Length: "@ + decimal_text(body_len))
    } else {
        None
    };
    assert("x-auto-sync-token: "@ =~= PEER_TOKEN_HEADER@ + ": "@);
    let carried = if token.len() > 0 {
        Some(secret)
    } else {
        None
    };
    let rest = line_of(carried) + line_of(kind) + line_of(length) + nl;
    let text = buffered_request_text(method, path, host, port, token, content_type, body_len);
    assert(token_line(token) == line_of(carried));
    assert(text =~= start + rest);
    lemma_request_start(method, path, host, port, "application/json"@, rest);
    lemma_three_lines(start, carried, kind, length, text);
}

/// A line with its line break, where there is a line.
spec fn line_of(line: Option<Seq<char>>) -> Seq<char> {
    match line {
        Some(l) => l + "\r\n"@,
        None => Seq::empty(),
    }
}

/// Whether a text ends with a line break.
spec fn ends_line(s: Seq<char>) -> bool {
    s.len() >= 2 && s[s.len() - 2] == '\r' && s[s.len() - 1] == '\n'
}

proof fn lemma_line_behind(a: Seq<char>, line: Option<Seq<char>>)
    requires
        ends_line(a),
    ensures
        ends_line(a + line_of(line)),
{
    reveal_strlit("\r\n");
    match line {
        Some(l) => {
            let s = a + line_of(line);
            assert(s =~= a + l + "\r\n"@);
        },
        None => {
            assert(a + line_of(line) =~= a);
        },
    }
}

/// Lines behind a text that ends with a line break are lines of the whole, which ends with a blank
/// line where one follows.
proof fn lemma_three_lines(
    start: Seq<char>,
    x: Option<Seq<char>>,
    y: Option<Seq<char>>,
    z: Option<Seq<char>>,
    text: Seq<char>,
)
    requires
        ends_line(start),
        text == start + (line_of(x) + line_of(y) + line_of(z) + "\r\n"@),
    ensures
        x is Some ==> has_header(text, x->0),
        y is Some ==> has_header(text, y->0),
        z is Some ==> has_header(text, z->0),
        text.len() >= 4,
        text.skip(text.len() - 4) == "\r\n\r\n"@,
{
    let nl = "\r\n"@;
    let (p, q, r) = (line_of(x), line_of(y), line_of(z));
    lemma_regroup(start, p, q, r, nl);
    lemma_line_behind(start, x);
    lemma_line_behind(start + p, y);
    lemma_line_behind(start + p + q, z);
    lemma_line_is_header(start, x, q + r + nl, text);
    lemma_line_is_header(start + p, y, r + nl, text);
    lemma_line_is_header(start + p + q, z, nl, text);
    lemma_blank_line(start + p + q + r, text);
}

proof fn lemma_regroup(
    s: Seq<char>,
    p: Seq<char>,
    q: Seq<char>,
    r: Seq<char>,
    n: Seq<char>,
)
    ensures
        s + (p + q + r + n) == s + p + (q + r + n),
        s + (p + q + r + n) == s + p + q + (r + n),
        s + (p + q + r + n) == s + p + q + r + n,
{
    let all = s + (p + q + r + n);
    assert(all =~= s + p + (q + r + n));
    assert(all =~= s + p + q + (r + n));
    assert(all =~= s + p + q + r + n);
}

proof fn lemma_line_is_header(
    a: Seq<char>,
    line: Option<Seq<char>>,
    b: Seq<char>,
    text: Seq<char>,
)
    requires
        ends_line(a),
        text == a + line_of(line) + b,
    ensures
        line is Some ==> has_header(text, line->0),
{
    match line {
        Some(l) => {
            assert(a + (l + "\r\n"@) =~= a + l + "\r\n"@);
            lemma_header(a, l, b, text);
        },
        None => {},
    }
}

proof fn lemma_blank_line(a: Seq<char>, text: Seq<char>)
    requires
        ends_line(a),
        text == a + "\r\n"@,
    ensures
        text.len() >= 4,
        text.skip(text.len() - 4) == "\r\n\r\n"@,
{
    reveal_strlit("\r\n");
    reveal_strlit("\r\n\r\n");
    assert(text.skip(text.len() - 4) =~= "\r\n\r\n"@);
}

/// A request with a body that follows it names what it asks for, carries the length of that body and
/// the shared secret where there is one, and ends with a blank line.
pub proof fn streamed_requests_say_what_they_carry(
    path: Seq<char>,
    host: Seq<char>,
    port: u16,
    token: Seq<char>,
    body_len: nat,
    lines: bool,
)
    ensures
        ({
            let text = if lines {
                ndjson_request_text(path, host, port, token, body_len)
            } else {
                streamed_request_text(path, host, port, token, body_len)
            };
            &&& has_header(text, "POST"@ + " "@ + path + " HTTP/1.1"@)
            &&& has_header(text, "Host: "@ + host + ":"@ + decimal_text(port as nat))
            &&& token.len() > 0 ==> has_header(text, "x-auto-sync-token: "@ + token)
            &&& has_header(text, "Content-Length: "@ + decimal_text(body_len))
            &&& text.len() >= 4
            &&& text.skip(text.len() - 4) == "\r\n\r\n"@
        }),
{
    reveal_strlit("\r\n");
    reveal_strlit("\r\n\r\n");
    reveal_strlit(": ");
    reveal_strlit("x-auto-sync-token");
    reveal_strlit("x-auto-sync-token: ");
    reveal_strlit("Content-Type: application/octet-stream\r\n");
    reveal_strlit("Content-Type: application/json\r\n");
    let nl = "\r\n"@;
    let accept = if lines {
        "application/x-ndjson"@
    } else {
        "application/json"@
    };
    let kind = if lines {
        "Content-Type: application/json\r\n"@
    } else {
        "Content-Type: application/octet-stream\r\n"@
    };
    let start = request_start("POST"@, path, host, port, accept);
    let t = token_line(token);
    let line = "Content-Length: "@ + decimal_text(body_len);
    let l = line + nl;
    assert("x-auto-sync-token: "@ =~= PEER_TOKEN_HEADER@ + ": "@);
    let secret = "x-auto-sync-token: "@ + token;
    let text = if lines {
        ndjson_request_text(path, host, port, token, body_len)
    } else {
        streamed_request_text(path, host, port, token, body_len)
    };
    let rest = if lines {
        kind + t + l + nl
    } else {
        kind + l + t + nl
    };
    assert(text =~= start + rest);
    lemma_request_start("POST"@, path, host, port, accept, rest);
    let a = start + kind;
    assert(a[a.len() - 2] == '\r' && a[a.len() - 1] == '\n');
    if lines {
        let b = a + t;
        assert(b[b.len() - 2] == '\r' && b[b.len() - 1] == '\n');
        assert(text =~= b + line + nl + nl);
        lemma_header(b, line, nl, text);
        if token.len() > 0 {
            assert(text =~= a + secret + nl + (l + nl));
            lemma_header(a, secret, l + nl, text);
        }
    } else {
        assert(text =~= a + line + nl + (t + nl));
        lemma_header(a, line, t + nl, text);
        let b = a + l;
        assert(b[b.len() - 2] == '\r' && b[b.len() - 1] == '\n');
        if token.len() > 0 {
            assert(text =~= b + secret + nl + nl);
            lemma_header(b, secret, nl, text);
        }
    }
    let e = a + (if lines {
        t + l
    } else {
        l + t
    });
    assert(e[e.len() - 2] == '\r' && e[e.len() - 1] == '\n');
    assert(text =~= e + nl);
    assert(text.skip(text.len() - 4) =~= "\r\n\r\n"@);
}

} // verus!
