//! Reading a whole HTTP response from a connection.
//!
//! The reader is a state machine over the reads of a connection: it is handed each run of bytes as
//! it arrives, and the end of the connection, and settles with a response or an error.

use crate::bytes::{
    append_all, find, found, found_survives_append, lemma_found_from, lossy_text, lossy_text_of,
    range_of,
};
use crate::chunked::{
    chunk_error_text, chunk_outcome, ended, fed, fresh, read_boundaries_do_not_matter, settled,
    ChunkError, ChunkErrorModel, ChunkModel, ChunkedDecoder, PhaseModel, Style,
};
use crate::http::{
    head_of, is_success, parse_head, refusal, refusal_text, status_is_success, Head, HeadModel,
};
use vstd::prelude::*;

verus! {

/// The most bytes that are read in search of the end of a head.
pub const HEAD_LIMIT: usize = 131072;

/// How many bytes one read of a buffered response asks for.
pub const READ_BLOCK: usize = 8192;

/// The bytes that end a head.
pub open spec fn blank_line() -> Seq<u8> {
    seq![13u8, 10u8, 13u8, 10u8]
}

/// The bytes that end a head.
fn head_end() -> (r: Vec<u8>)
    ensures
        r@ == blank_line(),
{
    let mut r: Vec<u8> = Vec::new();
    r.push(13);
    r.push(10);
    r.push(13);
    r.push(10);
    r
}

/// The index of the blank line that ends a head.
pub fn find_head_end(raw: &Vec<u8>) -> (r: Option<usize>)
    ensures
        r is Some == found(raw@, blank_line()) is Some,
        r is Some ==> r->0 == found(raw@, blank_line())->0 && r->0 + 4 <= raw.len(),
{
    find(raw, &head_end())
}

/// Why a response could not be read.
#[derive(Debug)]
pub enum HttpError {
    /// The connection ended inside the head.
    ClosedBeforeHeaders,
    /// The head does not end within the limit.
    HeadersTooLarge,
    /// The head has no status line.
    InvalidResponse,
    /// The connection ended inside a body of announced length.
    ClosedBeforeBody,
    /// The connection ended inside a streamed body of announced length.
    ClosedMidBody,
    /// A buffered chunked body is malformed.
    Chunked(ChunkError),
    /// A streamed chunked body is malformed.
    StreamChunked(ChunkError),
    /// The response is no success; the text says what it is.
    Refused(String),
}

/// The model of an `HttpError`.
pub enum HttpErrorModel {
    ClosedBeforeHeaders,
    HeadersTooLarge,
    InvalidResponse,
    ClosedBeforeBody,
    ClosedMidBody,
    Chunked(ChunkErrorModel),
    StreamChunked(ChunkErrorModel),
    Refused(Seq<char>),
}

impl View for HttpError {
    type V = HttpErrorModel;

    open spec fn view(&self) -> HttpErrorModel {
        match self {
            HttpError::ClosedBeforeHeaders => HttpErrorModel::ClosedBeforeHeaders,
            HttpError::HeadersTooLarge => HttpErrorModel::HeadersTooLarge,
            HttpError::InvalidResponse => HttpErrorModel::InvalidResponse,
            HttpError::ClosedBeforeBody => HttpErrorModel::ClosedBeforeBody,
            HttpError::ClosedMidBody => HttpErrorModel::ClosedMidBody,
            HttpError::Chunked(e) => HttpErrorModel::Chunked(e@),
            HttpError::StreamChunked(e) => HttpErrorModel::StreamChunked(e@),
            HttpError::Refused(t) => HttpErrorModel::Refused(t@),
        }
    }
}

/// The error as shown to users.
pub open spec fn http_error_text(e: HttpErrorModel) -> Seq<char> {
    match e {
        HttpErrorModel::ClosedBeforeHeaders => "peer closed connection before HTTP headers"@,
        HttpErrorModel::HeadersTooLarge => "peer HTTP headers are too large"@,
        HttpErrorModel::InvalidResponse => "invalid peer HTTP response"@,
        HttpErrorModel::ClosedBeforeBody => "peer closed connection before response body was complete"@,
        HttpErrorModel::ClosedMidBody => "peer closed connection mid-body"@,
        HttpErrorModel::Chunked(e) => chunk_error_text(e, Style::Buffered),
        HttpErrorModel::StreamChunked(e) => chunk_error_text(e, Style::Streaming),
        HttpErrorModel::Refused(t) => t,
    }
}

impl HttpError {
    /// The error as shown to users.
    pub fn message(&self) -> (r: String)
        ensures
            r@ == http_error_text(self@),
    {
        match self {
            HttpError::ClosedBeforeHeaders => "peer closed connection before HTTP headers".to_string(),
            HttpError::HeadersTooLarge => "peer HTTP headers are too large".to_string(),
            HttpError::InvalidResponse => "invalid peer HTTP response".to_string(),
            HttpError::ClosedBeforeBody =>
                "peer closed connection before response body was complete".to_string(),
            HttpError::ClosedMidBody => "peer closed connection mid-body".to_string(),
            HttpError::Chunked(e) => e.message(Style::Buffered),
            HttpError::StreamChunked(e) => e.message(Style::Streaming),
            HttpError::Refused(t) => t.clone(),
        }
    }
}

/// A response that was read to its end.
#[derive(Debug)]
pub struct HttpResponse {
    pub status_line: String,
    pub body: Vec<u8>,
    /// Whether the connection may carry another request.
    pub reusable: bool,
}

/// The model of an `HttpResponse`.
pub struct ResponseModel {
    pub status_line: Seq<char>,
    pub body: Seq<u8>,
    pub reusable: bool,
}

impl View for HttpResponse {
    type V = ResponseModel;

    open spec fn view(&self) -> ResponseModel {
        ResponseModel {
            status_line: self.status_line@,
            body: self.body@,
            reusable: self.reusable,
        }
    }
}

/// Where the reading of a response stands.
#[derive(Debug)]
pub enum ResponseReader {
    /// In the head, with the bytes so far.
    Reading(Vec<u8>),
    /// In a body of announced length.
    Sized(Head, usize, Vec<u8>),
    /// In a chunked body.
    Chunks(Head, ChunkedDecoder),
    /// In a body that ends with the connection.
    ToEnd(Head, Vec<u8>),
    Done(HttpResponse),
    Failed(HttpError),
}

/// The model of a `ResponseReader`.
pub enum ReaderModel {
    Reading(Seq<u8>),
    Sized(HeadModel, int, Seq<u8>),
    Chunks(HeadModel, ChunkModel),
    ToEnd(HeadModel, Seq<u8>),
    Done(ResponseModel),
    Failed(HttpErrorModel),
}

impl View for ResponseReader {
    type V = ReaderModel;

    open spec fn view(&self) -> ReaderModel {
        match self {
            ResponseReader::Reading(raw) => ReaderModel::Reading(raw@),
            ResponseReader::Sized(h, n, body) => ReaderModel::Sized(h@, *n as int, body@),
            ResponseReader::Chunks(h, d) => ReaderModel::Chunks(h@, d@),
            ResponseReader::ToEnd(h, body) => ReaderModel::ToEnd(h@, body@),
            ResponseReader::Done(r) => ReaderModel::Done(r@),
            ResponseReader::Failed(e) => ReaderModel::Failed(e@),
        }
    }
}

/// Whether nothing more is read.
pub open spec fn reader_settled(s: ReaderModel) -> bool {
    s is Done || s is Failed
}

/// A body of announced length: complete once all of it is there. What was read past it spoils the
/// connection for further requests.
pub open spec fn with_sized(h: HeadModel, n: int, body: Seq<u8>) -> ReaderModel {
    if body.len() < n {
        ReaderModel::Sized(h, n, body)
    } else {
        ReaderModel::Done(
            ResponseModel {
                status_line: h.status_line,
                body: body.take(n),
                reusable: body.len() == n && !h.close,
            },
        )
    }
}

/// A chunked body.
pub open spec fn with_chunks(h: HeadModel, d: ChunkModel) -> ReaderModel {
    if !settled(d) {
        ReaderModel::Chunks(h, d)
    } else {
        match chunk_outcome(d) {
            Ok(body) => ReaderModel::Done(
                ResponseModel { status_line: h.status_line, body, reusable: !h.close },
            ),
            Err(e) => ReaderModel::Failed(HttpErrorModel::Chunked(e)),
        }
    }
}

/// The reading of a response whose head is complete, with the first bytes of its body. An
/// announced length takes precedence over chunks.
pub open spec fn with_head(h: HeadModel, body: Seq<u8>) -> ReaderModel {
    if h.status_line.len() == 0 {
        ReaderModel::Failed(HttpErrorModel::InvalidResponse)
    } else {
        match h.content_length {
            Some(n) => with_sized(h, n as int, body),
            None => if h.chunked {
                with_chunks(h, fed(fresh(Style::Buffered, None), body))
            } else {
                ReaderModel::ToEnd(h, body)
            },
        }
    }
}

/// The reading of a response from all the bytes so far, where the head may be complete.
pub open spec fn with_raw(raw: Seq<u8>) -> ReaderModel {
    match found(raw, blank_line()) {
        None => ReaderModel::Reading(raw),
        Some(i) => with_head(head_of(lossy_text(raw.take(i))), raw.skip(i + 4)),
    }
}

/// The reader after one more read.
pub open spec fn reader_fed(s: ReaderModel, more: Seq<u8>) -> ReaderModel {
    match s {
        ReaderModel::Reading(raw) => if raw.len() + more.len() > HEAD_LIMIT {
            ReaderModel::Failed(HttpErrorModel::HeadersTooLarge)
        } else {
            with_raw(raw + more)
        },
        ReaderModel::Sized(h, n, body) => with_sized(h, n, body + more),
        ReaderModel::Chunks(h, d) => with_chunks(h, fed(d, more)),
        ReaderModel::ToEnd(h, body) => ReaderModel::ToEnd(h, body + more),
        _ => s,
    }
}

/// The reader after the end of the connection.
pub open spec fn reader_ended(s: ReaderModel) -> ReaderModel {
    match s {
        ReaderModel::Reading(_) => ReaderModel::Failed(HttpErrorModel::ClosedBeforeHeaders),
        ReaderModel::Sized(_, _, _) => ReaderModel::Failed(HttpErrorModel::ClosedBeforeBody),
        ReaderModel::Chunks(h, d) => with_chunks(h, ended(d)),
        ReaderModel::ToEnd(h, body) => ReaderModel::Done(
            ResponseModel { status_line: h.status_line, body, reusable: false },
        ),
        _ => s,
    }
}

/// The reader after a connection was read to its end or until the reader settled.
pub open spec fn reader_over(s: ReaderModel, rest: Seq<u8>) -> ReaderModel
    decreases rest.len(),
{
    if reader_settled(s) {
        s
    } else if rest.len() == 0 {
        reader_ended(s)
    } else if rest.len() <= READ_BLOCK {
        reader_ended(reader_fed(s, rest))
    } else {
        reader_over(reader_fed(s, rest.take(READ_BLOCK as int)), rest.skip(READ_BLOCK as int))
    }
}

/// What a settled reader gives.
pub open spec fn reader_outcome(s: ReaderModel) -> Result<ResponseModel, HttpErrorModel> {
    match s {
        ReaderModel::Done(r) => Ok(r),
        ReaderModel::Failed(e) => Err(e),
        _ => Err(HttpErrorModel::InvalidResponse),
    }
}

/// The model of a reading's result.
pub open spec fn response_result(
    r: Result<HttpResponse, HttpError>,
) -> Result<ResponseModel, HttpErrorModel> {
    match r {
        Ok(x) => Ok(x@),
        Err(e) => Err(e@),
    }
}

impl ResponseReader {
    /// Whether the reader is in one of the states that reading leads to.
    pub open spec fn wf(&self) -> bool {
        match self {
            ResponseReader::Chunks(_, d) => d.wf() && !settled(d@),
            _ => true,
        }
    }

    /// A reader before the first byte.
    pub fn new() -> (r: ResponseReader)
        ensures
            r.wf(),
            r@ == ReaderModel::Reading(Seq::empty()),
    {
        let raw: Vec<u8> = Vec::new();
        proof {
            assert(raw@ =~= Seq::<u8>::empty());
        }
        ResponseReader::Reading(raw)
    }

    /// Whether nothing more is to be read.
    pub fn is_settled(&self) -> (r: bool)
        ensures
            r == reader_settled(self@),
    {
        matches!(self, ResponseReader::Done(_) | ResponseReader::Failed(_))
    }

    fn sized(h: Head, n: usize, body: Vec<u8>) -> (r: ResponseReader)
        ensures
            r.wf(),
            r@ == with_sized(h@, n as int, body@),
    {
        if body.len() < n {
            ResponseReader::Sized(h, n, body)
        } else {
            let exact: bool = body.len() == n;
            let mut body = body;
            body.truncate(n);
            proof {
                assert(body@ =~= body@.take(n as int));
            }
            ResponseReader::Done(
                HttpResponse { status_line: h.status_line, body, reusable: exact && !h.close },
            )
        }
    }

    fn chunks(h: Head, d: ChunkedDecoder) -> (r: ResponseReader)
        requires
            d.wf(),
        ensures
            r.wf(),
            r@ == with_chunks(h@, d@),
    {
        if !d.is_settled() {
            ResponseReader::Chunks(h, d)
        } else {
            match d.outcome() {
                Ok(body) => ResponseReader::Done(
                    HttpResponse { status_line: h.status_line, body, reusable: !h.close },
                ),
                Err(e) => ResponseReader::Failed(HttpError::Chunked(e)),
            }
        }
    }

    fn headed(h: Head, body: Vec<u8>) -> (r: ResponseReader)
        ensures
            r.wf(),
            r@ == with_head(h@, body@),
    {
        if crate::text::chars_of(h.status_line.as_str()).len() == 0 {
            return ResponseReader::Failed(HttpError::InvalidResponse);
        }
        match h.content_length {
            Some(n) => ResponseReader::sized(h, n, body),
            None => {
                if h.chunked {
                    let mut d = ChunkedDecoder::new(Style::Buffered, None);
                    d.feed(&body);
                    ResponseReader::chunks(h, d)
                } else {
                    ResponseReader::ToEnd(h, body)
                }
            },
        }
    }

    /// Takes the bytes of one read.
    pub fn feed(self, more: &Vec<u8>) -> (r: ResponseReader)
        requires
            self.wf(),
        ensures
            r.wf(),
            r@ == reader_fed(self@, more@),
    {
        match self {
            ResponseReader::Reading(raw) => {
                if raw.len() > HEAD_LIMIT || more.len() > HEAD_LIMIT - raw.len() {
                    return ResponseReader::Failed(HttpError::HeadersTooLarge);
                }
                let mut raw = raw;
                append_all(&mut raw, more);
                proof {
                    lemma_found_from(raw@, blank_line(), 0);
                }
                match find_head_end(&raw) {
                    None => ResponseReader::Reading(raw),
                    Some(i) => {
                        let head = range_of(&raw, 0, i);
                        let text = lossy_text_of(&head);
                        let h = parse_head(text.as_str());
                        let body = range_of(&raw, i + 4, raw.len());
                        proof {
                            assert(head@ =~= raw@.take(i as int));
                            assert(body@ =~= raw@.skip(i + 4));
                        }
                        ResponseReader::headed(h, body)
                    },
                }
            },
            ResponseReader::Sized(h, n, body) => {
                let mut body = body;
                append_all(&mut body, more);
                ResponseReader::sized(h, n, body)
            },
            ResponseReader::Chunks(h, d) => {
                let mut d = d;
                d.feed(more);
                ResponseReader::chunks(h, d)
            },
            ResponseReader::ToEnd(h, body) => {
                let mut body = body;
                append_all(&mut body, more);
                ResponseReader::ToEnd(h, body)
            },
            ResponseReader::Done(r) => ResponseReader::Done(r),
            ResponseReader::Failed(e) => ResponseReader::Failed(e),
        }
    }

    /// Takes the end of the connection.
    pub fn end(self) -> (r: ResponseReader)
        requires
            self.wf(),
        ensures
            r.wf(),
            r@ == reader_ended(self@),
            reader_settled(r@),
    {
        match self {
            ResponseReader::Reading(_) => ResponseReader::Failed(HttpError::ClosedBeforeHeaders),
            ResponseReader::Sized(_, _, _) => ResponseReader::Failed(HttpError::ClosedBeforeBody),
            ResponseReader::Chunks(h, d) => {
                let mut d = d;
                d.end();
                ResponseReader::chunks(h, d)
            },
            ResponseReader::ToEnd(h, body) => ResponseReader::Done(
                HttpResponse { status_line: h.status_line, body, reusable: false },
            ),
            ResponseReader::Done(r) => ResponseReader::Done(r),
            ResponseReader::Failed(e) => ResponseReader::Failed(e),
        }
    }

    /// The response, or why there is none.
    pub fn outcome(self) -> (r: Result<HttpResponse, HttpError>)
        requires
            reader_settled(self@),
        ensures
            response_result(r) == reader_outcome(self@),
    {
        match self {
            ResponseReader::Done(r) => Ok(r),
            ResponseReader::Failed(e) => Err(e),
            _ => Err(HttpError::InvalidResponse),
        }
    }
}

/// Reads a response from the bytes that a connection carries, a block at a time.
pub fn read_http_response(stream: &Vec<u8>) -> (r: Result<HttpResponse, HttpError>)
    ensures
        response_result(r) == reader_outcome(
            reader_over(ReaderModel::Reading(Seq::empty()), stream@),
        ),
{
    let mut reader = ResponseReader::new();
    let ghost target = reader_over(reader@, stream@);
    let mut at: usize = 0;
    proof {
        assert(stream@.skip(0) =~= stream@);
    }
    while at < stream.len() && !reader.is_settled()
        invariant
            reader.wf(),
            at <= stream.len(),
            reader_over(reader@, stream@.skip(at as int)) == target,
        decreases stream.len() - at,
    {
        let left: usize = stream.len() - at;
        let n: usize = if left <= READ_BLOCK {
            left
        } else {
            READ_BLOCK
        };
        let block = range_of(stream, at, at + n);
        let ghost rest = stream@.skip(at as int);
        reader = reader.feed(&block);
        proof {
            assert(block@ =~= rest.take(n as int));
            assert(stream@.skip(at + n) =~= rest.skip(n as int));
            if left <= READ_BLOCK {
                assert(block@ =~= rest);
                assert(stream@.skip(at + n).len() == 0);
            }
        }
        at = at + n;
    }
    proof {
        if !reader_settled(reader@) {
            assert(stream@.skip(at as int).len() == 0);
        }
    }
    reader.end().outcome()
}

/// The body of a response that reports success, or what is reported of one that does not.
pub open spec fn accepted_body(r: ResponseModel) -> Result<Seq<u8>, HttpErrorModel> {
    if is_success(r.status_line) {
        Ok(r.body)
    } else {
        Err(HttpErrorModel::Refused(refusal_text(r.status_line, lossy_text(r.body))))
    }
}

/// Lets a response through only if it reports success.
pub fn accept_response(response: HttpResponse) -> (r: Result<HttpResponse, HttpError>)
    ensures
        r is Ok == is_success(response.status_line@),
        r is Ok ==> r->Ok_0 == response,
        (match r {
            Ok(x) => Ok(x.body@),
            Err(e) => Err(e@),
        }) == accepted_body(response@),
{
    if status_is_success(response.status_line.as_str()) {
        Ok(response)
    } else {
        let body = lossy_text_of(&response.body);
        Err(HttpError::Refused(refusal(response.status_line.as_str(), body.as_str())))
    }
}

/// Where reads are cut makes no difference to a response that is still incomplete: two reads give
/// what one read of the same bytes gives.
pub proof fn response_read_boundaries_do_not_matter(s: ReaderModel, a: Seq<u8>, b: Seq<u8>)
    requires
        !reader_settled(reader_fed(s, a)),
        s matches ReaderModel::Reading(raw) ==> raw.len() + a.len() + b.len() <= HEAD_LIMIT,
        s matches ReaderModel::Chunks(_, d) ==> d.cap is None && (d.phase matches PhaseModel::Data(
            n,
        ) ==> n > 0) && !settled(d),
    ensures
        reader_fed(reader_fed(s, a), b) == reader_fed(s, a + b),
{
    match s {
        ReaderModel::Reading(raw) => {
            let x = raw + a;
            assert(x + b =~= raw + (a + b));
            if let Some(i) = found(x, blank_line()) {
                lemma_found_from(x, blank_line(), 0);
                found_survives_append(x, b, blank_line(), 0);
                assert((x + b).take(i) =~= x.take(i));
                assert((x + b).skip(i + 4) =~= x.skip(i + 4) + b);
                let h = head_of(lossy_text(x.take(i)));
                if h.content_length is None && h.chunked {
                    let start = fresh(Style::Buffered, None);
                    read_boundaries_do_not_matter(start, x.skip(i + 4), b);
                }
            }
        },
        ReaderModel::Sized(h, n, body) => {
            assert((body + a) + b =~= body + (a + b));
        },
        ReaderModel::Chunks(h, d) => {
            read_boundaries_do_not_matter(d, a, b);
        },
        ReaderModel::ToEnd(h, body) => {
            assert((body + a) + b =~= body + (a + b));
        },
        _ => {},
    }
}

/// A response of announced length is read back: whatever the blocks, its status line and body
/// come out, and the connection stays usable unless the head asks to close it.
pub proof fn sized_response_is_read_back(head: Seq<u8>, body: Seq<u8>)
    requires
        found(head + blank_line(), blank_line()) == Some(head.len() as int),
        head.len() + 4 + READ_BLOCK <= HEAD_LIMIT,
        head_of(lossy_text(head)).status_line.len() > 0,
        head_of(lossy_text(head)).content_length is Some,
        head_of(lossy_text(head)).content_length->0 == body.len(),
    ensures
        reader_outcome(
            reader_over(ReaderModel::Reading(Seq::empty()), head + blank_line() + body),
        ) == Ok::<ResponseModel, HttpErrorModel>(
            ResponseModel {
                status_line: head_of(lossy_text(head)).status_line,
                body,
                reusable: !head_of(lossy_text(head)).close,
            },
        ),
{
    let all = head + blank_line() + body;
    assert(all.skip(0) =~= all);
    assert(all.take(0) =~= Seq::<u8>::empty());
    lemma_found_none(head);
    lemma_read_back(head, body, all, 0);
}

/// Before its last byte, the blank line has not been found.
proof fn lemma_found_none(head: Seq<u8>)
    requires
        found(head + blank_line(), blank_line()) == Some(head.len() as int),
    ensures
        forall|k: int|
            0 <= k < head.len() + 4 ==> found(
                #[trigger] (head + blank_line()).take(k),
                blank_line(),
            ) is None,
{
    let x = head + blank_line();
    assert forall|k: int| 0 <= k < head.len() + 4 implies found(
        #[trigger] x.take(k),
        blank_line(),
    ) is None by {
        if found(x.take(k), blank_line()) is Some {
            lemma_found_from(x.take(k), blank_line(), 0);
            found_survives_append(x.take(k), x.skip(k), blank_line(), 0);
            assert(x.take(k) + x.skip(k) =~= x);
        }
    }
}

/// Reading on from `at` bytes of a response of announced length.
proof fn lemma_read_back(head: Seq<u8>, body: Seq<u8>, all: Seq<u8>, at: int)
    requires
        all == head + blank_line() + body,
        0 <= at <= all.len(),
        at < all.len(),
        found(head + blank_line(), blank_line()) == Some(head.len() as int),
        head.len() + 4 + READ_BLOCK <= HEAD_LIMIT,
        head_of(lossy_text(head)).status_line.len() > 0,
        head_of(lossy_text(head)).content_length is Some,
        head_of(lossy_text(head)).content_length->0 == body.len(),
        forall|k: int|
            0 <= k < head.len() + 4 ==> found(
                #[trigger] (head + blank_line()).take(k),
                blank_line(),
            ) is None,
    ensures
        reader_outcome(reader_over(part_read(head, body, all, at), all.skip(at))) == Ok::<
            ResponseModel,
            HttpErrorModel,
        >(
            ResponseModel {
                status_line: head_of(lossy_text(head)).status_line,
                body,
                reusable: !head_of(lossy_text(head)).close,
            },
        ),
    decreases all.len() - at,
{
    let h = head_of(lossy_text(head));
    let x = head + blank_line();
    let s = part_read(head, body, all, at);
    let rest = all.skip(at);
    let n = if rest.len() <= READ_BLOCK {
        rest.len() as int
    } else {
        READ_BLOCK as int
    };
    let block = rest.take(n);
    let next = at + n;
    assert(all.take(at) + block =~= all.take(next));
    assert(rest.skip(n) =~= all.skip(next));
    if at < head.len() + 4 {
        assert(s == ReaderModel::Reading(all.take(at)));
        if next < head.len() + 4 {
            assert(all.take(next) =~= x.take(next));
            assert(reader_fed(s, block) == ReaderModel::Reading(all.take(next)));
        } else {
            let extra = body.take(next - head.len() - 4);
            assert(all.take(next) =~= x + extra);
            found_survives_append(x, extra, blank_line(), 0);
            assert((x + extra).take(head.len() as int) =~= head);
            assert((x + extra).skip((head.len() + 4) as int) =~= extra);
            assert(reader_fed(s, block) == with_sized(h, body.len() as int, extra));
        }
    } else {
        let got = body.take(at - head.len() - 4);
        let extra = body.take(next - head.len() - 4);
        assert(got + block =~= extra);
        assert(reader_fed(s, block) == with_sized(h, body.len() as int, extra));
    }
    if next == all.len() {
        assert(block =~= rest);
        assert(body.take(body.len() as int) =~= body);
        if next < head.len() + 4 {
            assert(false);
        }
    } else {
        assert(reader_fed(s, block) == part_read(head, body, all, next));
        lemma_read_back(head, body, all, next);
    }
}

/// The reader after the first `at` bytes of a response of announced length, before its end.
spec fn part_read(head: Seq<u8>, body: Seq<u8>, all: Seq<u8>, at: int) -> ReaderModel {
    if at < head.len() + 4 {
        ReaderModel::Reading(all.take(at))
    } else {
        ReaderModel::Sized(
            head_of(lossy_text(head)),
            body.len() as int,
            body.take(at - head.len() - 4),
        )
    }
}

} // verus!
