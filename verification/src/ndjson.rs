//! Streaming a response of JSON lines, line by line, without holding the whole body.

use crate::bytes::{
    append_all, append_range, found, lemma_found_from, lossy_text, lossy_text_of, range_of,
};
use crate::chunked::{
    fed, fresh, settled, with_piece, ChunkError, ChunkErrorModel, ChunkModel, ChunkedDecoder, Phase,
    PhaseModel, Style,
};
use crate::http::{
    head_of, is_success, parse_head, refusal, refusal_text, status_is_success, Head, HeadModel,
};
use crate::response::{blank_line, find_head_end, HttpError, HttpErrorModel, HEAD_LIMIT};
use crate::text::views;
use vstd::prelude::*;

verus! {

/// How much of an error body is collected before further pieces are dropped.
pub const ERROR_BODY_CAP: usize = 65536;

/// A line without the carriage return that ends it.
pub open spec fn without_cr(line: Seq<u8>) -> Seq<u8> {
    if line.len() > 0 && line.last() == 13 {
        line.drop_last()
    } else {
        line
    }
}

/// The complete lines of the data, and what follows the last line feed.
pub open spec fn line_split(data: Seq<u8>) -> (Seq<Seq<u8>>, Seq<u8>)
    decreases data.len(),
{
    if data.len() == 0 {
        (Seq::empty(), Seq::empty())
    } else {
        let before = line_split(data.drop_last());
        if data.last() == 10 {
            (before.0.push(without_cr(before.1)), Seq::empty())
        } else {
            (before.0, before.1.push(data.last()))
        }
    }
}

/// All lines of the data: a last line without a line feed counts unless it is empty.
pub open spec fn all_lines(data: Seq<u8>) -> Seq<Seq<u8>> {
    let split = line_split(data);
    if split.1.len() == 0 {
        split.0
    } else {
        split.0.push(without_cr(split.1))
    }
}

/// What follows the last line feed holds no line feed, so by itself it has no complete line.
pub proof fn lemma_carry_is_no_line(data: Seq<u8>)
    ensures
        line_split(line_split(data).1) == (Seq::<Seq<u8>>::empty(), line_split(data).1),
    decreases data.len(),
{
    if data.len() > 0 {
        let t = data.drop_last();
        lemma_carry_is_no_line(t);
        let c = line_split(t).1;
        if data.last() != 10 {
            assert(c.push(data.last()).drop_last() =~= c);
        }
    }
}

/// Where chunks are cut makes no difference to the lines: the lines of two runs of bytes are those
/// of the first, and those of the carried rest followed by the second.
pub proof fn line_boundaries_do_not_matter(a: Seq<u8>, b: Seq<u8>)
    ensures
        line_split(a + b).0 == line_split(a).0 + line_split(line_split(a).1 + b).0,
        line_split(a + b).1 == line_split(line_split(a).1 + b).1,
    decreases b.len(),
{
    let c = line_split(a).1;
    if b.len() == 0 {
        assert(a + b =~= a);
        assert(c + b =~= c);
        lemma_carry_is_no_line(a);
        assert(line_split(a).0 + Seq::<Seq<u8>>::empty() =~= line_split(a).0);
    } else {
        let t = b.drop_last();
        line_boundaries_do_not_matter(a, t);
        assert((a + b).drop_last() =~= a + t);
        assert((c + b).drop_last() =~= c + t);
        let l = line_split(c + t);
        assert(line_split(a).0 + l.0.push(without_cr(l.1)) =~= (line_split(a).0 + l.0).push(
            without_cr(l.1),
        ));
    }
}

/// Copies a line without the carriage return that ends it.
fn copy_without_cr(line: &Vec<u8>) -> (r: Vec<u8>)
    ensures
        r@ == without_cr(line@),
{
    let n: usize = if line.len() > 0 && line[line.len() - 1] == 13 {
        line.len() - 1
    } else {
        line.len()
    };
    let r = range_of(line, 0, n);
    proof {
        assert(r@ =~= without_cr(line@));
    }
    r
}

/// Splits a stream of bytes into lines, carrying an incomplete line from one run to the next.
#[derive(Debug)]
pub struct NdjsonLineSplitter {
    pub carry: Vec<u8>,
}

impl NdjsonLineSplitter {
    /// A splitter before the first byte.
    pub fn new() -> (r: NdjsonLineSplitter)
        ensures
            r.carry@ == Seq::<u8>::empty(),
    {
        NdjsonLineSplitter { carry: Vec::new() }
    }

    /// Takes a run of bytes and gives the lines that it completes.
    pub fn feed(&mut self, chunk: &Vec<u8>) -> (lines: Vec<Vec<u8>>)
        requires
            line_split(old(self).carry@) == (Seq::<Seq<u8>>::empty(), old(self).carry@),
        ensures
            (views(lines@), final(self).carry@) == line_split(old(self).carry@ + chunk@),
            line_split(final(self).carry@) == (Seq::<Seq<u8>>::empty(), final(self).carry@),
    {
        let mut lines: Vec<Vec<u8>> = Vec::new();
        let ghost start = self.carry@;
        proof {
            assert(start + chunk@.take(0) =~= start);
            assert(views(lines@) =~= Seq::<Seq<u8>>::empty());
        }
        for i in 0..chunk.len()
            invariant
                (views(lines@), self.carry@) == line_split(start + chunk@.take(i as int)),
        {
            let byte: u8 = chunk[i];
            let ghost now = start + chunk@.take(i + 1);
            let ghost was = views(lines@);
            proof {
                assert(now.drop_last() =~= start + chunk@.take(i as int));
                assert(now.last() == byte);
            }
            if byte == 10 {
                let line = copy_without_cr(&self.carry);
                lines.push(line);
                self.carry = Vec::new();
                proof {
                    assert(self.carry@ =~= Seq::<u8>::empty());
                    assert(views(lines@) =~= was.push(line@));
                }
            } else {
                self.carry.push(byte);
            }
        }
        proof {
            assert(chunk@.take(chunk@.len() as int) =~= chunk@);
            lemma_carry_is_no_line(start + chunk@);
        }
        lines
    }

    /// Takes the end of the stream and gives the last line, unless it is empty.
    pub fn finish(&mut self) -> (line: Option<Vec<u8>>)
        ensures
            line is Some == (old(self).carry@.len() > 0),
            line is Some ==> line->0@ == without_cr(old(self).carry@),
            final(self).carry@ == Seq::<u8>::empty(),
    {
        if self.carry.len() == 0 {
            proof {
                assert(self.carry@ =~= Seq::<u8>::empty());
            }
            return None;
        }
        let line = copy_without_cr(&self.carry);
        self.carry = Vec::new();
        proof {
            assert(self.carry@ =~= Seq::<u8>::empty());
        }
        Some(line)
    }
}

/// The first `total` bytes of a body, from the bytes already read and those still on the
/// connection, with the number of bytes delivered.
pub fn stream_sized_body(rest: &Vec<u8>, pending: &Vec<u8>, total: usize) -> (r: Result<
    (Vec<u8>, usize),
    HttpError,
>)
    ensures
        r is Ok == (pending.len() + rest.len() >= total),
        r is Ok ==> r->Ok_0.0@ == (pending@ + rest@).take(total as int) && r->Ok_0.1 == total,
        r is Err ==> r->Err_0@ == HttpErrorModel::ClosedMidBody,
{
    let mut out: Vec<u8> = Vec::new();
    if pending.len() >= total {
        append_range(&mut out, pending, 0, total);
        proof {
            assert(out@ =~= (pending@ + rest@).take(total as int));
        }
        return Ok((out, total));
    }
    if rest.len() < total - pending.len() {
        return Err(HttpError::ClosedMidBody);
    }
    append_all(&mut out, pending);
    append_range(&mut out, rest, 0, total - pending.len());
    proof {
        assert(out@ =~= (pending@ + rest@).take(total as int));
    }
    Ok((out, total))
}

/// Where the reading of a streamed response stands.
#[derive(Debug)]
pub enum NdjsonState {
    /// In the head, with the bytes so far.
    Reading(Vec<u8>),
    /// In the body of a refusal of announced length: total, read, collected.
    ErrorSized(Head, usize, usize, Vec<u8>),
    /// In the chunked body of a refusal.
    ErrorChunks(Head, ChunkedDecoder),
    /// In a body of announced length: total, read.
    Sized(Head, usize, usize),
    /// In a chunked body.
    Chunks(Head, ChunkedDecoder),
    /// In a body that ends with the connection.
    ToEnd,
    /// Complete; says whether the connection may carry another request.
    Done(bool),
    Failed(HttpError),
}

/// The model of an `NdjsonState`.
pub enum NdjsonModel {
    Reading(Seq<u8>),
    ErrorSized(HeadModel, int, int, Seq<u8>),
    ErrorChunks(HeadModel, ChunkModel),
    Sized(HeadModel, int, int),
    Chunks(HeadModel, ChunkModel),
    ToEnd,
    Done(bool),
    Failed(HttpErrorModel),
}

impl View for NdjsonState {
    type V = NdjsonModel;

    open spec fn view(&self) -> NdjsonModel {
        match self {
            NdjsonState::Reading(raw) => NdjsonModel::Reading(raw@),
            NdjsonState::ErrorSized(h, n, k, b) => NdjsonModel::ErrorSized(
                h@,
                *n as int,
                *k as int,
                b@,
            ),
            NdjsonState::ErrorChunks(h, d) => NdjsonModel::ErrorChunks(h@, d@),
            NdjsonState::Sized(h, n, k) => NdjsonModel::Sized(h@, *n as int, *k as int),
            NdjsonState::Chunks(h, d) => NdjsonModel::Chunks(h@, d@),
            NdjsonState::ToEnd => NdjsonModel::ToEnd,
            NdjsonState::Done(b) => NdjsonModel::Done(*b),
            NdjsonState::Failed(e) => NdjsonModel::Failed(e@),
        }
    }
}

/// A reader of a streamed response, with the lines that it has completed.
#[derive(Debug)]
pub struct NdjsonReader {
    pub state: NdjsonState,
    pub splitter: NdjsonLineSplitter,
    pub lines: Vec<Vec<u8>>,
    /// Whether any payload has arrived, so that the request cannot be repeated.
    pub delivered: bool,
}

/// The model of an `NdjsonReader`.
pub struct StreamModel {
    pub state: NdjsonModel,
    pub carry: Seq<u8>,
    pub lines: Seq<Seq<u8>>,
    pub delivered: bool,
}

impl View for NdjsonReader {
    type V = StreamModel;

    open spec fn view(&self) -> StreamModel {
        StreamModel {
            state: self.state@,
            carry: self.splitter.carry@,
            lines: views(self.lines@),
            delivered: self.delivered,
        }
    }
}

/// The reader in another state.
pub open spec fn moved(s: StreamModel, state: NdjsonModel) -> StreamModel {
    StreamModel { state, ..s }
}

/// The reader after payload.
pub open spec fn put(s: StreamModel, payload: Seq<u8>) -> StreamModel {
    let split = line_split(s.carry + payload);
    StreamModel {
        carry: split.1,
        lines: s.lines + split.0,
        delivered: s.delivered || payload.len() > 0,
        ..s
    }
}

/// The reader after the end of the payload.
pub open spec fn closed(s: StreamModel, reusable: bool) -> StreamModel {
    StreamModel {
        state: NdjsonModel::Done(reusable),
        carry: Seq::empty(),
        lines: if s.carry.len() == 0 {
            s.lines
        } else {
            s.lines.push(without_cr(s.carry))
        },
        delivered: s.delivered,
    }
}

/// The state of a refused request with the given error body.
pub open spec fn refused(h: HeadModel, body: Seq<u8>) -> NdjsonModel {
    NdjsonModel::Failed(HttpErrorModel::Refused(refusal_text(h.status_line, lossy_text(body))))
}

/// A refusal of announced length after more of its body.
pub open spec fn error_sized(
    h: HeadModel,
    total: int,
    had: int,
    body: Seq<u8>,
    more: Seq<u8>,
) -> NdjsonModel {
    let take = if more.len() <= total - had {
        more.len() as int
    } else {
        total - had
    };
    let body2 = with_piece(body, more.take(take), Some(ERROR_BODY_CAP));
    if had + take < total {
        NdjsonModel::ErrorSized(h, total, had + take, body2)
    } else {
        refused(h, body2)
    }
}

/// A refusal with a chunked body; a malformed body is shown as far as it was decoded.
pub open spec fn error_chunks(h: HeadModel, d: ChunkModel) -> NdjsonModel {
    if settled(d) {
        refused(h, d.out)
    } else {
        NdjsonModel::ErrorChunks(h, d)
    }
}

/// A body of announced length after more of it.
pub open spec fn body_sized(
    s: StreamModel,
    h: HeadModel,
    total: int,
    had: int,
    more: Seq<u8>,
) -> StreamModel {
    let take = if more.len() <= total - had {
        more.len() as int
    } else {
        total - had
    };
    let t = put(s, more.take(take));
    if had + take < total {
        moved(t, NdjsonModel::Sized(h, total, had + take))
    } else {
        closed(t, !h.close)
    }
}

/// A chunked body; the payload is handed on, the rest of the decoder stays.
pub open spec fn body_chunks(s: StreamModel, h: HeadModel, d: ChunkModel) -> StreamModel {
    let t = put(s, d.out);
    match d.phase {
        PhaseModel::Done => closed(t, !h.close),
        PhaseModel::Failed(e) => moved(t, NdjsonModel::Failed(HttpErrorModel::StreamChunked(e))),
        _ => moved(t, NdjsonModel::Chunks(h, ChunkModel { out: Seq::empty(), ..d })),
    }
}

/// The reading of a streamed response whose head is complete, with the first bytes of its body.
/// Chunks take precedence over an announced length.
pub open spec fn stream_headed(s: StreamModel, h: HeadModel, body: Seq<u8>) -> StreamModel {
    if !is_success(h.status_line) {
        moved(
            s,
            if h.chunked {
                error_chunks(h, fed(fresh(Style::Streaming, Some(ERROR_BODY_CAP)), body))
            } else {
                match h.content_length {
                    Some(n) => error_sized(h, n as int, 0, Seq::empty(), body),
                    None => refused(h, Seq::empty()),
                }
            },
        )
    } else if h.chunked {
        body_chunks(s, h, fed(fresh(Style::Streaming, None), body))
    } else {
        match h.content_length {
            Some(n) => body_sized(s, h, n as int, 0, body),
            None => moved(put(s, body), NdjsonModel::ToEnd),
        }
    }
}

/// The reader after one more read.
pub open spec fn stream_fed(s: StreamModel, more: Seq<u8>) -> StreamModel {
    match s.state {
        NdjsonModel::Reading(raw) => if raw.len() + more.len() > HEAD_LIMIT {
            moved(s, NdjsonModel::Failed(HttpErrorModel::HeadersTooLarge))
        } else {
            match found(raw + more, blank_line()) {
                None => moved(s, NdjsonModel::Reading(raw + more)),
                Some(i) => stream_headed(
                    s,
                    head_of(lossy_text((raw + more).take(i))),
                    (raw + more).skip(i + 4),
                ),
            }
        },
        NdjsonModel::ErrorSized(h, n, k, body) => moved(s, error_sized(h, n, k, body, more)),
        NdjsonModel::ErrorChunks(h, d) => moved(s, error_chunks(h, fed(d, more))),
        NdjsonModel::Sized(h, n, k) => body_sized(s, h, n, k, more),
        NdjsonModel::Chunks(h, d) => body_chunks(s, h, fed(d, more)),
        NdjsonModel::ToEnd => put(s, more),
        _ => s,
    }
}

/// The reader after the end of the connection.
pub open spec fn stream_ended(s: StreamModel) -> StreamModel {
    match s.state {
        NdjsonModel::Reading(_) => moved(s, NdjsonModel::Failed(HttpErrorModel::ClosedBeforeHeaders)),
        NdjsonModel::ErrorSized(h, _, _, body) => moved(s, refused(h, body)),
        NdjsonModel::ErrorChunks(h, d) => moved(s, refused(h, d.out)),
        NdjsonModel::Sized(_, _, _) => moved(s, NdjsonModel::Failed(HttpErrorModel::ClosedMidBody)),
        NdjsonModel::Chunks(_, _) => moved(
            s,
            NdjsonModel::Failed(HttpErrorModel::StreamChunked(ChunkErrorModel::Closed)),
        ),
        NdjsonModel::ToEnd => closed(s, false),
        _ => s,
    }
}

/// Whether nothing more is read.
pub open spec fn stream_settled(s: StreamModel) -> bool {
    s.state is Done || s.state is Failed
}

/// A reader before the first byte.
pub open spec fn stream_fresh() -> StreamModel {
    StreamModel {
        state: NdjsonModel::Reading(Seq::empty()),
        carry: Seq::empty(),
        lines: Seq::empty(),
        delivered: false,
    }
}

/// The reader after several reads.
pub open spec fn stream_over(s: StreamModel, reads: Seq<Seq<u8>>) -> StreamModel
    decreases reads.len(),
{
    if reads.len() == 0 {
        s
    } else {
        stream_fed(stream_over(s, reads.drop_last()), reads.last())
    }
}

/// The bytes of several reads, one after the other.
pub open spec fn read_bytes(reads: Seq<Seq<u8>>) -> Seq<u8>
    decreases reads.len(),
{
    if reads.len() == 0 {
        Seq::empty()
    } else {
        read_bytes(reads.drop_last()) + reads.last()
    }
}

/// Putting payload in two parts is putting it at once.
pub proof fn lemma_put_twice(s: StreamModel, a: Seq<u8>, b: Seq<u8>)
    ensures
        put(put(s, a), b) == put(s, a + b),
{
    assert((s.carry + a) + b =~= s.carry + (a + b));
    line_boundaries_do_not_matter(s.carry + a, b);
    let first = line_split(s.carry + a);
    let second = line_split(first.1 + b);
    assert((s.lines + first.0) + second.0 =~= s.lines + (first.0 + second.0));
}

/// A body of announced length is delivered as its lines, whatever the reads: once all of it has
/// been read, the lines are those of the body and the connection may be used again unless the head
/// asked to close it.
pub proof fn sized_stream_delivers_lines_of_body(
    s: StreamModel,
    h: HeadModel,
    reads: Seq<Seq<u8>>,
)
    requires
        s.state == NdjsonModel::Sized(h, read_bytes(reads).len() as int, 0),
        s.carry.len() == 0,
        s.lines.len() == 0,
        reads.len() > 0,
        forall|i: int| 0 <= i < reads.len() ==> (#[trigger] reads[i]).len() > 0,
    ensures
        stream_over(s, reads).state == NdjsonModel::Done(!h.close),
        stream_over(s, reads).lines == all_lines(read_bytes(reads)),
{
    let total = read_bytes(reads).len() as int;
    let before = reads.drop_last();
    lemma_sized_over(s, h, total, before);
    let a = read_bytes(before);
    let b = reads.last();
    assert(b == reads[reads.len() - 1]);
    let t = put(s, a);
    assert(b.take(b.len() as int) =~= b);
    lemma_put_twice(s, a, b);
    assert(s.carry + (a + b) =~= a + b);
    let split = line_split(a + b);
    assert(s.lines + split.0 =~= split.0);
}

/// Part of a body of announced length.
proof fn lemma_sized_over(s: StreamModel, h: HeadModel, total: int, reads: Seq<Seq<u8>>)
    requires
        s.state == NdjsonModel::Sized(h, total, 0),
        read_bytes(reads).len() < total,
        s.carry.len() == 0,
    ensures
        stream_over(s, reads).state == NdjsonModel::Sized(h, total, read_bytes(reads).len() as int),
        forall|b: Seq<u8>|
            #![trigger put(stream_over(s, reads), b)]
            put(stream_over(s, reads), b) == put(
                moved(s, stream_over(s, reads).state),
                read_bytes(reads) + b,
            ),
    decreases reads.len(),
{
    let o = stream_over(s, reads);
    if reads.len() == 0 {
        assert(s == moved(s, o.state));
        assert forall|b: Seq<u8>| #[trigger] put(o, b) == put(
            moved(s, o.state),
            read_bytes(reads) + b,
        ) by {
            assert(read_bytes(reads) + b =~= b);
        }
    } else {
        let before = reads.drop_last();
        let a = read_bytes(before);
        let b = reads.last();
        lemma_sized_over(s, h, total, before);
        assert(b.take(b.len() as int) =~= b);
        let mid = stream_over(s, before);
        assert(o == moved(put(mid, b), NdjsonModel::Sized(h, total, (a.len() + b.len()) as int)));
        assert(put(mid, b) == put(moved(s, mid.state), a + b));
        assert(o == put(moved(s, o.state), a + b));
        assert forall|c: Seq<u8>| #[trigger] put(o, c) == put(
            moved(s, o.state),
            read_bytes(reads) + c,
        ) by {
            lemma_put_twice(moved(s, o.state), a + b, c);
        }
    }
}

/// The error of a refused request.
fn refuse(h: &Head, body: &Vec<u8>) -> (r: NdjsonState)
    ensures
        r@ == refused(h@, body@),
{
    let text = lossy_text_of(body);
    NdjsonState::Failed(HttpError::Refused(refusal(h.status_line.as_str(), text.as_str())))
}

/// A refusal of announced length after more of its body.
fn take_error_sized(h: Head, total: usize, had: usize, body: Vec<u8>, more: &Vec<u8>) -> (r:
    NdjsonState)
    requires
        had <= total,
    ensures
        r@ == error_sized(h@, total as int, had as int, body@, more@),
        r matches NdjsonState::ErrorSized(_, n, k, _) ==> k < n,
        !(r is Chunks || r is ErrorChunks || r is Sized),
{
    let take: usize = if more.len() <= total - had {
        more.len()
    } else {
        total - had
    };
    let mut body = body;
    if body.len() < ERROR_BODY_CAP {
        append_range(&mut body, more, 0, take);
    }
    if had + take < total {
        NdjsonState::ErrorSized(h, total, had + take, body)
    } else {
        refuse(&h, &body)
    }
}

/// A refusal with a chunked body.
fn take_error_chunks(h: Head, d: ChunkedDecoder) -> (r: NdjsonState)
    requires
        d.wf(),
    ensures
        r@ == error_chunks(h@, d@),
        r matches NdjsonState::ErrorChunks(_, x) ==> x.wf() && !settled(x@),
        !(r is Chunks || r is ErrorSized || r is Sized),
{
    if d.is_settled() {
        refuse(&h, &d.out)
    } else {
        NdjsonState::ErrorChunks(h, d)
    }
}

impl NdjsonReader {
    /// Whether the reader is in one of the states that reading leads to.
    pub open spec fn wf(&self) -> bool {
        &&& line_split(self.splitter.carry@) == (Seq::<Seq<u8>>::empty(), self.splitter.carry@)
        &&& match self.state {
            NdjsonState::ErrorSized(_, n, k, _) => k < n,
            NdjsonState::Sized(_, n, k) => k < n,
            NdjsonState::ErrorChunks(_, d) => d.wf() && !settled(d@),
            NdjsonState::Chunks(_, d) => d.wf() && !settled(d@),
            _ => true,
        }
    }

    /// A reader before the first byte.
    pub fn new() -> (r: NdjsonReader)
        ensures
            r.wf(),
            r@ == stream_fresh(),
    {
        let r = NdjsonReader {
            state: NdjsonState::Reading(Vec::new()),
            splitter: NdjsonLineSplitter::new(),
            lines: Vec::new(),
            delivered: false,
        };
        proof {
            assert(r.state@ == NdjsonModel::Reading(Seq::<u8>::empty())) by {
                assert(r.state->Reading_0@ =~= Seq::<u8>::empty());
            }
            assert(views(r.lines@) =~= Seq::<Seq<u8>>::empty());
        }
        r
    }

    /// Whether nothing more is to be read.
    pub fn is_settled(&self) -> (r: bool)
        ensures
            r == stream_settled(self@),
    {
        matches!(self.state, NdjsonState::Done(_) | NdjsonState::Failed(_))
    }

    /// Hands over the lines that were completed since the last call.
    pub fn take_lines(&mut self) -> (r: Vec<Vec<u8>>)
        requires
            old(self).wf(),
        ensures
            final(self).wf(),
            views(r@) == old(self)@.lines,
            final(self)@ == (StreamModel { lines: Seq::empty(), ..old(self)@ }),
    {
        let mut r: Vec<Vec<u8>> = Vec::new();
        r.append(&mut self.lines);
        proof {
            assert(views(r@) =~= old(self)@.lines);
            assert(views(self.lines@) =~= Seq::<Seq<u8>>::empty());
        }
        r
    }

    /// Takes payload.
    fn put(&mut self, payload: &Vec<u8>)
        requires
            line_split(old(self).splitter.carry@) == (
                Seq::<Seq<u8>>::empty(),
                old(self).splitter.carry@,
            ),
        ensures
            final(self)@ == put(old(self)@, payload@),
            final(self).state == old(self).state,
            line_split(final(self).splitter.carry@) == (
                Seq::<Seq<u8>>::empty(),
                final(self).splitter.carry@,
            ),
    {
        if payload.len() > 0 {
            self.delivered = true;
        }
        let mut lines = self.splitter.feed(payload);
        let ghost new_lines = views(lines@);
        self.lines.append(&mut lines);
        proof {
            assert(views(self.lines@) =~= old(self)@.lines + new_lines);
        }
    }

    /// Takes the end of the payload.
    fn close(&mut self, reusable: bool)
        ensures
            final(self).wf(),
            final(self)@ == closed(old(self)@, reusable),
    {
        match self.splitter.finish() {
            Some(line) => {
                self.lines.push(line);
                proof {
                    assert(views(self.lines@) =~= old(self)@.lines.push(line@));
                }
            },
            None => {},
        }
        self.state = NdjsonState::Done(reusable);
    }

    /// Takes more of a body of announced length.
    fn take_sized(&mut self, h: Head, total: usize, had: usize, more: &Vec<u8>)
        requires
            had <= total,
            line_split(old(self).splitter.carry@) == (
                Seq::<Seq<u8>>::empty(),
                old(self).splitter.carry@,
            ),
        ensures
            final(self).wf(),
            final(self)@ == body_sized(old(self)@, h@, total as int, had as int, more@),
    {
        let take: usize = if more.len() <= total - had {
            more.len()
        } else {
            total - had
        };
        let payload = range_of(more, 0, take);
        self.put(&payload);
        if had + take < total {
            self.state = NdjsonState::Sized(h, total, had + take);
        } else {
            self.close(!h.close);
        }
    }

    /// Takes what a decoder has decoded.
    fn take_chunks(&mut self, h: Head, d: ChunkedDecoder)
        requires
            d.wf(),
            line_split(old(self).splitter.carry@) == (
                Seq::<Seq<u8>>::empty(),
                old(self).splitter.carry@,
            ),
        ensures
            final(self).wf(),
            final(self)@ == body_chunks(old(self)@, h@, d@),
    {
        self.put(&d.out);
        match d.phase {
            Phase::Done => {
                self.close(!h.close);
            },
            Phase::Failed(e) => {
                self.state = NdjsonState::Failed(HttpError::StreamChunked(e));
            },
            phase => {
                let rest = ChunkedDecoder {
                    phase,
                    pending: d.pending,
                    out: Vec::new(),
                    style: d.style,
                    cap: d.cap,
                };
                proof {
                    assert(rest.out@ =~= Seq::<u8>::empty());
                }
                self.state = NdjsonState::Chunks(h, rest);
            },
        }
    }

    /// Takes a complete head and the first bytes of the body.
    fn take_head(&mut self, h: Head, body: &Vec<u8>)
        requires
            line_split(old(self).splitter.carry@) == (
                Seq::<Seq<u8>>::empty(),
                old(self).splitter.carry@,
            ),
        ensures
            final(self).wf(),
            final(self)@ == stream_headed(old(self)@, h@, body@),
    {
        if !status_is_success(h.status_line.as_str()) {
            if h.chunked {
                let mut d = ChunkedDecoder::new(Style::Streaming, Some(ERROR_BODY_CAP));
                d.feed(body);
                self.state = take_error_chunks(h, d);
            } else {
                let none: Vec<u8> = Vec::new();
                proof {
                    assert(none@ =~= Seq::<u8>::empty());
                }
                match h.content_length {
                    Some(n) => {
                        self.state = take_error_sized(h, n, 0, none, body);
                    },
                    None => {
                        self.state = refuse(&h, &none);
                    },
                }
            }
        } else if h.chunked {
            let mut d = ChunkedDecoder::new(Style::Streaming, None);
            d.feed(body);
            self.take_chunks(h, d);
        } else {
            match h.content_length {
                Some(n) => {
                    self.take_sized(h, n, 0, body);
                },
                None => {
                    self.put(body);
                    self.state = NdjsonState::ToEnd;
                },
            }
        }
    }

    /// Takes the bytes of one read.
    pub fn feed(self, more: &Vec<u8>) -> (r: NdjsonReader)
        requires
            self.wf(),
        ensures
            r.wf(),
            r@ == stream_fed(self@, more@),
    {
        let mut r = NdjsonReader {
            state: NdjsonState::ToEnd,
            splitter: self.splitter,
            lines: self.lines,
            delivered: self.delivered,
        };
        match self.state {
            NdjsonState::Reading(raw) => {
                if raw.len() > HEAD_LIMIT || more.len() > HEAD_LIMIT - raw.len() {
                    r.state = NdjsonState::Failed(HttpError::HeadersTooLarge);
                    return r;
                }
                let mut raw = raw;
                append_all(&mut raw, more);
                proof {
                    lemma_found_from(raw@, blank_line(), 0);
                }
                match find_head_end(&raw) {
                    None => {
                        r.state = NdjsonState::Reading(raw);
                    },
                    Some(i) => {
                        let head = range_of(&raw, 0, i);
                        let text = lossy_text_of(&head);
                        let h = parse_head(text.as_str());
                        let body = range_of(&raw, i + 4, raw.len());
                        proof {
                            assert(head@ =~= raw@.take(i as int));
                            assert(body@ =~= raw@.skip(i + 4));
                        }
                        r.take_head(h, &body);
                    },
                }
            },
            NdjsonState::ErrorSized(h, n, k, body) => {
                r.state = take_error_sized(h, n, k, body, more);
            },
            NdjsonState::ErrorChunks(h, d) => {
                let mut d = d;
                d.feed(more);
                r.state = take_error_chunks(h, d);
            },
            NdjsonState::Sized(h, n, k) => {
                r.take_sized(h, n, k, more);
            },
            NdjsonState::Chunks(h, d) => {
                let mut d = d;
                d.feed(more);
                r.take_chunks(h, d);
            },
            NdjsonState::ToEnd => {
                r.put(more);
            },
            NdjsonState::Done(b) => {
                r.state = NdjsonState::Done(b);
            },
            NdjsonState::Failed(e) => {
                r.state = NdjsonState::Failed(e);
            },
        }
        r
    }

    /// Takes the end of the connection.
    pub fn end(self) -> (r: NdjsonReader)
        requires
            self.wf(),
        ensures
            r.wf(),
            r@ == stream_ended(self@),
            stream_settled(r@),
    {
        let mut r = NdjsonReader {
            state: NdjsonState::ToEnd,
            splitter: self.splitter,
            lines: self.lines,
            delivered: self.delivered,
        };
        match self.state {
            NdjsonState::Reading(_) => {
                r.state = NdjsonState::Failed(HttpError::ClosedBeforeHeaders);
            },
            NdjsonState::ErrorSized(h, _, _, body) => {
                r.state = refuse(&h, &body);
            },
            NdjsonState::ErrorChunks(h, d) => {
                r.state = refuse(&h, &d.out);
            },
            NdjsonState::Sized(_, _, _) => {
                r.state = NdjsonState::Failed(HttpError::ClosedMidBody);
            },
            NdjsonState::Chunks(_, _) => {
                r.state = NdjsonState::Failed(HttpError::StreamChunked(ChunkError::Closed));
            },
            NdjsonState::ToEnd => {
                r.close(false);
            },
            NdjsonState::Done(b) => {
                r.state = NdjsonState::Done(b);
            },
            NdjsonState::Failed(e) => {
                r.state = NdjsonState::Failed(e);
            },
        }
        r
    }
}

} // verus!
