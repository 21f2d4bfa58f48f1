//! Incremental decoding of `Transfer-Encoding: chunked` bodies.
//!
//! A decoder is fed the bytes that were read, in any grouping, and settles when the terminating
//! chunk and its trailer have been consumed or when the stream is malformed.

use crate::bytes::{
    append_all, append_range, drop_front, find, found, found_survives_append, lemma_found_from,
    lossy_text, lossy_text_of, range_of, text_of, utf8_strict,
};
use crate::text::{parse_number, parsed_number, split, split_parts, trim, trimmed};
use vstd::prelude::*;

verus! {

/// The bytes that end a line.
pub open spec fn crlf() -> Seq<u8> {
    seq![13u8, 10u8]
}

/// The longest run of bytes without a line end that a streaming decoder accepts in place of a
/// chunk-size line.
pub const SIZE_LINE_LIMIT: usize = 16384;

/// How a decoder treats its size lines.
#[derive(Debug, Clone, Copy, PartialEq, Eq, Structural)]
pub enum Style {
    /// Payload is handed on as it arrives: size lines are bounded and must be UTF-8.
    Streaming,
    /// The whole body is collected: size lines are unbounded and are read leniently.
    Buffered,
}

/// Why a chunked body could not be decoded.
#[derive(Debug)]
pub enum ChunkError {
    /// The connection ended inside the body.
    Closed,
    /// No line end came within the limit.
    LineTooLarge,
    /// A size line is not UTF-8.
    BadEncoding,
    /// A size field is not a hexadecimal number.
    BadSize(String),
    /// A chunk is not followed by a line end.
    BadTerminator,
}

/// The model of a `ChunkError`.
pub enum ChunkErrorModel {
    Closed,
    LineTooLarge,
    BadEncoding,
    BadSize(Seq<char>),
    BadTerminator,
}

impl View for ChunkError {
    type V = ChunkErrorModel;

    open spec fn view(&self) -> ChunkErrorModel {
        match self {
            ChunkError::Closed => ChunkErrorModel::Closed,
            ChunkError::LineTooLarge => ChunkErrorModel::LineTooLarge,
            ChunkError::BadEncoding => ChunkErrorModel::BadEncoding,
            ChunkError::BadSize(t) => ChunkErrorModel::BadSize(t@),
            ChunkError::BadTerminator => ChunkErrorModel::BadTerminator,
        }
    }
}

/// Where a decoder stands.
#[derive(Debug)]
pub enum Phase {
    /// Before a chunk-size line.
    Size,
    /// Inside a chunk, with this many bytes to come.
    Data(usize),
    /// Before the line end that follows a chunk.
    Terminator,
    /// In the trailer section.
    Trailer,
    /// The body is complete.
    Done,
    /// The body is malformed.
    Failed(ChunkError),
}

/// The model of a `Phase`.
pub enum PhaseModel {
    Size,
    Data(int),
    Terminator,
    Trailer,
    Done,
    Failed(ChunkErrorModel),
}

impl View for Phase {
    type V = PhaseModel;

    open spec fn view(&self) -> PhaseModel {
        match self {
            Phase::Size => PhaseModel::Size,
            Phase::Data(n) => PhaseModel::Data(*n as int),
            Phase::Terminator => PhaseModel::Terminator,
            Phase::Trailer => PhaseModel::Trailer,
            Phase::Done => PhaseModel::Done,
            Phase::Failed(e) => PhaseModel::Failed(e@),
        }
    }
}

/// A decoder for one chunked body.
#[derive(Debug)]
pub struct ChunkedDecoder {
    pub phase: Phase,
    pub pending: Vec<u8>,
    pub out: Vec<u8>,
    pub style: Style,
    pub cap: Option<usize>,
}

/// The model of a `ChunkedDecoder`: what is undecoded and what was decoded.
pub struct ChunkModel {
    pub phase: PhaseModel,
    pub pending: Seq<u8>,
    pub out: Seq<u8>,
    pub style: Style,
    pub cap: Option<usize>,
}

impl View for ChunkedDecoder {
    type V = ChunkModel;

    open spec fn view(&self) -> ChunkModel {
        ChunkModel {
            phase: self.phase@,
            pending: self.pending@,
            out: self.out@,
            style: self.style,
            cap: self.cap,
        }
    }
}

/// The text of a size line.
pub open spec fn line_text(style: Style, line: Seq<u8>) -> Option<Seq<char>> {
    match style {
        Style::Streaming => utf8_strict(line),
        Style::Buffered => Some(lossy_text(line)),
    }
}

/// The size field of a size line: what stands before the first semicolon, trimmed.
pub open spec fn size_field(line: Seq<char>) -> Seq<char> {
    trimmed(split_parts(line, ';')[0])
}

/// The decoded bytes after a piece of payload: a capped decoder drops pieces that arrive once the
/// cap is reached.
pub open spec fn with_piece(out: Seq<u8>, piece: Seq<u8>, cap: Option<usize>) -> Seq<u8> {
    match cap {
        Some(n) => if out.len() < n {
            out + piece
        } else {
            out
        },
        None => out + piece,
    }
}

/// A decoder that has given up.
pub open spec fn gave_up(s: ChunkModel, e: ChunkErrorModel) -> ChunkModel {
    ChunkModel { phase: PhaseModel::Failed(e), pending: Seq::empty(), ..s }
}

/// Whether a decoder has nothing more to read.
pub open spec fn settled(s: ChunkModel) -> bool {
    s.phase is Done || s.phase is Failed
}

/// Decodes as far as the pending bytes allow.
pub open spec fn run(s: ChunkModel) -> ChunkModel
    decreases s.pending.len(),
{
    match s.phase {
        PhaseModel::Size => match found(s.pending, crlf()) {
            None => if s.style == Style::Streaming && s.pending.len() > SIZE_LINE_LIMIT {
                gave_up(s, ChunkErrorModel::LineTooLarge)
            } else {
                s
            },
            Some(i) => if i < 0 || i + 2 > s.pending.len() {
                s
            } else {
                match line_text(s.style, s.pending.take(i)) {
                    None => gave_up(s, ChunkErrorModel::BadEncoding),
                    Some(line) => match parsed_number(size_field(line), 16, usize::MAX as int) {
                        None => gave_up(s, ChunkErrorModel::BadSize(size_field(line))),
                        Some(n) => run(
                            ChunkModel {
                                phase: if n == 0 {
                                    PhaseModel::Trailer
                                } else {
                                    PhaseModel::Data(n)
                                },
                                pending: s.pending.skip(i + 2),
                                ..s
                            },
                        ),
                    },
                }
            },
        },
        PhaseModel::Data(remaining) => if s.pending.len() == 0 || remaining <= 0 {
            s
        } else if remaining <= s.pending.len() {
            run(
                ChunkModel {
                    phase: PhaseModel::Terminator,
                    pending: s.pending.skip(remaining),
                    out: with_piece(s.out, s.pending.take(remaining), s.cap),
                    ..s
                },
            )
        } else {
            ChunkModel {
                phase: PhaseModel::Data(remaining - s.pending.len()),
                pending: Seq::empty(),
                out: with_piece(s.out, s.pending, s.cap),
                ..s
            }
        },
        PhaseModel::Terminator => if s.pending.len() < 2 {
            s
        } else if s.pending.take(2) != crlf() {
            gave_up(s, ChunkErrorModel::BadTerminator)
        } else {
            run(ChunkModel { phase: PhaseModel::Size, pending: s.pending.skip(2), ..s })
        },
        PhaseModel::Trailer => match found(s.pending, crlf()) {
            None => s,
            Some(i) => if i < 0 || i + 2 > s.pending.len() {
                s
            } else {
                run(
                    ChunkModel {
                        phase: if i == 0 {
                            PhaseModel::Done
                        } else {
                            PhaseModel::Trailer
                        },
                        pending: s.pending.skip(i + 2),
                        ..s
                    },
                )
            },
        },
        _ => s,
    }
}

/// A decoder with more bytes behind its pending ones.
pub open spec fn appended(s: ChunkModel, more: Seq<u8>) -> ChunkModel {
    match s.phase {
        PhaseModel::Failed(_) => s,
        _ => ChunkModel { pending: s.pending + more, ..s },
    }
}

/// A decoder that has been handed the bytes of one read.
pub open spec fn fed(s: ChunkModel, more: Seq<u8>) -> ChunkModel {
    run(appended(s, more))
}

/// A decoder whose connection has ended.
pub open spec fn ended(s: ChunkModel) -> ChunkModel {
    if settled(s) {
        s
    } else {
        gave_up(s, ChunkErrorModel::Closed)
    }
}

/// A decoder before the first byte.
pub open spec fn fresh(style: Style, cap: Option<usize>) -> ChunkModel {
    ChunkModel { phase: PhaseModel::Size, pending: Seq::empty(), out: Seq::empty(), style, cap }
}

/// Where reads are cut makes no difference: feeding two runs of bytes one after the other gives
/// what feeding them at once gives. The exception is a decoder that gave up on an overlong size
/// line after the first run, and a capped decoder, which keeps whole pieces.
pub proof fn read_boundaries_do_not_matter(s: ChunkModel, a: Seq<u8>, b: Seq<u8>)
    requires
        s.cap is None,
        match s.phase {
            PhaseModel::Data(n) => n > 0,
            PhaseModel::Failed(_) => s.pending.len() == 0,
            _ => true,
        },
        fed(s, a).phase != PhaseModel::Failed(ChunkErrorModel::LineTooLarge),
    ensures
        fed(fed(s, a), b) == fed(s, a + b),
{
    if s.phase is Failed {
    } else {
        assert((s.pending + a) + b =~= s.pending + (a + b));
        lemma_run_append(appended(s, a), b);
    }
}

proof fn lemma_run_append(s: ChunkModel, b: Seq<u8>)
    requires
        s.cap is None,
        s.phase !is Failed,
        s.phase matches PhaseModel::Data(n) ==> n > 0,
        run(s).phase != PhaseModel::Failed(ChunkErrorModel::LineTooLarge),
    ensures
        run(appended(run(s), b)) == run(appended(s, b)),
    decreases s.pending.len(),
{
    let p = s.pending;
    let t = appended(s, b);
    lemma_found_from(p, crlf(), 0);
    match s.phase {
        PhaseModel::Size => {
            if let Some(i) = found(p, crlf()) {
                found_survives_append(p, b, crlf(), 0);
                assert(t.pending.take(i) =~= p.take(i));
                assert(t.pending.skip(i + 2) =~= p.skip(i + 2) + b);
                if let Some(line) = line_text(s.style, p.take(i)) {
                    lemma_parsed_is_natural(size_field(line), 16, usize::MAX as int);
                    if let Some(n) = parsed_number(size_field(line), 16, usize::MAX as int) {
                        let next = ChunkModel {
                            phase: if n == 0 {
                                PhaseModel::Trailer
                            } else {
                                PhaseModel::Data(n)
                            },
                            pending: p.skip(i + 2),
                            ..s
                        };
                        lemma_run_append(next, b);
                    }
                }
            }
        },
        PhaseModel::Data(n) => {
            if p.len() == 0 {
            } else if n <= p.len() {
                assert(t.pending.take(n) =~= p.take(n));
                assert(t.pending.skip(n) =~= p.skip(n) + b);
                lemma_run_append(
                    ChunkModel {
                        phase: PhaseModel::Terminator,
                        pending: p.skip(n),
                        out: s.out + p.take(n),
                        ..s
                    },
                    b,
                );
            } else {
                let m = n - p.len();
                let mid = appended(run(s), b);
                assert(mid.pending =~= b);
                if b.len() == 0 {
                    assert(t.pending =~= p);
                    assert(mid =~= run(s));
                } else if m <= b.len() {
                    assert((p + b).take(n) =~= p + b.take(m));
                    assert(s.out + (p + b).take(n) =~= (s.out + p) + b.take(m));
                    assert((p + b).skip(n) =~= b.skip(m));
                } else {
                    assert(s.out + (p + b) =~= (s.out + p) + b);
                }
            }
        },
        PhaseModel::Terminator => {
            if p.len() >= 2 {
                assert(t.pending.take(2) =~= p.take(2));
                assert(t.pending.skip(2) =~= p.skip(2) + b);
                if p.take(2) == crlf() {
                    lemma_run_append(
                        ChunkModel { phase: PhaseModel::Size, pending: p.skip(2), ..s },
                        b,
                    );
                }
            }
        },
        PhaseModel::Trailer => {
            if let Some(i) = found(p, crlf()) {
                found_survives_append(p, b, crlf(), 0);
                assert(t.pending.skip(i + 2) =~= p.skip(i + 2) + b);
                lemma_run_append(
                    ChunkModel {
                        phase: if i == 0 {
                            PhaseModel::Done
                        } else {
                            PhaseModel::Trailer
                        },
                        pending: p.skip(i + 2),
                        ..s
                    },
                    b,
                );
            }
        },
        _ => {},
    }
}

proof fn lemma_parsed_is_natural(s: Seq<char>, base: int, max: int)
    requires
        base >= 2,
    ensures
        parsed_number(s, base, max) is Some ==> parsed_number(s, base, max)->0 >= 0,
{
    let digits = if s.len() > 0 && s[0] == '+' {
        s.drop_first()
    } else {
        s
    };
    crate::text::lemma_digits_monotone(digits, 0, base);
}

/// Whether a size line, without its line end, announces `n` bytes.
pub open spec fn announces(style: Style, line: Seq<u8>, n: int) -> bool {
    &&& found(line + crlf(), crlf()) == Some(line.len() as int)
    &&& line_text(style, line) matches Some(t) && parsed_number(
        size_field(t),
        16,
        usize::MAX as int,
    ) == Some(n)
}

/// Chunks on the wire, given as pairs of size line and data, up to the end of the trailer.
pub open spec fn wire(chunks: Seq<(Seq<u8>, Seq<u8>)>, last: Seq<u8>) -> Seq<u8>
    decreases chunks.len(),
{
    if chunks.len() == 0 {
        last + crlf() + crlf()
    } else {
        chunks[0].0 + crlf() + chunks[0].1 + crlf() + wire(chunks.drop_first(), last)
    }
}

/// The data of the chunks, one after the other.
pub open spec fn payload(chunks: Seq<(Seq<u8>, Seq<u8>)>) -> Seq<u8>
    decreases chunks.len(),
{
    if chunks.len() == 0 {
        Seq::empty()
    } else {
        chunks[0].1 + payload(chunks.drop_first())
    }
}

/// A well-formed chunked body decodes to the data of its chunks, and exactly the bytes of the body
/// are consumed.
pub proof fn well_formed_body_decodes(
    s: ChunkModel,
    chunks: Seq<(Seq<u8>, Seq<u8>)>,
    last: Seq<u8>,
    rest: Seq<u8>,
)
    requires
        s.cap is None,
        s.phase is Size,
        s.pending == wire(chunks, last) + rest,
        forall|i: int|
            0 <= i < chunks.len() ==> (#[trigger] chunks[i]).1.len() > 0 && announces(
                s.style,
                chunks[i].0,
                chunks[i].1.len() as int,
            ),
        announces(s.style, last, 0),
    ensures
        run(s) == (ChunkModel {
            phase: PhaseModel::Done,
            pending: rest,
            out: s.out + payload(chunks),
            ..s
        }),
    decreases chunks.len(),
{
    let p = s.pending;
    if chunks.len() == 0 {
        let k = last.len() as int;
        assert(p =~= (last + crlf()) + (crlf() + rest));
        found_survives_append(last + crlf(), crlf() + rest, crlf(), 0);
        assert(p.take(k) =~= last);
        let trailer = ChunkModel { phase: PhaseModel::Trailer, pending: p.skip(k + 2), ..s };
        assert(trailer.pending =~= crlf() + rest);
        assert(trailer.pending.subrange(0, 2) =~= crlf());
        assert(found(trailer.pending, crlf()) == Some(0int));
        assert(trailer.pending.skip(2) =~= rest);
        assert(run(s) == run(trailer));
        let done = ChunkModel { phase: PhaseModel::Done, pending: trailer.pending.skip(2), ..s };
        assert(run(done) == done);
        assert(run(trailer) == run(done));
        assert(s.out + payload(chunks) =~= s.out);
    } else {
        let line = chunks[0].0;
        let data = chunks[0].1;
        let k = line.len() as int;
        let n = data.len() as int;
        let tail = wire(chunks.drop_first(), last) + rest;
        assert(p =~= (line + crlf()) + (data + crlf() + tail));
        found_survives_append(line + crlf(), data + crlf() + tail, crlf(), 0);
        assert(p.take(k) =~= line);
        let s1 = ChunkModel { phase: PhaseModel::Data(n), pending: p.skip(k + 2), ..s };
        assert(s1.pending =~= data + crlf() + tail);
        assert(run(s) == run(s1));
        assert(s1.pending.take(n) =~= data);
        let s2 = ChunkModel {
            phase: PhaseModel::Terminator,
            pending: s1.pending.skip(n),
            out: s.out + data,
            ..s
        };
        assert(s2.pending =~= crlf() + tail);
        assert(run(s1) == run(s2));
        assert(s2.pending.take(2) =~= crlf());
        let s3 = ChunkModel {
            phase: PhaseModel::Size,
            pending: s2.pending.skip(2),
            out: s.out + data,
            ..s
        };
        assert(s3.pending =~= tail);
        assert(run(s2) == run(s3));
        well_formed_body_decodes(s3, chunks.drop_first(), last, rest);
        assert((s.out + data) + payload(chunks.drop_first()) =~= s.out + payload(chunks));
    }
}

/// The bytes that end a line.
fn line_end() -> (r: Vec<u8>)
    ensures
        r@ == crlf(),
{
    let mut r: Vec<u8> = Vec::new();
    r.push(13);
    r.push(10);
    r
}

/// The index of the first line end.
pub fn find_crlf(data: &Vec<u8>) -> (r: Option<usize>)
    ensures
        r is Some == found(data@, crlf()) is Some,
        r is Some ==> r->0 == found(data@, crlf())->0 && r->0 + 2 <= data.len(),
{
    find(data, &line_end())
}

impl ChunkError {
    /// The error as shown to users.
    pub fn message(&self, style: Style) -> (r: String)
        ensures
            r@ == chunk_error_text(self@, style),
    {
        match (self, style) {
            (ChunkError::Closed, Style::Streaming) => "peer closed connection mid-chunked-body".to_string(),
            (ChunkError::Closed, Style::Buffered) => "peer closed connection while reading response".to_string(),
            (ChunkError::LineTooLarge, _) => "chunk-size line too large".to_string(),
            (ChunkError::BadEncoding, _) => "invalid chunk-size line encoding".to_string(),
            (ChunkError::BadSize(_), Style::Streaming) => "invalid chunk size in response".to_string(),
            (ChunkError::BadSize(t), Style::Buffered) => {
                let mut r = "invalid chunk size: ".to_string();
                r.append(t.as_str());
                r
            },
            (ChunkError::BadTerminator, Style::Streaming) => "malformed chunk terminator".to_string(),
            (ChunkError::BadTerminator, Style::Buffered) => "invalid chunk terminator".to_string(),
        }
    }
}

/// The error as shown to users.
pub open spec fn chunk_error_text(e: ChunkErrorModel, style: Style) -> Seq<char> {
    match (e, style) {
        (ChunkErrorModel::Closed, Style::Streaming) => "peer closed connection mid-chunked-body"@,
        (ChunkErrorModel::Closed, Style::Buffered) => "peer closed connection while reading response"@,
        (ChunkErrorModel::LineTooLarge, _) => "chunk-size line too large"@,
        (ChunkErrorModel::BadEncoding, _) => "invalid chunk-size line encoding"@,
        (ChunkErrorModel::BadSize(_), Style::Streaming) => "invalid chunk size in response"@,
        (ChunkErrorModel::BadSize(t), Style::Buffered) => "invalid chunk size: "@ + t,
        (ChunkErrorModel::BadTerminator, Style::Streaming) => "malformed chunk terminator"@,
        (ChunkErrorModel::BadTerminator, Style::Buffered) => "invalid chunk terminator"@,
    }
}

impl ChunkedDecoder {
    /// A decoder before the first byte.
    pub fn new(style: Style, cap: Option<usize>) -> (r: ChunkedDecoder)
        ensures
            r@ == fresh(style, cap),
    {
        let r = ChunkedDecoder {
            phase: Phase::Size,
            pending: Vec::new(),
            out: Vec::new(),
            style,
            cap,
        };
        proof {
            assert(r.pending@ =~= Seq::<u8>::empty());
            assert(r.out@ =~= Seq::<u8>::empty());
        }
        r
    }

    /// Whether the decoder has nothing more to read.
    pub fn is_settled(&self) -> (r: bool)
        ensures
            r == settled(self@),
    {
        matches!(self.phase, Phase::Done | Phase::Failed(_))
    }

    /// Gives up with an error.
    fn give_up(&mut self, e: ChunkError)
        ensures
            final(self)@ == gave_up(old(self)@, e@),
    {
        self.phase = Phase::Failed(e);
        self.pending = Vec::new();
        proof {
            assert(self.pending@ =~= Seq::<u8>::empty());
        }
    }

    /// Hands over the first `n` pending bytes as payload.
    fn hand_over(&mut self, n: usize)
        requires
            n <= old(self).pending.len(),
        ensures
            final(self)@ == (ChunkModel {
                pending: old(self)@.pending.skip(n as int),
                out: with_piece(old(self)@.out, old(self)@.pending.take(n as int), old(self)@.cap),
                ..old(self)@
            }),
    {
        let keep: bool = match self.cap {
            Some(cap) => self.out.len() < cap,
            None => true,
        };
        if keep {
            append_range(&mut self.out, &self.pending, 0, n);
        }
        drop_front(&mut self.pending, n);
    }

    /// Reads a size line of `i` bytes; returns whether the decoder goes on.
    fn read_size(&mut self, i: usize) -> (go: bool)
        requires
            old(self).phase is Size,
            found(old(self).pending@, crlf()) == Some(i as int),
            i + 2 <= old(self).pending.len(),
        ensures
            run(final(self)@) == run(old(self)@),
            !go ==> final(self)@ == run(old(self)@),
            go ==> final(self).pending.len() < old(self).pending.len(),
            final(self).phase matches Phase::Data(n) ==> n > 0,
    {
        let line = range_of(&self.pending, 0, i);
        proof {
            assert(line@ =~= self.pending@.take(i as int));
        }
        let text: Option<String> = match self.style {
            Style::Streaming => text_of(line),
            Style::Buffered => Some(lossy_text_of(&line)),
        };
        match text {
            None => {
                self.give_up(ChunkError::BadEncoding);
                false
            },
            Some(text) => {
                let parts = split(text.as_str(), ';');
                let field = trim(parts[0].as_str());
                proof {
                    assert(crate::text::views(parts@)[0] == parts@[0]@);
                    assert(field@ == size_field(text@));
                    lemma_parsed_is_natural(field@, 16, usize::MAX as int);
                }
                match parse_number(field.as_str(), 16, usize::MAX as u64) {
                    None => {
                        self.give_up(ChunkError::BadSize(field));
                        false
                    },
                    Some(n) => {
                        drop_front(&mut self.pending, i + 2);
                        self.phase = if n == 0 {
                            Phase::Trailer
                        } else {
                            Phase::Data(n as usize)
                        };
                        true
                    },
                }
            },
        }
    }

    /// Decodes as far as the pending bytes allow.
    fn advance(&mut self)
        requires
            old(self).phase matches Phase::Data(n) ==> n > 0,
        ensures
            final(self)@ == run(old(self)@),
            final(self).phase matches Phase::Data(n) ==> n > 0,
    {
        let ghost target = run(self@);
        loop
            invariant
                run(self@) == target,
                self.phase matches Phase::Data(n) ==> n > 0,
            ensures
                self@ == target,
                self.phase matches Phase::Data(n) ==> n > 0,
            decreases self.pending.len(),
        {
            proof {
                lemma_found_from(self.pending@, crlf(), 0);
            }
            match self.phase {
                Phase::Size => {
                    match find_crlf(&self.pending) {
                        None => {
                            if self.style == Style::Streaming && self.pending.len()
                                > SIZE_LINE_LIMIT {
                                self.give_up(ChunkError::LineTooLarge);
                            }
                            break ;
                        },
                        Some(i) => {
                            if !self.read_size(i) {
                                break ;
                            }
                        },
                    }
                },
                Phase::Data(remaining) => {
                    let have: usize = self.pending.len();
                    if have == 0 {
                        break ;
                    }
                    if remaining <= have {
                        self.phase = Phase::Terminator;
                        self.hand_over(remaining);
                    } else {
                        self.phase = Phase::Data(remaining - have);
                        proof {
                            assert(self.pending@.take(have as int) =~= self.pending@);
                            assert(self.pending@.skip(have as int) =~= Seq::<u8>::empty());
                        }
                        self.hand_over(have);
                        break ;
                    }
                },
                Phase::Terminator => {
                    if self.pending.len() < 2 {
                        break ;
                    }
                    if self.pending[0] != 13 || self.pending[1] != 10 {
                        proof {
                            assert(self.pending@.take(2)[0] == self.pending@[0]);
                            assert(self.pending@.take(2)[1] == self.pending@[1]);
                        }
                        self.give_up(ChunkError::BadTerminator);
                        break ;
                    }
                    proof {
                        assert(self.pending@.take(2) =~= crlf());
                    }
                    drop_front(&mut self.pending, 2);
                    self.phase = Phase::Size;
                },
                Phase::Trailer => {
                    match find_crlf(&self.pending) {
                        None => {
                            break ;
                        },
                        Some(i) => {
                            drop_front(&mut self.pending, i + 2);
                            if i == 0 {
                                self.phase = Phase::Done;
                            }
                        },
                    }
                },
                Phase::Done => {
                    break ;
                },
                Phase::Failed(_) => {
                    break ;
                },
            }
        }
    }

    /// Whether the decoder waits for at least one payload byte wherever it waits for payload.
    pub open spec fn wf(&self) -> bool {
        self.phase matches Phase::Data(n) ==> n > 0
    }

    /// Takes the bytes of one read.
    pub fn feed(&mut self, more: &Vec<u8>)
        requires
            old(self).wf(),
        ensures
            final(self).wf(),
            final(self)@ == fed(old(self)@, more@),
    {
        match self.phase {
            Phase::Failed(_) => {},
            _ => {
                append_all(&mut self.pending, more);
                self.advance();
            },
        }
    }

    /// Takes the end of the connection.
    pub fn end(&mut self)
        requires
            old(self).wf(),
        ensures
            final(self).wf(),
            final(self)@ == ended(old(self)@),
            settled(final(self)@),
    {
        if !self.is_settled() {
            self.give_up(ChunkError::Closed);
        }
    }

    /// The decoded body, or why there is none.
    pub fn outcome(self) -> (r: Result<Vec<u8>, ChunkError>)
        requires
            settled(self@),
        ensures
            chunk_outcome(self@) == (match r {
                Ok(v) => Ok::<Seq<u8>, ChunkErrorModel>(v@),
                Err(e) => Err(e@),
            }),
    {
        match self.phase {
            Phase::Failed(e) => Err(e),
            _ => Ok(self.out),
        }
    }
}

/// What a settled decoder gives.
pub open spec fn chunk_outcome(s: ChunkModel) -> Result<Seq<u8>, ChunkErrorModel> {
    match s.phase {
        PhaseModel::Failed(e) => Err(e),
        _ => Ok(s.out),
    }
}

/// A decoder that has read a connection to its end, at most `block` bytes at a time.
pub open spec fn read_all(s: ChunkModel, rest: Seq<u8>, block: int) -> ChunkModel
    decreases rest.len(),
{
    if settled(s) {
        s
    } else if rest.len() == 0 || block <= 0 {
        ended(s)
    } else if rest.len() <= block {
        let t = fed(s, rest);
        ended(t)
    } else {
        read_all(fed(s, rest.take(block)), rest.skip(block), block)
    }
}

/// Decodes a streamed chunked body from the bytes already read and those still on the connection,
/// which are read at most sixteen kibibytes at a time.
pub fn stream_chunked_body(rest: &Vec<u8>, pending: &Vec<u8>) -> (r: Result<Vec<u8>, ChunkError>)
    ensures
        (match r {
            Ok(v) => Ok::<Seq<u8>, ChunkErrorModel>(v@),
            Err(e) => Err(e@),
        }) == chunk_outcome(
            read_all(fed(fresh(Style::Streaming, None), pending@), rest@, 16384),
        ),
{
    let mut d = ChunkedDecoder::new(Style::Streaming, None);
    d.feed(pending);
    let ghost target = read_all(d@, rest@, 16384);
    let mut at: usize = 0;
    proof {
        assert(rest@.skip(0) =~= rest@);
    }
    while at < rest.len() && !d.is_settled()
        invariant
            d.wf(),
            at <= rest.len(),
            read_all(d@, rest@.skip(at as int), 16384) == target,
        decreases rest.len() - at,
    {
        let left: usize = rest.len() - at;
        let n: usize = if left <= 16384 {
            left
        } else {
            16384
        };
        let block = range_of(rest, at, at + n);
        let ghost r0 = rest@.skip(at as int);
        d.feed(&block);
        proof {
            assert(block@ =~= r0.take(n as int));
            assert(rest@.skip(at + n) =~= r0.skip(n as int));
            if left <= 16384 {
                assert(block@ =~= r0);
                assert(rest@.skip(at + n).len() == 0);
                assert(read_all(d@, rest@.skip(at + n), 16384) == ended(d@));
            }
        }
        at = at + n;
    }
    proof {
        if !settled(d@) {
            assert(rest@.skip(at as int).len() == 0);
        }
    }
    d.end();
    d.outcome()
}

} // verus!
