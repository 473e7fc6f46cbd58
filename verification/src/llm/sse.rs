//! Server-sent events: bytes in, data frames out.

use crate::json::{json_text, parse_json, parsed, rendered, Json, JsonView};
use crate::llm::types::{delta_views, opt_delta, Delta, DeltaView};
use crate::text::{behind, cat2, cat3, ends, starts, str_eq, strip_prefix, trim_start, trimmed_start};
use vstd::prelude::*;
use vstd::utf8::*;

verus! {

/// The longest line, its newline included, in bytes.
pub const MAX_LINE_BYTES: usize = 1_048_576;

#[derive(Debug, PartialEq, Eq)]
pub enum SseFrame {
    /// The payload behind `data:`.
    Data(String),
    /// `data: [DONE]`.
    Done,
    /// A line that is too long, or not UTF-8.
    Invalid(String),
}

pub enum FrameView {
    Data(Seq<char>),
    Done,
    Invalid(Seq<char>),
}

impl View for SseFrame {
    type V = FrameView;

    open spec fn view(&self) -> FrameView {
        match *self {
            SseFrame::Data(text) => FrameView::Data(text@),
            SseFrame::Done => FrameView::Done,
            SseFrame::Invalid(text) => FrameView::Invalid(text@),
        }
    }
}

pub open spec fn frame_views(frames: Seq<SseFrame>) -> Seq<FrameView> {
    frames.map_values(|f: SseFrame| f@)
}

/// Why bytes are not UTF-8, in the words of `std`'s `FromUtf8Error`.
pub uninterp spec fn utf8_error(bytes: Seq<u8>) -> Seq<char>;

/// `String::from_utf8`: the text that the bytes encode, or the reason why they
/// encode none.
#[verifier::external_body]
pub(crate) fn decode(bytes: Vec<u8>) -> (r: Result<String, String>)
    ensures
        match r {
            Ok(text) => valid_utf8(bytes@) && text@ == decode_utf8(bytes@),
            Err(e) => !valid_utf8(bytes@) && e@ == utf8_error(bytes@),
        },
{
    String::from_utf8(bytes).map_err(|error| error.to_string())
}

/// What a line of text says: blank lines, comments and fields other than
/// `data:` say nothing.
pub open spec fn text_frame(line: Seq<char>) -> Option<FrameView> {
    if line.len() == 0 || starts(line, ":"@) {
        None
    } else {
        match behind(line, "data:"@) {
            None => None,
            Some(rest) => if trimmed_start(rest) == "[DONE]"@ {
                Some(FrameView::Done)
            } else {
                Some(FrameView::Data(trimmed_start(rest)))
            },
        }
    }
}

/// What a line of bytes says.
pub open spec fn line_frame(line: Seq<u8>) -> Option<FrameView> {
    if valid_utf8(line) {
        text_frame(decode_utf8(line))
    } else {
        Some(FrameView::Invalid("sse invalid utf-8: "@ + utf8_error(line)))
    }
}

pub open spec fn opt_frame(frame: Option<SseFrame>) -> Option<FrameView> {
    match frame {
        Some(f) => Some(f@),
        None => None,
    }
}

fn parse_line(line: &str) -> (r: Option<SseFrame>)
    ensures
        opt_frame(r) == text_frame(line@),
{
    if line.is_empty() || crate::text::starts_with(line, ":") {
        return None;
    }
    match strip_prefix(line, "data:") {
        None => None,
        Some(rest) => {
            let data = trim_start(rest.as_str());
            if str_eq(data.as_str(), "[DONE]") {
                Some(SseFrame::Done)
            } else {
                Some(SseFrame::Data(data))
            }
        },
    }
}

fn parse_bytes(line: Vec<u8>) -> (r: Option<SseFrame>)
    ensures
        opt_frame(r) == line_frame(line@),
{
    match decode(line) {
        Ok(text) => parse_line(text.as_str()),
        Err(e) => Some(SseFrame::Invalid(cat2("sse invalid utf-8: ", e.as_str()))),
    }
}

/// Reads a stream of bytes in pieces of any size.
#[derive(Debug)]
pub struct SseParser {
    pending: Vec<u8>,
    failed: bool,
}

/// The bytes of the line that is not yet complete, and whether a line was too
/// long: nothing is read after that.
#[verifier::ext_equal]
pub struct ParserView {
    pub pending: Seq<u8>,
    pub failed: bool,
}

impl View for SseParser {
    type V = ParserView;

    closed spec fn view(&self) -> ParserView {
        ParserView { pending: self.pending@, failed: self.failed }
    }
}

/// A parser's state after some bytes, and the frames they gave.
#[verifier::ext_equal]
pub struct Fed {
    pub parser: ParserView,
    pub frames: Seq<FrameView>,
}

/// A line without its newline and the carriage return in front of it.
pub open spec fn without_newline(line: Seq<u8>) -> Seq<u8> {
    let body = line.drop_last();
    if body.len() > 0 && body.last() == 13 {
        body.drop_last()
    } else {
        body
    }
}

pub open spec fn opt_seq<A>(value: Option<A>) -> Seq<A> {
    match value {
        Some(v) => seq![v],
        None => Seq::empty(),
    }
}

/// One byte more.
pub open spec fn fed_byte(parser: ParserView, byte: u8) -> Fed {
    if parser.failed {
        Fed { parser, frames: Seq::empty() }
    } else if parser.pending.len() + 1 > MAX_LINE_BYTES {
        Fed {
            parser: ParserView { pending: Seq::empty(), failed: true },
            frames: seq![FrameView::Invalid("sse line exceeded 1048576 byte limit"@)],
        }
    } else if byte == 10 {
        Fed {
            parser: ParserView { pending: Seq::empty(), failed: false },
            frames: opt_seq(line_frame(without_newline(parser.pending.push(byte)))),
        }
    } else {
        Fed {
            parser: ParserView { pending: parser.pending.push(byte), failed: false },
            frames: Seq::empty(),
        }
    }
}

/// The bytes one after the other.
pub open spec fn fed(parser: ParserView, bytes: Seq<u8>) -> Fed
    decreases bytes.len(),
{
    if bytes.len() == 0 {
        Fed { parser, frames: Seq::empty() }
    } else {
        let head = fed(parser, bytes.drop_last());
        let last = fed_byte(head.parser, bytes.last());
        Fed { parser: last.parser, frames: head.frames + last.frames }
    }
}

/// A line without the newlines and carriage returns at its end.
pub open spec fn without_line_ends(line: Seq<u8>) -> Seq<u8>
    decreases line.len(),
{
    if line.len() > 0 && (line.last() == 13 || line.last() == 10) {
        without_line_ends(line.drop_last())
    } else {
        line
    }
}

/// The frame that the last, unfinished line gives.
pub open spec fn finished(parser: ParserView) -> Seq<FrameView> {
    if parser.failed {
        Seq::empty()
    } else {
        opt_seq(line_frame(without_line_ends(parser.pending)))
    }
}

impl SseParser {
    pub fn new() -> (r: SseParser)
        ensures
            r@ == (ParserView { pending: Seq::empty(), failed: false }),
    {
        SseParser { pending: Vec::new(), failed: false }
    }

    /// How many bytes of an unfinished line are held.
    pub fn pending_len(&self) -> (r: usize)
        ensures
            r == self@.pending.len(),
    {
        self.pending.len()
    }

    fn feed_byte(&mut self, byte: u8, frames: &mut Vec<SseFrame>)
        ensures
            final(self)@ == fed_byte(old(self)@, byte).parser,
            frame_views(final(frames)@) == frame_views(old(frames)@) + fed_byte(
                old(self)@,
                byte,
            ).frames,
    {
        let ghost before = frames@;
        if self.failed {
            assert(frame_views(before) =~= frame_views(before) + Seq::empty());
            return;
        }
        if self.pending.len() >= MAX_LINE_BYTES {
            self.pending = Vec::new();
            self.failed = true;
            let frame = SseFrame::Invalid("sse line exceeded 1048576 byte limit".to_owned());
            let ghost shown = frame@;
            frames.push(frame);
            assert(frame_views(frames@) =~= frame_views(before) + seq![shown]);
            return;
        }
        self.pending.push(byte);
        if byte == 10 {
            let mut line: Vec<u8> = Vec::new();
            std::mem::swap(&mut line, &mut self.pending);
            let ghost whole = line@;
            line.pop();
            if line.len() > 0 && line[line.len() - 1] == 13 {
                line.pop();
            }
            assert(line@ =~= without_newline(whole));
            match parse_bytes(line) {
                Some(frame) => {
                    let ghost shown = frame@;
                    frames.push(frame);
                    assert(frame_views(frames@) =~= frame_views(before) + seq![shown]);
                },
                None => {
                    assert(frame_views(before) =~= frame_views(before) + Seq::empty());
                },
            }
        } else {
            assert(frame_views(before) =~= frame_views(before) + Seq::empty());
        }
    }

    /// Takes a piece of the stream and hands out the frames that it completes.
    pub fn feed(&mut self, chunk: &[u8]) -> (r: Vec<SseFrame>)
        ensures
            fed(old(self)@, chunk@) == (Fed { parser: final(self)@, frames: frame_views(r@) }),
    {
        let mut frames: Vec<SseFrame> = Vec::new();
        let mut i: usize = 0;
        assert(frame_views(frames@) =~= Seq::<FrameView>::empty());
        while i < chunk.len()
            invariant
                i <= chunk@.len(),
                fed(old(self)@, chunk@.take(i as int)) == (Fed {
                    parser: self@,
                    frames: frame_views(frames@),
                }),
            decreases chunk@.len() - i,
        {
            assert(chunk@.take(i + 1).drop_last() =~= chunk@.take(i as int));
            self.feed_byte(chunk[i], &mut frames);
            i = i + 1;
        }
        assert(chunk@.take(i as int) =~= chunk@);
        frames
    }

    /// The stream has ended: the line that was not completed counts as one.
    pub fn finish(&mut self) -> (r: Vec<SseFrame>)
        ensures
            frame_views(r@) == finished(old(self)@),
            final(self)@ == (if old(self)@.failed {
                old(self)@
            } else {
                ParserView { pending: Seq::empty(), failed: false }
            }),
    {
        let mut frames: Vec<SseFrame> = Vec::new();
        assert(frame_views(frames@) =~= Seq::<FrameView>::empty());
        if self.failed {
            return frames;
        }
        let mut line: Vec<u8> = Vec::new();
        std::mem::swap(&mut line, &mut self.pending);
        let ghost whole = line@;
        while line.len() > 0 && (line[line.len() - 1] == 13 || line[line.len() - 1] == 10)
            invariant
                without_line_ends(line@) == without_line_ends(whole),
            decreases line@.len(),
        {
            line.pop();
        }
        if let Some(frame) = parse_bytes(line) {
            let ghost shown = frame@;
            frames.push(frame);
            assert(frame_views(frames@) =~= seq![shown]);
        }
        frames
    }
}

/// How a stream was cut into pieces makes no difference: two pieces give the
/// frames, and leave the state, that they give as one.
pub proof fn law_chunk_boundaries_do_not_matter(parser: ParserView, a: Seq<u8>, b: Seq<u8>)
    ensures
        fed(parser, a + b) == (Fed {
            parser: fed(fed(parser, a).parser, b).parser,
            frames: fed(parser, a).frames + fed(fed(parser, a).parser, b).frames,
        }),
    decreases b.len(),
{
    if b.len() == 0 {
        assert(a + b =~= a);
    } else {
        law_chunk_boundaries_do_not_matter(parser, a, b.drop_last());
        assert((a + b).drop_last() =~= a + b.drop_last());
        assert((a + b).last() == b.last());
    }
}

/// A line that is too long fails once: the payload is dropped, and nothing that
/// follows is read.
pub proof fn law_failed_parser_stays_silent(parser: ParserView, bytes: Seq<u8>)
    requires
        parser.failed,
    ensures
        fed(parser, bytes) == (Fed { parser, frames: Seq::empty() }),
        finished(parser) == Seq::<FrameView>::empty(),
    decreases bytes.len(),
{
    if bytes.len() > 0 {
        law_failed_parser_stays_silent(parser, bytes.drop_last());
    }
}

/// A parser never holds more than one line's worth of bytes.
pub proof fn law_pending_is_bounded(parser: ParserView, bytes: Seq<u8>)
    requires
        parser.pending.len() <= MAX_LINE_BYTES,
    ensures
        fed(parser, bytes).parser.pending.len() <= MAX_LINE_BYTES,
    decreases bytes.len(),
{
    if bytes.len() > 0 {
        law_pending_is_bounded(parser, bytes.drop_last());
    }
}

/// What one frame is to a protocol: nothing, an event, or its last one.
#[derive(Debug)]
pub enum Projection {
    Ignore,
    Delta(Delta),
    Complete(Option<Delta>),
}

pub enum ProjectionView {
    Ignore,
    Delta(DeltaView),
    Complete(Option<DeltaView>),
}

impl View for Projection {
    type V = ProjectionView;

    open spec fn view(&self) -> ProjectionView {
        match *self {
            Projection::Ignore => ProjectionView::Ignore,
            Projection::Delta(d) => ProjectionView::Delta(d@),
            Projection::Complete(d) => ProjectionView::Complete(opt_delta(d)),
        }
    }
}

/// The events that wait to be handed out, and whether the stream is over.
#[derive(Debug)]
pub struct DeltaQueue {
    pub queued: Vec<Delta>,
    pub finished: bool,
}

#[verifier::ext_equal]
pub struct QueueView {
    pub queued: Seq<DeltaView>,
    pub finished: bool,
}

impl View for DeltaQueue {
    type V = QueueView;

    open spec fn view(&self) -> QueueView {
        QueueView { queued: delta_views(self.queued@), finished: self.finished }
    }
}

impl QueueView {
    /// What a protocol made of one frame. Nothing counts once the stream is
    /// over; only an explicit completion ends it well.
    pub open spec fn projected(self, p: ProjectionView) -> QueueView {
        if self.finished {
            self
        } else {
            match p {
                ProjectionView::Ignore => self,
                ProjectionView::Delta(d) => QueueView { queued: self.queued.push(d), ..self },
                ProjectionView::Complete(d) => QueueView {
                    queued: (self.queued + opt_seq(d)).push(DeltaView::Done),
                    finished: true,
                },
            }
        }
    }

    /// The stream broke.
    pub open spec fn broken(self, error: Seq<char>) -> QueueView {
        if self.finished {
            self
        } else {
            QueueView { queued: self.queued.push(DeltaView::Error(error)), finished: true }
        }
    }
}

impl DeltaQueue {
    pub fn new() -> (r: DeltaQueue)
        ensures
            r@ == (QueueView { queued: Seq::empty(), finished: false }),
    {
        let r = DeltaQueue { queued: Vec::new(), finished: false };
        assert(r@.queued =~= Seq::<DeltaView>::empty());
        r
    }

    pub(crate) fn push(&mut self, delta: Delta)
        ensures
            final(self)@ == (QueueView { queued: old(self)@.queued.push(delta@), ..old(self)@ }),
    {
        let ghost before = self.queued@;
        let ghost d = delta@;
        self.queued.push(delta);
        assert(delta_views(self.queued@) =~= delta_views(before).push(d));
    }

    pub fn project(&mut self, projection: Projection)
        ensures
            final(self)@ == old(self)@.projected(projection@),
    {
        if self.finished {
            return;
        }
        match projection {
            Projection::Ignore => {},
            Projection::Delta(delta) => self.push(delta),
            Projection::Complete(delta) => {
                match delta {
                    Some(delta) => {
                        let ghost d = delta@;
                        self.push(delta);
                        assert(self@.queued =~= old(self)@.queued + seq![d]);
                    },
                    None => {
                        assert(self@.queued =~= old(self)@.queued + Seq::empty());
                    },
                }
                self.push(Delta::Done);
                self.finished = true;
            },
        }
    }

    /// A frame that could not be read, or any other failure, ends the stream.
    pub fn fail(&mut self, error: String)
        ensures
            final(self)@ == old(self)@.broken(error@),
    {
        if self.finished {
            return;
        }
        self.push(Delta::Error(error));
        self.finished = true;
    }

    /// The transport failed.
    pub fn on_read_error(&mut self, error: &str)
        ensures
            final(self)@ == old(self)@.broken("sse read: "@ + error@),
    {
        let text = cat2("sse read: ", error);
        self.fail(text);
    }

    /// The transport ended, and the protocol has not.
    pub fn on_end(&mut self)
        ensures
            final(self)@ == old(self)@.broken("sse stream ended before protocol completion"@),
    {
        self.fail("sse stream ended before protocol completion".to_owned());
    }
}

/// A stream that ends without an explicit completion ends in an error: a
/// truncated answer is never taken for a whole one.
pub proof fn law_end_without_completion_is_an_error(queue: QueueView)
    requires
        !queue.finished,
    ensures
        ({
            let after = queue.broken("sse stream ended before protocol completion"@);
            &&& after.finished
            &&& after.queued.last() is Error
            &&& after.queued.drop_last() == queue.queued
        }),
{
    let after = queue.broken("sse stream ended before protocol completion"@);
    assert(after.queued.drop_last() =~= queue.queued);
}

/// After the stream is over nothing is added to it.
pub proof fn law_finished_stream_is_closed(queue: QueueView, p: ProjectionView, error: Seq<char>)
    requires
        queue.finished,
    ensures
        queue.projected(p) == queue,
        queue.broken(error) == queue,
{
}

/// The error that a payload carries: under `error`, or under
/// `response.error`.
pub open spec fn error_value(value: JsonView) -> Option<JsonView> {
    match value.get("error"@) {
        Some(e) => Some(e),
        None => match value.get("response"@) {
            Some(response) => response.get("error"@),
            None => None,
        },
    }
}

pub open spec fn opt_text(value: Option<JsonView>) -> Option<Seq<char>> {
    match value {
        Some(v) => v.text(),
        None => None,
    }
}

/// The kind of an error: its `type`, or its `code` where it has no `type`.
pub open spec fn error_kind(error: JsonView) -> Option<Seq<char>> {
    opt_text(
        match error.get("type"@) {
            Some(kind) => Some(kind),
            None => error.get("code"@),
        },
    )
}

/// What an error says: its `message`, or itself where it is a text.
pub open spec fn error_message(error: JsonView) -> Option<Seq<char>> {
    match opt_text(error.get("message"@)) {
        Some(message) => Some(message),
        None => error.text(),
    }
}

pub open spec fn error_detail(error: JsonView) -> Seq<char> {
    match (error_kind(error), error_message(error)) {
        (Some(kind), Some(message)) => kind + " - "@ + message,
        (None, Some(message)) => message,
        _ => rendered(error),
    }
}

/// The error that an application puts into a payload, if any, in words.
pub open spec fn payload_error_of(provider: Seq<char>, payload: Result<JsonView, Seq<char>>) -> Option<Seq<char>> {
    match payload {
        Err(_) => None,
        Ok(value) => match error_value(value) {
            None => None,
            Some(error) => Some(provider + " stream error: "@ + error_detail(error)),
        },
    }
}

pub fn error_in(provider: &str, value: &Json) -> (r: Option<String>)
    ensures
        crate::text::opt_view(r) == payload_error_of(provider@, Ok(value@)),
{
    let error = match value.get("error") {
        Some(error) => error,
        None => match value.get("response") {
            Some(response) => match response.get("error") {
                Some(error) => error,
                None => return None,
            },
            None => return None,
        },
    };
    let kind_value = match error.get("type") {
        Some(kind) => Some(kind),
        None => error.get("code"),
    };
    let kind = match kind_value {
        Some(kind) => kind.as_str(),
        None => None,
    };
    let named = match error.get("message") {
        Some(message) => message.as_str(),
        None => None,
    };
    let message = match named {
        Some(message) => Some(message),
        None => error.as_str(),
    };
    let detail = match message {
        Some(message) => match kind {
            Some(kind) => cat3(kind.as_str(), " - ", message.as_str()),
            None => message.clone(),
        },
        None => json_text(error),
    };
    Some(cat3(provider, " stream error: ", detail.as_str()))
}

/// The error that an SSE payload carries, if it is JSON and carries one.
pub fn payload_error(provider: &str, data: &str) -> (r: Option<String>)
    ensures
        crate::text::opt_view(r) == payload_error_of(provider@, parsed(data@)),
{
    match parse_json(data) {
        Ok(value) => error_in(provider, &value),
        Err(_) => None,
    }
}

proof fn lemma_pending_line(line: Seq<u8>)
    requires
        forall|i: int| 0 <= i < line.len() ==> #[trigger] line[i] != 10,
        line.len() < MAX_LINE_BYTES,
    ensures
        fed((ParserView { pending: Seq::empty(), failed: false }), line) == (Fed {
            parser: ParserView { pending: line, failed: false },
            frames: Seq::empty(),
        }),
    decreases line.len(),
{
    let fresh = ParserView { pending: Seq::empty(), failed: false };
    if line.len() == 0 {
        assert(line =~= Seq::<u8>::empty());
    } else {
        let init = line.drop_last();
        lemma_pending_line(init);
        assert(init.push(line.last()) =~= line);
        assert(fed(fresh, line).frames =~= Seq::<FrameView>::empty());
    }
}

/// A line becomes the frame that it holds, once its end has come: what stands in it
/// before the newline, and before a carriage return in front of that. Nothing is
/// left over.
pub proof fn law_each_line_is_a_frame(line: Seq<u8>)
    requires
        forall|i: int| 0 <= i < line.len() ==> #[trigger] line[i] != 10,
        line.len() < MAX_LINE_BYTES,
    ensures
        ({
            let fresh = ParserView { pending: Seq::empty(), failed: false };
            let body = if line.len() > 0 && line.last() == 13 {
                line.drop_last()
            } else {
                line
            };
            &&& fed(fresh, line).frames.len() == 0
            &&& fed(fresh, line.push(10)).parser == fresh
            &&& fed(fresh, line.push(10)).frames == (match line_frame(body) {
                Some(frame) => seq![frame],
                None => Seq::empty(),
            })
        }),
{
    let fresh = ParserView { pending: Seq::empty(), failed: false };
    lemma_pending_line(line);
    let whole = line.push(10);
    assert(whole.drop_last() =~= line);
    assert(fed(fresh, whole).frames =~= fed_byte(fed(fresh, line).parser, 10).frames);
}

/// What stands behind `data:` is a frame's data, without the white space before
/// it; the end mark is one of its own. Comments, empty lines and all others say
/// nothing.
pub proof fn law_data_lines_are_data(rest: Seq<char>)
    ensures
        trimmed_start(rest) != "[DONE]"@ ==> text_frame("data:"@ + rest) == Some(
            FrameView::Data(trimmed_start(rest)),
        ),
        trimmed_start(rest) == "[DONE]"@ ==> text_frame("data:"@ + rest) == Some(FrameView::Done),
        text_frame(":"@ + rest) is None,
        !starts(rest, "data:"@) ==> text_frame(rest) is None,
{
    reveal_strlit("data:");
    reveal_strlit(":");
    let line = "data:"@ + rest;
    assert(line.subrange(0, 5) =~= "data:"@);
    assert(line.subrange(5, line.len() as int) =~= rest);
    assert(line.subrange(0, 1)[0] == 'd');
    assert(":"@[0] == ':');
    let comment = ":"@ + rest;
    assert(comment.subrange(0, 1) =~= ":"@);
}

/// Bytes that are no UTF-8 are an invalid frame, never data.
pub proof fn law_broken_bytes_are_invalid(line: Seq<u8>)
    ensures
        valid_utf8(line) ==> line_frame(line) == text_frame(decode_utf8(line)),
        !valid_utf8(line) ==> (line_frame(line) matches Some(FrameView::Invalid(e)) && ends(
            e,
            utf8_error(line),
        )),
{
    let head = "sse invalid utf-8: "@;
    let e = head + utf8_error(line);
    assert(e.subrange(e.len() - utf8_error(line).len(), e.len() as int) =~= utf8_error(line));
}

/// What a frame is to the stream is queued behind what came before: a delta as it
/// is, and the end as the usage that came with it and `Done`.
pub proof fn law_projections_are_queued(queue: QueueView, delta: DeltaView, usage: DeltaView)
    requires
        !queue.finished,
    ensures
        queue.projected(ProjectionView::Ignore) == queue,
        queue.projected(ProjectionView::Delta(delta)).queued == queue.queued.push(delta),
        !queue.projected(ProjectionView::Delta(delta)).finished,
        queue.projected(ProjectionView::Complete(None)).queued == queue.queued.push(
            DeltaView::Done,
        ),
        queue.projected(ProjectionView::Complete(Some(usage))).queued == queue.queued.push(
            usage,
        ).push(DeltaView::Done),
        queue.projected(ProjectionView::Complete(None)).finished,
        queue.projected(ProjectionView::Complete(Some(usage))).finished,
{
    assert(queue.queued + Seq::<DeltaView>::empty() =~= queue.queued);
    assert((queue.queued + seq![usage]) =~= queue.queued.push(usage));
}

/// An error in a payload is told, with its type or code and its message, whether
/// it stands at the top or in the response. A payload without one is none.
pub proof fn law_payload_errors_are_told(provider: Seq<char>, value: JsonView)
    ensures
        ({
            let inner = match value.get("response"@) {
                Some(response) => response.get("error"@),
                None => None,
            };
            let told = payload_error_of(provider, Ok(value));
            let error = if value.get("error"@) is Some {
                value.get("error"@)
            } else {
                inner
            };
            &&& told is None <==> error is None
            &&& error matches Some(e) ==> {
                &&& e.text_under("message"@) matches Some(message) ==> ends(told->0, message)
                &&& e.text_under("message"@) is Some && e.text_under("type"@) is Some ==> told->0
                    == provider + " stream error: "@ + (e.text_under("type"@)->0 + " - "@
                    + e.text_under("message"@)->0)
                &&& e.get("type"@) is None && e.text_under("message"@) is Some && e.text_under(
                    "code"@,
                ) is Some ==> told->0 == provider + " stream error: "@ + (e.text_under("code"@)->0
                    + " - "@ + e.text_under("message"@)->0)
                &&& e matches JsonView::Str(text) ==> ends(told->0, text)
                &&& starts(told->0, provider)
            }
        }),
        payload_error_of(provider, Err(provider)) is None,
{
    if let Some(e) = error_value(value) {
        let told = provider + " stream error: "@ + error_detail(e);
        assert(told.subrange(0, provider.len() as int) =~= provider);
        if let Some(message) = e.text_under("message"@) {
            assert(error_message(e) == Some(message));
            assert(told.subrange(told.len() - message.len(), told.len() as int) =~= message);
        }
        if let JsonView::Str(text) = e {
            assert(told.subrange(told.len() - text.len(), told.len() as int) =~= text);
        }
    }
}

} // verus!
