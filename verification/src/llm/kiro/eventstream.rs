//! Binary frames of an event stream. A frame is its total length, the length of
//! its headers, a checksum of these two, the headers, a payload of JSON and a
//! checksum of all before it; numbers are big-endian.

use crate::json::{parse_json, parsed, read_view, Json, JsonView};
use crate::llm::sse::decode;
use crate::text::{cat2, decimal, decimal_of, str_eq, trim, trimmed};
use vstd::prelude::*;
use vstd::string::*;
use vstd::utf8::*;

verus! {

pub const MAX_MESSAGE_BYTES: usize = 25_165_824;

pub const MAX_HEADERS_BYTES: usize = 131_072;

/// Two lengths and their checksum.
pub const PRELUDE_BYTES: usize = 12;

pub const CRC_BYTES: usize = 4;

/// One step of the reflected CRC-32 of IEEE 802.3.
pub open spec fn crc_bit(c: u32) -> u32 {
    if c & 1 != 0 {
        0xEDB8_8320u32 ^ (c >> 1)
    } else {
        c >> 1
    }
}

pub open spec fn crc_bits(c: u32, n: nat) -> u32
    decreases n,
{
    if n == 0 {
        c
    } else {
        crc_bit(crc_bits(c, (n - 1) as nat))
    }
}

/// The register after some bytes, from all ones on.
pub open spec fn crc_register(bytes: Seq<u8>) -> u32
    decreases bytes.len(),
{
    if bytes.len() == 0 {
        0xFFFF_FFFFu32
    } else {
        crc_bits(crc_register(bytes.drop_last()) ^ (bytes.last() as u32), 8)
    }
}

/// The checksum of some bytes.
pub open spec fn checksum(bytes: Seq<u8>) -> u32 {
    crc_register(bytes) ^ 0xFFFF_FFFFu32
}

/// The checksum of the first `to` bytes.
pub fn crc32(bytes: &[u8], to: usize) -> (r: u32)
    requires
        to <= bytes@.len(),
    ensures
        r == checksum(bytes@.take(to as int)),
{
    let mut crc: u32 = 0xFFFF_FFFFu32;
    let mut i: usize = 0;
    assert(bytes@.take(0) =~= Seq::<u8>::empty());
    while i < to
        invariant
            i <= to <= bytes@.len(),
            crc == crc_register(bytes@.take(i as int)),
        decreases to - i,
    {
        assert(bytes@.take(i + 1).drop_last() =~= bytes@.take(i as int));
        let start: u32 = crc ^ (bytes[i] as u32);
        let mut c: u32 = start;
        let mut k: usize = 0;
        while k < 8
            invariant
                k <= 8,
                c == crc_bits(start, k as nat),
            decreases 8 - k,
        {
            c = if c & 1 != 0 {
                0xEDB8_8320u32 ^ (c >> 1)
            } else {
                c >> 1
            };
            k = k + 1;
        }
        crc = c;
        i = i + 1;
    }
    crc ^ 0xFFFF_FFFFu32
}

pub open spec fn be32(bytes: Seq<u8>, at: int) -> int {
    bytes[at] * 0x100_0000 + bytes[at + 1] * 0x1_0000 + bytes[at + 2] * 0x100 + bytes[at + 3]
}

fn be_u32(bytes: &[u8], at: usize) -> (r: u32)
    requires
        at + 4 <= bytes@.len(),
    ensures
        r == be32(bytes@, at as int),
{
    let a: u32 = bytes[at] as u32;
    let b: u32 = bytes[at + 1] as u32;
    let c: u32 = bytes[at + 2] as u32;
    let d: u32 = bytes[at + 3] as u32;
    a * 0x100_0000 + b * 0x1_0000 + c * 0x100 + d
}

pub open spec fn be16(bytes: Seq<u8>, at: int) -> int {
    bytes[at] * 0x100 + bytes[at + 1]
}

fn copy_range(bytes: &[u8], from: usize, to: usize) -> (r: Vec<u8>)
    requires
        from <= to <= bytes@.len(),
    ensures
        r@ == bytes@.subrange(from as int, to as int),
{
    let mut out: Vec<u8> = Vec::new();
    let mut i: usize = from;
    while i < to
        invariant
            from <= i <= to <= bytes@.len(),
            out@ == bytes@.subrange(from as int, i as int),
        decreases to - i,
    {
        out.push(bytes[i]);
        i = i + 1;
    }
    out
}

/// What a frame says: the headers that matter and the payload.
#[derive(Debug)]
pub struct Event {
    pub message_type: String,
    pub event_type: String,
    pub error_code: String,
    pub payload: Option<Json>,
}

#[verifier::ext_equal]
pub struct EventView {
    pub message_type: Seq<char>,
    pub event_type: Seq<char>,
    pub error_code: Seq<char>,
    pub payload: Option<JsonView>,
}

impl View for Event {
    type V = EventView;

    open spec fn view(&self) -> EventView {
        EventView {
            message_type: self.message_type@,
            event_type: self.event_type@,
            error_code: self.error_code@,
            payload: match self.payload {
                Some(value) => Some(value@),
                None => None,
            },
        }
    }
}

pub open spec fn event_views(events: Seq<Event>) -> Seq<EventView> {
    events.map_values(|e: Event| e@)
}

/// A text in a frame.
pub open spec fn text_in(bytes: Seq<u8>) -> Option<Seq<char>> {
    if valid_utf8(bytes) {
        Some(decode_utf8(bytes))
    } else {
        None
    }
}

pub open spec fn out_of_bounds() -> Seq<char> {
    "kiro eventstream header exceeds its declared bounds"@
}

/// The name of the header at `at`, and where its value begins.
pub open spec fn name_at(frame: Seq<u8>, at: int, end: int) -> Result<(Seq<char>, int), Seq<char>> {
    if at + 1 > end || at + 1 + frame[at] > end {
        Err(out_of_bounds())
    } else {
        match text_in(frame.subrange(at + 1, at + 1 + frame[at])) {
            Some(name) => Ok((name, at + 1 + frame[at])),
            None => Err("kiro eventstream header name is not UTF-8"@),
        }
    }
}

/// The size of a value of a fixed size, by its kind.
pub open spec fn fixed_size(kind: u8) -> Option<int> {
    if kind == 0 || kind == 1 {
        Some(0)
    } else if kind == 2 {
        Some(1)
    } else if kind == 3 {
        Some(2)
    } else if kind == 4 {
        Some(4)
    } else if kind == 5 || kind == 8 {
        Some(8)
    } else if kind == 9 {
        Some(16)
    } else {
        None
    }
}

/// The value at `at`, and where the next header begins. Only texts are read;
/// every other value is skipped and counts as empty.
pub open spec fn value_at(frame: Seq<u8>, at: int, end: int) -> Result<(Seq<char>, int), Seq<char>> {
    if at + 1 > end {
        Err(out_of_bounds())
    } else {
        let kind = frame[at];
        match fixed_size(kind) {
            Some(size) => if at + 1 + size > end {
                Err(out_of_bounds())
            } else {
                Ok((Seq::empty(), at + 1 + size))
            },
            None => if kind == 6 || kind == 7 {
                if at + 3 > end || at + 3 + be16(frame, at + 1) > end {
                    Err(out_of_bounds())
                } else {
                    let next = at + 3 + be16(frame, at + 1);
                    if kind == 6 {
                        Ok((Seq::empty(), next))
                    } else {
                        match text_in(frame.subrange(at + 3, next)) {
                            Some(text) => Ok((text, next)),
                            None => Err("kiro eventstream header value is not UTF-8"@),
                        }
                    }
                }
            } else {
                Err("kiro eventstream header has unknown type "@ + decimal(kind as nat))
            },
        }
    }
}

impl EventView {
    pub open spec fn blank() -> EventView {
        EventView {
            message_type: Seq::empty(),
            event_type: Seq::empty(),
            error_code: Seq::empty(),
            payload: None,
        }
    }

    pub open spec fn with_header(self, name: Seq<char>, value: Seq<char>) -> EventView {
        if name == ":message-type"@ {
            EventView { message_type: value, ..self }
        } else if name == ":event-type"@ {
            EventView { event_type: value, ..self }
        } else if name == ":error-code"@ {
            EventView { error_code: value, ..self }
        } else {
            self
        }
    }
}

/// The headers from `at` on, into the event.
pub open spec fn headers_from(frame: Seq<u8>, at: int, end: int, event: EventView) -> Result<EventView, Seq<char>>
    decreases end - at,
{
    if at >= end {
        Ok(event)
    } else {
        match name_at(frame, at, end) {
            Err(e) => Err(e),
            Ok((name, mid)) => match value_at(frame, mid, end) {
                Err(e) => Err(e),
                Ok((value, next)) => headers_from(frame, next, end, event.with_header(name, value)),
            },
        }
    }
}

/// The event with a payload: a blank text is none, any other is JSON. `value` is
/// what the text is read as.
pub open spec fn with_payload(event: EventView, text: Seq<char>, value: Result<JsonView, Seq<char>>) -> Result<
    EventView,
    Seq<char>,
> {
    if trimmed(text).len() == 0 {
        Ok(event)
    } else {
        match value {
            Ok(value) => Ok(EventView { payload: Some(value), ..event }),
            Err(e) => Err("kiro eventstream payload is not valid JSON: "@ + e),
        }
    }
}

/// What a whole frame says.
pub open spec fn frame_event(frame: Seq<u8>) -> Result<EventView, Seq<char>> {
    let end = PRELUDE_BYTES + be32(frame, 4);
    let tail = frame.len() - CRC_BYTES;
    if be32(frame, tail) != checksum(frame.take(tail)) {
        Err("kiro eventstream message CRC mismatch"@)
    } else {
        match headers_from(frame, PRELUDE_BYTES as int, end, EventView::blank()) {
            Err(e) => Err(e),
            Ok(event) => match text_in(frame.subrange(end, tail)) {
                None => Err("kiro eventstream payload is not UTF-8"@),
                Some(text) => with_payload(event, text, parsed(text)),
            },
        }
    }
}

fn bounds_error() -> (r: String)
    ensures
        r@ == out_of_bounds(),
{
    "kiro eventstream header exceeds its declared bounds".to_owned()
}

fn read_name(frame: &[u8], at: usize, end: usize) -> (r: Result<(String, usize), String>)
    requires
        at < end <= frame@.len(),
    ensures
        (match r {
            Ok((name, next)) => Ok((name@, next as int)),
            Err(e) => Err(e@),
        }) == name_at(frame@, at as int, end as int),
        r matches Ok((_, next)) ==> at < next <= end,
{
    let len: usize = frame[at] as usize;
    if len > end - at - 1 {
        return Err(bounds_error());
    }
    let next: usize = at + 1 + len;
    match decode(copy_range(frame, at + 1, next)) {
        Ok(name) => Ok((name, next)),
        Err(_) => Err("kiro eventstream header name is not UTF-8".to_owned()),
    }
}

fn size_of(kind: u8) -> (r: Option<usize>)
    ensures
        match r {
            Some(size) => fixed_size(kind) == Some(size as int) && size <= 16,
            None => fixed_size(kind) is None,
        },
{
    if kind == 0 || kind == 1 {
        Some(0)
    } else if kind == 2 {
        Some(1)
    } else if kind == 3 {
        Some(2)
    } else if kind == 4 {
        Some(4)
    } else if kind == 5 || kind == 8 {
        Some(8)
    } else if kind == 9 {
        Some(16)
    } else {
        None
    }
}

fn read_value(frame: &[u8], at: usize, end: usize) -> (r: Result<(String, usize), String>)
    requires
        at <= end <= frame@.len(),
    ensures
        (match r {
            Ok((value, next)) => Ok((value@, next as int)),
            Err(e) => Err(e@),
        }) == value_at(frame@, at as int, end as int),
        r matches Ok((_, next)) ==> at < next <= end,
{
    if at == end {
        return Err(bounds_error());
    }
    let kind: u8 = frame[at];
    let room: usize = end - at - 1;
    if let Some(size) = size_of(kind) {
        if size > room {
            return Err(bounds_error());
        }
        return Ok((String::new(), at + 1 + size));
    }
    if kind != 6 && kind != 7 {
        let text = decimal_of(kind as u64);
        return Err(cat2("kiro eventstream header has unknown type ", text.as_str()));
    }
    if room < 2 {
        return Err(bounds_error());
    }
    let high: usize = frame[at + 1] as usize;
    let low: usize = frame[at + 2] as usize;
    let len: usize = high * 0x100 + low;
    if len > room - 2 {
        return Err(bounds_error());
    }
    let next: usize = at + 3 + len;
    if kind == 6 {
        return Ok((String::new(), next));
    }
    match decode(copy_range(frame, at + 3, next)) {
        Ok(text) => Ok((text, next)),
        Err(_) => Err("kiro eventstream header value is not UTF-8".to_owned()),
    }
}

/// The outcome of reading an event, by its view.
pub open spec fn event_result(r: Result<Event, String>) -> Result<EventView, Seq<char>> {
    match r {
        Ok(event) => Ok(event@),
        Err(e) => Err(e@),
    }
}

fn read_headers(frame: &[u8], end: usize) -> (r: Result<Event, String>)
    requires
        PRELUDE_BYTES <= end <= frame@.len(),
    ensures
        event_result(r) == headers_from(
            frame@,
            PRELUDE_BYTES as int,
            end as int,
            EventView::blank(),
        ),
{
    let mut event = Event {
        message_type: String::new(),
        event_type: String::new(),
        error_code: String::new(),
        payload: None,
    };
    let mut at: usize = PRELUDE_BYTES;
    assert(event@ =~= EventView::blank());
    while at < end
        invariant
            PRELUDE_BYTES <= at <= end <= frame@.len(),
            headers_from(frame@, PRELUDE_BYTES as int, end as int, EventView::blank())
                == headers_from(frame@, at as int, end as int, event@),
        decreases end - at,
    {
        let ghost before = event@;
        let (name, mid) = match read_name(frame, at, end) {
            Ok(pair) => pair,
            Err(e) => return Err(e),
        };
        let (value, next) = match read_value(frame, mid, end) {
            Ok(pair) => pair,
            Err(e) => return Err(e),
        };
        let ghost said = value@;
        if str_eq(name.as_str(), ":message-type") {
            event.message_type = value;
        } else if str_eq(name.as_str(), ":event-type") {
            event.event_type = value;
        } else if str_eq(name.as_str(), ":error-code") {
            event.error_code = value;
        }
        assert(event@ =~= before.with_header(name@, said));
        at = next;
    }
    Ok(event)
}

/// The event with a payload; `value` is what its text is read as.
pub fn add_payload(event: Event, text: &str, value: Result<Json, String>) -> (r: Result<Event, String>)
    ensures
        event_result(r) == with_payload(event@, text@, read_view(value)),
{
    let blank = trim(text);
    if blank.as_str().is_empty() {
        return Ok(event);
    }
    match value {
        Ok(value) => Ok(
            Event {
                message_type: event.message_type,
                event_type: event.event_type,
                error_code: event.error_code,
                payload: Some(value),
            },
        ),
        Err(e) => Err(cat2("kiro eventstream payload is not valid JSON: ", e.as_str())),
    }
}

/// The lengths of a frame fit together.
pub open spec fn fits(frame: Seq<u8>) -> bool {
    frame.len() >= PRELUDE_BYTES + CRC_BYTES && be32(frame, 4) <= frame.len() - PRELUDE_BYTES
        - CRC_BYTES
}

fn parse_frame(frame: &[u8]) -> (r: Result<Event, String>)
    requires
        fits(frame@),
    ensures
        event_result(r) == frame_event(frame@),
{
    let tail: usize = frame.len() - CRC_BYTES;
    if be_u32(frame, tail) != crc32(frame, tail) {
        return Err("kiro eventstream message CRC mismatch".to_owned());
    }
    let end: usize = PRELUDE_BYTES + be_u32(frame, 4) as usize;
    let event = match read_headers(frame, end) {
        Ok(event) => event,
        Err(e) => return Err(e),
    };
    match decode(copy_range(frame, end, tail)) {
        Err(_) => Err("kiro eventstream payload is not UTF-8".to_owned()),
        Ok(text) => {
            let value = parse_json(text.as_str());
            add_payload(event, text.as_str(), value)
        },
    }
}

/// What a buffer holds: the events of its whole frames, or the first error, and
/// the bytes that are left.
#[verifier::ext_equal]
pub struct Drained {
    pub events: Result<Seq<EventView>, Seq<char>>,
    pub rest: Seq<u8>,
}

/// The lengths in a prelude are within the bounds of the protocol.
pub open spec fn in_bounds(buffer: Seq<u8>) -> bool {
    let total = be32(buffer, 0);
    let headers = be32(buffer, 4);
    PRELUDE_BYTES + CRC_BYTES <= total <= MAX_MESSAGE_BYTES && headers <= MAX_HEADERS_BYTES
        && headers <= total - PRELUDE_BYTES - CRC_BYTES
}

/// One event before others.
pub open spec fn and_then_events(event: EventView, rest: Drained) -> Drained {
    Drained {
        events: match rest.events {
            Ok(events) => Ok(seq![event] + events),
            Err(e) => Err(e),
        },
        rest: rest.rest,
    }
}

/// The frames of a buffer, up to the first error. A broken prelude leaves the
/// buffer as it is; a broken frame is taken out of it.
pub open spec fn drained(buffer: Seq<u8>) -> Drained
    decreases buffer.len(),
{
    if buffer.len() < PRELUDE_BYTES {
        Drained { events: Ok(Seq::empty()), rest: buffer }
    } else if be32(buffer, 8) != checksum(buffer.take(8)) {
        Drained { events: Err("kiro eventstream prelude CRC mismatch"@), rest: buffer }
    } else if !in_bounds(buffer) {
        Drained { events: Err("kiro eventstream frame bounds are invalid"@), rest: buffer }
    } else if buffer.len() < be32(buffer, 0) {
        Drained { events: Ok(Seq::empty()), rest: buffer }
    } else {
        let total = be32(buffer, 0);
        let rest = buffer.subrange(total, buffer.len() as int);
        match frame_event(buffer.take(total)) {
            Err(e) => Drained { events: Err(e), rest },
            Ok(event) => and_then_events(event, drained(rest)),
        }
    }
}

/// What a decoder makes of one more chunk.
pub open spec fn fed(buffer: Seq<u8>, chunk: Seq<u8>) -> Drained {
    if buffer.len() + chunk.len() > MAX_MESSAGE_BYTES {
        Drained {
            events: Err("kiro eventstream buffered bytes exceed the protocol bound"@),
            rest: buffer,
        }
    } else {
        drained(buffer + chunk)
    }
}

/// A decoder of frames that come in pieces.
#[derive(Debug)]
pub struct FrameDecoder {
    pub buffer: Vec<u8>,
}

pub open spec fn events_result(r: Result<Vec<Event>, String>) -> Result<Seq<EventView>, Seq<char>> {
    match r {
        Ok(events) => Ok(event_views(events@)),
        Err(e) => Err(e@),
    }
}

/// Events before what is drained.
pub open spec fn after_events(events: Seq<EventView>, rest: Drained) -> Drained {
    Drained {
        events: match rest.events {
            Ok(more) => Ok(events + more),
            Err(e) => Err(e),
        },
        rest: rest.rest,
    }
}

impl FrameDecoder {
    pub fn new() -> (r: FrameDecoder)
        ensures
            r.buffer@.len() == 0,
    {
        FrameDecoder { buffer: Vec::new() }
    }

    pub fn feed(&mut self, chunk: &[u8]) -> (r: Result<Vec<Event>, String>)
        ensures
            events_result(r) == fed(old(self).buffer@, chunk@).events,
            final(self).buffer@ == fed(old(self).buffer@, chunk@).rest,
    {
        if chunk.len() > MAX_MESSAGE_BYTES || self.buffer.len() > MAX_MESSAGE_BYTES - chunk.len() {
            return Err("kiro eventstream buffered bytes exceed the protocol bound".to_owned());
        }
        let ghost start = self.buffer@;
        let mut i: usize = 0;
        assert(start + chunk@.take(0) =~= start);
        while i < chunk.len()
            invariant
                i <= chunk@.len(),
                self.buffer@ == start + chunk@.take(i as int),
            decreases chunk@.len() - i,
        {
            self.buffer.push(chunk[i]);
            i = i + 1;
            assert(self.buffer@ =~= start + chunk@.take(i as int));
        }
        assert(chunk@.take(i as int) =~= chunk@);
        let ghost whole = drained(start + chunk@);
        let mut events: Vec<Event> = Vec::new();
        proof {
            assert(event_views(events@) =~= Seq::<EventView>::empty());
            let d = drained(self.buffer@);
            if d.events is Ok {
                assert(Seq::<EventView>::empty() + d.events->Ok_0 =~= d.events->Ok_0);
            }
        }
        while self.buffer.len() >= PRELUDE_BYTES
            invariant
                whole == fed(old(self).buffer@, chunk@),
                whole == after_events(event_views(events@), drained(self.buffer@)),
            ensures
                drained(self.buffer@) == (Drained {
                    events: Ok(Seq::empty()),
                    rest: self.buffer@,
                }),
            decreases self.buffer@.len(),
        {
            let ghost held = self.buffer@;
            if be_u32(self.buffer.as_slice(), 8) != crc32(self.buffer.as_slice(), 8) {
                return Err("kiro eventstream prelude CRC mismatch".to_owned());
            }
            let total: usize = be_u32(self.buffer.as_slice(), 0) as usize;
            let headers: usize = be_u32(self.buffer.as_slice(), 4) as usize;
            if total < PRELUDE_BYTES + CRC_BYTES || total > MAX_MESSAGE_BYTES || headers
                > MAX_HEADERS_BYTES || headers > total - PRELUDE_BYTES - CRC_BYTES {
                return Err("kiro eventstream frame bounds are invalid".to_owned());
            }
            if self.buffer.len() < total {
                break;
            }
            let frame = copy_range(self.buffer.as_slice(), 0, total);
            let rest = copy_range(self.buffer.as_slice(), total, self.buffer.len());
            self.buffer = rest;
            assert(frame@ =~= held.take(total as int));
            assert(be32(frame@, 4) == be32(held, 4));
            match parse_frame(frame.as_slice()) {
                Err(e) => return Err(e),
                Ok(event) => {
                    let ghost before = events@;
                    let ghost said = event@;
                    events.push(event);
                    proof {
                        assert(event_views(events@) =~= event_views(before).push(said));
                        let d = drained(self.buffer@);
                        if d.events is Ok {
                            assert(event_views(before) + (seq![said] + d.events->Ok_0)
                                =~= event_views(events@) + d.events->Ok_0);
                        }
                    }
                },
            }
        }
        assert(event_views(events@) + Seq::<EventView>::empty() =~= event_views(events@));
        Ok(events)
    }

    /// The transport ended: bytes that are left are a truncated frame.
    pub fn finish(&self) -> (r: Result<(), String>)
        ensures
            r is Ok <==> self.buffer@.len() == 0,
            r matches Err(e) ==> e@ == "kiro eventstream ended with a truncated frame"@,
    {
        if self.buffer.len() == 0 {
            Ok(())
        } else {
            Err("kiro eventstream ended with a truncated frame".to_owned())
        }
    }
}

proof fn lemma_prelude_of_prefix(a: Seq<u8>, b: Seq<u8>)
    requires
        a.len() >= PRELUDE_BYTES,
    ensures
        be32(a + b, 0) == be32(a, 0),
        be32(a + b, 4) == be32(a, 4),
        be32(a + b, 8) == be32(a, 8),
        (a + b).take(8) == a.take(8),
{
    assert((a + b).take(8) =~= a.take(8));
}

proof fn lemma_drained_prefix(a: Seq<u8>, b: Seq<u8>)
    ensures
        drained(a).events is Ok ==> drained(a + b) == after_events(
            drained(a).events->Ok_0,
            drained(drained(a).rest + b),
        ),
        drained(a).events is Err ==> drained(a + b).events == drained(a).events && drained(a
            + b).rest == drained(a).rest + b,
    decreases a.len(),
{
    let next = drained(a + b);
    if a.len() < PRELUDE_BYTES {
        assert(drained(a).rest + b == a + b);
        if next.events is Ok {
            assert(Seq::<EventView>::empty() + next.events->Ok_0 =~= next.events->Ok_0);
        }
    } else {
        lemma_prelude_of_prefix(a, b);
        let total = be32(a, 0);
        if be32(a, 8) != checksum(a.take(8)) || !in_bounds(a) {
        } else if a.len() < total {
            if next.events is Ok {
                assert(Seq::<EventView>::empty() + next.events->Ok_0 =~= next.events->Ok_0);
            }
        } else {
            let rest = a.subrange(total, a.len() as int);
            assert((a + b).take(total) =~= a.take(total));
            assert((a + b).subrange(total, (a + b).len() as int) =~= rest + b);
            match frame_event(a.take(total)) {
                Err(_) => {},
                Ok(event) => {
                    lemma_drained_prefix(rest, b);
                    let d = drained(rest);
                    if d.events is Ok {
                        let more = drained(d.rest + b);
                        if more.events is Ok {
                            assert(seq![event] + (d.events->Ok_0 + more.events->Ok_0) =~= (
                            seq![event] + d.events->Ok_0) + more.events->Ok_0);
                        }
                    }
                },
            }
        }
    }
}

/// Where the bytes are cut does not matter: two chunks give what both in one
/// give, as long as all of it fits into the buffer.
pub proof fn law_chunk_boundaries_do_not_matter(buffer: Seq<u8>, a: Seq<u8>, b: Seq<u8>)
    requires
        buffer.len() + a.len() + b.len() <= MAX_MESSAGE_BYTES,
    ensures
        fed(buffer, a).events is Ok ==> fed(buffer, a + b) == after_events(
            fed(buffer, a).events->Ok_0,
            fed(fed(buffer, a).rest, b),
        ),
        fed(buffer, a).events is Err ==> fed(buffer, a + b).events == fed(buffer, a).events,
{
    lemma_drained_prefix(buffer + a, b);
    lemma_rest_is_shorter(buffer + a);
    assert(buffer + (a + b) =~= (buffer + a) + b);
}

proof fn lemma_rest_is_shorter(buffer: Seq<u8>)
    ensures
        drained(buffer).rest.len() <= buffer.len(),
    decreases buffer.len(),
{
    if buffer.len() >= PRELUDE_BYTES && be32(buffer, 8) == checksum(buffer.take(8)) && in_bounds(
        buffer,
    ) && buffer.len() >= be32(buffer, 0) {
        lemma_rest_is_shorter(buffer.subrange(be32(buffer, 0), buffer.len() as int));
    }
}

/// The buffer never holds more than one message may.
pub proof fn law_buffer_is_bounded(buffer: Seq<u8>, chunk: Seq<u8>)
    requires
        buffer.len() <= MAX_MESSAGE_BYTES,
    ensures
        fed(buffer, chunk).rest.len() <= MAX_MESSAGE_BYTES,
{
    lemma_rest_is_shorter(buffer + chunk);
}

/// A header sets the field of its name and leaves the others; one of another name
/// sets nothing.
pub proof fn law_headers_set_their_fields(event: EventView, name: Seq<char>, value: Seq<char>)
    ensures
        ({
            let out = event.with_header(name, value);
            &&& out.message_type == (if name == ":message-type"@ {
                value
            } else {
                event.message_type
            })
            &&& out.event_type == (if name == ":event-type"@ {
                value
            } else {
                event.event_type
            })
            &&& out.error_code == (if name == ":error-code"@ {
                value
            } else {
                event.error_code
            })
            &&& out.payload == event.payload
        }),
{
    reveal_strlit(":message-type");
    reveal_strlit(":event-type");
    reveal_strlit(":error-code");
    assert(":message-type"@.len() == 13);
    assert(":event-type"@.len() == 11);
    assert(":error-code"@.len() == 11);
    assert(":event-type"@[2] == 'v');
    assert(":error-code"@[2] == 'r');
}

/// A frame whose checksum does not match is refused. The event of any other has
/// what its headers say and the value of its payload; a blank payload is none.
pub proof fn law_frames_are_checked(frame: Seq<u8>)
    ensures
        ({
            let end = 12 + be32(frame, 4);
            let tail = frame.len() - 4;
            let headers = headers_from(frame, 12, end, EventView::blank());
            let sound = be32(frame, tail) == checksum(frame.take(tail));
            let body = frame.subrange(end, tail);
            &&& !sound ==> frame_event(frame) is Err
            &&& frame_event(frame) is Ok ==> {
                &&& sound
                &&& headers is Ok
                &&& valid_utf8(body)
                &&& frame_event(frame)->Ok_0.message_type == headers->Ok_0.message_type
                &&& frame_event(frame)->Ok_0.event_type == headers->Ok_0.event_type
                &&& frame_event(frame)->Ok_0.error_code == headers->Ok_0.error_code
                &&& trimmed(decode_utf8(body)).len() > 0 ==> parsed(decode_utf8(body)) is Ok
                    && frame_event(frame)->Ok_0.payload == Some(parsed(decode_utf8(body))->Ok_0)
            }
            &&& sound && headers is Ok && valid_utf8(body) && (trimmed(decode_utf8(body)).len() == 0
                || parsed(decode_utf8(body)) is Ok) ==> frame_event(frame) is Ok
        }),
{
}

/// A whole frame gives its event, and what stands behind it is read on. A frame
/// that has not come whole waits, and one whose prelude is damaged or out of bounds
/// is an error.
pub proof fn law_frames_come_one_by_one(frame: Seq<u8>, rest: Seq<u8>)
    requires
        frame.len() >= 16,
        be32(frame, 0) == frame.len(),
    ensures
        ({
            let whole = drained(frame + rest);
            let sound = be32(frame, 8) == checksum(frame.take(8)) && frame.len() <= 25_165_824
                && be32(frame, 4) <= 131_072 && be32(frame, 4) <= frame.len() - 16;
            &&& !sound ==> whole.events is Err
            &&& sound && frame_event(frame) is Err ==> whole.events is Err && whole.rest == rest
            &&& sound && frame_event(frame) is Ok ==> {
                &&& whole.rest == drained(rest).rest
                &&& drained(rest).events is Ok ==> whole.events == Ok::<Seq<EventView>, Seq<char>>(
                    seq![frame_event(frame)->Ok_0] + drained(rest).events->Ok_0,
                )
                &&& drained(rest).events is Err ==> whole.events == drained(rest).events
            }
        }),
{
    let all = frame + rest;
    assert(all.take(8) =~= frame.take(8));
    assert(all.take(frame.len() as int) =~= frame);
    assert(all.subrange(frame.len() as int, all.len() as int) =~= rest);
    assert(be32(all, 0) == be32(frame, 0));
    assert(be32(all, 4) == be32(frame, 4));
    assert(be32(all, 8) == be32(frame, 8));
}

} // verus!
