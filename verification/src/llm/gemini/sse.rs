//! Gemini's event stream: one frame may hold several parts, and the end is told
//! inside a frame.

use crate::json::{parsed, Json, JsonView};
use crate::llm::sse::{payload_error, payload_error_of, DeltaQueue, QueueView, SseFrame, FrameView};
use crate::llm::types::{Delta, DeltaView};
use crate::text::cat2;
use vstd::prelude::*;

verus! {

#[derive(Debug)]
pub struct FunctionCallPart {
    pub name: String,
    pub args: Option<Json>,
}

#[derive(Debug)]
pub struct Part {
    pub text: Option<String>,
    pub thought: Option<bool>,
    pub function_call: Option<FunctionCallPart>,
}

/// A candidate, with the parts of its content.
#[derive(Debug)]
pub struct Candidate {
    pub parts: Vec<Part>,
    pub finish_reason: Option<String>,
}

#[derive(Debug, Clone, Copy, PartialEq, Eq, Structural)]
pub struct UsageMetadata {
    pub prompt_token_count: Option<u64>,
    pub candidates_token_count: Option<u64>,
    pub thoughts_token_count: Option<u64>,
}

#[derive(Debug)]
pub struct StreamResponse {
    pub candidates: Vec<Candidate>,
    pub usage_metadata: Option<UsageMetadata>,
}

/// What a frame holds; a heartbeat has no response.
#[derive(Debug)]
pub struct StreamEnvelope {
    pub response: Option<StreamResponse>,
}

/// What a part says: a call comes before a text, an empty text says nothing.
pub open spec fn part_delta(part: Part) -> Option<DeltaView> {
    match (part.function_call, part.text) {
        (Some(call), _) => Some(
            DeltaView::ToolCall {
                name: call.name@,
                input: match call.args {
                    Some(args) => args@,
                    None => JsonView::object(),
                },
            },
        ),
        (None, Some(text)) => if text@.len() == 0 {
            None
        } else if part.thought == Some(true) {
            Some(DeltaView::Reasoning(text@))
        } else {
            Some(DeltaView::Text(text@))
        },
        (None, None) => None,
    }
}

pub open spec fn parts_deltas(parts: Seq<Part>) -> Seq<DeltaView>
    decreases parts.len(),
{
    if parts.len() == 0 {
        Seq::empty()
    } else {
        match part_delta(parts.last()) {
            Some(delta) => parts_deltas(parts.drop_last()).push(delta),
            None => parts_deltas(parts.drop_last()),
        }
    }
}

pub open spec fn candidates_deltas(candidates: Seq<Candidate>) -> Seq<DeltaView>
    decreases candidates.len(),
{
    if candidates.len() == 0 {
        Seq::empty()
    } else {
        candidates_deltas(candidates.drop_last()) + parts_deltas(candidates.last().parts@)
    }
}

pub open spec fn or_zero(n: Option<u64>) -> int {
    match n {
        Some(n) => n as int,
        None => 0,
    }
}

/// The usage of a frame: the tokens of the thoughts count for the answer.
pub open spec fn usage_deltas(usage: Option<UsageMetadata>) -> Seq<DeltaView> {
    match usage {
        Some(u) => match u.prompt_token_count {
            Some(input) => seq![
                DeltaView::Usage {
                    input,
                    output: (or_zero(u.candidates_token_count) + or_zero(u.thoughts_token_count))
                        as u64,
                },
            ],
            None => Seq::empty(),
        },
        None => Seq::empty(),
    }
}

/// The counts of a frame can be added up, where they are.
pub open spec fn countable(envelope: StreamEnvelope) -> bool {
    match envelope.response {
        Some(StreamResponse { usage_metadata: Some(u), .. }) => u.prompt_token_count is Some
            ==> or_zero(u.candidates_token_count) + or_zero(u.thoughts_token_count) <= u64::MAX,
        _ => true,
    }
}

pub fn is_countable(envelope: &StreamEnvelope) -> (r: bool)
    ensures
        r == countable(*envelope),
{
    let usage = match &envelope.response {
        Some(response) => response.usage_metadata,
        None => None,
    };
    match usage {
        Some(u) => {
            let answer: u64 = match u.candidates_token_count {
                Some(n) => n,
                None => 0,
            };
            let thoughts: u64 = match u.thoughts_token_count {
                Some(n) => n,
                None => 0,
            };
            u.prompt_token_count.is_none() || answer <= u64::MAX - thoughts
        },
        None => true,
    }
}

/// A candidate says why it ends.
pub open spec fn ends_stream(candidates: Seq<Candidate>) -> bool {
    exists|i: int| 0 <= i < candidates.len() && (#[trigger] candidates[i]).finish_reason is Some
}

/// Everything that a response says, in order.
pub open spec fn response_deltas(response: StreamResponse) -> Seq<DeltaView> {
    let said = candidates_deltas(response.candidates@) + usage_deltas(response.usage_metadata);
    if ends_stream(response.candidates@) {
        said.push(DeltaView::Done)
    } else {
        said
    }
}

/// What a frame's data adds to the stream, and whether it ends it.
pub open spec fn data_deltas(
    error: Option<Seq<char>>,
    decoded: Result<StreamEnvelope, String>,
) -> (Seq<DeltaView>, bool) {
    match error {
        Some(error) => (seq![DeltaView::Error(error)], false),
        None => match decoded {
            Err(error) => (
                seq![DeltaView::Error("gemini invalid SSE payload: "@ + error@)],
                false,
            ),
            Ok(envelope) => match envelope.response {
                None => (Seq::empty(), false),
                Some(response) => (
                    response_deltas(response),
                    ends_stream(response.candidates@),
                ),
            },
        },
    }
}

fn push_parts(queue: &mut DeltaQueue, parts: Vec<Part>)
    ensures
        final(queue)@ == (QueueView {
            queued: old(queue)@.queued + parts_deltas(parts@),
            ..old(queue)@
        }),
{
    let mut parts = parts;
    let ghost whole = parts@;
    let ghost start = queue@;
    let mut i: usize = 0;
    let count: usize = parts.len();
    assert(whole.take(0) =~= Seq::<Part>::empty());
    assert(start.queued + parts_deltas(whole.take(0)) =~= start.queued);
    assert(parts@ =~= whole.subrange(0, whole.len() as int));
    while i < count
        invariant
            i <= count == whole.len(),
            parts@ == whole.subrange(i as int, whole.len() as int),
            queue@ == (QueueView {
                queued: start.queued + parts_deltas(whole.take(i as int)),
                ..start
            }),
        decreases count - i,
    {
        assert(whole.take(i + 1).drop_last() =~= whole.take(i as int));
        assert(parts@[0] == whole[i as int]);
        let ghost sofar = start.queued + parts_deltas(whole.take(i as int));
        let part = parts.remove(0);
        assert(part == whole[i as int]);
        match part.function_call {
            Some(call) => {
                let input = match call.args {
                    Some(args) => args,
                    None => Json::object(),
                };
                queue.push(Delta::ToolCall { name: call.name, input });
            },
            None => {
                if let Some(text) = part.text {
                    if !text.as_str().is_empty() {
                        let thought = match part.thought {
                            Some(b) => b,
                            None => false,
                        };
                        if thought {
                            queue.push(Delta::Reasoning(text));
                        } else {
                            queue.push(Delta::Text(text));
                        }
                    }
                }
            },
        }
        i = i + 1;
        assert(parts@ =~= whole.subrange(i as int, whole.len() as int));
        assert(queue@.queued =~= start.queued + parts_deltas(whole.take(i as int)));
    }
    assert(whole.take(i as int) =~= whole);
}

fn push_candidates(queue: &mut DeltaQueue, candidates: Vec<Candidate>)
    ensures
        final(queue)@ == (QueueView {
            queued: old(queue)@.queued + candidates_deltas(candidates@),
            ..old(queue)@
        }),
{
    let mut candidates = candidates;
    let ghost whole = candidates@;
    let ghost start = queue@;
    let mut i: usize = 0;
    let count: usize = candidates.len();
    assert(whole.take(0) =~= Seq::<Candidate>::empty());
    assert(start.queued + candidates_deltas(whole.take(0)) =~= start.queued);
    assert(candidates@ =~= whole.subrange(0, whole.len() as int));
    while i < count
        invariant
            i <= count == whole.len(),
            candidates@ == whole.subrange(i as int, whole.len() as int),
            queue@ == (QueueView {
                queued: start.queued + candidates_deltas(whole.take(i as int)),
                ..start
            }),
        decreases count - i,
    {
        assert(whole.take(i + 1).drop_last() =~= whole.take(i as int));
        assert(candidates@[0] == whole[i as int]);
        let candidate = candidates.remove(0);
        push_parts(queue, candidate.parts);
        i = i + 1;
        assert(candidates@ =~= whole.subrange(i as int, whole.len() as int));
        assert(queue@.queued =~= start.queued + candidates_deltas(whole.take(i as int)));
    }
    assert(whole.take(i as int) =~= whole);
}

fn any_finished(candidates: &Vec<Candidate>) -> (r: bool)
    ensures
        r == ends_stream(candidates@),
{
    let mut i: usize = 0;
    while i < candidates.len()
        invariant
            i <= candidates@.len(),
            forall|j: int| 0 <= j < i ==> (#[trigger] candidates@[j]).finish_reason is None,
        decreases candidates@.len() - i,
    {
        if candidates[i].finish_reason.is_some() {
            assert(candidates@[i as int].finish_reason is Some);
            return true;
        }
        i = i + 1;
    }
    false
}

/// Adds what a frame's data says to the queue, and tells whether it ends the
/// stream. `error` is the error that the data carries, `decoded` what it holds.
pub fn queue_data(
    queue: &mut DeltaQueue,
    error: Option<String>,
    decoded: Result<StreamEnvelope, String>,
) -> (r: bool)
    requires
        decoded matches Ok(envelope) ==> countable(envelope),
    ensures
        final(queue)@ == (QueueView {
            queued: old(queue)@.queued + data_deltas(crate::text::opt_view(error), decoded).0,
            ..old(queue)@
        }),
        r == data_deltas(crate::text::opt_view(error), decoded).1,
{
    let ghost start = queue@;
    if let Some(text) = error {
        queue.push(Delta::Error(text));
        assert(queue@.queued =~= start.queued + seq![DeltaView::Error(text@)]);
        return false;
    }
    let envelope = match decoded {
        Ok(envelope) => envelope,
        Err(e) => {
            let text = cat2("gemini invalid SSE payload: ", e.as_str());
            queue.push(Delta::Error(text));
            assert(queue@.queued =~= start.queued + seq![DeltaView::Error(text@)]);
            return false;
        },
    };
    let response = match envelope.response {
        Some(response) => response,
        None => {
            assert(start.queued + Seq::<DeltaView>::empty() =~= start.queued);
            return false;
        },
    };
    let finished = any_finished(&response.candidates);
    let usage = response.usage_metadata;
    let ghost candidates = response.candidates@;
    push_candidates(queue, response.candidates);
    if let Some(u) = usage {
        if let Some(input) = u.prompt_token_count {
            let answer: u64 = match u.candidates_token_count {
                Some(n) => n,
                None => 0,
            };
            let thoughts: u64 = match u.thoughts_token_count {
                Some(n) => n,
                None => 0,
            };
            queue.push(Delta::Usage { input, output: answer + thoughts });
        }
    }
    assert(queue@.queued =~= start.queued + (candidates_deltas(candidates) + usage_deltas(usage)));
    if finished {
        queue.push(Delta::Done);
    }
    assert(queue@.queued =~= start.queued + response_deltas(response));
    finished
}

/// What the stream is after one frame. A frame that cannot be read ends it; an
/// error inside a frame does not.
pub open spec fn after_frame(queue: QueueView, frame: FrameView, decoded: Result<StreamEnvelope, String>) -> QueueView {
    if queue.finished {
        queue
    } else {
        match frame {
            FrameView::Invalid(error) => QueueView {
                queued: queue.queued.push(DeltaView::Error(error)),
                finished: true,
            },
            FrameView::Done => QueueView {
                queued: queue.queued.push(DeltaView::Done),
                finished: true,
            },
            FrameView::Data(data) => {
                let said = data_deltas(payload_error_of("gemini"@, parsed(data)), decoded);
                QueueView { queued: queue.queued + said.0, finished: said.1 }
            },
        }
    }
}

/// Adds what a frame says to the queue. `decoded` is what the frame's data
/// holds, or the reason why it holds nothing.
pub fn project_frame(
    queue: &mut DeltaQueue,
    frame: SseFrame,
    decoded: Result<StreamEnvelope, String>,
)
    requires
        decoded matches Ok(envelope) ==> countable(envelope),
    ensures
        final(queue)@ == after_frame(old(queue)@, frame@, decoded),
{
    if queue.finished {
        return;
    }
    match frame {
        SseFrame::Invalid(error) => {
            queue.push(Delta::Error(error));
            queue.finished = true;
        },
        SseFrame::Done => {
            queue.push(Delta::Done);
            queue.finished = true;
        },
        SseFrame::Data(data) => {
            let error = payload_error("gemini", data.as_str());
            if queue_data(queue, error, decoded) {
                queue.finished = true;
            }
        },
    }
}

/// The transport ended: without an end inside a frame the answer is truncated.
pub fn on_end(queue: &mut DeltaQueue)
    ensures
        final(queue)@ == old(queue)@.broken("gemini sse stream ended before protocol completion"@),
{
    queue.fail("gemini sse stream ended before protocol completion".to_owned());
}

/// A frame that ends the stream well says so last.
pub proof fn law_finish_is_the_last_delta(response: StreamResponse)
    ensures
        ends_stream(response.candidates@) ==> response_deltas(response).last() == DeltaView::Done,
{
}

/// What a part holds is handed on as it is: a call with its arguments, and a text
/// that is not empty, as reasoning where it is a thought.
pub proof fn law_parts_are_handed_on(parts: Seq<Part>, part: Part)
    ensures
        ({
            let before = parts_deltas(parts);
            let after = parts_deltas(parts.push(part));
            &&& part.function_call matches Some(call) ==> after == before.push(
                DeltaView::ToolCall {
                    name: call.name@,
                    input: match call.args {
                        Some(args) => args@,
                        None => JsonView::Obj(Seq::empty()),
                    },
                },
            )
            &&& part.function_call is None && part.text is Some && part.text->0@.len() > 0 ==> after
                == before.push(
                if part.thought == Some(true) {
                    DeltaView::Reasoning(part.text->0@)
                } else {
                    DeltaView::Text(part.text->0@)
                },
            )
            &&& part.function_call is None && (part.text is None || part.text->0@.len() == 0) ==> after
                == before
        }),
        parts_deltas(Seq::<Part>::empty()).len() == 0,
{
    assert(parts.push(part).drop_last() =~= parts);
}

/// The candidates say what their parts say, one after the other.
pub proof fn law_candidates_say_their_parts(candidates: Seq<Candidate>, candidate: Candidate)
    ensures
        candidates_deltas(candidates.push(candidate)) == candidates_deltas(candidates)
            + parts_deltas(candidate.parts@),
        candidates_deltas(Seq::<Candidate>::empty()).len() == 0,
{
    assert(candidates.push(candidate).drop_last() =~= candidates);
}

/// The usage of a response is the prompt's tokens and, as output, those of the
/// answer and of the thoughts together; without the prompt's there is none.
pub proof fn law_usage_counts_the_thoughts(usage: UsageMetadata)
    requires
        or_zero(usage.candidates_token_count) + or_zero(usage.thoughts_token_count) <= u64::MAX,
    ensures
        usage_deltas(None).len() == 0,
        usage.prompt_token_count is None ==> usage_deltas(Some(usage)).len() == 0,
        usage.prompt_token_count matches Some(input) ==> (usage_deltas(Some(usage)).len() == 1 && (
        usage_deltas(Some(usage))[0] matches DeltaView::Usage { input: i, output: o } && i == input
            && o == (match usage.candidates_token_count {
            Some(n) => n as int,
            None => 0,
        }) + (match usage.thoughts_token_count {
            Some(n) => n as int,
            None => 0,
        }))),
{
}

/// A response is handed on whole: what its candidates say, the usage, and the end
/// where a candidate has finished.
pub proof fn law_responses_are_handed_on(response: StreamResponse)
    ensures
        ({
            let said = candidates_deltas(response.candidates@) + usage_deltas(
                response.usage_metadata,
            );
            let out = response_deltas(response);
            &&& out.take(said.len() as int) == said
            &&& ends_stream(response.candidates@) ==> out.len() == said.len() + 1
            &&& !ends_stream(response.candidates@) ==> out == said
        }),
{
    let said = candidates_deltas(response.candidates@) + usage_deltas(response.usage_metadata);
    assert(response_deltas(response).take(said.len() as int) =~= said);
}

/// What a frame says goes behind what is queued. An error in its payload, a payload
/// that cannot be decoded and a frame that cannot be read are told as errors; the
/// end mark and a finished candidate end the stream.
pub proof fn law_frames_are_queued(
    queue: QueueView,
    frame: FrameView,
    decoded: Result<StreamEnvelope, String>,
)
    requires
        !queue.finished,
    ensures
        ({
            let next = after_frame(queue, frame, decoded);
            let n = queue.queued.len() as int;
            &&& next.queued.len() >= n && next.queued.take(n) == queue.queued
            &&& frame matches FrameView::Invalid(e) ==> next.finished && next.queued
                == queue.queued.push(DeltaView::Error(e))
            &&& frame is Done ==> next.finished && next.queued == queue.queued.push(DeltaView::Done)
            &&& frame matches FrameView::Data(data) ==> {
                let error = payload_error_of("gemini"@, parsed(data));
                &&& error matches Some(e) ==> !next.finished && next.queued == queue.queued.push(
                    DeltaView::Error(e),
                )
                &&& error is None && decoded is Err ==> !next.finished && next.queued.len() == n + 1
                    && next.queued.last() is Error
                &&& error is None && decoded is Ok && decoded->Ok_0.response is None ==> next == queue
                &&& error is None && decoded is Ok && decoded->Ok_0.response is Some ==> {
                    let response = decoded->Ok_0.response->0;
                    &&& next.queued == queue.queued + response_deltas(response)
                    &&& next.finished == ends_stream(response.candidates@)
                }
            }
        }),
{
    let next = after_frame(queue, frame, decoded);
    assert(next.queued.take(queue.queued.len() as int) =~= queue.queued);
    if let FrameView::Data(data) = frame {
        if let Some(e) = payload_error_of("gemini"@, parsed(data)) {
            assert(next.queued =~= queue.queued.push(DeltaView::Error(e)));
        } else if decoded is Ok && decoded->Ok_0.response is None {
            assert(next.queued =~= queue.queued);
        }
    }
}

} // verus!
