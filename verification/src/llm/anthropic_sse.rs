//! Anthropic's event stream.

use crate::llm::anthropic::{called, unmap_tool_name};
use crate::llm::sse::{Projection, ProjectionView, SseFrame};
use crate::llm::types::{opt_delta, ChunkFunction, ChunkToolCall, Delta, DeltaView, FragmentView, FunctionView};
use crate::text::{opt_view, str_eq};
use vstd::prelude::*;

verus! {

#[derive(Debug)]
pub struct ContentBlock {
    pub kind: String,
    pub id: Option<String>,
    pub name: Option<String>,
}

#[derive(Debug)]
pub struct EventDelta {
    pub kind: Option<String>,
    pub text: Option<String>,
    pub partial_json: Option<String>,
}

/// Token counts, as far as an event gives them.
#[derive(Debug, Clone, Copy, PartialEq, Eq, Structural)]
pub struct EventUsage {
    pub input_tokens: Option<u64>,
    pub output_tokens: Option<u64>,
}

/// An event of the stream. `message_usage` is the usage that stands in its
/// `message`.
#[derive(Debug)]
pub struct SseEvent {
    pub kind: String,
    pub index: Option<usize>,
    pub content_block: Option<ContentBlock>,
    pub delta: Option<EventDelta>,
    pub usage: Option<EventUsage>,
    pub message_usage: Option<EventUsage>,
}

/// The tokens of the prompt are reported when a message starts, those of the
/// answer when it ends; both go into one report.
#[derive(Debug, Clone, Copy, PartialEq, Eq, Structural)]
pub struct DeltaParser {
    pub input_seen: u64,
}

/// The tokens of the prompt that an event reports, if it starts a message.
pub open spec fn prompt_tokens(event: SseEvent) -> Option<u64> {
    if event.kind@ == "message_start"@ && event.message_usage is Some {
        event.message_usage->0.input_tokens
    } else {
        None
    }
}

/// The start of a tool call.
pub open spec fn call_start(event: SseEvent, block: ContentBlock) -> DeltaView {
    DeltaView::ToolFragments(
        seq![
            FragmentView {
                index: event.index,
                id: opt_view(block.id),
                function: Some(
                    FunctionView {
                        name: match block.name {
                            Some(name) => Some(called(name@)),
                            None => None,
                        },
                        arguments: None,
                    },
                ),
            },
        ],
    )
}

/// A piece of the arguments of a tool call.
pub open spec fn call_piece(event: SseEvent, json: Seq<char>) -> DeltaView {
    DeltaView::ToolFragments(
        seq![
            FragmentView {
                index: event.index,
                id: None,
                function: Some(FunctionView { name: None, arguments: Some(json) }),
            },
        ],
    )
}

pub open spec fn opt_map(text: Option<String>, f: spec_fn(Seq<char>) -> DeltaView) -> Option<DeltaView> {
    match text {
        Some(text) => Some(f(text@)),
        None => None,
    }
}

/// What an event says, given the tokens of the prompt.
pub open spec fn event_delta(event: SseEvent, input_seen: u64) -> Option<DeltaView> {
    if event.kind@ == "message_start"@ {
        None
    } else if event.kind@ == "message_delta"@ {
        match event.usage {
            Some(EventUsage { output_tokens: Some(output), .. }) => Some(
                DeltaView::Usage { input: input_seen, output },
            ),
            _ => None,
        }
    } else if event.kind@ == "content_block_start"@ {
        match event.content_block {
            Some(block) => if block.kind@ == "tool_use"@ {
                Some(call_start(event, block))
            } else {
                None
            },
            None => None,
        }
    } else if event.kind@ == "content_block_delta"@ {
        match event.delta {
            None => None,
            Some(delta) => {
                let kind = opt_view(delta.kind);
                if kind == Some("text_delta"@) {
                    opt_map(delta.text, |text: Seq<char>| DeltaView::Text(text))
                } else if kind == Some("thinking_delta"@) {
                    opt_map(delta.text, |text: Seq<char>| DeltaView::Reasoning(text))
                } else if kind == Some("input_json_delta"@) {
                    opt_map(delta.partial_json, |json: Seq<char>| call_piece(event, json))
                } else {
                    None
                }
            },
        }
    } else {
        None
    }
}

fn one_fragment(index: Option<usize>, id: Option<String>, function: ChunkFunction) -> (r: Delta)
    ensures
        r@ == DeltaView::ToolFragments(
            seq![
                FragmentView {
                    index,
                    id: opt_view(id),
                    function: Some(
                        FunctionView {
                            name: opt_view(function.name),
                            arguments: opt_view(function.arguments),
                        },
                    ),
                },
            ],
        ),
{
    let mut list: Vec<ChunkToolCall> = Vec::new();
    let ghost fragment = FragmentView {
        index,
        id: opt_view(id),
        function: Some(
            FunctionView {
                name: opt_view(function.name),
                arguments: opt_view(function.arguments),
            },
        ),
    };
    list.push(ChunkToolCall { index, id, function: Some(function) });
    assert(list@.map_values(|c: ChunkToolCall| c@) =~= seq![fragment]);
    Delta::ToolFragments(list)
}

impl DeltaParser {
    pub fn new() -> (r: DeltaParser)
        ensures
            r.input_seen == 0,
    {
        DeltaParser { input_seen: 0 }
    }

    /// What a frame says. `decoded` is the event in the frame's data, or `None`
    /// where the data holds none; a frame without data says nothing.
    pub fn delta_of(&mut self, frame: &SseFrame, decoded: Option<SseEvent>) -> (r: Option<Delta>)
        ensures
            match decoded {
                Some(event) if frame is Data => {
                    &&& opt_delta(r) == event_delta(event, old(self).input_seen)
                    &&& final(self).input_seen == (match prompt_tokens(event) {
                        Some(input) => input,
                        None => old(self).input_seen,
                    })
                },
                _ => r is None && *final(self) == *old(self),
            },
    {
        match frame {
            SseFrame::Data(_) => {},
            _ => return None,
        }
        let event = match decoded {
            Some(event) => event,
            None => return None,
        };
        let kind = event.kind.as_str();
        if str_eq(kind, "message_start") {
            if let Some(usage) = event.message_usage {
                if let Some(input) = usage.input_tokens {
                    self.input_seen = input;
                }
            }
            return None;
        }
        if str_eq(kind, "message_delta") {
            return match event.usage {
                Some(usage) => match usage.output_tokens {
                    Some(output) => Some(Delta::Usage { input: self.input_seen, output }),
                    None => None,
                },
                None => None,
            };
        }
        if str_eq(kind, "content_block_start") {
            return match event.content_block {
                Some(block) => if str_eq(block.kind.as_str(), "tool_use") {
                    let name = match &block.name {
                        Some(name) => Some(unmap_tool_name(name.as_str())),
                        None => None,
                    };
                    Some(
                        one_fragment(
                            event.index,
                            block.id,
                            ChunkFunction { name, arguments: None },
                        ),
                    )
                } else {
                    None
                },
                None => None,
            };
        }
        if str_eq(kind, "content_block_delta") {
            let delta = match event.delta {
                Some(delta) => delta,
                None => return None,
            };
            let of = match &delta.kind {
                Some(of) => of,
                None => return None,
            };
            if str_eq(of.as_str(), "text_delta") {
                return match delta.text {
                    Some(text) => Some(Delta::Text(text)),
                    None => None,
                };
            }
            if str_eq(of.as_str(), "thinking_delta") {
                return match delta.text {
                    Some(text) => Some(Delta::Reasoning(text)),
                    None => None,
                };
            }
            if str_eq(of.as_str(), "input_json_delta") {
                return match delta.partial_json {
                    Some(json) => Some(
                        one_fragment(
                            event.index,
                            None,
                            ChunkFunction { name: None, arguments: Some(json) },
                        ),
                    ),
                    None => None,
                };
            }
        }
        None
    }

    /// What a frame is to the stream.
    pub fn project(&mut self, frame: &SseFrame, decoded: Option<SseEvent>) -> (r: Projection)
        ensures
            r@ == frame_projection(frame, decoded, old(self).input_seen),
            match decoded {
                Some(event) if frame is Data => final(self).input_seen == (match prompt_tokens(event) {
                    Some(input) => input,
                    None => old(self).input_seen,
                }),
                _ => *final(self) == *old(self),
            },
    {
        let over = match (&decoded, frame) {
            (Some(event), SseFrame::Data(_)) => str_eq(event.kind.as_str(), "message_stop"),
            _ => false,
        };
        proof {
            reveal_strlit("message_stop");
            reveal_strlit("message_start");
            assert("message_stop"@.len() == 12 && "message_start"@.len() == 13);
        }
        if over {
            return Projection::Complete(None);
        }
        match self.delta_of(frame, decoded) {
            Some(delta) => Projection::Delta(delta),
            None => Projection::Ignore,
        }
    }
}

/// What a frame is to the stream: `message_stop` completes it, and what an event
/// says is handed on.
pub open spec fn frame_projection(frame: &SseFrame, decoded: Option<SseEvent>, input_seen: u64) -> ProjectionView {
    match decoded {
        Some(event) if frame is Data => if event.kind@ == "message_stop"@ {
            ProjectionView::Complete(None)
        } else {
            match event_delta(event, input_seen) {
                Some(delta) => ProjectionView::Delta(delta),
                None => ProjectionView::Ignore,
            }
        },
        _ => ProjectionView::Ignore,
    }
}

/// The stream is completed by `message_stop` alone.
pub proof fn law_only_a_stop_completes(frame: &SseFrame, decoded: Option<SseEvent>, input_seen: u64)
    requires
        frame_projection(frame, decoded, input_seen) is Complete,
    ensures
        frame is Data,
        decoded is Some && decoded->0.kind@ == "message_stop"@,
{
}

/// What an event carries is handed on as it is: text, thinking, the start of a call
/// under its own tool's name, and each piece of its arguments, at the place of its
/// block. The count of a message's output comes with that of its prompt, which the
/// message began with.
pub proof fn law_events_are_handed_on(event: SseEvent, input_seen: u64)
    ensures
        ({
            let kind = event.kind@;
            let out = event_delta(event, input_seen);
            &&& kind == "message_start"@ ==> out is None && prompt_tokens(event) == (
            match event.message_usage {
                Some(usage) => usage.input_tokens,
                None => None,
            })
            &&& kind != "message_start"@ ==> prompt_tokens(event) is None
            &&& kind == "message_delta"@ ==> (if event.usage is Some
                && event.usage->0.output_tokens is Some {
                out == Some(
                    DeltaView::Usage { input: input_seen, output: event.usage->0.output_tokens->0 },
                )
            } else {
                out is None
            })
            &&& kind == "content_block_start"@ && event.content_block is Some
                && event.content_block->0.kind@ == "tool_use"@ ==> {
                let block = event.content_block->0;
                &&& out matches Some(DeltaView::ToolFragments(list)) && list.len() == 1
                    && list[0].index == event.index && list[0].id == opt_view(block.id) && (
                list[0].function matches Some(f) && f.arguments is None && (block.name matches Some(
                    name,
                ) ==> f.name == Some(called(name@))))
            }
            &&& kind == "content_block_delta"@ && event.delta is Some ==> {
                let delta = event.delta->0;
                &&& opt_view(delta.kind) == Some("text_delta"@) && delta.text is Some ==> out == Some(
                    DeltaView::Text(delta.text->0@),
                )
                &&& opt_view(delta.kind) == Some("thinking_delta"@) && delta.text is Some ==> out
                    == Some(DeltaView::Reasoning(delta.text->0@))
                &&& opt_view(delta.kind) == Some("input_json_delta"@) && delta.partial_json is Some
                    ==> (out matches Some(DeltaView::ToolFragments(list)) && list.len() == 1
                    && list[0].index == event.index && list[0].id is None && (
                list[0].function matches Some(f) && f.name is None && f.arguments == Some(
                    delta.partial_json->0@,
                )))
            }
        }),
{
    reveal_strlit("message_start");
    reveal_strlit("message_delta");
    reveal_strlit("content_block_start");
    reveal_strlit("content_block_delta");
    reveal_strlit("text_delta");
    reveal_strlit("thinking_delta");
    reveal_strlit("input_json_delta");
    assert("message_start"@.len() == 13);
    assert("message_delta"@.len() == 13);
    assert("message_start"@[8] == 's');
    assert("message_delta"@[8] == 'd');
    assert("content_block_start"@.len() == 19);
    assert("content_block_delta"@.len() == 19);
    assert("content_block_start"@[14] == 's');
    assert("content_block_delta"@[14] == 'd');
    assert("text_delta"@.len() == 10);
    assert("thinking_delta"@.len() == 14);
    assert("input_json_delta"@.len() == 16);
}

/// A frame's event is handed on, and a stop completes the stream; a frame without
/// an event says nothing.
pub proof fn law_frames_say_their_events(frame: &SseFrame, decoded: Option<SseEvent>, input_seen: u64)
    ensures
        frame is Data && decoded is Some && decoded->0.kind@ == "message_stop"@ ==> frame_projection(
            frame,
            decoded,
            input_seen,
        ) == ProjectionView::Complete(None),
        frame is Data && decoded is Some && decoded->0.kind@ != "message_stop"@ ==> frame_projection(
            frame,
            decoded,
            input_seen,
        ) == (match event_delta(decoded->0, input_seen) {
            Some(delta) => ProjectionView::Delta(delta),
            None => ProjectionView::Ignore,
        }),
        !(frame is Data) || decoded is None ==> frame_projection(frame, decoded, input_seen)
            == ProjectionView::Ignore,
{
}

} // verus!
