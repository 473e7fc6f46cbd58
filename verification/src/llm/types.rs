//! Messages to a model and the pieces of its answer.

use crate::json::{Json, JsonView};
use crate::text::{cat4, opt_view};
use vstd::prelude::*;

verus! {

#[derive(Debug, Clone, Copy, PartialEq, Eq, Structural)]
pub enum Role {
    System,
    User,
    Assistant,
    Tool,
}

/// A picture in base64.
#[derive(Debug, PartialEq, Eq)]
pub struct ImagePart {
    pub media_type: String,
    pub data: String,
}

/// The picture as a `data:` URL.
pub open spec fn image_url(image: ImagePart) -> Seq<char> {
    "data:"@ + image.media_type@ + ";base64,"@ + image.data@
}

impl ImagePart {
    pub fn data_url(&self) -> (r: String)
        ensures
            r@ == image_url(*self),
    {
        cat4("data:", self.media_type.as_str(), ";base64,", self.data.as_str())
    }
}

/// A call that the model asked for; the arguments are JSON text.
#[derive(Debug, PartialEq, Eq)]
pub struct AssistantToolCall {
    pub id: String,
    pub name: String,
    pub arguments: String,
}

#[derive(Debug, PartialEq, Eq)]
pub struct Message {
    pub role: Role,
    pub content: String,
    pub images: Vec<ImagePart>,
    pub tool_calls: Vec<AssistantToolCall>,
    pub tool_call_id: Option<String>,
    pub name: Option<String>,
}

impl Message {
    pub fn user(content: &str) -> (r: Message)
        ensures
            r.role == Role::User,
            r.content@ == content@,
            r.images@.len() == 0,
            r.tool_calls@.len() == 0,
            r.tool_call_id is None,
            r.name is None,
    {
        Message {
            role: Role::User,
            content: content.to_owned(),
            images: Vec::new(),
            tool_calls: Vec::new(),
            tool_call_id: None,
            name: None,
        }
    }
}

/// A tool that the model may call, with the JSON schema of its arguments.
#[derive(Debug)]
pub struct ToolDefinition {
    pub name: String,
    pub description: String,
    pub parameters: Json,
}

/// The function that a piece of a tool call speaks of.
#[derive(Debug, PartialEq, Eq)]
pub struct ChunkFunction {
    pub name: Option<String>,
    pub arguments: Option<String>,
}

/// A piece of a tool call, as a stream hands it out.
#[derive(Debug, PartialEq, Eq)]
pub struct ChunkToolCall {
    pub index: Option<usize>,
    pub id: Option<String>,
    pub function: Option<ChunkFunction>,
}

#[verifier::ext_equal]
pub struct FunctionView {
    pub name: Option<Seq<char>>,
    pub arguments: Option<Seq<char>>,
}

#[verifier::ext_equal]
pub struct FragmentView {
    pub index: Option<usize>,
    pub id: Option<Seq<char>>,
    pub function: Option<FunctionView>,
}

impl View for ChunkToolCall {
    type V = FragmentView;

    open spec fn view(&self) -> FragmentView {
        FragmentView {
            index: self.index,
            id: opt_view(self.id),
            function: match self.function {
                Some(f) => Some(
                    FunctionView { name: opt_view(f.name), arguments: opt_view(f.arguments) },
                ),
                None => None,
            },
        }
    }
}

/// One event of a model's answer.
#[derive(Debug)]
#[allow(inconsistent_fields)]
pub enum Delta {
    Text(String),
    Reasoning(String),
    ToolFragments(Vec<ChunkToolCall>),
    ToolCall { name: String, input: Json },
    Usage { input: u64, output: u64 },
    Error(String),
    Done,
}

#[allow(inconsistent_fields)]
pub enum DeltaView {
    Text(Seq<char>),
    Reasoning(Seq<char>),
    ToolFragments(Seq<FragmentView>),
    ToolCall { name: Seq<char>, input: JsonView },
    Usage { input: u64, output: u64 },
    Error(Seq<char>),
    Done,
}

impl View for Delta {
    type V = DeltaView;

    open spec fn view(&self) -> DeltaView {
        match *self {
            Delta::Text(text) => DeltaView::Text(text@),
            Delta::Reasoning(text) => DeltaView::Reasoning(text@),
            Delta::ToolFragments(list) => DeltaView::ToolFragments(
                list@.map_values(|c: ChunkToolCall| c@),
            ),
            Delta::ToolCall { name, input } => DeltaView::ToolCall { name: name@, input: input@ },
            Delta::Usage { input, output } => DeltaView::Usage { input, output },
            Delta::Error(text) => DeltaView::Error(text@),
            Delta::Done => DeltaView::Done,
        }
    }
}

/// A list of events, by their views.
pub open spec fn delta_views(list: Seq<Delta>) -> Seq<DeltaView> {
    list.map_values(|d: Delta| d@)
}

pub open spec fn opt_delta(delta: Option<Delta>) -> Option<DeltaView> {
    match delta {
        Some(d) => Some(d@),
        None => None,
    }
}

/// A provider, one of its models, and the account to use.
#[derive(Debug, PartialEq, Eq)]
pub struct ModelRef {
    pub provider: String,
    pub model: String,
    pub account: Option<String>,
}

} // verus!
