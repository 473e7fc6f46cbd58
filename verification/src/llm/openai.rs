//! OpenAI's responses: requests and the event stream.

use crate::json::{
    law_field_is_found, list_view, parsed, push_json, string_or_null, text_or_null, Json, JsonView,
};
use crate::llm::sse::{payload_error, payload_error_of, FrameView, Projection, ProjectionView, SseFrame};
use crate::llm::types::{
    image_url, AssistantToolCall, ChunkFunction, ChunkToolCall, Delta, DeltaView, FragmentView, FunctionView,
    ImagePart, Message, Role, ToolDefinition,
};
use crate::llm::wire::{add_header, header_views, push_text, text_block, text_json, with_text, HttpRequest, HttpView};
use crate::text::{cat2, opt_view, str_eq};
use vstd::prelude::*;
use vstd::string::*;

verus! {

pub const SUBSCRIPTION_URL: &'static str = "https://chatgpt.com/backend-api/codex/responses";

pub const API_URL: &'static str = "https://api.openai.com/v1/responses";

pub const ORIGINATOR: &'static str = "codex_cli_rs";

pub open spec fn image_blocks(images: Seq<ImagePart>) -> Seq<JsonView> {
    images.map_values(
        |image: ImagePart|
            JsonView::object().with_str("type"@, "input_image"@).with_str(
                "image_url"@,
                image_url(image),
            ),
    )
}

/// What a user says: plain text, or the pictures and the text behind them.
pub open spec fn user_content(message: Message) -> JsonView {
    if message.images@.len() == 0 {
        JsonView::Str(message.content@)
    } else {
        JsonView::Arr(
            with_text(image_blocks(message.images@), "input_text"@, message.content@),
        )
    }
}

pub fn wire_content(message: &Message) -> (r: Json)
    ensures
        r@ == user_content(*message),
{
    if message.images.len() == 0 {
        return Json::string(message.content.as_str());
    }
    let mut blocks: Vec<Json> = Vec::new();
    let mut i: usize = 0;
    let ghost all = image_blocks(message.images@);
    assert(list_view(blocks@) =~= all.take(0));
    while i < message.images.len()
        invariant
            i <= message.images@.len(),
            all == image_blocks(message.images@),
            list_view(blocks@) == all.take(i as int),
        decreases message.images@.len() - i,
    {
        let url = message.images[i].data_url();
        let block = Json::object().with_str("type", "input_image").with_str(
            "image_url",
            url.as_str(),
        );
        assert(all.take(i + 1) =~= all.take(i as int).push(block@));
        push_json(&mut blocks, block);
        i = i + 1;
    }
    assert(all.take(i as int) =~= all);
    push_text(&mut blocks, "input_text", message.content.as_str());
    Json::array(blocks)
}

/// A message of the conversation on the wire.
pub open spec fn message_item(role: Seq<char>, content: JsonView) -> JsonView {
    JsonView::object().with_str("type"@, "message"@).with_str("role"@, role).with(
        "content"@,
        content,
    )
}

fn message_json(role: &str, content: Json) -> (r: Json)
    ensures
        r@ == message_item(role@, content@),
{
    Json::object().with_str("type", "message").with_str("role", role).with("content", content)
}

/// A call of a tool on the wire.
pub open spec fn call_item(call: AssistantToolCall) -> JsonView {
    JsonView::object()
        .with_str("type"@, "function_call"@)
        .with_str("call_id"@, call.id@)
        .with_str("name"@, call.name@)
        .with_str("arguments"@, call.arguments@)
}

pub open spec fn call_items(calls: Seq<AssistantToolCall>) -> Seq<JsonView> {
    calls.map_values(|call: AssistantToolCall| call_item(call))
}

/// One message: the assistant's text and each of its calls are items of their
/// own.
pub open spec fn items_of(message: Message) -> Seq<JsonView> {
    match message.role {
        Role::System => seq![message_item("developer"@, JsonView::Str(message.content@))],
        Role::User => seq![message_item("user"@, user_content(message))],
        Role::Assistant => (if message.content@.len() == 0 {
            Seq::empty()
        } else {
            seq![
                message_item(
                    "assistant"@,
                    JsonView::Arr(seq![text_block("output_text"@, message.content@)]),
                ),
            ]
        }) + call_items(message.tool_calls@),
        Role::Tool => seq![
            JsonView::object()
                .with_str("type"@, "function_call_output"@)
                .with("call_id"@, text_or_null(opt_view(message.tool_call_id)))
                .with_str("output"@, message.content@),
        ],
    }
}

pub open spec fn all_items(messages: Seq<Message>) -> Seq<JsonView>
    decreases messages.len(),
{
    if messages.len() == 0 {
        Seq::empty()
    } else {
        all_items(messages.drop_last()) + items_of(messages.last())
    }
}

fn push_calls(out: &mut Vec<Json>, calls: &Vec<AssistantToolCall>)
    ensures
        list_view(final(out)@) == list_view(old(out)@) + call_items(calls@),
{
    let mut i: usize = 0;
    let ghost head = list_view(out@);
    let ghost all = call_items(calls@);
    assert(head + all.take(0) =~= head);
    while i < calls.len()
        invariant
            i <= calls@.len(),
            all == call_items(calls@),
            list_view(out@) == head + all.take(i as int),
        decreases calls@.len() - i,
    {
        let item = Json::object().with_str("type", "function_call").with_str(
            "call_id",
            calls[i].id.as_str(),
        ).with_str("name", calls[i].name.as_str()).with_str(
            "arguments",
            calls[i].arguments.as_str(),
        );
        assert(head + all.take(i + 1) =~= (head + all.take(i as int)).push(item@));
        push_json(out, item);
        i = i + 1;
    }
    assert(all.take(i as int) =~= all);
}

fn push_items(out: &mut Vec<Json>, message: &Message)
    ensures
        list_view(final(out)@) == list_view(old(out)@) + items_of(*message),
{
    let ghost before = list_view(out@);
    match message.role {
        Role::System => push_json(
            out,
            message_json("developer", Json::string(message.content.as_str())),
        ),
        Role::User => push_json(out, message_json("user", wire_content(message))),
        Role::Assistant => {
            if !message.content.as_str().is_empty() {
                let mut blocks: Vec<Json> = Vec::new();
                push_json(&mut blocks, text_json("output_text", message.content.as_str()));
                assert(list_view(blocks@) =~= seq![
                    text_block("output_text"@, message.content@),
                ]);
                push_json(out, message_json("assistant", Json::array(blocks)));
            }
            push_calls(out, &message.tool_calls);
        },
        Role::Tool => {
            let id = string_or_null(&message.tool_call_id);
            push_json(
                out,
                Json::object().with_str("type", "function_call_output").with(
                    "call_id",
                    id,
                ).with_str("output", message.content.as_str()),
            );
        },
    }
    assert(list_view(out@) =~= before + items_of(*message));
}

pub fn input_items(messages: &Vec<Message>) -> (r: Vec<Json>)
    ensures
        list_view(r@) == all_items(messages@),
{
    let mut out: Vec<Json> = Vec::new();
    let mut i: usize = 0;
    assert(messages@.take(0) =~= Seq::<Message>::empty());
    while i < messages.len()
        invariant
            i <= messages@.len(),
            list_view(out@) == all_items(messages@.take(i as int)),
        decreases messages@.len() - i,
    {
        assert(messages@.take(i + 1).drop_last() =~= messages@.take(i as int));
        push_items(&mut out, &messages[i]);
        i = i + 1;
    }
    assert(messages@.take(i as int) =~= messages@);
    out
}

pub open spec fn tool_json(tool: ToolDefinition) -> JsonView {
    JsonView::object()
        .with_str("type"@, "function"@)
        .with_str("name"@, tool.name@)
        .with_str("description"@, tool.description@)
        .with("parameters"@, tool.parameters@)
}

fn tool_values(tools: &Vec<ToolDefinition>) -> (r: Vec<Json>)
    ensures
        list_view(r@) == tools@.map_values(|t: ToolDefinition| tool_json(t)),
{
    let mut out: Vec<Json> = Vec::new();
    let mut i: usize = 0;
    let ghost all = tools@.map_values(|t: ToolDefinition| tool_json(t));
    assert(list_view(out@) =~= all.take(0));
    while i < tools.len()
        invariant
            i <= tools@.len(),
            all == tools@.map_values(|t: ToolDefinition| tool_json(t)),
            list_view(out@) == all.take(i as int),
        decreases tools@.len() - i,
    {
        let parameters = tools[i].parameters.copy();
        let value = Json::object().with_str("type", "function").with_str(
            "name",
            tools[i].name.as_str(),
        ).with_str("description", tools[i].description.as_str()).with("parameters", parameters);
        assert(value@ == tool_json(tools@[i as int]));
        assert(all.take(i + 1) =~= all.take(i as int).push(value@));
        push_json(&mut out, value);
        i = i + 1;
    }
    assert(all.take(i as int) =~= all);
    out
}

/// OpenAI's responses, of a subscription or of the API.
#[derive(Debug)]
pub struct OpenAiProvider {
    pub bearer: String,
    pub account_id: Option<String>,
    pub subscription: bool,
}

pub open spec fn headers_of(bearer: Seq<char>, account_id: Option<Seq<char>>) -> Seq<(Seq<char>, Seq<char>)> {
    let plain = seq![
        ("authorization"@, "Bearer "@ + bearer),
        ("content-type"@, "application/json"@),
        ("originator"@, ORIGINATOR@),
    ];
    match account_id {
        Some(id) => plain.push(("chatgpt-account-id"@, id)),
        None => plain,
    }
}

/// The body of a request.
pub open spec fn body_of(model: Seq<char>, messages: Seq<Message>, tools: Seq<ToolDefinition>) -> JsonView {
    let plain = JsonView::object()
        .with_str("model"@, model)
        .with("input"@, JsonView::Arr(all_items(messages)))
        .with("stream"@, JsonView::Bool(true))
        .with("store"@, JsonView::Bool(false));
    if tools.len() == 0 {
        plain
    } else {
        plain.with("tools"@, JsonView::Arr(tools.map_values(|t: ToolDefinition| tool_json(t))))
    }
}

impl OpenAiProvider {
    pub fn new(bearer: String, account_id: Option<String>, subscription: bool) -> (r: OpenAiProvider)
        ensures
            r == (OpenAiProvider { bearer, account_id, subscription }),
    {
        OpenAiProvider { bearer, account_id, subscription }
    }

    /// The request that streams an answer.
    pub fn request(&self, model: &str, messages: &Vec<Message>, tools: &Vec<ToolDefinition>) -> (r:
        HttpRequest)
        ensures
            r@ == (HttpView {
                url: if self.subscription {
                    SUBSCRIPTION_URL@
                } else {
                    API_URL@
                },
                headers: headers_of(self.bearer@, opt_view(self.account_id)),
                body: body_of(model@, messages@, tools@),
            }),
    {
        let mut headers: Vec<(String, String)> = Vec::new();
        let token = cat2("Bearer ", self.bearer.as_str());
        add_header(&mut headers, "authorization", token.as_str());
        add_header(&mut headers, "content-type", "application/json");
        add_header(&mut headers, "originator", ORIGINATOR);
        if let Some(id) = &self.account_id {
            add_header(&mut headers, "chatgpt-account-id", id.as_str());
        }
        assert(header_views(headers@) =~= headers_of(self.bearer@, opt_view(self.account_id)));
        let items = input_items(messages);
        let plain = Json::object().with_str("model", model).with("input", Json::array(items)).with(
            "stream",
            Json::Bool(true),
        ).with("store", Json::Bool(false));
        let body = if tools.len() == 0 {
            plain
        } else {
            plain.with("tools", Json::array(tool_values(tools)))
        };
        let url = if self.subscription {
            SUBSCRIPTION_URL
        } else {
            API_URL
        };
        HttpRequest { url: url.to_owned(), headers, body }
    }
}

#[derive(Debug)]
pub struct OutputItem {
    pub kind: String,
    pub id: Option<String>,
    pub call_id: Option<String>,
    pub name: Option<String>,
    pub arguments: Option<String>,
}

/// Token counts, as far as a response gives them.
#[derive(Debug, Clone, Copy, PartialEq, Eq, Structural)]
pub struct Usage {
    pub input_tokens: Option<u64>,
    pub output_tokens: Option<u64>,
}

/// An event of the stream. `usage` is the one of its `response`.
#[derive(Debug)]
pub struct ResponsesEvent {
    pub kind: String,
    pub delta: Option<String>,
    pub output_index: Option<usize>,
    pub item: Option<OutputItem>,
    pub usage: Option<Usage>,
}

/// The usage of a response; one with a count missing is none.
pub open spec fn usage_of(usage: Option<Usage>) -> Option<DeltaView> {
    match usage {
        Some(Usage { input_tokens: Some(input), output_tokens: Some(output) }) => Some(
            DeltaView::Usage { input, output },
        ),
        _ => None,
    }
}

/// A complete call of a tool.
pub open spec fn call_of(event: ResponsesEvent, item: OutputItem) -> DeltaView {
    DeltaView::ToolFragments(
        seq![
            FragmentView {
                index: event.output_index,
                id: match item.call_id {
                    Some(id) => Some(id@),
                    None => opt_view(item.id),
                },
                function: Some(
                    FunctionView { name: opt_view(item.name), arguments: opt_view(item.arguments) },
                ),
            },
        ],
    )
}

pub open spec fn opt_projection(text: Option<String>, reasoning: bool) -> ProjectionView {
    match text {
        Some(text) => ProjectionView::Delta(
            if reasoning {
                DeltaView::Reasoning(text@)
            } else {
                DeltaView::Text(text@)
            },
        ),
        None => ProjectionView::Ignore,
    }
}

/// What an event is to the stream.
pub open spec fn event_projection(event: ResponsesEvent) -> ProjectionView {
    let kind = event.kind@;
    if kind == "response.output_text.delta"@ {
        opt_projection(event.delta, false)
    } else if kind == "response.reasoning_summary_text.delta"@ || kind
        == "response.reasoning_text.delta"@ {
        opt_projection(event.delta, true)
    } else if kind == "response.output_item.done"@ {
        match event.item {
            Some(item) => if item.kind@ == "function_call"@ {
                ProjectionView::Delta(call_of(event, item))
            } else {
                ProjectionView::Ignore
            },
            None => ProjectionView::Ignore,
        }
    } else if kind == "response.completed"@ {
        ProjectionView::Complete(usage_of(event.usage))
    } else if kind == "response.failed"@ || kind == "response.incomplete"@ {
        ProjectionView::Delta(DeltaView::Error("openai stream terminal error: "@ + kind))
    } else {
        ProjectionView::Ignore
    }
}

pub fn project_event(event: ResponsesEvent) -> (r: Projection)
    ensures
        r@ == event_projection(event),
{
    let kind = event.kind.as_str();
    if str_eq(kind, "response.output_text.delta") {
        return match event.delta {
            Some(text) => Projection::Delta(Delta::Text(text)),
            None => Projection::Ignore,
        };
    }
    if str_eq(kind, "response.reasoning_summary_text.delta") || str_eq(
        kind,
        "response.reasoning_text.delta",
    ) {
        return match event.delta {
            Some(text) => Projection::Delta(Delta::Reasoning(text)),
            None => Projection::Ignore,
        };
    }
    if str_eq(kind, "response.output_item.done") {
        return match event.item {
            Some(item) => if str_eq(item.kind.as_str(), "function_call") {
                let ghost whole = call_of(event, item);
                let id = match item.call_id {
                    Some(id) => Some(id),
                    None => item.id,
                };
                let mut list: Vec<ChunkToolCall> = Vec::new();
                list.push(
                    ChunkToolCall {
                        index: event.output_index,
                        id,
                        function: Some(
                            ChunkFunction { name: item.name, arguments: item.arguments },
                        ),
                    },
                );
                assert(whole->ToolFragments_0 =~= list@.map_values(|c: ChunkToolCall| c@));
                Projection::Delta(Delta::ToolFragments(list))
            } else {
                Projection::Ignore
            },
            None => Projection::Ignore,
        };
    }
    if str_eq(kind, "response.completed") {
        let usage = match event.usage {
            Some(usage) => match (usage.input_tokens, usage.output_tokens) {
                (Some(input), Some(output)) => Some(Delta::Usage { input, output }),
                _ => None,
            },
            None => None,
        };
        return Projection::Complete(usage);
    }
    if str_eq(kind, "response.failed") || str_eq(kind, "response.incomplete") {
        return Projection::Delta(Delta::Error(cat2("openai stream terminal error: ", kind)));
    }
    Projection::Ignore
}

/// What a frame is to the stream. Only `response.completed` ends it well; the
/// end mark of other protocols is an error here.
pub open spec fn frame_projection(frame: FrameView, decoded: Result<ResponsesEvent, String>) -> ProjectionView {
    match frame {
        FrameView::Invalid(error) => ProjectionView::Delta(DeltaView::Error(error)),
        FrameView::Done => ProjectionView::Delta(
            DeltaView::Error("openai stream ended without response.completed"@),
        ),
        FrameView::Data(data) => match payload_error_of("openai"@, parsed(data)) {
            Some(error) => ProjectionView::Delta(DeltaView::Error(error)),
            None => match decoded {
                Ok(event) => event_projection(event),
                Err(error) => ProjectionView::Delta(
                    DeltaView::Error("openai invalid SSE payload: "@ + error@),
                ),
            },
        },
    }
}

/// What a frame is to the stream. `decoded` is the event in the frame's data, or
/// the reason why there is none.
pub fn delta_of(frame: SseFrame, decoded: Result<ResponsesEvent, String>) -> (r: Projection)
    ensures
        r@ == frame_projection(frame@, decoded),
{
    match frame {
        SseFrame::Invalid(error) => Projection::Delta(Delta::Error(error)),
        SseFrame::Done => Projection::Delta(
            Delta::Error("openai stream ended without response.completed".to_owned()),
        ),
        SseFrame::Data(data) => match payload_error("openai", data.as_str()) {
            Some(error) => Projection::Delta(Delta::Error(error)),
            None => match decoded {
                Ok(event) => project_event(event),
                Err(error) => Projection::Delta(
                    Delta::Error(cat2("openai invalid SSE payload: ", error.as_str())),
                ),
            },
        },
    }
}

/// The stream is completed by `response.completed` alone.
pub proof fn law_only_completed_completes(frame: FrameView, decoded: Result<ResponsesEvent, String>)
    requires
        frame_projection(frame, decoded) is Complete,
    ensures
        frame is Data,
        decoded is Ok && decoded->Ok_0.kind@ == "response.completed"@,
{
}

/// What a part of the input says.
pub enum Heard {
    Text(Seq<char>, Seq<char>),
    Image(Seq<char>, Seq<char>),
    Call(Seq<char>, Seq<char>, Seq<char>),
    Output(Option<JsonView>, Seq<char>),
    Nothing,
}

pub open spec fn heard_block(role: Seq<char>, block: JsonView) -> Heard {
    match block.text_under("type"@) {
        Some(kind) => if kind == "input_text"@ || kind == "output_text"@ {
            match block.text_under("text"@) {
                Some(text) => Heard::Text(role, text),
                None => Heard::Nothing,
            }
        } else if kind == "input_image"@ {
            match block.text_under("image_url"@) {
                Some(url) => Heard::Image(role, url),
                None => Heard::Nothing,
            }
        } else {
            Heard::Nothing
        },
        None => Heard::Nothing,
    }
}

/// What an item of the input says, in its order.
pub open spec fn heard_item(item: JsonView) -> Seq<Heard> {
    match item.text_under("type"@) {
        Some(kind) => if kind == "message"@ {
            match (item.text_under("role"@), item.get("content"@)) {
                (Some(role), Some(JsonView::Str(text))) => seq![Heard::Text(role, text)],
                (Some(role), Some(JsonView::Arr(blocks))) => blocks.map_values(
                    |b: JsonView| heard_block(role, b),
                ),
                _ => Seq::empty(),
            }
        } else if kind == "function_call"@ {
            match (
                item.text_under("call_id"@),
                item.text_under("name"@),
                item.text_under("arguments"@),
            ) {
                (Some(id), Some(name), Some(arguments)) => seq![Heard::Call(id, name, arguments)],
                _ => Seq::empty(),
            }
        } else if kind == "function_call_output"@ {
            match item.text_under("output"@) {
                Some(text) => seq![Heard::Output(item.get("call_id"@), text)],
                None => Seq::empty(),
            }
        } else {
            Seq::empty()
        },
        None => Seq::empty(),
    }
}

pub open spec fn heard(items: Seq<JsonView>) -> Seq<Heard>
    decreases items.len(),
{
    if items.len() == 0 {
        Seq::empty()
    } else {
        heard(items.drop_last()) + heard_item(items.last())
    }
}

/// What a message says: a picture or a call for each that it holds, and its text.
pub open spec fn said(message: Message) -> Seq<Heard> {
    match message.role {
        Role::System => seq![Heard::Text("developer"@, message.content@)],
        Role::Tool => seq![
            Heard::Output(
                Some(
                    match message.tool_call_id {
                        Some(id) => JsonView::Str(id@),
                        None => JsonView::Null,
                    },
                ),
                message.content@,
            ),
        ],
        Role::User => if message.images@.len() == 0 {
            seq![Heard::Text("user"@, message.content@)]
        } else {
            message.images@.map_values(
                |image: ImagePart|
                    Heard::Image(
                        "user"@,
                        "data:"@ + image.media_type@ + ";base64,"@ + image.data@,
                    ),
            ) + text_said("user"@, message.content@)
        },
        Role::Assistant => text_said("assistant"@, message.content@)
            + message.tool_calls@.map_values(
            |call: AssistantToolCall| Heard::Call(call.id@, call.name@, call.arguments@),
        ),
    }
}

pub open spec fn text_said(role: Seq<char>, text: Seq<char>) -> Seq<Heard> {
    if text.len() == 0 {
        Seq::empty()
    } else {
        seq![Heard::Text(role, text)]
    }
}

/// What the messages say, in their order.
pub open spec fn all_said(messages: Seq<Message>) -> Seq<Heard>
    decreases messages.len(),
{
    if messages.len() == 0 {
        Seq::empty()
    } else {
        all_said(messages.drop_last()) + said(messages.last())
    }
}

proof fn lemma_text_block(role: Seq<char>, kind: Seq<char>, text: Seq<char>)
    requires
        kind == "input_text"@ || kind == "output_text"@,
    ensures
        heard_block(role, text_block(kind, text)) == Heard::Text(role, text),
{
    broadcast use law_field_is_found;

    reveal_strlit("type");
    reveal_strlit("text");
    assert("type"@.len() == 4);
    assert("text"@.len() == 4);
    assert("type"@[1] == 'y');
    assert("text"@[1] == 'e');
    let empty = JsonView::object();
    assert(forall|k: Seq<char>| (#[trigger] empty.get(k)) is None);
    let a = empty.with("type"@, JsonView::Str(kind));
    let block = a.with("text"@, JsonView::Str(text));
    assert(block == text_block(kind, text));
    assert(block.get("type"@) == Some(JsonView::Str(kind)));
    assert(block.get("text"@) == Some(JsonView::Str(text)));
}

proof fn lemma_image_block(role: Seq<char>, image: ImagePart)
    ensures
        heard_block(
            role,
            JsonView::object().with_str("type"@, "input_image"@).with_str(
                "image_url"@,
                image_url(image),
            ),
        ) == Heard::Image(role, "data:"@ + image.media_type@ + ";base64,"@ + image.data@),
{
    broadcast use law_field_is_found;

    reveal_strlit("type");
    reveal_strlit("image_url");
    reveal_strlit("input_text");
    reveal_strlit("output_text");
    reveal_strlit("input_image");
    assert("type"@.len() == 4);
    assert("image_url"@.len() == 9);
    assert("input_text"@.len() == 10);
    assert("output_text"@.len() == 11);
    assert("input_image"@.len() == 11);
    assert("output_text"@[0] == 'o');
    assert("input_image"@[0] == 'i');
    let empty = JsonView::object();
    assert(forall|k: Seq<char>| (#[trigger] empty.get(k)) is None);
    let a = empty.with("type"@, JsonView::Str("input_image"@));
    let block = a.with("image_url"@, JsonView::Str(image_url(image)));
    assert(block.get("type"@) == Some(JsonView::Str("input_image"@)));
    assert(block.get("image_url"@) == Some(JsonView::Str(image_url(image))));
}

proof fn lemma_message_item(role: Seq<char>, content: JsonView)
    ensures
        heard_item(message_item(role, content)) == (match content {
            JsonView::Str(text) => seq![Heard::Text(role, text)],
            JsonView::Arr(blocks) => blocks.map_values(|b: JsonView| heard_block(role, b)),
            _ => Seq::empty(),
        }),
{
    broadcast use law_field_is_found;

    reveal_strlit("type");
    reveal_strlit("role");
    reveal_strlit("content");
    assert("type"@.len() == 4);
    assert("role"@.len() == 4);
    assert("content"@.len() == 7);
    assert("type"@[0] == 't');
    assert("role"@[0] == 'r');
    let empty = JsonView::object();
    assert(forall|k: Seq<char>| (#[trigger] empty.get(k)) is None);
    let a = empty.with("type"@, JsonView::Str("message"@));
    let b = a.with("role"@, JsonView::Str(role));
    let item = b.with("content"@, content);
    assert(item == message_item(role, content));
    assert(item.get("type"@) == Some(JsonView::Str("message"@)));
    assert(item.get("role"@) == Some(JsonView::Str(role)));
    assert(item.get("content"@) == Some(content));
}

proof fn lemma_call_item(call: AssistantToolCall)
    ensures
        heard_item(call_item(call)) == seq![Heard::Call(call.id@, call.name@, call.arguments@)],
{
    broadcast use law_field_is_found;

    reveal_strlit("type");
    reveal_strlit("call_id");
    reveal_strlit("name");
    reveal_strlit("arguments");
    reveal_strlit("message");
    reveal_strlit("function_call");
    assert("type"@.len() == 4);
    assert("call_id"@.len() == 7);
    assert("name"@.len() == 4);
    assert("arguments"@.len() == 9);
    assert("message"@.len() == 7);
    assert("function_call"@.len() == 13);
    assert("type"@[0] == 't');
    assert("name"@[0] == 'n');
    assert("call_id"@[0] == 'c');
    assert("message"@[0] == 'm');
    let empty = JsonView::object();
    assert(forall|k: Seq<char>| (#[trigger] empty.get(k)) is None);
    let a = empty.with("type"@, JsonView::Str("function_call"@));
    let b = a.with("call_id"@, JsonView::Str(call.id@));
    let c = b.with("name"@, JsonView::Str(call.name@));
    let item = c.with("arguments"@, JsonView::Str(call.arguments@));
    assert(item == call_item(call));
    assert(item.get("type"@) == Some(JsonView::Str("function_call"@)));
    assert(item.get("call_id"@) == Some(JsonView::Str(call.id@)));
    assert(item.get("name"@) == Some(JsonView::Str(call.name@)));
    assert(item.get("arguments"@) == Some(JsonView::Str(call.arguments@)));
}

proof fn lemma_output_item(message: Message)
    requires
        message.role == Role::Tool,
    ensures
        heard_item(items_of(message)[0]) == said(message),
{
    broadcast use law_field_is_found;

    reveal_strlit("type");
    reveal_strlit("call_id");
    reveal_strlit("output");
    reveal_strlit("message");
    reveal_strlit("function_call");
    reveal_strlit("function_call_output");
    assert("type"@.len() == 4);
    assert("call_id"@.len() == 7);
    assert("output"@.len() == 6);
    assert("message"@.len() == 7);
    assert("function_call"@.len() == 13);
    assert("function_call_output"@.len() == 20);
    assert("call_id"@[0] == 'c');
    assert("message"@[0] == 'm');
    let empty = JsonView::object();
    assert(forall|k: Seq<char>| (#[trigger] empty.get(k)) is None);
    let id = text_or_null(opt_view(message.tool_call_id));
    let a = empty.with("type"@, JsonView::Str("function_call_output"@));
    let b = a.with("call_id"@, id);
    let item = b.with("output"@, JsonView::Str(message.content@));
    assert(item == items_of(message)[0]);
    assert(item.get("type"@) == Some(JsonView::Str("function_call_output"@)));
    assert(item.get("call_id"@) == Some(id));
    assert(item.get("output"@) == Some(JsonView::Str(message.content@)));
}

proof fn lemma_heard_joined(a: Seq<JsonView>, b: Seq<JsonView>)
    ensures
        heard(a + b) == heard(a) + heard(b),
    decreases b.len(),
{
    if b.len() == 0 {
        assert(a + b =~= a);
        assert(heard(a) + heard(b) =~= heard(a));
    } else {
        assert((a + b).drop_last() =~= a + b.drop_last());
        lemma_heard_joined(a, b.drop_last());
        assert(heard(a) + heard(b.drop_last()) + heard_item(b.last()) =~= heard(a) + heard(b));
    }
}

proof fn lemma_heard_one(item: JsonView)
    ensures
        heard(seq![item]) == heard_item(item),
{
    reveal_with_fuel(heard, 2);
    assert(seq![item].drop_last() =~= Seq::<JsonView>::empty());
    assert(Seq::<Heard>::empty() + heard_item(item) =~= heard_item(item));
}

proof fn lemma_calls_heard(calls: Seq<AssistantToolCall>)
    ensures
        heard(call_items(calls)) == calls.map_values(
            |call: AssistantToolCall| Heard::Call(call.id@, call.name@, call.arguments@),
        ),
    decreases calls.len(),
{
    let told = calls.map_values(
        |call: AssistantToolCall| Heard::Call(call.id@, call.name@, call.arguments@),
    );
    if calls.len() == 0 {
        assert(heard(call_items(calls)) =~= told);
    } else {
        let init = calls.drop_last();
        lemma_calls_heard(init);
        lemma_call_item(calls.last());
        assert(call_items(calls).drop_last() =~= call_items(init));
        assert(call_items(calls).last() == call_item(calls.last()));
        assert(heard(call_items(calls)) =~= told);
    }
}

proof fn lemma_message_heard(message: Message)
    ensures
        heard(items_of(message)) == said(message),
{
    let items = items_of(message);
    match message.role {
        Role::System => {
            lemma_message_item("developer"@, JsonView::Str(message.content@));
            lemma_heard_one(items[0]);
            assert(items =~= seq![items[0]]);
        },
        Role::User => {
            lemma_message_item("user"@, user_content(message));
            lemma_heard_one(items[0]);
            assert(items =~= seq![items[0]]);
            if message.images@.len() > 0 {
                let blocks = with_text(
                    image_blocks(message.images@),
                    "input_text"@,
                    message.content@,
                );
                assert forall|i: int| 0 <= i < blocks.len() implies heard_block(
                    "user"@,
                    #[trigger] blocks[i],
                ) == said(message)[i] by {
                    if i < message.images@.len() {
                        lemma_image_block("user"@, message.images@[i]);
                    } else {
                        lemma_text_block("user"@, "input_text"@, message.content@);
                    }
                }
                assert(heard_item(items[0]) =~= said(message));
            }
        },
        Role::Assistant => {
            lemma_calls_heard(message.tool_calls@);
            if message.content@.len() == 0 {
                assert(items =~= call_items(message.tool_calls@));
                assert(heard(items) =~= said(message));
            } else {
                let block = text_block("output_text"@, message.content@);
                let item = message_item("assistant"@, JsonView::Arr(seq![block]));
                lemma_message_item("assistant"@, JsonView::Arr(seq![block]));
                lemma_text_block("assistant"@, "output_text"@, message.content@);
                lemma_heard_one(item);
                lemma_heard_joined(seq![item], call_items(message.tool_calls@));
                assert(heard_item(item) =~= text_said("assistant"@, message.content@));
            }
        },
        Role::Tool => {
            lemma_output_item(message);
            lemma_heard_one(items[0]);
            assert(items =~= seq![items[0]]);
        },
    }
}

proof fn lemma_all_heard(messages: Seq<Message>)
    ensures
        heard(all_items(messages)) == all_said(messages),
    decreases messages.len(),
{
    if messages.len() > 0 {
        lemma_all_heard(messages.drop_last());
        lemma_message_heard(messages.last());
        lemma_heard_joined(all_items(messages.drop_last()), items_of(messages.last()));
    }
}

proof fn lemma_body_fields(model: Seq<char>, messages: Seq<Message>, tools: Seq<ToolDefinition>)
    ensures
        ({
            let body = body_of(model, messages, tools);
            &&& body.get("model"@) == Some(JsonView::Str(model))
            &&& body.get("input"@) == Some(JsonView::Arr(all_items(messages)))
            &&& body.get("stream"@) == Some(JsonView::Bool(true))
            &&& body.get("store"@) == Some(JsonView::Bool(false))
            &&& body.get("tools"@) == (if tools.len() == 0 {
                None
            } else {
                Some(JsonView::Arr(tools.map_values(|t: ToolDefinition| tool_json(t))))
            })
        }),
{
    broadcast use law_field_is_found;

    reveal_strlit("model");
    reveal_strlit("input");
    reveal_strlit("stream");
    reveal_strlit("store");
    reveal_strlit("tools");
    assert("model"@.len() == 5);
    assert("input"@.len() == 5);
    assert("stream"@.len() == 6);
    assert("store"@.len() == 5);
    assert("tools"@.len() == 5);
    assert("model"@[0] == 'm');
    assert("input"@[0] == 'i');
    assert("store"@[0] == 's');
    assert("tools"@[0] == 't');
    let empty = JsonView::object();
    assert(forall|k: Seq<char>| (#[trigger] empty.get(k)) is None);
    let input = JsonView::Arr(all_items(messages));
    let a = empty.with("model"@, JsonView::Str(model));
    let b = a.with("input"@, input);
    let c = b.with("stream"@, JsonView::Bool(true));
    let plain = c.with("store"@, JsonView::Bool(false));
    assert(plain.get("model"@) == Some(JsonView::Str(model)));
    assert(plain.get("input"@) == Some(input));
    assert(plain.get("stream"@) == Some(JsonView::Bool(true)));
    assert(plain.get("store"@) == Some(JsonView::Bool(false)));
    assert(plain.get("tools"@) is None);
    if tools.len() > 0 {
        let list = JsonView::Arr(tools.map_values(|t: ToolDefinition| tool_json(t)));
        assert(body_of(model, messages, tools) == plain.with("tools"@, list));
    } else {
        assert(body_of(model, messages, tools) == plain);
    }
}

/// Nothing that was said is lost on the wire, and nothing is added to it. Read
/// back from the fields of a request's body, the input says what the messages say,
/// in the same order and under the same roles: each text, each picture, each call
/// with its name and arguments, and each output of a tool under the call it
/// answers.
pub proof fn law_nothing_is_lost_on_the_wire(
    model: Seq<char>,
    messages: Seq<Message>,
    tools: Seq<ToolDefinition>,
)
    ensures
        match body_of(model, messages, tools).get("input"@) {
            Some(JsonView::Arr(items)) => heard(items) == all_said(messages),
            _ => false,
        },
{
    lemma_body_fields(model, messages, tools);
    lemma_all_heard(messages);
}

proof fn lemma_tool_json(tool: ToolDefinition)
    ensures
        tool_json(tool).text_under("type"@) == Some("function"@),
        tool_json(tool).text_under("name"@) == Some(tool.name@),
        tool_json(tool).text_under("description"@) == Some(tool.description@),
        tool_json(tool).get("parameters"@) == Some(tool.parameters@),
{
    broadcast use law_field_is_found;

    reveal_strlit("type");
    reveal_strlit("name");
    reveal_strlit("description");
    reveal_strlit("parameters");
    assert("type"@.len() == 4);
    assert("name"@.len() == 4);
    assert("description"@.len() == 11);
    assert("parameters"@.len() == 10);
    assert("type"@[0] == 't');
    assert("name"@[0] == 'n');
    let empty = JsonView::object();
    assert(forall|k: Seq<char>| (#[trigger] empty.get(k)) is None);
    let a = empty.with("type"@, JsonView::Str("function"@));
    let b = a.with("name"@, JsonView::Str(tool.name@));
    let c = b.with("description"@, JsonView::Str(tool.description@));
    assert(tool_json(tool) == c.with("parameters"@, tool.parameters@));
}

/// A request names its model, streams its answer, is not stored, and offers each
/// tool with its description and parameters, in order.
pub proof fn law_request_names_model_and_tools(
    model: Seq<char>,
    messages: Seq<Message>,
    tools: Seq<ToolDefinition>,
)
    ensures
        ({
            let body = body_of(model, messages, tools);
            &&& body.text_under("model"@) == Some(model)
            &&& body.get("stream"@) == Some(JsonView::Bool(true))
            &&& body.get("store"@) == Some(JsonView::Bool(false))
            &&& tools.len() == 0 ==> body.get("tools"@) is None
            &&& tools.len() > 0 ==> match body.get("tools"@) {
                Some(JsonView::Arr(list)) => {
                    &&& list.len() == tools.len()
                    &&& forall|i: int|
                        0 <= i < tools.len() ==> (#[trigger] list[i]).text_under("name"@) == Some(
                            tools[i].name@,
                        ) && list[i].text_under("description"@) == Some(tools[i].description@)
                            && list[i].get("parameters"@) == Some(tools[i].parameters@)
                },
                _ => false,
            }
        }),
{
    lemma_body_fields(model, messages, tools);
    if tools.len() > 0 {
        let list = tools.map_values(|t: ToolDefinition| tool_json(t));
        assert forall|i: int| 0 <= i < tools.len() implies (#[trigger] list[i]).text_under("name"@)
            == Some(tools[i].name@) && list[i].text_under("description"@) == Some(
            tools[i].description@,
        ) && list[i].get("parameters"@) == Some(tools[i].parameters@) by {
            lemma_tool_json(tools[i]);
        }
    }
}

/// The token goes out behind `Bearer`, and the account where there is one.
pub proof fn law_headers_carry_the_credential(bearer: Seq<char>, account_id: Option<Seq<char>>)
    ensures
        ({
            let headers = headers_of(bearer, account_id);
            &&& headers.contains(("authorization"@, "Bearer "@ + bearer))
            &&& headers.contains(("content-type"@, "application/json"@))
            &&& account_id matches Some(id) ==> headers.contains(("chatgpt-account-id"@, id))
            &&& headers.len() == if account_id is Some {
                4int
            } else {
                3int
            }
        }),
{
    let headers = headers_of(bearer, account_id);
    assert(headers[0] == ("authorization"@, "Bearer "@ + bearer));
    assert(headers[1] == ("content-type"@, "application/json"@));
    if let Some(id) = account_id {
        assert(headers[3] == ("chatgpt-account-id"@, id));
    }
}

/// What an event carries is handed on as it is: a piece of the answer as text, one
/// of the reasoning as reasoning, a finished call with its name and arguments
/// under its call's id, and the counts of a completed response where it has both.
/// A response that failed ends in an error.
pub proof fn law_events_are_handed_on(event: ResponsesEvent)
    ensures
        ({
            let kind = event.kind@;
            let out = event_projection(event);
            &&& kind == "response.output_text.delta"@ ==> out == (match event.delta {
                Some(text) => ProjectionView::Delta(DeltaView::Text(text@)),
                None => ProjectionView::Ignore,
            })
            &&& kind == "response.reasoning_text.delta"@ || kind
                == "response.reasoning_summary_text.delta"@ ==> out == (match event.delta {
                Some(text) => ProjectionView::Delta(DeltaView::Reasoning(text@)),
                None => ProjectionView::Ignore,
            })
            &&& kind == "response.output_item.done"@ && event.item is Some && event.item->0.kind@
                == "function_call"@ ==> {
                let item = event.item->0;
                &&& out is Delta
                &&& out->Delta_0 is ToolFragments
                &&& out->Delta_0->ToolFragments_0.len() == 1
                &&& out->Delta_0->ToolFragments_0[0].index == event.output_index
                &&& item.call_id is Some ==> out->Delta_0->ToolFragments_0[0].id == opt_view(
                    item.call_id,
                )
                &&& item.call_id is None ==> out->Delta_0->ToolFragments_0[0].id == opt_view(item.id)
                &&& out->Delta_0->ToolFragments_0[0].function matches Some(f) && f.name == opt_view(
                    item.name,
                ) && f.arguments == opt_view(item.arguments)
            }
            &&& kind == "response.completed"@ ==> out == ProjectionView::Complete(
                match event.usage {
                    Some(usage) => if usage.input_tokens is Some && usage.output_tokens is Some {
                        Some(
                            DeltaView::Usage {
                                input: usage.input_tokens->0,
                                output: usage.output_tokens->0,
                            },
                        )
                    } else {
                        None
                    },
                    None => None,
                },
            )
            &&& kind == "response.failed"@ || kind == "response.incomplete"@ ==> out is Delta
                && out->Delta_0 is Error
        }),
{
    reveal_strlit("response.output_text.delta");
    reveal_strlit("response.reasoning_text.delta");
    reveal_strlit("response.reasoning_summary_text.delta");
    reveal_strlit("response.output_item.done");
    reveal_strlit("response.completed");
    reveal_strlit("response.failed");
    reveal_strlit("response.incomplete");
    assert("response.output_text.delta"@.len() == 26);
    assert("response.reasoning_text.delta"@.len() == 29);
    assert("response.reasoning_summary_text.delta"@.len() == 37);
    assert("response.output_item.done"@.len() == 25);
    assert("response.completed"@.len() == 18);
    assert("response.failed"@.len() == 15);
    assert("response.incomplete"@.len() == 19);
}

/// A frame that cannot be read, an error in its payload, an end mark, and an event
/// that cannot be decoded each end in an error; none of them is taken for the end
/// of the answer.
pub proof fn law_broken_frames_are_errors(
    frame: FrameView,
    decoded: Result<ResponsesEvent, String>,
)
    ensures
        frame is Invalid ==> frame_projection(frame, decoded) == ProjectionView::Delta(
            DeltaView::Error(frame->Invalid_0),
        ),
        frame is Done ==> frame_projection(frame, decoded) is Delta && frame_projection(
            frame,
            decoded,
        )->Delta_0 is Error,
        frame matches FrameView::Data(data) ==> {
            let error = payload_error_of("openai"@, parsed(data));
            &&& error matches Some(e) ==> frame_projection(frame, decoded) == ProjectionView::Delta(
                DeltaView::Error(e),
            )
            &&& error is None && decoded is Err ==> frame_projection(frame, decoded) is Delta
                && frame_projection(frame, decoded)->Delta_0 is Error
            &&& error is None && decoded is Ok ==> frame_projection(frame, decoded)
                == event_projection(decoded->Ok_0)
        },
{
}

} // verus!
