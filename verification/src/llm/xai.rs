//! OpenAI's chat completions, as most providers speak them: requests and the
//! event stream.

use crate::json::{law_field_is_found, list_view, parsed, push_json, Json, JsonView};
use crate::llm::sse::{payload_error, payload_error_of, FrameView, Projection, ProjectionView, SseFrame};
use crate::llm::types::{
    image_url, AssistantToolCall, ChunkToolCall, Delta, DeltaView, ImagePart, Message, Role, ToolDefinition,
};
use crate::llm::wire::{add_header, header_views, push_text, with_text, HttpRequest, HttpView};
use crate::text::{cat2, opt_view};
use vstd::prelude::*;

verus! {

pub open spec fn image_blocks(images: Seq<ImagePart>) -> Seq<JsonView> {
    images.map_values(
        |image: ImagePart|
            JsonView::object().with_str("type"@, "image_url"@).with(
                "image_url"@,
                JsonView::object().with_str("url"@, image_url(image)),
            ),
    )
}

/// What a message says: plain text, or the pictures and the text behind them.
pub open spec fn content_of(message: Message) -> JsonView {
    if message.images@.len() == 0 {
        JsonView::Str(message.content@)
    } else {
        JsonView::Arr(with_text(image_blocks(message.images@), "text"@, message.content@))
    }
}

fn wire_content(message: &Message) -> (r: Json)
    ensures
        r@ == content_of(*message),
{
    if message.images.len() == 0 {
        return Json::string(message.content.as_str());
    }
    let mut blocks: Vec<Json> = Vec::new();
    let mut i: usize = 0;
    let ghost all = image_blocks(message.images@);
    assert(list_view(blocks@) =~= all.take(0));
    while i < message.images.len()
        invariant
            i <= message.images@.len(),
            all == image_blocks(message.images@),
            list_view(blocks@) == all.take(i as int),
        decreases message.images@.len() - i,
    {
        let url = message.images[i].data_url();
        let inner = Json::object().with_str("url", url.as_str());
        let block = Json::object().with_str("type", "image_url").with("image_url", inner);
        assert(all.take(i + 1) =~= all.take(i as int).push(block@));
        push_json(&mut blocks, block);
        i = i + 1;
    }
    assert(all.take(i as int) =~= all);
    push_text(&mut blocks, "text", message.content.as_str());
    Json::array(blocks)
}

pub open spec fn role_of(role: Role) -> Seq<char> {
    match role {
        Role::System => "system"@,
        Role::User => "user"@,
        Role::Assistant => "assistant"@,
        Role::Tool => "tool"@,
    }
}

fn role_name(role: Role) -> (r: &'static str)
    ensures
        r@ == role_of(role),
{
    match role {
        Role::System => "system",
        Role::User => "user",
        Role::Assistant => "assistant",
        Role::Tool => "tool",
    }
}

pub open spec fn call_json(call: AssistantToolCall) -> JsonView {
    JsonView::object().with_str("id"@, call.id@).with_str("type"@, "function"@).with(
        "function"@,
        JsonView::object().with_str("name"@, call.name@).with_str("arguments"@, call.arguments@),
    )
}

pub open spec fn call_jsons(calls: Seq<AssistantToolCall>) -> Seq<JsonView> {
    calls.map_values(|call: AssistantToolCall| call_json(call))
}

fn call_values(calls: &Vec<AssistantToolCall>) -> (r: Vec<Json>)
    ensures
        list_view(r@) == call_jsons(calls@),
{
    let mut out: Vec<Json> = Vec::new();
    let mut i: usize = 0;
    let ghost all = call_jsons(calls@);
    assert(list_view(out@) =~= all.take(0));
    while i < calls.len()
        invariant
            i <= calls@.len(),
            all == call_jsons(calls@),
            list_view(out@) == all.take(i as int),
        decreases calls@.len() - i,
    {
        let function = Json::object().with_str("name", calls[i].name.as_str()).with_str(
            "arguments",
            calls[i].arguments.as_str(),
        );
        let value = Json::object().with_str("id", calls[i].id.as_str()).with_str(
            "type",
            "function",
        ).with("function", function);
        assert(value@ == call_json(calls@[i as int]));
        assert(all.take(i + 1) =~= all.take(i as int).push(value@));
        push_json(&mut out, value);
        i = i + 1;
    }
    assert(all.take(i as int) =~= all);
    out
}

pub open spec fn with_text_field(value: JsonView, key: Seq<char>, text: Option<Seq<char>>) -> JsonView {
    match text {
        Some(text) => value.with_str(key, text),
        None => value,
    }
}

fn add_text_field(value: Json, key: &str, text: &Option<String>) -> (r: Json)
    ensures
        r@ == with_text_field(value@, key@, opt_view(*text)),
{
    match text {
        Some(text) => value.with_str(key, text.as_str()),
        None => value,
    }
}

/// A message on the wire; fields without a value are left out.
pub open spec fn message_json(message: Message) -> JsonView {
    let plain = JsonView::object().with_str("role"@, role_of(message.role)).with(
        "content"@,
        content_of(message),
    );
    let called = if message.tool_calls@.len() == 0 {
        plain
    } else {
        plain.with("tool_calls"@, JsonView::Arr(call_jsons(message.tool_calls@)))
    };
    with_text_field(
        with_text_field(called, "tool_call_id"@, opt_view(message.tool_call_id)),
        "name"@,
        opt_view(message.name),
    )
}

pub fn wire_message(message: &Message) -> (r: Json)
    ensures
        r@ == message_json(*message),
{
    let content = wire_content(message);
    let plain = Json::object().with_str("role", role_name(message.role)).with("content", content);
    let called = if message.tool_calls.len() == 0 {
        plain
    } else {
        plain.with("tool_calls", Json::array(call_values(&message.tool_calls)))
    };
    let answered = add_text_field(called, "tool_call_id", &message.tool_call_id);
    add_text_field(answered, "name", &message.name)
}

fn message_values(messages: &Vec<Message>) -> (r: Vec<Json>)
    ensures
        list_view(r@) == messages@.map_values(|m: Message| message_json(m)),
{
    let mut out: Vec<Json> = Vec::new();
    let mut i: usize = 0;
    let ghost all = messages@.map_values(|m: Message| message_json(m));
    assert(list_view(out@) =~= all.take(0));
    while i < messages.len()
        invariant
            i <= messages@.len(),
            all == messages@.map_values(|m: Message| message_json(m)),
            list_view(out@) == all.take(i as int),
        decreases messages@.len() - i,
    {
        let value = wire_message(&messages[i]);
        assert(all.take(i + 1) =~= all.take(i as int).push(value@));
        push_json(&mut out, value);
        i = i + 1;
    }
    assert(all.take(i as int) =~= all);
    out
}

pub open spec fn tool_json(tool: ToolDefinition) -> JsonView {
    JsonView::object().with_str("type"@, "function"@).with(
        "function"@,
        JsonView::object()
            .with_str("name"@, tool.name@)
            .with_str("description"@, tool.description@)
            .with("parameters"@, tool.parameters@),
    )
}

fn tool_values(tools: &Vec<ToolDefinition>) -> (r: Vec<Json>)
    ensures
        list_view(r@) == tools@.map_values(|t: ToolDefinition| tool_json(t)),
{
    let mut out: Vec<Json> = Vec::new();
    let mut i: usize = 0;
    let ghost all = tools@.map_values(|t: ToolDefinition| tool_json(t));
    assert(list_view(out@) =~= all.take(0));
    while i < tools.len()
        invariant
            i <= tools@.len(),
            all == tools@.map_values(|t: ToolDefinition| tool_json(t)),
            list_view(out@) == all.take(i as int),
        decreases tools@.len() - i,
    {
        let parameters = tools[i].parameters.copy();
        let function = Json::object().with_str("name", tools[i].name.as_str()).with_str(
            "description",
            tools[i].description.as_str(),
        ).with("parameters", parameters);
        let value = Json::object().with_str("type", "function").with("function", function);
        assert(value@ == tool_json(tools@[i as int]));
        assert(all.take(i + 1) =~= all.take(i as int).push(value@));
        push_json(&mut out, value);
        i = i + 1;
    }
    assert(all.take(i as int) =~= all);
    out
}

/// An endpoint that speaks chat completions, with headers of its own.
#[derive(Debug)]
pub struct XaiProvider {
    pub url: String,
    pub bearer: String,
    pub extra_headers: Vec<(String, String)>,
}

/// The body of a request. Usage is asked for: the endpoint reports none
/// otherwise.
pub open spec fn body_of(model: Seq<char>, messages: Seq<Message>, tools: Seq<ToolDefinition>) -> JsonView {
    let plain = JsonView::object()
        .with_str("model"@, model)
        .with(
            "messages"@,
            JsonView::Arr(messages.map_values(|m: Message| message_json(m))),
        )
        .with("stream"@, JsonView::Bool(true))
        .with(
            "stream_options"@,
            JsonView::object().with("include_usage"@, JsonView::Bool(true)),
        );
    if tools.len() == 0 {
        plain
    } else {
        plain.with("tools"@, JsonView::Arr(tools.map_values(|t: ToolDefinition| tool_json(t))))
    }
}

impl XaiProvider {
    pub fn custom(base_url: String, bearer: String) -> (r: XaiProvider)
        ensures
            r.url == base_url,
            r.bearer == bearer,
            r.extra_headers@.len() == 0,
    {
        XaiProvider { url: base_url, bearer, extra_headers: Vec::new() }
    }

    pub fn with_extra_headers(self, headers: Vec<(String, String)>) -> (r: XaiProvider)
        ensures
            r == (XaiProvider { extra_headers: headers, ..self }),
    {
        XaiProvider { url: self.url, bearer: self.bearer, extra_headers: headers }
    }

    /// The request that streams an answer: the token first, then the extra
    /// headers.
    pub fn request(&self, model: &str, messages: &Vec<Message>, tools: &Vec<ToolDefinition>) -> (r:
        HttpRequest)
        ensures
            r@ == (HttpView {
                url: self.url@,
                headers: seq![("authorization"@, "Bearer "@ + self.bearer@)] + header_views(
                    self.extra_headers@,
                ),
                body: body_of(model@, messages@, tools@),
            }),
    {
        let mut headers: Vec<(String, String)> = Vec::new();
        let token = cat2("Bearer ", self.bearer.as_str());
        add_header(&mut headers, "authorization", token.as_str());
        let ghost first = seq![("authorization"@, "Bearer "@ + self.bearer@)];
        assert(header_views(headers@) =~= first);
        let mut i: usize = 0;
        let ghost extra = header_views(self.extra_headers@);
        assert(first + extra.take(0) =~= first);
        while i < self.extra_headers.len()
            invariant
                i <= self.extra_headers@.len(),
                extra == header_views(self.extra_headers@),
                header_views(headers@) == first + extra.take(i as int),
            decreases self.extra_headers@.len() - i,
        {
            let pair = &self.extra_headers[i];
            assert(first + extra.take(i + 1) =~= (first + extra.take(i as int)).push(
                (pair.0@, pair.1@),
            ));
            add_header(&mut headers, pair.0.as_str(), pair.1.as_str());
            i = i + 1;
        }
        assert(extra.take(i as int) =~= extra);
        let turns = message_values(messages);
        let options = Json::object().with("include_usage", Json::Bool(true));
        let plain = Json::object().with_str("model", model).with(
            "messages",
            Json::array(turns),
        ).with("stream", Json::Bool(true)).with("stream_options", options);
        let body = if tools.len() == 0 {
            plain
        } else {
            plain.with("tools", Json::array(tool_values(tools)))
        };
        HttpRequest { url: self.url.clone(), headers, body }
    }
}

#[derive(Debug)]
pub struct ChunkDelta {
    pub content: Option<String>,
    pub reasoning_content: Option<String>,
    pub tool_calls: Vec<ChunkToolCall>,
}

/// Token counts, as far as a chunk gives them.
#[derive(Debug, Clone, Copy, PartialEq, Eq, Structural)]
pub struct Usage {
    pub prompt_tokens: Option<u64>,
    pub completion_tokens: Option<u64>,
}

/// A chunk of the stream, with the delta of each of its choices.
#[derive(Debug)]
pub struct ChatChunk {
    pub choices: Vec<ChunkDelta>,
    pub usage: Option<Usage>,
}

/// What a chunk is to the stream. One with usage reports it, if it is complete,
/// and nothing else; of the choices the first one counts, and of what it holds
/// calls come before reasoning, and reasoning before text.
pub open spec fn chunk_projection(chunk: ChatChunk) -> ProjectionView {
    match chunk.usage {
        Some(usage) => match (usage.prompt_tokens, usage.completion_tokens) {
            (Some(input), Some(output)) => ProjectionView::Delta(DeltaView::Usage { input, output }),
            _ => ProjectionView::Ignore,
        },
        None => if chunk.choices@.len() == 0 {
            ProjectionView::Ignore
        } else {
            let delta = chunk.choices@[0];
            if delta.tool_calls@.len() > 0 {
                ProjectionView::Delta(
                    DeltaView::ToolFragments(
                        delta.tool_calls@.map_values(|c: ChunkToolCall| c@),
                    ),
                )
            } else {
                match (delta.reasoning_content, delta.content) {
                    (Some(text), _) => ProjectionView::Delta(DeltaView::Reasoning(text@)),
                    (None, Some(text)) => ProjectionView::Delta(DeltaView::Text(text@)),
                    (None, None) => ProjectionView::Ignore,
                }
            }
        },
    }
}

pub fn project_chunk(chunk: ChatChunk) -> (r: Projection)
    ensures
        r@ == chunk_projection(chunk),
{
    if let Some(usage) = chunk.usage {
        return match (usage.prompt_tokens, usage.completion_tokens) {
            (Some(input), Some(output)) => Projection::Delta(Delta::Usage { input, output }),
            _ => Projection::Ignore,
        };
    }
    let mut choices = chunk.choices;
    if choices.len() == 0 {
        return Projection::Ignore;
    }
    let delta = choices.remove(0);
    if delta.tool_calls.len() > 0 {
        return Projection::Delta(Delta::ToolFragments(delta.tool_calls));
    }
    if let Some(reasoning) = delta.reasoning_content {
        return Projection::Delta(Delta::Reasoning(reasoning));
    }
    match delta.content {
        Some(text) => Projection::Delta(Delta::Text(text)),
        None => Projection::Ignore,
    }
}

/// What a frame is to the stream. The end mark completes it.
pub open spec fn frame_projection(frame: FrameView, decoded: Result<ChatChunk, String>) -> ProjectionView {
    match frame {
        FrameView::Done => ProjectionView::Complete(None),
        FrameView::Invalid(error) => ProjectionView::Delta(DeltaView::Error(error)),
        FrameView::Data(data) => match payload_error_of("xai"@, parsed(data)) {
            Some(error) => ProjectionView::Delta(DeltaView::Error(error)),
            None => match decoded {
                Ok(chunk) => chunk_projection(chunk),
                Err(error) => ProjectionView::Delta(
                    DeltaView::Error("xai invalid SSE payload: "@ + error@),
                ),
            },
        },
    }
}

/// What a frame is to the stream. `decoded` is the chunk in the frame's data, or
/// the reason why there is none.
pub fn delta_of(frame: SseFrame, decoded: Result<ChatChunk, String>) -> (r: Projection)
    ensures
        r@ == frame_projection(frame@, decoded),
{
    match frame {
        SseFrame::Done => Projection::Complete(None),
        SseFrame::Invalid(error) => Projection::Delta(Delta::Error(error)),
        SseFrame::Data(data) => match payload_error("xai", data.as_str()) {
            Some(error) => Projection::Delta(Delta::Error(error)),
            None => match decoded {
                Ok(chunk) => project_chunk(chunk),
                Err(error) => Projection::Delta(
                    Delta::Error(cat2("xai invalid SSE payload: ", error.as_str())),
                ),
            },
        },
    }
}

/// Usage that is incomplete is not reported: no count is taken for zero.
pub proof fn law_incomplete_usage_is_not_reported(chunk: ChatChunk)
    requires
        chunk_projection(chunk) is Delta,
        chunk_projection(chunk)->Delta_0 is Usage,
    ensures
        chunk.usage matches Some(usage) && usage.prompt_tokens == Some(
            chunk_projection(chunk)->Delta_0->Usage_input,
        ) && usage.completion_tokens == Some(chunk_projection(chunk)->Delta_0->Usage_output),
{
}

/// What a part of a message says.
pub enum Heard {
    Text(Seq<char>),
    Image(Seq<char>),
    Nothing,
}

pub open spec fn heard_block(block: JsonView) -> Heard {
    match block.text_under("type"@) {
        Some(kind) => if kind == "text"@ {
            match block.text_under("text"@) {
                Some(text) => Heard::Text(text),
                None => Heard::Nothing,
            }
        } else if kind == "image_url"@ {
            match block.get("image_url"@) {
                Some(inner) => match inner.text_under("url"@) {
                    Some(url) => Heard::Image(url),
                    None => Heard::Nothing,
                },
                None => Heard::Nothing,
            }
        } else {
            Heard::Nothing
        },
        None => Heard::Nothing,
    }
}

pub open spec fn heard_content(content: JsonView) -> Seq<Heard> {
    match content {
        JsonView::Str(text) => seq![Heard::Text(text)],
        JsonView::Arr(blocks) => blocks.map_values(|b: JsonView| heard_block(b)),
        _ => Seq::empty(),
    }
}

/// What a message says: its text, and behind its pictures only where there is any.
pub open spec fn said(message: Message) -> Seq<Heard> {
    if message.images@.len() == 0 {
        seq![Heard::Text(message.content@)]
    } else {
        message.images@.map_values(
            |image: ImagePart|
                Heard::Image("data:"@ + image.media_type@ + ";base64,"@ + image.data@),
        ) + (if message.content@.len() == 0 {
            Seq::empty()
        } else {
            seq![Heard::Text(message.content@)]
        })
    }
}

proof fn lemma_text_block(text: Seq<char>)
    ensures
        heard_block(crate::llm::wire::text_block("text"@, text)) == Heard::Text(text),
{
    broadcast use law_field_is_found;

    reveal_strlit("type");
    reveal_strlit("text");
    assert("type"@.len() == 4);
    assert("text"@.len() == 4);
    assert("type"@[1] == 'y');
    assert("text"@[1] == 'e');
    let empty = JsonView::object();
    assert(forall|k: Seq<char>| (#[trigger] empty.get(k)) is None);
    let a = empty.with("type"@, JsonView::Str("text"@));
    let block = a.with("text"@, JsonView::Str(text));
    assert(block.get("type"@) == Some(JsonView::Str("text"@)));
    assert(block.get("text"@) == Some(JsonView::Str(text)));
}

proof fn lemma_image_block(image: ImagePart)
    ensures
        heard_block(
            JsonView::object().with_str("type"@, "image_url"@).with(
                "image_url"@,
                JsonView::object().with_str("url"@, image_url(image)),
            ),
        ) == Heard::Image("data:"@ + image.media_type@ + ";base64,"@ + image.data@),
{
    broadcast use law_field_is_found;

    reveal_strlit("type");
    reveal_strlit("text");
    reveal_strlit("image_url");
    assert("type"@.len() == 4);
    assert("text"@.len() == 4);
    assert("image_url"@.len() == 9);
    assert("type"@[1] == 'y');
    assert("text"@[1] == 'e');
    let empty = JsonView::object();
    assert(forall|k: Seq<char>| (#[trigger] empty.get(k)) is None);
    let inner = empty.with("url"@, JsonView::Str(image_url(image)));
    let a = empty.with("type"@, JsonView::Str("image_url"@));
    let block = a.with("image_url"@, inner);
    assert(inner.get("url"@) == Some(JsonView::Str(image_url(image))));
    assert(block.get("type"@) == Some(JsonView::Str("image_url"@)));
    assert(block.get("image_url"@) == Some(inner));
}

proof fn lemma_content(message: Message)
    ensures
        heard_content(content_of(message)) == said(message),
{
    if message.images@.len() > 0 {
        let blocks = with_text(image_blocks(message.images@), "text"@, message.content@);
        assert forall|i: int| 0 <= i < blocks.len() implies heard_block(#[trigger] blocks[i])
            == said(message)[i] by {
            if i < message.images@.len() {
                lemma_image_block(message.images@[i]);
            } else {
                lemma_text_block(message.content@);
            }
        }
    }
    assert(heard_content(content_of(message)) =~= said(message));
}

proof fn lemma_call_json(call: AssistantToolCall)
    ensures
        call_json(call).text_under("id"@) == Some(call.id@),
        call_json(call).text_under("type"@) == Some("function"@),
        call_json(call).get("function"@) matches Some(f) && f.text_under("name"@) == Some(call.name@)
            && f.text_under("arguments"@) == Some(call.arguments@),
{
    broadcast use law_field_is_found;

    reveal_strlit("id");
    reveal_strlit("type");
    reveal_strlit("function");
    reveal_strlit("name");
    reveal_strlit("arguments");
    assert("id"@.len() == 2);
    assert("type"@.len() == 4);
    assert("function"@.len() == 8);
    assert("name"@.len() == 4);
    assert("arguments"@.len() == 9);
    assert("type"@[0] == 't');
    assert("name"@[0] == 'n');
    let empty = JsonView::object();
    assert(forall|k: Seq<char>| (#[trigger] empty.get(k)) is None);
    let a = empty.with("name"@, JsonView::Str(call.name@));
    let f = a.with("arguments"@, JsonView::Str(call.arguments@));
    let b = empty.with("id"@, JsonView::Str(call.id@));
    let c = b.with("type"@, JsonView::Str("function"@));
    let value = c.with("function"@, f);
    assert(value == call_json(call));
    assert(value.get("function"@) == Some(f));
}

proof fn lemma_message_fields(message: Message)
    ensures
        ({
            let value = message_json(message);
            &&& value.get("role"@) == Some(JsonView::Str(role_of(message.role)))
            &&& value.get("content"@) == Some(content_of(message))
            &&& value.get("tool_calls"@) == (if message.tool_calls@.len() == 0 {
                None
            } else {
                Some(JsonView::Arr(call_jsons(message.tool_calls@)))
            })
            &&& value.get("tool_call_id"@) == (match message.tool_call_id {
                Some(id) => Some(JsonView::Str(id@)),
                None => None,
            })
            &&& value.get("name"@) == (match message.name {
                Some(name) => Some(JsonView::Str(name@)),
                None => None,
            })
        }),
{
    broadcast use law_field_is_found;

    reveal_strlit("role");
    reveal_strlit("content");
    reveal_strlit("tool_calls");
    reveal_strlit("tool_call_id");
    reveal_strlit("name");
    assert("role"@.len() == 4);
    assert("content"@.len() == 7);
    assert("tool_calls"@.len() == 10);
    assert("tool_call_id"@.len() == 12);
    assert("name"@.len() == 4);
    assert("role"@[0] == 'r');
    assert("name"@[0] == 'n');
    let empty = JsonView::object();
    assert(forall|k: Seq<char>| (#[trigger] empty.get(k)) is None);
    let a = empty.with("role"@, JsonView::Str(role_of(message.role)));
    let plain = a.with("content"@, content_of(message));
    let calls = JsonView::Arr(call_jsons(message.tool_calls@));
    let called = if message.tool_calls@.len() == 0 {
        plain
    } else {
        plain.with("tool_calls"@, calls)
    };
    assert(plain.get("role"@) == Some(JsonView::Str(role_of(message.role))));
    assert(plain.get("content"@) == Some(content_of(message)));
    assert(plain.get("tool_calls"@) is None);
    assert(plain.get("tool_call_id"@) is None);
    assert(plain.get("name"@) is None);
    let answered = match message.tool_call_id {
        Some(id) => called.with("tool_call_id"@, JsonView::Str(id@)),
        None => called,
    };
    let value = match message.name {
        Some(name) => answered.with("name"@, JsonView::Str(name@)),
        None => answered,
    };
    assert(value == message_json(message));
    assert(called.get("tool_call_id"@) is None && called.get("name"@) is None);
    assert(answered.get("name"@) is None);
    assert(answered.get("tool_calls"@) == called.get("tool_calls"@));
    assert(answered.get("role"@) == called.get("role"@));
    assert(answered.get("content"@) == called.get("content"@));
}

proof fn lemma_body_fields(model: Seq<char>, messages: Seq<Message>, tools: Seq<ToolDefinition>)
    ensures
        ({
            let body = body_of(model, messages, tools);
            &&& body.get("model"@) == Some(JsonView::Str(model))
            &&& body.get("messages"@) == Some(
                JsonView::Arr(messages.map_values(|m: Message| message_json(m))),
            )
            &&& body.get("stream"@) == Some(JsonView::Bool(true))
            &&& body.get("stream_options"@) matches Some(options) && options.get("include_usage"@)
                == Some(JsonView::Bool(true))
            &&& body.get("tools"@) == (if tools.len() == 0 {
                None
            } else {
                Some(JsonView::Arr(tools.map_values(|t: ToolDefinition| tool_json(t))))
            })
        }),
{
    broadcast use law_field_is_found;

    reveal_strlit("model");
    reveal_strlit("messages");
    reveal_strlit("stream");
    reveal_strlit("stream_options");
    reveal_strlit("tools");
    assert("model"@.len() == 5);
    assert("messages"@.len() == 8);
    assert("stream"@.len() == 6);
    assert("stream_options"@.len() == 14);
    assert("tools"@.len() == 5);
    assert("model"@[0] == 'm');
    assert("tools"@[0] == 't');
    let empty = JsonView::object();
    assert(forall|k: Seq<char>| (#[trigger] empty.get(k)) is None);
    let turns = JsonView::Arr(messages.map_values(|m: Message| message_json(m)));
    let options = empty.with("include_usage"@, JsonView::Bool(true));
    assert(options.get("include_usage"@) == Some(JsonView::Bool(true)));
    let a = empty.with("model"@, JsonView::Str(model));
    let b = a.with("messages"@, turns);
    let c = b.with("stream"@, JsonView::Bool(true));
    let plain = c.with("stream_options"@, options);
    assert(plain.get("model"@) == Some(JsonView::Str(model)));
    assert(plain.get("messages"@) == Some(turns));
    assert(plain.get("stream"@) == Some(JsonView::Bool(true)));
    assert(plain.get("stream_options"@) == Some(options));
    assert(plain.get("tools"@) is None);
    if tools.len() > 0 {
        let list = JsonView::Arr(tools.map_values(|t: ToolDefinition| tool_json(t)));
        assert(body_of(model, messages, tools) == plain.with("tools"@, list));
    } else {
        assert(body_of(model, messages, tools) == plain);
    }
}

/// Nothing that was said is lost on the wire. Read from the fields of a request's
/// body, there is one message for each that was given, in order: under its role,
/// with its text and pictures, each of its calls with its id, name and arguments,
/// and the call that it answers.
pub proof fn law_nothing_is_lost_on_the_wire(
    model: Seq<char>,
    messages: Seq<Message>,
    tools: Seq<ToolDefinition>,
    i: int,
)
    requires
        0 <= i < messages.len(),
    ensures
        match body_of(model, messages, tools).get("messages"@) {
            Some(JsonView::Arr(list)) => {
                let m = messages[i];
                &&& list.len() == messages.len()
                &&& list[i].text_under("role"@) == Some(
                    match m.role {
                        Role::System => "system"@,
                        Role::User => "user"@,
                        Role::Assistant => "assistant"@,
                        Role::Tool => "tool"@,
                    },
                )
                &&& list[i].get("content"@) matches Some(content) && heard_content(content) == said(m)
                &&& m.tool_calls@.len() == 0 ==> list[i].get("tool_calls"@) is None
                &&& m.tool_calls@.len() > 0 ==> match list[i].get("tool_calls"@) {
                    Some(JsonView::Arr(calls)) => {
                        &&& calls.len() == m.tool_calls@.len()
                        &&& forall|k: int|
                            0 <= k < calls.len() ==> (#[trigger] calls[k]).text_under("id"@) == Some(
                                m.tool_calls@[k].id@,
                            ) && (calls[k].get("function"@) matches Some(f) && f.text_under("name"@)
                                == Some(m.tool_calls@[k].name@) && f.text_under("arguments"@)
                                == Some(m.tool_calls@[k].arguments@))
                    },
                    _ => false,
                }
                &&& list[i].text_under("tool_call_id"@) == opt_view(m.tool_call_id)
                &&& list[i].text_under("name"@) == opt_view(m.name)
            },
            _ => false,
        },
{
    lemma_body_fields(model, messages, tools);
    let m = messages[i];
    let list = messages.map_values(|m: Message| message_json(m));
    assert(list[i] == message_json(m));
    lemma_message_fields(m);
    lemma_content(m);
    let calls = call_jsons(m.tool_calls@);
    assert forall|k: int| 0 <= k < calls.len() implies (#[trigger] calls[k]).text_under("id"@)
        == Some(m.tool_calls@[k].id@) && (calls[k].get("function"@) matches Some(f)
        && f.text_under("name"@) == Some(m.tool_calls@[k].name@) && f.text_under("arguments"@)
        == Some(m.tool_calls@[k].arguments@)) by {
        lemma_call_json(m.tool_calls@[k]);
    }
}

proof fn lemma_tool_json(tool: ToolDefinition)
    ensures
        tool_json(tool).text_under("type"@) == Some("function"@),
        tool_json(tool).get("function"@) matches Some(f) && f.text_under("name"@) == Some(tool.name@)
            && f.text_under("description"@) == Some(tool.description@) && f.get("parameters"@)
            == Some(tool.parameters@),
{
    broadcast use law_field_is_found;

    reveal_strlit("type");
    reveal_strlit("function");
    reveal_strlit("name");
    reveal_strlit("description");
    reveal_strlit("parameters");
    assert("type"@.len() == 4);
    assert("function"@.len() == 8);
    assert("name"@.len() == 4);
    assert("description"@.len() == 11);
    assert("parameters"@.len() == 10);
    assert("type"@[0] == 't');
    assert("name"@[0] == 'n');
    let empty = JsonView::object();
    assert(forall|k: Seq<char>| (#[trigger] empty.get(k)) is None);
    let a = empty.with("name"@, JsonView::Str(tool.name@));
    let b = a.with("description"@, JsonView::Str(tool.description@));
    let f = b.with("parameters"@, tool.parameters@);
    let c = empty.with("type"@, JsonView::Str("function"@));
    let value = c.with("function"@, f);
    assert(value == tool_json(tool));
    assert(value.get("function"@) == Some(f));
}

/// A request names its model, streams its answer, asks for the usage, and offers
/// each tool with its description and parameters, in order.
pub proof fn law_request_names_model_and_tools(
    model: Seq<char>,
    messages: Seq<Message>,
    tools: Seq<ToolDefinition>,
)
    ensures
        ({
            let body = body_of(model, messages, tools);
            &&& body.text_under("model"@) == Some(model)
            &&& body.get("stream"@) == Some(JsonView::Bool(true))
            &&& body.get("stream_options"@) matches Some(options) && options.get("include_usage"@)
                == Some(JsonView::Bool(true))
            &&& tools.len() == 0 ==> body.get("tools"@) is None
            &&& tools.len() > 0 ==> match body.get("tools"@) {
                Some(JsonView::Arr(list)) => {
                    &&& list.len() == tools.len()
                    &&& forall|i: int|
                        0 <= i < tools.len() ==> ((#[trigger] list[i]).get("function"@) matches Some(
                            f,
                        ) && f.text_under("name"@) == Some(tools[i].name@) && f.text_under(
                            "description"@,
                        ) == Some(tools[i].description@) && f.get("parameters"@) == Some(
                            tools[i].parameters@,
                        ))
                },
                _ => false,
            }
        }),
{
    lemma_body_fields(model, messages, tools);
    if tools.len() > 0 {
        let list = tools.map_values(|t: ToolDefinition| tool_json(t));
        assert forall|i: int| 0 <= i < tools.len() implies ((#[trigger] list[i]).get("function"@)
            matches Some(f) && f.text_under("name"@) == Some(tools[i].name@) && f.text_under(
            "description"@,
        ) == Some(tools[i].description@) && f.get("parameters"@) == Some(tools[i].parameters@)) by {
            lemma_tool_json(tools[i]);
        }
    }
}

/// What the first choice of a chunk carries is handed on as it is; a chunk with
/// counts reports both of them, the prompt's as the input's.
pub proof fn law_chunks_are_handed_on(chunk: ChatChunk)
    ensures
        ({
            let out = chunk_projection(chunk);
            &&& chunk.usage matches Some(usage) ==> (if usage.prompt_tokens is Some
                && usage.completion_tokens is Some {
                out == ProjectionView::Delta(
                    DeltaView::Usage {
                        input: usage.prompt_tokens->0,
                        output: usage.completion_tokens->0,
                    },
                )
            } else {
                out == ProjectionView::Ignore
            })
            &&& chunk.usage is None && chunk.choices@.len() > 0 ==> {
                let delta = chunk.choices@[0];
                &&& delta.tool_calls@.len() > 0 ==> out is Delta && out->Delta_0 is ToolFragments
                    && out->Delta_0->ToolFragments_0.len() == delta.tool_calls@.len() && forall|k:
                    int|
                    0 <= k < delta.tool_calls@.len() ==> (
                    #[trigger] out->Delta_0->ToolFragments_0[k]) == delta.tool_calls@[k]@
                &&& delta.tool_calls@.len() == 0 && delta.reasoning_content is Some ==> out
                    == ProjectionView::Delta(DeltaView::Reasoning(delta.reasoning_content->0@))
                &&& delta.tool_calls@.len() == 0 && delta.reasoning_content is None
                    && delta.content is Some ==> out == ProjectionView::Delta(
                    DeltaView::Text(delta.content->0@),
                )
            }
        }),
{
}

/// Only the end mark completes the stream. A frame that cannot be read, an error
/// in its payload, and a chunk that cannot be decoded each end in an error.
pub proof fn law_only_the_end_mark_completes(
    frame: FrameView,
    decoded: Result<ChatChunk, String>,
)
    ensures
        frame_projection(frame, decoded) is Complete <==> frame is Done,
        frame is Invalid ==> frame_projection(frame, decoded) == ProjectionView::Delta(
            DeltaView::Error(frame->Invalid_0),
        ),
        frame matches FrameView::Data(data) ==> {
            let error = payload_error_of("xai"@, parsed(data));
            &&& error matches Some(e) ==> frame_projection(frame, decoded) == ProjectionView::Delta(
                DeltaView::Error(e),
            )
            &&& error is None && decoded is Err ==> frame_projection(frame, decoded) is Delta
                && frame_projection(frame, decoded)->Delta_0 is Error
            &&& error is None && decoded is Ok ==> frame_projection(frame, decoded)
                == chunk_projection(decoded->Ok_0)
        },
{
}

} // verus!
