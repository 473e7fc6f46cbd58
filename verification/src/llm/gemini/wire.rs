//! Requests to Gemini: contents, instructions, tools and their schemas.

use crate::ident::fresh_id;
use crate::json::{
    extend_json, field, fields_view, law_field_is_found, lemma_fields_view, lemma_list_view, list_view, parse_json,
    parsed, push_json, string_or_null, text_or_null, Json, JsonView,
};
use crate::llm::anthropic::{arguments_of, call_input};
use crate::llm::types::{AssistantToolCall, ImagePart, Message, Role, ToolDefinition};
use crate::text::{opt_view, str_eq};
use vstd::prelude::*;
use vstd::string::*;

verus! {

/// Must be larger than the budget for thinking.
pub const MAX_OUTPUT_TOKENS: u64 = 32768;

pub const THINKING_BUDGET: u64 = 8192;

pub open spec fn text_part(text: Seq<char>) -> JsonView {
    JsonView::object().with_str("text"@, text)
}

fn push_text_part(parts: &mut Vec<Json>, text: &str)
    ensures
        list_view(final(parts)@) == with_text_part(list_view(old(parts)@), text@),
{
    if !text.is_empty() {
        push_json(parts, Json::object().with_str("text", text));
    }
}

/// `parts`, and a part with the text behind them where there is any.
pub open spec fn with_text_part(parts: Seq<JsonView>, text: Seq<char>) -> Seq<JsonView> {
    if text.len() == 0 {
        parts
    } else {
        parts.push(text_part(text))
    }
}

/// The texts of the system messages.
pub open spec fn system_parts(messages: Seq<Message>) -> Seq<JsonView>
    decreases messages.len(),
{
    if messages.len() == 0 {
        Seq::empty()
    } else if messages.last().role == Role::System {
        with_text_part(system_parts(messages.drop_last()), messages.last().content@)
    } else {
        system_parts(messages.drop_last())
    }
}

fn system_values(messages: &Vec<Message>) -> (r: Vec<Json>)
    ensures
        list_view(r@) == system_parts(messages@),
{
    let mut out: Vec<Json> = Vec::new();
    let mut i: usize = 0;
    assert(messages@.take(0) =~= Seq::<Message>::empty());
    while i < messages.len()
        invariant
            i <= messages@.len(),
            list_view(out@) == system_parts(messages@.take(i as int)),
        decreases messages@.len() - i,
    {
        assert(messages@.take(i + 1).drop_last() =~= messages@.take(i as int));
        if messages[i].role == Role::System {
            push_text_part(&mut out, messages[i].content.as_str());
        }
        i = i + 1;
    }
    assert(messages@.take(i as int) =~= messages@);
    out
}

pub open spec fn image_part(image: ImagePart) -> JsonView {
    JsonView::object().with(
        "inlineData"@,
        JsonView::object().with_str("mimeType"@, image.media_type@).with_str("data"@, image.data@),
    )
}

pub open spec fn user_parts(message: Message) -> Seq<JsonView> {
    with_text_part(
        message.images@.map_values(|image: ImagePart| image_part(image)),
        message.content@,
    )
}

fn user_values(message: &Message) -> (r: Vec<Json>)
    ensures
        list_view(r@) == user_parts(*message),
{
    let mut out: Vec<Json> = Vec::new();
    let mut i: usize = 0;
    let ghost all = message.images@.map_values(|image: ImagePart| image_part(image));
    assert(list_view(out@) =~= all.take(0));
    while i < message.images.len()
        invariant
            i <= message.images@.len(),
            all == message.images@.map_values(|image: ImagePart| image_part(image)),
            list_view(out@) == all.take(i as int),
        decreases message.images@.len() - i,
    {
        let image = &message.images[i];
        let data = Json::object().with_str("mimeType", image.media_type.as_str()).with_str(
            "data",
            image.data.as_str(),
        );
        let part = Json::object().with("inlineData", data);
        assert(all.take(i + 1) =~= all.take(i as int).push(part@));
        push_json(&mut out, part);
        i = i + 1;
    }
    assert(all.take(i as int) =~= all);
    push_text_part(&mut out, message.content.as_str());
    out
}

/// A call of a tool, with its arguments as a value.
pub open spec fn call_part(id: Seq<char>, name: Seq<char>, args: JsonView) -> JsonView {
    JsonView::object().with(
        "functionCall"@,
        JsonView::object().with_str("name"@, name).with("args"@, args).with_str("id"@, id),
    )
}

pub fn function_call(call: &AssistantToolCall, args: Json) -> (r: Json)
    ensures
        r@ == call_part(call.id@, call.name@, args@),
{
    let inner = Json::object().with_str("name", call.name.as_str()).with("args", args).with_str(
        "id",
        call.id.as_str(),
    );
    Json::object().with("functionCall", inner)
}

pub open spec fn call_parts(calls: Seq<AssistantToolCall>) -> Seq<JsonView> {
    calls.map_values(
        |call: AssistantToolCall|
            call_part(call.id@, call.name@, arguments_of(parsed(call.arguments@))),
    )
}

pub open spec fn model_parts(message: Message) -> Seq<JsonView> {
    with_text_part(Seq::empty(), message.content@) + call_parts(message.tool_calls@)
}

fn model_values(message: &Message) -> (r: Vec<Json>)
    ensures
        list_view(r@) == model_parts(*message),
{
    let mut out: Vec<Json> = Vec::new();
    push_text_part(&mut out, message.content.as_str());
    let mut i: usize = 0;
    let ghost head = list_view(out@);
    let ghost all = call_parts(message.tool_calls@);
    assert(head + all.take(0) =~= head);
    while i < message.tool_calls.len()
        invariant
            i <= message.tool_calls@.len(),
            all == call_parts(message.tool_calls@),
            list_view(out@) == head + all.take(i as int),
        decreases message.tool_calls@.len() - i,
    {
        let call = &message.tool_calls[i];
        let args = call_input(call.arguments.as_str());
        let part = function_call(call, args);
        assert(head + all.take(i + 1) =~= (head + all.take(i as int)).push(part@));
        push_json(&mut out, part);
        i = i + 1;
    }
    assert(all.take(i as int) =~= all);
    out
}

/// The result of a tool: a value where it is JSON, else a text.
pub open spec fn result_value(content: Seq<char>, value: Result<JsonView, Seq<char>>) -> JsonView {
    match value {
        Ok(value) => value,
        Err(_) => JsonView::Str(content),
    }
}

pub open spec fn result_part(message: Message, result: JsonView) -> JsonView {
    JsonView::object().with(
        "functionResponse"@,
        JsonView::object()
            .with("name"@, text_or_null(opt_view(message.name)))
            .with("id"@, text_or_null(opt_view(message.tool_call_id)))
            .with("response"@, JsonView::object().with("result"@, result)),
    )
}

pub fn function_response(message: &Message, result: Json) -> (r: Json)
    ensures
        r@ == result_part(*message, result@),
{
    let name = string_or_null(&message.name);
    let id = string_or_null(&message.tool_call_id);
    let response = Json::object().with("result", result);
    let inner = Json::object().with("name", name).with("id", id).with("response", response);
    Json::object().with("functionResponse", inner)
}

pub fn tool_result_part(message: &Message) -> (r: Json)
    ensures
        r@ == result_part(*message, result_value(message.content@, parsed(message.content@))),
{
    let result = match parse_json(message.content.as_str()) {
        Ok(value) => value,
        Err(_) => Json::string(message.content.as_str()),
    };
    function_response(message, result)
}

#[derive(Debug, Clone, Copy, PartialEq, Eq, Structural)]
pub enum Speaker {
    User,
    Model,
}

impl Speaker {
    pub open spec fn spec_name(self) -> Seq<char> {
        match self {
            Speaker::User => "user"@,
            Speaker::Model => "model"@,
        }
    }

    pub fn name(self) -> (r: &'static str)
        ensures
            r@ == self.spec_name(),
    {
        match self {
            Speaker::User => "user",
            Speaker::Model => "model",
        }
    }
}

/// What one side says in one go.
#[derive(Debug)]
pub struct Content {
    pub speaker: Speaker,
    pub parts: Vec<Json>,
}

#[verifier::ext_equal]
pub struct ContentView {
    pub speaker: Speaker,
    pub parts: Seq<JsonView>,
}

impl View for Content {
    type V = ContentView;

    open spec fn view(&self) -> ContentView {
        ContentView { speaker: self.speaker, parts: list_view(self.parts@) }
    }
}

pub open spec fn content_views(list: Seq<Content>) -> Seq<ContentView> {
    list.map_values(|c: Content| c@)
}

/// Who says a message and what; a system message is nobody's.
pub open spec fn said(message: Message) -> Option<ContentView> {
    match message.role {
        Role::System => None,
        Role::User => Some(ContentView { speaker: Speaker::User, parts: user_parts(message) }),
        Role::Assistant => Some(
            ContentView { speaker: Speaker::Model, parts: model_parts(message) },
        ),
        Role::Tool => Some(
            ContentView {
                speaker: Speaker::User,
                parts: seq![
                    result_part(message, result_value(message.content@, parsed(message.content@))),
                ],
            },
        ),
    }
}

/// The contents with one more: what the same side says next joins what it said.
pub open spec fn joined_with(contents: Seq<ContentView>, next: Option<ContentView>) -> Seq<ContentView> {
    match next {
        None => contents,
        Some(next) => if next.parts.len() == 0 {
            contents
        } else if contents.len() > 0 && contents.last().speaker == next.speaker {
            contents.drop_last().push(
                ContentView { parts: contents.last().parts + next.parts, ..contents.last() },
            )
        } else {
            contents.push(next)
        },
    }
}

pub open spec fn contents_in(messages: Seq<Message>) -> Seq<ContentView>
    decreases messages.len(),
{
    if messages.len() == 0 {
        Seq::empty()
    } else {
        joined_with(contents_in(messages.drop_last()), said(messages.last()))
    }
}

fn add_content(out: &mut Vec<Content>, speaker: Speaker, parts: Vec<Json>)
    ensures
        content_views(final(out)@) == joined_with(
            content_views(old(out)@),
            Some(ContentView { speaker, parts: list_view(parts@) }),
        ),
{
    proof {
        lemma_list_view(parts@);
    }
    if parts.len() == 0 {
        return;
    }
    let ghost before = out@;
    let ghost new = list_view(parts@);
    match out.pop() {
        Some(last) => {
            assert(content_views(before).drop_last() =~= content_views(out@));
            if last.speaker == speaker {
                let mut grown = last.parts;
                extend_json(&mut grown, parts);
                let content = Content { speaker, parts: grown };
                let ghost c = content@;
                let ghost head = out@;
                out.push(content);
                assert(content_views(out@) =~= content_views(head).push(c));
            } else {
                out.push(last);
                out.push(Content { speaker, parts });
                assert(content_views(out@) =~= content_views(before).push(
                    ContentView { speaker, parts: new },
                ));
            }
        },
        None => {
            out.push(Content { speaker, parts });
            assert(content_views(out@) =~= content_views(before).push(
                ContentView { speaker, parts: new },
            ));
        },
    }
}

/// The contents of the messages: both sides speak in turn.
pub fn contents_of(messages: &Vec<Message>) -> (r: Vec<Content>)
    ensures
        content_views(r@) == contents_in(messages@),
{
    let mut out: Vec<Content> = Vec::new();
    let mut i: usize = 0;
    assert(messages@.take(0) =~= Seq::<Message>::empty());
    assert(content_views(out@) =~= Seq::<ContentView>::empty());
    while i < messages.len()
        invariant
            i <= messages@.len(),
            content_views(out@) == contents_in(messages@.take(i as int)),
        decreases messages@.len() - i,
    {
        assert(messages@.take(i + 1).drop_last() =~= messages@.take(i as int));
        let message = &messages[i];
        match message.role {
            Role::System => {},
            Role::User => add_content(&mut out, Speaker::User, user_values(message)),
            Role::Assistant => add_content(&mut out, Speaker::Model, model_values(message)),
            Role::Tool => {
                let mut parts: Vec<Json> = Vec::new();
                push_json(&mut parts, tool_result_part(message));
                assert(list_view(parts@) =~= said(*message)->0.parts);
                add_content(&mut out, Speaker::User, parts);
            },
        }
        i = i + 1;
    }
    assert(messages@.take(i as int) =~= messages@);
    out
}

/// The two sides alternate, and none says nothing.
pub open spec fn alternating(contents: Seq<ContentView>) -> bool {
    &&& forall|i: int| 0 <= i < contents.len() ==> (#[trigger] contents[i]).parts.len() > 0
    &&& forall|i: int, j: int|
        0 <= i && j == i + 1 && j < contents.len() ==> (#[trigger] contents[i]).speaker != (
        #[trigger] contents[j]).speaker
}

/// Whatever the messages are, the contents alternate between the two sides.
pub proof fn law_contents_alternate(messages: Seq<Message>)
    ensures
        alternating(contents_in(messages)),
    decreases messages.len(),
{
    if messages.len() > 0 {
        law_contents_alternate(messages.drop_last());
    }
}

/// A key that the schemas of Gemini do not know.
pub open spec fn is_forbidden(key: Seq<char>) -> bool {
    ||| key == "const"@
    ||| key == "$ref"@
    ||| key == "$defs"@
    ||| key == "$schema"@
    ||| key == "default"@
    ||| key == "examples"@
}

fn forbidden(key: &str) -> (r: bool)
    ensures
        r == is_forbidden(key@),
{
    str_eq(key, "const") || str_eq(key, "$ref") || str_eq(key, "$defs") || str_eq(key, "$schema")
        || str_eq(key, "default") || str_eq(key, "examples")
}

/// The value without the forbidden keys, at any depth.
pub open spec fn cleaned(value: JsonView) -> JsonView
    decreases value,
{
    match value {
        JsonView::Arr(items) => JsonView::Arr(cleaned_items(items)),
        JsonView::Obj(fields) => JsonView::Obj(cleaned_fields(fields)),
        other => other,
    }
}

pub open spec fn cleaned_items(items: Seq<JsonView>) -> Seq<JsonView>
    decreases items,
{
    if items.len() == 0 {
        Seq::empty()
    } else {
        cleaned_items(items.drop_last()).push(cleaned(items.last()))
    }
}

pub open spec fn cleaned_fields(fields: Seq<(Seq<char>, JsonView)>) -> Seq<(Seq<char>, JsonView)>
    decreases fields,
{
    if fields.len() == 0 {
        Seq::empty()
    } else if is_forbidden(fields.last().0) {
        cleaned_fields(fields.drop_last())
    } else {
        cleaned_fields(fields.drop_last()).push((fields.last().0, cleaned(fields.last().1)))
    }
}

/// No object in the value has a forbidden key.
pub open spec fn is_clean(value: JsonView) -> bool
    decreases value,
{
    match value {
        JsonView::Arr(items) => clean_items(items),
        JsonView::Obj(fields) => clean_fields(fields),
        _ => true,
    }
}

pub open spec fn clean_items(items: Seq<JsonView>) -> bool
    decreases items,
{
    items.len() == 0 || clean_items(items.drop_last()) && is_clean(items.last())
}

pub open spec fn clean_fields(fields: Seq<(Seq<char>, JsonView)>) -> bool
    decreases fields,
{
    fields.len() == 0 || clean_fields(fields.drop_last()) && !is_forbidden(fields.last().0)
        && is_clean(fields.last().1)
}

proof fn lemma_items_clean(items: Seq<JsonView>)
    ensures
        clean_items(cleaned_items(items)),
        cleaned_items(cleaned_items(items)) == cleaned_items(items),
    decreases items,
{
    if items.len() > 0 {
        lemma_items_clean(items.drop_last());
        law_schema_is_clean(items.last());
        let head = cleaned_items(items.drop_last());
        assert(head.push(cleaned(items.last())).drop_last() =~= head);
    }
}

proof fn lemma_fields_clean(fields: Seq<(Seq<char>, JsonView)>)
    ensures
        clean_fields(cleaned_fields(fields)),
        cleaned_fields(cleaned_fields(fields)) == cleaned_fields(fields),
    decreases fields,
{
    if fields.len() > 0 {
        lemma_fields_clean(fields.drop_last());
        law_schema_is_clean(fields.last().1);
        let head = cleaned_fields(fields.drop_last());
        let last = (fields.last().0, cleaned(fields.last().1));
        assert(head.push(last).drop_last() =~= head);
    }
}

/// No forbidden key is left at any depth, and cleaning twice is cleaning once.
pub proof fn law_schema_is_clean(value: JsonView)
    ensures
        is_clean(cleaned(value)),
        cleaned(cleaned(value)) == cleaned(value),
    decreases value,
{
    match value {
        JsonView::Arr(items) => lemma_items_clean(items),
        JsonView::Obj(fields) => lemma_fields_clean(fields),
        _ => {},
    }
}

pub fn sanitize_schema(value: &Json) -> (r: Json)
    ensures
        r@ == cleaned(value@),
    decreases value,
{
    match value {
        Json::Arr(items) => {
            let mut out: Vec<Json> = Vec::new();
            let mut i: usize = 0;
            let ghost all = list_view(items@);
            proof {
                lemma_list_view(items@);
                assert(all.take(0) =~= Seq::<JsonView>::empty());
            }
            while i < items.len()
                invariant
                    i <= items@.len(),
                    *value == Json::Arr(*items),
                    all == list_view(items@),
                    list_view(out@) == cleaned_items(all.take(i as int)),
                decreases items@.len() - i,
            {
                proof {
                    lemma_list_view(items@);
                    assert(all.take(i + 1).drop_last() =~= all.take(i as int));
                    crate::json::lemma_arr_decreases(*value, i as int);
                }
                let item = sanitize_schema(&items[i]);
                push_json(&mut out, item);
                i = i + 1;
            }
            proof {
                lemma_list_view(items@);
                assert(all.take(i as int) =~= all);
            }
            Json::Arr(out)
        },
        Json::Obj(fields) => {
            let mut out: Vec<(String, Json)> = Vec::new();
            let mut i: usize = 0;
            let ghost all = fields_view(fields@);
            proof {
                lemma_fields_view(fields@);
                assert(all.take(0) =~= Seq::<(Seq<char>, JsonView)>::empty());
            }
            while i < fields.len()
                invariant
                    i <= fields@.len(),
                    *value == Json::Obj(*fields),
                    all == fields_view(fields@),
                    fields_view(out@) == cleaned_fields(all.take(i as int)),
                decreases fields@.len() - i,
            {
                proof {
                    lemma_fields_view(fields@);
                    assert(all.take(i + 1).drop_last() =~= all.take(i as int));
                    assert(all[i as int] == (fields@[i as int].0@, fields@[i as int].1@));
                    crate::json::lemma_obj_decreases(*value, i as int);
                }
                if !forbidden(fields[i].0.as_str()) {
                    let inner = sanitize_schema(&fields[i].1);
                    let ghost before = out@;
                    out.push((fields[i].0.clone(), inner));
                    assert(out@.drop_last() =~= before);
                }
                i = i + 1;
            }
            proof {
                lemma_fields_view(fields@);
                assert(all.take(i as int) =~= all);
            }
            Json::Obj(out)
        },
        other => other.copy(),
    }
}

pub open spec fn tool_json(tool: ToolDefinition) -> JsonView {
    JsonView::object()
        .with_str("name"@, tool.name@)
        .with_str("description"@, tool.description@)
        .with("parameters"@, cleaned(tool.parameters@))
}

fn tool_values(tools: &Vec<ToolDefinition>) -> (r: Vec<Json>)
    ensures
        list_view(r@) == tools@.map_values(|t: ToolDefinition| tool_json(t)),
{
    let mut out: Vec<Json> = Vec::new();
    let mut i: usize = 0;
    let ghost all = tools@.map_values(|t: ToolDefinition| tool_json(t));
    assert(list_view(out@) =~= all.take(0));
    while i < tools.len()
        invariant
            i <= tools@.len(),
            all == tools@.map_values(|t: ToolDefinition| tool_json(t)),
            list_view(out@) == all.take(i as int),
        decreases tools@.len() - i,
    {
        let parameters = sanitize_schema(&tools[i].parameters);
        let value = Json::object().with_str("name", tools[i].name.as_str()).with_str(
            "description",
            tools[i].description.as_str(),
        ).with("parameters", parameters);
        assert(value@ == tool_json(tools@[i as int]));
        assert(all.take(i + 1) =~= all.take(i as int).push(value@));
        push_json(&mut out, value);
        i = i + 1;
    }
    assert(all.take(i as int) =~= all);
    out
}

pub open spec fn content_json(content: ContentView) -> JsonView {
    JsonView::object().with_str("role"@, content.speaker.spec_name()).with(
        "parts"@,
        JsonView::Arr(content.parts),
    )
}

fn content_values(contents: Vec<Content>) -> (r: Vec<Json>)
    ensures
        list_view(r@) == content_views(contents@).map_values(|c: ContentView| content_json(c)),
{
    let mut contents = contents;
    let ghost all = content_views(contents@).map_values(|c: ContentView| content_json(c));
    let ghost total = contents@.len();
    let mut out: Vec<Json> = Vec::new();
    let mut i: usize = 0;
    let count: usize = contents.len();
    let ghost whole = contents@;
    assert(list_view(out@) =~= all.take(0));
    assert(contents@ =~= whole.subrange(0, total as int));
    while i < count
        invariant
            i <= count == total,
            total == whole.len(),
            all == content_views(whole).map_values(|c: ContentView| content_json(c)),
            contents@ == whole.subrange(i as int, total as int),
            list_view(out@) == all.take(i as int),
        decreases count - i,
    {
        assert(contents@[0] == whole[i as int]);
        let content = contents.remove(0);
        assert(content == whole[i as int]);
        let value = Json::object().with_str("role", content.speaker.name()).with(
            "parts",
            Json::array(content.parts),
        );
        assert(all.take(i + 1) =~= all.take(i as int).push(value@));
        push_json(&mut out, value);
        i = i + 1;
        assert(contents@ =~= whole.subrange(i as int, total as int));
    }
    assert(all.take(i as int) =~= all);
    out
}

/// The inner part of a request.
pub open spec fn request_of(messages: Seq<Message>, tools: Seq<ToolDefinition>) -> JsonView {
    let plain = JsonView::object()
        .with(
            "contents"@,
            JsonView::Arr(contents_in(messages).map_values(|c: ContentView| content_json(c))),
        )
        .with(
            "generationConfig"@,
            JsonView::object()
                .with("maxOutputTokens"@, JsonView::Uint(MAX_OUTPUT_TOKENS))
                .with(
                    "thinkingConfig"@,
                    JsonView::object()
                        .with("thinkingBudget"@, JsonView::Uint(THINKING_BUDGET))
                        .with("includeThoughts"@, JsonView::Bool(true)),
                ),
        );
    let instructed = if system_parts(messages).len() == 0 {
        plain
    } else {
        plain.with(
            "systemInstruction"@,
            JsonView::object().with("parts"@, JsonView::Arr(system_parts(messages))),
        )
    };
    if tools.len() == 0 {
        instructed
    } else {
        instructed.with(
            "tools"@,
            JsonView::Arr(
                seq![
                    JsonView::object().with(
                        "functionDeclarations"@,
                        JsonView::Arr(tools.map_values(|t: ToolDefinition| tool_json(t))),
                    ),
                ],
            ),
        )
    }
}

/// The whole request; `id` names the prompt.
pub open spec fn body_of(
    model: Seq<char>,
    project: Seq<char>,
    id: Seq<char>,
    messages: Seq<Message>,
    tools: Seq<ToolDefinition>,
) -> JsonView {
    JsonView::object()
        .with_str("model"@, model)
        .with_str("project"@, project)
        .with_str("user_prompt_id"@, id)
        .with("request"@, request_of(messages, tools))
}

/// The request with this identifier.
pub fn request_with_id(
    model: &str,
    project: &str,
    id: &str,
    messages: &Vec<Message>,
    tools: &Vec<ToolDefinition>,
) -> (r: Json)
    ensures
        r@ == body_of(model@, project@, id@, messages@, tools@),
{
    let contents = content_values(contents_of(messages));
    let thinking = Json::object().with("thinkingBudget", Json::Uint(THINKING_BUDGET)).with(
        "includeThoughts",
        Json::Bool(true),
    );
    let config = Json::object().with("maxOutputTokens", Json::Uint(MAX_OUTPUT_TOKENS)).with(
        "thinkingConfig",
        thinking,
    );
    let plain = Json::object().with("contents", Json::array(contents)).with(
        "generationConfig",
        config,
    );
    let system = system_values(messages);
    proof {
        lemma_list_view(system@);
    }
    let instructed = if system.len() == 0 {
        plain
    } else {
        let parts = Json::object().with("parts", Json::array(system));
        plain.with("systemInstruction", parts)
    };
    let request = if tools.len() == 0 {
        instructed
    } else {
        let declarations = Json::object().with(
            "functionDeclarations",
            Json::array(tool_values(tools)),
        );
        let mut list: Vec<Json> = Vec::new();
        push_json(&mut list, declarations);
        assert(list_view(list@) =~= seq![declarations@]);
        instructed.with("tools", Json::array(list))
    };
    Json::object().with_str("model", model).with_str("project", project).with_str(
        "user_prompt_id",
        id,
    ).with("request", request)
}

/// The request under a random identifier.
pub fn build_request(
    model: &str,
    project: &str,
    messages: &Vec<Message>,
    tools: &Vec<ToolDefinition>,
) -> (r: Json)
    ensures
        exists|id: Seq<char>|
            id.len() == 36 && r@ == #[trigger] body_of(model@, project@, id, messages@, tools@),
{
    let id = fresh_id();
    request_with_id(model, project, id.as_str(), messages, tools)
}

/// The answer has room beside the thinking, else the request is refused.
pub proof fn law_room_beside_thinking()
    ensures
        MAX_OUTPUT_TOKENS > THINKING_BUDGET,
{
}

/// What a part on the wire says.
pub enum Heard {
    Text(Seq<char>),
    Image(Seq<char>, Seq<char>),
    Call(Seq<char>, Seq<char>, JsonView),
    Response(Option<JsonView>, Option<JsonView>, JsonView),
    Nothing,
}

pub open spec fn heard_part(part: JsonView) -> Heard {
    match part.text_under("text"@) {
        Some(text) => Heard::Text(text),
        None => match (
            part.get("inlineData"@),
            part.get("functionCall"@),
            part.get("functionResponse"@),
        ) {
            (Some(data), None, None) => match (
                data.text_under("mimeType"@),
                data.text_under("data"@),
            ) {
                (Some(kind), Some(bytes)) => Heard::Image(kind, bytes),
                _ => Heard::Nothing,
            },
            (None, Some(call), None) => match (
                call.text_under("id"@),
                call.text_under("name"@),
                call.get("args"@),
            ) {
                (Some(id), Some(name), Some(args)) => Heard::Call(id, name, args),
                _ => Heard::Nothing,
            },
            (None, None, Some(answer)) => match answer.get("response"@) {
                Some(response) => match response.get("result"@) {
                    Some(result) => Heard::Response(
                        answer.get("id"@),
                        answer.get("name"@),
                        result,
                    ),
                    None => Heard::Nothing,
                },
                None => Heard::Nothing,
            },
            _ => Heard::Nothing,
        },
    }
}

pub open spec fn heard_parts(parts: Seq<JsonView>) -> Seq<Heard> {
    parts.map_values(|p: JsonView| heard_part(p))
}

pub open spec fn from_role(role: Seq<char>, things: Seq<Heard>) -> Seq<(Seq<char>, Heard)> {
    things.map_values(|h: Heard| (role, h))
}

/// What the contents on the wire say, each thing with the role that says it.
pub open spec fn heard(contents: Seq<JsonView>) -> Seq<(Seq<char>, Heard)>
    decreases contents.len(),
{
    if contents.len() == 0 {
        Seq::empty()
    } else {
        let content = contents.last();
        let before = heard(contents.drop_last());
        match (content.text_under("role"@), content.get("parts"@)) {
            (Some(role), Some(JsonView::Arr(parts))) => before + from_role(role, heard_parts(parts)),
            _ => before,
        }
    }
}

pub open spec fn null_or(text: Option<String>) -> JsonView {
    match text {
        Some(text) => JsonView::Str(text@),
        None => JsonView::Null,
    }
}

/// What a message says: a picture or a call for each that it holds, and its text
/// where there is any. The result of a tool is the value that its text is, or else
/// the text.
pub open spec fn told(message: Message) -> Seq<Heard> {
    let text = if message.content@.len() == 0 {
        Seq::empty()
    } else {
        seq![Heard::Text(message.content@)]
    };
    match message.role {
        Role::System => Seq::empty(),
        Role::Tool => seq![
            Heard::Response(
                Some(null_or(message.tool_call_id)),
                Some(null_or(message.name)),
                match parsed(message.content@) {
                    Ok(value) => value,
                    Err(_) => JsonView::Str(message.content@),
                },
            ),
        ],
        Role::User => message.images@.map_values(
            |image: ImagePart| Heard::Image(image.media_type@, image.data@),
        ) + text,
        Role::Assistant => text + message.tool_calls@.map_values(
            |call: AssistantToolCall|
                Heard::Call(
                    call.id@,
                    call.name@,
                    match parsed(call.arguments@) {
                        Ok(args) => args,
                        Err(_) => JsonView::Obj(Seq::empty()),
                    },
                ),
        ),
    }
}

/// What the messages say, in their order.
pub open spec fn all_told(messages: Seq<Message>) -> Seq<(Seq<char>, Heard)>
    decreases messages.len(),
{
    if messages.len() == 0 {
        Seq::empty()
    } else {
        let role = if messages.last().role == Role::Assistant {
            "model"@
        } else {
            "user"@
        };
        all_told(messages.drop_last()) + from_role(role, told(messages.last()))
    }
}

proof fn lemma_text_heard(text: Seq<char>)
    ensures
        heard_part(text_part(text)) == Heard::Text(text),
{
    broadcast use law_field_is_found;

    reveal_strlit("text");
    assert("text"@.len() == 4);
    let empty = JsonView::object();
    assert(forall|k: Seq<char>| (#[trigger] empty.get(k)) is None);
    assert(empty.with("text"@, JsonView::Str(text)).get("text"@) == Some(JsonView::Str(text)));
}

proof fn lemma_image_heard(image: ImagePart)
    ensures
        heard_part(image_part(image)) == Heard::Image(image.media_type@, image.data@),
{
    broadcast use law_field_is_found;

    reveal_strlit("text");
    reveal_strlit("inlineData");
    reveal_strlit("functionCall");
    reveal_strlit("functionResponse");
    reveal_strlit("mimeType");
    reveal_strlit("data");
    assert("text"@.len() == 4);
    assert("inlineData"@.len() == 10);
    assert("functionCall"@.len() == 12);
    assert("functionResponse"@.len() == 16);
    assert("mimeType"@.len() == 8);
    assert("data"@.len() == 4);
    assert("text"@[0] == 't');
    assert("data"@[0] == 'd');
    let empty = JsonView::object();
    assert(forall|k: Seq<char>| (#[trigger] empty.get(k)) is None);
    let a = empty.with("mimeType"@, JsonView::Str(image.media_type@));
    let data = a.with("data"@, JsonView::Str(image.data@));
    let part = empty.with("inlineData"@, data);
    assert(part == image_part(image));
    assert(data.get("mimeType"@) == Some(JsonView::Str(image.media_type@)));
    assert(data.get("data"@) == Some(JsonView::Str(image.data@)));
    assert(part.get("inlineData"@) == Some(data));
    assert(part.get("text"@) is None);
    assert(part.get("functionCall"@) is None);
    assert(part.get("functionResponse"@) is None);
}

proof fn lemma_call_heard(id: Seq<char>, name: Seq<char>, args: JsonView)
    ensures
        heard_part(call_part(id, name, args)) == Heard::Call(id, name, args),
{
    broadcast use law_field_is_found;

    reveal_strlit("text");
    reveal_strlit("inlineData");
    reveal_strlit("functionCall");
    reveal_strlit("functionResponse");
    reveal_strlit("name");
    reveal_strlit("args");
    reveal_strlit("id");
    assert("text"@.len() == 4);
    assert("inlineData"@.len() == 10);
    assert("functionCall"@.len() == 12);
    assert("functionResponse"@.len() == 16);
    assert("name"@.len() == 4);
    assert("args"@.len() == 4);
    assert("id"@.len() == 2);
    assert("text"@[0] == 't');
    assert("name"@[0] == 'n');
    assert("args"@[0] == 'a');
    let empty = JsonView::object();
    assert(forall|k: Seq<char>| (#[trigger] empty.get(k)) is None);
    let a = empty.with("name"@, JsonView::Str(name));
    let b = a.with("args"@, args);
    let call = b.with("id"@, JsonView::Str(id));
    let part = empty.with("functionCall"@, call);
    assert(part == call_part(id, name, args));
    assert(call.get("name"@) == Some(JsonView::Str(name)));
    assert(call.get("args"@) == Some(args));
    assert(call.get("id"@) == Some(JsonView::Str(id)));
    assert(part.get("functionCall"@) == Some(call));
    assert(part.get("text"@) is None);
    assert(part.get("inlineData"@) is None);
    assert(part.get("functionResponse"@) is None);
}

proof fn lemma_result_heard(message: Message, result: JsonView)
    ensures
        heard_part(result_part(message, result)) == Heard::Response(
            Some(null_or(message.tool_call_id)),
            Some(null_or(message.name)),
            result,
        ),
{
    broadcast use law_field_is_found;

    reveal_strlit("text");
    reveal_strlit("inlineData");
    reveal_strlit("functionCall");
    reveal_strlit("functionResponse");
    reveal_strlit("name");
    reveal_strlit("id");
    reveal_strlit("response");
    reveal_strlit("result");
    assert("text"@.len() == 4);
    assert("inlineData"@.len() == 10);
    assert("functionCall"@.len() == 12);
    assert("functionResponse"@.len() == 16);
    assert("name"@.len() == 4);
    assert("id"@.len() == 2);
    assert("response"@.len() == 8);
    assert("result"@.len() == 6);
    assert("text"@[0] == 't');
    assert("name"@[0] == 'n');
    let empty = JsonView::object();
    assert(forall|k: Seq<char>| (#[trigger] empty.get(k)) is None);
    let name = text_or_null(opt_view(message.name));
    let id = text_or_null(opt_view(message.tool_call_id));
    let response = empty.with("result"@, result);
    let a = empty.with("name"@, name);
    let b = a.with("id"@, id);
    let answer = b.with("response"@, response);
    let part = empty.with("functionResponse"@, answer);
    assert(part == result_part(message, result));
    assert(response.get("result"@) == Some(result));
    assert(answer.get("name"@) == Some(name));
    assert(answer.get("id"@) == Some(id));
    assert(answer.get("response"@) == Some(response));
    assert(part.get("functionResponse"@) == Some(answer));
    assert(part.get("text"@) is None);
    assert(part.get("inlineData"@) is None);
    assert(part.get("functionCall"@) is None);
}

proof fn lemma_message_heard(message: Message)
    requires
        message.role != Role::System,
    ensures
        heard_parts(said(message)->0.parts) == told(message),
{
    let parts = said(message)->0.parts;
    if message.content@.len() > 0 {
        lemma_text_heard(message.content@);
    }
    match message.role {
        Role::System => {},
        Role::User => {
            assert forall|i: int| 0 <= i < message.images@.len() implies heard_part(
                #[trigger] parts[i],
            ) == told(message)[i] by {
                lemma_image_heard(message.images@[i]);
            }
        },
        Role::Assistant => {
            let head = with_text_part(Seq::empty(), message.content@);
            assert forall|i: int| 0 <= i < parts.len() implies heard_part(#[trigger] parts[i])
                == told(message)[i] by {
                if i >= head.len() {
                    let call = message.tool_calls@[i - head.len()];
                    let args = arguments_of(parsed(call.arguments@));
                    assert(parts[i] == call_part(call.id@, call.name@, args));
                    lemma_call_heard(call.id@, call.name@, args);
                }
            }
        },
        Role::Tool => {
            lemma_result_heard(
                message,
                result_value(message.content@, parsed(message.content@)),
            );
        },
    }
    assert(heard_parts(parts) =~= told(message));
}

/// The contents as they go on the wire.
pub open spec fn values_of(contents: Seq<ContentView>) -> Seq<JsonView> {
    contents.map_values(|c: ContentView| content_json(c))
}

pub open spec fn role_of(speaker: Speaker) -> Seq<char> {
    match speaker {
        Speaker::User => "user"@,
        Speaker::Model => "model"@,
    }
}

proof fn lemma_content_fields(content: ContentView)
    ensures
        content_json(content).text_under("role"@) == Some(role_of(content.speaker)),
        content_json(content).get("parts"@) == Some(JsonView::Arr(content.parts)),
{
    broadcast use law_field_is_found;

    reveal_strlit("role");
    reveal_strlit("parts");
    assert("role"@.len() == 4);
    assert("parts"@.len() == 5);
    let empty = JsonView::object();
    assert(forall|k: Seq<char>| (#[trigger] empty.get(k)) is None);
    let a = empty.with("role"@, JsonView::Str(content.speaker.spec_name()));
    assert(content_json(content) == a.with("parts"@, JsonView::Arr(content.parts)));
}

proof fn lemma_heard_pushed(contents: Seq<ContentView>, content: ContentView)
    ensures
        heard(values_of(contents.push(content))) == heard(values_of(contents)) + from_role(
            role_of(content.speaker),
            heard_parts(content.parts),
        ),
{
    let all = values_of(contents.push(content));
    assert(all.drop_last() =~= values_of(contents));
    assert(all.last() == content_json(content));
    lemma_content_fields(content);
}

proof fn lemma_joined_heard(contents: Seq<ContentView>, next: ContentView)
    ensures
        heard(values_of(joined_with(contents, Some(next)))) == heard(values_of(contents))
            + from_role(role_of(next.speaker), heard_parts(next.parts)),
{
    let role = role_of(next.speaker);
    if next.parts.len() == 0 {
        assert(heard(values_of(contents)) + from_role(role, heard_parts(next.parts)) =~= heard(
            values_of(contents),
        ));
    } else if contents.len() > 0 && contents.last().speaker == next.speaker {
        let init = contents.drop_last();
        let last = contents.last();
        let one = ContentView { parts: last.parts + next.parts, ..last };
        assert(contents =~= init.push(last));
        lemma_heard_pushed(init, last);
        lemma_heard_pushed(init, one);
        assert(from_role(role, heard_parts(one.parts)) =~= from_role(role, heard_parts(last.parts))
            + from_role(role, heard_parts(next.parts)));
        assert(heard(values_of(init)) + (from_role(role, heard_parts(last.parts)) + from_role(
            role,
            heard_parts(next.parts),
        )) =~= heard(values_of(init)) + from_role(role, heard_parts(last.parts)) + from_role(
            role,
            heard_parts(next.parts),
        ));
    } else {
        lemma_heard_pushed(contents, next);
    }
}

proof fn lemma_all_heard(messages: Seq<Message>)
    ensures
        heard(values_of(contents_in(messages))) == all_told(messages),
    decreases messages.len(),
{
    if messages.len() == 0 {
        assert(values_of(contents_in(messages)) =~= Seq::<JsonView>::empty());
    } else {
        let message = messages.last();
        let before = contents_in(messages.drop_last());
        lemma_all_heard(messages.drop_last());
        if message.role == Role::System {
            assert(all_told(messages) =~= all_told(messages.drop_last()));
        } else {
            lemma_message_heard(message);
            lemma_joined_heard(before, said(message)->0);
        }
    }
}

proof fn lemma_request_fields(messages: Seq<Message>, tools: Seq<ToolDefinition>)
    ensures
        ({
            let request = request_of(messages, tools);
            &&& request.get("contents"@) == Some(JsonView::Arr(values_of(contents_in(messages))))
            &&& request.get("generationConfig"@) is Some
            &&& request.get("systemInstruction"@) == (if system_parts(messages).len() == 0 {
                None
            } else {
                Some(JsonView::object().with("parts"@, JsonView::Arr(system_parts(messages))))
            })
            &&& request.get("tools"@) == (if tools.len() == 0 {
                None
            } else {
                Some(
                    JsonView::Arr(
                        seq![
                            JsonView::object().with(
                                "functionDeclarations"@,
                                JsonView::Arr(tools.map_values(|t: ToolDefinition| tool_json(t))),
                            ),
                        ],
                    ),
                )
            })
        }),
{
    broadcast use law_field_is_found;

    reveal_strlit("contents");
    reveal_strlit("generationConfig");
    reveal_strlit("systemInstruction");
    reveal_strlit("tools");
    assert("contents"@.len() == 8);
    assert("generationConfig"@.len() == 16);
    assert("systemInstruction"@.len() == 17);
    assert("tools"@.len() == 5);
    let empty = JsonView::object();
    assert(forall|k: Seq<char>| (#[trigger] empty.get(k)) is None);
    let contents = JsonView::Arr(values_of(contents_in(messages)));
    let thinking = empty.with("thinkingBudget"@, JsonView::Uint(THINKING_BUDGET)).with(
        "includeThoughts"@,
        JsonView::Bool(true),
    );
    let config = empty.with("maxOutputTokens"@, JsonView::Uint(MAX_OUTPUT_TOKENS)).with(
        "thinkingConfig"@,
        thinking,
    );
    let a = empty.with("contents"@, contents);
    let plain = a.with("generationConfig"@, config);
    assert(plain.get("contents"@) == Some(contents));
    assert(plain.get("generationConfig"@) == Some(config));
    assert(plain.get("systemInstruction"@) is None);
    assert(plain.get("tools"@) is None);
    let system = empty.with("parts"@, JsonView::Arr(system_parts(messages)));
    let instructed = if system_parts(messages).len() == 0 {
        plain
    } else {
        plain.with("systemInstruction"@, system)
    };
    assert(instructed.get("tools"@) is None);
    assert(instructed.get("contents"@) == Some(contents));
    assert(instructed.get("generationConfig"@) == Some(config));
    let list = JsonView::Arr(
        seq![
            empty.with(
                "functionDeclarations"@,
                JsonView::Arr(tools.map_values(|t: ToolDefinition| tool_json(t))),
            ),
        ],
    );
    let request = if tools.len() == 0 {
        instructed
    } else {
        instructed.with("tools"@, list)
    };
    assert(request == request_of(messages, tools));
}

proof fn lemma_body_fields(
    model: Seq<char>,
    project: Seq<char>,
    id: Seq<char>,
    messages: Seq<Message>,
    tools: Seq<ToolDefinition>,
)
    ensures
        ({
            let body = body_of(model, project, id, messages, tools);
            &&& body.text_under("model"@) == Some(model)
            &&& body.text_under("project"@) == Some(project)
            &&& body.text_under("user_prompt_id"@) == Some(id)
            &&& body.get("request"@) == Some(request_of(messages, tools))
        }),
{
    broadcast use law_field_is_found;

    reveal_strlit("model");
    reveal_strlit("project");
    reveal_strlit("user_prompt_id");
    reveal_strlit("request");
    assert("model"@.len() == 5);
    assert("project"@.len() == 7);
    assert("user_prompt_id"@.len() == 14);
    assert("request"@.len() == 7);
    assert("project"@[0] == 'p');
    assert("request"@[0] == 'r');
    let empty = JsonView::object();
    assert(forall|k: Seq<char>| (#[trigger] empty.get(k)) is None);
    let a = empty.with("model"@, JsonView::Str(model));
    let b = a.with("project"@, JsonView::Str(project));
    let c = b.with("user_prompt_id"@, JsonView::Str(id));
    let body = c.with("request"@, request_of(messages, tools));
    assert(body == body_of(model, project, id, messages, tools));
    assert(body.get("model"@) == Some(JsonView::Str(model)));
    assert(body.get("project"@) == Some(JsonView::Str(project)));
    assert(body.get("user_prompt_id"@) == Some(JsonView::Str(id)));
    assert(body.get("request"@) == Some(request_of(messages, tools)));
}

/// Nothing that was said is lost on the wire, and nothing is added to it. Read
/// back from the fields of a request, the contents say what the messages say, in
/// the same order and under the same roles: each text, each picture with its type
/// and data, each call with its arguments, and each result under the call and the
/// name of the tool it answers.
pub proof fn law_nothing_is_lost_on_the_wire(
    model: Seq<char>,
    project: Seq<char>,
    id: Seq<char>,
    messages: Seq<Message>,
    tools: Seq<ToolDefinition>,
)
    ensures
        match body_of(model, project, id, messages, tools).get("request"@) {
            Some(request) => match request.get("contents"@) {
                Some(JsonView::Arr(contents)) => heard(contents) == all_told(messages),
                _ => false,
            },
            None => false,
        },
{
    lemma_body_fields(model, project, id, messages, tools);
    lemma_request_fields(messages, tools);
    lemma_all_heard(messages);
}

/// The texts of the system messages that hold any.
pub open spec fn instructions(messages: Seq<Message>) -> Seq<Seq<char>>
    decreases messages.len(),
{
    if messages.len() == 0 {
        Seq::empty()
    } else {
        let before = instructions(messages.drop_last());
        if messages.last().role == Role::System && messages.last().content@.len() > 0 {
            before.push(messages.last().content@)
        } else {
            before
        }
    }
}

proof fn lemma_instructions(messages: Seq<Message>)
    ensures
        system_parts(messages).len() == instructions(messages).len(),
        forall|i: int|
            0 <= i < instructions(messages).len() ==> (#[trigger] system_parts(
                messages,
            )[i]).text_under("text"@) == Some(instructions(messages)[i]),
    decreases messages.len(),
{
    if messages.len() > 0 {
        let init = messages.drop_last();
        lemma_instructions(init);
        let parts = system_parts(messages);
        let texts = instructions(messages);
        assert forall|i: int| 0 <= i < texts.len() implies (#[trigger] parts[i]).text_under("text"@)
            == Some(texts[i]) by {
            if i < instructions(init).len() {
                assert(parts[i] == system_parts(init)[i]);
            } else {
                lemma_text_field(messages.last().content@);
            }
        }
    }
}

proof fn lemma_text_field(text: Seq<char>)
    ensures
        text_part(text).text_under("text"@) == Some(text),
{
    broadcast use law_field_is_found;

    let empty = JsonView::object();
    assert(forall|k: Seq<char>| (#[trigger] empty.get(k)) is None);
    assert(empty.with("text"@, JsonView::Str(text)).get("text"@) == Some(JsonView::Str(text)));
}

proof fn lemma_parts_field(parts: JsonView)
    ensures
        JsonView::object().with("parts"@, parts).get("parts"@) == Some(parts),
        JsonView::object().with("functionDeclarations"@, parts).get("functionDeclarations"@)
            == Some(parts),
{
    broadcast use law_field_is_found;

    let empty = JsonView::object();
    assert(forall|k: Seq<char>| (#[trigger] empty.get(k)) is None);
}

/// The system messages are the instruction of a request, text for text and in
/// order; without any there is none.
pub proof fn law_instructions_are_sent(messages: Seq<Message>, tools: Seq<ToolDefinition>)
    ensures
        ({
            let texts = instructions(messages);
            let instruction = request_of(messages, tools).get("systemInstruction"@);
            &&& texts.len() == 0 ==> instruction is None
            &&& texts.len() > 0 ==> (instruction matches Some(value) && (match value.get("parts"@) {
                Some(JsonView::Arr(parts)) => parts.len() == texts.len() && forall|i: int|
                    0 <= i < texts.len() ==> (#[trigger] parts[i]).text_under("text"@) == Some(
                        texts[i],
                    ),
                _ => false,
            }))
        }),
{
    lemma_request_fields(messages, tools);
    lemma_instructions(messages);
    lemma_parts_field(JsonView::Arr(system_parts(messages)));
}

proof fn lemma_tool_json(tool: ToolDefinition)
    ensures
        tool_json(tool).text_under("name"@) == Some(tool.name@),
        tool_json(tool).text_under("description"@) == Some(tool.description@),
        tool_json(tool).get("parameters"@) == Some(cleaned(tool.parameters@)),
{
    broadcast use law_field_is_found;

    reveal_strlit("name");
    reveal_strlit("description");
    reveal_strlit("parameters");
    assert("name"@.len() == 4);
    assert("description"@.len() == 11);
    assert("parameters"@.len() == 10);
    let empty = JsonView::object();
    assert(forall|k: Seq<char>| (#[trigger] empty.get(k)) is None);
    let a = empty.with("name"@, JsonView::Str(tool.name@));
    let b = a.with("description"@, JsonView::Str(tool.description@));
    assert(tool_json(tool) == b.with("parameters"@, cleaned(tool.parameters@)));
}

/// A request names its model, its project and its prompt, and declares each tool
/// with its description and cleaned parameters, in order.
pub proof fn law_request_names_model_and_tools(
    model: Seq<char>,
    project: Seq<char>,
    id: Seq<char>,
    messages: Seq<Message>,
    tools: Seq<ToolDefinition>,
)
    ensures
        ({
            let body = body_of(model, project, id, messages, tools);
            let listed = body.get("request"@)->0.get("tools"@);
            &&& body.text_under("model"@) == Some(model)
            &&& body.text_under("project"@) == Some(project)
            &&& body.text_under("user_prompt_id"@) == Some(id)
            &&& body.get("request"@) is Some
            &&& tools.len() == 0 ==> listed is None
            &&& tools.len() > 0 ==> match listed {
                Some(JsonView::Arr(groups)) => groups.len() == 1 && match groups[0].get(
                    "functionDeclarations"@,
                ) {
                    Some(JsonView::Arr(list)) => {
                        &&& list.len() == tools.len()
                        &&& forall|i: int|
                            0 <= i < tools.len() ==> (#[trigger] list[i]).text_under("name"@)
                                == Some(tools[i].name@) && list[i].text_under("description"@)
                                == Some(tools[i].description@) && list[i].get("parameters"@)
                                == Some(cleaned(tools[i].parameters@))
                    },
                    _ => false,
                },
                _ => false,
            }
        }),
{
    lemma_body_fields(model, project, id, messages, tools);
    lemma_request_fields(messages, tools);
    let list = tools.map_values(|t: ToolDefinition| tool_json(t));
    lemma_parts_field(JsonView::Arr(list));
    assert forall|i: int| 0 <= i < tools.len() implies (#[trigger] list[i]).text_under("name"@)
        == Some(tools[i].name@) && list[i].text_under("description"@) == Some(
        tools[i].description@,
    ) && list[i].get("parameters"@) == Some(cleaned(tools[i].parameters@)) by {
        lemma_tool_json(tools[i]);
    }
}

proof fn lemma_cleaned_items(items: Seq<JsonView>)
    ensures
        cleaned_items(items).len() == items.len(),
        forall|i: int| 0 <= i < items.len() ==> #[trigger] cleaned_items(items)[i] == cleaned(items[i]),
    decreases items.len(),
{
    if items.len() > 0 {
        let init = items.drop_last();
        lemma_cleaned_items(init);
        assert forall|i: int| 0 <= i < items.len() implies #[trigger] cleaned_items(items)[i]
            == cleaned(items[i]) by {
            if i < init.len() {
                assert(init[i] == items[i]);
                assert(cleaned_items(items)[i] == cleaned_items(init)[i]);
            }
        }
    }
}

proof fn lemma_cleaned_fields(fields: Seq<(Seq<char>, JsonView)>, key: Seq<char>)
    ensures
        field(cleaned_fields(fields), key) == (if is_forbidden(key) {
            None
        } else {
            match field(fields, key) {
                Some(value) => Some(cleaned(value)),
                None => None,
            }
        }),
    decreases fields.len(),
{
    broadcast use law_field_is_found;

    if fields.len() > 0 {
        let init = fields.drop_last();
        let last = fields.last();
        lemma_cleaned_fields(init, key);
        let whole = JsonView::Obj(init).with(last.0, last.1);
        assert(init.push(last) =~= fields);
        assert(whole == JsonView::Obj(fields));
        assert(whole.get(key) == field(fields, key));
        assert(JsonView::Obj(init).get(key) == field(init, key));
        if !is_forbidden(last.0) {
            let head = JsonView::Obj(cleaned_fields(init));
            let out = head.with(last.0, cleaned(last.1));
            assert(out == JsonView::Obj(cleaned_fields(fields)));
            assert(out.get(key) == field(cleaned_fields(fields), key));
            assert(head.get(key) == field(cleaned_fields(init), key));
        }
    }
}

/// Cleaning a schema takes out the forbidden keys and nothing else: every other
/// key of an object is found with its value cleaned, every item of a list is there
/// and cleaned, and any other value stays as it is.
pub proof fn law_schema_keeps_the_rest(value: JsonView, key: Seq<char>, i: int)
    ensures
        value is Obj ==> cleaned(value) is Obj && cleaned(value).get(key) == (if key == "const"@ || key
            == "$ref"@ || key == "$defs"@ || key == "$schema"@ || key == "default"@ || key
            == "examples"@ {
            None
        } else {
            match value.get(key) {
                Some(inner) => Some(cleaned(inner)),
                None => None,
            }
        }),
        value matches JsonView::Arr(items) ==> (cleaned(value) matches JsonView::Arr(out)
            && out.len() == items.len() && (0 <= i < items.len() ==> out[i] == cleaned(items[i]))),
        !(value is Obj) && !(value is Arr) ==> cleaned(value) == value,
{
    match value {
        JsonView::Obj(fields) => lemma_cleaned_fields(fields, key),
        JsonView::Arr(items) => lemma_cleaned_items(items),
        _ => {},
    }
}

} // verus!
