//! Anthropic's messages: tool names, system blocks, messages and requests.

use crate::json::{
    law_field_is_found, list_view, parse_json, parsed, push_json, string_or_null, text_or_null, Json, JsonView,
};
use crate::llm::types::{AssistantToolCall, ImagePart, Message, Role, ToolDefinition};
use crate::llm::wire::{
    add_header, header_views, push_text, text_block, with_text, HttpRequest, HttpView,
};
use crate::text::{
    ascii_lower, cat2, cat3, cat5, cut, opt_view, split_once, str_eq, to_ascii_lowercase, trim, trim_end, trimmed,
    trimmed_end,
};
use vstd::prelude::*;
use vstd::string::*;

verus! {

pub const API_URL: &'static str = "https://api.anthropic.com/v1/messages?beta=true";

/// How the client of a subscription names itself. Each of these depends on the
/// product that the subscription is for.
pub open spec fn user_agent(product: Seq<char>) -> Seq<char> {
    product.map_values(|c: char| ascii_lower(c)) + "-cli/1.0.0"@
}

pub open spec fn oauth_beta(product: Seq<char>) -> Seq<char> {
    "oauth-2025-04-20,"@ + product.map_values(|c: char| ascii_lower(c)) + "-code-20250219"@
}

/// The first system block.
pub open spec fn identity_line(product: Seq<char>) -> Seq<char> {
    "You are "@ + product + " Code, Anthropic's official CLI for "@ + product + "."@
}

/// The name under which a built-in tool is offered; any other tool keeps its
/// name.
pub open spec fn offered(name: Seq<char>) -> Seq<char> {
    if name == "exec"@ {
        "Bash"@
    } else if name == "read"@ {
        "Read"@
    } else if name == "write"@ {
        "Write"@
    } else if name == "edit"@ {
        "Edit"@
    } else if name == "glob"@ {
        "Glob"@
    } else if name == "grep"@ {
        "Grep"@
    } else if name == "agent"@ {
        "Agent"@
    } else if name == "schedule"@ {
        "ScheduleWakeup"@
    } else if name == "skill"@ {
        "Skill"@
    } else {
        name
    }
}

/// The tool that is meant by a name that the model called.
pub open spec fn called(name: Seq<char>) -> Seq<char> {
    if name == "Bash"@ {
        "exec"@
    } else if name == "Read"@ {
        "read"@
    } else if name == "Write"@ {
        "write"@
    } else if name == "Edit"@ {
        "edit"@
    } else if name == "Glob"@ {
        "glob"@
    } else if name == "Grep"@ {
        "grep"@
    } else if name == "Agent"@ {
        "agent"@
    } else if name == "ScheduleWakeup"@ {
        "schedule"@
    } else if name == "Skill"@ {
        "skill"@
    } else {
        name
    }
}

pub fn remap_tool_name(name: &str) -> (r: &str)
    ensures
        r@ == offered(name@),
{
    if str_eq(name, "exec") {
        "Bash"
    } else if str_eq(name, "read") {
        "Read"
    } else if str_eq(name, "write") {
        "Write"
    } else if str_eq(name, "edit") {
        "Edit"
    } else if str_eq(name, "glob") {
        "Glob"
    } else if str_eq(name, "grep") {
        "Grep"
    } else if str_eq(name, "agent") {
        "Agent"
    } else if str_eq(name, "schedule") {
        "ScheduleWakeup"
    } else if str_eq(name, "skill") {
        "Skill"
    } else {
        name
    }
}

pub fn unmap_tool_name(name: &str) -> (r: String)
    ensures
        r@ == called(name@),
{
    let own = if str_eq(name, "Bash") {
        "exec"
    } else if str_eq(name, "Read") {
        "read"
    } else if str_eq(name, "Write") {
        "write"
    } else if str_eq(name, "Edit") {
        "edit"
    } else if str_eq(name, "Glob") {
        "glob"
    } else if str_eq(name, "Grep") {
        "grep"
    } else if str_eq(name, "Agent") {
        "agent"
    } else if str_eq(name, "ScheduleWakeup") {
        "schedule"
    } else if str_eq(name, "Skill") {
        "skill"
    } else {
        name
    };
    own.to_owned()
}

/// A name under which a built-in tool is offered.
pub open spec fn is_reserved(name: Seq<char>) -> bool {
    ||| name == "Bash"@
    ||| name == "Read"@
    ||| name == "Write"@
    ||| name == "Edit"@
    ||| name == "Glob"@
    ||| name == "Grep"@
    ||| name == "Agent"@
    ||| name == "ScheduleWakeup"@
    ||| name == "Skill"@
}

/// The model's call of an offered tool comes back to that tool. A tool whose own
/// name is one of the reserved ones is the exception: its call goes to the
/// built-in tool.
pub proof fn law_tool_names_round_trip(name: Seq<char>)
    requires
        !is_reserved(name),
    ensures
        called(offered(name)) == name,
{
    reveal_strlit("Bash");
    reveal_strlit("Read");
    reveal_strlit("Write");
    reveal_strlit("Edit");
    reveal_strlit("Glob");
    reveal_strlit("Grep");
    reveal_strlit("Agent");
    reveal_strlit("ScheduleWakeup");
    reveal_strlit("Skill");
    assert("Bash"@[0] == 'B' && "Read"@[0] == 'R' && "Write"@[0] == 'W' && "Edit"@[0] == 'E');
    assert("Glob"@[0] == 'G' && "Glob"@[1] == 'l');
    assert("Grep"@[0] == 'G' && "Grep"@[1] == 'r');
    assert("Agent"@[0] == 'A');
    assert("ScheduleWakeup"@[0] == 'S' && "ScheduleWakeup"@[1] == 'c');
    assert("Skill"@[0] == 'S' && "Skill"@[1] == 'k');
}

/// A block of the system prompt; the prompt cache ends behind a cached one.
#[derive(Debug, PartialEq, Eq)]
pub struct SystemBlock {
    pub text: String,
    pub cached: bool,
}

#[verifier::ext_equal]
pub struct SystemView {
    pub text: Seq<char>,
    pub cached: bool,
}

impl View for SystemBlock {
    type V = SystemView;

    open spec fn view(&self) -> SystemView {
        SystemView { text: self.text@, cached: self.cached }
    }
}

pub open spec fn system_views(blocks: Seq<SystemBlock>) -> Seq<SystemView> {
    blocks.map_values(|b: SystemBlock| b@)
}

/// One text: what stands before the boundary is cached, what stands behind it is
/// not, and a text without a boundary is kept as it is.
pub open spec fn blocks_of_text(text: Seq<char>, boundary: Seq<char>) -> Seq<SystemView> {
    match cut(text, boundary) {
        None => seq![SystemView { text, cached: false }],
        Some((frozen, moving)) => {
            let first = SystemView { text: trimmed_end(frozen), cached: true };
            if trimmed(moving).len() == 0 {
                seq![first]
            } else {
                seq![first, SystemView { text: trimmed(moving), cached: false }]
            }
        },
    }
}

/// The blocks of the system messages.
pub open spec fn blocks_of(messages: Seq<Message>, boundary: Seq<char>) -> Seq<SystemView>
    decreases messages.len(),
{
    if messages.len() == 0 {
        Seq::empty()
    } else if messages.last().role == Role::System {
        blocks_of(messages.drop_last(), boundary) + blocks_of_text(
            messages.last().content@,
            boundary,
        )
    } else {
        blocks_of(messages.drop_last(), boundary)
    }
}

fn push_block(out: &mut Vec<SystemBlock>, text: String, cached: bool)
    ensures
        system_views(final(out)@) == system_views(old(out)@).push(SystemView { text: text@, cached }),
{
    let ghost before = out@;
    let ghost said = text@;
    out.push(SystemBlock { text, cached });
    assert(system_views(out@) =~= system_views(before).push(SystemView { text: said, cached }));
}

fn push_blocks(out: &mut Vec<SystemBlock>, text: &str, boundary: &str)
    ensures
        system_views(final(out)@) == system_views(old(out)@) + blocks_of_text(text@, boundary@),
{
    match split_once(text, boundary) {
        None => push_block(out, text.to_owned(), false),
        Some((frozen, moving)) => {
            push_block(out, trim_end(frozen.as_str()), true);
            let moving = trim(moving.as_str());
            if !moving.as_str().is_empty() {
                push_block(out, moving, false);
            }
        },
    }
    assert(system_views(out@) =~= system_views(old(out)@) + blocks_of_text(text@, boundary@));
}

/// The blocks of the system messages, cut at `boundary`.
pub fn system_blocks_of(messages: &Vec<Message>, boundary: &str) -> (r: Vec<SystemBlock>)
    ensures
        system_views(r@) == blocks_of(messages@, boundary@),
{
    let mut out: Vec<SystemBlock> = Vec::new();
    let mut i: usize = 0;
    assert(messages@.take(0) =~= Seq::<Message>::empty());
    assert(system_views(out@) =~= Seq::<SystemView>::empty());
    while i < messages.len()
        invariant
            i <= messages@.len(),
            system_views(out@) == blocks_of(messages@.take(i as int), boundary@),
        decreases messages@.len() - i,
    {
        assert(messages@.take(i + 1).drop_last() =~= messages@.take(i as int));
        if messages[i].role == Role::System {
            push_blocks(&mut out, messages[i].content.as_str(), boundary);
        }
        i = i + 1;
    }
    assert(messages@.take(i as int) =~= messages@);
    out
}

/// A block on the wire.
pub open spec fn block_json(block: SystemView) -> JsonView {
    if block.cached {
        JsonView::object()
            .with_str("type"@, "text"@)
            .with_str("text"@, block.text)
            .with("cache_control"@, JsonView::object().with_str("type"@, "ephemeral"@))
    } else {
        text_block("text"@, block.text)
    }
}

fn block_value(block: &SystemBlock) -> (r: Json)
    ensures
        r@ == block_json(block@),
{
    let plain = Json::object().with_str("type", "text").with_str("text", block.text.as_str());
    if block.cached {
        let control = Json::object().with_str("type", "ephemeral");
        plain.with("cache_control", control)
    } else {
        plain
    }
}

pub open spec fn image_block(image: ImagePart) -> JsonView {
    JsonView::object()
        .with_str("type"@, "image"@)
        .with(
            "source"@,
            JsonView::object()
                .with_str("type"@, "base64"@)
                .with_str("media_type"@, image.media_type@)
                .with_str("data"@, image.data@),
        )
}

pub open spec fn image_blocks(images: Seq<ImagePart>) -> Seq<JsonView> {
    images.map_values(|image: ImagePart| image_block(image))
}

/// What a user says: plain text, or the pictures and the text behind them.
pub open spec fn user_content(message: Message) -> JsonView {
    if message.images@.len() == 0 {
        JsonView::Str(message.content@)
    } else {
        JsonView::Arr(with_text(image_blocks(message.images@), "text"@, message.content@))
    }
}

pub fn wire_content(message: &Message) -> (r: Json)
    ensures
        r@ == user_content(*message),
{
    if message.images.len() == 0 {
        return Json::string(message.content.as_str());
    }
    let mut blocks: Vec<Json> = Vec::new();
    let mut i: usize = 0;
    assert(list_view(blocks@) =~= image_blocks(message.images@.take(0)));
    while i < message.images.len()
        invariant
            i <= message.images@.len(),
            list_view(blocks@) == image_blocks(message.images@.take(i as int)),
        decreases message.images@.len() - i,
    {
        let image = &message.images[i];
        let source = Json::object().with_str("type", "base64").with_str(
            "media_type",
            image.media_type.as_str(),
        ).with_str("data", image.data.as_str());
        let block = Json::object().with_str("type", "image").with("source", source);
        assert(block@ == image_block(*image));
        let ghost before = list_view(blocks@);
        push_json(&mut blocks, block);
        i = i + 1;
        assert(image_blocks(message.images@.take(i as int)) =~= before.push(block@));
    }
    assert(message.images@.take(i as int) =~= message.images@);
    push_text(&mut blocks, "text", message.content.as_str());
    Json::array(blocks)
}

/// The arguments of a call: the empty object where they are no JSON.
pub open spec fn arguments_of(arguments: Result<JsonView, Seq<char>>) -> JsonView {
    match arguments {
        Ok(value) => value,
        Err(_) => JsonView::object(),
    }
}

/// A call of a tool, with its arguments as a value.
pub open spec fn tool_use_block(id: Seq<char>, name: Seq<char>, input: JsonView) -> JsonView {
    JsonView::object()
        .with_str("type"@, "tool_use"@)
        .with_str("id"@, id)
        .with_str("name"@, offered(name))
        .with("input"@, input)
}

pub fn tool_use(call: &AssistantToolCall, input: Json) -> (r: Json)
    ensures
        r@ == tool_use_block(call.id@, call.name@, input@),
{
    Json::object().with_str("type", "tool_use").with_str("id", call.id.as_str()).with_str(
        "name",
        remap_tool_name(call.name.as_str()),
    ).with("input", input)
}

pub open spec fn tool_uses(calls: Seq<AssistantToolCall>) -> Seq<JsonView> {
    calls.map_values(
        |call: AssistantToolCall|
            tool_use_block(call.id@, call.name@, arguments_of(parsed(call.arguments@))),
    )
}

/// What the assistant said: plain text, or the text and its calls.
pub open spec fn reply_content(message: Message) -> JsonView {
    if message.tool_calls@.len() == 0 {
        JsonView::Str(message.content@)
    } else {
        JsonView::Arr(
            with_text(Seq::empty(), "text"@, message.content@) + tool_uses(message.tool_calls@),
        )
    }
}

/// The arguments of a call as a value.
pub fn call_input(arguments: &str) -> (r: Json)
    ensures
        r@ == arguments_of(parsed(arguments@)),
{
    match parse_json(arguments) {
        Ok(value) => value,
        Err(_) => Json::object(),
    }
}

pub fn assistant_content(message: &Message) -> (r: Json)
    ensures
        r@ == reply_content(*message),
{
    if message.tool_calls.len() == 0 {
        return Json::string(message.content.as_str());
    }
    let mut blocks: Vec<Json> = Vec::new();
    push_text(&mut blocks, "text", message.content.as_str());
    let ghost head = list_view(blocks@);
    let mut i: usize = 0;
    assert(head + tool_uses(message.tool_calls@.take(0)) =~= head);
    while i < message.tool_calls.len()
        invariant
            i <= message.tool_calls@.len(),
            list_view(blocks@) == head + tool_uses(message.tool_calls@.take(i as int)),
        decreases message.tool_calls@.len() - i,
    {
        let call = &message.tool_calls[i];
        let input = call_input(call.arguments.as_str());
        let block = tool_use(call, input);
        let ghost before = list_view(blocks@);
        push_json(&mut blocks, block);
        i = i + 1;
        assert(head + tool_uses(message.tool_calls@.take(i as int)) =~= before.push(block@));
    }
    assert(message.tool_calls@.take(i as int) =~= message.tool_calls@);
    Json::array(blocks)
}

/// Whose turn it is. Results of tools are sent as the user's.
#[derive(Debug, Clone, Copy, PartialEq, Eq, Structural)]
pub enum Turn {
    Assistant,
    User,
    ToolResults,
}

impl Turn {
    pub open spec fn spec_role(self) -> Seq<char> {
        match self {
            Turn::Assistant => "assistant"@,
            _ => "user"@,
        }
    }

    pub fn role(self) -> (r: &'static str)
        ensures
            r@ == self.spec_role(),
    {
        match self {
            Turn::Assistant => "assistant",
            _ => "user",
        }
    }
}

/// A message on the wire.
#[derive(Debug)]
pub struct ApiMessage {
    pub turn: Turn,
    pub content: Json,
}

#[verifier::ext_equal]
pub struct ApiView {
    pub turn: Turn,
    pub content: JsonView,
}

impl View for ApiMessage {
    type V = ApiView;

    open spec fn view(&self) -> ApiView {
        ApiView { turn: self.turn, content: self.content@ }
    }
}

pub open spec fn api_views(list: Seq<ApiMessage>) -> Seq<ApiView> {
    list.map_values(|m: ApiMessage| m@)
}

pub open spec fn result_block(message: Message) -> JsonView {
    JsonView::object()
        .with_str("type"@, "tool_result"@)
        .with("tool_use_id"@, text_or_null(opt_view(message.tool_call_id)))
        .with_str("content"@, message.content@)
}

/// Messages on the wire, and results of tools that wait for the next turn.
#[verifier::ext_equal]
pub struct Turns {
    pub done: Seq<ApiView>,
    pub results: Seq<JsonView>,
}

impl Turns {
    /// The results that wait become one message.
    pub open spec fn flushed(self) -> Seq<ApiView> {
        if self.results.len() == 0 {
            self.done
        } else {
            self.done.push(
                ApiView { turn: Turn::ToolResults, content: JsonView::Arr(self.results) },
            )
        }
    }

    pub open spec fn after(self, message: Message) -> Turns {
        match message.role {
            Role::System => self,
            Role::Tool => Turns { results: self.results.push(result_block(message)), ..self },
            Role::Assistant => Turns {
                done: self.flushed().push(
                    ApiView { turn: Turn::Assistant, content: reply_content(message) },
                ),
                results: Seq::empty(),
            },
            Role::User => Turns {
                done: self.flushed().push(
                    ApiView { turn: Turn::User, content: user_content(message) },
                ),
                results: Seq::empty(),
            },
        }
    }
}

pub open spec fn turns_of(messages: Seq<Message>) -> Turns
    decreases messages.len(),
{
    if messages.len() == 0 {
        Turns { done: Seq::empty(), results: Seq::empty() }
    } else {
        turns_of(messages.drop_last()).after(messages.last())
    }
}

/// Results of tools that follow each other are one message.
pub open spec fn api_messages(messages: Seq<Message>) -> Seq<ApiView> {
    turns_of(messages).flushed()
}

fn push_turn(out: &mut Vec<ApiMessage>, turn: Turn, content: Json)
    ensures
        api_views(final(out)@) == api_views(old(out)@).push(ApiView { turn, content: content@ }),
{
    let ghost before = out@;
    let ghost said = content@;
    out.push(ApiMessage { turn, content });
    assert(api_views(out@) =~= api_views(before).push(ApiView { turn, content: said }));
}

fn flush_tool_results(out: &mut Vec<ApiMessage>, results: Vec<Json>)
    ensures
        api_views(final(out)@) == (Turns {
            done: api_views(old(out)@),
            results: list_view(results@),
        }).flushed(),
{
    proof {
        crate::json::lemma_list_view(results@);
    }
    if results.len() > 0 {
        push_turn(out, Turn::ToolResults, Json::array(results));
    }
}

pub fn api_messages_of(messages: &Vec<Message>) -> (r: Vec<ApiMessage>)
    ensures
        api_views(r@) == api_messages(messages@),
{
    let mut out: Vec<ApiMessage> = Vec::new();
    let mut results: Vec<Json> = Vec::new();
    let mut i: usize = 0;
    assert(messages@.take(0) =~= Seq::<Message>::empty());
    assert(api_views(out@) =~= Seq::<ApiView>::empty());
    while i < messages.len()
        invariant
            i <= messages@.len(),
            turns_of(messages@.take(i as int)) == (Turns {
                done: api_views(out@),
                results: list_view(results@),
            }),
        decreases messages@.len() - i,
    {
        assert(messages@.take(i + 1).drop_last() =~= messages@.take(i as int));
        let message = &messages[i];
        match message.role {
            Role::System => {},
            Role::Tool => {
                let id = string_or_null(&message.tool_call_id);
                let block = Json::object().with_str("type", "tool_result").with(
                    "tool_use_id",
                    id,
                ).with_str("content", message.content.as_str());
                assert(block@ == result_block(*message));
                push_json(&mut results, block);
            },
            Role::Assistant => {
                flush_tool_results(&mut out, results);
                results = Vec::new();
                push_turn(&mut out, Turn::Assistant, assistant_content(message));
            },
            Role::User => {
                flush_tool_results(&mut out, results);
                results = Vec::new();
                push_turn(&mut out, Turn::User, wire_content(message));
            },
        }
        i = i + 1;
    }
    assert(messages@.take(i as int) =~= messages@);
    flush_tool_results(&mut out, results);
    out
}

proof fn lemma_results_apart(messages: Seq<Message>)
    ensures
        ({
            let turns = turns_of(messages);
            &&& turns.done.len() == 0 || turns.done.last().turn != Turn::ToolResults
            &&& forall|i: int, j: int|
                0 <= i && j == i + 1 && j < turns.done.len() ==> !(#[trigger] turns.done[i].turn
                    == Turn::ToolResults && #[trigger] turns.done[j].turn == Turn::ToolResults)
        }),
    decreases messages.len(),
{
    if messages.len() > 0 {
        lemma_results_apart(messages.drop_last());
    }
}

/// Results of tools never stand in two messages in a row.
pub proof fn law_tool_results_are_merged(messages: Seq<Message>, i: int)
    requires
        0 <= i < api_messages(messages).len() - 1,
    ensures
        !(api_messages(messages)[i].turn == Turn::ToolResults && api_messages(messages)[i + 1].turn
            == Turn::ToolResults),
{
    lemma_results_apart(messages);
}

/// How a request is authenticated.
#[derive(Debug)]
pub enum WireAuth {
    /// A subscription to a product: the identity line, the beta header and the
    /// user agent.
    Oauth(String),
    /// A key of an endpoint of one's own.
    ApiKey,
    /// A token, without anything of the subscription.
    Bearer,
}

/// An endpoint that speaks Anthropic's messages; `label` goes before its errors.
#[derive(Debug)]
pub struct AnthropicProvider {
    pub url: String,
    pub bearer: String,
    pub auth: WireAuth,
    pub label: String,
}

impl AnthropicProvider {
    pub fn new(bearer: String, product: String) -> (r: AnthropicProvider)
        ensures
            r.url@ == "https://api.anthropic.com/v1/messages?beta=true"@,
            r.bearer == bearer,
            r.auth == WireAuth::Oauth(product),
            r.label@ == "anthropic"@,
    {
        AnthropicProvider {
            url: API_URL.to_owned(),
            bearer,
            auth: WireAuth::Oauth(product),
            label: "anthropic".to_owned(),
        }
    }

    pub fn custom(base_url: String, api_key: String) -> (r: AnthropicProvider)
        ensures
            r.url == base_url,
            r.bearer == api_key,
            r.auth == WireAuth::ApiKey,
            r.label@ == "anthropic"@,
    {
        AnthropicProvider {
            url: base_url,
            bearer: api_key,
            auth: WireAuth::ApiKey,
            label: "anthropic".to_owned(),
        }
    }

    pub fn bearer_custom(base_url: String, token: String, label: String) -> (r: AnthropicProvider)
        ensures
            r == (AnthropicProvider {
                url: base_url,
                bearer: token,
                auth: WireAuth::Bearer,
                label,
            }),
    {
        AnthropicProvider { url: base_url, bearer: token, auth: WireAuth::Bearer, label }
    }
}

pub open spec fn headers_of(auth: WireAuth, bearer: Seq<char>) -> Seq<(Seq<char>, Seq<char>)> {
    let own = match auth {
        WireAuth::Oauth(product) => seq![
            ("authorization"@, "Bearer "@ + bearer),
            ("anthropic-beta"@, oauth_beta(product@)),
            ("user-agent"@, user_agent(product@)),
        ],
        WireAuth::ApiKey => seq![("x-api-key"@, bearer)],
        WireAuth::Bearer => seq![("authorization"@, "Bearer "@ + bearer)],
    };
    own.push(("anthropic-version"@, "2023-06-01"@)).push(("content-type"@, "application/json"@))
}

pub open spec fn api_json(message: ApiView) -> JsonView {
    JsonView::object().with_str("role"@, message.turn.spec_role()).with("content"@, message.content)
}

pub open spec fn tool_json(tool: ToolDefinition) -> JsonView {
    JsonView::object()
        .with_str("name"@, offered(tool.name@))
        .with_str("description"@, tool.description@)
        .with("input_schema"@, tool.parameters@)
}

/// The system blocks of a request; with a subscription the identity line stands
/// first.
pub open spec fn system_of(messages: Seq<Message>, boundary: Seq<char>, auth: WireAuth) -> Seq<SystemView> {
    let own = blocks_of(messages, boundary);
    match auth {
        WireAuth::Oauth(product) => seq![
            SystemView { text: identity_line(product@), cached: false },
        ] + own,
        _ => own,
    }
}

/// The body of a request.
pub open spec fn body_of(
    model: Seq<char>,
    messages: Seq<Message>,
    tools: Seq<ToolDefinition>,
    boundary: Seq<char>,
    auth: WireAuth,
) -> JsonView {
    let plain = JsonView::object().with_str("model"@, model).with(
        "max_tokens"@,
        JsonView::Uint(8192),
    ).with(
        "system"@,
        JsonView::Arr(
            system_of(messages, boundary, auth).map_values(|b: SystemView| block_json(b)),
        ),
    ).with(
        "messages"@,
        JsonView::Arr(api_messages(messages).map_values(|m: ApiView| api_json(m))),
    ).with("stream"@, JsonView::Bool(true));
    if tools.len() == 0 {
        plain
    } else {
        plain.with("tools"@, JsonView::Arr(tools.map_values(|t: ToolDefinition| tool_json(t))))
    }
}

fn system_values(blocks: &Vec<SystemBlock>) -> (r: Vec<Json>)
    ensures
        list_view(r@) == system_views(blocks@).map_values(|b: SystemView| block_json(b)),
{
    let mut out: Vec<Json> = Vec::new();
    let mut i: usize = 0;
    let ghost all = system_views(blocks@).map_values(|b: SystemView| block_json(b));
    assert(list_view(out@) =~= all.take(0));
    while i < blocks.len()
        invariant
            i <= blocks@.len(),
            all == system_views(blocks@).map_values(|b: SystemView| block_json(b)),
            list_view(out@) == all.take(i as int),
        decreases blocks@.len() - i,
    {
        let value = block_value(&blocks[i]);
        assert(all.take(i + 1) =~= all.take(i as int).push(value@));
        push_json(&mut out, value);
        i = i + 1;
    }
    assert(all.take(i as int) =~= all);
    out
}

fn message_values(messages: Vec<ApiMessage>) -> (r: Vec<Json>)
    ensures
        list_view(r@) == api_views(messages@).map_values(|m: ApiView| api_json(m)),
{
    let mut out: Vec<Json> = Vec::new();
    let mut i: usize = 0;
    let ghost all = api_views(messages@).map_values(|m: ApiView| api_json(m));
    assert(list_view(out@) =~= all.take(0));
    while i < messages.len()
        invariant
            i <= messages@.len(),
            all == api_views(messages@).map_values(|m: ApiView| api_json(m)),
            list_view(out@) == all.take(i as int),
        decreases messages@.len() - i,
    {
        let content = messages[i].content.copy();
        let value = Json::object().with_str("role", messages[i].turn.role()).with(
            "content",
            content,
        );
        assert(value@ == api_json(messages@[i as int]@));
        assert(all.take(i + 1) =~= all.take(i as int).push(value@));
        push_json(&mut out, value);
        i = i + 1;
    }
    assert(all.take(i as int) =~= all);
    out
}

fn tool_values(tools: &Vec<ToolDefinition>) -> (r: Vec<Json>)
    ensures
        list_view(r@) == tools@.map_values(|t: ToolDefinition| tool_json(t)),
{
    let mut out: Vec<Json> = Vec::new();
    let mut i: usize = 0;
    let ghost all = tools@.map_values(|t: ToolDefinition| tool_json(t));
    assert(list_view(out@) =~= all.take(0));
    while i < tools.len()
        invariant
            i <= tools@.len(),
            all == tools@.map_values(|t: ToolDefinition| tool_json(t)),
            list_view(out@) == all.take(i as int),
        decreases tools@.len() - i,
    {
        let schema = tools[i].parameters.copy();
        let value = Json::object().with_str("name", remap_tool_name(tools[i].name.as_str())).with_str(
            "description",
            tools[i].description.as_str(),
        ).with("input_schema", schema);
        assert(value@ == tool_json(tools@[i as int]));
        assert(all.take(i + 1) =~= all.take(i as int).push(value@));
        push_json(&mut out, value);
        i = i + 1;
    }
    assert(all.take(i as int) =~= all);
    out
}

impl AnthropicProvider {
    fn headers(&self) -> (r: Vec<(String, String)>)
        ensures
            header_views(r@) == headers_of(self.auth, self.bearer@),
    {
        let mut headers: Vec<(String, String)> = Vec::new();
        assert(header_views(headers@) =~= Seq::<(Seq<char>, Seq<char>)>::empty());
        match &self.auth {
            WireAuth::Oauth(product) => {
                let token = cat2("Bearer ", self.bearer.as_str());
                let small = to_ascii_lowercase(product.as_str());
                let beta = cat3("oauth-2025-04-20,", small.as_str(), "-code-20250219");
                let agent = cat2(small.as_str(), "-cli/1.0.0");
                add_header(&mut headers, "authorization", token.as_str());
                add_header(&mut headers, "anthropic-beta", beta.as_str());
                add_header(&mut headers, "user-agent", agent.as_str());
            },
            WireAuth::ApiKey => add_header(&mut headers, "x-api-key", self.bearer.as_str()),
            WireAuth::Bearer => {
                let token = cat2("Bearer ", self.bearer.as_str());
                add_header(&mut headers, "authorization", token.as_str());
            },
        }
        add_header(&mut headers, "anthropic-version", "2023-06-01");
        add_header(&mut headers, "content-type", "application/json");
        headers
    }

    /// The request that streams an answer. `boundary` is the text at which the
    /// system prompt is cut.
    pub fn request(
        &self,
        model: &str,
        messages: &Vec<Message>,
        tools: &Vec<ToolDefinition>,
        boundary: &str,
    ) -> (r: HttpRequest)
        ensures
            r@ == (HttpView {
                url: self.url@,
                headers: headers_of(self.auth, self.bearer@),
                body: body_of(model@, messages@, tools@, boundary@, self.auth),
            }),
    {
        let mut system: Vec<SystemBlock> = Vec::new();
        assert(system_views(system@) =~= Seq::<SystemView>::empty());
        if let WireAuth::Oauth(product) = &self.auth {
            let line = cat5(
                "You are ",
                product.as_str(),
                " Code, Anthropic's official CLI for ",
                product.as_str(),
                ".",
            );
            push_block(&mut system, line, false);
        }
        let mut own = system_blocks_of(messages, boundary);
        let ghost first = system@;
        let ghost rest = own@;
        system.append(&mut own);
        assert(system_views(system@) =~= system_views(first) + system_views(rest));
        assert(system_views(system@) =~= system_of(messages@, boundary@, self.auth));
        let blocks = system_values(&system);
        let turns = message_values(api_messages_of(messages));
        let plain = Json::object().with_str("model", model).with("max_tokens", Json::Uint(8192)).with(
            "system",
            Json::array(blocks),
        ).with("messages", Json::array(turns)).with("stream", Json::Bool(true));
        let body = if tools.len() == 0 {
            plain
        } else {
            plain.with("tools", Json::array(tool_values(tools)))
        };
        HttpRequest { url: self.url.clone(), headers: self.headers(), body }
    }
}

/// What a block on the wire says.
pub enum Heard {
    Text(Seq<char>),
    Image(Seq<char>, Seq<char>),
    Call(Seq<char>, Seq<char>, JsonView),
    Result(Option<JsonView>, Seq<char>),
    Nothing,
}

pub open spec fn heard_block(block: JsonView) -> Heard {
    match block.text_under("type"@) {
        Some(kind) => if kind == "text"@ {
            match block.text_under("text"@) {
                Some(text) => Heard::Text(text),
                None => Heard::Nothing,
            }
        } else if kind == "image"@ {
            match block.get("source"@) {
                Some(source) => match (source.text_under("media_type"@), source.text_under("data"@)) {
                    (Some(media_type), Some(data)) => if source.text_under("type"@) == Some(
                        "base64"@,
                    ) {
                        Heard::Image(media_type, data)
                    } else {
                        Heard::Nothing
                    },
                    _ => Heard::Nothing,
                },
                None => Heard::Nothing,
            }
        } else if kind == "tool_use"@ {
            match (block.text_under("id"@), block.text_under("name"@), block.get("input"@)) {
                (Some(id), Some(name), Some(input)) => Heard::Call(id, name, input),
                _ => Heard::Nothing,
            }
        } else if kind == "tool_result"@ {
            match block.text_under("content"@) {
                Some(text) => Heard::Result(block.get("tool_use_id"@), text),
                None => Heard::Nothing,
            }
        } else {
            Heard::Nothing
        },
        None => Heard::Nothing,
    }
}

/// What the content of a turn says, in its order.
pub open spec fn heard_content(content: JsonView) -> Seq<Heard> {
    match content {
        JsonView::Str(text) => seq![Heard::Text(text)],
        JsonView::Arr(blocks) => blocks.map_values(|b: JsonView| heard_block(b)),
        _ => Seq::empty(),
    }
}

/// What the turns on the wire say, each thing with the role that says it.
pub open spec fn heard(turns: Seq<JsonView>) -> Seq<(Seq<char>, Heard)>
    decreases turns.len(),
{
    if turns.len() == 0 {
        Seq::empty()
    } else {
        let turn = turns.last();
        let before = heard(turns.drop_last());
        match (turn.text_under("role"@), turn.get("content"@)) {
            (Some(role), Some(content)) => before + from_role(role, heard_content(content)),
            _ => before,
        }
    }
}

pub open spec fn from_role(role: Seq<char>, things: Seq<Heard>) -> Seq<(Seq<char>, Heard)> {
    things.map_values(|h: Heard| (role, h))
}

pub open spec fn text_said(text: Seq<char>) -> Seq<Heard> {
    if text.len() == 0 {
        Seq::empty()
    } else {
        seq![Heard::Text(text)]
    }
}

/// What a message says: a picture or a call for each that it holds, and its text.
pub open spec fn said(message: Message) -> Seq<Heard> {
    match message.role {
        Role::System => Seq::empty(),
        Role::Tool => seq![
            Heard::Result(
                Some(
                    match message.tool_call_id {
                        Some(id) => JsonView::Str(id@),
                        None => JsonView::Null,
                    },
                ),
                message.content@,
            ),
        ],
        Role::User => if message.images@.len() == 0 {
            seq![Heard::Text(message.content@)]
        } else {
            message.images@.map_values(
                |image: ImagePart| Heard::Image(image.media_type@, image.data@),
            ) + text_said(message.content@)
        },
        Role::Assistant => if message.tool_calls@.len() == 0 {
            seq![Heard::Text(message.content@)]
        } else {
            text_said(message.content@) + message.tool_calls@.map_values(
                |call: AssistantToolCall|
                    Heard::Call(
                        call.id@,
                        offered(call.name@),
                        match parsed(call.arguments@) {
                            Ok(input) => input,
                            Err(_) => JsonView::Obj(Seq::empty()),
                        },
                    ),
            )
        },
    }
}

pub open spec fn speaker(message: Message) -> Seq<char> {
    if message.role == Role::Assistant {
        "assistant"@
    } else {
        "user"@
    }
}

/// What the messages say, in their order.
pub open spec fn all_said(messages: Seq<Message>) -> Seq<(Seq<char>, Heard)>
    decreases messages.len(),
{
    if messages.len() == 0 {
        Seq::empty()
    } else {
        all_said(messages.drop_last()) + from_role(speaker(messages.last()), said(messages.last()))
    }
}

proof fn lemma_text_block(text: Seq<char>)
    ensures
        heard_block(text_block("text"@, text)) == Heard::Text(text),
{
    broadcast use law_field_is_found;

    reveal_strlit("type");
    reveal_strlit("text");
    assert("type"@.len() == 4);
    assert("text"@.len() == 4);
    assert("type"@[1] == 'y');
    assert("text"@[1] == 'e');
    let first = JsonView::object().with_str("type"@, "text"@);
    let block = text_block("text"@, text);
    assert(JsonView::object().get("type"@) is None);
    assert(JsonView::object().get("text"@) is None);
    assert(first.get("type"@) == Some(JsonView::Str("text"@)));
    assert(block == first.with("text"@, JsonView::Str(text)));
}

proof fn lemma_image_block(image: ImagePart)
    ensures
        heard_block(image_block(image)) == Heard::Image(image.media_type@, image.data@),
{
    broadcast use law_field_is_found;

    reveal_strlit("type");
    reveal_strlit("text");
    reveal_strlit("image");
    reveal_strlit("source");
    reveal_strlit("media_type");
    reveal_strlit("data");
    assert("type"@.len() == 4);
    assert("text"@.len() == 4);
    assert("image"@.len() == 5);
    assert("source"@.len() == 6);
    assert("media_type"@.len() == 10);
    assert("data"@.len() == 4);
    assert("type"@[1] == 'y');
    assert("text"@[1] == 'e');
    assert("type"@[0] == 't');
    assert("data"@[0] == 'd');
    assert("text"@[0] == 't');
    let empty = JsonView::object();
    assert(forall|k: Seq<char>| (#[trigger] empty.get(k)) is None);
    let a = empty.with("type"@, JsonView::Str("base64"@));
    let b = a.with("media_type"@, JsonView::Str(image.media_type@));
    let source = b.with("data"@, JsonView::Str(image.data@));
    let c = empty.with("type"@, JsonView::Str("image"@));
    let block = c.with("source"@, source);
    assert(block == image_block(image));
    assert(source.get("type"@) == Some(JsonView::Str("base64"@)));
    assert(source.get("media_type"@) == Some(JsonView::Str(image.media_type@)));
    assert(source.get("data"@) == Some(JsonView::Str(image.data@)));
    assert(block.get("type"@) == Some(JsonView::Str("image"@)));
    assert(block.get("source"@) == Some(source));
}

proof fn lemma_tool_use_block(id: Seq<char>, name: Seq<char>, input: JsonView)
    ensures
        heard_block(tool_use_block(id, name, input)) == Heard::Call(id, offered(name), input),
{
    broadcast use law_field_is_found;

    reveal_strlit("type");
    reveal_strlit("text");
    reveal_strlit("image");
    reveal_strlit("tool_use");
    reveal_strlit("id");
    reveal_strlit("name");
    reveal_strlit("input");
    assert("type"@.len() == 4);
    assert("text"@.len() == 4);
    assert("image"@.len() == 5);
    assert("tool_use"@.len() == 8);
    assert("id"@.len() == 2);
    assert("name"@.len() == 4);
    assert("input"@.len() == 5);
    assert("type"@[1] == 'y');
    assert("text"@[1] == 'e');
    assert("type"@[0] == 't');
    assert("name"@[0] == 'n');
    assert("text"@[0] == 't');
    assert("image"@[1] == 'm');
    assert("input"@[1] == 'n');
    let empty = JsonView::object();
    assert(forall|k: Seq<char>| (#[trigger] empty.get(k)) is None);
    let a = empty.with("type"@, JsonView::Str("tool_use"@));
    let b = a.with("id"@, JsonView::Str(id));
    let c = b.with("name"@, JsonView::Str(offered(name)));
    let block = c.with("input"@, input);
    assert(block == tool_use_block(id, name, input));
    assert(block.get("type"@) == Some(JsonView::Str("tool_use"@)));
    assert(block.get("id"@) == Some(JsonView::Str(id)));
    assert(block.get("name"@) == Some(JsonView::Str(offered(name))));
    assert(block.get("input"@) == Some(input));
}

proof fn lemma_result_block(message: Message)
    requires
        message.role == Role::Tool,
    ensures
        seq![heard_block(result_block(message))] == said(message),
{
    broadcast use law_field_is_found;

    reveal_strlit("type");
    reveal_strlit("text");
    reveal_strlit("image");
    reveal_strlit("tool_use");
    reveal_strlit("tool_result");
    reveal_strlit("tool_use_id");
    reveal_strlit("content");
    assert("type"@.len() == 4);
    assert("text"@.len() == 4);
    assert("image"@.len() == 5);
    assert("tool_use"@.len() == 8);
    assert("tool_result"@.len() == 11);
    assert("tool_use_id"@.len() == 11);
    assert("content"@.len() == 7);
    assert("type"@[1] == 'y');
    assert("text"@[1] == 'e');
    assert("tool_result"@[5] == 'r');
    assert("tool_use_id"@[5] == 'u');
    let empty = JsonView::object();
    assert(forall|k: Seq<char>| (#[trigger] empty.get(k)) is None);
    let id = text_or_null(opt_view(message.tool_call_id));
    let a = empty.with("type"@, JsonView::Str("tool_result"@));
    let b = a.with("tool_use_id"@, id);
    let block = b.with("content"@, JsonView::Str(message.content@));
    assert(block == result_block(message));
    assert(block.get("type"@) == Some(JsonView::Str("tool_result"@)));
    assert(block.get("tool_use_id"@) == Some(id));
    assert(block.get("content"@) == Some(JsonView::Str(message.content@)));
}

proof fn lemma_user_content(message: Message)
    requires
        message.role == Role::User,
    ensures
        heard_content(user_content(message)) == said(message),
{
    if message.images@.len() > 0 {
        let blocks = with_text(image_blocks(message.images@), "text"@, message.content@);
        assert forall|i: int| 0 <= i < message.images@.len() implies heard_block(
            #[trigger] blocks[i],
        ) == said(message)[i] by {
            assert(blocks[i] == image_block(message.images@[i]));
            lemma_image_block(message.images@[i]);
        }
        if message.content@.len() > 0 {
            lemma_text_block(message.content@);
        }
        assert(heard_content(user_content(message)) =~= said(message));
    } else {
        assert(heard_content(user_content(message)) =~= said(message));
    }
}

proof fn lemma_reply_content(message: Message)
    requires
        message.role == Role::Assistant,
    ensures
        heard_content(reply_content(message)) == said(message),
{
    if message.tool_calls@.len() > 0 {
        let head = with_text(Seq::empty(), "text"@, message.content@);
        let blocks = head + tool_uses(message.tool_calls@);
        if message.content@.len() > 0 {
            lemma_text_block(message.content@);
        }
        assert forall|i: int| 0 <= i < blocks.len() implies heard_block(#[trigger] blocks[i])
            == said(message)[i] by {
            if i >= head.len() {
                let call = message.tool_calls@[i - head.len()];
                let input = arguments_of(parsed(call.arguments@));
                assert(blocks[i] == tool_use_block(call.id@, call.name@, input));
                lemma_tool_use_block(call.id@, call.name@, input);
            }
        }
        assert(heard_content(reply_content(message)) =~= said(message));
    } else {
        assert(heard_content(reply_content(message)) =~= said(message));
    }
}

proof fn lemma_turn_json(turn: ApiView)
    ensures
        api_json(turn).text_under("role"@) == Some(
            if turn.turn == Turn::Assistant {
                "assistant"@
            } else {
                "user"@
            },
        ),
        api_json(turn).get("content"@) == Some(turn.content),
{
    broadcast use law_field_is_found;

    reveal_strlit("role");
    reveal_strlit("content");
    assert("role"@.len() == 4);
    assert("content"@.len() == 7);
    let empty = JsonView::object();
    assert(forall|k: Seq<char>| (#[trigger] empty.get(k)) is None);
    let a = empty.with("role"@, JsonView::Str(turn.turn.spec_role()));
    assert(api_json(turn) == a.with("content"@, turn.content));
}

/// The turns as they go on the wire.
pub open spec fn turn_values(turns: Seq<ApiView>) -> Seq<JsonView> {
    turns.map_values(|m: ApiView| api_json(m))
}

proof fn lemma_heard_pushed(turns: Seq<ApiView>, turn: ApiView)
    ensures
        heard(turn_values(turns.push(turn))) == heard(turn_values(turns)) + from_role(
            if turn.turn == Turn::Assistant {
                "assistant"@
            } else {
                "user"@
            },
            heard_content(turn.content),
        ),
{
    let all = turn_values(turns.push(turn));
    assert(all.drop_last() =~= turn_values(turns));
    assert(all.last() == api_json(turn));
    lemma_turn_json(turn);
}

proof fn lemma_flushed_heard(turns: Turns)
    ensures
        heard(turn_values(turns.flushed())) == heard(turn_values(turns.done)) + from_role(
            "user"@,
            heard_content(JsonView::Arr(turns.results)),
        ),
{
    if turns.results.len() == 0 {
        assert(heard_content(JsonView::Arr(turns.results)) =~= Seq::<Heard>::empty());
        assert(heard(turn_values(turns.done)) + from_role("user"@, Seq::<Heard>::empty()) =~= heard(
            turn_values(turns.done),
        ));
    } else {
        lemma_heard_pushed(
            turns.done,
            ApiView { turn: Turn::ToolResults, content: JsonView::Arr(turns.results) },
        );
    }
}

proof fn lemma_all_heard(messages: Seq<Message>)
    ensures
        heard(turn_values(api_messages(messages))) == all_said(messages),
    decreases messages.len(),
{
    let turns = turns_of(messages);
    if messages.len() == 0 {
        assert(turn_values(turns.flushed()) =~= Seq::<JsonView>::empty());
    } else {
        let before = turns_of(messages.drop_last());
        let message = messages.last();
        lemma_all_heard(messages.drop_last());
        lemma_flushed_heard(before);
        lemma_flushed_heard(turns);
        match message.role {
            Role::System => {
                assert(all_said(messages) =~= all_said(messages.drop_last()));
            },
            Role::Tool => {
                lemma_result_block(message);
                assert(heard_content(JsonView::Arr(turns.results)) =~= heard_content(
                    JsonView::Arr(before.results),
                ) + said(message));
                assert(from_role("user"@, heard_content(JsonView::Arr(turns.results))) =~= from_role(
                    "user"@,
                    heard_content(JsonView::Arr(before.results)),
                ) + from_role("user"@, said(message)));
                assert(heard(turn_values(turns.flushed())) =~= all_said(messages));
            },
            Role::User => {
                lemma_user_content(message);
                let turn = ApiView { turn: Turn::User, content: user_content(message) };
                lemma_heard_pushed(before.flushed(), turn);
                assert(turns.flushed() == before.flushed().push(turn));
            },
            Role::Assistant => {
                lemma_reply_content(message);
                let turn = ApiView { turn: Turn::Assistant, content: reply_content(message) };
                lemma_heard_pushed(before.flushed(), turn);
                assert(turns.flushed() == before.flushed().push(turn));
            },
        }
    }
}

/// Nothing that was said is lost on the wire, and nothing is added to it. Read
/// back from the fields of a request's body, the turns say what the messages say,
/// in the same order and under the same roles: each text, each picture with its
/// type and data, each call with its name and arguments, and each result of a tool
/// under the call it answers.
pub proof fn law_nothing_is_lost_on_the_wire(
    model: Seq<char>,
    messages: Seq<Message>,
    tools: Seq<ToolDefinition>,
    boundary: Seq<char>,
    auth: WireAuth,
)
    ensures
        match body_of(model, messages, tools, boundary, auth).get("messages"@) {
            Some(JsonView::Arr(turns)) => heard(turns) == all_said(messages),
            _ => false,
        },
{
    lemma_body_fields(model, messages, tools, boundary, auth);
    lemma_all_heard(messages);
}

proof fn lemma_body_fields(
    model: Seq<char>,
    messages: Seq<Message>,
    tools: Seq<ToolDefinition>,
    boundary: Seq<char>,
    auth: WireAuth,
)
    ensures
        ({
            let body = body_of(model, messages, tools, boundary, auth);
            &&& body.get("model"@) == Some(JsonView::Str(model))
            &&& body.get("max_tokens"@) == Some(JsonView::Uint(8192))
            &&& body.get("stream"@) == Some(JsonView::Bool(true))
            &&& body.get("system"@) == Some(
                JsonView::Arr(
                    system_of(messages, boundary, auth).map_values(|b: SystemView| block_json(b)),
                ),
            )
            &&& body.get("messages"@) == Some(JsonView::Arr(turn_values(api_messages(messages))))
            &&& body.get("tools"@) == (if tools.len() == 0 {
                None
            } else {
                Some(JsonView::Arr(tools.map_values(|t: ToolDefinition| tool_json(t))))
            })
        }),
{
    broadcast use law_field_is_found;

    reveal_strlit("model");
    reveal_strlit("max_tokens");
    reveal_strlit("system");
    reveal_strlit("messages");
    reveal_strlit("stream");
    reveal_strlit("tools");
    assert("model"@.len() == 5);
    assert("max_tokens"@.len() == 10);
    assert("system"@.len() == 6);
    assert("messages"@.len() == 8);
    assert("stream"@.len() == 6);
    assert("tools"@.len() == 5);
    assert("model"@[0] == 'm');
    assert("tools"@[0] == 't');
    assert("system"@[1] == 'y');
    assert("stream"@[1] == 't');
    let empty = JsonView::object();
    assert(forall|k: Seq<char>| (#[trigger] empty.get(k)) is None);
    let system = JsonView::Arr(
        system_of(messages, boundary, auth).map_values(|b: SystemView| block_json(b)),
    );
    let turns = JsonView::Arr(turn_values(api_messages(messages)));
    let a = empty.with("model"@, JsonView::Str(model));
    let b = a.with("max_tokens"@, JsonView::Uint(8192));
    let c = b.with("system"@, system);
    let d = c.with("messages"@, turns);
    let plain = d.with("stream"@, JsonView::Bool(true));
    assert(plain.get("model"@) == Some(JsonView::Str(model)));
    assert(plain.get("max_tokens"@) == Some(JsonView::Uint(8192)));
    assert(plain.get("system"@) == Some(system));
    assert(plain.get("messages"@) == Some(turns));
    assert(plain.get("stream"@) == Some(JsonView::Bool(true)));
    assert(plain.get("tools"@) is None);
    if tools.len() > 0 {
        let list = JsonView::Arr(tools.map_values(|t: ToolDefinition| tool_json(t)));
        assert(body_of(model, messages, tools, boundary, auth) == plain.with("tools"@, list));
    } else {
        assert(body_of(model, messages, tools, boundary, auth) == plain);
    }
}

proof fn lemma_turns_grow(messages: Seq<Message>, k: int)
    requires
        0 <= k < messages.len(),
        messages[k].role == Role::User || messages[k].role == Role::Assistant,
    ensures
        ({
            let part = turns_of(messages.take(k + 1)).done;
            let all = turns_of(messages).done;
            &&& part.len() <= all.len()
            &&& all.take(part.len() as int) == part
            &&& k < messages.len() - 1 || turns_of(messages).results.len() == 0
        }),
    decreases messages.len(),
{
    let part = turns_of(messages.take(k + 1)).done;
    let all = turns_of(messages).done;
    if k == messages.len() - 1 {
        assert(messages.take(k + 1) =~= messages);
        assert(all.take(part.len() as int) =~= part);
    } else {
        let init = messages.drop_last();
        assert(init.take(k + 1) =~= messages.take(k + 1));
        assert(init[k] == messages[k]);
        lemma_turns_grow(init, k);
        let before = turns_of(init).done;
        assert(before.len() <= all.len() && all.take(before.len() as int) =~= before);
        assert(all.take(part.len() as int) =~= before.take(part.len() as int));
    }
}

/// What the user or the assistant says has a turn of its own. The turns up to it
/// are those of the messages up to it, whatever follows.
pub proof fn law_each_message_has_its_turn(messages: Seq<Message>, k: int)
    requires
        0 <= k < messages.len(),
        messages[k].role == Role::User || messages[k].role == Role::Assistant,
    ensures
        ({
            let all = api_messages(messages);
            let upto = api_messages(messages.take(k + 1));
            let before = api_messages(messages.take(k));
            &&& upto.len() == before.len() + 1
            &&& upto.len() <= all.len()
            &&& all.take(upto.len() as int) == upto
            &&& upto.drop_last() == before
            &&& messages[k].role == Role::User ==> upto.last().turn == Turn::User
            &&& messages[k].role == Role::Assistant ==> upto.last().turn == Turn::Assistant
            &&& heard_content(upto.last().content) == said(messages[k])
        }),
{
    let upto = api_messages(messages.take(k + 1));
    let before = api_messages(messages.take(k));
    assert(messages.take(k + 1).drop_last() =~= messages.take(k));
    assert(messages.take(k + 1).last() == messages[k]);
    lemma_turns_grow(messages, k);
    let part = turns_of(messages.take(k + 1));
    assert(part.results.len() == 0);
    assert(upto == part.done);
    assert(api_messages(messages).take(upto.len() as int) =~= turns_of(messages).done.take(
        upto.len() as int,
    ));
    assert(upto.drop_last() =~= before);
    if messages[k].role == Role::User {
        lemma_user_content(messages[k]);
    } else {
        lemma_reply_content(messages[k]);
    }
}

proof fn lemma_tool_json(tool: ToolDefinition)
    ensures
        tool_json(tool).text_under("name"@) == Some(offered(tool.name@)),
        tool_json(tool).text_under("description"@) == Some(tool.description@),
        tool_json(tool).get("input_schema"@) == Some(tool.parameters@),
{
    broadcast use law_field_is_found;

    reveal_strlit("name");
    reveal_strlit("description");
    reveal_strlit("input_schema");
    assert("name"@.len() == 4);
    assert("description"@.len() == 11);
    assert("input_schema"@.len() == 12);
    let empty = JsonView::object();
    assert(forall|k: Seq<char>| (#[trigger] empty.get(k)) is None);
    let a = empty.with("name"@, JsonView::Str(offered(tool.name@)));
    let b = a.with("description"@, JsonView::Str(tool.description@));
    let value = b.with("input_schema"@, tool.parameters@);
    assert(value == tool_json(tool));
}

/// A request names its model, streams its answer, and offers each tool with its
/// description and schema, in order; without tools it says nothing of them.
pub proof fn law_request_names_model_and_tools(
    model: Seq<char>,
    messages: Seq<Message>,
    tools: Seq<ToolDefinition>,
    boundary: Seq<char>,
    auth: WireAuth,
)
    ensures
        ({
            let body = body_of(model, messages, tools, boundary, auth);
            &&& body.text_under("model"@) == Some(model)
            &&& body.number_under("max_tokens"@) == Some(8192u64)
            &&& body.get("stream"@) == Some(JsonView::Bool(true))
            &&& tools.len() == 0 ==> body.get("tools"@) is None
            &&& tools.len() > 0 ==> match body.get("tools"@) {
                Some(JsonView::Arr(list)) => {
                    &&& list.len() == tools.len()
                    &&& forall|i: int|
                        0 <= i < tools.len() ==> (#[trigger] list[i]).text_under("name"@) == Some(
                            offered(tools[i].name@),
                        ) && list[i].text_under("description"@) == Some(tools[i].description@)
                            && list[i].get("input_schema"@) == Some(tools[i].parameters@)
                },
                _ => false,
            }
        }),
{
    lemma_body_fields(model, messages, tools, boundary, auth);
    if tools.len() > 0 {
        let list = tools.map_values(|t: ToolDefinition| tool_json(t));
        assert forall|i: int| 0 <= i < tools.len() implies (#[trigger] list[i]).text_under("name"@)
            == Some(offered(tools[i].name@)) && list[i].text_under("description"@) == Some(
            tools[i].description@,
        ) && list[i].get("input_schema"@) == Some(tools[i].parameters@) by {
            lemma_tool_json(tools[i]);
        }
    }
}

proof fn lemma_block_json(block: SystemView)
    ensures
        block_json(block).text_under("type"@) == Some("text"@),
        block_json(block).text_under("text"@) == Some(block.text),
        match block_json(block).get("cache_control"@) {
            Some(control) => block.cached && control.text_under("type"@) == Some("ephemeral"@),
            None => !block.cached,
        },
{
    broadcast use law_field_is_found;

    reveal_strlit("type");
    reveal_strlit("text");
    reveal_strlit("cache_control");
    assert("type"@.len() == 4);
    assert("text"@.len() == 4);
    assert("cache_control"@.len() == 13);
    assert("type"@[1] == 'y');
    assert("text"@[1] == 'e');
    let empty = JsonView::object();
    assert(forall|k: Seq<char>| (#[trigger] empty.get(k)) is None);
    let a = empty.with("type"@, JsonView::Str("text"@));
    let b = a.with("text"@, JsonView::Str(block.text));
    let control = empty.with("type"@, JsonView::Str("ephemeral"@));
    assert(control.get("type"@) == Some(JsonView::Str("ephemeral"@)));
    assert(b.get("cache_control"@) is None);
    let c = b.with("cache_control"@, control);
    assert(b == text_block("text"@, block.text));
    assert(block.cached ==> block_json(block) == c);
    assert(c.get("cache_control"@) == Some(control));
}

/// The system prompt of a request is its blocks, in order, each with its text, and
/// the cached ones marked. With a subscription the identity line stands before
/// those of the messages; else there are no others.
pub proof fn law_system_prompt_is_sent(
    model: Seq<char>,
    messages: Seq<Message>,
    tools: Seq<ToolDefinition>,
    boundary: Seq<char>,
    auth: WireAuth,
)
    ensures
        match body_of(model, messages, tools, boundary, auth).get("system"@) {
            Some(JsonView::Arr(list)) => {
                let own = blocks_of(messages, boundary);
                let first: int = if auth is Oauth {
                    1
                } else {
                    0
                };
                &&& list.len() == own.len() + first
                &&& forall|i: int|
                    0 <= i < own.len() ==> (#[trigger] list[i + first]).text_under("text"@) == Some(
                        own[i].text,
                    ) && list[i + first].text_under("type"@) == Some("text"@) && (
                    list[i + first].get("cache_control"@) is Some) == own[i].cached
                &&& auth matches WireAuth::Oauth(product) ==> list[0].text_under("text"@) == Some(
                    "You are "@ + product@ + " Code, Anthropic's official CLI for "@ + product@
                        + "."@,
                ) && list[0].get("cache_control"@) is None
            },
            _ => false,
        },
{
    lemma_body_fields(model, messages, tools, boundary, auth);
    let all = system_of(messages, boundary, auth);
    let list = all.map_values(|b: SystemView| block_json(b));
    assert forall|i: int| 0 <= i < all.len() implies (#[trigger] list[i]).text_under("text"@) == Some(
        all[i].text,
    ) && list[i].text_under("type"@) == Some("text"@) && (list[i].get("cache_control"@) is Some)
        == all[i].cached by {
        lemma_block_json(all[i]);
    }
    let own = blocks_of(messages, boundary);
    let first: int = if auth is Oauth {
        1
    } else {
        0
    };
    assert forall|i: int| 0 <= i < own.len() implies (#[trigger] list[i + first]).text_under("text"@)
        == Some(own[i].text) && list[i + first].text_under("type"@) == Some("text"@) && (
    list[i + first].get("cache_control"@) is Some) == own[i].cached by {
        assert(all[i + first] == own[i]);
    }
    if auth is Oauth {
        assert(list[0].text_under("text"@) == Some(all[0].text));
    }
}

/// The system messages give their blocks one after the other, and no other message
/// gives any. A text without the boundary is one block, as it is and not cached.
/// One with it is cut there: what stands before it, without the white space at its
/// end, is cached, and what stands behind it is not.
pub proof fn law_system_messages_give_their_blocks(
    messages: Seq<Message>,
    message: Message,
    boundary: Seq<char>,
)
    ensures
        ({
            let before = blocks_of(messages, boundary);
            let all = blocks_of(messages.push(message), boundary);
            let text = message.content@;
            &&& all.len() >= before.len()
            &&& all.take(before.len() as int) == before
            &&& message.role != Role::System ==> all == before
            &&& message.role == Role::System ==> {
                &&& cut(text, boundary) is None ==> all == before.push(
                    SystemView { text, cached: false },
                )
                &&& cut(text, boundary) matches Some((frozen, moving)) ==> {
                    &&& all[before.len() as int] == (SystemView {
                        text: trimmed_end(frozen),
                        cached: true,
                    })
                    &&& trimmed(moving).len() == 0 ==> all.len() == before.len() + 1
                    &&& trimmed(moving).len() > 0 ==> all.len() == before.len() + 2 && all.last() == (
                    SystemView { text: trimmed(moving), cached: false })
                }
            }
        }),
{
    let before = blocks_of(messages, boundary);
    let all = blocks_of(messages.push(message), boundary);
    assert(messages.push(message).drop_last() =~= messages);
    assert(all.take(before.len() as int) =~= before);
    if message.role == Role::System && cut(message.content@, boundary) is None {
        assert(all =~= before.push(SystemView { text: message.content@, cached: false }));
    }
}

/// The credential goes out in exactly one header: a key of one's own as it is, any
/// other behind `Bearer`. Only a subscription names itself.
pub proof fn law_headers_carry_the_credential(auth: WireAuth, bearer: Seq<char>)
    ensures
        ({
            let headers = headers_of(auth, bearer);
            &&& headers[0] == (if auth is ApiKey {
                ("x-api-key"@, bearer)
            } else {
                ("authorization"@, "Bearer "@ + bearer)
            })
            &&& headers.contains(("anthropic-version"@, "2023-06-01"@))
            &&& headers.contains(("content-type"@, "application/json"@))
            &&& headers.len() == if auth is Oauth {
                5int
            } else {
                3int
            }
            &&& auth matches WireAuth::Oauth(product) ==> headers.contains(
                ("user-agent"@, user_agent(product@)),
            ) && headers.contains(("anthropic-beta"@, oauth_beta(product@)))
        }),
{
    let headers = headers_of(auth, bearer);
    let n = headers.len() as int;
    assert(headers[n - 2] == ("anthropic-version"@, "2023-06-01"@));
    assert(headers[n - 1] == ("content-type"@, "application/json"@));
    if let WireAuth::Oauth(product) = auth {
        assert(headers[1] == ("anthropic-beta"@, oauth_beta(product@)));
        assert(headers[2] == ("user-agent"@, user_agent(product@)));
    }
}

} // verus!
