//! Requests to Kiro: the turns of a conversation, the last of which is the
//! user's.

use crate::ident::fresh_id;
use crate::json::{
    extend_json, law_field_is_found, law_set_field_is_found, list_view, parsed, push_json, Json, JsonView,
};
use crate::llm::anthropic::{arguments_of, call_input};
use crate::llm::types::{AssistantToolCall, ImagePart, Message, Role, ToolDefinition};
use crate::text::{cat2, cat3, join, joined, opt_view, parts_of, split, trim, trimmed, views};
use vstd::prelude::*;
use vstd::string::*;

verus! {

pub const ORIGIN: &'static str = "AI_EDITOR";

/// A turn of the conversation. What a list holds is left out of the request
/// where the list is empty.
#[derive(Debug)]
pub enum Turn {
    User { content: String, images: Vec<Json>, results: Vec<Json> },
    Assistant { content: String, uses: Vec<Json> },
}

pub enum TurnView {
    User { content: Seq<char>, images: Seq<JsonView>, results: Seq<JsonView> },
    Assistant { content: Seq<char>, uses: Seq<JsonView> },
}

impl View for Turn {
    type V = TurnView;

    open spec fn view(&self) -> TurnView {
        match *self {
            Turn::User { content, images, results } => TurnView::User {
                content: content@,
                images: list_view(images@),
                results: list_view(results@),
            },
            Turn::Assistant { content, uses } => TurnView::Assistant {
                content: content@,
                uses: list_view(uses@),
            },
        }
    }
}

pub open spec fn turn_views(turns: Seq<Turn>) -> Seq<TurnView> {
    turns.map_values(|t: Turn| t@)
}

/// The format of a picture: what stands behind the last slash of its type.
pub open spec fn format_of(media_type: Seq<char>) -> Seq<char> {
    parts_of(media_type, '/').last()
}

pub open spec fn image_json(image: ImagePart) -> JsonView {
    JsonView::object().with_str("format"@, format_of(image.media_type@)).with(
        "source"@,
        JsonView::object().with_str("bytes"@, image.data@),
    )
}

pub open spec fn image_jsons(images: Seq<ImagePart>) -> Seq<JsonView> {
    images.map_values(|image: ImagePart| image_json(image))
}

fn image_values(images: &Vec<ImagePart>) -> (r: Vec<Json>)
    ensures
        list_view(r@) == image_jsons(images@),
{
    let mut out: Vec<Json> = Vec::new();
    let mut i: usize = 0;
    let ghost all = image_jsons(images@);
    assert(list_view(out@) =~= all.take(0));
    while i < images.len()
        invariant
            i <= images@.len(),
            all == image_jsons(images@),
            list_view(out@) == all.take(i as int),
        decreases images@.len() - i,
    {
        let parts = split(images[i].media_type.as_str(), '/');
        let format = parts[parts.len() - 1].as_str();
        assert(views(parts@).last() == format@);
        let source = Json::object().with_str("bytes", images[i].data.as_str());
        let value = Json::object().with_str("format", format).with("source", source);
        assert(all.take(i + 1) =~= all.take(i as int).push(value@));
        push_json(&mut out, value);
        i = i + 1;
    }
    assert(all.take(i as int) =~= all);
    out
}

/// A call of a tool, with its arguments as a value.
pub open spec fn use_json(id: Seq<char>, name: Seq<char>, input: JsonView) -> JsonView {
    JsonView::object().with_str("toolUseId"@, id).with_str("name"@, name).with("input"@, input)
}

pub fn tool_use(call: &AssistantToolCall, input: Json) -> (r: Json)
    ensures
        r@ == use_json(call.id@, call.name@, input@),
{
    Json::object().with_str("toolUseId", call.id.as_str()).with_str(
        "name",
        call.name.as_str(),
    ).with("input", input)
}

pub open spec fn use_jsons(calls: Seq<AssistantToolCall>) -> Seq<JsonView> {
    calls.map_values(
        |call: AssistantToolCall|
            use_json(call.id@, call.name@, arguments_of(parsed(call.arguments@))),
    )
}

fn use_values(calls: &Vec<AssistantToolCall>) -> (r: Vec<Json>)
    ensures
        list_view(r@) == use_jsons(calls@),
{
    let mut out: Vec<Json> = Vec::new();
    let mut i: usize = 0;
    let ghost all = use_jsons(calls@);
    assert(list_view(out@) =~= all.take(0));
    while i < calls.len()
        invariant
            i <= calls@.len(),
            all == use_jsons(calls@),
            list_view(out@) == all.take(i as int),
        decreases calls@.len() - i,
    {
        let input = call_input(calls[i].arguments.as_str());
        let value = tool_use(&calls[i], input);
        assert(all.take(i + 1) =~= all.take(i as int).push(value@));
        push_json(&mut out, value);
        i = i + 1;
    }
    assert(all.take(i as int) =~= all);
    out
}

pub open spec fn result_json(message: Message) -> JsonView {
    JsonView::object()
        .with_str(
            "toolUseId"@,
            match message.tool_call_id {
                Some(id) => id@,
                None => Seq::empty(),
            },
        )
        .with_str("status"@, "success"@)
        .with(
            "content"@,
            JsonView::Arr(seq![JsonView::object().with_str("text"@, message.content@)]),
        )
}

fn result_value(message: &Message) -> (r: Json)
    ensures
        r@ == result_json(*message),
{
    let id = match &message.tool_call_id {
        Some(id) => id.clone(),
        None => String::new(),
    };
    let mut content: Vec<Json> = Vec::new();
    push_json(&mut content, Json::object().with_str("text", message.content.as_str()));
    assert(list_view(content@) =~= seq![
        JsonView::object().with_str("text"@, message.content@),
    ]);
    Json::object().with_str("toolUseId", id.as_str()).with_str("status", "success").with(
        "content",
        Json::array(content),
    )
}

/// The turn of one message; a system message has none.
pub open spec fn turn_of(message: Message) -> Option<TurnView> {
    match message.role {
        Role::System => None,
        Role::User => Some(
            TurnView::User {
                content: message.content@,
                images: image_jsons(message.images@),
                results: Seq::empty(),
            },
        ),
        Role::Assistant => Some(
            TurnView::Assistant { content: message.content@, uses: use_jsons(message.tool_calls@) },
        ),
        Role::Tool => Some(
            TurnView::User {
                content: Seq::empty(),
                images: Seq::empty(),
                results: seq![result_json(message)],
            },
        ),
    }
}

/// Two texts with an empty line between them; an empty one adds nothing.
pub open spec fn merged_text(a: Seq<char>, b: Seq<char>) -> Seq<char> {
    if a.len() == 0 {
        b
    } else if b.len() == 0 {
        a
    } else {
        a + "\n\n"@ + b
    }
}

fn merge_text(a: String, b: String) -> (r: String)
    ensures
        r@ == merged_text(a@, b@),
{
    if a.as_str().is_empty() {
        b
    } else if b.as_str().is_empty() {
        a
    } else {
        cat3(a.as_str(), "\n\n", b.as_str())
    }
}

/// Two turns of the same side in one.
pub open spec fn merged(a: TurnView, b: TurnView) -> Option<TurnView> {
    match (a, b) {
        (
            TurnView::User { content: c, images: i, results: r },
            TurnView::User { content, images, results },
        ) => Some(
            TurnView::User {
                content: merged_text(c, content),
                images: i + images,
                results: r + results,
            },
        ),
        (TurnView::Assistant { content: c, uses: u }, TurnView::Assistant { content, uses }) => Some(
            TurnView::Assistant { content: merged_text(c, content), uses: u + uses },
        ),
        _ => None,
    }
}

/// The turns with one more: the same side's turns are one.
pub open spec fn with_turn(turns: Seq<TurnView>, turn: TurnView) -> Seq<TurnView> {
    if turns.len() == 0 {
        seq![turn]
    } else {
        match merged(turns.last(), turn) {
            Some(one) => turns.drop_last().push(one),
            None => turns.push(turn),
        }
    }
}

pub open spec fn turns_in(messages: Seq<Message>) -> Seq<TurnView>
    decreases messages.len(),
{
    if messages.len() == 0 {
        Seq::empty()
    } else {
        match turn_of(messages.last()) {
            None => turns_in(messages.drop_last()),
            Some(turn) => with_turn(turns_in(messages.drop_last()), turn),
        }
    }
}

fn merge_or_push(turns: &mut Vec<Turn>, turn: Turn)
    ensures
        turn_views(final(turns)@) == with_turn(turn_views(old(turns)@), turn@),
{
    let ghost before = turns@;
    let ghost t = turn@;
    match turns.pop() {
        None => {
            turns.push(turn);
            assert(turn_views(turns@) =~= seq![t]);
        },
        Some(last) => {
            let ghost l = last@;
            assert(turn_views(before).last() == l);
            assert(turn_views(turns@) =~= turn_views(before).drop_last());
            match (last, turn) {
                (
                    Turn::User { content: c, images: i, results: r },
                    Turn::User { content, images, results },
                ) => {
                    let mut all_images = i;
                    let mut all_results = r;
                    extend_json(&mut all_images, images);
                    extend_json(&mut all_results, results);
                    let one = Turn::User {
                        content: merge_text(c, content),
                        images: all_images,
                        results: all_results,
                    };
                    let ghost o = one@;
                    assert(merged(l, t) == Some(o));
                    turns.push(one);
                    assert(turn_views(turns@) =~= turn_views(before).drop_last().push(o));
                },
                (Turn::Assistant { content: c, uses: u }, Turn::Assistant { content, uses }) => {
                    let mut all = u;
                    extend_json(&mut all, uses);
                    let one = Turn::Assistant { content: merge_text(c, content), uses: all };
                    let ghost o = one@;
                    assert(merged(l, t) == Some(o));
                    turns.push(one);
                    assert(turn_views(turns@) =~= turn_views(before).drop_last().push(o));
                },
                (last, turn) => {
                    assert(merged(l, t) is None);
                    turns.push(last);
                    turns.push(turn);
                    assert(turn_views(turns@) =~= turn_views(before).push(t));
                },
            }
        },
    }
}

/// The turns of the messages: both sides speak in turn.
pub fn turns_of(messages: &Vec<Message>) -> (r: Vec<Turn>)
    ensures
        turn_views(r@) == turns_in(messages@),
{
    let mut turns: Vec<Turn> = Vec::new();
    let mut i: usize = 0;
    assert(messages@.take(0) =~= Seq::<Message>::empty());
    assert(turn_views(turns@) =~= Seq::<TurnView>::empty());
    while i < messages.len()
        invariant
            i <= messages@.len(),
            turn_views(turns@) == turns_in(messages@.take(i as int)),
        decreases messages@.len() - i,
    {
        assert(messages@.take(i + 1).drop_last() =~= messages@.take(i as int));
        let message = &messages[i];
        match message.role {
            Role::System => {},
            Role::User => {
                let turn = Turn::User {
                    content: message.content.clone(),
                    images: image_values(&message.images),
                    results: Vec::new(),
                };
                assert(turn@ == turn_of(*message)->0) by {
                    assert(list_view(Seq::<Json>::empty()) =~= Seq::<JsonView>::empty());
                }
                merge_or_push(&mut turns, turn);
            },
            Role::Assistant => {
                let turn = Turn::Assistant {
                    content: message.content.clone(),
                    uses: use_values(&message.tool_calls),
                };
                merge_or_push(&mut turns, turn);
            },
            Role::Tool => {
                let mut results: Vec<Json> = Vec::new();
                push_json(&mut results, result_value(message));
                assert(list_view(results@) =~= seq![result_json(*message)]);
                let turn = Turn::User { content: String::new(), images: Vec::new(), results };
                assert(turn@ == turn_of(*message)->0) by {
                    assert(list_view(Seq::<Json>::empty()) =~= Seq::<JsonView>::empty());
                }
                merge_or_push(&mut turns, turn);
            },
        }
        i = i + 1;
    }
    assert(messages@.take(i as int) =~= messages@);
    turns
}

pub open spec fn blank_turn() -> TurnView {
    TurnView::User { content: Seq::empty(), images: Seq::empty(), results: Seq::empty() }
}

/// The turns from a user's to a user's; a blank one is put in where there is
/// none.
pub open spec fn framed(turns: Seq<TurnView>) -> Seq<TurnView> {
    let started = if turns.len() > 0 && turns[0] is Assistant {
        seq![blank_turn()] + turns
    } else {
        turns
    };
    if started.len() == 0 || started.last() is Assistant {
        started.push(blank_turn())
    } else {
        started
    }
}

pub open spec fn filled(text: Seq<char>, default: Seq<char>) -> Seq<char> {
    if trimmed(text).len() == 0 {
        default
    } else {
        text
    }
}

/// No turn is blank: a text stands in.
pub open spec fn normalized(turn: TurnView) -> TurnView {
    match turn {
        TurnView::User { content, images, results } => TurnView::User {
            content: filled(content, "continue"@),
            images,
            results,
        },
        TurnView::Assistant { content, uses } => TurnView::Assistant {
            content: filled(content, "..."@),
            uses,
        },
    }
}

/// The turns that go out; the last one is the current message.
pub open spec fn conversation(messages: Seq<Message>) -> Seq<TurnView> {
    framed(turns_in(messages)).map_values(|t: TurnView| normalized(t))
}

fn fill(text: String, default: &str) -> (r: String)
    ensures
        r@ == filled(text@, default@),
{
    let rest = trim(text.as_str());
    if rest.as_str().is_empty() {
        default.to_owned()
    } else {
        text
    }
}

fn normalize(turn: Turn) -> (r: Turn)
    ensures
        r@ == normalized(turn@),
{
    match turn {
        Turn::User { content, images, results } => Turn::User {
            content: fill(content, "continue"),
            images,
            results,
        },
        Turn::Assistant { content, uses } => Turn::Assistant { content: fill(content, "..."), uses },
    }
}

fn blank() -> (r: Turn)
    ensures
        r@ == blank_turn(),
{
    let r = Turn::User { content: String::new(), images: Vec::new(), results: Vec::new() };
    assert(list_view(Seq::<Json>::empty()) =~= Seq::<JsonView>::empty());
    r
}

fn is_assistant(turn: &Turn) -> (r: bool)
    ensures
        r == (turn@ is Assistant),
{
    match turn {
        Turn::Assistant { .. } => true,
        Turn::User { .. } => false,
    }
}

/// The turns that go out.
pub fn conversation_of(messages: &Vec<Message>) -> (r: Vec<Turn>)
    ensures
        turn_views(r@) == conversation(messages@),
        r@.len() > 0,
        r@.last() is User,
{
    let mut turns = turns_of(messages);
    let ghost own = turns@;
    if turns.len() > 0 && is_assistant(&turns[0]) {
        let turn = blank();
        let ghost t = turn@;
        turns.insert(0, turn);
        assert(turn_views(turns@) =~= seq![t] + turn_views(own));
    }
    let ghost started = turns@;
    if turns.len() == 0 || is_assistant(&turns[turns.len() - 1]) {
        let turn = blank();
        let ghost t = turn@;
        turns.push(turn);
        assert(turn_views(turns@) =~= turn_views(started).push(t));
    }
    let ghost all = turns@;
    assert(turn_views(all) =~= framed(turn_views(own)));
    assert(all.last() is User) by {
        assert(turn_views(all).last() == all.last()@);
    }
    let count: usize = turns.len();
    let mut out: Vec<Turn> = Vec::new();
    let mut i: usize = 0;
    let ghost wanted = turn_views(all).map_values(|t: TurnView| normalized(t));
    assert(turn_views(out@) =~= wanted.take(0));
    assert(turns@ =~= all.subrange(0, all.len() as int));
    while i < count
        invariant
            i <= count == all.len(),
            wanted == turn_views(all).map_values(|t: TurnView| normalized(t)),
            turns@ == all.subrange(i as int, all.len() as int),
            turn_views(out@) == wanted.take(i as int),
        decreases count - i,
    {
        assert(turns@[0] == all[i as int]);
        let turn = turns.remove(0);
        assert(turn == all[i as int]);
        let turn = normalize(turn);
        let ghost t = turn@;
        let ghost before = out@;
        out.push(turn);
        assert(wanted.take(i + 1) =~= wanted.take(i as int).push(t));
        assert(turn_views(out@) =~= turn_views(before).push(t));
        i = i + 1;
        assert(turns@ =~= all.subrange(i as int, all.len() as int));
    }
    assert(wanted.take(i as int) =~= wanted);
    assert(out@.last() is User) by {
        assert(turn_views(out@).last() == out@.last()@);
        assert(wanted.last() == normalized(all.last()@));
    }
    out
}

pub open spec fn same_side(a: TurnView, b: TurnView) -> bool {
    a is User == b is User
}

pub open spec fn alternating(turns: Seq<TurnView>) -> bool {
    forall|i: int, j: int|
        0 <= i && j == i + 1 && j < turns.len() ==> !same_side(#[trigger] turns[i], #[trigger] turns[j])
}

proof fn lemma_turns_alternate(messages: Seq<Message>)
    ensures
        alternating(turns_in(messages)),
    decreases messages.len(),
{
    if messages.len() > 0 {
        lemma_turns_alternate(messages.drop_last());
    }
}

/// Whatever the messages are, the conversation goes from a user's turn to a
/// user's turn, and the two sides alternate.
pub proof fn law_conversation_alternates(messages: Seq<Message>)
    ensures
        conversation(messages).len() > 0,
        conversation(messages)[0] is User,
        conversation(messages).last() is User,
        alternating(conversation(messages)),
{
    lemma_turns_alternate(messages);
    let turns = turns_in(messages);
    let started = if turns.len() > 0 && turns[0] is Assistant {
        seq![blank_turn()] + turns
    } else {
        turns
    };
    assert(alternating(started)) by {
        assert forall|i: int, j: int|
            0 <= i && j == i + 1 && j < started.len() implies !same_side(
            #[trigger] started[i],
            #[trigger] started[j],
        ) by {
            if started.len() > turns.len() && i > 0 {
                assert(started[i] == turns[i - 1]);
                assert(started[j] == turns[j - 1]);
            }
        }
    }
    let all = framed(turns);
    assert(alternating(all));
    let out = conversation(messages);
    assert forall|i: int, j: int| 0 <= i && j == i + 1 && j < out.len() implies !same_side(
        #[trigger] out[i],
        #[trigger] out[j],
    ) by {
        assert(out[i] == normalized(all[i]));
        assert(out[j] == normalized(all[j]));
        assert(!same_side(all[i], all[j]));
    }
}

/// No turn that goes out is blank.
pub proof fn law_no_turn_is_blank(messages: Seq<Message>, i: int)
    requires
        0 <= i < conversation(messages).len(),
    ensures
        match conversation(messages)[i] {
            TurnView::User { content, .. } => content.len() > 0,
            TurnView::Assistant { content, .. } => content.len() > 0,
        },
{
    reveal_strlit("continue");
    reveal_strlit("...");
    let turn = framed(turns_in(messages))[i];
    match turn {
        TurnView::User { content, .. } => lemma_filled(content, "continue"@),
        TurnView::Assistant { content, .. } => lemma_filled(content, "..."@),
    }
}

proof fn lemma_filled(text: Seq<char>, default: Seq<char>)
    requires
        default.len() > 0,
    ensures
        filled(text, default).len() > 0,
{
    if text.len() == 0 {
        assert(crate::text::trimmed_start(text) =~= text);
        assert(crate::text::trimmed_end(text) =~= text);
    }
}

/// A turn on the wire.
pub open spec fn user_json(
    model: Seq<char>,
    content: Seq<char>,
    images: Seq<JsonView>,
    results: Seq<JsonView>,
    tools: Seq<JsonView>,
) -> JsonView {
    let plain = JsonView::object()
        .with_str("content"@, content)
        .with_str("modelId"@, model)
        .with_str("origin"@, ORIGIN@);
    let pictured = if images.len() == 0 {
        plain
    } else {
        plain.with("images"@, JsonView::Arr(images))
    };
    if results.len() == 0 && tools.len() == 0 {
        pictured
    } else {
        let answered = if results.len() == 0 {
            JsonView::object()
        } else {
            JsonView::object().with("toolResults"@, JsonView::Arr(results))
        };
        pictured.with(
            "userInputMessageContext"@,
            if tools.len() == 0 {
                answered
            } else {
                answered.with("tools"@, JsonView::Arr(tools))
            },
        )
    }
}

pub open spec fn turn_json(model: Seq<char>, turn: TurnView) -> JsonView {
    match turn {
        TurnView::User { content, images, results } => JsonView::object().with(
            "userInputMessage"@,
            user_json(model, content, images, results, Seq::empty()),
        ),
        TurnView::Assistant { content, uses } => {
            let plain = JsonView::object().with_str("content"@, content);
            JsonView::object().with(
                "assistantResponseMessage"@,
                if uses.len() == 0 {
                    plain
                } else {
                    plain.with("toolUses"@, JsonView::Arr(uses))
                },
            )
        },
    }
}

fn user_value(
    model: &str,
    content: &str,
    images: Vec<Json>,
    results: Vec<Json>,
    tools: Vec<Json>,
) -> (r: Json)
    ensures
        r@ == user_json(
            model@,
            content@,
            list_view(images@),
            list_view(results@),
            list_view(tools@),
        ),
{
    proof {
        crate::json::lemma_list_view(images@);
        crate::json::lemma_list_view(results@);
        crate::json::lemma_list_view(tools@);
    }
    let plain = Json::object().with_str("content", content).with_str("modelId", model).with_str(
        "origin",
        ORIGIN,
    );
    let pictured = if images.len() == 0 {
        plain
    } else {
        plain.with("images", Json::array(images))
    };
    if results.len() == 0 && tools.len() == 0 {
        return pictured;
    }
    let answered = if results.len() == 0 {
        Json::object()
    } else {
        Json::object().with("toolResults", Json::array(results))
    };
    let context = if tools.len() == 0 {
        answered
    } else {
        answered.with("tools", Json::array(tools))
    };
    pictured.with("userInputMessageContext", context)
}

fn turn_value(model: &str, turn: Turn) -> (r: Json)
    ensures
        r@ == turn_json(model@, turn@),
{
    match turn {
        Turn::User { content, images, results } => {
            let none: Vec<Json> = Vec::new();
            assert(list_view(none@) =~= Seq::<JsonView>::empty());
            let inner = user_value(model, content.as_str(), images, results, none);
            Json::object().with("userInputMessage", inner)
        },
        Turn::Assistant { content, uses } => {
            proof {
                crate::json::lemma_list_view(uses@);
            }
            let plain = Json::object().with_str("content", content.as_str());
            let inner = if uses.len() == 0 {
                plain
            } else {
                plain.with("toolUses", Json::array(uses))
            };
            Json::object().with("assistantResponseMessage", inner)
        },
    }
}

/// The schema of a tool's arguments is always that of an object.
pub open spec fn schema_of(parameters: JsonView) -> JsonView {
    let own = match parameters {
        JsonView::Obj(fields) => JsonView::Obj(fields),
        _ => JsonView::object(),
    };
    own.set("type"@, JsonView::Str("object"@))
}

pub open spec fn tool_json(tool: ToolDefinition) -> JsonView {
    JsonView::object().with(
        "toolSpecification"@,
        JsonView::object()
            .with_str("name"@, tool.name@)
            .with_str(
                "description"@,
                if tool.description@.len() == 0 {
                    "Tool: "@ + tool.name@
                } else {
                    tool.description@
                },
            )
            .with("inputSchema"@, JsonView::object().with("json"@, schema_of(tool.parameters@))),
    )
}

pub fn tool_spec(tool: &ToolDefinition) -> (r: Json)
    ensures
        r@ == tool_json(*tool),
{
    let own = match tool.parameters.as_object() {
        Some(_) => tool.parameters.copy(),
        None => Json::object(),
    };
    let schema = own.set("type", Json::string("object"));
    let description = if tool.description.as_str().is_empty() {
        cat2("Tool: ", tool.name.as_str())
    } else {
        tool.description.clone()
    };
    let wrapped = Json::object().with("json", schema);
    let inner = Json::object().with_str("name", tool.name.as_str()).with_str(
        "description",
        description.as_str(),
    ).with("inputSchema", wrapped);
    Json::object().with("toolSpecification", inner)
}

pub open spec fn tool_jsons(tools: Seq<ToolDefinition>) -> Seq<JsonView> {
    tools.map_values(|t: ToolDefinition| tool_json(t))
}

fn tool_values(tools: &Vec<ToolDefinition>) -> (r: Vec<Json>)
    ensures
        list_view(r@) == tool_jsons(tools@),
{
    let mut out: Vec<Json> = Vec::new();
    let mut i: usize = 0;
    let ghost all = tool_jsons(tools@);
    assert(list_view(out@) =~= all.take(0));
    while i < tools.len()
        invariant
            i <= tools@.len(),
            all == tool_jsons(tools@),
            list_view(out@) == all.take(i as int),
        decreases tools@.len() - i,
    {
        let value = tool_spec(&tools[i]);
        assert(all.take(i + 1) =~= all.take(i as int).push(value@));
        push_json(&mut out, value);
        i = i + 1;
    }
    assert(all.take(i as int) =~= all);
    out
}

/// The texts of the system messages that are not blank, trimmed.
pub open spec fn system_texts(messages: Seq<Message>) -> Seq<Seq<char>>
    decreases messages.len(),
{
    if messages.len() == 0 {
        Seq::empty()
    } else if messages.last().role == Role::System && trimmed(messages.last().content@).len() > 0 {
        system_texts(messages.drop_last()).push(trimmed(messages.last().content@))
    } else {
        system_texts(messages.drop_last())
    }
}

pub open spec fn system_prompt(messages: Seq<Message>) -> Option<Seq<char>> {
    if system_texts(messages).len() == 0 {
        None
    } else {
        Some(joined(system_texts(messages), "\n\n"@))
    }
}

pub fn system_prompt_of(messages: &Vec<Message>) -> (r: Option<String>)
    ensures
        opt_view(r) == system_prompt(messages@),
{
    let mut parts: Vec<String> = Vec::new();
    let mut i: usize = 0;
    assert(messages@.take(0) =~= Seq::<Message>::empty());
    assert(views(parts@) =~= Seq::<Seq<char>>::empty());
    while i < messages.len()
        invariant
            i <= messages@.len(),
            views(parts@) == system_texts(messages@.take(i as int)),
        decreases messages@.len() - i,
    {
        assert(messages@.take(i + 1).drop_last() =~= messages@.take(i as int));
        if messages[i].role == Role::System {
            let text = trim(messages[i].content.as_str());
            if !text.as_str().is_empty() {
                let ghost before = parts@;
                let ghost t = text@;
                parts.push(text);
                assert(views(parts@) =~= views(before).push(t));
            }
        }
        i = i + 1;
    }
    assert(messages@.take(i as int) =~= messages@);
    if parts.len() == 0 {
        None
    } else {
        Some(join(parts.as_slice(), "\n\n"))
    }
}

/// The whole request; `id` names the conversation.
pub open spec fn body_of(
    model: Seq<char>,
    id: Seq<char>,
    messages: Seq<Message>,
    tools: Seq<ToolDefinition>,
) -> JsonView {
    let turns = conversation(messages);
    let state = JsonView::object()
        .with_str("chatTriggerType"@, "MANUAL"@)
        .with_str("conversationId"@, id)
        .with(
            "currentMessage"@,
            JsonView::object().with(
                "userInputMessage"@,
                user_json(
                    model,
                    turns.last()->User_content,
                    turns.last()->images,
                    turns.last()->results,
                    tool_jsons(tools),
                ),
            ),
        )
        .with(
            "history"@,
            JsonView::Arr(turns.drop_last().map_values(|t: TurnView| turn_json(model, t))),
        );
    JsonView::object().with(
        "conversationState"@,
        match system_prompt(messages) {
            Some(text) => state.with_str("systemPrompt"@, text),
            None => state,
        },
    )
}

fn history_values(model: &str, turns: Vec<Turn>) -> (r: Vec<Json>)
    ensures
        list_view(r@) == turn_views(turns@).map_values(|t: TurnView| turn_json(model@, t)),
{
    let mut turns = turns;
    let ghost whole = turns@;
    let ghost all = turn_views(whole).map_values(|t: TurnView| turn_json(model@, t));
    let count: usize = turns.len();
    let mut out: Vec<Json> = Vec::new();
    let mut i: usize = 0;
    assert(list_view(out@) =~= all.take(0));
    assert(turns@ =~= whole.subrange(0, whole.len() as int));
    while i < count
        invariant
            i <= count == whole.len(),
            all == turn_views(whole).map_values(|t: TurnView| turn_json(model@, t)),
            turns@ == whole.subrange(i as int, whole.len() as int),
            list_view(out@) == all.take(i as int),
        decreases count - i,
    {
        assert(turns@[0] == whole[i as int]);
        let turn = turns.remove(0);
        assert(turn == whole[i as int]);
        let value = turn_value(model, turn);
        assert(all.take(i + 1) =~= all.take(i as int).push(value@));
        push_json(&mut out, value);
        i = i + 1;
        assert(turns@ =~= whole.subrange(i as int, whole.len() as int));
    }
    assert(all.take(i as int) =~= all);
    out
}

/// The request with this identifier.
pub fn request_with_id(model: &str, id: &str, messages: &Vec<Message>, tools: &Vec<ToolDefinition>) -> (r:
    Json)
    ensures
        r@ == body_of(model@, id@, messages@, tools@),
{
    let mut turns = conversation_of(messages);
    let ghost whole = turns@;
    let last = turns.pop();
    assert(turn_views(whole).drop_last() =~= turn_views(turns@));
    assert(turn_views(whole).last() == whole.last()@);
    let specs = tool_values(tools);
    let current = match last {
        Some(Turn::User { content, images, results }) => user_value(
            model,
            content.as_str(),
            images,
            results,
            specs,
        ),
        _ => Json::object(),
    };
    let history = history_values(model, turns);
    let message = Json::object().with("userInputMessage", current);
    let state = Json::object().with_str("chatTriggerType", "MANUAL").with_str(
        "conversationId",
        id,
    ).with("currentMessage", message).with("history", Json::array(history));
    let state = match system_prompt_of(messages) {
        Some(text) => state.with_str("systemPrompt", text.as_str()),
        None => state,
    };
    Json::object().with("conversationState", state)
}

/// The request under a random identifier.
pub fn build_request(model: &str, messages: &Vec<Message>, tools: &Vec<ToolDefinition>) -> (r: Json)
    ensures
        exists|id: Seq<char>|
            id.len() == 36 && r@ == #[trigger] body_of(model@, id, messages@, tools@),
{
    let id = fresh_id();
    request_with_id(model, id.as_str(), messages, tools)
}

/// All pictures that the user's turns hold, in order.
pub open spec fn images_in(turns: Seq<TurnView>) -> Seq<JsonView>
    decreases turns.len(),
{
    if turns.len() == 0 {
        Seq::empty()
    } else {
        match turns.last() {
            TurnView::User { images, .. } => images_in(turns.drop_last()) + images,
            _ => images_in(turns.drop_last()),
        }
    }
}

/// All results of tools that the user's turns hold, in order.
pub open spec fn results_in(turns: Seq<TurnView>) -> Seq<JsonView>
    decreases turns.len(),
{
    if turns.len() == 0 {
        Seq::empty()
    } else {
        match turns.last() {
            TurnView::User { results, .. } => results_in(turns.drop_last()) + results,
            _ => results_in(turns.drop_last()),
        }
    }
}

/// All calls that the assistant's turns hold, in order.
pub open spec fn uses_in(turns: Seq<TurnView>) -> Seq<JsonView>
    decreases turns.len(),
{
    if turns.len() == 0 {
        Seq::empty()
    } else {
        match turns.last() {
            TurnView::Assistant { uses, .. } => uses_in(turns.drop_last()) + uses,
            _ => uses_in(turns.drop_last()),
        }
    }
}

/// What one side says in all its turns, with an empty line between two texts.
pub open spec fn text_in(turns: Seq<TurnView>, assistant: bool) -> Seq<char>
    decreases turns.len(),
{
    if turns.len() == 0 {
        Seq::empty()
    } else {
        let before = text_in(turns.drop_last(), assistant);
        match turns.last() {
            TurnView::User { content, .. } => if assistant {
                before
            } else {
                paragraphs(before, content)
            },
            TurnView::Assistant { content, .. } => if assistant {
                paragraphs(before, content)
            } else {
                before
            },
        }
    }
}

/// Two texts one below the other; an empty one adds nothing.
pub open spec fn paragraphs(a: Seq<char>, b: Seq<char>) -> Seq<char> {
    if a.len() > 0 && b.len() > 0 {
        a + "\n\n"@ + b
    } else {
        a + b
    }
}

pub open spec fn all_images(messages: Seq<Message>) -> Seq<ImagePart>
    decreases messages.len(),
{
    if messages.len() == 0 {
        Seq::empty()
    } else if messages.last().role == Role::User {
        all_images(messages.drop_last()) + messages.last().images@
    } else {
        all_images(messages.drop_last())
    }
}

pub open spec fn all_calls(messages: Seq<Message>) -> Seq<AssistantToolCall>
    decreases messages.len(),
{
    if messages.len() == 0 {
        Seq::empty()
    } else if messages.last().role == Role::Assistant {
        all_calls(messages.drop_last()) + messages.last().tool_calls@
    } else {
        all_calls(messages.drop_last())
    }
}

pub open spec fn all_answers(messages: Seq<Message>) -> Seq<Message>
    decreases messages.len(),
{
    if messages.len() == 0 {
        Seq::empty()
    } else if messages.last().role == Role::Tool {
        all_answers(messages.drop_last()).push(messages.last())
    } else {
        all_answers(messages.drop_last())
    }
}

pub open spec fn all_text(messages: Seq<Message>, role: Role) -> Seq<char>
    decreases messages.len(),
{
    if messages.len() == 0 {
        Seq::empty()
    } else if messages.last().role == role {
        paragraphs(all_text(messages.drop_last(), role), messages.last().content@)
    } else {
        all_text(messages.drop_last(), role)
    }
}

/// The picture on the wire is this one.
pub open spec fn is_image(value: JsonView, image: ImagePart) -> bool {
    &&& value.text_under("format"@) == Some(parts_of(image.media_type@, '/').last())
    &&& value.get("source"@) matches Some(source) && source.text_under("bytes"@) == Some(image.data@)
}

/// The call on the wire is this one, with its arguments as a value.
pub open spec fn is_call(value: JsonView, call: AssistantToolCall) -> bool {
    &&& value.text_under("toolUseId"@) == Some(call.id@)
    &&& value.text_under("name"@) == Some(call.name@)
    &&& value.get("input"@) == Some(
        match parsed(call.arguments@) {
            Ok(input) => input,
            Err(_) => JsonView::Obj(Seq::empty()),
        },
    )
}

/// The result on the wire is what this message says, under the call it answers.
pub open spec fn is_answer(value: JsonView, message: Message) -> bool {
    &&& value.text_under("toolUseId"@) == Some(
        match message.tool_call_id {
            Some(id) => id@,
            None => Seq::empty(),
        },
    )
    &&& match value.get("content"@) {
        Some(JsonView::Arr(list)) => list.len() == 1 && list[0].text_under("text"@) == Some(
            message.content@,
        ),
        _ => false,
    }
}

proof fn lemma_image_json(image: ImagePart)
    ensures
        is_image(image_json(image), image),
{
    broadcast use law_field_is_found;

    reveal_strlit("format");
    reveal_strlit("source");
    reveal_strlit("bytes");
    assert("format"@.len() == 6);
    assert("source"@.len() == 6);
    assert("bytes"@.len() == 5);
    assert("format"@[0] == 'f');
    assert("source"@[0] == 's');
    let empty = JsonView::object();
    assert(forall|k: Seq<char>| (#[trigger] empty.get(k)) is None);
    let source = empty.with("bytes"@, JsonView::Str(image.data@));
    let a = empty.with("format"@, JsonView::Str(format_of(image.media_type@)));
    let value = a.with("source"@, source);
    assert(value == image_json(image));
    assert(value.get("source"@) == Some(source));
    assert(source.get("bytes"@) == Some(JsonView::Str(image.data@)));
}

proof fn lemma_use_json(call: AssistantToolCall)
    ensures
        is_call(use_json(call.id@, call.name@, arguments_of(parsed(call.arguments@))), call),
{
    broadcast use law_field_is_found;

    reveal_strlit("toolUseId");
    reveal_strlit("name");
    reveal_strlit("input");
    assert("toolUseId"@.len() == 9);
    assert("name"@.len() == 4);
    assert("input"@.len() == 5);
    let empty = JsonView::object();
    assert(forall|k: Seq<char>| (#[trigger] empty.get(k)) is None);
    let input = arguments_of(parsed(call.arguments@));
    let a = empty.with("toolUseId"@, JsonView::Str(call.id@));
    let b = a.with("name"@, JsonView::Str(call.name@));
    let value = b.with("input"@, input);
    assert(value == use_json(call.id@, call.name@, input));
    assert(value.get("toolUseId"@) == Some(JsonView::Str(call.id@)));
    assert(value.get("name"@) == Some(JsonView::Str(call.name@)));
    assert(value.get("input"@) == Some(input));
}

proof fn lemma_result_json(message: Message)
    ensures
        is_answer(result_json(message), message),
        result_json(message).text_under("status"@) == Some("success"@),
{
    broadcast use law_field_is_found;

    reveal_strlit("toolUseId");
    reveal_strlit("status");
    reveal_strlit("content");
    reveal_strlit("text");
    assert("toolUseId"@.len() == 9);
    assert("status"@.len() == 6);
    assert("content"@.len() == 7);
    assert("text"@.len() == 4);
    let empty = JsonView::object();
    assert(forall|k: Seq<char>| (#[trigger] empty.get(k)) is None);
    let id = match message.tool_call_id {
        Some(id) => id@,
        None => Seq::empty(),
    };
    let text = empty.with("text"@, JsonView::Str(message.content@));
    let list = JsonView::Arr(seq![text]);
    let a = empty.with("toolUseId"@, JsonView::Str(id));
    let b = a.with("status"@, JsonView::Str("success"@));
    let value = b.with("content"@, list);
    assert(value == result_json(message));
    assert(text.get("text"@) == Some(JsonView::Str(message.content@)));
    assert(value.get("toolUseId"@) == Some(JsonView::Str(id)));
    assert(value.get("status"@) == Some(JsonView::Str("success"@)));
    assert(value.get("content"@) == Some(list));
}

proof fn lemma_paragraphs(a: Seq<char>, b: Seq<char>, c: Seq<char>)
    ensures
        merged_text(a, b) == paragraphs(a, b),
        paragraphs(a, paragraphs(b, c)) == paragraphs(paragraphs(a, b), c),
{
    reveal_strlit("\n\n");
    assert(merged_text(a, b) =~= paragraphs(a, b));
    assert(paragraphs(a, paragraphs(b, c)) =~= paragraphs(paragraphs(a, b), c));
}

/// One turn more adds what it holds, whether it joins the last one or not.
proof fn lemma_with_turn(turns: Seq<TurnView>, turn: TurnView)
    ensures
        ({
            let out = with_turn(turns, turn);
            let one = seq![turn];
            &&& images_in(out) == images_in(turns) + images_in(one)
            &&& results_in(out) == results_in(turns) + results_in(one)
            &&& uses_in(out) == uses_in(turns) + uses_in(one)
            &&& text_in(out, false) == paragraphs(text_in(turns, false), text_in(one, false))
            &&& text_in(out, true) == paragraphs(text_in(turns, true), text_in(one, true))
        }),
{
    let out = with_turn(turns, turn);
    let one = seq![turn];
    reveal_with_fuel(images_in, 2);
    reveal_with_fuel(results_in, 2);
    reveal_with_fuel(uses_in, 2);
    reveal_with_fuel(text_in, 2);
    assert(one.drop_last() =~= Seq::<TurnView>::empty());
    assert(one.last() == turn);
    let nothing = Seq::<JsonView>::empty();
    if turns.len() == 0 {
        assert(out == one);
    } else {
        let init = turns.drop_last();
        let last = turns.last();
        match merged(last, turn) {
            Some(joint) => {
                assert(out.drop_last() =~= init);
                assert(out.last() == joint);
            },
            None => {
                assert(out.drop_last() =~= turns);
                assert(out.last() == turn);
            },
        }
        match (last, turn) {
            (TurnView::User { content: c, .. }, TurnView::User { content, .. }) => {
                lemma_paragraphs(c, content, Seq::empty());
                lemma_paragraphs(text_in(init, false), c, content);
            },
            (TurnView::Assistant { content: c, .. }, TurnView::Assistant { content, .. }) => {
                lemma_paragraphs(c, content, Seq::empty());
                lemma_paragraphs(text_in(init, true), c, content);
            },
            _ => {},
        }
    }
    assert(images_in(out) =~= images_in(turns) + images_in(one));
    assert(results_in(out) =~= results_in(turns) + results_in(one));
    assert(uses_in(out) =~= uses_in(turns) + uses_in(one));
    assert(text_in(out, false) =~= paragraphs(text_in(turns, false), text_in(one, false)));
    assert(text_in(out, true) =~= paragraphs(text_in(turns, true), text_in(one, true)));
}

/// Nothing that was said is lost in the turns, and nothing is added: the user's
/// and the assistant's texts, the pictures, the calls and the results of tools are
/// those of the messages, each in order.
pub proof fn law_nothing_is_lost_in_the_turns(messages: Seq<Message>)
    ensures
        ({
            let turns = turns_in(messages);
            let images = all_images(messages);
            let calls = all_calls(messages);
            let answers = all_answers(messages);
            &&& text_in(turns, false) == all_text(messages, Role::User)
            &&& text_in(turns, true) == all_text(messages, Role::Assistant)
            &&& images_in(turns).len() == images.len()
            &&& forall|i: int|
                0 <= i < images.len() ==> is_image(#[trigger] images_in(turns)[i], images[i])
            &&& uses_in(turns).len() == calls.len()
            &&& forall|i: int| 0 <= i < calls.len() ==> is_call(#[trigger] uses_in(turns)[i], calls[i])
            &&& results_in(turns).len() == answers.len()
            &&& forall|i: int|
                0 <= i < answers.len() ==> is_answer(#[trigger] results_in(turns)[i], answers[i])
        }),
    decreases messages.len(),
{
    if messages.len() > 0 {
        let init = messages.drop_last();
        let message = messages.last();
        let before = turns_in(init);
        law_nothing_is_lost_in_the_turns(init);
        if let Some(turn) = turn_of(message) {
            let one = seq![turn];
            lemma_with_turn(before, turn);
            reveal_with_fuel(images_in, 2);
            reveal_with_fuel(results_in, 2);
            reveal_with_fuel(uses_in, 2);
            reveal_with_fuel(text_in, 2);
            assert(one.drop_last() =~= Seq::<TurnView>::empty());
            assert(one.last() == turn);
            let turns = turns_in(messages);
            match message.role {
                Role::System => {},
                Role::User => {
                    let own = image_jsons(message.images@);
                    assert(images_in(one) =~= own);
                    assert(results_in(one) =~= Seq::<JsonView>::empty());
                    assert(uses_in(one) =~= Seq::<JsonView>::empty());
                    assert(text_in(one, false) =~= message.content@);
                    assert(text_in(turns, true) =~= text_in(before, true));
                    assert(results_in(turns) =~= results_in(before));
                    assert(uses_in(turns) =~= uses_in(before));
                    let n = images_in(before).len() as int;
                    assert forall|i: int| 0 <= i < all_images(messages).len() implies is_image(
                        #[trigger] images_in(turns)[i],
                        all_images(messages)[i],
                    ) by {
                        if i < n {
                            assert(images_in(turns)[i] == images_in(before)[i]);
                        } else {
                            assert(images_in(turns)[i] == own[i - n]);
                            lemma_image_json(message.images@[i - n]);
                        }
                    }
                },
                Role::Assistant => {
                    let own = use_jsons(message.tool_calls@);
                    assert(uses_in(one) =~= own);
                    assert(images_in(one) =~= Seq::<JsonView>::empty());
                    assert(results_in(one) =~= Seq::<JsonView>::empty());
                    assert(text_in(one, true) =~= message.content@);
                    assert(text_in(turns, false) =~= text_in(before, false));
                    assert(images_in(turns) =~= images_in(before));
                    assert(results_in(turns) =~= results_in(before));
                    let n = uses_in(before).len() as int;
                    assert forall|i: int| 0 <= i < all_calls(messages).len() implies is_call(
                        #[trigger] uses_in(turns)[i],
                        all_calls(messages)[i],
                    ) by {
                        if i < n {
                            assert(uses_in(turns)[i] == uses_in(before)[i]);
                        } else {
                            assert(uses_in(turns)[i] == own[i - n]);
                            lemma_use_json(message.tool_calls@[i - n]);
                        }
                    }
                },
                Role::Tool => {
                    assert(results_in(one) =~= seq![result_json(message)]);
                    assert(images_in(one) =~= Seq::<JsonView>::empty());
                    assert(uses_in(one) =~= Seq::<JsonView>::empty());
                    assert(text_in(turns, false) =~= text_in(before, false));
                    assert(text_in(turns, true) =~= text_in(before, true));
                    assert(images_in(turns) =~= images_in(before));
                    assert(uses_in(turns) =~= uses_in(before));
                    let n = results_in(before).len() as int;
                    lemma_result_json(message);
                    assert forall|i: int| 0 <= i < all_answers(messages).len() implies is_answer(
                        #[trigger] results_in(turns)[i],
                        all_answers(messages)[i],
                    ) by {
                        if i < n {
                            assert(results_in(turns)[i] == results_in(before)[i]);
                        }
                    }
                },
            }
        }
    }
}

/// The turns that go out are those of the messages, with what they hold. A turn
/// keeps its text unless that is blank. Besides them there is at most a user's
/// turn before an assistant's first and one behind an assistant's last, or a
/// single one where there is nothing else; those hold nothing.
pub proof fn law_conversation_keeps_the_turns(messages: Seq<Message>)
    ensures
        ({
            let turns = turns_in(messages);
            let out = conversation(messages);
            let first: int = if turns.len() > 0 && turns[0] is Assistant {
                1
            } else {
                0
            };
            let more: int = if turns.len() == 0 || turns.last() is Assistant {
                1
            } else {
                0
            };
            &&& out.len() == first + turns.len() + more
            &&& forall|i: int|
                0 <= i < turns.len() ==> match (turns[i], #[trigger] out[i + first]) {
                    (
                        TurnView::User { content: c, images: p, results: r },
                        TurnView::User { content, images, results },
                    ) => images == p && results == r && (trimmed(c).len() > 0 ==> content == c),
                    (
                        TurnView::Assistant { content: c, uses: u },
                        TurnView::Assistant { content, uses },
                    ) => uses == u && (trimmed(c).len() > 0 ==> content == c),
                    _ => false,
                }
            &&& first == 1 ==> (out[0] matches TurnView::User { images, results, .. } && images.len()
                == 0 && results.len() == 0)
            &&& more == 1 ==> (out.last() matches TurnView::User { images, results, .. }
                && images.len() == 0 && results.len() == 0)
        }),
{
    let turns = turns_in(messages);
    let out = conversation(messages);
    let all = framed(turns);
    let first: int = if turns.len() > 0 && turns[0] is Assistant {
        1
    } else {
        0
    };
    assert forall|i: int| 0 <= i < turns.len() implies match (turns[i], #[trigger] out[i + first]) {
        (
            TurnView::User { content: c, images: p, results: r },
            TurnView::User { content, images, results },
        ) => images == p && results == r && (trimmed(c).len() > 0 ==> content == c),
        (TurnView::Assistant { content: c, uses: u }, TurnView::Assistant { content, uses }) => uses
            == u && (trimmed(c).len() > 0 ==> content == c),
        _ => false,
    } by {
        assert(all[i + first] == turns[i]);
        assert(out[i + first] == normalized(turns[i]));
    }
    if first == 1 {
        assert(all[0] == blank_turn());
        assert(out[0] == normalized(blank_turn()));
    }
    if turns.len() == 0 || turns.last() is Assistant {
        assert(all.last() == blank_turn());
        assert(out.last() == normalized(blank_turn()));
    }
}

pub open spec fn none_or(list: Seq<JsonView>) -> Option<JsonView> {
    if list.len() == 0 {
        None
    } else {
        Some(JsonView::Arr(list))
    }
}

/// A user's message on the wire holds this.
pub open spec fn carries(
    value: JsonView,
    model: Seq<char>,
    content: Seq<char>,
    images: Seq<JsonView>,
    results: Seq<JsonView>,
    tools: Seq<JsonView>,
) -> bool {
    &&& value.text_under("content"@) == Some(content)
    &&& value.text_under("modelId"@) == Some(model)
    &&& value.get("images"@) == none_or(images)
    &&& match value.get("userInputMessageContext"@) {
        None => results.len() == 0 && tools.len() == 0,
        Some(context) => context.get("toolResults"@) == none_or(results) && context.get("tools"@)
            == none_or(tools),
    }
}

proof fn lemma_user_json(
    model: Seq<char>,
    content: Seq<char>,
    images: Seq<JsonView>,
    results: Seq<JsonView>,
    tools: Seq<JsonView>,
)
    ensures
        carries(
            user_json(model, content, images, results, tools),
            model,
            content,
            images,
            results,
            tools,
        ),
{
    broadcast use law_field_is_found;

    reveal_strlit("content");
    reveal_strlit("modelId");
    reveal_strlit("origin");
    reveal_strlit("images");
    reveal_strlit("userInputMessageContext");
    reveal_strlit("toolResults");
    reveal_strlit("tools");
    assert("content"@.len() == 7);
    assert("modelId"@.len() == 7);
    assert("origin"@.len() == 6);
    assert("images"@.len() == 6);
    assert("userInputMessageContext"@.len() == 23);
    assert("toolResults"@.len() == 11);
    assert("tools"@.len() == 5);
    assert("content"@[0] == 'c');
    assert("modelId"@[0] == 'm');
    assert("origin"@[0] == 'o');
    assert("images"@[0] == 'i');
    let empty = JsonView::object();
    assert(forall|k: Seq<char>| (#[trigger] empty.get(k)) is None);
    let a = empty.with("content"@, JsonView::Str(content));
    let b = a.with("modelId"@, JsonView::Str(model));
    let plain = b.with("origin"@, JsonView::Str(ORIGIN@));
    assert(plain.get("content"@) == Some(JsonView::Str(content)));
    assert(plain.get("modelId"@) == Some(JsonView::Str(model)));
    assert(plain.get("images"@) is None);
    assert(plain.get("userInputMessageContext"@) is None);
    let pictured = if images.len() == 0 {
        plain
    } else {
        plain.with("images"@, JsonView::Arr(images))
    };
    assert(pictured.get("content"@) == plain.get("content"@));
    assert(pictured.get("modelId"@) == plain.get("modelId"@));
    assert(pictured.get("images"@) == none_or(images));
    assert(pictured.get("userInputMessageContext"@) is None);
    if results.len() > 0 || tools.len() > 0 {
        let answered = if results.len() == 0 {
            empty
        } else {
            empty.with("toolResults"@, JsonView::Arr(results))
        };
        assert(answered.get("toolResults"@) == none_or(results));
        assert(answered.get("tools"@) is None);
        let context = if tools.len() == 0 {
            answered
        } else {
            answered.with("tools"@, JsonView::Arr(tools))
        };
        assert(context.get("toolResults"@) == none_or(results));
        assert(context.get("tools"@) == none_or(tools));
        let value = pictured.with("userInputMessageContext"@, context);
        assert(value == user_json(model, content, images, results, tools));
        assert(value.get("userInputMessageContext"@) == Some(context));
        assert(value.get("content"@) == pictured.get("content"@));
        assert(value.get("modelId"@) == pictured.get("modelId"@));
        assert(value.get("images"@) == pictured.get("images"@));
    }
}

/// The value on the wire is this turn.
pub open spec fn is_turn(value: JsonView, model: Seq<char>, turn: TurnView) -> bool {
    match turn {
        TurnView::User { content, images, results } => value.get("userInputMessage"@) matches Some(
            inner,
        ) && carries(inner, model, content, images, results, Seq::empty()),
        TurnView::Assistant { content, uses } => value.get("assistantResponseMessage"@) matches Some(
            inner,
        ) && inner.text_under("content"@) == Some(content) && inner.get("toolUses"@) == none_or(uses),
    }
}

proof fn lemma_turn_json(model: Seq<char>, turn: TurnView)
    ensures
        is_turn(turn_json(model, turn), model, turn),
{
    broadcast use law_field_is_found;

    reveal_strlit("content");
    reveal_strlit("toolUses");
    assert("content"@.len() == 7);
    assert("toolUses"@.len() == 8);
    let empty = JsonView::object();
    assert(forall|k: Seq<char>| (#[trigger] empty.get(k)) is None);
    match turn {
        TurnView::User { content, images, results } => {
            let inner = user_json(model, content, images, results, Seq::empty());
            lemma_user_json(model, content, images, results, Seq::empty());
            assert(empty.with("userInputMessage"@, inner).get("userInputMessage"@) == Some(inner));
        },
        TurnView::Assistant { content, uses } => {
            let plain = empty.with("content"@, JsonView::Str(content));
            assert(plain.get("toolUses"@) is None);
            let inner = if uses.len() == 0 {
                plain
            } else {
                plain.with("toolUses"@, JsonView::Arr(uses))
            };
            assert(inner.get("content"@) == Some(JsonView::Str(content)));
            assert(inner.get("toolUses"@) == none_or(uses));
            assert(empty.with("assistantResponseMessage"@, inner).get("assistantResponseMessage"@)
                == Some(inner));
        },
    }
}

/// The conversation goes on the wire whole: the last turn as the current message,
/// with the tools, and the ones before it as the history, in order. Read from the
/// fields of the body, each holds what its turn holds.
pub proof fn law_conversation_goes_on_the_wire(
    model: Seq<char>,
    id: Seq<char>,
    messages: Seq<Message>,
    tools: Seq<ToolDefinition>,
)
    ensures
        ({
            let turns = conversation(messages);
            let found = body_of(model, id, messages, tools).get("conversationState"@);
            let state = found->0;
            &&& found is Some
            &&& state.text_under("conversationId"@) == Some(id)
            &&& state.text_under("systemPrompt"@) == system_prompt(messages)
            &&& match state.get("history"@) {
                Some(JsonView::Arr(list)) => list.len() == turns.len() - 1 && forall|i: int|
                    0 <= i < list.len() ==> is_turn(#[trigger] list[i], model, turns[i]),
                _ => false,
            }
            &&& state.get("currentMessage"@) matches Some(current) && (current.get(
                "userInputMessage"@,
            ) matches Some(inner) && (turns.last() matches TurnView::User {
                content,
                images,
                results,
            } && carries(inner, model, content, images, results, tool_jsons(tools))))
        }),
{
    broadcast use law_field_is_found;

    reveal_strlit("chatTriggerType");
    reveal_strlit("conversationId");
    reveal_strlit("currentMessage");
    reveal_strlit("history");
    reveal_strlit("systemPrompt");
    assert("chatTriggerType"@.len() == 15);
    assert("conversationId"@.len() == 14);
    assert("currentMessage"@.len() == 14);
    assert("history"@.len() == 7);
    assert("systemPrompt"@.len() == 12);
    assert("conversationId"@[1] == 'o');
    assert("currentMessage"@[1] == 'u');
    let empty = JsonView::object();
    assert(forall|k: Seq<char>| (#[trigger] empty.get(k)) is None);
    let turns = conversation(messages);
    law_conversation_alternates(messages);
    let last = turns.last();
    let inner = user_json(
        model,
        last->User_content,
        last->images,
        last->results,
        tool_jsons(tools),
    );
    lemma_user_json(model, last->User_content, last->images, last->results, tool_jsons(tools));
    let current = empty.with("userInputMessage"@, inner);
    assert(current.get("userInputMessage"@) == Some(inner));
    let list = turns.drop_last().map_values(|t: TurnView| turn_json(model, t));
    assert forall|i: int| 0 <= i < list.len() implies is_turn(#[trigger] list[i], model, turns[i]) by {
        lemma_turn_json(model, turns[i]);
    }
    let a = empty.with("chatTriggerType"@, JsonView::Str("MANUAL"@));
    let b = a.with("conversationId"@, JsonView::Str(id));
    let c = b.with("currentMessage"@, current);
    let state = c.with("history"@, JsonView::Arr(list));
    assert(state.get("conversationId"@) == Some(JsonView::Str(id)));
    assert(state.get("currentMessage"@) == Some(current));
    assert(state.get("history"@) == Some(JsonView::Arr(list)));
    assert(state.get("systemPrompt"@) is None);
    let whole = match system_prompt(messages) {
        Some(text) => state.with("systemPrompt"@, JsonView::Str(text)),
        None => state,
    };
    assert(whole.get("conversationId"@) == state.get("conversationId"@));
    assert(whole.get("currentMessage"@) == state.get("currentMessage"@));
    assert(whole.get("history"@) == state.get("history"@));
    let body = empty.with("conversationState"@, whole);
    assert(body == body_of(model, id, messages, tools));
    assert(body.get("conversationState"@) == Some(whole));
}

/// A tool goes out under its name, with its description or else a text that names
/// it, and the schema of its arguments, which is that of an object whatever type
/// it names; nothing else in it changes.
pub proof fn law_tool_is_described(tool: ToolDefinition, key: Seq<char>)
    ensures
        match tool_json(tool).get("toolSpecification"@) {
            Some(spec) => {
                &&& spec.text_under("name"@) == Some(tool.name@)
                &&& tool.description@.len() > 0 ==> spec.text_under("description"@) == Some(
                    tool.description@,
                )
                &&& tool.description@.len() == 0 ==> spec.text_under("description"@) == Some(
                    "Tool: "@ + tool.name@,
                )
                &&& spec.get("inputSchema"@) matches Some(wrapped) && (wrapped.get(
                    "json"@,
                ) matches Some(schema) && schema.text_under("type"@) == Some("object"@) && (
                tool.parameters@ is Obj && key != "type"@ ==> schema.get(key)
                    == tool.parameters@.get(key)))
            },
            None => false,
        },
{
    broadcast use law_field_is_found;

    reveal_strlit("name");
    reveal_strlit("description");
    reveal_strlit("inputSchema");
    assert("name"@.len() == 4);
    assert("description"@.len() == 11);
    assert("inputSchema"@.len() == 11);
    assert("description"@[0] == 'd');
    assert("inputSchema"@[0] == 'i');
    let empty = JsonView::object();
    assert(forall|k: Seq<char>| (#[trigger] empty.get(k)) is None);
    let own = match tool.parameters@ {
        JsonView::Obj(fields) => JsonView::Obj(fields),
        _ => JsonView::object(),
    };
    let schema = schema_of(tool.parameters@);
    law_set_field_is_found(own, "type"@, JsonView::Str("object"@), "type"@);
    law_set_field_is_found(own, "type"@, JsonView::Str("object"@), key);
    let wrapped = empty.with("json"@, schema);
    assert(wrapped.get("json"@) == Some(schema));
    let description = if tool.description@.len() == 0 {
        "Tool: "@ + tool.name@
    } else {
        tool.description@
    };
    let a = empty.with("name"@, JsonView::Str(tool.name@));
    let b = a.with("description"@, JsonView::Str(description));
    let spec = b.with("inputSchema"@, wrapped);
    assert(spec.get("name"@) == Some(JsonView::Str(tool.name@)));
    assert(spec.get("description"@) == Some(JsonView::Str(description)));
    assert(spec.get("inputSchema"@) == Some(wrapped));
    let value = empty.with("toolSpecification"@, spec);
    assert(value == tool_json(tool));
    assert(value.get("toolSpecification"@) == Some(spec));
}

/// The tools on the wire are those that were given, in order.
pub proof fn law_tools_are_listed(tools: Seq<ToolDefinition>)
    ensures
        tool_jsons(tools).len() == tools.len(),
        forall|i: int| 0 <= i < tools.len() ==> #[trigger] tool_jsons(tools)[i] == tool_json(tools[i]),
{
}

/// The system prompt is the texts of the system messages that are not blank, each
/// without the white space around it, in order, with an empty line between two.
pub proof fn law_system_prompt_grows(messages: Seq<Message>, message: Message)
    ensures
        ({
            let before = system_prompt(messages);
            let text = trimmed(message.content@);
            let after = system_prompt(messages.push(message));
            if message.role == Role::System && text.len() > 0 {
                after == Some(
                    match before {
                        Some(head) => head + "\n\n"@ + text,
                        None => text,
                    },
                )
            } else {
                after == before
            }
        }),
        system_prompt(Seq::<Message>::empty()) is None,
{
    let texts = system_texts(messages);
    assert(messages.push(message).drop_last() =~= messages);
    let text = trimmed(message.content@);
    if message.role == Role::System && text.len() > 0 {
        assert(texts.push(text).drop_last() =~= texts);
        reveal_with_fuel(joined, 2);
        if texts.len() == 0 {
            assert(texts.push(text) =~= seq![text]);
        }
        assert(joined(texts.push(text), "\n\n"@) =~= (if texts.len() == 0 {
            text
        } else {
            joined(texts, "\n\n"@) + "\n\n"@ + text
        }));
    }
}

} // verus!
