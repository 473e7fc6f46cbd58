//! From the events of a Kiro answer to its deltas: reasoning is cut out of the
//! text, and the pieces of tool calls are put together.

use crate::json::{lemma_list_view, list_view, parse_json, parsed, read_view, Json, JsonView};
use crate::llm::kiro::eventstream::{event_views, fed, Event, EventView, FrameDecoder};
use crate::llm::sse::{DeltaQueue, QueueView};
use crate::llm::types::{Delta, DeltaView};
use crate::text::{
    cat2, chars_of, decimal, decimal_wide, find_chars, first_at, lemma_first_at, str_eq, string_of, trim,
    trimmed,
};
use vstd::prelude::*;
use vstd::string::*;

verus! {

/// A tool call whose pieces are being collected. An object as input outweighs
/// the pieces of text.
#[derive(Debug)]
pub struct ToolBuf {
    pub id: String,
    pub name: String,
    pub fragments: String,
    pub object: Option<Json>,
}

#[verifier::ext_equal]
pub struct ToolView {
    pub id: Seq<char>,
    pub name: Seq<char>,
    pub fragments: Seq<char>,
    pub object: Option<JsonView>,
}

pub open spec fn opt_value(value: Option<Json>) -> Option<JsonView> {
    match value {
        Some(v) => Some(v@),
        None => None,
    }
}

impl View for ToolBuf {
    type V = ToolView;

    open spec fn view(&self) -> ToolView {
        ToolView {
            id: self.id@,
            name: self.name@,
            fragments: self.fragments@,
            object: opt_value(self.object),
        }
    }
}

pub open spec fn tool_views(tools: Seq<ToolBuf>) -> Seq<ToolView> {
    tools.map_values(|t: ToolBuf| t@)
}

/// What is known of an answer so far.
#[derive(Debug)]
pub struct Projection {
    pub tools: Vec<ToolBuf>,
    pub in_thinking: bool,
    pub saw_output: bool,
}

#[verifier::ext_equal]
pub struct StateView {
    pub tools: Seq<ToolView>,
    pub in_thinking: bool,
    pub saw_output: bool,
}

impl View for Projection {
    type V = StateView;

    open spec fn view(&self) -> StateView {
        StateView {
            tools: tool_views(self.tools@),
            in_thinking: self.in_thinking,
            saw_output: self.saw_output,
        }
    }
}

/// Text or reasoning, where there is any.
pub open spec fn spoken(text: Seq<char>, reasoning: bool) -> Seq<DeltaView> {
    if text.len() == 0 {
        Seq::empty()
    } else if reasoning {
        seq![DeltaView::Reasoning(text)]
    } else {
        seq![DeltaView::Text(text)]
    }
}

/// Without the line break at its start, where it has one.
pub open spec fn without_break(text: Seq<char>) -> Seq<char> {
    if text.len() > 0 && text[0] == '\n' {
        text.subrange(1, text.len() as int)
    } else {
        text
    }
}

/// What a piece of content says, and whether it ends inside reasoning. Reasoning
/// stands between the tags `<thinking>` and `</thinking>`.
pub open spec fn content_deltas(content: Seq<char>, thinking: bool) -> (Seq<DeltaView>, bool)
    decreases content.len(),
{
    if content.len() == 0 {
        (Seq::empty(), thinking)
    } else {
        let tag = if thinking {
            "</thinking>"@
        } else {
            "<thinking>"@
        };
        match first_at(content, tag, 0) {
            None => (spoken(content, thinking), thinking),
            Some(at) => {
                proof {
                    lemma_first_at(content, tag, 0);
                    reveal_strlit("</thinking>");
                    reveal_strlit("<thinking>");
                }
                let behind = content.subrange(at + tag.len(), content.len() as int);
                let rest = content_deltas(
                    if thinking {
                        without_break(behind)
                    } else {
                        behind
                    },
                    !thinking,
                );
                (spoken(content.subrange(0, at), thinking) + rest.0, rest.1)
            },
        }
    }
}

/// The name of the tool that a piece speaks of.
pub open spec fn nonblank(text: Option<Seq<char>>) -> Option<Seq<char>> {
    match text {
        Some(t) => if trimmed(t).len() == 0 {
            None
        } else {
            Some(t)
        },
        None => None,
    }
}

pub open spec fn position(tools: Seq<ToolView>, id: Seq<char>) -> Option<int>
    decreases tools.len(),
{
    if tools.len() == 0 {
        None
    } else {
        match position(tools.drop_last(), id) {
            Some(i) => Some(i),
            None => if tools.last().id == id {
                Some(tools.len() - 1)
            } else {
                None
            },
        }
    }
}

impl ToolView {
    /// A text is appended, an object is taken, anything else is ignored.
    pub open spec fn with_input(self, input: Option<JsonView>) -> ToolView {
        match input {
            Some(JsonView::Str(text)) => ToolView { fragments: self.fragments + text, ..self },
            Some(JsonView::Obj(fields)) => ToolView {
                object: Some(JsonView::Obj(fields)),
                ..self
            },
            _ => self,
        }
    }
}

/// The calls with one more piece, or the error in it. A piece without an
/// identifier gets one by its place.
pub open spec fn collected(tools: Seq<ToolView>, value: JsonView) -> Result<Seq<ToolView>, Seq<char>> {
    match nonblank(value.text_under("name"@)) {
        None => Err("kiro toolUseEvent is missing a tool name"@),
        Some(name) => {
            let id = match nonblank(value.text_under("toolUseId"@)) {
                Some(id) => id,
                None => "call_"@ + decimal((tools.len() + 1) as nat),
            };
            match position(tools, id) {
                Some(i) => if tools[i].name != name {
                    Err("kiro tool name changed between fragments"@)
                } else {
                    Ok(tools.update(i, tools[i].with_input(value.get("input"@))))
                },
                None => Ok(
                    tools.push(
                        (ToolView { id, name, fragments: Seq::empty(), object: None }).with_input(
                            value.get("input"@),
                        ),
                    ),
                ),
            }
        },
    }
}

/// Pieces one after the other, up to the first error: what was collected before
/// it stays.
pub open spec fn collected_all(tools: Seq<ToolView>, values: Seq<JsonView>) -> (
    Seq<ToolView>,
    Option<Seq<char>>,
)
    decreases values.len(),
{
    if values.len() == 0 {
        (tools, None)
    } else {
        match collected(tools, values[0]) {
            Err(e) => (tools, Some(e)),
            Ok(next) => collected_all(next, values.subrange(1, values.len() as int)),
        }
    }
}

/// The pieces in a payload: an array holds several.
pub open spec fn pieces(payload: JsonView) -> Seq<JsonView> {
    match payload {
        JsonView::Arr(items) => items,
        other => seq![other],
    }
}

/// The field `key` of a payload, as a text.
pub open spec fn payload_text(payload: Option<JsonView>, key: Seq<char>) -> Option<Seq<char>> {
    match payload {
        Some(p) => p.text_under(key),
        None => None,
    }
}

/// The reasoning in a payload: under its own name or bare, as a text or under
/// `text` or `content`.
pub open spec fn reasoning_text(payload: Option<JsonView>) -> Option<Seq<char>> {
    match payload {
        None => None,
        Some(p) => {
            let value = match p.get("reasoningContentEvent"@) {
                Some(inner) => inner,
                None => p,
            };
            match value {
                JsonView::Str(text) => Some(text),
                _ => match value.get("text"@) {
                    Some(text) => text.text(),
                    None => value.text_under("content"@),
                },
            }
        },
    }
}

pub open spec fn or_default(text: Option<Seq<char>>, default: Seq<char>) -> Seq<char> {
    match text {
        Some(t) => t,
        None => default,
    }
}

/// The state after an event, what it says, and whether the stream goes on.
#[verifier::ext_equal]
pub struct Step {
    pub state: StateView,
    pub said: Seq<DeltaView>,
    pub go_on: bool,
}

impl StateView {
    pub open spec fn saying(self, said: Seq<DeltaView>) -> Step {
        Step {
            state: StateView { saw_output: self.saw_output || said.len() > 0, ..self },
            said,
            go_on: true,
        }
    }

    pub open spec fn failing(self, error: Seq<char>) -> Step {
        Step { state: self, said: seq![DeltaView::Error(error)], go_on: false }
    }

    /// What an event is to the answer. An error ends it.
    pub open spec fn after(self, event: EventView) -> Step {
        if event.message_type == "error"@ || event.message_type == "exception"@ {
            self.failing(
                "kiro "@ + or_default(
                    payload_text(event.payload, "message"@),
                    "upstream eventstream error"@,
                ),
            )
        } else if event.event_type == "assistantResponseEvent"@ {
            match payload_text(event.payload, "content"@) {
                None => self.saying(Seq::empty()),
                Some(content) => {
                    let said = content_deltas(content, self.in_thinking);
                    (StateView { in_thinking: said.1, ..self }).saying(said.0)
                },
            }
        } else if event.event_type == "reasoningContentEvent"@ {
            self.saying(spoken(or_default(reasoning_text(event.payload), Seq::empty()), true))
        } else if event.event_type == "codeEvent"@ {
            self.saying(
                spoken(
                    or_default(payload_text(event.payload, "content"@), Seq::empty()),
                    false,
                ),
            )
        } else if event.event_type == "toolUseEvent"@ {
            match event.payload {
                None => self.saying(Seq::empty()),
                Some(payload) => {
                    let all = collected_all(self.tools, pieces(payload));
                    let next = StateView { tools: all.0, ..self };
                    match all.1 {
                        Some(error) => next.failing(error),
                        None => next.saying(Seq::empty()),
                    }
                },
            }
        } else if event.event_type == "errorEvent"@ {
            self.failing(
                "kiro "@ + or_default(
                    payload_text(event.payload, "message"@),
                    "upstream errorEvent"@,
                ),
            )
        } else {
            self.saying(Seq::empty())
        }
    }
}

/// The input of a whole call: the object, else the value of the pieces, else
/// nothing where there are none.
pub open spec fn call_input(tool: ToolView, value: Result<JsonView, Seq<char>>) -> Option<JsonView> {
    match (tool.object, value) {
        (Some(object), _) => Some(object),
        (None, Ok(value)) => Some(value),
        (None, Err(_)) => if tool.fragments.len() == 0 {
            Some(JsonView::object())
        } else {
            None
        },
    }
}

/// The calls that were collected, up to the first with an input that is no JSON.
pub open spec fn calls_of(tools: Seq<ToolView>) -> (Seq<DeltaView>, bool)
    decreases tools.len(),
{
    if tools.len() == 0 {
        (Seq::empty(), true)
    } else {
        let head = calls_of(tools.drop_last());
        if !head.1 {
            head
        } else {
            match call_input(tools.last(), parsed(tools.last().fragments)) {
                Some(input) => (
                    head.0.push(DeltaView::ToolCall { name: tools.last().name, input }),
                    true,
                ),
                None => (
                    head.0.push(
                        DeltaView::Error(
                            "kiro tool input is not valid JSON: "@ + tools.last().name,
                        ),
                    ),
                    false,
                ),
            }
        }
    }
}

/// What is said at the end: the calls, and that the answer is done. An answer
/// without anything is an error, and so is a call that cannot be read.
pub open spec fn closing(state: StateView) -> Seq<DeltaView> {
    let calls = calls_of(state.tools);
    if !calls.1 {
        calls.0
    } else if state.saw_output || calls.0.len() > 0 {
        calls.0.push(DeltaView::Done)
    } else {
        calls.0.push(DeltaView::Error("kiro eventstream ended without model output"@))
    }
}

/// What is known once the calls are handed out: something was said where a call
/// could be read.
pub open spec fn closed(state: StateView) -> StateView {
    let calls = calls_of(state.tools);
    StateView {
        tools: Seq::empty(),
        saw_output: state.saw_output || calls.0.len() > (if calls.1 {
            0int
        } else {
            1int
        }),
        ..state
    }
}

fn append_said(queue: &mut DeltaQueue, text: String, reasoning: bool) -> (r: bool)
    ensures
        final(queue)@ == (QueueView {
            queued: old(queue)@.queued + spoken(text@, reasoning),
            ..old(queue)@
        }),
        r == (spoken(text@, reasoning).len() > 0),
{
    let ghost said = text@;
    let ghost start = queue@;
    let some = !text.as_str().is_empty();
    if some {
        if reasoning {
            queue.push(Delta::Reasoning(text));
        } else {
            queue.push(Delta::Text(text));
        }
    }
    assert(queue@.queued =~= start.queued + spoken(said, reasoning));
    some
}

fn said_error(queue: &mut DeltaQueue, text: String)
    ensures
        final(queue)@ == (QueueView {
            queued: old(queue)@.queued + seq![DeltaView::Error(text@)],
            ..old(queue)@
        }),
{
    let ghost start = queue@;
    let ghost said = text@;
    queue.push(Delta::Error(text));
    assert(queue@.queued =~= start.queued + seq![DeltaView::Error(said)]);
}

proof fn lemma_position_found(tools: Seq<ToolView>, id: Seq<char>, n: int)
    requires
        0 <= n <= tools.len(),
        position(tools.take(n), id) is Some,
    ensures
        position(tools, id) == position(tools.take(n), id),
    decreases tools.len() - n,
{
    if n < tools.len() {
        assert(tools.take(n + 1).drop_last() =~= tools.take(n));
        lemma_position_found(tools, id, n + 1);
    } else {
        assert(tools.take(n) =~= tools);
    }
}

fn find_tool(tools: &Vec<ToolBuf>, id: &str) -> (r: Option<usize>)
    ensures
        match r {
            Some(i) => i < tools@.len() && position(tool_views(tools@), id@) == Some(i as int),
            None => position(tool_views(tools@), id@) is None,
        },
{
    let ghost all = tool_views(tools@);
    let mut i: usize = 0;
    assert(all.take(0) =~= Seq::<ToolView>::empty());
    while i < tools.len()
        invariant
            i <= tools@.len(),
            all == tool_views(tools@),
            position(all.take(i as int), id@) is None,
        decreases tools@.len() - i,
    {
        assert(all.take(i + 1).drop_last() =~= all.take(i as int));
        if str_eq(tools[i].id.as_str(), id) {
            proof {
                lemma_position_found(all, id@, i + 1);
            }
            return Some(i);
        }
        i = i + 1;
    }
    assert(all.take(i as int) =~= all);
    None
}

fn nonblank_text(value: &Json, key: &str) -> (r: Option<String>)
    ensures
        crate::text::opt_view(r) == nonblank(value@.text_under(key@)),
{
    match value.text_at(key) {
        Some(text) => {
            let rest = trim(text.as_str());
            if rest.as_str().is_empty() {
                None
            } else {
                Some(text.clone())
            }
        },
        None => None,
    }
}

fn add_input(tool: ToolBuf, value: &Json) -> (r: ToolBuf)
    ensures
        r@ == tool@.with_input(value@.get("input"@)),
{
    let mut tool = tool;
    match value.get("input") {
        Some(Json::Str(text)) => {
            tool.fragments.append(text.as_str());
        },
        Some(input) => {
            if input.as_object().is_some() {
                tool.object = Some(input.copy());
            }
        },
        None => {},
    }
    tool
}

impl Projection {
    pub fn new() -> (r: Projection)
        ensures
            r@ == (StateView { tools: Seq::empty(), in_thinking: false, saw_output: false }),
    {
        let r = Projection { tools: Vec::new(), in_thinking: false, saw_output: false };
        assert(r@.tools =~= Seq::<ToolView>::empty());
        r
    }

    fn push_content(&mut self, content: &str, queue: &mut DeltaQueue)
        ensures
            ({
                let said = content_deltas(content@, old(self).in_thinking);
                &&& final(self)@ == (StateView {
                    in_thinking: said.1,
                    saw_output: old(self).saw_output || said.0.len() > 0,
                    ..old(self)@
                })
                &&& final(queue)@ == (QueueView {
                    queued: old(queue)@.queued + said.0,
                    ..old(queue)@
                })
            }),
    {
        let mut rest: Vec<char> = chars_of(content);
        let open = chars_of("<thinking>");
        let close = chars_of("</thinking>");
        let ghost start = queue@;
        let ghost before = self@;
        let ghost whole = content_deltas(content@, self.in_thinking);
        let ghost mut said: Seq<DeltaView> = Seq::empty();
        proof {
            reveal_strlit("</thinking>");
            reveal_strlit("<thinking>");
            assert(start.queued + said =~= start.queued);
            assert(said + whole.0 =~= whole.0);
        }
        while rest.len() > 0
            invariant
                open@ == "<thinking>"@,
                close@ == "</thinking>"@,
                open@.len() > 0,
                close@.len() > 0,
                whole == content_deltas(content@, old(self).in_thinking),
                whole == (
                    said + content_deltas(rest@, self.in_thinking).0,
                    content_deltas(rest@, self.in_thinking).1,
                ),
                queue@ == (QueueView { queued: start.queued + said, ..start }),
                start == old(queue)@,
                before == old(self)@,
                self@ == (StateView {
                    in_thinking: self.in_thinking,
                    saw_output: before.saw_output || said.len() > 0,
                    ..before
                }),
            decreases rest@.len(),
        {
            let ghost here = rest@;
            let ghost was = self.in_thinking;
            let ghost sofar = said;
            let tag = if self.in_thinking {
                close.as_slice()
            } else {
                open.as_slice()
            };
            match find_chars(rest.as_slice(), tag) {
                None => {
                    let text = string_of(rest.as_slice(), 0, rest.len());
                    assert(text@ =~= here);
                    if append_said(queue, text, self.in_thinking) {
                        self.saw_output = true;
                    }
                    proof {
                        assert((start.queued + sofar) + spoken(here, was) =~= start.queued
                            + whole.0);
                    }
                    return;
                },
                Some(at) => {
                    let len: usize = rest.len();
                    let text = string_of(rest.as_slice(), 0, at);
                    let ghost piece = text@;
                    if append_said(queue, text, self.in_thinking) {
                        self.saw_output = true;
                    }
                    let mut from: usize = at + tag.len();
                    let ghost behind = here.subrange(from as int, here.len() as int);
                    if self.in_thinking && from < len && rest[from] == '\n' {
                        from = from + 1;
                    }
                    let mut next: Vec<char> = Vec::new();
                    let mut j: usize = from;
                    while j < len
                        invariant
                            from <= j <= len == rest@.len(),
                            next@ == rest@.subrange(from as int, j as int),
                        decreases len - j,
                    {
                        next.push(rest[j]);
                        j = j + 1;
                    }
                    proof {
                        assert(next@ =~= here.subrange(from as int, here.len() as int));
                        if was {
                            assert(without_break(behind) =~= next@);
                        } else {
                            assert(behind =~= next@);
                        }
                        said = sofar + spoken(piece, was);
                        assert((start.queued + sofar) + spoken(piece, was) =~= start.queued
                            + said);
                        let more = content_deltas(next@, !was);
                        assert(sofar + (spoken(piece, was) + more.0) =~= said + more.0);
                    }
                    rest = next;
                    self.in_thinking = !self.in_thinking;
                },
            }
        }
        proof {
            assert(said + Seq::<DeltaView>::empty() =~= said);
        }
    }

    fn collect_value(&mut self, value: &Json) -> (r: Result<(), String>)
        ensures
            match collected(old(self)@.tools, value@) {
                Ok(tools) => r is Ok && final(self)@ == (StateView { tools, ..old(self)@ }),
                Err(e) => r matches Err(text) && text@ == e && *final(self) == *old(self),
            },
    {
        let name = match nonblank_text(value, "name") {
            Some(name) => name,
            None => return Err("kiro toolUseEvent is missing a tool name".to_owned()),
        };
        let id = match nonblank_text(value, "toolUseId") {
            Some(id) => id,
            None => {
                let place = decimal_wide(self.tools.len() as u128 + 1);
                cat2("call_", place.as_str())
            },
        };
        let ghost before = self.tools@;
        match find_tool(&self.tools, id.as_str()) {
            Some(index) => {
                if !str_eq(self.tools[index].name.as_str(), name.as_str()) {
                    return Err("kiro tool name changed between fragments".to_owned());
                }
                let tool = self.tools.remove(index);
                let tool = add_input(tool, value);
                let ghost t = tool@;
                self.tools.insert(index, tool);
                assert(tool_views(self.tools@) =~= tool_views(before).update(index as int, t));
            },
            None => {
                let tool = ToolBuf { id, name, fragments: String::new(), object: None };
                let tool = add_input(tool, value);
                let ghost t = tool@;
                self.tools.push(tool);
                assert(tool_views(self.tools@) =~= tool_views(before).push(t));
            },
        }
        Ok(())
    }

    fn collect_list(&mut self, items: &Vec<Json>) -> (r: Option<String>)
        ensures
            ({
                let all = collected_all(old(self)@.tools, list_view(items@));
                &&& final(self)@ == (StateView { tools: all.0, ..old(self)@ })
                &&& crate::text::opt_view(r) == all.1
            }),
    {
        let ghost values = list_view(items@);
        let ghost start = self@;
        let mut i: usize = 0;
        proof {
            lemma_list_view(items@);
            assert(values.subrange(0, values.len() as int) =~= values);
        }
        while i < items.len()
            invariant
                i <= items@.len(),
                values == list_view(items@),
                values.len() == items@.len(),
                start == old(self)@,
                collected_all(start.tools, values) == collected_all(
                    self@.tools,
                    values.subrange(i as int, values.len() as int),
                ),
                self@ == (StateView { tools: self@.tools, ..start }),
            decreases items@.len() - i,
        {
            proof {
                lemma_list_view(items@);
                let rest = values.subrange(i as int, values.len() as int);
                assert(rest[0] == items@[i as int]@);
                assert(rest.subrange(1, rest.len() as int) =~= values.subrange(
                    i + 1,
                    values.len() as int,
                ));
            }
            match self.collect_value(&items[i]) {
                Ok(_) => {},
                Err(e) => return Some(e),
            }
            i = i + 1;
        }
        None
    }

    fn collect_tool_use(&mut self, payload: &Json) -> (r: Option<String>)
        ensures
            ({
                let all = collected_all(old(self)@.tools, pieces(payload@));
                &&& final(self)@ == (StateView { tools: all.0, ..old(self)@ })
                &&& crate::text::opt_view(r) == all.1
            }),
    {
        match payload.as_array() {
            Some(items) => self.collect_list(items),
            None => {
                proof {
                    reveal_with_fuel(collected_all, 2);
                    let one = seq![payload@];
                    assert(one.subrange(1, one.len() as int) =~= Seq::<JsonView>::empty());
                }
                match self.collect_value(payload) {
                    Ok(_) => None,
                    Err(e) => Some(e),
                }
            },
        }
    }

    /// Adds what an event says to the queue; false where it ends the stream.
    pub fn process(&mut self, event: &Event, queue: &mut DeltaQueue) -> (r: bool)
        ensures
            ({
                let step = old(self)@.after(event@);
                &&& final(self)@ == step.state
                &&& final(queue)@ == (QueueView {
                    queued: old(queue)@.queued + step.said,
                    ..old(queue)@
                })
                &&& r == step.go_on
            }),
    {
        let ghost start = queue@;
        assert(start.queued + Seq::<DeltaView>::empty() =~= start.queued);
        if str_eq(event.message_type.as_str(), "error") || str_eq(
            event.message_type.as_str(),
            "exception",
        ) {
            let message = message_of(event, "message", "upstream eventstream error");
            said_error(queue, cat2("kiro ", message.as_str()));
            return false;
        }
        let kind = event.event_type.as_str();
        if str_eq(kind, "assistantResponseEvent") {
            if let Some(payload) = &event.payload {
                if let Some(content) = payload.text_at("content") {
                    self.push_content(content.as_str(), queue);
                }
            }
            return true;
        }
        if str_eq(kind, "reasoningContentEvent") {
            let text = reasoning_of(event);
            if append_said(queue, text, true) {
                self.saw_output = true;
            }
            return true;
        }
        if str_eq(kind, "codeEvent") {
            let text = message_of(event, "content", "");
            proof {
                reveal_strlit("");
                assert(""@ =~= Seq::<char>::empty());
            }
            if append_said(queue, text, false) {
                self.saw_output = true;
            }
            return true;
        }
        if str_eq(kind, "toolUseEvent") {
            if let Some(payload) = &event.payload {
                if let Some(error) = self.collect_tool_use(payload) {
                    said_error(queue, error);
                    return false;
                }
            }
            return true;
        }
        if str_eq(kind, "errorEvent") {
            let message = message_of(event, "message", "upstream errorEvent");
            said_error(queue, cat2("kiro ", message.as_str()));
            return false;
        }
        true
    }

    /// Adds what is said at the end of the stream; the calls are handed out.
    pub fn finish(&mut self, queue: &mut DeltaQueue)
        ensures
            final(queue)@ == (QueueView {
                queued: old(queue)@.queued + closing(old(self)@),
                ..old(queue)@
            }),
            final(self)@ == closed(old(self)@),
    {
        let ghost start = queue@;
        let ghost state = self@;
        let ghost tools = self@.tools;
        let mut list: Vec<ToolBuf> = Vec::new();
        std::mem::swap(&mut list, &mut self.tools);
        let ghost whole = list@;
        assert(tool_views(whole) =~= tools);
        let count: usize = list.len();
        let mut i: usize = 0;
        assert(tools.take(0) =~= Seq::<ToolView>::empty());
        assert(start.queued + Seq::<DeltaView>::empty() =~= start.queued);
        assert(list@ =~= whole.subrange(0, whole.len() as int));
        while i < count
            invariant
                i <= count == whole.len(),
                tools == tool_views(whole),
                tools == old(self)@.tools,
                start == old(queue)@,
                state == old(self)@,
                self.tools@.len() == 0,
                list@ == whole.subrange(i as int, whole.len() as int),
                calls_of(tools.take(i as int)).1,
                calls_of(tools.take(i as int)).0.len() == i,
                queue@ == (QueueView {
                    queued: start.queued + calls_of(tools.take(i as int)).0,
                    ..start
                }),
                self.saw_output == (state.saw_output || i > 0),
                self.in_thinking == state.in_thinking,
            decreases count - i,
        {
            assert(tools.take(i + 1).drop_last() =~= tools.take(i as int));
            assert(list@[0] == whole[i as int]);
            let ghost head = calls_of(tools.take(i as int)).0;
            let tool = list.remove(0);
            assert(tool == whole[i as int]);
            assert(tools.take(i + 1).last() == tool@);
            let value = parse_json(tool.fragments.as_str());
            match input_of(tool.object, tool.fragments.as_str(), value) {
                Some(input) => {
                    let ghost v = input@;
                    self.saw_output = true;
                    queue.push(Delta::ToolCall { name: tool.name, input });
                    assert(queue@.queued =~= start.queued + calls_of(tools.take(i + 1)).0);
                },
                None => {
                    let error = cat2(
                        "kiro tool input is not valid JSON: ",
                        tool.name.as_str(),
                    );
                    queue.push(Delta::Error(error));
                    proof {
                        lemma_calls_stop(tools, i + 1);
                        assert(queue@.queued =~= start.queued + calls_of(tools).0);
                        assert(self@ =~= closed(state));
                    }
                    return;
                },
            }
            i = i + 1;
            assert(list@ =~= whole.subrange(i as int, whole.len() as int));
        }
        assert(tools.take(i as int) =~= tools);
        if self.saw_output {
            queue.push(Delta::Done);
        } else {
            queue.push(Delta::Error("kiro eventstream ended without model output".to_owned()));
        }
        assert(queue@.queued =~= start.queued + closing(state));
        assert(self@ =~= closed(state));
    }
}

proof fn lemma_calls_stop(tools: Seq<ToolView>, n: int)
    requires
        0 <= n <= tools.len(),
        !calls_of(tools.take(n)).1,
    ensures
        calls_of(tools) == calls_of(tools.take(n)),
    decreases tools.len() - n,
{
    if n < tools.len() {
        assert(tools.take(n + 1).drop_last() =~= tools.take(n));
        lemma_calls_stop(tools, n + 1);
    } else {
        assert(tools.take(n) =~= tools);
    }
}

/// The input of a whole call; `value` is what its pieces are read as.
pub fn input_of(object: Option<Json>, fragments: &str, value: Result<Json, String>) -> (r: Option<Json>)
    ensures
        opt_value(r) == call_input(
            ToolView {
                id: Seq::empty(),
                name: Seq::empty(),
                fragments: fragments@,
                object: opt_value(object),
            },
            read_view(value),
        ),
{
    match object {
        Some(object) => Some(object),
        None => match value {
            Ok(value) => Some(value),
            Err(_) => if fragments.is_empty() {
                Some(Json::object())
            } else {
                None
            },
        },
    }
}

fn message_of(event: &Event, key: &str, default: &str) -> (r: String)
    ensures
        r@ == or_default(payload_text(event@.payload, key@), default@),
{
    if let Some(payload) = &event.payload {
        if let Some(text) = payload.text_at(key) {
            return text.clone();
        }
    }
    default.to_owned()
}

fn reasoning_of(event: &Event) -> (r: String)
    ensures
        r@ == or_default(reasoning_text(event@.payload), Seq::empty()),
{
    let payload = match &event.payload {
        Some(payload) => payload,
        None => return String::new(),
    };
    let value = match payload.get("reasoningContentEvent") {
        Some(inner) => inner,
        None => payload,
    };
    if let Some(text) = value.as_str() {
        return text.clone();
    }
    let text = match value.get("text") {
        Some(text) => text.as_str(),
        None => value.text_at("content"),
    };
    match text {
        Some(text) => text.clone(),
        None => String::new(),
    }
}

/// An answer on its way: the decoder of its frames, what is known of it, and the
/// deltas that wait to be handed out.
#[derive(Debug)]
pub struct KiroStream {
    pub decoder: FrameDecoder,
    pub projection: Projection,
    pub queue: DeltaQueue,
}

#[verifier::ext_equal]
pub struct StreamView {
    pub buffer: Seq<u8>,
    pub state: StateView,
    pub queue: QueueView,
}

impl View for KiroStream {
    type V = StreamView;

    open spec fn view(&self) -> StreamView {
        StreamView {
            buffer: self.decoder.buffer@,
            state: self.projection@,
            queue: self.queue@,
        }
    }
}

/// Events one after the other, up to the one that ends the stream.
pub open spec fn after_events(state: StateView, queue: QueueView, events: Seq<EventView>) -> (
    StateView,
    QueueView,
)
    decreases events.len(),
{
    if events.len() == 0 {
        (state, queue)
    } else {
        let step = state.after(events[0]);
        let next = QueueView { queued: queue.queued + step.said, ..queue };
        if step.go_on {
            after_events(step.state, next, events.subrange(1, events.len() as int))
        } else {
            (step.state, QueueView { finished: true, ..next })
        }
    }
}

impl StreamView {
    /// A chunk of bytes came. What is broken ends the stream.
    pub open spec fn fed(self, chunk: Seq<u8>) -> StreamView {
        if self.queue.finished {
            self
        } else {
            let decoded = fed(self.buffer, chunk);
            match decoded.events {
                Err(e) => StreamView {
                    buffer: decoded.rest,
                    queue: self.queue.broken(e),
                    ..self
                },
                Ok(events) => {
                    let after = after_events(self.state, self.queue, events);
                    StreamView { buffer: decoded.rest, state: after.0, queue: after.1 }
                },
            }
        }
    }

    /// What is to be handed out once the transport ended.
    pub open spec fn ended(self) -> StreamView {
        if self.queue.finished {
            self
        } else if self.buffer.len() > 0 {
            StreamView {
                queue: self.queue.broken("kiro eventstream ended with a truncated frame"@),
                ..self
            }
        } else {
            StreamView {
                queue: QueueView {
                    queued: self.queue.queued + closing(self.state),
                    finished: true,
                },
                state: closed(self.state),
                ..self
            }
        }
    }
}

impl KiroStream {
    pub fn new() -> (r: KiroStream)
        ensures
            r@ == (StreamView {
                buffer: Seq::empty(),
                state: StateView { tools: Seq::empty(), in_thinking: false, saw_output: false },
                queue: QueueView { queued: Seq::empty(), finished: false },
            }),
    {
        let r = KiroStream {
            decoder: FrameDecoder::new(),
            projection: Projection::new(),
            queue: DeltaQueue::new(),
        };
        assert(r@.buffer =~= Seq::<u8>::empty());
        r
    }

    pub fn on_chunk(&mut self, chunk: &[u8])
        ensures
            final(self)@ == old(self)@.fed(chunk@),
    {
        if self.queue.finished {
            return;
        }
        let ghost start = self@;
        match self.decoder.feed(chunk) {
            Err(e) => self.queue.fail(e),
            Ok(events) => {
                let ghost all = event_views(events@);
                let ghost decoded = fed(start.buffer, chunk@);
                let mut i: usize = 0;
                assert(all.subrange(0, all.len() as int) =~= all);
                while i < events.len()
                    invariant
                        i <= events@.len(),
                        all == event_views(events@),
                        start == old(self)@,
                        !start.queue.finished,
                        decoded == fed(start.buffer, chunk@),
                        decoded.events == Ok::<Seq<EventView>, Seq<char>>(all),
                        self.decoder.buffer@ == decoded.rest,
                        after_events(start.state, start.queue, all) == after_events(
                            self.projection@,
                            self.queue@,
                            all.subrange(i as int, all.len() as int),
                        ),
                    decreases events@.len() - i,
                {
                    let ghost rest = all.subrange(i as int, all.len() as int);
                    assert(rest[0] == events@[i as int]@);
                    assert(rest.subrange(1, rest.len() as int) =~= all.subrange(
                        i + 1,
                        all.len() as int,
                    ));
                    if !self.projection.process(&events[i], &mut self.queue) {
                        self.queue.finished = true;
                        return;
                    }
                    i = i + 1;
                }
            },
        }
    }

    pub fn on_read_error(&mut self, error: &str)
        ensures
            final(self)@ == (StreamView {
                queue: old(self)@.queue.broken("kiro eventstream read: "@ + error@),
                ..old(self)@
            }),
    {
        let text = cat2("kiro eventstream read: ", error);
        self.queue.fail(text);
    }

    pub fn on_end(&mut self)
        ensures
            final(self)@ == old(self)@.ended(),
    {
        if self.queue.finished {
            return;
        }
        match self.decoder.finish() {
            Err(e) => self.queue.fail(e),
            Ok(_) => {
                self.projection.finish(&mut self.queue);
                self.queue.finished = true;
            },
        }
    }
}

/// An answer is done only where something was said: an empty one ends in an
/// error.
pub proof fn law_done_means_output(state: StateView)
    requires
        closing(state).len() > 0,
        closing(state).last() is Done,
    ensures
        state.saw_output || state.tools.len() > 0,
{
    let calls = calls_of(state.tools);
    if !calls.1 {
        lemma_stop_is_an_error(state.tools);
    }
}

proof fn lemma_stop_is_an_error(tools: Seq<ToolView>)
    requires
        !calls_of(tools).1,
    ensures
        calls_of(tools).0.len() > 0,
        calls_of(tools).0.last() is Error,
    decreases tools.len(),
{
    if tools.len() > 0 && !calls_of(tools.drop_last()).1 {
        lemma_stop_is_an_error(tools.drop_last());
    }
}

/// After a call that cannot be read nothing is said to be done.
pub proof fn law_unreadable_call_is_the_last_word(state: StateView)
    requires
        !calls_of(state.tools).1,
    ensures
        closing(state).len() > 0,
        closing(state).last() is Error,
{
    lemma_stop_is_an_error(state.tools);
}

/// Content without tags is text, as it is.
pub proof fn law_plain_content_is_text(content: Seq<char>)
    requires
        content.len() > 0,
        first_at(content, "<thinking>"@, 0) is None,
    ensures
        content_deltas(content, false) == (seq![DeltaView::Text(content)], false),
{
}

/// What stands before a mark of thinking is handed on as it is, as reasoning inside
/// and as text outside, and what stands behind it is read on the other side; the
/// marks are not handed on, nor the line break behind the closing one.
pub proof fn law_thinking_is_told_apart(content: Seq<char>, thinking: bool, at: int)
    requires
        content.len() > 0,
        first_at(
            content,
            if thinking {
                "</thinking>"@
            } else {
                "<thinking>"@
            },
            0,
        ) == Some(at),
    ensures
        ({
            let mark: int = if thinking {
                11
            } else {
                10
            };
            let before = content.subrange(0, at);
            let behind = content.subrange(at + mark, content.len() as int);
            let rest = content_deltas(
                if thinking && behind.len() > 0 && behind[0] == '\n' {
                    behind.subrange(1, behind.len() as int)
                } else {
                    behind
                },
                !thinking,
            );
            let out = content_deltas(content, thinking);
            &&& out.1 == rest.1
            &&& before.len() == 0 ==> out.0 == rest.0
            &&& before.len() > 0 ==> out.0 == seq![
                if thinking {
                    DeltaView::Reasoning(before)
                } else {
                    DeltaView::Text(before)
                },
            ] + rest.0
        }),
{
    reveal_strlit("</thinking>");
    reveal_strlit("<thinking>");
    let out = content_deltas(content, thinking);
    let mark: int = if thinking {
        11
    } else {
        10
    };
    let behind = content.subrange(at + mark, content.len() as int);
    let rest = content_deltas(
        if thinking {
            without_break(behind)
        } else {
            behind
        },
        !thinking,
    );
    assert(Seq::<DeltaView>::empty() + rest.0 =~= rest.0);
}

/// Content without a mark is handed on whole, on the side it stands on.
pub proof fn law_unmarked_content_is_handed_on(content: Seq<char>)
    requires
        content.len() > 0,
    ensures
        first_at(content, "</thinking>"@, 0) is None ==> content_deltas(content, true) == (
            seq![DeltaView::Reasoning(content)],
            true,
        ),
        first_at(content, "<thinking>"@, 0) is None ==> content_deltas(content, false) == (
            seq![DeltaView::Text(content)],
            false,
        ),
{
}

proof fn lemma_position(tools: Seq<ToolView>, id: Seq<char>)
    ensures
        match position(tools, id) {
            Some(i) => 0 <= i < tools.len() && tools[i].id == id,
            None => forall|i: int| 0 <= i < tools.len() ==> (#[trigger] tools[i]).id != id,
        },
    decreases tools.len(),
{
    if tools.len() > 0 {
        let init = tools.drop_last();
        lemma_position(init, id);
        assert forall|i: int| 0 <= i < init.len() implies #[trigger] tools[i] == init[i] by {}
    }
}

/// A piece of a call goes to the call of its id, and to no other: a text is put
/// behind the pieces before it, an object takes their place. The first piece of an
/// id begins a call under its name; a piece under another name is refused.
pub proof fn law_pieces_go_to_their_call(tools: Seq<ToolView>, value: JsonView, name: Seq<char>, id: Seq<char>)
    requires
        value.text_under("name"@) == Some(name),
        value.text_under("toolUseId"@) == Some(id),
        trimmed(name).len() > 0,
        trimmed(id).len() > 0,
    ensures
        ({
            let out = collected(tools, value);
            let at = position(tools, id);
            &&& at matches Some(i) ==> (tools[i].name != name ==> out is Err)
            &&& at matches Some(i) ==> (tools[i].name == name ==> {
                &&& out is Ok
                &&& out->Ok_0.len() == tools.len()
                &&& out->Ok_0[i].id == id && out->Ok_0[i].name == name
                &&& forall|j: int|
                    0 <= j < tools.len() && j != i ==> (#[trigger] out->Ok_0[j]) == tools[j]
                &&& value.get("input"@) matches Some(JsonView::Str(text)) ==> out->Ok_0[i].fragments
                    == tools[i].fragments + text && out->Ok_0[i].object == tools[i].object
                &&& value.get("input"@) matches Some(JsonView::Obj(fields)) ==> out->Ok_0[i].object
                    == Some(JsonView::Obj(fields)) && out->Ok_0[i].fragments == tools[i].fragments
            })
            &&& at is None ==> {
                &&& out is Ok
                &&& out->Ok_0.len() == tools.len() + 1
                &&& out->Ok_0.drop_last() == tools
                &&& out->Ok_0.last().id == id && out->Ok_0.last().name == name
                &&& value.get("input"@) matches Some(JsonView::Str(text))
                    ==> out->Ok_0.last().fragments == text && out->Ok_0.last().object is None
                &&& value.get("input"@) matches Some(JsonView::Obj(fields))
                    ==> out->Ok_0.last().object == Some(JsonView::Obj(fields))
                &&& value.get("input"@) is None ==> out->Ok_0.last().fragments.len() == 0
                    && out->Ok_0.last().object is None
            }
            &&& at matches Some(i) ==> 0 <= i < tools.len() && tools[i].id == id
        }),
{
    lemma_position(tools, id);
    let out = collected(tools, value);
    if out is Ok && position(tools, id) is None {
        assert(out->Ok_0.drop_last() =~= tools);
        if let Some(JsonView::Str(text)) = value.get("input"@) {
            assert(Seq::<char>::empty() + text =~= text);
        }
    }
}

/// A piece of a call without a name is refused.
pub proof fn law_calls_have_names(tools: Seq<ToolView>, value: JsonView)
    requires
        value.text_under("name"@) is None || trimmed(value.text_under("name"@)->0).len() == 0,
    ensures
        collected(tools, value) is Err,
{
}

/// At the end each call is handed on, in order, under its name and with its
/// arguments: the object that came, or else the value of its pieces, or the empty
/// object where there were none.
pub proof fn law_calls_are_handed_on(tools: Seq<ToolView>)
    ensures
        ({
            let out = calls_of(tools);
            &&& out.1 <==> forall|i: int|
                0 <= i < tools.len() ==> (#[trigger] tools[i]).object is Some || parsed(
                    tools[i].fragments,
                ) is Ok || tools[i].fragments.len() == 0
            &&& out.1 ==> out.0.len() == tools.len() && forall|i: int|
                0 <= i < tools.len() ==> (#[trigger] out.0[i]) == (DeltaView::ToolCall {
                    name: tools[i].name,
                    input: if tools[i].object is Some {
                        tools[i].object->0
                    } else if parsed(tools[i].fragments) is Ok {
                        parsed(tools[i].fragments)->Ok_0
                    } else {
                        JsonView::Obj(Seq::empty())
                    },
                })
            &&& !out.1 ==> out.0.len() > 0 && out.0.last() is Error
        }),
    decreases tools.len(),
{
    if tools.len() > 0 {
        let init = tools.drop_last();
        law_calls_are_handed_on(init);
        let head = calls_of(init);
        let out = calls_of(tools);
        assert forall|i: int| 0 <= i < init.len() implies #[trigger] tools[i] == init[i] by {}
        assert(tools[tools.len() - 1] == tools.last());
        if out.1 {
            assert forall|i: int| 0 <= i < tools.len() implies (#[trigger] out.0[i]) == (
            DeltaView::ToolCall {
                name: tools[i].name,
                input: if tools[i].object is Some {
                    tools[i].object->0
                } else if parsed(tools[i].fragments) is Ok {
                    parsed(tools[i].fragments)->Ok_0
                } else {
                    JsonView::Obj(Seq::empty())
                },
            }) by {
                if i < init.len() {
                    assert(out.0[i] == head.0[i]);
                    assert(tools[i] == init[i]);
                }
            }
        } else if !head.1 {
            let k = choose|k: int|
                0 <= k < init.len() && !((#[trigger] init[k]).object is Some || parsed(
                    init[k].fragments,
                ) is Ok || init[k].fragments.len() == 0);
            assert(tools[k] == init[k]);
        }
        if head.1 && out.1 {
            assert forall|i: int| 0 <= i < tools.len() implies (#[trigger] tools[i]).object is Some
                || parsed(tools[i].fragments) is Ok || tools[i].fragments.len() == 0 by {
                if i < init.len() {
                    assert(tools[i] == init[i]);
                }
            }
        }
    }
}

/// The stream ends well only with output: what it said before, or a call. Every
/// call is handed on before that.
pub proof fn law_stream_ends_with_its_calls(state: StateView)
    requires
        calls_of(state.tools).1,
    ensures
        closing(state).len() == calls_of(state.tools).0.len() + 1,
        closing(state).drop_last() == calls_of(state.tools).0,
        closing(state).last() is Done <==> state.saw_output || state.tools.len() > 0,
        closing(state).last() is Done || closing(state).last() is Error,
{
    law_calls_are_handed_on(state.tools);
    assert(closing(state).drop_last() =~= calls_of(state.tools).0);
}

/// What an event says: an error ends the stream with its message; an answer and
/// code are handed on as text, reasoning as reasoning. Output is remembered.
pub proof fn law_events_are_handed_on(state: StateView, event: EventView, payload: JsonView, text: Seq<char>)
    requires
        event.payload == Some(payload),
        text.len() > 0,
    ensures
        ({
            let step = state.after(event);
            let failed = event.message_type == "error"@ || event.message_type == "exception"@;
            &&& failed || event.event_type == "errorEvent"@ ==> {
                &&& !step.go_on
                &&& step.said.len() == 1 && step.said[0] is Error
                &&& step.state == state
                &&& payload.text_under("message"@) == Some(text) ==> step.said[0]
                    == DeltaView::Error("kiro "@ + text)
            }
            &&& !failed && event.event_type == "codeEvent"@ && payload.text_under("content"@)
                == Some(text) ==> step.go_on && step.said == seq![DeltaView::Text(text)]
                && step.state.saw_output
            &&& !failed && event.event_type == "assistantResponseEvent"@ && payload.text_under(
                "content"@,
            ) == Some(text) ==> {
                &&& step.go_on
                &&& step.said == content_deltas(text, state.in_thinking).0
                &&& step.state.in_thinking == content_deltas(text, state.in_thinking).1
                &&& step.state.tools == state.tools
                &&& step.said.len() > 0 ==> step.state.saw_output
            }
            &&& !failed && event.event_type == "reasoningContentEvent"@ && payload.get(
                "reasoningContentEvent"@,
            ) is None && payload.text_under("text"@) == Some(text) ==> step.go_on && step.said
                == seq![DeltaView::Reasoning(text)] && step.state.saw_output
            &&& state.saw_output ==> step.state.saw_output
        }),
{
    reveal_strlit("errorEvent");
    reveal_strlit("codeEvent");
    reveal_strlit("assistantResponseEvent");
    reveal_strlit("reasoningContentEvent");
    reveal_strlit("toolUseEvent");
    assert("errorEvent"@.len() == 10);
    assert("codeEvent"@.len() == 9);
    assert("assistantResponseEvent"@.len() == 22);
    assert("reasoningContentEvent"@.len() == 21);
    assert("toolUseEvent"@.len() == 12);
}

/// The events are read in order, and the first that fails ends the stream.
pub proof fn law_events_are_read_in_order(state: StateView, queue: QueueView, events: Seq<EventView>)
    requires
        events.len() > 0,
    ensures
        ({
            let step = state.after(events[0]);
            let out = after_events(state, queue, events);
            &&& out.1.queued.len() >= queue.queued.len() + step.said.len()
            &&& out.1.queued.take((queue.queued.len() + step.said.len()) as int) == queue.queued
                + step.said
            &&& !step.go_on ==> out.0 == step.state && out.1.finished && out.1.queued
                == queue.queued + step.said
        }),
    decreases events.len(),
{
    reveal_with_fuel(after_events, 2);
    let step = state.after(events[0]);
    let next = QueueView { queued: queue.queued + step.said, ..queue };
    let rest = events.subrange(1, events.len() as int);
    let out = after_events(state, queue, events);
    let n = (queue.queued.len() + step.said.len()) as int;
    if step.go_on && rest.len() > 0 {
        law_events_are_read_in_order(step.state, next, rest);
        let more = step.state.after(rest[0]).said;
        let m = (next.queued.len() + more.len()) as int;
        assert(out.1.queued.take(n) =~= out.1.queued.take(m).take(n));
        assert((next.queued + more).take(n) =~= next.queued);
    } else {
        assert(out.1.queued =~= queue.queued + step.said);
    }
    assert(out.1.queued.take(n) =~= queue.queued + step.said);
}

} // verus!
