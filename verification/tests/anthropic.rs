use kxen_core::json::Json;
use kxen_core::llm::anthropic::{
    api_messages_of, assistant_content, remap_tool_name, system_blocks_of, unmap_tool_name, wire_content,
    AnthropicProvider,
};
use kxen_core::llm::anthropic_sse::{ContentBlock, DeltaParser, EventDelta, EventUsage, SseEvent};
use kxen_core::llm::sse::{Projection, SseFrame};
use kxen_core::llm::types::{AssistantToolCall, ChunkToolCall, Delta, ImagePart, Message, Role, ToolDefinition};
use serde_json::Value;

fn value(json: &Json) -> Value {
    match json {
        Json::Null => Value::Null,
        Json::Bool(b) => Value::Bool(*b),
        Json::Uint(n) => Value::from(*n),
        Json::Number(n) => serde_json::from_str(n).unwrap(),
        Json::Str(s) => Value::String(s.clone()),
        Json::Arr(items) => Value::Array(items.iter().map(value).collect()),
        Json::Obj(fields) => Value::Object(fields.iter().map(|(k, v)| (k.clone(), value(v))).collect()),
    }
}

fn message(role: Role, content: &str) -> Message {
    Message { role, content: content.into(), images: vec![], tool_calls: vec![], tool_call_id: None, name: None }
}

fn call(id: &str, name: &str, arguments: &str) -> AssistantToolCall {
    AssistantToolCall { id: id.into(), name: name.into(), arguments: arguments.into() }
}

fn assistant_with_tools(content: &str, calls: Vec<AssistantToolCall>) -> Message {
    Message { tool_calls: calls, ..message(Role::Assistant, content) }
}

fn tool_result(id: &str, name: &str, content: &str) -> Message {
    Message { tool_call_id: Some(id.into()), name: Some(name.into()), ..message(Role::Tool, content) }
}

fn usage(v: Option<&Value>) -> Option<EventUsage> {
    v.map(|u| EventUsage {
        input_tokens: u.get("input_tokens").and_then(Value::as_u64),
        output_tokens: u.get("output_tokens").and_then(Value::as_u64),
    })
}

fn decode(data: &str) -> Option<SseEvent> {
    let v: Value = serde_json::from_str(data).ok()?;
    let s = |v: Option<&Value>| v.and_then(Value::as_str).map(String::from);
    Some(SseEvent {
        kind: s(v.get("type"))?,
        index: v.get("index").and_then(Value::as_u64).map(|n| n as usize),
        content_block: v.get("content_block").map(|b| ContentBlock {
            kind: s(b.get("type")).unwrap(),
            id: s(b.get("id")),
            name: s(b.get("name")),
        }),
        delta: v.get("delta").map(|d| EventDelta {
            kind: s(d.get("type")),
            text: s(d.get("text")),
            partial_json: s(d.get("partial_json")),
        }),
        usage: usage(v.get("usage")),
        message_usage: usage(v.get("message").and_then(|m| m.get("usage"))),
    })
}

fn feed(p: &mut DeltaParser, data: &str) -> Option<Delta> {
    p.delta_of(&SseFrame::Data(data.into()), decode(data))
}

#[test]
fn tool_remap_full_table_roundtrip() {
    for (own, offered) in [
        ("exec", "Bash"),
        ("read", "Read"),
        ("write", "Write"),
        ("edit", "Edit"),
        ("glob", "Glob"),
        ("grep", "Grep"),
        ("agent", "Agent"),
        ("schedule", "ScheduleWakeup"),
        ("skill", "Skill"),
    ] {
        assert_eq!(remap_tool_name(own), offered, "{own}");
        assert_eq!(unmap_tool_name(offered), own, "{offered}");
    }
}

#[test]
fn tool_remap_arms_point_at_real_tool_names() {
    assert_eq!(unmap_tool_name("Agent"), "agent");
    assert_eq!(unmap_tool_name("Skill"), "skill");
    assert_eq!(remap_tool_name("subagent"), "subagent");
    assert_eq!(remap_tool_name("skill_manage"), "skill_manage");
}

#[test]
fn tool_remap_roundtrip() {
    assert_eq!(remap_tool_name("exec"), "Bash");
    assert_eq!(unmap_tool_name("Bash"), "exec");
    assert_eq!(unmap_tool_name("custom_tool"), "custom_tool");
}

#[test]
fn system_blocks_split_at_cache_boundary() {
    let text = format!("frozen part\n\n{}\n\ndynamic part", "<cache-boundary>");
    let blocks = system_blocks_of(&vec![message(Role::System, &text)], "<cache-boundary>");
    assert_eq!(blocks.len(), 2);
    assert_eq!(blocks[0].text, "frozen part");
    assert!(blocks[0].cached);
    assert_eq!(blocks[1].text, "dynamic part");
    assert!(!blocks[1].cached);
}

#[test]
fn system_blocks_without_boundary_stay_plain() {
    let blocks = system_blocks_of(&vec![message(Role::System, "no marker here")], "<cache-boundary>");
    assert_eq!(blocks.len(), 1);
    assert!(!blocks[0].cached);
}

#[test]
fn assistant_tool_calls_become_tool_use_blocks() {
    let m = assistant_with_tools("看下目录", vec![call("toolu_1", "exec", "{\"command\":\"ls\"}")]);
    let v = value(&assistant_content(&m));
    let arr = v.as_array().unwrap();
    assert_eq!(arr[0]["type"], "text");
    assert_eq!(arr[1]["type"], "tool_use");
    assert_eq!(arr[1]["name"], "Bash");
    assert_eq!(arr[1]["input"]["command"], "ls");
}

#[test]
fn consecutive_tool_results_merge_into_one_user() {
    let msgs = vec![
        assistant_with_tools("", vec![call("toolu_1", "exec", "{}"), call("toolu_2", "read", "{}")]),
        tool_result("toolu_1", "exec", "out1"),
        tool_result("toolu_2", "read", "out2"),
        Message::user("继续"),
    ];
    let api = api_messages_of(&msgs);
    assert_eq!(api.len(), 3);
    assert_eq!(api[1].turn.role(), "user");
    let content = value(&api[1].content);
    let blocks = content.as_array().unwrap();
    assert_eq!(blocks.len(), 2);
    assert_eq!(blocks[0]["type"], "tool_result");
    assert_eq!(blocks[0]["tool_use_id"], "toolu_1");
    assert_eq!(blocks[1]["tool_use_id"], "toolu_2");
}

#[test]
fn tool_use_fragments_accumulate_into_call() {
    let mut p = DeltaParser::new();
    let start = feed(
        &mut p,
        r#"{"type":"content_block_start","index":1,"content_block":{"type":"tool_use","id":"toolu_01","name":"Bash","input":{}}}"#,
    );
    let d1 = feed(
        &mut p,
        r#"{"type":"content_block_delta","index":1,"delta":{"type":"input_json_delta","partial_json":"{\"command\":\"ls"}}"#,
    );
    let d2 = feed(
        &mut p,
        r#"{"type":"content_block_delta","index":1,"delta":{"type":"input_json_delta","partial_json":" /tmp\"}"}}"#,
    );
    let mut fragments: Vec<ChunkToolCall> = Vec::new();
    for d in [start, d1, d2].into_iter().flatten() {
        if let Delta::ToolFragments(f) = d {
            fragments.extend(f);
        }
    }
    assert!(fragments.iter().all(|f| f.index == Some(1)));
    assert_eq!(fragments[0].id.as_deref(), Some("toolu_01"));
    let name: String = fragments.iter().filter_map(|f| f.function.as_ref()?.name.clone()).collect();
    assert_eq!(name, "exec");
    let arguments: String = fragments.iter().filter_map(|f| f.function.as_ref()?.arguments.clone()).collect();
    assert_eq!(arguments, "{\"command\":\"ls /tmp\"}");
}

#[test]
fn usage_merges_input_from_message_start() {
    let mut p = DeltaParser::new();
    assert!(feed(&mut p, r#"{"type":"message_start","message":{"usage":{"input_tokens":321,"output_tokens":1}}}"#).is_none());
    let u = feed(&mut p, r#"{"type":"message_delta","usage":{"output_tokens":42}}"#);
    assert!(matches!(u, Some(Delta::Usage { input: 321, output: 42 })));
}

#[test]
fn text_and_thinking_deltas() {
    let mut p = DeltaParser::new();
    let t = feed(&mut p, r#"{"type":"content_block_delta","index":0,"delta":{"type":"text_delta","text":"pong"}}"#);
    assert!(matches!(t, Some(Delta::Text(s)) if s == "pong"));
    let r = feed(&mut p, r#"{"type":"content_block_delta","index":0,"delta":{"type":"thinking_delta","text":"hmm"}}"#);
    assert!(matches!(r, Some(Delta::Reasoning(s)) if s == "hmm"));
}

#[test]
fn unreadable_arguments_become_an_empty_input() {
    let m = assistant_with_tools("", vec![call("t", "custom", "{broken")]);
    let v = value(&assistant_content(&m));
    assert_eq!(v[0]["input"], Value::Object(serde_json::Map::new()));
    assert_eq!(v[0]["name"], "custom");
}

#[test]
fn requests_carry_what_their_authentication_needs() {
    let provider = AnthropicProvider::new("tok".into(), "Acme".into());
    let messages = vec![message(Role::System, "be brief"), Message::user("hi")];
    let tools = vec![ToolDefinition { name: "exec".into(), description: "runs".into(), parameters: Json::object() }];
    let request = provider.request("m-1", &messages, &tools, "<b>");
    assert_eq!(request.url, "https://api.anthropic.com/v1/messages?beta=true");
    let header = |name: &str| request.headers.iter().find(|(k, _)| k == name).map(|(_, v)| v.as_str());
    assert_eq!(header("authorization"), Some("Bearer tok"));
    assert_eq!(header("anthropic-beta"), Some("oauth-2025-04-20,acme-code-20250219"));
    assert_eq!(header("user-agent"), Some("acme-cli/1.0.0"));
    assert_eq!(header("anthropic-version"), Some("2023-06-01"));
    let body = value(&request.body);
    assert_eq!(body["model"], "m-1");
    assert_eq!(body["max_tokens"], 8192);
    assert_eq!(body["stream"], true);
    assert_eq!(body["system"][0]["text"], "You are Acme Code, Anthropic's official CLI for Acme.");
    assert_eq!(body["system"][1]["text"], "be brief");
    assert_eq!(body["messages"][0]["role"], "user");
    assert_eq!(body["tools"][0]["name"], "Bash");

    let keyed = AnthropicProvider::custom("https://own/v1".into(), "k".into()).request("m", &messages, &vec![], "<b>");
    assert!(keyed.headers.iter().any(|(k, v)| k == "x-api-key" && v == "k"));
    assert!(!keyed.headers.iter().any(|(k, _)| k == "user-agent"));
    let body = value(&keyed.body);
    assert_eq!(body["system"][0]["text"], "be brief");
    assert!(body.get("tools").is_none());
}

#[test]
fn pictures_become_image_blocks() {
    let mut m = Message::user("look");
    m.images.push(ImagePart { media_type: "image/png".into(), data: "QUJD".into() });
    let v = value(&wire_content(&m));
    let kinds: Vec<&str> = v.as_array().unwrap().iter().map(|b| b["type"].as_str().unwrap()).collect();
    assert!(kinds.contains(&"image") && kinds.contains(&"text"));
    assert_eq!(value(&wire_content(&Message::user("hi"))), "hi");
}

#[test]
fn only_the_stop_of_a_message_completes_the_stream() {
    let mut p = DeltaParser::new();
    let mut project = |data: &str| {
        let frame = SseFrame::Data(data.to_string());
        p.project(&frame, decode(data))
    };
    assert!(matches!(project(r#"{"type":"message_start","message":{"usage":{"input_tokens":7}}}"#), Projection::Ignore));
    assert!(matches!(
        project(r#"{"type":"message_delta","usage":{"output_tokens":2}}"#),
        Projection::Delta(Delta::Usage { input: 7, output: 2 })
    ));
    assert!(matches!(project(r#"{"type":"ping"}"#), Projection::Ignore));
    assert!(matches!(project(r#"{"type":"message_stop"}"#), Projection::Complete(None)));
    assert!(matches!(p.project(&SseFrame::Done, decode(r#"{"type":"message_stop"}"#)), Projection::Ignore));
}
