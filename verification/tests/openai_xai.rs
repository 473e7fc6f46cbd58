use kxen_core::json::Json;
use kxen_core::llm::openai::{self, OpenAiProvider, OutputItem, ResponsesEvent};
use kxen_core::llm::sse::{Projection, SseFrame};
use kxen_core::llm::stream_limit::StreamBudget;
use kxen_core::llm::types::{
    AssistantToolCall, ChunkFunction, ChunkToolCall, Delta, ImagePart, Message, Role, ToolDefinition,
};
use kxen_core::llm::xai::{self, ChatChunk, ChunkDelta, XaiProvider};
use serde_json::Value;

fn value(json: &Json) -> Value {
    match json {
        Json::Null => Value::Null,
        Json::Bool(b) => Value::Bool(*b),
        Json::Uint(n) => Value::from(*n),
        Json::Number(n) => serde_json::from_str(n).unwrap(),
        Json::Str(s) => Value::String(s.clone()),
        Json::Arr(items) => Value::Array(items.iter().map(value).collect()),
        Json::Obj(fields) => Value::Object(fields.iter().map(|(k, v)| (k.clone(), value(v))).collect()),
    }
}

fn text_of(v: Option<&Value>) -> Option<String> {
    v.and_then(Value::as_str).map(String::from)
}

fn message(role: Role, content: &str) -> Message {
    Message { role, content: content.into(), images: vec![], tool_calls: vec![], tool_call_id: None, name: None }
}

fn with_image(content: &str, media_type: &str) -> Message {
    Message { images: vec![ImagePart { media_type: media_type.into(), data: "QUJD".into() }], ..message(Role::User, content) }
}

fn responses_event(data: &str) -> Result<ResponsesEvent, String> {
    let v: Value = serde_json::from_str(data).map_err(|e| e.to_string())?;
    Ok(ResponsesEvent {
        kind: text_of(v.get("type")).unwrap_or_default(),
        delta: text_of(v.get("delta")),
        output_index: v.get("output_index").and_then(Value::as_u64).map(|n| n as usize),
        item: v.get("item").map(|i| OutputItem {
            kind: text_of(i.get("type")).unwrap_or_default(),
            id: text_of(i.get("id")),
            call_id: text_of(i.get("call_id")),
            name: text_of(i.get("name")),
            arguments: text_of(i.get("arguments")),
        }),
        usage: v.get("response").and_then(|r| r.get("usage")).map(|u| openai::Usage {
            input_tokens: u.get("input_tokens").and_then(Value::as_u64),
            output_tokens: u.get("output_tokens").and_then(Value::as_u64),
        }),
    })
}

fn openai_delta(data: &str) -> Projection {
    openai::delta_of(SseFrame::Data(data.into()), responses_event(data))
}

fn chat_chunk(data: &str) -> Result<ChatChunk, String> {
    let v: Value = serde_json::from_str(data).map_err(|e| e.to_string())?;
    let choices = v.get("choices").and_then(Value::as_array).cloned().unwrap_or_default();
    Ok(ChatChunk {
        choices: choices
            .iter()
            .map(|c| {
                let d = &c["delta"];
                ChunkDelta {
                    content: text_of(d.get("content")),
                    reasoning_content: text_of(d.get("reasoning_content")),
                    tool_calls: d
                        .get("tool_calls")
                        .and_then(Value::as_array)
                        .cloned()
                        .unwrap_or_default()
                        .iter()
                        .map(|t| ChunkToolCall {
                            index: t.get("index").and_then(Value::as_u64).map(|n| n as usize),
                            id: text_of(t.get("id")),
                            function: t.get("function").map(|f| ChunkFunction {
                                name: text_of(f.get("name")),
                                arguments: text_of(f.get("arguments")),
                            }),
                        })
                        .collect(),
                }
            })
            .collect(),
        usage: v.get("usage").map(|u| xai::Usage {
            prompt_tokens: u.get("prompt_tokens").and_then(Value::as_u64),
            completion_tokens: u.get("completion_tokens").and_then(Value::as_u64),
        }),
    })
}

fn xai_delta(data: &str) -> Projection {
    xai::delta_of(SseFrame::Data(data.into()), chat_chunk(data))
}

#[test]
fn images_become_input_image_blocks() {
    let v = value(&openai::wire_content(&with_image("看图", "image/png")));
    let arr = v.as_array().unwrap();
    assert_eq!(arr[0]["type"], "input_image");
    assert_eq!(arr[0]["image_url"], "data:image/png;base64,QUJD");
    assert_eq!(arr[1]["type"], "input_text");
}

#[test]
fn assistant_tools_and_results_wire_shape() {
    let call = AssistantToolCall { id: "call_1".into(), name: "exec".into(), arguments: "{\"command\":\"ls\"}".into() };
    let msgs = vec![
        Message { tool_calls: vec![call], ..message(Role::Assistant, "查一下") },
        Message {
            tool_call_id: Some("call_1".into()),
            name: Some("exec".into()),
            ..message(Role::Tool, "file.txt")
        },
    ];
    let items: Vec<Value> = openai::input_items(&msgs).iter().map(value).collect();
    assert_eq!(items[0]["type"], "message");
    assert_eq!(items[0]["role"], "assistant");
    assert_eq!(items[1]["type"], "function_call");
    assert_eq!(items[1]["call_id"], "call_1");
    assert_eq!(items[1]["name"], "exec");
    assert_eq!(items[2]["type"], "function_call_output");
    assert_eq!(items[2]["call_id"], "call_1");
    assert_eq!(items[2]["output"], "file.txt");
}

#[test]
fn function_call_item_done_becomes_fragments() {
    let frame = r#"{"type":"response.output_item.done","output_index":1,"item":{"type":"function_call","id":"fc_1","call_id":"call_9","name":"exec","arguments":"{\"command\":\"ls\"}"}}"#;
    let Projection::Delta(Delta::ToolFragments(f)) = openai_delta(frame) else { panic!("wrong delta") };
    assert_eq!(f.len(), 1);
    assert_eq!(f[0].id.as_deref(), Some("call_9"));
    let function = f[0].function.as_ref().unwrap();
    assert_eq!(function.name.as_deref(), Some("exec"));
    assert_eq!(function.arguments.as_deref(), Some("{\"command\":\"ls\"}"));
}

#[test]
fn completed_requires_complete_usage_fields_but_still_terminates() {
    let frame = r#"{"type":"response.completed","response":{"usage":{"input_tokens":10}}}"#;
    assert!(matches!(openai_delta(frame), Projection::Complete(None)));
    let whole = r#"{"type":"response.completed","response":{"usage":{"input_tokens":10,"output_tokens":3}}}"#;
    assert!(matches!(openai_delta(whole), Projection::Complete(Some(Delta::Usage { input: 10, output: 3 }))));
}

#[test]
fn failed_and_malformed_events_are_errors() {
    assert!(matches!(
        openai_delta(r#"{"type":"response.failed","response":{"error":{"message":"denied"}}}"#),
        Projection::Delta(Delta::Error(error)) if error.contains("denied")
    ));
    assert!(matches!(openai_delta("{"), Projection::Delta(Delta::Error(error)) if error.contains("invalid SSE")));
    assert!(matches!(
        openai::delta_of(SseFrame::Done, Err(String::new())),
        Projection::Delta(Delta::Error(error)) if error == "openai stream ended without response.completed"
    ));
    assert!(matches!(
        openai_delta(r#"{"type":"response.incomplete"}"#),
        Projection::Delta(Delta::Error(error)) if error == "openai stream terminal error: response.incomplete"
    ));
}

#[test]
fn openai_requests_go_to_the_account_that_pays() {
    let messages = vec![message(Role::System, "sys"), Message::user("hi")];
    let own = OpenAiProvider::new("tok".into(), Some("acc".into()), true).request("m", &messages, &vec![]);
    assert_eq!(own.url, "https://chatgpt.com/backend-api/codex/responses");
    assert!(own.headers.iter().any(|(k, v)| k == "authorization" && v == "Bearer tok"));
    let api = OpenAiProvider::new("key".into(), None, false).request("m", &messages, &vec![]);
    assert_eq!(api.url, "https://api.openai.com/v1/responses");
    assert_eq!(value(&api.body)["model"], "m");
}

#[test]
fn parses_chat_chunk() {
    let json = r#"{"choices":[{"delta":{"content":"pong"}}]}"#;
    assert!(matches!(xai_delta(json), Projection::Delta(Delta::Text(t)) if t == "pong"));
}

#[test]
fn parses_usage() {
    let json = r#"{"choices":[],"usage":{"prompt_tokens":10,"completion_tokens":4}}"#;
    assert!(matches!(xai_delta(json), Projection::Delta(Delta::Usage { input: 10, output: 4 })));
}

#[test]
fn malformed_and_application_error_frames_are_errors() {
    assert!(matches!(xai_delta("{"), Projection::Delta(Delta::Error(error)) if error.contains("invalid SSE")));
    let payload = r#"{"error":{"type":"invalid_request_error","message":"bad key"}}"#;
    assert!(matches!(xai_delta(payload), Projection::Delta(Delta::Error(error)) if error.contains("bad key")));
    let odd = r#"{"error":{"code":7}}"#;
    assert!(matches!(
        xai_delta(odd),
        Projection::Delta(Delta::Error(error)) if error == "xai stream error: {\"code\":7}"
    ));
}

#[test]
fn incomplete_usage_is_not_reported_as_zero() {
    let payload = r#"{"choices":[],"usage":{"prompt_tokens":10}}"#;
    assert!(matches!(xai_delta(payload), Projection::Ignore));
}

#[test]
fn images_become_image_url_blocks() {
    let v = value(&xai::wire_message(&with_image("看图", "image/jpeg")));
    let arr = v["content"].as_array().unwrap();
    assert_eq!(arr[0]["type"], "image_url");
    assert_eq!(arr[0]["image_url"]["url"], "data:image/jpeg;base64,QUJD");
    assert_eq!(arr[1]["type"], "text");
}

#[test]
fn compatible_requests_carry_extra_headers_and_tools() {
    let provider = XaiProvider::custom("https://api.x/v1/chat/completions".into(), "tok".into())
        .with_extra_headers(vec![("x-one".into(), "1".into())]);
    let tools = vec![ToolDefinition { name: "exec".into(), description: "runs".into(), parameters: Json::object() }];
    let request = provider.request("grok", &vec![Message::user("hi")], &tools);
    assert_eq!(request.url, "https://api.x/v1/chat/completions");
    assert_eq!(
        request.headers,
        vec![("authorization".to_string(), "Bearer tok".to_string()), ("x-one".to_string(), "1".to_string())]
    );
    let body = value(&request.body);
    assert_eq!(body["model"], "grok");
    assert_eq!(body["stream"], true);
    assert_eq!(body["tools"][0]["function"]["name"], "exec");
    assert_eq!(body["messages"][0]["role"], "user");
}

#[test]
fn cumulative_small_deltas_hit_byte_and_event_limits() {
    let mut bytes = StreamBudget { bytes: 0, events: 0, byte_limit: 5, event_limit: 10 };
    bytes.observe(&Delta::Text("abc".into())).unwrap();
    assert!(bytes.observe(&Delta::Text("def".into())).unwrap_err().contains("byte output"));

    let mut events = StreamBudget { bytes: 0, events: 0, byte_limit: 100, event_limit: 2 };
    events.observe(&Delta::Usage { input: 1, output: 1 }).unwrap();
    events.observe(&Delta::Done).unwrap();
    assert!(events.observe(&Delta::Done).unwrap_err().contains("event limit"));
}
