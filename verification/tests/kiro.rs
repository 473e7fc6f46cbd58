use kxen_core::auth::{AuthStore, CredentialKind};
use kxen_core::json::Json;
use kxen_core::llm::kiro::eventstream::{crc32, Event, FrameDecoder};
use kxen_core::llm::kiro::stream::{KiroStream, Projection};
use kxen_core::llm::kiro::wire::build_request;
use kxen_core::llm::kiro::{dispatch, KiroProvider};
use kxen_core::llm::sse::DeltaQueue;
use kxen_core::llm::types::{AssistantToolCall, Delta, ImagePart, Message, ModelRef, Role, ToolDefinition};
use serde_json::Value;

fn value(json: &Json) -> Value {
    match json {
        Json::Null => Value::Null,
        Json::Bool(b) => Value::Bool(*b),
        Json::Uint(n) => Value::from(*n),
        Json::Number(n) => serde_json::from_str(n).unwrap(),
        Json::Str(s) => Value::String(s.clone()),
        Json::Arr(items) => Value::Array(items.iter().map(value).collect()),
        Json::Obj(fields) => Value::Object(fields.iter().map(|(k, v)| (k.clone(), value(v))).collect()),
    }
}

fn json(v: &Value) -> Json {
    match v {
        Value::Null => Json::Null,
        Value::Bool(b) => Json::Bool(*b),
        Value::Number(n) => match n.as_u64() {
            Some(n) => Json::Uint(n),
            None => Json::Number(n.to_string()),
        },
        Value::String(s) => Json::Str(s.clone()),
        Value::Array(items) => Json::Arr(items.iter().map(json).collect()),
        Value::Object(map) => Json::Obj(map.iter().map(|(k, v)| (k.clone(), json(v))).collect()),
    }
}

fn message(role: Role, content: &str) -> Message {
    Message { role, content: content.into(), images: vec![], tool_calls: vec![], tool_call_id: None, name: None }
}

fn assistant(content: &str) -> Message {
    message(Role::Assistant, content)
}

fn call(id: &str, name: &str, arguments: &str) -> AssistantToolCall {
    AssistantToolCall { id: id.into(), name: name.into(), arguments: arguments.into() }
}

fn assistant_with_tools(content: &str, calls: Vec<AssistantToolCall>) -> Message {
    Message { tool_calls: calls, ..assistant(content) }
}

fn tool_result(id: &str, name: &str, content: &str) -> Message {
    Message { tool_call_id: Some(id.into()), name: Some(name.into()), ..message(Role::Tool, content) }
}

fn request(model: &str, messages: Vec<Message>, tools: Vec<ToolDefinition>) -> Value {
    value(&build_request(model, &messages, &tools))
}

fn frame(message_type: &str, event_type: &str, payload: &str) -> Vec<u8> {
    let mut headers = Vec::new();
    for (name, value) in [(":message-type", message_type), (":event-type", event_type)] {
        headers.push(name.len() as u8);
        headers.extend_from_slice(name.as_bytes());
        headers.push(7);
        headers.extend_from_slice(&(value.len() as u16).to_be_bytes());
        headers.extend_from_slice(value.as_bytes());
    }
    let total = (12 + headers.len() + payload.len() + 4) as u32;
    let mut frame = Vec::new();
    frame.extend_from_slice(&total.to_be_bytes());
    frame.extend_from_slice(&(headers.len() as u32).to_be_bytes());
    let prelude = crc32(&frame, frame.len());
    frame.extend_from_slice(&prelude.to_be_bytes());
    frame.extend_from_slice(&headers);
    frame.extend_from_slice(payload.as_bytes());
    let crc = crc32(&frame, frame.len());
    frame.extend_from_slice(&crc.to_be_bytes());
    frame
}

fn event(message_type: &str, event_type: &str, payload: &str) -> Event {
    Event {
        message_type: message_type.to_string(),
        event_type: event_type.to_string(),
        error_code: String::new(),
        payload: serde_json::from_str(payload).ok().map(|v: Value| json(&v)),
    }
}

fn collect(events: &[Event]) -> Vec<Delta> {
    let mut projection = Projection::new();
    let mut queue = DeltaQueue::new();
    for event in events {
        if !projection.process(event, &mut queue) {
            break;
        }
    }
    if !matches!(queue.queued.last(), Some(Delta::Error(_))) {
        projection.finish(&mut queue);
    }
    queue.queued
}

#[test]
fn dispatch_without_credential_yields_error_delta() {
    let model = ModelRef { provider: "kiro".into(), model: "sonnet-4.5".into(), account: None };
    let error = dispatch(&model, &AuthStore::new()).unwrap_err();
    assert!(error.contains("kiro credential missing"));
    let mut store = AuthStore::new();
    store.insert("kiro", CredentialKind::Api { key: "tok".into(), region: None });
    assert_eq!(dispatch(&model, &store).unwrap().bearer, "tok");
}

#[test]
fn the_checksum_is_the_usual_one() {
    assert_eq!(crc32(b"123456789", 9), 0xCBF4_3926);
    assert_eq!(crc32(b"", 0), 0);
}

#[test]
fn decodes_single_frame_with_headers_and_payload() {
    let bytes = frame("event", "assistantResponseEvent", r#"{"content":"你好"}"#);
    let events = FrameDecoder::new().feed(&bytes).expect("valid frame");
    assert_eq!(events.len(), 1);
    assert_eq!(events[0].message_type, "event");
    assert_eq!(events[0].event_type, "assistantResponseEvent");
    assert_eq!(events[0].payload.as_ref().and_then(|p| p.text_at("content")).map(String::as_str), Some("你好"));
}

#[test]
fn frame_split_across_feeds_decodes_once_complete() {
    let bytes = frame("event", "assistantResponseEvent", r#"{"content":"ab"}"#);
    let mut decoder = FrameDecoder::new();
    let mid = bytes.len() / 2;
    assert!(decoder.feed(&bytes[..mid]).expect("prefix").is_empty());
    let events = decoder.feed(&bytes[mid..]).expect("suffix");
    assert_eq!(events.len(), 1);
    assert!(decoder.finish().is_ok());
}

#[test]
fn frames_decode_the_same_byte_by_byte() {
    let mut bytes = frame("event", "assistantResponseEvent", r#"{"content":"a"}"#);
    bytes.extend(frame("event", "messageStopEvent", "{}"));
    let mut decoder = FrameDecoder::new();
    let mut kinds = Vec::new();
    for byte in bytes {
        kinds.extend(decoder.feed(&[byte]).unwrap().into_iter().map(|e| e.event_type));
    }
    assert_eq!(kinds, vec!["assistantResponseEvent", "messageStopEvent"]);
}

#[test]
fn multiple_frames_in_one_chunk_all_decode() {
    let one = frame("event", "assistantResponseEvent", r#"{"content":"a"}"#);
    let two = frame("event", "messageStopEvent", r#"{"stopReason":"end_turn"}"#);
    let mut joined = one;
    joined.extend_from_slice(&two);
    let events = FrameDecoder::new().feed(&joined).expect("two frames");
    assert_eq!(events.len(), 2);
    assert_eq!(events[1].event_type, "messageStopEvent");
}

#[test]
fn corrupt_prelude_crc_is_rejected() {
    let mut bytes = frame("event", "x", "{}");
    bytes[0] ^= 0xFF;
    let error = FrameDecoder::new().feed(&bytes).expect_err("corrupt prelude must fail");
    assert!(error.contains("prelude CRC"), "{error}");
}

#[test]
fn corrupt_message_crc_is_rejected() {
    let mut bytes = frame("event", "x", "{}");
    let last = bytes.len() - 1;
    bytes[last] ^= 0xFF;
    let error = FrameDecoder::new().feed(&bytes).expect_err("corrupt message crc must fail");
    assert!(error.contains("message CRC"), "{error}");
}

#[test]
fn truncated_frame_at_eof_is_an_error() {
    let bytes = frame("event", "x", "{}");
    let mut decoder = FrameDecoder::new();
    assert!(decoder.feed(&bytes[..bytes.len() - 2]).expect("prefix").is_empty());
    assert!(decoder.finish().expect_err("leftover bytes must fail").contains("truncated"));
}

#[test]
fn error_frame_surfaces_message_type_and_error_code() {
    let bytes = frame("exception", "", r#"{"message":"throttled"}"#);
    let events = FrameDecoder::new().feed(&bytes).expect("error frame");
    assert_eq!(events[0].message_type, "exception");
    assert_eq!(events[0].payload.as_ref().and_then(|p| p.text_at("message")).map(String::as_str), Some("throttled"));
}

#[test]
fn assistant_response_chunks_become_text_deltas() {
    let deltas = collect(&[
        event("event", "assistantResponseEvent", r#"{"content":"你"}"#),
        event("event", "assistantResponseEvent", r#"{"content":"好"}"#),
    ]);
    assert!(matches!(&deltas[0], Delta::Text(t) if t == "你"));
    assert!(matches!(&deltas[1], Delta::Text(t) if t == "好"));
    assert!(matches!(&deltas[2], Delta::Done));
}

#[test]
fn inline_thinking_tags_split_into_reasoning_across_chunks() {
    let deltas = collect(&[
        event("event", "assistantResponseEvent", r#"{"content":"前<thinking>想一"}"#),
        event("event", "assistantResponseEvent", r#"{"content":"想二</thinking>后"}"#),
    ]);
    assert!(matches!(&deltas[0], Delta::Text(t) if t == "前"));
    assert!(matches!(&deltas[1], Delta::Reasoning(t) if t == "想一"));
    assert!(matches!(&deltas[2], Delta::Reasoning(t) if t == "想二"));
    assert!(matches!(&deltas[3], Delta::Text(t) if t == "后"));
    assert!(matches!(&deltas[4], Delta::Done));
}

#[test]
fn tool_use_string_fragments_aggregate_by_id() {
    let deltas = collect(&[
        event("event", "toolUseEvent", r#"{"toolUseId":"t1","name":"exec","input":"{\"command\":"}"#),
        event("event", "toolUseEvent", r#"{"toolUseId":"t1","name":"exec","input":"\"ls\"}"}"#),
        event("event", "messageStopEvent", r#"{"stopReason":"tool_use"}"#),
    ]);
    assert!(matches!(&deltas[0], Delta::ToolCall { name, input } if name == "exec" && value(input)["command"] == "ls"));
    assert!(matches!(&deltas[1], Delta::Done));
}

#[test]
fn tool_use_object_input_and_array_payload() {
    let deltas = collect(&[event(
        "event",
        "toolUseEvent",
        r#"[{"toolUseId":"t1","name":"a","input":{"x":1}},{"toolUseId":"t2","name":"b","input":{"y":2}}]"#,
    )]);
    assert!(matches!(&deltas[0], Delta::ToolCall { name, input } if name == "a" && value(input)["x"] == 1));
    assert!(matches!(&deltas[1], Delta::ToolCall { name, input } if name == "b" && value(input)["y"] == 2));
    assert!(matches!(&deltas[2], Delta::Done));
}

#[test]
fn tool_use_invalid_json_fragments_are_an_error() {
    let deltas = collect(&[event("event", "toolUseEvent", r#"{"toolUseId":"t1","name":"exec","input":"{bad"}"#)]);
    assert!(matches!(&deltas[0], Delta::Error(e) if e.contains("not valid JSON")), "{deltas:?}");
    assert!(!deltas.iter().any(|d| matches!(d, Delta::Done)));
}

#[test]
fn exception_frame_is_terminal_error_without_done() {
    let deltas = collect(&[
        event("event", "assistantResponseEvent", r#"{"content":"前半"}"#),
        event("exception", "", r#"{"message":"throttled"}"#),
    ]);
    assert!(matches!(&deltas[0], Delta::Text(t) if t == "前半"));
    assert!(matches!(&deltas[1], Delta::Error(e) if e.contains("throttled")));
    assert_eq!(deltas.len(), 2);
}

#[test]
fn empty_stream_is_an_error_not_done() {
    let deltas = collect(&[]);
    assert!(matches!(&deltas[0], Delta::Error(e) if e.contains("without model output")));
}

#[test]
fn reasoning_content_event_maps_to_reasoning() {
    let deltas = collect(&[event("event", "reasoningContentEvent", r#"{"reasoningContentEvent":{"text":"推理"}}"#)]);
    assert!(matches!(&deltas[0], Delta::Reasoning(t) if t == "推理"));
    assert!(matches!(&deltas[1], Delta::Done));
}

#[test]
fn a_whole_stream_goes_from_bytes_to_deltas() {
    let mut stream = KiroStream::new();
    stream.on_chunk(&frame("event", "assistantResponseEvent", r#"{"content":"ok"}"#));
    stream.on_end();
    assert!(matches!(&stream.queue.queued[0], Delta::Text(t) if t == "ok"));
    assert!(matches!(&stream.queue.queued[1], Delta::Done));
    let mut broken = KiroStream::new();
    broken.on_read_error("reset");
    broken.on_end();
    assert_eq!(broken.queue.queued.len(), 1);
    assert!(matches!(&broken.queue.queued[0], Delta::Error(e) if e == "kiro eventstream read: reset"));
}

#[test]
fn single_user_message_becomes_current_message_with_empty_history() {
    let request = request("sonnet-4.5", vec![Message::user("你好")], vec![]);
    let state = &request["conversationState"];
    assert_eq!(state["chatTriggerType"], "MANUAL");
    assert!(state["conversationId"].as_str().is_some_and(|id| !id.is_empty()));
    assert_eq!(state["history"].as_array().map(Vec::len), Some(0));
    let input = &state["currentMessage"]["userInputMessage"];
    assert_eq!(input["content"], "你好");
    assert_eq!(input["modelId"], "sonnet-4.5");
    assert_eq!(input["origin"], "AI_EDITOR");
}

#[test]
fn history_is_chronological_and_last_user_turn_is_current() {
    let request = request("m", vec![Message::user("第一问"), assistant("第一答"), Message::user("第二问")], vec![]);
    let state = &request["conversationState"];
    let history = state["history"].as_array().unwrap();
    assert_eq!(history.len(), 2);
    assert_eq!(history[0]["userInputMessage"]["content"], "第一问");
    assert_eq!(history[1]["assistantResponseMessage"]["content"], "第一答");
    assert_eq!(state["currentMessage"]["userInputMessage"]["content"], "第二问");
}

#[test]
fn assistant_tool_calls_and_results_keep_ids() {
    let messages = vec![
        Message::user("跑一下"),
        assistant_with_tools("好", vec![call("call_1", "exec", "{\"command\":\"ls\"}")]),
        tool_result("call_1", "exec", "file.rs"),
        assistant("跑完了"),
        Message::user("然后呢"),
    ];
    let request = request("m", messages, vec![]);
    let history = request["conversationState"]["history"].as_array().unwrap();
    assert_eq!(history.len(), 4);
    let tool_use = &history[1]["assistantResponseMessage"]["toolUses"][0];
    assert_eq!(tool_use["toolUseId"], "call_1");
    assert_eq!(tool_use["name"], "exec");
    assert_eq!(tool_use["input"]["command"], "ls");
    let result = &history[2]["userInputMessage"]["userInputMessageContext"]["toolResults"][0];
    assert_eq!(result["toolUseId"], "call_1");
    assert_eq!(result["status"], "success");
    assert_eq!(result["content"][0]["text"], "file.rs");
}

#[test]
fn tools_attach_only_to_current_message_context() {
    let parameters = Json::object().with_str("type", "object").with("properties", Json::object());
    let tool = ToolDefinition { name: "exec".into(), description: "运行命令".into(), parameters };
    let messages = vec![Message::user("hi"), assistant("yo"), Message::user("用工具")];
    let request = request("m", messages, vec![tool]);
    let state = &request["conversationState"];
    let specs = state["currentMessage"]["userInputMessage"]["userInputMessageContext"]["tools"].as_array().unwrap();
    assert_eq!(specs[0]["toolSpecification"]["name"], "exec");
    assert_eq!(specs[0]["toolSpecification"]["inputSchema"]["json"]["type"], "object");
    assert!(state["history"][0]["userInputMessage"].get("userInputMessageContext").is_none());
}

#[test]
fn system_messages_go_to_top_level_system_prompt() {
    let messages = vec![message(Role::System, "你是助手"), message(Role::System, "用中文"), Message::user("hi")];
    let request = request("m", messages, vec![]);
    assert_eq!(request["conversationState"]["systemPrompt"], "你是助手\n\n用中文");
    assert_eq!(request["conversationState"]["history"].as_array().map(Vec::len), Some(0));
}

#[test]
fn adjacent_same_role_turns_merge() {
    let messages = vec![assistant("答一"), assistant("答二"), Message::user("问一"), Message::user("问二")];
    let request = request("m", messages, vec![]);
    let history = request["conversationState"]["history"].as_array().unwrap();
    assert_eq!(history.len(), 2);
    assert_eq!(history[0]["userInputMessage"]["content"], "continue");
    assert_eq!(history[1]["assistantResponseMessage"]["content"], "答一\n\n答二");
    assert_eq!(request["conversationState"]["currentMessage"]["userInputMessage"]["content"], "问一\n\n问二");
}

#[test]
fn tool_results_merge_with_following_user_text() {
    let messages = vec![
        assistant_with_tools("", vec![call("c1", "exec", "{}")]),
        tool_result("c1", "exec", "out"),
        Message::user("继续"),
    ];
    let request = request("m", messages, vec![]);
    let current = &request["conversationState"]["currentMessage"]["userInputMessage"];
    assert_eq!(current["content"], "继续");
    assert_eq!(current["userInputMessageContext"]["toolResults"][0]["toolUseId"], "c1");
}

#[test]
fn images_become_format_and_bytes() {
    let picture = ImagePart { media_type: "image/jpeg".into(), data: "QUJD".into() };
    let messages = vec![Message { images: vec![picture], ..message(Role::User, "看图") }];
    let request = request("m", messages, vec![]);
    let image = &request["conversationState"]["currentMessage"]["userInputMessage"]["images"][0];
    assert_eq!(image["format"], "jpeg");
    assert_eq!(image["source"]["bytes"], "QUJD");
}

#[test]
fn requests_go_to_the_base() {
    let request = KiroProvider::with_base("https://base/".into(), "tok".into()).request("m", &vec![Message::user("x")], &vec![]);
    assert_eq!(request.url, "https://base/generateAssistantResponse");
    assert!(request.headers.iter().any(|(k, v)| k == "authorization" && v == "Bearer tok"));
}
