use kxen_core::json::Json;
use kxen_core::llm::gemini::discover::{
    cache_key, client_metadata, load_request, on_loaded, on_polled, onboard_request, poll_url, AllowedTier, LoadResponse,
    Loaded, Lro, Polled, ProjectCache,
};
use kxen_core::llm::gemini::sse::{
    is_countable, on_end, project_frame, queue_data, Candidate, FunctionCallPart, Part, StreamEnvelope, StreamResponse, UsageMetadata,
};
use kxen_core::llm::gemini::wire::{build_request, contents_of, sanitize_schema, tool_result_part};
use kxen_core::llm::gemini::{
    gemini_headers, Flavor, GeminiProvider, ANTIGRAVITY_CLIENT_METADATA, ANTIGRAVITY_USER_AGENT, API_CLIENT,
    CLIENT_METADATA, USER_AGENT,
};
use kxen_core::llm::sse::{payload_error, DeltaQueue, SseFrame, SseParser};
use kxen_core::llm::types::{AssistantToolCall, Delta, ImagePart, Message, Role, ToolDefinition};
use serde_json::Value;

fn value(json: &Json) -> Value {
    match json {
        Json::Null => Value::Null,
        Json::Bool(b) => Value::Bool(*b),
        Json::Uint(n) => Value::from(*n),
        Json::Number(n) => serde_json::from_str(n).unwrap(),
        Json::Str(s) => Value::String(s.clone()),
        Json::Arr(items) => Value::Array(items.iter().map(value).collect()),
        Json::Obj(fields) => Value::Object(fields.iter().map(|(k, v)| (k.clone(), value(v))).collect()),
    }
}

fn json(v: &Value) -> Json {
    match v {
        Value::Null => Json::Null,
        Value::Bool(b) => Json::Bool(*b),
        Value::Number(n) => match n.as_u64() {
            Some(n) => Json::Uint(n),
            None => Json::Number(n.to_string()),
        },
        Value::String(s) => Json::Str(s.clone()),
        Value::Array(items) => Json::Arr(items.iter().map(json).collect()),
        Value::Object(map) => Json::Obj(map.iter().map(|(k, v)| (k.clone(), json(v))).collect()),
    }
}

fn parse(text: &str) -> Json {
    json(&serde_json::from_str(text).unwrap())
}

fn text_of(v: Option<&Value>) -> Option<String> {
    v.and_then(Value::as_str).map(String::from)
}

fn envelope(data: &str) -> Result<StreamEnvelope, String> {
    let v: Value = serde_json::from_str(data).map_err(|e| e.to_string())?;
    Ok(StreamEnvelope {
        response: v.get("response").map(|r| StreamResponse {
            candidates: r
                .get("candidates")
                .and_then(Value::as_array)
                .cloned()
                .unwrap_or_default()
                .iter()
                .map(|c| Candidate {
                    parts: c["content"]["parts"]
                        .as_array()
                        .cloned()
                        .unwrap_or_default()
                        .iter()
                        .map(|p| Part {
                            text: text_of(p.get("text")),
                            thought: p.get("thought").and_then(Value::as_bool),
                            function_call: p.get("functionCall").map(|f| FunctionCallPart {
                                name: text_of(f.get("name")).unwrap(),
                                args: f.get("args").map(json),
                            }),
                        })
                        .collect(),
                    finish_reason: text_of(c.get("finishReason")),
                })
                .collect(),
            usage_metadata: r.get("usageMetadata").map(|u| UsageMetadata {
                prompt_token_count: u.get("promptTokenCount").and_then(Value::as_u64),
                candidates_token_count: u.get("candidatesTokenCount").and_then(Value::as_u64),
                thoughts_token_count: u.get("thoughtsTokenCount").and_then(Value::as_u64),
            }),
        }),
    })
}

fn deltas_of(data: &str, queue: &mut DeltaQueue) -> bool {
    queue_data(queue, payload_error("gemini", data), envelope(data))
}

fn frame_deltas(frames: &[&str]) -> Vec<Delta> {
    let mut queue = DeltaQueue::new();
    for frame in frames {
        deltas_of(frame, &mut queue);
    }
    queue.queued
}

fn message(role: Role, content: &str) -> Message {
    Message { role, content: content.into(), images: vec![], tool_calls: vec![], tool_call_id: None, name: None }
}

fn call(id: &str, name: &str, arguments: &str) -> AssistantToolCall {
    AssistantToolCall { id: id.into(), name: name.into(), arguments: arguments.into() }
}

fn assistant_with_tools(content: &str, calls: Vec<AssistantToolCall>) -> Message {
    Message { tool_calls: calls, ..message(Role::Assistant, content) }
}

fn tool_result(id: &str, name: &str, content: &str) -> Message {
    Message { tool_call_id: Some(id.into()), name: Some(name.into()), ..message(Role::Tool, content) }
}

fn contents(messages: &Vec<Message>) -> Vec<(String, Vec<Value>)> {
    contents_of(messages)
        .iter()
        .map(|c| (c.speaker.name().to_string(), c.parts.iter().map(value).collect()))
        .collect()
}

fn header<'a>(headers: &'a [(String, String)], name: &str) -> Option<&'a str> {
    headers.iter().find(|(k, _)| k == name).map(|(_, v)| v.as_str())
}

#[test]
fn gemini_cli_headers_carry_api_client() {
    let headers = gemini_headers("t", Flavor::GeminiCli);
    assert_eq!(header(&headers, "user-agent"), Some(USER_AGENT));
    assert_eq!(header(&headers, "x-goog-api-client"), Some(API_CLIENT));
    assert_eq!(header(&headers, "client-metadata"), Some(CLIENT_METADATA));
    assert_eq!(header(&headers, "authorization"), Some("Bearer t"));
}

#[test]
fn antigravity_headers_drop_api_client() {
    let headers = gemini_headers("t", Flavor::Antigravity);
    assert_eq!(header(&headers, "user-agent"), Some(ANTIGRAVITY_USER_AGENT));
    assert!(header(&headers, "x-goog-api-client").is_none());
    assert_eq!(header(&headers, "client-metadata"), Some(ANTIGRAVITY_CLIENT_METADATA));
    assert_eq!(Flavor::for_provider("google-antigravity"), Flavor::Antigravity);
    assert_eq!(Flavor::for_provider("google-oauth"), Flavor::GeminiCli);
}

#[test]
fn text_and_thought_parts_split_into_text_and_reasoning() {
    let deltas = frame_deltas(&[
        r#"{"response":{"candidates":[{"content":{"role":"model","parts":[{"text":"先想","thought":true,"thoughtSignature":"sig"}]}}]}}"#,
        r#"{"response":{"candidates":[{"content":{"role":"model","parts":[{"text":"再说"}]}}]}}"#,
    ]);
    assert!(matches!(&deltas[0], Delta::Reasoning(t) if t == "先想"));
    assert!(matches!(&deltas[1], Delta::Text(t) if t == "再说"));
}

#[test]
fn function_call_part_becomes_complete_tool_call() {
    let deltas = frame_deltas(&[
        r#"{"response":{"candidates":[{"content":{"role":"model","parts":[{"functionCall":{"name":"exec","args":{"command":"ls"}}}]}}]}}"#,
    ]);
    assert!(matches!(&deltas[0], Delta::ToolCall { name, input } if name == "exec" && value(input)["command"] == "ls"));
}

#[test]
fn usage_metadata_merges_thoughts_into_output() {
    let deltas = frame_deltas(&[
        r#"{"response":{"usageMetadata":{"promptTokenCount":10,"candidatesTokenCount":4,"thoughtsTokenCount":2,"totalTokenCount":16}}}"#,
    ]);
    assert!(matches!(&deltas[0], Delta::Usage { input: 10, output: 6 }));
}

#[test]
fn heartbeat_frames_without_candidates_are_skipped() {
    let mut queue = DeltaQueue::new();
    assert!(!deltas_of(r#"{"response":{}}"#, &mut queue));
    assert!(!deltas_of(r#"{}"#, &mut queue));
    assert!(queue.queued.is_empty());
}

#[test]
fn finish_reason_completes_the_stream() {
    let mut queue = DeltaQueue::new();
    let finished = deltas_of(
        r#"{"response":{"candidates":[{"content":{"role":"model","parts":[]},"finishReason":"STOP"}],"usageMetadata":{"promptTokenCount":3,"candidatesTokenCount":1}}}"#,
        &mut queue,
    );
    assert!(finished);
    assert!(matches!(&queue.queued[0], Delta::Usage { input: 3, output: 1 }));
    assert!(matches!(&queue.queued[1], Delta::Done));
}

#[test]
fn malformed_and_error_payloads_are_errors() {
    let deltas = frame_deltas(&["{"]);
    assert!(matches!(&deltas[0], Delta::Error(e) if e.contains("invalid SSE")));
    let deltas = frame_deltas(&[r#"{"error":{"code":400,"message":"bad request"}}"#]);
    assert!(matches!(&deltas[0], Delta::Error(e) if e.contains("bad request")));
}

#[test]
fn stream_chat_parses_full_sse_sequence() {
    let body = concat_all(&[
        "data: {\"response\":{\"candidates\":[{\"content\":{\"role\":\"model\",\"parts\":[{\"text\":\"Hello\"}]}}]}}\n\n",
        "data: {\"response\":{\"candidates\":[{\"content\":{\"role\":\"model\",\"parts\":[{\"text\":\"想一下\",\"thought\":true,\"thoughtSignature\":\"s\"}]}}]}}\n\n",
        "data: {\"response\":{\"candidates\":[{\"content\":{\"role\":\"model\",\"parts\":[{\"functionCall\":{\"name\":\"exec\",\"args\":{\"command\":\"ls\"}}}]}}]}}\n\n",
        "data: {\"response\":{}}\n\n",
        "data: {\"response\":{\"candidates\":[{\"content\":{\"role\":\"model\",\"parts\":[]},\"finishReason\":\"STOP\"}],\"usageMetadata\":{\"promptTokenCount\":10,\"candidatesTokenCount\":4,\"thoughtsTokenCount\":2}}}\n\n",
    ]);
    let mut parser = SseParser::new();
    let mut queue = DeltaQueue::new();
    for frame in parser.feed(body.as_bytes()) {
        let decoded = match &frame {
            SseFrame::Data(data) => envelope(data),
            _ => Err(String::new()),
        };
        project_frame(&mut queue, frame, decoded);
    }
    on_end(&mut queue);
    let deltas = queue.queued;
    assert_eq!(deltas.len(), 5, "{deltas:?}");
    assert!(matches!(&deltas[0], Delta::Text(t) if t == "Hello"));
    assert!(matches!(&deltas[1], Delta::Reasoning(t) if t == "想一下"));
    assert!(matches!(&deltas[2], Delta::ToolCall { name, .. } if name == "exec"));
    assert!(matches!(&deltas[3], Delta::Usage { input: 10, output: 6 }));
    assert!(matches!(&deltas[4], Delta::Done));
}

fn concat_all(parts: &[&str]) -> String {
    parts.concat()
}

#[test]
fn a_stream_without_an_end_is_broken() {
    let mut queue = DeltaQueue::new();
    on_end(&mut queue);
    assert!(queue.finished);
    assert!(matches!(&queue.queued[0], Delta::Error(e) if e == "gemini sse stream ended before protocol completion"));
}

#[test]
fn system_messages_go_to_system_instruction_not_contents() {
    let messages = vec![message(Role::System, "你是助手"), message(Role::System, "用中文"), Message::user("hi")];
    let request = value(&build_request("gemini-2.5-pro", "proj-1", &messages, &vec![]));
    assert_eq!(request["model"], "gemini-2.5-pro");
    assert_eq!(request["project"], "proj-1");
    assert!(request["user_prompt_id"].as_str().is_some_and(|id| !id.is_empty()));
    let system = &request["request"]["systemInstruction"]["parts"];
    assert_eq!(system.as_array().map(Vec::len), Some(2));
    assert_eq!(system[0]["text"], "你是助手");
    let contents = request["request"]["contents"].as_array().unwrap();
    assert_eq!(contents.len(), 1);
    assert_eq!(contents[0]["role"], "user");
    assert_eq!(request["request"]["generationConfig"]["maxOutputTokens"], 32768);
    assert_eq!(request["request"]["generationConfig"]["thinkingConfig"]["thinkingBudget"], 8192);
}

#[test]
fn requests_have_identifiers_of_their_own() {
    let messages = vec![Message::user("hi")];
    let id = || value(&build_request("m", "p", &messages, &vec![]))["user_prompt_id"].as_str().unwrap().to_string();
    let first = id();
    assert_eq!(first.len(), 36);
    assert_ne!(first, id());
}

#[test]
fn assistant_maps_to_model_role_with_function_call_parts() {
    let messages = vec![
        Message::user("列目录"),
        assistant_with_tools("好的", vec![call("call_1", "exec", "{\"command\":\"ls\"}")]),
    ];
    let contents = contents(&messages);
    assert_eq!(contents.len(), 2);
    assert_eq!(contents[1].0, "model");
    let parts = &contents[1].1;
    assert_eq!(parts[0]["text"], "好的");
    assert_eq!(parts[1]["functionCall"]["name"], "exec");
    assert_eq!(parts[1]["functionCall"]["args"]["command"], "ls");
    assert_eq!(parts[1]["functionCall"]["id"], "call_1");
}

#[test]
fn tool_results_become_function_response_in_user_content() {
    let messages =
        vec![assistant_with_tools("", vec![call("call_1", "exec", "{}")]), tool_result("call_1", "exec", "file.rs")];
    let contents = contents(&messages);
    assert_eq!(contents.len(), 2);
    assert_eq!(contents[1].0, "user");
    let part = &contents[1].1[0]["functionResponse"];
    assert_eq!(part["name"], "exec");
    assert_eq!(part["id"], "call_1");
    assert_eq!(part["response"]["result"], "file.rs");
}

#[test]
fn json_tool_result_is_returned_as_structured_value() {
    let part = value(&tool_result_part(&tool_result("call_1", "read", "{\"lines\": 10}")));
    assert_eq!(part["functionResponse"]["response"]["result"]["lines"], 10);
}

#[test]
fn adjacent_same_role_contents_merge() {
    let messages = vec![
        assistant_with_tools("", vec![call("call_1", "exec", "{}"), call("call_2", "read", "{}")]),
        tool_result("call_1", "exec", "out1"),
        tool_result("call_2", "read", "out2"),
        Message::user("继续"),
        Message::user("还有"),
    ];
    let contents = contents(&messages);
    assert_eq!(contents.len(), 2);
    assert_eq!(contents[0].0, "model");
    assert_eq!(contents[0].1.len(), 2);
    let parts = &contents[1].1;
    assert_eq!(parts.len(), 4);
    assert_eq!(parts[0]["functionResponse"]["name"], "exec");
    assert_eq!(parts[1]["functionResponse"]["name"], "read");
    assert_eq!(parts[2]["text"], "继续");
    assert_eq!(parts[3]["text"], "还有");
}

#[test]
fn images_become_inline_data_parts() {
    let picture = ImagePart { media_type: "image/png".into(), data: "QUJD".into() };
    let messages = vec![Message { images: vec![picture], ..message(Role::User, "看图") }];
    let contents = contents(&messages);
    let parts = &contents[0].1;
    assert_eq!(parts[0]["inlineData"]["mimeType"], "image/png");
    assert_eq!(parts[0]["inlineData"]["data"], "QUJD");
    assert_eq!(parts[1]["text"], "看图");
}

#[test]
fn schema_sanitize_removes_forbidden_keys_recursively() {
    let tool = ToolDefinition {
        name: "exec".into(),
        description: "运行命令".into(),
        parameters: parse(
            r##"{
            "$schema": "http://json-schema.org/draft-07/schema#",
            "type": "object",
            "properties": {
                "command": { "type": "string", "default": "ls", "examples": ["ls"] },
                "env": { "$ref": "#/$defs/env" },
                "mode": { "const": "safe" }
            },
            "$defs": { "env": { "type": "object", "properties": { "PATH": { "type": "string", "default": "/bin" } } } }
        }"##,
        ),
    };
    let request = value(&build_request("m", "p", &vec![Message::user("x")], &vec![tool]));
    let parameters = request["request"]["tools"][0]["functionDeclarations"][0]["parameters"].clone();
    assert_eq!(parameters["$schema"], Value::Null);
    assert_eq!(parameters["$defs"], Value::Null);
    assert_eq!(parameters["properties"]["command"]["default"], Value::Null);
    assert_eq!(parameters["properties"]["command"]["examples"], Value::Null);
    assert_eq!(parameters["properties"]["env"]["$ref"], Value::Null);
    assert_eq!(parameters["properties"]["mode"]["const"], Value::Null);
    assert_eq!(parameters["properties"]["command"]["type"], "string");
    assert_eq!(parameters["type"], "object");
}

#[test]
fn cleaning_a_clean_schema_changes_nothing() {
    let schema = parse(r#"{"type":"object","properties":{"a":{"type":"array","items":[{"type":"string"},1,null]}}}"#);
    assert_eq!(value(&sanitize_schema(&schema)), value(&schema));
}

fn loaded(text: &str) -> LoadResponse {
    let v: Value = serde_json::from_str(text).unwrap();
    LoadResponse {
        project: v.get("cloudaicompanionProject").map(json),
        has_tier: v.get("currentTier").is_some(),
        allowed_tiers: v
            .get("allowedTiers")
            .and_then(Value::as_array)
            .cloned()
            .unwrap_or_default()
            .iter()
            .map(|t| AllowedTier {
                id: text_of(t.get("id")),
                is_default: t.get("isDefault").and_then(Value::as_bool).unwrap_or(false),
            })
            .collect(),
    }
}

fn operation(text: &str) -> Lro {
    let v: Value = serde_json::from_str(text).unwrap();
    Lro {
        name: text_of(v.get("name")),
        done: v.get("done").and_then(Value::as_bool).unwrap_or(false),
        response: v.get("response").map(json),
    }
}

#[test]
fn discover_project_accepts_string_form() {
    let body = loaded(r#"{"cloudaicompanionProject":"proj-string","currentTier":{"id":"free"}}"#);
    assert!(matches!(on_loaded(&body), Loaded::Project(p) if p == "proj-string"));
}

#[test]
fn discover_project_accepts_object_form() {
    let body = loaded(r#"{"cloudaicompanionProject":{"id":"proj-object"}}"#);
    assert!(matches!(on_loaded(&body), Loaded::Project(p) if p == "proj-object"));
}

#[test]
fn discover_project_onboards_and_polls_lro() {
    let body = loaded(r#"{"allowedTiers":[{"id":"free-tier","isDefault":true}]}"#);
    assert!(matches!(on_loaded(&body), Loaded::Onboard(t) if t == "free-tier"));
    let request = onboard_request("https://base/", "tok", Flavor::GeminiCli, "free-tier");
    assert_eq!(request.url, "https://base/v1internal:onboardUser");
    assert_eq!(value(&request.body)["tierId"], "free-tier");
    let first = operation(r#"{"name":"operations/op1","done":false}"#);
    assert!(matches!(on_polled(&first, 0), Polled::Again(name) if name == "operations/op1"));
    assert_eq!(poll_url("https://base/", "operations/op1"), "https://base/v1internal/operations/op1");
    let second = operation(
        r#"{"name":"operations/op1","done":true,"response":{"cloudaicompanionProject":{"id":"proj-onboarded"}}}"#,
    );
    assert!(matches!(on_polled(&second, 1), Polled::Project(p) if p == "proj-onboarded"));
    let mut cache = ProjectCache::new();
    assert_eq!(cache.get("token-onboard-flow"), None);
    cache.put("token-onboard-flow", "proj-onboarded");
    assert_eq!(cache.get("token-onboard-flow"), Some("proj-onboarded".to_string()));
    assert_eq!(cache.get("another-token"), None);
}

#[test]
fn discover_project_errors_without_project_or_default_tier() {
    let body = loaded(r#"{"currentTier":{"id":"free"}}"#);
    assert!(matches!(on_loaded(&body), Loaded::Failed(e) if e.contains("no project id")));
}

#[test]
fn polling_gives_up() {
    let open = operation(r#"{"name":"operations/op1"}"#);
    assert!(matches!(on_polled(&open, 11), Polled::Again(_)));
    assert!(matches!(on_polled(&open, 12), Polled::Failed(e) if e == "gemini onboardUser did not finish after polling"));
    assert!(matches!(
        on_polled(&operation("{}"), 0),
        Polled::Lost(e) if e == "gemini onboardUser LRO missing operation name"
    ));
    assert!(matches!(
        on_polled(&operation(r#"{"done":true}"#), 0),
        Polled::Failed(e) if e == "gemini onboardUser finished without project id"
    ));
}

#[test]
fn tokens_are_cached_by_their_digest() {
    // The digest of "abc" begins with these bytes.
    assert_eq!(cache_key("abc"), "ba7816bf8f01cfea");
}

#[test]
fn requests_go_to_the_base_without_its_slash() {
    let provider = GeminiProvider::new("https://base/".into(), "tok".into(), "proj".into());
    let request = provider.request("m", &vec![Message::user("hi")], &vec![]);
    assert_eq!(request.url, "https://base/v1internal:streamGenerateContent?alt=sse");
    assert_eq!(value(&request.body)["project"], "proj");
    let load = load_request("https://base/", "tok", Flavor::Antigravity);
    assert_eq!(load.url, "https://base/v1internal:loadCodeAssist");
    assert_eq!(value(&client_metadata(Flavor::Antigravity))["ideType"], "ANTIGRAVITY");
}

#[test]
fn counts_are_added_up_only_beside_a_prompt() {
    let counted = |prompt: Option<u64>| StreamEnvelope {
        response: Some(StreamResponse {
            candidates: vec![],
            usage_metadata: Some(UsageMetadata {
                prompt_token_count: prompt,
                candidates_token_count: Some(u64::MAX),
                thoughts_token_count: Some(1),
            }),
        }),
    };
    assert!(is_countable(&counted(None)) && !is_countable(&counted(Some(1))));
    assert!(is_countable(&StreamEnvelope { response: None }));
    let mut queue = DeltaQueue::new();
    assert!(!queue_data(&mut queue, None, Ok(counted(None))));
    assert!(queue.queued.is_empty());
}
