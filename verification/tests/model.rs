//! Requests to and replies of the model services.

use kivio_chat::json::Json;
use kivio_chat::model::anthropic;
use kivio_chat::model::anthropic::{
    anthropic_messages_from_generate_request, assemble_tool_call_from_stream,
    merge_consecutive_anthropic_roles, output_from_anthropic_message, parse_anthropic_sse_event,
    AnthropicMessagesProvider, AnthropicSseEvent, AnthropicStream, StreamEnd,
};
use kivio_chat::model::gemini::{
    gemini_contents_from_generate_request, gemini_url, output_from_gemini_response, GeminiProvider,
    GeminiStream,
};
use kivio_chat::model::messages::{
    model_message_from_openai_message, openai_messages_from_model_message, parse_data_image_url,
    parse_tool_arguments, pending_tool_calls_from_openai_message,
    responses_input_from_model_messages, tool_arguments_to_raw,
};
use kivio_chat::model::openai::{
    append_chat_stream_text, finish_tool_call_partials, handle_openai_stream_tool_calls,
    output_from_chat_completion, ChatStreamTextMode, OpenAiChatProvider, OpenAiStream,
};
use kivio_chat::model::responses::{
    handle_responses_stream_event, output_from_responses, OpenAiResponsesProvider,
    ResponsesStream, ResponsesStreamState,
};
use kivio_chat::model::types::{
    stream_read_error, GenerateOptions, GenerateOutput, GenerateRequest, MessagePart, ModelError,
    ModelErrorKind, ModelMessage, ModelRole, ModelTool, RequestMetadata, StreamFault, StreamPart,
};
use kivio_chat::model_call::{
    call_chat_completion_message, chat_missing_model_error, completion_request,
    format_chat_missing_api_key_error, generate_with_chat_provider, provider_call, MISSING_MODEL,
};
use kivio_chat::model::types::GenerateRequestContext;
use kivio_chat::settings::ModelProvider;

fn json(text: &str) -> Json {
    Json::parse(text).expect("valid JSON")
}

/// The value at a path such as `content/0/type`.
fn at<'a>(value: &'a Json, path: &str) -> Option<&'a Json> {
    let mut here = value;
    for step in path.split('/') {
        here = match step.parse::<usize>() {
            Ok(i) => here.item(i)?,
            Err(_) => here.get(step)?,
        };
    }
    Some(here)
}

fn text_at<'a>(value: &'a Json, path: &str) -> Option<&'a str> {
    at(value, path).and_then(|v| v.as_str())
}

fn provider(api_format: &str, base_url: &str) -> ModelProvider {
    ModelProvider {
        id: "test".to_string(),
        name: "Test".to_string(),
        api_keys: vec!["sk-test".to_string()],
        base_url: base_url.to_string(),
        available_models: vec!["opus-4-8".to_string()],
        enabled_models: vec!["opus-4-8".to_string()],
        supports_tools: true,
        enabled: true,
        api_format: api_format.to_string(),
        model_overrides: Vec::new(),
        compress_request_body: false,
    }
}

fn metadata() -> RequestMetadata {
    RequestMetadata {
        label: String::new(),
        usage_source: None,
        usage_operation: None,
        conversation_id: None,
        message_id: None,
    }
}

fn options() -> GenerateOptions {
    GenerateOptions::with_temperature(json("0.7"))
}

fn request(system: &str, messages: Vec<ModelMessage>, tools: Vec<ModelTool>) -> GenerateRequest {
    GenerateRequest {
        model: "opus-4-8".to_string(),
        system: system.to_string(),
        messages,
        tools,
        options: options(),
        metadata: metadata(),
    }
}

fn tool(name: &str, schema: &str) -> ModelTool {
    ModelTool {
        id: format!("native__{name}"),
        name: name.to_string(),
        description: "find files".to_string(),
        source: "native".to_string(),
        server_id: None,
        server_name: None,
        input_schema: json(schema),
        sensitive: false,
    }
}

fn tool_call(id: &str, name: &str, raw: &str, signature: Option<&str>) -> ModelMessage {
    ModelMessage {
        role: ModelRole::Assistant,
        content: vec![MessagePart::ToolCall {
            id: id.to_string(),
            name: name.to_string(),
            arguments: json(raw),
            arguments_raw: raw.to_string(),
            signature: signature.map(|s| s.to_string()),
        }],
    }
}

fn tool_result(id: &str, content: &str) -> ModelMessage {
    ModelMessage {
        role: ModelRole::Tool,
        content: vec![MessagePart::ToolResult {
            tool_call_id: id.to_string(),
            content: content.to_string(),
            is_error: false,
            artifacts: Vec::new(),
        }],
    }
}

// ---------------------------------------------------------------------
// Messages
// ---------------------------------------------------------------------

#[test]
fn model_error_kind_marks_stream_read_interrupts_without_message_matching() {
    let stream_error = ModelError::with_kind(
        "temporary stream failure",
        ModelErrorKind::StreamReadInterrupted,
    );
    let generic_error = ModelError::new("temporary stream failure");

    assert!(stream_error.is_stream_read_interrupted());
    assert!(!generic_error.is_stream_read_interrupted());
}

#[test]
fn pending_tool_calls_accept_string_and_object_arguments() {
    let string_msg = json(
        r#"{"tool_calls":[{"id":"call_1","function":{"name":"web_search","arguments":"{\"query\":\"a\"}"}}]}"#,
    );
    let calls = pending_tool_calls_from_openai_message(&string_msg);
    assert_eq!(calls[0].arguments.get_str("query"), Some("a"));
    assert!(calls[0].arguments_parse_error.is_none());

    let object_msg = json(
        r#"{"tool_calls":[{"id":"call_2","function":{"name":"web_search","arguments":{"query":"b"}}}]}"#,
    );
    let calls = pending_tool_calls_from_openai_message(&object_msg);
    assert_eq!(calls[0].arguments.get_str("query"), Some("b"));
    assert!(calls[0].arguments_parse_error.is_none());

    let null_msg = json(
        r#"{"tool_calls":[{"id":"call_3","function":{"name":"web_search","arguments":null}}]}"#,
    );
    let calls = pending_tool_calls_from_openai_message(&null_msg);
    assert_eq!(calls[0].arguments_raw, "{}");
    assert!(calls[0].arguments_parse_error.is_none());
}

#[test]
fn arguments_that_are_no_json_are_reported() {
    let (arguments, error) = parse_tool_arguments("{\"query\":");
    assert!(error.is_some());
    assert!(arguments.is_null());
    let (arguments, error) = parse_tool_arguments("{\"n\":3}");
    assert!(error.is_none());
    assert_eq!(arguments.get_u64("n"), Some(3));
    assert_eq!(tool_arguments_to_raw(None), "{}");
    assert_eq!(tool_arguments_to_raw(Some(&json("{\"n\": 3}"))), "{\"n\":3}");
}

#[test]
fn responses_input_maps_tool_call_and_result_to_items() {
    let messages = vec![
        ModelMessage::text(ModelRole::User, "明天吉林市天气？"),
        tool_call("call_1", "web_search", "{\"query\":\"吉林市 明天 天气\"}", None),
        tool_result("call_1", "多云转晴 16-24℃"),
    ];
    let items = responses_input_from_model_messages(&messages);

    assert_eq!(text_at(&items[0], "role"), Some("user"));
    assert_eq!(text_at(&items[0], "content/0/type"), Some("input_text"));
    assert_eq!(text_at(&items[0], "content/0/text"), Some("明天吉林市天气？"));
    assert_eq!(text_at(&items[1], "type"), Some("function_call"));
    assert_eq!(text_at(&items[1], "call_id"), Some("call_1"));
    assert_eq!(text_at(&items[1], "name"), Some("web_search"));
    assert_eq!(
        text_at(&items[1], "arguments"),
        Some("{\"query\":\"吉林市 明天 天气\"}")
    );
    assert_eq!(text_at(&items[2], "type"), Some("function_call_output"));
    assert_eq!(text_at(&items[2], "call_id"), Some("call_1"));
    assert_eq!(text_at(&items[2], "output"), Some("多云转晴 16-24℃"));
    assert_eq!(items.len(), 3);
}

#[test]
fn responses_input_maps_user_image_to_input_image() {
    let messages = vec![ModelMessage {
        role: ModelRole::User,
        content: vec![
            MessagePart::ImageUrl { url: "data:image/png;base64,AAAA".to_string() },
            MessagePart::Text { text: "what is this?".to_string() },
        ],
    }];
    let items = responses_input_from_model_messages(&messages);
    assert_eq!(items.len(), 1);
    assert_eq!(text_at(&items[0], "content/0/type"), Some("input_image"));
    assert_eq!(
        text_at(&items[0], "content/0/image_url"),
        Some("data:image/png;base64,AAAA")
    );
    assert_eq!(text_at(&items[0], "content/1/type"), Some("input_text"));
}

#[test]
fn messages_survive_the_way_there_and_back() {
    let message = json(
        r#"{"role":"assistant","content":"hi","tool_calls":[{"id":"c1","type":"function","function":{"name":"glob","arguments":"{\"p\":1}"}}]}"#,
    );
    let canonical = model_message_from_openai_message(&message).expect("message");
    assert_eq!(canonical.content.len(), 2);
    let back = openai_messages_from_model_message(&canonical);
    assert_eq!(back.len(), 1);
    assert_eq!(text_at(&back[0], "role"), Some("assistant"));
    assert_eq!(text_at(&back[0], "content"), Some("hi"));
    assert_eq!(text_at(&back[0], "tool_calls/0/id"), Some("c1"));
    assert_eq!(text_at(&back[0], "tool_calls/0/function/arguments"), Some("{\"p\":1}"));
    assert!(model_message_from_openai_message(&json(r#"{"role":"system","content":"x"}"#)).is_none());
}

#[test]
fn image_urls_with_data_are_split() {
    assert_eq!(
        parse_data_image_url("data:image/png;base64,AAAA"),
        Some(("image/png".to_string(), "AAAA".to_string()))
    );
    assert_eq!(parse_data_image_url("https://example.com/a.png"), None);
}

#[test]
fn stream_faults_say_whether_they_can_be_resumed() {
    let interrupted = stream_read_error(
        "Chat",
        StreamFault { timeout: true, connect: false, decode: false },
    );
    assert!(interrupted.is_stream_read_interrupted());
    assert!(interrupted.message.contains("Chat"));
}

// ---------------------------------------------------------------------
// Chat completions
// ---------------------------------------------------------------------

#[test]
fn parses_text_reasoning_and_tool_calls() {
    let value = json(
        r#"{"choices":[{"finish_reason":"tool_calls","message":{"role":"assistant","content":"I'll call a tool.","reasoning_content":"Need data.","tool_calls":[{"id":"call_1","type":"function","function":{"name":"web_search","arguments":"{\"query\":\"kivio\"}"}}]}}],"usage":{"prompt_tokens":3,"completion_tokens":5,"total_tokens":8}}"#,
    );
    let output = output_from_chat_completion(&value, "{}", "test").expect("output");

    assert_eq!(output.text, "I'll call a tool.");
    assert_eq!(output.reasoning.as_deref(), Some("Need data."));
    assert_eq!(output.tool_calls.len(), 1);
    assert_eq!(output.tool_calls[0].function_name, "web_search");
    assert_eq!(output.usage.as_ref().and_then(|usage| usage.total_tokens), Some(8));
    assert_eq!(output.finish_reason.as_deref(), Some("tool_calls"));
}

#[test]
fn stream_tool_call_chunks_become_stream_parts() {
    let mut parts = Vec::new();
    let mut partials = Vec::new();
    let start = json(
        r#"{"choices":[{"delta":{"tool_calls":[{"index":0,"id":"call_1","function":{"name":"web_search","arguments":"{\"q\""}}]}}]}"#,
    );
    let next = json(
        r#"{"choices":[{"delta":{"tool_calls":[{"index":0,"function":{"arguments":":\"rust\"}"}}]}}]}"#,
    );

    handle_openai_stream_tool_calls(&start, &mut partials, &mut parts);
    handle_openai_stream_tool_calls(&next, &mut partials, &mut parts);
    let calls = finish_tool_call_partials(&partials, &mut parts);

    assert_eq!(calls.len(), 1);
    assert_eq!(calls[0].arguments.get_str("q"), Some("rust"));
    assert!(matches!(parts[0], StreamPart::ToolCallStart { .. }));
    assert!(matches!(parts.last(), Some(StreamPart::ToolCallDone { .. })));
}

#[test]
fn stream_tool_call_accepts_object_form_arguments() {
    let mut parts = Vec::new();
    let mut partials = Vec::new();
    let chunk = json(
        r#"{"choices":[{"delta":{"tool_calls":[{"index":0,"id":"call_1","function":{"name":"web_search","arguments":{"query":"吉林市 明天 天气"}}}]}}]}"#,
    );

    handle_openai_stream_tool_calls(&chunk, &mut partials, &mut parts);
    let calls = finish_tool_call_partials(&partials, &mut parts);

    assert_eq!(calls.len(), 1);
    assert_eq!(calls[0].function_name, "web_search");
    assert_eq!(calls[0].arguments.get_str("query"), Some("吉林市 明天 天气"));
    assert!(calls[0].arguments_parse_error.is_none());
}

#[test]
fn stream_tool_call_replays_arguments_buffered_before_start() {
    let mut parts = Vec::new();
    let mut partials = Vec::new();
    let early_arguments = json(
        r#"{"choices":[{"delta":{"tool_calls":[{"index":0,"function":{"arguments":"{\"path\":\"demo.txt\""}}]}}]}"#,
    );
    let delayed_start = json(
        r#"{"choices":[{"delta":{"tool_calls":[{"index":0,"id":"call_delayed","function":{"name":"write_file"}}]}}]}"#,
    );
    let final_arguments = json(
        r#"{"choices":[{"delta":{"tool_calls":[{"index":0,"function":{"arguments":",\"content\":\"ok\"}"}}]}}]}"#,
    );

    handle_openai_stream_tool_calls(&early_arguments, &mut partials, &mut parts);
    assert!(parts.is_empty());
    handle_openai_stream_tool_calls(&delayed_start, &mut partials, &mut parts);
    handle_openai_stream_tool_calls(&final_arguments, &mut partials, &mut parts);
    let calls = finish_tool_call_partials(&partials, &mut parts);

    assert_eq!(calls.len(), 1);
    assert_eq!(calls[0].id, "call_delayed");
    assert_eq!(calls[0].arguments.get_str("content"), Some("ok"));
    assert!(matches!(parts[0], StreamPart::ToolCallStart { .. }));
    assert!(matches!(
        &parts[1],
        StreamPart::ToolCallDelta { delta, .. } if delta.contains("demo.txt")
    ));
    assert!(matches!(parts.last(), Some(StreamPart::ToolCallDone { .. })));
}

#[test]
fn snapshots_give_only_what_is_new() {
    let mut full = "Hel".to_string();
    assert_eq!(
        append_chat_stream_text(&mut full, "Hello", ChatStreamTextMode::Snapshot),
        Some("lo".to_string())
    );
    assert_eq!(full, "Hello");
    assert_eq!(
        append_chat_stream_text(&mut full, "!", ChatStreamTextMode::Delta),
        Some("!".to_string())
    );
    assert_eq!(full, "Hello!");
}

#[test]
fn chat_stream_is_read_across_chunk_borders() {
    let mut stream = OpenAiStream::new();
    let (parts, done) =
        stream.feed("data: {\"choices\":[{\"delta\":{\"content\":\"He\"}}]}\n\ndata: {\"choi");
    assert!(!done);
    assert_eq!(parts.len(), 1);
    let (parts, done) = stream.feed(
        "ces\":[{\"delta\":{\"content\":\"llo\"},\"finish_reason\":\"stop\"}]}\n\ndata: [DONE]\n\n",
    );
    assert!(done);
    assert_eq!(parts.len(), 1);
    let (output, _) = stream.finish();
    assert_eq!(output.text, "Hello");
    assert_eq!(output.finish_reason.as_deref(), Some("stop"));
}

#[test]
fn chat_request_goes_to_the_completions_of_the_provider() {
    let p = provider("openai_chat", "https://api.example.com/v1/");
    let adapter = OpenAiChatProvider::new(&p, 2);
    assert_eq!(adapter.chat_completions_url(), "https://api.example.com/v1/chat/completions");
    let body = adapter.request_body(
        &request("sys", vec![ModelMessage::text(ModelRole::User, "hi")], Vec::new()),
        true,
        false,
    );
    assert_eq!(text_at(&body, "model"), Some("opus-4-8"));
    assert_eq!(text_at(&body, "messages/0/role"), Some("system"));
    assert_eq!(text_at(&body, "messages/0/content"), Some("sys"));
    assert_eq!(text_at(&body, "messages/1/role"), Some("user"));
    assert_eq!(body.get_bool("stream"), Some(true));
}

#[test]
fn replies_without_choices_are_refused() {
    let error = output_from_chat_completion(&json("{}"), "{}", "test").err().expect("error");
    assert!(!error.message.is_empty());
}

// ---------------------------------------------------------------------
// Responses
// ---------------------------------------------------------------------

fn run_events(events: &[Json]) -> (Vec<StreamPart>, GenerateOutput) {
    let mut state = ResponsesStreamState::new();
    let mut parts = Vec::new();
    for event in events {
        assert!(handle_responses_stream_event(event, &mut state, &mut parts).is_none());
    }
    let (output, more) = state.finish();
    parts.extend(more);
    (parts, output)
}

#[test]
fn stream_function_call_arguments_are_captured() {
    let events = vec![
        json(r#"{"type":"response.output_item.added","output_index":1,"item":{"id":"fc_1","type":"function_call","status":"in_progress","arguments":"","call_id":"call_abc","name":"web_search"}}"#),
        json(r#"{"type":"response.function_call_arguments.done","arguments":"{\"query\":\"吉林市 明天 天气\"}","item_id":"fc_1","output_index":1}"#),
        json(r#"{"type":"response.output_item.done","output_index":1,"item":{"id":"fc_1","type":"function_call","status":"completed","arguments":"{\"query\":\"吉林市 明天 天气\"}","call_id":"call_abc","name":"web_search"}}"#),
        json(r#"{"type":"response.completed","response":{"status":"completed","usage":{"input_tokens":10,"output_tokens":5,"total_tokens":15}}}"#),
    ];
    let (parts, output) = run_events(&events);

    assert_eq!(output.tool_calls.len(), 1);
    let call = &output.tool_calls[0];
    assert_eq!(call.id, "call_abc");
    assert_eq!(call.function_name, "web_search");
    assert_eq!(call.arguments.get_str("query"), Some("吉林市 明天 天气"));
    assert!(call.arguments_parse_error.is_none());
    assert_eq!(output.finish_reason.as_deref(), Some("tool_calls"));
    assert_eq!(output.usage.and_then(|u| u.total_tokens), Some(15));
    assert!(parts.iter().any(|p| matches!(p, StreamPart::ToolCallStart { .. })));
    assert!(parts.iter().any(|p| matches!(p, StreamPart::ToolCallDone { .. })));
}

#[test]
fn stream_text_deltas_accumulate() {
    let events = vec![
        json(r#"{"type":"response.output_text.delta","delta":"你好"}"#),
        json(r#"{"type":"response.output_text.delta","delta":"，世界"}"#),
        json(r#"{"type":"response.completed","response":{"status":"completed"}}"#),
    ];
    let (parts, output) = run_events(&events);
    assert_eq!(output.text, "你好，世界");
    assert_eq!(output.finish_reason.as_deref(), Some("stop"));
    assert_eq!(
        parts.iter().filter(|p| matches!(p, StreamPart::TextDelta { .. })).count(),
        2
    );
}

#[test]
fn non_stream_output_parses_text_and_tool_call() {
    let value = json(
        r#"{"status":"completed","output":[{"type":"function_call","call_id":"call_x","name":"web_search","arguments":"{\"query\":\"a\"}"}],"usage":{"input_tokens":3,"output_tokens":2,"total_tokens":5}}"#,
    );
    let output = output_from_responses(&value, "{}", "test").expect("output");
    assert_eq!(output.tool_calls.len(), 1);
    assert_eq!(output.tool_calls[0].arguments.get_str("query"), Some("a"));
    assert_eq!(output.finish_reason.as_deref(), Some("tool_calls"));

    let text_value = json(
        r#"{"status":"completed","output":[{"type":"message","content":[{"type":"output_text","text":"hi"}]}]}"#,
    );
    let out = output_from_responses(&text_value, "{}", "test").expect("output");
    assert_eq!(out.text, "hi");
    assert_eq!(out.finish_reason.as_deref(), Some("stop"));
}

#[test]
fn responses_stream_is_read_across_chunk_borders() {
    let mut stream = ResponsesStream::new();
    let (parts, error) = stream.feed("data: {\"type\":\"response.output_text.del");
    assert!(parts.is_empty());
    assert!(error.is_none());
    let (parts, error) = stream.feed("ta\",\"delta\":\"ok\"}\n\n");
    assert_eq!(parts.len(), 1);
    assert!(error.is_none());
    let (output, _) = stream.state.finish();
    assert_eq!(output.text, "ok");
}

#[test]
fn responses_requests_carry_the_instructions() {
    let p = provider("openai_responses", "https://api.example.com/v1");
    let adapter = OpenAiResponsesProvider::new(&p, 1);
    assert_eq!(adapter.responses_url(), "https://api.example.com/v1/responses");
    let body = adapter.request_body(
        &request("sys", vec![ModelMessage::text(ModelRole::User, "hi")], Vec::new()),
        false,
    );
    assert_eq!(text_at(&body, "instructions"), Some("sys"));
    assert_eq!(text_at(&body, "input/0/content/0/text"), Some("hi"));
}

// ---------------------------------------------------------------------
// Anthropic
// ---------------------------------------------------------------------

#[test]
fn tool_result_and_following_image_user_merge_into_one_turn() {
    let messages = vec![
        json(r#"{"role":"user","content":[{"type":"tool_result","tool_use_id":"t1","content":"read it"}]}"#),
        json(r#"{"role":"user","content":[{"type":"image","source":{"type":"base64","media_type":"image/png","data":"AAAA"}}]}"#),
    ];
    let messages = merge_consecutive_anthropic_roles(&messages);

    assert_eq!(messages.len(), 1, "consecutive user turns must merge");
    assert_eq!(messages[0].get_array("content").map(|b| b.len()), Some(2));
    assert_eq!(text_at(&messages[0], "content/0/type"), Some("tool_result"));
    assert_eq!(text_at(&messages[0], "content/1/type"), Some("image"));
}

fn build_anthropic_body(thinking_level: Option<&str>) -> Json {
    let p = provider("anthropic_messages", "https://api.anthropic.com");
    let adapter = AnthropicMessagesProvider::new(&p, 1);
    let mut r = request("sys", vec![ModelMessage::text(ModelRole::User, "hi")], Vec::new());
    r.options.thinking_level = thinking_level.map(|s| s.to_string());
    adapter.request_body(&r, false)
}

#[test]
fn thinking_level_maps_to_adaptive_effort() {
    let none = build_anthropic_body(None);
    assert!(none.get("thinking").is_none());
    assert!(none.get("output_config").is_none());

    let high = build_anthropic_body(Some("high"));
    assert_eq!(text_at(&high, "thinking/type"), Some("adaptive"));
    assert_eq!(text_at(&high, "output_config/effort"), Some("high"));
    assert!(high.get("budget_tokens").is_none(), "must not send budget_tokens");
}

#[test]
fn canonical_text_image_and_tool_result_become_content_blocks() {
    let r = request(
        "system",
        vec![
            ModelMessage {
                role: ModelRole::User,
                content: vec![
                    MessagePart::Text { text: "Look".to_string() },
                    MessagePart::Image {
                        mime_type: "image/png".to_string(),
                        data: "abc".to_string(),
                    },
                ],
            },
            tool_result("toolu_1", "done"),
        ],
        Vec::new(),
    );

    let messages = anthropic_messages_from_generate_request(&r);

    assert_eq!(messages.len(), 1);
    assert_eq!(text_at(&messages[0], "role"), Some("user"));
    assert_eq!(text_at(&messages[0], "content/0/type"), Some("text"));
    assert_eq!(text_at(&messages[0], "content/1/source/type"), Some("base64"));
    assert_eq!(text_at(&messages[0], "content/2/type"), Some("tool_result"));
}

#[test]
fn canonical_assistant_tool_call_becomes_tool_use() {
    let r = request(
        "",
        vec![tool_call("toolu_1", "web_search", "{\"query\":\"rust\"}", None)],
        Vec::new(),
    );
    let messages = anthropic_messages_from_generate_request(&r);

    assert_eq!(text_at(&messages[0], "content/0/type"), Some("tool_use"));
    assert_eq!(text_at(&messages[0], "content/0/input/query"), Some("rust"));
}

#[test]
fn parses_anthropic_output_to_generate_output() {
    let response = json(
        r#"{"content":[{"type":"thinking","thinking":"Plan"},{"type":"text","text":"Answer"},{"type":"tool_use","id":"toolu_1","name":"web_search","input":{"query":"kivio"}}],"stop_reason":"tool_use","usage":{"input_tokens":7,"output_tokens":11}}"#,
    );
    let output = output_from_anthropic_message(&response, "test").expect("output");

    assert_eq!(output.text, "Answer");
    assert_eq!(output.reasoning.as_deref(), Some("Plan"));
    assert_eq!(output.tool_calls.len(), 1);
    assert_eq!(output.finish_reason.as_deref(), Some("tool_calls"));
    assert_eq!(output.usage.as_ref().and_then(|usage| usage.total_tokens), Some(18));
}

#[test]
fn parses_anthropic_stream_text_reasoning_and_tool_use() {
    let events = [
        "data: {\"type\":\"content_block_delta\",\"delta\":{\"type\":\"thinking_delta\",\"thinking\":\"Plan\"}}",
        "data: {\"type\":\"content_block_delta\",\"delta\":{\"type\":\"text_delta\",\"text\":\"Hello\"}}",
        "data: {\"type\":\"content_block_start\",\"content_block\":{\"type\":\"tool_use\",\"id\":\"toolu_123\",\"name\":\"web_search\",\"input\":{}}}",
        "data: {\"type\":\"content_block_delta\",\"delta\":{\"type\":\"input_json_delta\",\"partial_json\":\"{\\\"query\\\"\"}}",
        "data: {\"type\":\"content_block_delta\",\"delta\":{\"type\":\"input_json_delta\",\"partial_json\":\":\\\"kivio\\\"}\"}}",
        "data: {\"type\":\"content_block_stop\"}",
        "data: {\"type\":\"message_delta\",\"delta\":{\"stop_reason\":\"tool_use\"}}",
    ];

    assert!(matches!(
        parse_anthropic_sse_event(events[0]),
        Some(AnthropicSseEvent::ThinkingDelta(delta)) if delta == "Plan"
    ));
    assert!(matches!(
        parse_anthropic_sse_event(events[1]),
        Some(AnthropicSseEvent::TextDelta(delta)) if delta == "Hello"
    ));
    assert!(matches!(
        parse_anthropic_sse_event(events[2]),
        Some(AnthropicSseEvent::ToolUseStart { id, name })
            if id == "toolu_123" && name == "web_search"
    ));
    assert!(matches!(
        parse_anthropic_sse_event(events[5]),
        Some(AnthropicSseEvent::ContentBlockStop)
    ));
    assert!(matches!(
        parse_anthropic_sse_event(events[6]),
        Some(AnthropicSseEvent::MessageStopWithReason { reason, .. }) if reason == "tool_use"
    ));

    let input_parts = events[3..=4]
        .iter()
        .filter_map(|event| match parse_anthropic_sse_event(event) {
            Some(AnthropicSseEvent::ToolInputDelta(delta)) => Some(delta),
            _ => None,
        })
        .collect::<Vec<_>>();
    let call = assemble_tool_call_from_stream("toolu_123", "web_search", &input_parts);

    assert_eq!(call.function_name, "web_search");
    assert_eq!(call.arguments.get_str("query"), Some("kivio"));
    assert!(call.arguments_parse_error.is_none());
}

#[test]
fn anthropic_stream_ends_with_its_stop_event() {
    let mut stream = AnthropicStream::new();
    let (parts, end) = stream.feed(
        "data: {\"type\":\"content_block_delta\",\"delta\":{\"type\":\"text_delta\",\"text\":\"Hi\"}}\n",
    );
    assert_eq!(parts.len(), 1);
    assert!(matches!(end, StreamEnd::Open));
    let (_, end) = stream.feed("data: {\"type\":\"message_stop\"}\n");
    assert!(matches!(end, StreamEnd::Done));
    let (output, _) = stream.finish();
    assert_eq!(output.text, "Hi");

    let mut stream = AnthropicStream::new();
    let (_, end) =
        stream.feed("data: {\"type\":\"error\",\"error\":{\"message\":\"overloaded\"}}\n");
    assert!(matches!(end, StreamEnd::Failed(message) if message.contains("overloaded")));
}

#[test]
fn anthropic_tools_carry_their_schema() {
    let tools = vec![tool("glob", r#"{"type":"object","properties":{}}"#)];
    let described = anthropic::anthropic_tools_from_model_tools(&tools);
    assert_eq!(text_at(&described[0], "name"), Some("glob"));
    assert_eq!(text_at(&described[0], "input_schema/type"), Some("object"));
    assert!(anthropic::can_describe_tools(&tools));
    let odd = vec![tool("odd", r#"{"anyOf":[{"type":"null"},"text"],"description":"d"}"#)];
    assert!(!anthropic::can_describe_tools(&odd));
    assert_eq!(
        anthropic::anthropic_messages_url("https://api.anthropic.com/v1/"),
        "https://api.anthropic.com/v1/messages"
    );
}

// ---------------------------------------------------------------------
// Gemini
// ---------------------------------------------------------------------

#[test]
fn url_builds_generate_and_stream_and_dedupes_models_prefix() {
    let base = "https://generativelanguage.googleapis.com/v1beta/";
    assert_eq!(
        gemini_url(base, "gemini-3.1-flash-lite", false),
        "https://generativelanguage.googleapis.com/v1beta/models/gemini-3.1-flash-lite:generateContent"
    );
    assert_eq!(
        gemini_url(base, "models/gemini-3.1-flash-lite", true),
        "https://generativelanguage.googleapis.com/v1beta/models/gemini-3.1-flash-lite:streamGenerateContent?alt=sse"
    );
}

#[test]
fn request_body_shape_and_no_openai_specific_fields() {
    let r = request(
        "sys",
        vec![ModelMessage::text(ModelRole::User, "hi")],
        vec![tool(
            "glob",
            r#"{"type":"object","$schema":"http://json-schema.org/draft-07/schema#","additionalProperties":false,"properties":{"pattern":{"type":"string"}},"required":["pattern"]}"#,
        )],
    );
    let p = provider("gemini", "https://generativelanguage.googleapis.com/v1beta");
    let body = GeminiProvider::new(&p, 1).request_body(&r);
    assert_eq!(text_at(&body, "systemInstruction/parts/0/text"), Some("sys"));
    assert_eq!(text_at(&body, "contents/0/role"), Some("user"));
    assert_eq!(text_at(&body, "contents/0/parts/0/text"), Some("hi"));
    assert_eq!(
        at(&body, "generationConfig/maxOutputTokens").and_then(|v| v.as_u64()),
        Some(8192)
    );
    assert_eq!(text_at(&body, "toolConfig/functionCallingConfig/mode"), Some("AUTO"));
    let decl = at(&body, "tools/0/functionDeclarations/0").expect("declaration");
    assert_eq!(text_at(decl, "name"), Some("glob"));
    assert!(at(decl, "parameters").expect("parameters").get("$schema").is_none());
    assert!(at(decl, "parameters/additionalProperties").is_none());
    assert_eq!(text_at(decl, "parameters/properties/pattern/type"), Some("string"));
    assert!(body.get("promptCacheKey").is_none());
    assert!(body.get("prompt_cache_key").is_none());
    assert!(body.get("tool_choice").is_none());
    assert!(body.get("stream_options").is_none());
    assert!(body.get("model").is_none());
}

#[test]
fn tool_round_trip_maps_functioncall_and_functionresponse_by_name() {
    let r = request(
        "",
        vec![
            tool_call("call_abc", "glob", "{\"pattern\":\"*.rs\"}", Some("SIG123")),
            tool_result("call_abc", "found 5 files"),
        ],
        Vec::new(),
    );
    let contents = gemini_contents_from_generate_request(&r);
    assert_eq!(text_at(&contents[0], "role"), Some("model"));
    assert_eq!(text_at(&contents[0], "parts/0/functionCall/name"), Some("glob"));
    assert_eq!(text_at(&contents[0], "parts/0/functionCall/args/pattern"), Some("*.rs"));
    assert_eq!(text_at(&contents[0], "parts/0/thoughtSignature"), Some("SIG123"));
    assert_eq!(text_at(&contents[1], "role"), Some("user"));
    assert_eq!(text_at(&contents[1], "parts/0/functionResponse/name"), Some("glob"));
    assert_eq!(
        text_at(&contents[1], "parts/0/functionResponse/response/output"),
        Some("found 5 files")
    );
}

#[test]
fn parses_gemini_response_text_and_finish() {
    let response = json(
        r#"{"candidates":[{"content":{"role":"model","parts":[{"text":"收到"},{"text":"","thoughtSignature":"abc"}]},"finishReason":"STOP"}],"usageMetadata":{"promptTokenCount":9449,"candidatesTokenCount":7,"totalTokenCount":9456}}"#,
    );
    let out = output_from_gemini_response(&response, "test").expect("output");
    assert_eq!(out.text, "收到");
    assert_eq!(out.finish_reason.as_deref(), Some("stop"));
    assert!(out.tool_calls.is_empty());
    assert_eq!(out.usage.as_ref().and_then(|u| u.total_tokens), Some(9456));
    assert_eq!(out.usage.as_ref().and_then(|u| u.input_tokens), Some(9449));
}

#[test]
fn parses_gemini_response_functioncall_forces_tool_calls_finish() {
    let response = json(
        r#"{"candidates":[{"content":{"role":"model","parts":[{"functionCall":{"name":"glob","args":{"pattern":"*.rs"}}}]},"finishReason":"STOP"}]}"#,
    );
    let out = output_from_gemini_response(&response, "test").expect("output");
    assert_eq!(out.tool_calls.len(), 1);
    assert_eq!(out.tool_calls[0].function_name, "glob");
    assert_eq!(out.tool_calls[0].arguments.get_str("pattern"), Some("*.rs"));
    assert!(out.tool_calls[0].id.starts_with("call_"));
    assert_eq!(out.finish_reason.as_deref(), Some("tool_calls"));
}

#[test]
fn gemini_stream_gathers_the_texts() {
    let mut stream = GeminiStream::new();
    let (parts, end) = stream.feed(
        "data: {\"candidates\":[{\"content\":{\"parts\":[{\"text\":\"He\"}]}}]}\n\ndata: {\"candidates\":[{\"content\":{\"parts\":[{\"text\":\"y\"}]},\"finishReason\":\"STOP\"}]}\n\n",
    );
    assert_eq!(parts.len(), 2);
    assert!(!matches!(end, StreamEnd::Failed(_)));
    let (output, _) = stream.finish();
    assert_eq!(output.text, "Hey");
    assert_eq!(output.finish_reason.as_deref(), Some("stop"));
}

// ---------------------------------------------------------------------
// Calls
// ---------------------------------------------------------------------

#[test]
fn calls_go_the_way_that_the_provider_is_spoken_to() {
    let r = request("sys", vec![ModelMessage::text(ModelRole::User, "hi")], Vec::new());
    let cases = [
        ("openai_chat", "https://x.test/v1/chat/completions", "messages"),
        ("anthropic_messages", "https://x.test/v1/messages", "messages"),
        ("openai_responses", "https://x.test/v1/responses", "input"),
        ("gemini", "https://x.test/v1/models/opus-4-8:generateContent", "contents"),
    ];
    for (format, url, key) in cases {
        let p = provider(format, "https://x.test/v1");
        let (to, body) = provider_call(&p, 1, &r, false);
        assert_eq!(to, url);
        assert!(body.get(key).is_some(), "{format}");
    }
}

#[test]
fn replies_are_read_the_way_that_the_provider_speaks() {
    let cases = [
        ("openai_chat", r#"{"choices":[{"message":{"role":"assistant","content":"hello"}}]}"#),
        ("anthropic_messages", r#"{"content":[{"type":"text","text":"hello"}]}"#),
        (
            "openai_responses",
            r#"{"status":"completed","output":[{"type":"message","content":[{"type":"output_text","text":"hello"}]}]}"#,
        ),
        ("gemini", r#"{"candidates":[{"content":{"parts":[{"text":"hello"}]}}]}"#),
    ];
    for (format, raw) in cases {
        let p = provider(format, "https://x.test/v1");
        let output = generate_with_chat_provider(&p, raw, "Chat").expect("output");
        assert_eq!(output.text, "hello", "{format}");
        let message = call_chat_completion_message(&p, raw, "Chat").expect("message");
        assert_eq!(message.get_str("role"), Some("assistant"));
        assert_eq!(message.get_str("content"), Some("hello"));
        let error = call_chat_completion_message(&p, "not json", "Chat").err().expect("error");
        assert!(error.contains("Chat"), "{error}");
    }
}

#[test]
fn completion_requests_hold_the_system_text_apart() {
    let messages = vec![
        json(r#"{"role":"system","content":"be brief"}"#),
        json(r#"{"role":"user","content":"hi"}"#),
    ];
    let r = completion_request(
        "m",
        &messages,
        &Vec::new(),
        json("0.2"),
        false,
        "Title",
        GenerateRequestContext::new(Some("conv"), None),
    );
    assert_eq!(r.system, "be brief");
    assert_eq!(r.messages.len(), 1);
    assert!(!r.options.thinking_enabled);
    assert_eq!(r.metadata.conversation_id.as_deref(), Some("conv"));
}

#[test]
fn missing_keys_and_models_are_named() {
    assert_eq!(
        format_chat_missing_api_key_error(" OpenAI "),
        "Chat 模型供应商「OpenAI」缺少 API Key，请到设置 > 模型中填写后再发送。"
    );
    assert_eq!(
        format_chat_missing_api_key_error("  "),
        "Chat 模型供应商缺少 API Key，请到设置 > 模型中填写后再发送。"
    );
    assert_eq!(chat_missing_model_error(), MISSING_MODEL);
}

#[test]
fn only_text_parts_make_the_text() {
    let message = ModelMessage {
        role: ModelRole::Assistant,
        content: vec![
            MessagePart::Text { text: "one".to_string() },
            MessagePart::Reasoning { text: "hidden".to_string() },
            MessagePart::Text { text: "two".to_string() },
        ],
    };
    assert_eq!(message.text_content(), "one\ntwo");
}

#[test]
fn identifiers_by_chance_begin_as_they_should() {
    let message = json(r#"{"role":"assistant","tool_calls":[{"function":{"name":"f","arguments":"{}"}}]}"#);
    let calls = pending_tool_calls_from_openai_message(&message);
    assert!(calls[0].id.starts_with("tool_") && calls[0].id.len() > 5);
    let reply = json(
        r#"{"candidates":[{"content":{"parts":[{"functionCall":{"name":"f","args":{}}}]}}]}"#,
    );
    let output = output_from_gemini_response(&reply, "Gemini").unwrap();
    assert!(output.tool_calls[0].id.starts_with("call_") && output.tool_calls[0].id.len() > 5);
}

#[test]
fn the_later_of_two_fields_is_written() {
    let mut o = kivio_chat::json::Object::new();
    o.set("a", Json::unsigned(1));
    o.set("b", Json::Null);
    o.set("a", Json::unsigned(2));
    assert_eq!(Json::Object(o).to_text(), r#"{"a":2,"b":null}"#);
}
