//! Generated images, images of tools, and what is known of models.

use base64::{engine::general_purpose, Engine as _};

use kivio_chat::codec::{hex_of, sha256_hex};
use kivio_chat::image_generation::{
    decoded_base64_len, extension_for_mime, fetched_image, has_known_direct_image_generation_route,
    image_generation_target, image_result, is_openrouter_base_url, openrouter_aspect_ratio,
    openrouter_modalities, parse_image_data_url, parse_images_api_response,
    parse_openrouter_response, parse_reply, parse_request, prepare_image_call, size_aspect_ratio,
    uses_gpt_image_api_model, uses_xai_images_api, validate_base64_image, validate_provider,
    Download, ImagesReply,
};
use kivio_chat::json::Json;
use kivio_chat::mcp_image_feedback::{
    append_tool_result_note, data_url_image_part, image_extension_for_mime,
    select_image_artifacts_for_attach,
};
use kivio_chat::model_metadata::{
    chat_max_output_tokens_for_model, context_window_for_model, image_generation_model_for_session,
    model_can_generate_images_directly, model_supports_image_generation, model_supports_vision,
    pricing_for_model, reasoning_efforts_for_model, ModelDatabase, FALLBACK_CONTEXT_WINDOW_TOKENS,
};
use kivio_chat::settings::{ModelChoice, ModelInfo, ModelProvider};
use kivio_chat::types::{ChatToolArtifact, McpToolCallResult};

fn json(text: &str) -> Json {
    Json::parse(text).expect("valid JSON")
}

fn provider(base_url: &str) -> ModelProvider {
    ModelProvider {
        id: "openai".to_string(),
        name: "OpenAI".to_string(),
        api_keys: Vec::new(),
        base_url: base_url.to_string(),
        available_models: Vec::new(),
        enabled_models: Vec::new(),
        supports_tools: true,
        enabled: true,
        api_format: "openai_chat".to_string(),
        model_overrides: Vec::new(),
        compress_request_body: false,
    }
}

fn with_key(base_url: &str) -> ModelProvider {
    ModelProvider { api_keys: vec!["sk-test".to_string()], ..provider(base_url) }
}

fn with_override(model: &str, info: ModelInfo) -> ModelProvider {
    ModelProvider {
        model_overrides: vec![(model.to_string(), info)],
        ..with_key("https://api.example.com/v1")
    }
}

fn database() -> ModelDatabase {
    ModelDatabase::parse(
        r#"{
            "_meta": {"version": 1},
            "deepseek-v4-flash": {"contextWindow": 1048576, "maxOutput": 131072, "reasoningEfforts": ["low","medium","high","xhigh","max"]},
            "gpt-5.5": {"reasoningEfforts": ["low","medium","high","xhigh"]},
            "gemma4": {"reasoningEfforts": ["low","medium","high","max"]}
        }"#,
        vec!["opus".to_string()],
    )
}

// ---------------------------------------------------------------------
// Generating images
// ---------------------------------------------------------------------

#[test]
fn parses_openrouter_image_data_url() {
    let value = json(
        r#"{"choices":[{"message":{"images":[{"type":"image_url","image_url":{"url":"data:image/png;base64,aGVsbG8="}}]}}]}"#,
    );
    let images = parse_openrouter_response(&value).expect("image should parse");

    assert_eq!(images.len(), 1);
    assert_eq!(images[0].mime_type, "image/png");
    assert_eq!(images[0].base64, "aGVsbG8=");
}

#[test]
fn rejects_empty_prompt() {
    let err = parse_request(&json(r#"{"prompt":" "}"#)).err().expect("error");
    assert!(err.contains("prompt"));
}

#[test]
fn clamps_image_count() {
    let request = parse_request(&json(r#"{"prompt":"draw a small app icon","n":99}"#))
        .expect("request should parse");
    assert_eq!(request.n, 4);
}

#[test]
fn openrouter_flux_models_use_image_only_modality() {
    for model in [
        "black-forest-labs/flux.2-pro",
        "recraft/recraft-v4.1-pro",
        "bytedance-seed/seedream-4.5",
        "x-ai/grok-imagine-image-quality",
    ] {
        assert_eq!(openrouter_modalities(model).to_text(), r#"["image"]"#);
    }
    assert_eq!(
        openrouter_modalities("google/gemini-3.1-flash-image-preview").to_text(),
        r#"["image","text"]"#
    );
}

#[test]
fn xai_detection_matches_grok_imagine_models() {
    let xai = ModelProvider {
        id: "xai".to_string(),
        name: "xAI".to_string(),
        ..provider("https://api.x.ai/v1")
    };
    assert!(uses_xai_images_api(&xai, "grok-imagine-image-quality"));
    assert!(has_known_direct_image_generation_route(&xai, "grok-imagine-image-quality"));
}

#[test]
fn direct_route_detection_matches_known_provider_routes() {
    let openai = provider("https://api.openai.com/v1");
    let openrouter = provider("https://openrouter.ai/api/v1");
    let openrouter_compatible_relay = provider("https://relay.example.com/v1");

    assert!(has_known_direct_image_generation_route(&openai, "gpt-image-1.5"));
    assert!(has_known_direct_image_generation_route(
        &openrouter,
        "google/gemini-3.1-flash-image-preview"
    ));
    assert!(has_known_direct_image_generation_route(
        &openrouter_compatible_relay,
        "black-forest-labs/flux.2-pro"
    ));
    assert!(!has_known_direct_image_generation_route(&openai, "gemini-3.1-flash-image-preview"));
    assert!(!has_known_direct_image_generation_route(&openai, "openai/gpt-5-image"));
}

#[test]
fn image_requests_go_where_the_model_is_asked() {
    let call = prepare_image_call(
        &with_key("https://api.openai.com/v1/"),
        "gpt-image-1",
        &json(r#"{"prompt":"a cat","size":"1024x1024"}"#),
    )
    .unwrap();
    assert_eq!(call.url, "https://api.openai.com/v1/images/generations");
    assert!(!call.chat);
    assert_eq!(call.body.get_str("prompt"), Some("a cat"));

    let call = prepare_image_call(
        &with_key("https://openrouter.ai/api/v1"),
        "google/gemini-3.1-flash-image-preview",
        &json(r#"{"prompt":"a cat"}"#),
    )
    .unwrap();
    assert!(call.chat);
    assert!(prepare_image_call(&provider("https://x.test"), "m", &json(r#"{"prompt":"a"}"#)).is_err());
    assert!(validate_provider(&with_key("https://x.test")).is_ok());
    assert!(uses_gpt_image_api_model("GPT-Image-1"));
    assert!(is_openrouter_base_url("https://openrouter.ai/api/v1"));
}

#[test]
fn sizes_have_aspect_ratios() {
    assert_eq!(size_aspect_ratio("1024x1024"), Some("1:1"));
    assert_eq!(openrouter_aspect_ratio("1024x1024"), Some("1:1"));
    assert_eq!(size_aspect_ratio("auto"), None);
}

#[test]
fn image_data_is_checked_before_it_is_taken() {
    assert_eq!(decoded_base64_len("aGVsbG8="), Some(5));
    assert!(validate_base64_image("aGVsbG8=").is_ok());
    assert!(validate_base64_image("***").is_err());
    assert_eq!(
        parse_image_data_url("data:image/webp;base64,aGVsbG8=").unwrap(),
        ("image/webp".to_string(), "aGVsbG8=".to_string())
    );
    assert!(parse_image_data_url("https://x.test/a.png").is_err());
    assert!(parse_reply("no json").is_err());
    assert_eq!(extension_for_mime("image/jpeg"), "jpg");
}

#[test]
fn image_replies_are_downloaded_one_by_one() {
    let value = json(r#"{"data":[{"b64_json":"aGVsbG8="},{"url":"https://x.test/2.png"}]}"#);
    let none: Vec<Download> = Vec::new();
    assert!(matches!(
        parse_images_api_response(&value, &none),
        ImagesReply::Download { url } if url == "https://x.test/2.png"
    ));
    let fetched = vec![Download::Content {
        content_type: Some("image/png".to_string()),
        bytes: b"hello".to_vec(),
    }];
    match parse_images_api_response(&value, &fetched) {
        ImagesReply::Images { images } => {
            assert_eq!(images.len(), 2);
            assert_eq!(images[1].base64, "aGVsbG8=");
        }
        _ => panic!("expected images"),
    }
    assert!(fetched_image(&Download::Failed { error: "gone".to_string() }, None).is_err());
    assert!(matches!(
        parse_images_api_response(&json(r#"{"error":{"message":"no"}}"#), &none),
        ImagesReply::Failed { .. }
    ));
}

#[test]
fn results_hold_the_images_as_artifacts() {
    let value = json(
        r#"{"choices":[{"message":{"images":[{"image_url":{"url":"data:image/png;base64,aGVsbG8="}}]}}]}"#,
    );
    let images = parse_openrouter_response(&value).unwrap();
    let request = parse_request(&json(r#"{"prompt":"a cat"}"#)).unwrap();
    let result = image_result(&with_key("https://x.test"), "m", &request, &images).unwrap();
    assert_eq!(result.artifacts.len(), 1);
    assert_eq!(result.artifacts[0].data_url, "data:image/png;base64,aGVsbG8=");
    assert_eq!(result.artifacts[0].size_bytes, Some(5));
}

#[test]
fn images_are_made_by_the_model_that_was_chosen() {
    let providers = vec![with_key("https://api.openai.com/v1")];
    let (i, model) =
        image_generation_target(&Some(("openai".to_string(), "gpt-image-1".to_string())), &providers)
            .unwrap();
    assert_eq!((i, model.as_str()), (0, "gpt-image-1"));
    assert!(image_generation_target(&None, &providers).is_err());
    assert!(image_generation_target(&Some(("gone".to_string(), "m".to_string())), &providers).is_err());

    let chosen = ModelChoice { provider_id: String::new(), model: String::new() };
    let session =
        ModelChoice { provider_id: "openai".to_string(), model: "gpt-image-1".to_string() };
    assert_eq!(
        image_generation_model_for_session(&database(), &chosen, &providers, Some(&session)),
        Some(("openai".to_string(), "gpt-image-1".to_string()))
    );
    let chat = ModelChoice { provider_id: "openai".to_string(), model: "gpt-5.5".to_string() };
    assert_eq!(
        image_generation_model_for_session(&database(), &chosen, &providers, Some(&chat)),
        None
    );
}

#[test]
fn bytes_are_hashed_and_written_in_hex() {
    assert_eq!(hex_of(&[0, 15, 255]), "000fff");
    assert_eq!(
        sha256_hex(b""),
        "e3b0c44298fc1c149afbf4c8996fb92427ae41e4649b934ca495991b7852b855"
    );
}

// ---------------------------------------------------------------------
// Images of tools
// ---------------------------------------------------------------------

fn image_artifact(name: &str, mime_type: &str, payload: &[u8]) -> ChatToolArtifact {
    ChatToolArtifact {
        name: name.to_string(),
        mime_type: mime_type.to_string(),
        data_url: format!("data:{mime_type};base64,{}", general_purpose::STANDARD.encode(payload)),
        size_bytes: None,
        path: None,
    }
}

fn text_artifact() -> ChatToolArtifact {
    ChatToolArtifact {
        name: "notes.txt".to_string(),
        mime_type: "text/plain".to_string(),
        data_url: "data:text/plain;base64,aGVsbG8=".to_string(),
        size_bytes: None,
        path: None,
    }
}

#[test]
fn select_image_artifacts_filters_non_image_and_empty_data_url() {
    let artifacts = vec![
        text_artifact(),
        ChatToolArtifact {
            name: "empty.png".to_string(),
            mime_type: "image/png".to_string(),
            data_url: String::new(),
            size_bytes: None,
            path: None,
        },
        image_artifact("shot.png", "image/png", b"tiny-png-bytes"),
    ];

    let (accepted, guard_note) = select_image_artifacts_for_attach(&artifacts, 8 * 1024 * 1024, 4);

    assert_eq!(accepted.len(), 1);
    assert_eq!(accepted[0].0.name, "shot.png");
    assert_eq!(accepted[0].1, b"tiny-png-bytes".to_vec());
    assert!(guard_note.is_none());
}

#[test]
fn select_image_artifacts_no_images_passes_through_unchanged() {
    let artifacts = vec![text_artifact()];
    let (accepted, guard_note) = select_image_artifacts_for_attach(&artifacts, 8 * 1024 * 1024, 4);
    assert!(accepted.is_empty());
    assert!(guard_note.is_none());
}

#[test]
fn select_image_artifacts_skips_oversize_image_with_note() {
    let artifacts = vec![image_artifact("big.png", "image/png", &[0u8; 64])];
    let (accepted, guard_note) = select_image_artifacts_for_attach(&artifacts, 16, 4);
    assert!(accepted.is_empty());
    let note = guard_note.expect("oversize image should produce a guard note");
    assert!(note.contains("1 张图片超过"), "note was: {note}");
}

#[test]
fn select_image_artifacts_caps_at_max_images_and_notes_overflow() {
    let artifacts: Vec<ChatToolArtifact> = (0..6)
        .map(|i| {
            image_artifact(&format!("img{i}.png"), "image/png", format!("payload-{i}").as_bytes())
        })
        .collect();
    let (accepted, guard_note) = select_image_artifacts_for_attach(&artifacts, 8 * 1024 * 1024, 4);
    assert_eq!(accepted.len(), 4);
    let note = guard_note.expect("overflow beyond the cap should produce a guard note");
    assert!(note.contains("另有 2 张图片超出单结果 4 张上限"), "note was: {note}");
}

#[test]
fn data_url_image_part_wraps_data_url_and_rejects_non_data_url() {
    let part = data_url_image_part("data:image/png;base64,AAAA").expect("valid data url");
    assert_eq!(part.get_str("type"), Some("image_url"));
    assert_eq!(
        part.get_path("image_url", "url").and_then(|v| v.as_str()),
        Some("data:image/png;base64,AAAA")
    );
    assert!(data_url_image_part("https://example.com/shot.png").is_err());
}

#[test]
fn image_extension_for_mime_matches_common_types() {
    assert_eq!(image_extension_for_mime("image/jpeg"), "jpg");
    assert_eq!(image_extension_for_mime("image/webp"), "webp");
    assert_eq!(image_extension_for_mime("image/png"), "png");
    assert_eq!(image_extension_for_mime("image/unknown"), "png");
}

#[test]
fn append_tool_result_note_handles_empty_and_non_empty_content() {
    let mut result = McpToolCallResult {
        content: String::new(),
        is_error: false,
        raw: Json::Null,
        artifacts: Vec::new(),
        structured_content: None,
        follow_up_user_messages: Vec::new(),
    };
    append_tool_result_note(&mut result, "note one");
    assert_eq!(result.content, "note one");

    append_tool_result_note(&mut result, "note two");
    assert_eq!(result.content, "note one\n\nnote two");
}

// ---------------------------------------------------------------------
// Models
// ---------------------------------------------------------------------

#[test]
fn reasoning_efforts_resolve_from_db_family_and_default() {
    let db = database();
    let ds = reasoning_efforts_for_model(&db, "DeepSeek-V4-Flash", "openai_chat");
    assert!(ds.contains(&"max".to_string()) && ds.contains(&"xhigh".to_string()), "{ds:?}");
    let gpt = reasoning_efforts_for_model(&db, "gpt-5.5", "openai_chat");
    assert!(gpt.contains(&"xhigh".to_string()) && !gpt.contains(&"max".to_string()), "{gpt:?}");
    let gemma = reasoning_efforts_for_model(&db, "gemma4:31b", "openai_chat");
    assert!(
        gemma.contains(&"max".to_string()) && !gemma.contains(&"xhigh".to_string()),
        "{gemma:?}"
    );
    let unknown = reasoning_efforts_for_model(&db, "some-random-model", "openai_chat");
    assert_eq!(unknown, vec!["low", "medium", "high"]);
    let anth = reasoning_efforts_for_model(&db, "whatever", "anthropic_messages");
    assert!(anth.contains(&"xhigh".to_string()) && anth.contains(&"max".to_string()), "{anth:?}");
}

#[test]
fn context_window_uses_model_override_before_name_heuristic() {
    let p = with_override(
        "deepseek-v4-flash",
        ModelInfo { context_window: Some(1_048_576), ..ModelInfo::default() },
    );
    let empty = ModelDatabase::parse("{}", Vec::new());
    assert_eq!(
        context_window_for_model(&empty, Some(&p), "deepseek-v4-flash"),
        (1_048_576, false)
    );
}

#[test]
fn context_window_uses_builtin_model_database_defaults() {
    assert_eq!(
        context_window_for_model(&database(), None, "deepseek-v4-flash"),
        (1_048_576, false)
    );
}

#[test]
fn chat_max_output_uses_builtin_model_database_defaults() {
    assert_eq!(
        chat_max_output_tokens_for_model(&database(), None, "deepseek-v4-flash", 32_768),
        131_072
    );
}

#[test]
fn chat_max_output_uses_model_override_before_database() {
    let p = with_override(
        "deepseek-v4-flash",
        ModelInfo { max_output: Some(65_536), ..ModelInfo::default() },
    );
    assert_eq!(
        chat_max_output_tokens_for_model(&database(), Some(&p), "deepseek-v4-flash", 32_768),
        65_536
    );
}

#[test]
fn chat_max_output_falls_back_to_setting_when_metadata_missing() {
    assert_eq!(
        chat_max_output_tokens_for_model(&database(), None, "custom-model", 32_768),
        32_768
    );
}

#[test]
fn context_window_keeps_name_heuristic_when_metadata_missing() {
    assert_eq!(context_window_for_model(&database(), None, "custom-200k"), (200_000, false));
    assert_eq!(
        context_window_for_model(&database(), None, "custom-deepseek-model"),
        (128_000, true)
    );
    assert_eq!(context_window_for_model(&database(), None, "my-Opus-9"), (200_000, false));
    assert_eq!(
        context_window_for_model(&database(), None, "custom"),
        (FALLBACK_CONTEXT_WINDOW_TOKENS, true)
    );
}

#[test]
fn what_models_can_do_is_looked_up() {
    let db = ModelDatabase::parse(
        r#"{"eye":{"capabilities":{"vision":true}},"pen":{"capabilities":{"imageGeneration":true}},"dear":{"pricing":{"input":1.5,"output":3}}}"#,
        Vec::new(),
    );
    let p = with_key("https://api.example.com/v1");
    assert_eq!(model_supports_vision(&db, Some(&p), "eye"), Some(true));
    assert_eq!(model_supports_vision(&db, Some(&p), "unknown"), None);
    assert_eq!(model_supports_vision(&db, None, "eye"), None);
    assert_eq!(model_supports_image_generation(&db, Some(&p), "pen"), Some(true));
    assert!(model_can_generate_images_directly(
        &db,
        &provider("https://api.openai.com/v1"),
        "gpt-image-1"
    ));
    let (pricing, source) = pricing_for_model(&db, None, "dear").unwrap();
    assert_eq!(source, "model_pricing");
    assert_eq!(pricing.input.map(|v| v.to_text()).as_deref(), Some("1.5"));
    assert!(pricing_for_model(&db, None, "free").is_none());
}

#[test]
fn the_longest_key_stands_for_a_model() {
    let db = ModelDatabase::parse(r#"{"gpt":{"maxOutput":1},"gpt-5":{"maxOutput":2}}"#, Vec::new());
    assert_eq!(chat_max_output_tokens_for_model(&db, None, "gpt-5-mini", 9), 2);
    assert_eq!(chat_max_output_tokens_for_model(&db, None, "gpt-4", 9), 1);
    // Of keys of one length the last in order counts, wherever the text has it.
    let db = ModelDatabase::parse(r#"{"xb":{"maxOutput":1},"ax":{"maxOutput":2}}"#, Vec::new());
    assert_eq!(chat_max_output_tokens_for_model(&db, None, "zaxbz", 9), 1);
    let names: Vec<&str> = db.entries.iter().map(|e| e.0.as_str()).collect();
    assert_eq!(names, vec!["ax", "xb"]);
}
