//! Calls of a model that are answered at once.

use vstd::prelude::*;

use crate::conversation::Conversation;
use crate::json::{items_view, json_result, parsed_json};
use crate::json::{Json, JsonView};
use crate::model::anthropic::{anthropic_body, message_output, tools_describable};
use crate::model::anthropic::{anthropic_messages_url, AnthropicMessagesProvider};
use crate::model::gemini::{endpoint, gemini_body, reply_parts};
use crate::model::gemini::GeminiProvider;
use crate::model::messages::{drawn, drawn_for, messages_of, reply_message, system_texts};
use crate::model::messages::generate_request_from_openai_messages;
use crate::model::openai::{
    chat_body, completion_output, output_result, parse_error_text, reply_call_count, without_slashes,
};
use crate::model::openai::OpenAiChatProvider;
use crate::model::responses::responses_body;
use crate::model::responses::OpenAiResponsesProvider;
use crate::model::types::{message_views, tool_views, OutputView};
use crate::model::types::{
    GenerateOptions, GenerateOutput, GenerateRequest, GenerateRequestContext, ModelTool,
};
use crate::settings::api_format_of;
use crate::settings::{ModelChoice, ModelProvider, ProviderApiFormat};
use crate::text::{concat3, copy_str, is_blank, trim};
use crate::text::{is_blank_text, joined, trimmed};

verus! {

/// What is said where a provider has no key.
pub open spec fn missing_key_text(provider_name: Seq<char>) -> Seq<char> {
    if is_blank_text(provider_name) {
        "Chat 模型供应商缺少 API Key，请到设置 > 模型中填写后再发送。"@
    } else {
        "Chat 模型供应商「"@ + trimmed(provider_name)
            + "」缺少 API Key，请到设置 > 模型中填写后再发送。"@
    }
}

/// What is said where a provider has no key.
pub fn format_chat_missing_api_key_error(provider_name: &str) -> (r: String)
    ensures
        r@ == missing_key_text(provider_name@),
{
    if is_blank(provider_name) {
        copy_str("Chat 模型供应商缺少 API Key，请到设置 > 模型中填写后再发送。")
    } else {
        let name = trim(provider_name);
        concat3(
            "Chat 模型供应商「",
            name.as_str(),
            "」缺少 API Key，请到设置 > 模型中填写后再发送。",
        )
    }
}

/// What is said where no model is chosen.
pub const MISSING_MODEL: &'static str = "请先为当前 Chat 对话选择模型，或到设置 > AI 客户端配置默认模型。";

/// What is said where no model is chosen.
pub fn chat_missing_model_error() -> (r: String)
    ensures
        r@ == MISSING_MODEL@,
{
    copy_str(MISSING_MODEL)
}

/// The provider and model of a conversation.
pub fn session_model_for_conversation(conversation: &Conversation) -> (r: ModelChoice)
    ensures
        r.provider_id@ == conversation.provider_id@,
        r.model@ == conversation.model@,
{
    ModelChoice {
        provider_id: conversation.provider_id.clone(),
        model: conversation.model.clone(),
    }
}

/// The request that messages are sent with.
pub fn completion_request(
    model: &str,
    messages: &Vec<Json>,
    tools: &Vec<ModelTool>,
    temperature: Json,
    thinking_enabled: bool,
    label: &str,
    context: GenerateRequestContext,
) -> (r: GenerateRequest)
    ensures
        r.model@ == model@,
        r.system@ == joined(system_texts(items_view(messages@)), "\n\n"@),
        exists|fresh: Seq<Seq<Seq<char>>>|
            drawn_for(fresh, items_view(messages@)) && message_views(r.messages@)
                == #[trigger] messages_of(items_view(messages@), fresh),
        tool_views(r.tools@) == tool_views(tools@),
        r.options.temperature@ == temperature@,
        r.options.max_tokens == 8192,
        !r.options.stream,
        r.options.thinking_enabled == thinking_enabled,
        r.options.thinking_level is None,
        r.metadata.label@ == label@,
        r.metadata.usage_source is None,
        r.metadata.usage_operation is None,
        r.metadata.conversation_id == context.conversation_id,
        r.metadata.message_id == context.message_id,
{
    let mut options = GenerateOptions::with_temperature(temperature);
    options.thinking_enabled = thinking_enabled;
    generate_request_from_openai_messages(model, messages, tools, options, label, context)
}

/// Where a request goes and what it holds, the way that the provider is spoken to.
pub open spec fn call_of(provider: ModelProvider, request: GenerateRequest, thinking_field: bool) -> (
    Seq<char>,
    JsonView,
) {
    let base = without_slashes(provider.base_url@);
    match api_format_of(provider.api_format@) {
        ProviderApiFormat::OpenAiChat => (
            base + "/chat/completions"@,
            chat_body(request, false, thinking_field),
        ),
        ProviderApiFormat::AnthropicMessages => (
            base + "/messages"@,
            anthropic_body(request, false),
        ),
        ProviderApiFormat::OpenAiResponses => (base + "/responses"@, responses_body(request, false)),
        ProviderApiFormat::Gemini => (
            endpoint(provider.base_url@, request.model@, false),
            gemini_body(request),
        ),
    }
}

/// Where a request goes and what it holds. Tools that cannot be described are not
/// sent to a service that speaks as Anthropic's does.
pub fn provider_call(
    provider: &ModelProvider,
    retry_attempts: usize,
    request: &GenerateRequest,
    thinking_field: bool,
) -> (r: (String, Json))
    requires
        api_format_of(provider.api_format@) == ProviderApiFormat::AnthropicMessages
            ==> tools_describable(tool_views(request.tools@)),
    ensures
        (r.0@, r.1@) == call_of(*provider, *request, thinking_field),
{
    match provider.api_format_kind() {
        ProviderApiFormat::OpenAiChat => {
            let p = OpenAiChatProvider::new(provider, retry_attempts);
            (p.chat_completions_url(), p.request_body(request, false, thinking_field))
        },
        ProviderApiFormat::AnthropicMessages => {
            let p = AnthropicMessagesProvider::new(provider, retry_attempts);
            (
                anthropic_messages_url(provider.base_url.as_str()),
                p.request_body(request, false),
            )
        },
        ProviderApiFormat::OpenAiResponses => {
            let p = OpenAiResponsesProvider::new(provider, retry_attempts);
            (p.responses_url(), p.request_body(request, false))
        },
        ProviderApiFormat::Gemini => {
            let p = GeminiProvider::new(provider, retry_attempts);
            (p.endpoint_url(request.model.as_str(), false), p.request_body(request))
        },
    }
}

/// What a reply says, the way that the provider speaks.
pub open spec fn spoken_output(
    format: ProviderApiFormat,
    value: JsonView,
    raw: Seq<char>,
    label: Seq<char>,
    fresh: Seq<Seq<char>>,
) -> Result<OutputView, Seq<char>> {
    match format {
        ProviderApiFormat::OpenAiChat => completion_output(value, raw, label, fresh),
        ProviderApiFormat::AnthropicMessages => message_output(value, label),
        ProviderApiFormat::OpenAiResponses => crate::model::responses::response_output(
            value,
            raw,
            label,
        ),
        ProviderApiFormat::Gemini => crate::model::gemini::response_output(value, label, fresh),
    }
}

/// Identifiers by chance for the calls of a reply, the way that the provider speaks.
/// Where its calls always bring their own there are none.
pub open spec fn drawn_for_reply(
    format: ProviderApiFormat,
    value: JsonView,
    fresh: Seq<Seq<char>>,
) -> bool {
    match format {
        ProviderApiFormat::OpenAiChat => drawn(fresh, reply_call_count(value), "tool_"@),
        ProviderApiFormat::Gemini => drawn(fresh, reply_parts(value).len(), "call_"@),
        _ => fresh.len() == 0,
    }
}

/// What a reply says or what is wrong with it, as values.
pub open spec fn said(r: Result<GenerateOutput, String>) -> Result<OutputView, Seq<char>> {
    match r {
        Ok(o) => Ok(o@),
        Err(e) => Err(e@),
    }
}

/// What the reply of a provider says.
pub fn generate_with_chat_provider(provider: &ModelProvider, raw: &str, label: &str) -> (r: Result<
    GenerateOutput,
    String,
>)
    ensures
        match parsed_json(raw@) {
            Ok(value) => exists|fresh: Seq<Seq<char>>|
                drawn_for_reply(api_format_of(provider.api_format@), value, fresh) && said(r)
                    == #[trigger] spoken_output(
                    api_format_of(provider.api_format@),
                    value,
                    raw@,
                    label@,
                    fresh,
                ),
            Err(e) => said(r) == Err::<OutputView, Seq<char>>(parse_error_text(label@, e, raw@)),
        },
{
    let format = provider.api_format_kind();
    let outcome = match format {
        ProviderApiFormat::OpenAiChat => crate::model::openai::output_from_body(raw, label),
        ProviderApiFormat::AnthropicMessages => crate::model::anthropic::output_from_body(
            raw,
            label,
        ),
        ProviderApiFormat::OpenAiResponses => crate::model::responses::output_from_body(raw, label),
        ProviderApiFormat::Gemini => crate::model::gemini::output_from_body(raw, label),
    };
    let ghost views = output_result(outcome);
    proof {
        if let Ok(value) = parsed_json(raw@) {
            match format {
                ProviderApiFormat::OpenAiChat => {
                    let fresh = choose|fresh: Seq<Seq<char>>|
                        drawn(fresh, reply_call_count(value), "tool_"@) && views
                            == #[trigger] completion_output(value, raw@, label@, fresh);
                    assert(views == spoken_output(format, value, raw@, label@, fresh));
                },
                ProviderApiFormat::Gemini => {
                    let fresh = choose|fresh: Seq<Seq<char>>|
                        drawn(fresh, reply_parts(value).len(), "call_"@) && views
                            == #[trigger] crate::model::gemini::response_output(
                            value,
                            label@,
                            fresh,
                        );
                    assert(views == spoken_output(format, value, raw@, label@, fresh));
                },
                _ => {
                    assert(views == spoken_output(format, value, raw@, label@, Seq::empty()));
                },
            }
        }
    }
    match outcome {
        Ok(o) => Ok(o),
        Err(e) => Err(e.message),
    }
}

/// What the reply of a provider says, as the message of a chat completion.
pub fn call_chat_completion_message(provider: &ModelProvider, raw: &str, label: &str) -> (r: Result<
    Json,
    String,
>)
    ensures
        match parsed_json(raw@) {
            Ok(value) => exists|fresh: Seq<Seq<char>>|
                drawn_for_reply(api_format_of(provider.api_format@), value, fresh)
                    && match #[trigger] spoken_output(
                    api_format_of(provider.api_format@),
                    value,
                    raw@,
                    label@,
                    fresh,
                ) {
                    Ok(o) => json_result(r) == Ok::<JsonView, Seq<char>>(reply_message(o)),
                    Err(e) => json_result(r) == Err::<JsonView, Seq<char>>(e),
                },
            Err(e) => json_result(r) == Err::<JsonView, Seq<char>>(
                parse_error_text(label@, e, raw@),
            ),
        },
{
    match generate_with_chat_provider(provider, raw, label) {
        Ok(o) => Ok(o.to_openai_compatible_message()),
        Err(e) => Err(e),
    }
}

/// A request goes to the service whose format the provider speaks, with the body for it,
/// and its reply is read as that service writes replies.
pub proof fn law_requests_speak_the_format(
    provider: ModelProvider,
    request: GenerateRequest,
    thinking_field: bool,
    value: JsonView,
    raw: Seq<char>,
    label: Seq<char>,
    fresh: Seq<Seq<char>>,
)
    ensures
        ({
            let base = without_slashes(provider.base_url@);
            let call = call_of(provider, request, thinking_field);
            let format = api_format_of(provider.api_format@);
            &&& provider.api_format@ == "anthropic_messages"@ ==> call == (
                base + "/messages"@,
                anthropic_body(request, false),
            ) && spoken_output(format, value, raw, label, fresh) == message_output(value, label)
            &&& provider.api_format@ == "openai_responses"@ ==> call == (
                base + "/responses"@,
                responses_body(request, false),
            ) && spoken_output(format, value, raw, label, fresh)
                == crate::model::responses::response_output(value, raw, label)
            &&& provider.api_format@ == "gemini"@ ==> call == (
                endpoint(provider.base_url@, request.model@, false),
                gemini_body(request),
            ) && spoken_output(format, value, raw, label, fresh)
                == crate::model::gemini::response_output(value, label, fresh)
            &&& provider.api_format@ != "anthropic_messages"@ && provider.api_format@
                != "openai_responses"@ && provider.api_format@ != "gemini"@ ==> call == (
                base + "/chat/completions"@,
                chat_body(request, false, thinking_field),
            ) && spoken_output(format, value, raw, label, fresh) == completion_output(
                value,
                raw,
                label,
                fresh,
            )
        }),
{
    crate::settings::law_formats_have_names(provider.api_format@);
}

} // verus!
