//! Generating images.
//!
//! A request is checked, turned into the body of the service's own request, and
//! the reply is turned into artifacts. Sending requests and downloading images
//! is the caller's.

use vstd::prelude::*;

use crate::codec::{base64_bytes, base64_text};
use crate::codec::{base64_decode, base64_encode};
use crate::json::{items_view, json_result, opt_ref, parsed_json};
use crate::json::{Json, JsonNumber, JsonView, Object};
use crate::model::messages::{data_url, object1, object2, str_json, with_field};
use crate::model::messages::{make_data_url, make_object1, make_object2};
use crate::model::openai::{or_else, without_slashes};
use crate::model::openai::trim_slashes;
use crate::settings::{api_format_of, provider_index};
use crate::settings::{find_provider, ModelProvider, ProviderApiFormat};
use crate::text::{
    chars_of, concat2, concat3, concat4, concat5, contains, contains_any, copy_str, decimal_of,
    is_blank, is_white_space, one_of, own_opt, split_char, split_once, starts_with, starts_with_any,
    str_eq, strip_prefix, to_lower, trim, truncate_chars,
};
use crate::text::{
    decimal, first_chars, has_any_infix, has_any_prefix, has_infix, has_prefix, is_blank_text,
    is_one_of, lower, opt_str, opt_text, split_at_first, split_on, strings, trimmed, white_space,
    without_prefix,
};
use crate::types::{artifact_views, ArtifactView, ChatToolArtifact, McpToolCallResult, ToolResultView};

verus! {

pub const DEFAULT_SIZE: &'static str = "auto";

pub const DEFAULT_QUALITY: &'static str = "auto";

pub const MAX_PROMPT_CHARS: usize = 8_000;

pub const MAX_IMAGE_BYTES: usize = 25_165_824;

pub const IMAGE_GENERATION_TIMEOUT_MS: u64 = 300_000;

/// What image is asked for.
#[derive(Debug)]
pub struct ImageGenerationRequest {
    pub prompt: String,
    pub size: String,
    pub quality: String,
    pub n: usize,
}

/// The value of what image is asked for.
#[verifier::ext_equal]
pub struct ImageRequestView {
    pub prompt: Seq<char>,
    pub size: Seq<char>,
    pub quality: Seq<char>,
    pub n: int,
}

impl View for ImageGenerationRequest {
    type V = ImageRequestView;

    open spec fn view(&self) -> ImageRequestView {
        ImageRequestView {
            prompt: self.prompt@,
            size: self.size@,
            quality: self.quality@,
            n: self.n as int,
        }
    }
}

/// An image that a service made.
#[derive(Debug)]
pub struct GeneratedImage {
    pub mime_type: String,
    pub base64: String,
    pub revised_prompt: Option<String>,
}

/// The value of an image that a service made.
#[verifier::ext_equal]
pub struct ImageView {
    pub mime_type: Seq<char>,
    pub base64: Seq<char>,
    pub revised_prompt: Option<Seq<char>>,
}

impl View for GeneratedImage {
    type V = ImageView;

    open spec fn view(&self) -> ImageView {
        ImageView {
            mime_type: self.mime_type@,
            base64: self.base64@,
            revised_prompt: opt_text(self.revised_prompt),
        }
    }
}

/// The values of the images, in order.
pub open spec fn image_views(v: Seq<GeneratedImage>) -> Seq<ImageView> {
    Seq::new(v.len(), |i: int| v[i]@)
}

// ---------------------------------------------------------------------
// Requests
// ---------------------------------------------------------------------

/// A text argument, trimmed, where it is there and not blank.
pub open spec fn argument(arguments: JsonView, key: Seq<char>) -> Option<Seq<char>> {
    match arguments.field_text(key) {
        Some(t) => if is_blank_text(t) {
            None
        } else {
            Some(trimmed(t))
        },
        None => None,
    }
}

fn get_argument(arguments: &Json, key: &str) -> (r: Option<String>)
    ensures
        opt_text(r) == argument(arguments@, key@),
{
    match arguments.get_str(key) {
        Some(t) => if is_blank(t) {
            None
        } else {
            Some(trim(t))
        },
        None => None,
    }
}

/// The sizes that can be asked for.
pub open spec fn known_sizes() -> Seq<&'static str> {
    seq!["auto", "1024x1024", "1024x1536", "1536x1024"]
}

/// The qualities that can be asked for.
pub open spec fn known_qualities() -> Seq<&'static str> {
    seq!["auto", "low", "medium", "high"]
}

/// A text argument, or a default.
pub open spec fn argument_or(arguments: JsonView, key: Seq<char>, other: Seq<char>) -> Seq<char> {
    match argument(arguments, key) {
        Some(t) => t,
        None => other,
    }
}

/// What the arguments ask for: a prompt of at most 8000 characters, a known size
/// and quality, and one to four images.
pub open spec fn image_request(arguments: JsonView) -> Result<ImageRequestView, Seq<char>> {
    match argument(arguments, "prompt"@) {
        None => Err("Image generation requires prompt"@),
        Some(prompt) => {
            let size = argument_or(arguments, "size"@, DEFAULT_SIZE@);
            let quality = argument_or(arguments, "quality"@, DEFAULT_QUALITY@);
            if !is_one_of(size, known_sizes()) {
                Err("Unsupported image size: "@ + size)
            } else if !is_one_of(quality, known_qualities()) {
                Err("Unsupported image quality: "@ + quality)
            } else {
                Ok(
                    ImageRequestView {
                        prompt: first_chars(prompt, MAX_PROMPT_CHARS as int),
                        size,
                        quality,
                        n: match arguments.field_unsigned("n"@) {
                            None => 1,
                            Some(n) => if n < 1 {
                                1
                            } else if n > 4 {
                                4
                            } else {
                                n as int
                            },
                        },
                    },
                )
            }
        },
    }
}

/// What the arguments ask for.
pub fn parse_request(arguments: &Json) -> (r: Result<ImageGenerationRequest, String>)
    ensures
        match r {
            Ok(q) => image_request(arguments@) == Ok::<ImageRequestView, Seq<char>>(q@),
            Err(e) => image_request(arguments@) == Err::<ImageRequestView, Seq<char>>(e@),
        },
{
    let prompt = match get_argument(arguments, "prompt") {
        Some(p) => p,
        None => {
            return Err(copy_str("Image generation requires prompt"));
        },
    };
    let size = match get_argument(arguments, "size") {
        Some(t) => t,
        None => copy_str(DEFAULT_SIZE),
    };
    let sizes = ["auto", "1024x1024", "1024x1536", "1536x1024"];
    assert(sizes@ == known_sizes());
    if !one_of(size.as_str(), &sizes) {
        return Err(concat2("Unsupported image size: ", size.as_str()));
    }
    let quality = match get_argument(arguments, "quality") {
        Some(t) => t,
        None => copy_str(DEFAULT_QUALITY),
    };
    let qualities = ["auto", "low", "medium", "high"];
    assert(qualities@ == known_qualities());
    if !one_of(quality.as_str(), &qualities) {
        return Err(concat2("Unsupported image quality: ", quality.as_str()));
    }
    let n: usize = match arguments.get_u64("n") {
        None => 1,
        Some(n) => if n < 1 {
            1
        } else if n > 4 {
            4
        } else {
            n as usize
        },
    };
    Ok(
        ImageGenerationRequest {
            prompt: truncate_chars(prompt.as_str(), MAX_PROMPT_CHARS),
            size,
            quality,
            n,
        },
    )
}

/// Why a provider cannot generate images.
pub open spec fn provider_fault(provider: ModelProvider) -> Option<Seq<char>> {
    match api_format_of(provider.api_format@) {
        ProviderApiFormat::OpenAiChat | ProviderApiFormat::OpenAiResponses => if provider.api_keys@.len()
            == 0 {
            Some(
                "Image generation provider `"@ + provider.name@ + "` has no API key configured"@,
            )
        } else {
            None
        },
        _ => Some("Mixer image generation requires an OpenAI-compatible provider"@),
    }
}

/// Refuses a provider that cannot generate images.
pub fn validate_provider(provider: &ModelProvider) -> (r: Result<(), String>)
    ensures
        match r {
            Ok(_) => provider_fault(*provider) is None,
            Err(e) => provider_fault(*provider) == Some(e@),
        },
{
    match provider.api_format_kind() {
        ProviderApiFormat::OpenAiChat | ProviderApiFormat::OpenAiResponses => {
            if provider.api_keys.len() == 0 {
                Err(
                    concat3(
                        "Image generation provider `",
                        provider.name.as_str(),
                        "` has no API key configured",
                    ),
                )
            } else {
                Ok(())
            }
        },
        _ => Err(copy_str("Mixer image generation requires an OpenAI-compatible provider")),
    }
}

// ---------------------------------------------------------------------
// Routes
// ---------------------------------------------------------------------

/// The makers whose models go through chat.
pub open spec fn chat_image_makers() -> Seq<&'static str> {
    seq![
        "black-forest-labs/",
        "bytedance-seed/",
        "google/",
        "microsoft/",
        "openai/gpt-5",
        "recraft/",
        "sourceful/",
        "x-ai/",
    ]
}

/// A URL of OpenRouter.
pub open spec fn openrouter_url(base_url: Seq<char>) -> bool {
    has_infix(lower(trimmed(base_url)), "openrouter.ai"@)
}

/// The model of a provider generates images through chat.
pub open spec fn chat_image_route(base_url: Seq<char>, model: Seq<char>) -> bool {
    openrouter_url(base_url) || (!has_infix(lower(base_url), "api.openai.com"@) && !has_infix(
        lower(base_url),
        "api.x.ai"@,
    ) && has_any_prefix(lower(trimmed(model)), chat_image_makers()))
}

/// Whether the URL is one of OpenRouter.
pub fn is_openrouter_base_url(base_url: &str) -> (r: bool)
    ensures
        r == openrouter_url(base_url@),
{
    contains(to_lower(trim(base_url).as_str()).as_str(), "openrouter.ai")
}

/// Whether the model of a provider generates images through chat.
pub fn uses_openrouter_chat_image_generation(provider: &ModelProvider, model: &str) -> (r: bool)
    ensures
        r == chat_image_route(provider.base_url@, model@),
{
    if is_openrouter_base_url(provider.base_url.as_str()) {
        return true;
    }
    let base = to_lower(provider.base_url.as_str());
    if contains(base.as_str(), "api.openai.com") || contains(base.as_str(), "api.x.ai") {
        return false;
    }
    let name = to_lower(trim(model).as_str());
    let makers = [
        "black-forest-labs/",
        "bytedance-seed/",
        "google/",
        "microsoft/",
        "openai/gpt-5",
        "recraft/",
        "sourceful/",
        "x-ai/",
    ];
    assert(makers@ == chat_image_makers());
    starts_with_any(name.as_str(), &makers)
}

/// The model of a provider generates images the way of xAI.
pub open spec fn xai_route(provider: ModelProvider, model: Seq<char>) -> bool {
    let descriptor = lower(
        provider.base_url@ + " "@ + provider.name@ + " "@ + model,
    );
    has_infix(descriptor, "api.x.ai"@) || has_infix(descriptor, "grok-imagine-image"@)
}

/// Whether the model of a provider generates images the way of xAI.
pub fn uses_xai_images_api(provider: &ModelProvider, model: &str) -> (r: bool)
    ensures
        r == xai_route(*provider, model@),
{
    let text = concat5(
        provider.base_url.as_str(),
        " ",
        provider.name.as_str(),
        " ",
        model,
    );
    let descriptor = to_lower(text.as_str());
    contains(descriptor.as_str(), "api.x.ai") || contains(
        descriptor.as_str(),
        "grok-imagine-image",
    )
}

/// A model of the `gpt-image` family.
pub open spec fn gpt_image(model: Seq<char>) -> bool {
    has_infix(lower(model), "gpt-image"@)
}

/// Whether the model is one of the `gpt-image` family.
pub fn uses_gpt_image_api_model(model: &str) -> (r: bool)
    ensures
        r == gpt_image(model@),
{
    contains(to_lower(model).as_str(), "gpt-image")
}

/// Whether the model is one of OpenAI's image service.
pub fn uses_openai_images_api_model(model: &str) -> (r: bool)
    ensures
        r == (gpt_image(model@) || has_infix(lower(model@), "dall-e"@)),
{
    uses_gpt_image_api_model(model) || contains(to_lower(model).as_str(), "dall-e")
}

/// The model of a provider is known to generate images.
pub open spec fn known_route(provider: ModelProvider, model: Seq<char>) -> bool {
    api_format_of(provider.api_format@) == ProviderApiFormat::OpenAiChat && (chat_image_route(
        provider.base_url@,
        model,
    ) || xai_route(provider, model) || gpt_image(model) || has_infix(lower(model), "dall-e"@))
}

/// Whether the model of a provider is known to generate images.
pub fn has_known_direct_image_generation_route(provider: &ModelProvider, model: &str) -> (r: bool)
    ensures
        r == known_route(*provider, model@),
{
    match provider.api_format_kind() {
        ProviderApiFormat::OpenAiChat => {
            uses_openrouter_chat_image_generation(provider, model) || uses_xai_images_api(
                provider,
                model,
            ) || uses_openai_images_api_model(model)
        },
        _ => false,
    }
}

// ---------------------------------------------------------------------
// Request bodies
// ---------------------------------------------------------------------

/// The aspect ratio of a size.
pub open spec fn aspect_ratio(size: Seq<char>) -> Option<Seq<char>> {
    if size == "1024x1024"@ {
        Some("1:1"@)
    } else if size == "1024x1536"@ {
        Some("2:3"@)
    } else if size == "1536x1024"@ {
        Some("3:2"@)
    } else {
        None
    }
}

/// The aspect ratio of a size.
pub fn size_aspect_ratio(size: &str) -> (r: Option<&'static str>)
    ensures
        opt_str(r) == aspect_ratio(size@),
{
    if str_eq(size, "1024x1024") {
        Some("1:1")
    } else if str_eq(size, "1024x1536") {
        Some("2:3")
    } else if str_eq(size, "1536x1024") {
        Some("3:2")
    } else {
        None
    }
}

/// The aspect ratio of a size, as OpenRouter takes it.
pub fn openrouter_aspect_ratio(size: &str) -> (r: Option<&'static str>)
    ensures
        opt_str(r) == aspect_ratio(size@),
{
    size_aspect_ratio(size)
}

/// The marks of models that make nothing but images.
pub open spec fn image_only_marks() -> Seq<&'static str> {
    seq![
        "flux",
        "sourceful",
        "riverflow",
        "recraft",
        "seedream",
        "mai-image",
        "grok-imagine-image",
        "stable-diffusion",
        "sdxl",
        "imagen",
        "ideogram",
    ]
}

/// The kinds of output to ask a model for.
pub open spec fn modalities(model: Seq<char>) -> JsonView {
    if has_any_infix(lower(model), image_only_marks()) {
        JsonView::Array(seq![str_json("image"@)])
    } else {
        JsonView::Array(seq![str_json("image"@), str_json("text"@)])
    }
}

/// The kinds of output to ask a model for.
pub fn openrouter_modalities(model: &str) -> (r: Json)
    ensures
        r@ == modalities(model@),
{
    let name = to_lower(model);
    let marks = [
        "flux",
        "sourceful",
        "riverflow",
        "recraft",
        "seedream",
        "mai-image",
        "grok-imagine-image",
        "stable-diffusion",
        "sdxl",
        "imagen",
        "ideogram",
    ];
    assert(marks@ == image_only_marks());
    let mut out: Vec<Json> = Vec::new();
    out.push(Json::string("image"));
    assert(items_view(out@) =~= seq![str_json("image"@)]);
    if !contains_any(name.as_str(), &marks) {
        out.push(Json::string("text"));
        assert(items_view(out@) =~= seq![str_json("image"@), str_json("text"@)]);
    }
    Json::Array(out)
}

/// A text as a value, where it is there.
pub open spec fn text_value(t: Option<Seq<char>>) -> Option<JsonView> {
    match t {
        Some(s) => Some(str_json(s)),
        None => None,
    }
}

/// A text, where a condition holds.
pub open spec fn when(condition: bool, t: Seq<char>) -> Option<JsonView> {
    if condition {
        Some(str_json(t))
    } else {
        None
    }
}

/// The body of a request to the images service.
pub open spec fn images_body(
    provider: ModelProvider,
    model: Seq<char>,
    request: ImageRequestView,
) -> JsonView {
    let xai = xai_route(provider, model);
    let gpt = !xai && gpt_image(model);
    let sized = !xai && (gpt || request.size != "auto"@);
    let m0 = Map::empty().insert("model"@, str_json(model)).insert(
        "prompt"@,
        str_json(request.prompt),
    ).insert("n"@, JsonView::Number(JsonNumber::Unsigned(request.n as u64)));
    let m1 = with_field(m0, "response_format"@, when(xai, "b64_json"@));
    let m2 = with_field(
        m1,
        "aspect_ratio"@,
        if xai {
            text_value(aspect_ratio(request.size))
        } else {
            None
        },
    );
    let m3 = with_field(m2, "size"@, when(sized, request.size));
    let m4 = with_field(m3, "background"@, when(gpt, "auto"@));
    JsonView::Object(
        with_field(m4, "quality"@, when(!xai && request.quality != "auto"@, request.quality)),
    )
}

/// The body of a request to the images service.
pub fn images_api_body(provider: &ModelProvider, model: &str, request: &ImageGenerationRequest) -> (r:
    Json)
    ensures
        r@ == images_body(*provider, model@, request@),
{
    let mut body = Object::new();
    body.set("model", Json::string(model));
    body.set("prompt", Json::string(request.prompt.as_str()));
    body.set("n", Json::unsigned(request.n as u64));
    let xai = uses_xai_images_api(provider, model);
    if xai {
        body.set("response_format", Json::string("b64_json"));
        if let Some(ratio) = size_aspect_ratio(request.size.as_str()) {
            body.set("aspect_ratio", Json::string(ratio));
        }
    } else if uses_gpt_image_api_model(model) {
        body.set("size", Json::string(request.size.as_str()));
        body.set("background", Json::string("auto"));
    } else if !str_eq(request.size.as_str(), "auto") {
        body.set("size", Json::string(request.size.as_str()));
    }
    if !xai && !str_eq(request.quality.as_str(), "auto") {
        body.set("quality", Json::string(request.quality.as_str()));
    }
    Json::Object(body)
}

/// The body of a chat request for images.
pub open spec fn chat_images_body(model: Seq<char>, request: ImageRequestView) -> JsonView {
    let m = Map::empty().insert("model"@, str_json(model)).insert(
        "messages"@,
        JsonView::Array(
            seq![object2("role"@, str_json("user"@), "content"@, str_json(request.prompt))],
        ),
    ).insert("modalities"@, modalities(model)).insert("stream"@, JsonView::Bool(false));
    JsonView::Object(
        with_field(
            m,
            "image_config"@,
            match aspect_ratio(request.size) {
                Some(ratio) => Some(object1("aspect_ratio"@, str_json(ratio))),
                None => None,
            },
        ),
    )
}

/// The body of a chat request for images.
pub fn openrouter_chat_body(model: &str, request: &ImageGenerationRequest) -> (r: Json)
    ensures
        r@ == chat_images_body(model@, request@),
{
    let mut messages: Vec<Json> = Vec::new();
    messages.push(
        make_object2(
            "role",
            Json::string("user"),
            "content",
            Json::string(request.prompt.as_str()),
        ),
    );
    assert(items_view(messages@) =~= seq![
        object2("role"@, str_json("user"@), "content"@, str_json(request.prompt@)),
    ]);
    let mut body = Object::new();
    body.set("model", Json::string(model));
    body.set("messages", Json::Array(messages));
    body.set("modalities", openrouter_modalities(model));
    body.set("stream", Json::Bool(false));
    if let Some(ratio) = openrouter_aspect_ratio(request.size.as_str()) {
        body.set("image_config", make_object1("aspect_ratio", Json::string(ratio)));
    }
    Json::Object(body)
}

/// A request to send for images.
#[derive(Debug)]
pub struct ImageCall {
    pub request: ImageGenerationRequest,
    pub url: String,
    pub body: Json,
    /// Whether the reply is one of chat, not of the images service.
    pub chat: bool,
}

/// The value of a request to send for images.
#[verifier::ext_equal]
pub struct ImageCallView {
    pub request: ImageRequestView,
    pub url: Seq<char>,
    pub body: JsonView,
    pub chat: bool,
}

impl View for ImageCall {
    type V = ImageCallView;

    open spec fn view(&self) -> ImageCallView {
        ImageCallView {
            request: self.request@,
            url: self.url@,
            body: self.body@,
            chat: self.chat,
        }
    }
}

/// The request to send to a provider for images.
pub open spec fn image_call(provider: ModelProvider, model: Seq<char>, arguments: JsonView) -> Result<
    ImageCallView,
    Seq<char>,
> {
    match image_request(arguments) {
        Err(e) => Err(e),
        Ok(request) => match provider_fault(provider) {
            Some(e) => Err(e),
            None => {
                let base = without_slashes(provider.base_url@);
                if chat_image_route(provider.base_url@, model) {
                    Ok(
                        ImageCallView {
                            request,
                            url: base + "/chat/completions"@,
                            body: chat_images_body(model, request),
                            chat: true,
                        },
                    )
                } else {
                    Ok(
                        ImageCallView {
                            request,
                            url: base + "/images/generations"@,
                            body: images_body(provider, model, request),
                            chat: false,
                        },
                    )
                }
            },
        },
    }
}

/// The request to send to a provider for images: the arguments are checked
/// first, the provider next.
pub fn prepare_image_call(provider: &ModelProvider, model: &str, arguments: &Json) -> (r: Result<
    ImageCall,
    String,
>)
    ensures
        match r {
            Ok(c) => image_call(*provider, model@, arguments@) == Ok::<ImageCallView, Seq<char>>(
                c@,
            ),
            Err(e) => image_call(*provider, model@, arguments@) == Err::<ImageCallView, Seq<char>>(
                e@,
            ),
        },
{
    let request = match parse_request(arguments) {
        Ok(q) => q,
        Err(e) => {
            return Err(e);
        },
    };
    match validate_provider(provider) {
        Ok(_) => {},
        Err(e) => {
            return Err(e);
        },
    }
    let base = trim_slashes(provider.base_url.as_str());
    if uses_openrouter_chat_image_generation(provider, model) {
        let body = openrouter_chat_body(model, &request);
        Ok(
            ImageCall {
                request,
                url: concat2(base.as_str(), "/chat/completions"),
                body,
                chat: true,
            },
        )
    } else {
        let body = images_api_body(provider, model, &request);
        Ok(
            ImageCall {
                request,
                url: concat2(base.as_str(), "/images/generations"),
                body,
                chat: false,
            },
        )
    }
}

/// The provider that a selection of provider and model names.
pub open spec fn selected(
    selection: Option<(String, String)>,
    providers: Seq<ModelProvider>,
) -> Result<(int, Seq<char>), Seq<char>> {
    match selection {
        None => Err("Mixer image generation model is not configured"@),
        Some(s) => match provider_index(providers, s.0@, 0) {
            None => Err("Mixer image generation provider is missing"@),
            Some(i) => Ok((i, s.1@)),
        },
    }
}

/// The provider and model that images are generated with, where one is selected.
pub fn image_generation_target(
    selection: &Option<(String, String)>,
    providers: &Vec<ModelProvider>,
) -> (r: Result<(usize, String), String>)
    ensures
        match r {
            Ok((i, model)) => selected(*selection, providers@) == Ok::<(int, Seq<char>), Seq<char>>(
                (i as int, model@),
            ) && i < providers@.len(),
            Err(e) => selected(*selection, providers@) == Err::<(int, Seq<char>), Seq<char>>(e@),
        },
{
    match selection {
        None => Err(copy_str("Mixer image generation model is not configured")),
        Some(s) => match find_provider(providers, s.0.as_str()) {
            None => Err(copy_str("Mixer image generation provider is missing")),
            Some(i) => Ok((i, s.1.clone())),
        },
    }
}

// ---------------------------------------------------------------------
// Base64 images
// ---------------------------------------------------------------------

/// How many characters are not white space.
pub open spec fn solid_count(s: Seq<char>) -> nat
    decreases s.len(),
{
    if s.len() == 0 {
        0
    } else {
        solid_count(s.drop_last()) + if white_space(s.last()) {
            0nat
        } else {
            1nat
        }
    }
}

/// How many `=` end a text, white space aside.
pub open spec fn pad_count(s: Seq<char>) -> nat
    decreases s.len(),
{
    if s.len() == 0 {
        0
    } else if s.last() == '=' {
        pad_count(s.drop_last()) + 1
    } else if white_space(s.last()) {
        pad_count(s.drop_last())
    } else {
        0
    }
}

/// The count of bytes that Base64 text stands for: three for four characters,
/// less the padding.
pub open spec fn decoded_len(s: Seq<char>) -> nat {
    let whole = solid_count(s) * 3 / 4;
    let pad = if pad_count(s) < 2 {
        pad_count(s)
    } else {
        2
    };
    if whole < pad {
        0
    } else {
        (whole - pad) as nat
    }
}

/// The count of bytes that Base64 text stands for.
pub fn decoded_base64_len(value: &str) -> (r: Option<u64>)
    ensures
        r is Some,
        r->0 == decoded_len(value@),
{
    let v = chars_of(value);
    let mut solid: usize = 0;
    let mut i: usize = 0;
    assert(v@.take(0) =~= Seq::<char>::empty());
    while i < v.len()
        invariant
            i <= v@.len(),
            solid <= i,
            solid == solid_count(v@.take(i as int)),
        decreases v@.len() - i,
    {
        assert(v@.take(i + 1).drop_last() =~= v@.take(i as int));
        if !is_white_space(v[i]) {
            solid += 1;
        }
        i += 1;
    }
    assert(v@.take(v@.len() as int) =~= v@);
    let mut pad: usize = 0;
    let mut end: usize = v.len();
    let ghost total = pad_count(v@);
    while end > 0 && (v[end - 1] == '=' || is_white_space(v[end - 1]))
        invariant
            end <= v@.len() <= usize::MAX,
            pad <= v@.len() - end,
            total == pad + pad_count(v@.take(end as int)),
        decreases end,
    {
        assert(v@.take(end as int).drop_last() =~= v@.take(end - 1));
        if v[end - 1] == '=' {
            pad += 1;
        }
        end -= 1;
    }
    assert(pad_count(v@.take(end as int)) == 0);
    let whole: u128 = solid as u128 * 3 / 4;
    let pad: u128 = if pad < 2 {
        pad as u128
    } else {
        2
    };
    assert(whole <= u64::MAX);
    if whole < pad {
        Some(0)
    } else {
        Some((whole - pad) as u64)
    }
}

/// Why a Base64 text is no image.
pub open spec fn image_fault(value: Seq<char>) -> Option<Seq<char>> {
    if decoded_len(value) == 0 {
        Some("Generated image base64 is empty"@)
    } else if decoded_len(value) > MAX_IMAGE_BYTES {
        Some("Generated image is too large to attach"@)
    } else {
        match base64_bytes(value) {
            Some(bytes) => if bytes.len() > 0 {
                None
            } else {
                Some("Generated image base64 is invalid"@)
            },
            None => Some("Generated image base64 is invalid"@),
        }
    }
}

/// Refuses a Base64 text that is no image.
pub fn validate_base64_image(value: &str) -> (r: Result<(), String>)
    ensures
        match r {
            Ok(_) => image_fault(value@) is None,
            Err(e) => image_fault(value@) == Some(e@),
        },
{
    let decoded: u64 = match decoded_base64_len(value) {
        Some(n) => n,
        None => 0,
    };
    if decoded == 0 {
        return Err(copy_str("Generated image base64 is empty"));
    }
    if decoded > MAX_IMAGE_BYTES as u64 {
        return Err(copy_str("Generated image is too large to attach"));
    }
    let solid = match base64_decode(value) {
        Some(bytes) => bytes.len() > 0,
        None => false,
    };
    if solid {
        Ok(())
    } else {
        Err(copy_str("Generated image base64 is invalid"))
    }
}

/// The first part of a text that semicolons part, where it names an image.
pub open spec fn image_type(metadata: Seq<char>) -> Seq<char> {
    let first = trimmed(split_on(metadata, ';')[0]);
    if has_prefix(first, "image/"@) {
        first
    } else {
        "image/png"@
    }
}

fn get_image_type(metadata: &str) -> (r: String)
    ensures
        r@ == image_type(metadata@),
{
    let parts = split_char(metadata, ';');
    assert(strings(parts@).len() == parts@.len());
    assert(strings(parts@)[0] == parts@[0]@);
    let first = trim(parts[0].as_str());
    if starts_with(first.as_str(), "image/") {
        first
    } else {
        copy_str("image/png")
    }
}

/// One of the parts says that the payload is Base64.
pub open spec fn says_base64(parts: Seq<Seq<char>>) -> bool {
    exists|i: int| 0 <= i < parts.len() && lower(#[trigger] parts[i]) == "base64"@
}

/// The type and the payload of the `data:` URL of an image.
pub open spec fn image_in_url(url: Seq<char>) -> Result<(Seq<char>, Seq<char>), Seq<char>> {
    match without_prefix(trimmed(url), "data:"@) {
        None => Err("OpenRouter image response did not return a data URL"@),
        Some(rest) => match split_at_first(rest, ","@) {
            None => Err("Image data URL is malformed"@),
            Some((metadata, payload)) => if !says_base64(split_on(metadata, ';')) {
                Err("Image data URL is not base64 encoded"@)
            } else {
                match image_fault(trimmed(payload)) {
                    Some(e) => Err(e),
                    None => Ok((image_type(metadata), trimmed(payload))),
                }
            },
        },
    }
}

/// The type and the payload of the `data:` URL of an image.
pub fn parse_image_data_url(data_url: &str) -> (r: Result<(String, String), String>)
    ensures
        match r {
            Ok((mime, data)) => image_in_url(data_url@) == Ok::<
                (Seq<char>, Seq<char>),
                Seq<char>,
            >((mime@, data@)),
            Err(e) => image_in_url(data_url@) == Err::<(Seq<char>, Seq<char>), Seq<char>>(e@),
        },
{
    let url = trim(data_url);
    let rest = match strip_prefix(url.as_str(), "data:") {
        Some(t) => t,
        None => {
            return Err(copy_str("OpenRouter image response did not return a data URL"));
        },
    };
    let (metadata, payload) = match split_once(rest.as_str(), ",") {
        Some(p) => p,
        None => {
            return Err(copy_str("Image data URL is malformed"));
        },
    };
    let mime_type = get_image_type(metadata.as_str());
    let parts = split_char(metadata.as_str(), ';');
    let ghost all = strings(parts@);
    let mut encoded = false;
    let mut i: usize = 0;
    while i < parts.len()
        invariant
            i <= parts@.len(),
            all == strings(parts@),
            encoded == (exists|j: int| 0 <= j < i && lower(#[trigger] all[j]) == "base64"@),
        decreases parts@.len() - i,
    {
        let part = to_lower(parts[i].as_str());
        assert(all[i as int] == parts@[i as int]@);
        if str_eq(part.as_str(), "base64") {
            encoded = true;
        }
        i += 1;
    }
    if !encoded {
        return Err(copy_str("Image data URL is not base64 encoded"));
    }
    let data = trim(payload.as_str());
    match validate_base64_image(data.as_str()) {
        Ok(_) => Ok((mime_type, data)),
        Err(e) => Err(e),
    }
}

// ---------------------------------------------------------------------
// Replies
// ---------------------------------------------------------------------

/// What is wrong with a reply that is no JSON.
pub open spec fn unreadable(error: Seq<char>, raw: Seq<char>) -> Seq<char> {
    "Mixer image generation parse JSON: "@ + error + " (body: "@ + first_chars(raw, 500) + ")"@
}

/// The reply as JSON.
pub fn parse_reply(raw: &str) -> (r: Result<Json, String>)
    ensures
        json_result(r) == (match parsed_json(raw@) {
            Ok(value) => Ok::<JsonView, Seq<char>>(value),
            Err(error) => Err(unreadable(error, raw@)),
        }),
{
    match Json::parse(raw) {
        Ok(value) => Ok(value),
        Err(error) => {
            let shown = truncate_chars(raw, 500);
            Err(
                concat5(
                    "Mixer image generation parse JSON: ",
                    error.as_str(),
                    " (body: ",
                    shown.as_str(),
                    ")",
                ),
            )
        },
    }
}

/// One of two fields, the second where the first is missing.
pub open spec fn either_field(value: JsonView, a: Seq<char>, b: Seq<char>) -> Option<JsonView> {
    or_else(value.field(a), value.field(b))
}

fn get_either<'a>(value: &'a Json, a: &str, b: &str) -> (r: Option<&'a Json>)
    ensures
        opt_ref(r) == either_field(value@, a@, b@),
{
    match value.get(a) {
        Some(v) => Some(v),
        None => value.get(b),
    }
}

/// A text, where it is one.
pub open spec fn as_text(v: Option<JsonView>) -> Option<Seq<char>> {
    match v {
        Some(j) => j.text(),
        None => None,
    }
}

fn get_text<'a>(v: Option<&'a Json>) -> (r: Option<&'a str>)
    ensures
        opt_str(r) == as_text(opt_ref(v)),
{
    match v {
        Some(j) => j.as_str(),
        None => None,
    }
}

/// The images of one message of a chat, after those before it.
pub open spec fn message_images(
    before: Result<Seq<ImageView>, Seq<char>>,
    items: Seq<JsonView>,
) -> Result<Seq<ImageView>, Seq<char>>
    decreases items.len(),
{
    if items.len() == 0 {
        before
    } else {
        match message_images(before, items.drop_last()) {
            Err(e) => Err(e),
            Ok(images) => {
                let holder = either_field(items.last(), "image_url"@, "imageUrl"@);
                let url = match holder {
                    Some(h) => h.field_text("url"@),
                    None => None,
                };
                match url {
                    None => Ok(images),
                    Some(u) => match image_in_url(u) {
                        Err(e) => Err(e),
                        Ok((mime_type, base64)) => Ok(
                            images.push(ImageView { mime_type, base64, revised_prompt: None }),
                        ),
                    },
                }
            },
        }
    }
}

/// The items of a choice that may be images.
pub open spec fn choice_items(choice: JsonView) -> Seq<JsonView> {
    match choice.field("message"@) {
        Some(message) => match message.field_items("images"@) {
            Some(items) => items,
            None => Seq::empty(),
        },
        None => Seq::empty(),
    }
}

/// The images of the choices of a chat; the first one that is unfit fails the
/// reply.
pub open spec fn choices_images(choices: Seq<JsonView>) -> Result<Seq<ImageView>, Seq<char>>
    decreases choices.len(),
{
    if choices.len() == 0 {
        Ok(Seq::empty())
    } else {
        message_images(choices_images(choices.drop_last()), choice_items(choices.last()))
    }
}

/// The images of a reply of chat.
pub open spec fn chat_images(value: JsonView) -> Result<Seq<ImageView>, Seq<char>> {
    match value.field_items("choices"@) {
        None => Err("OpenRouter image response missing choices array"@),
        Some(choices) => choices_images(choices),
    }
}

/// A list of images or an error, as values.
pub open spec fn images_result(r: Result<Vec<GeneratedImage>, String>) -> Result<
    Seq<ImageView>,
    Seq<char>,
> {
    match r {
        Ok(images) => Ok(image_views(images@)),
        Err(e) => Err(e@),
    }
}

proof fn lemma_message_images_fail(e: Seq<char>, items: Seq<JsonView>)
    ensures
        message_images(Err(e), items) == Err::<Seq<ImageView>, Seq<char>>(e),
    decreases items.len(),
{
    if items.len() > 0 {
        lemma_message_images_fail(e, items.drop_last());
    }
}

fn add_message_images(given: Vec<GeneratedImage>, items: &Vec<Json>) -> (r: Result<
    Vec<GeneratedImage>,
    String,
>)
    ensures
        images_result(r) == message_images(Ok(image_views(given@)), items_view(items@)),
{
    let ghost before = Ok::<Seq<ImageView>, Seq<char>>(image_views(given@));
    let ghost all = items_view(items@);
    let mut images = given;
    let mut i: usize = 0;
    assert(all.take(0) =~= Seq::<JsonView>::empty());
    assert(all.len() == items@.len());
    while i < items.len()
        invariant
            i <= items@.len(),
            all == items_view(items@),
            all.len() == items@.len(),
            before == Ok::<Seq<ImageView>, Seq<char>>(image_views(given@)),
            message_images(before, all.take(i as int)) == Ok::<Seq<ImageView>, Seq<char>>(
                image_views(images@),
            ),
        decreases items@.len() - i,
    {
        let item = &items[i];
        assert(all.take(i + 1).drop_last() =~= all.take(i as int));
        assert(all.take(i + 1).last() == item@);
        let url = match get_either(item, "image_url", "imageUrl") {
            Some(holder) => holder.get_str("url"),
            None => None,
        };
        if let Some(u) = url {
            match parse_image_data_url(u) {
                Ok((mime_type, base64)) => {
                    let ghost old_images = images@;
                    let image = GeneratedImage { mime_type, base64, revised_prompt: None };
                    images.push(image);
                    assert(image_views(images@) =~= image_views(old_images).push(image@));
                },
                Err(e) => {
                    proof {
                        lemma_message_images_stay(before, all, i + 1, e@);
                    }
                    return Err(e);
                },
            }
        }
        i += 1;
    }
    assert(all.take(all.len() as int) =~= all);
    Ok(images)
}

proof fn lemma_message_images_stay(
    before: Result<Seq<ImageView>, Seq<char>>,
    items: Seq<JsonView>,
    n: int,
    e: Seq<char>,
)
    requires
        0 <= n <= items.len(),
        message_images(before, items.take(n)) == Err::<Seq<ImageView>, Seq<char>>(e),
    ensures
        message_images(before, items) == Err::<Seq<ImageView>, Seq<char>>(e),
    decreases items.len() - n,
{
    if n == items.len() {
        assert(items.take(n) =~= items);
    } else {
        assert(items.take(n + 1).drop_last() =~= items.take(n));
        lemma_message_images_stay(before, items, n + 1, e);
    }
}

proof fn lemma_choices_images_stay(choices: Seq<JsonView>, n: int, e: Seq<char>)
    requires
        0 <= n <= choices.len(),
        choices_images(choices.take(n)) == Err::<Seq<ImageView>, Seq<char>>(e),
    ensures
        choices_images(choices) == Err::<Seq<ImageView>, Seq<char>>(e),
    decreases choices.len() - n,
{
    if n == choices.len() {
        assert(choices.take(n) =~= choices);
    } else {
        assert(choices.take(n + 1).drop_last() =~= choices.take(n));
        lemma_message_images_fail(e, choice_items(choices.take(n + 1).last()));
        lemma_choices_images_stay(choices, n + 1, e);
    }
}

/// The images of a reply of chat.
pub fn parse_openrouter_response(value: &Json) -> (r: Result<Vec<GeneratedImage>, String>)
    ensures
        images_result(r) == chat_images(value@),
{
    let choices = match value.get_array("choices") {
        Some(c) => c,
        None => {
            return Err(copy_str("OpenRouter image response missing choices array"));
        },
    };
    let ghost all = items_view(choices@);
    let mut images: Vec<GeneratedImage> = Vec::new();
    let mut i: usize = 0;
    assert(image_views(images@) =~= Seq::<ImageView>::empty());
    assert(all.take(0) =~= Seq::<JsonView>::empty());
    assert(all.len() == choices@.len());
    while i < choices.len()
        invariant
            i <= choices@.len(),
            all == items_view(choices@),
            all.len() == choices@.len(),
            value@.field_items("choices"@) == Some(all),
            choices_images(all.take(i as int)) == Ok::<Seq<ImageView>, Seq<char>>(
                image_views(images@),
            ),
        decreases choices@.len() - i,
    {
        let choice = &choices[i];
        assert(all.take(i + 1).drop_last() =~= all.take(i as int));
        assert(all.take(i + 1).last() == choice@);
        let items = match choice.get("message") {
            Some(message) => message.get_array("images"),
            None => None,
        };
        match items {
            Some(list) => {
                match add_message_images(images, list) {
                    Ok(more) => {
                        images = more;
                    },
                    Err(e) => {
                        proof {
                            lemma_choices_images_stay(all, i + 1, e@);
                        }
                        return Err(e);
                    },
                }
            },
            None => {},
        }
        i += 1;
    }
    assert(all.take(all.len() as int) =~= all);
    Ok(images)
}

/// What a download brought.
#[derive(Debug)]
pub enum Download {
    Content { content_type: Option<String>, bytes: Vec<u8> },
    Failed { error: String },
}

/// The value of what a download brought.
#[verifier::ext_equal]
pub enum DownloadView {
    Content { content_type: Option<Seq<char>>, bytes: Seq<u8> },
    Failed { error: Seq<char> },
}

impl View for Download {
    type V = DownloadView;

    open spec fn view(&self) -> DownloadView {
        match self {
            Download::Content { content_type, bytes } => DownloadView::Content {
                content_type: opt_text(*content_type),
                bytes: bytes@,
            },
            Download::Failed { error } => DownloadView::Failed { error: error@ },
        }
    }
}

/// The values of the downloads, in order.
pub open spec fn download_views(v: Seq<Download>) -> Seq<DownloadView> {
    Seq::new(v.len(), |i: int| v[i]@)
}

/// The image that a download brought.
pub open spec fn downloaded_image(
    download: DownloadView,
    revised_prompt: Option<Seq<char>>,
) -> Result<ImageView, Seq<char>> {
    match download {
        DownloadView::Failed { error } => Err(error),
        DownloadView::Content { content_type, bytes } => if bytes.len() > MAX_IMAGE_BYTES {
            Err("Generated image is too large to attach"@)
        } else {
            Ok(
                ImageView {
                    mime_type: match content_type {
                        Some(t) => image_type(t),
                        None => "image/png"@,
                    },
                    base64: base64_text(bytes),
                    revised_prompt,
                },
            )
        },
    }
}

/// The image that a download brought. Its Base64 stands for the bytes.
pub fn fetched_image(download: &Download, revised_prompt: Option<String>) -> (r: Result<
    GeneratedImage,
    String,
>)
    ensures
        match r {
            Ok(image) => downloaded_image(download@, opt_text(revised_prompt)) == Ok::<
                ImageView,
                Seq<char>,
            >(image@) && base64_bytes(image.base64@) == Some(download@->bytes),
            Err(e) => downloaded_image(download@, opt_text(revised_prompt)) == Err::<
                ImageView,
                Seq<char>,
            >(e@),
        },
{
    match download {
        Download::Failed { error } => Err(error.clone()),
        Download::Content { content_type, bytes } => {
            if bytes.len() > MAX_IMAGE_BYTES {
                return Err(copy_str("Generated image is too large to attach"));
            }
            let mime_type = match content_type {
                Some(t) => get_image_type(t.as_str()),
                None => copy_str("image/png"),
            };
            Ok(
                GeneratedImage {
                    mime_type,
                    base64: base64_encode(bytes.as_slice()),
                    revised_prompt,
                },
            )
        },
    }
}

/// What one item of a reply of the images service asks for.
#[verifier::ext_equal]
pub enum ItemView {
    Nothing,
    Image { image: ImageView },
    Link { url: Seq<char>, revised_prompt: Option<Seq<char>> },
    Bad { error: Seq<char> },
}

/// A text that is not blank, trimmed.
pub open spec fn solid_text(v: Option<JsonView>) -> Option<Seq<char>> {
    match as_text(v) {
        Some(t) => if is_blank_text(t) {
            None
        } else {
            Some(trimmed(t))
        },
        None => None,
    }
}

fn get_solid(v: Option<&Json>) -> (r: Option<String>)
    ensures
        opt_text(r) == solid_text(opt_ref(v)),
{
    match get_text(v) {
        Some(t) => if is_blank(t) {
            None
        } else {
            Some(trim(t))
        },
        None => None,
    }
}

/// What one item of a reply of the images service asks for: it holds the image,
/// or links to it over HTTP.
pub open spec fn reply_item(item: JsonView) -> ItemView {
    let revised_prompt = as_text(either_field(item, "revised_prompt"@, "revisedPrompt"@));
    match solid_text(either_field(item, "b64_json"@, "b64Json"@)) {
        Some(base64) => match image_fault(base64) {
            Some(error) => ItemView::Bad { error },
            None => ItemView::Image {
                image: ImageView {
                    mime_type: match as_text(either_field(item, "mime_type"@, "mimeType"@)) {
                        Some(t) => t,
                        None => "image/png"@,
                    },
                    base64,
                    revised_prompt,
                },
            },
        },
        None => match solid_text(item.field("url"@)) {
            Some(url) => if has_prefix(url, "https://"@) || has_prefix(url, "http://"@) {
                ItemView::Link { url, revised_prompt }
            } else {
                ItemView::Bad { error: "Image generation returned a non-http image URL"@ }
            },
            None => ItemView::Nothing,
        },
    }
}

#[derive(Debug)]
enum ReplyItem {
    Nothing,
    Image { image: GeneratedImage },
    Link { url: String, revised_prompt: Option<String> },
    Bad { error: String },
}

impl View for ReplyItem {
    type V = ItemView;

    closed spec fn view(&self) -> ItemView {
        match self {
            ReplyItem::Nothing => ItemView::Nothing,
            ReplyItem::Image { image } => ItemView::Image { image: image@ },
            ReplyItem::Link { url, revised_prompt } => ItemView::Link {
                url: url@,
                revised_prompt: opt_text(*revised_prompt),
            },
            ReplyItem::Bad { error } => ItemView::Bad { error: error@ },
        }
    }
}

fn read_item(item: &Json) -> (r: ReplyItem)
    ensures
        r@ == reply_item(item@),
{
    let revised_prompt = own_opt(get_text(get_either(item, "revised_prompt", "revisedPrompt")));
    match get_solid(get_either(item, "b64_json", "b64Json")) {
        Some(base64) => {
            let mime_type = match get_text(get_either(item, "mime_type", "mimeType")) {
                Some(t) => copy_str(t),
                None => copy_str("image/png"),
            };
            match validate_base64_image(base64.as_str()) {
                Err(error) => ReplyItem::Bad { error },
                Ok(_) => ReplyItem::Image {
                    image: GeneratedImage { mime_type, base64, revised_prompt },
                },
            }
        },
        None => match get_solid(item.get("url")) {
            Some(url) => if starts_with(url.as_str(), "https://") || starts_with(
                url.as_str(),
                "http://",
            ) {
                ReplyItem::Link { url, revised_prompt }
            } else {
                ReplyItem::Bad {
                    error: copy_str("Image generation returned a non-http image URL"),
                }
            },
            None => ReplyItem::Nothing,
        },
    }
}

/// How far the reading of a reply of the images service has come.
#[derive(Debug)]
pub enum ImagesReply {
    /// All images.
    Images { images: Vec<GeneratedImage> },
    /// The next thing to download.
    Download { url: String },
    Failed { error: String },
}

/// The value of how far the reading of a reply has come.
#[verifier::ext_equal]
pub enum ReplyView {
    Images { images: Seq<ImageView> },
    Download { url: Seq<char> },
    Failed { error: Seq<char> },
}

impl View for ImagesReply {
    type V = ReplyView;

    open spec fn view(&self) -> ReplyView {
        match self {
            ImagesReply::Images { images } => ReplyView::Images { images: image_views(images@) },
            ImagesReply::Download { url } => ReplyView::Download { url: url@ },
            ImagesReply::Failed { error } => ReplyView::Failed { error: error@ },
        }
    }
}

/// Reads the items in order, with what the downloads so far brought. The first
/// fault ends the reading; so does the first link that was not downloaded yet.
pub open spec fn read_items(
    items: Seq<JsonView>,
    downloads: Seq<DownloadView>,
    images: Seq<ImageView>,
) -> ReplyView
    decreases items.len(),
{
    if items.len() == 0 {
        ReplyView::Images { images }
    } else {
        match reply_item(items[0]) {
            ItemView::Nothing => read_items(items.skip(1), downloads, images),
            ItemView::Bad { error } => ReplyView::Failed { error },
            ItemView::Image { image } => read_items(items.skip(1), downloads, images.push(image)),
            ItemView::Link { url, revised_prompt } => if downloads.len() == 0 {
                ReplyView::Download { url }
            } else {
                match downloaded_image(downloads[0], revised_prompt) {
                    Err(error) => ReplyView::Failed { error },
                    Ok(image) => read_items(items.skip(1), downloads.skip(1), images.push(image)),
                }
            },
        }
    }
}

/// Reads a reply of the images service, with what the downloads so far brought.
pub open spec fn images_reply(value: JsonView, downloads: Seq<DownloadView>) -> ReplyView {
    match value.field_items("data"@) {
        None => ReplyView::Failed { error: "Image generation response missing data array"@ },
        Some(items) => read_items(items, downloads, Seq::empty()),
    }
}

/// Reads a reply of the images service. Where it says what to download, the
/// reply is read again with what that download brought put behind the others.
pub fn parse_images_api_response(value: &Json, downloads: &Vec<Download>) -> (r: ImagesReply)
    ensures
        r@ == images_reply(value@, download_views(downloads@)),
{
    let items = match value.get_array("data") {
        Some(a) => a,
        None => {
            return ImagesReply::Failed {
                error: copy_str("Image generation response missing data array"),
            };
        },
    };
    let ghost all = items_view(items@);
    let ghost given = download_views(downloads@);
    let mut images: Vec<GeneratedImage> = Vec::new();
    let mut i: usize = 0;
    let mut used: usize = 0;
    assert(image_views(images@) =~= Seq::<ImageView>::empty());
    assert(all.skip(0) =~= all);
    assert(given.skip(0) =~= given);
    assert(all.len() == items@.len());
    while i < items.len()
        invariant
            i <= items@.len(),
            used <= downloads@.len(),
            all == items_view(items@),
            all.len() == items@.len(),
            given == download_views(downloads@),
            value@.field_items("data"@) == Some(all),
            read_items(all, given, Seq::empty()) == read_items(
                all.skip(i as int),
                given.skip(used as int),
                image_views(images@),
            ),
        decreases items@.len() - i,
    {
        let item = &items[i];
        assert(all.skip(i as int)[0] == item@);
        assert(all.skip(i as int).skip(1) =~= all.skip(i + 1));
        let ghost before = images@;
        match read_item(item) {
            ReplyItem::Nothing => {},
            ReplyItem::Bad { error } => {
                return ImagesReply::Failed { error };
            },
            ReplyItem::Image { image } => {
                images.push(image);
                assert(image_views(images@) =~= image_views(before).push(image@));
            },
            ReplyItem::Link { url, revised_prompt } => {
                if used == downloads.len() {
                    return ImagesReply::Download { url };
                }
                assert(given.skip(used as int)[0] == downloads@[used as int]@);
                assert(given.skip(used as int).skip(1) =~= given.skip(used + 1));
                match fetched_image(&downloads[used], revised_prompt) {
                    Err(error) => {
                        return ImagesReply::Failed { error };
                    },
                    Ok(image) => {
                        images.push(image);
                        assert(image_views(images@) =~= image_views(before).push(image@));
                        used += 1;
                    },
                }
            },
        }
        i += 1;
    }
    ImagesReply::Images { images }
}

// ---------------------------------------------------------------------
// Results
// ---------------------------------------------------------------------

/// The file name extension of an image type.
pub open spec fn image_extension(mime_type: Seq<char>) -> Seq<char> {
    if mime_type == "image/jpeg"@ || mime_type == "image/jpg"@ {
        "jpg"@
    } else if mime_type == "image/webp"@ {
        "webp"@
    } else if mime_type == "image/gif"@ {
        "gif"@
    } else if mime_type == "image/svg+xml"@ {
        "svg"@
    } else {
        "png"@
    }
}

/// The file name extension of an image type.
pub fn extension_for_mime(mime_type: &str) -> (r: &'static str)
    ensures
        r@ == image_extension(mime_type@),
{
    if str_eq(mime_type, "image/jpeg") || str_eq(mime_type, "image/jpg") {
        "jpg"
    } else if str_eq(mime_type, "image/webp") {
        "webp"
    } else if str_eq(mime_type, "image/gif") {
        "gif"
    } else if str_eq(mime_type, "image/svg+xml") {
        "svg"
    } else {
        "png"
    }
}

/// The artifact that the image at a place is.
pub open spec fn image_artifact(image: ImageView, index: int) -> ArtifactView {
    ArtifactView {
        name: "generated-image-"@ + decimal((index + 1) as nat) + "."@ + image_extension(
            image.mime_type,
        ),
        mime_type: image.mime_type,
        data_url: data_url(image.mime_type, image.base64),
        size_bytes: Some(decoded_len(image.base64) as u64),
        path: None,
    }
}

/// The artifacts that the images are, in order.
pub open spec fn image_artifacts(images: Seq<ImageView>) -> Seq<ArtifactView> {
    Seq::new(images.len(), |i: int| image_artifact(images[i], i))
}

fn make_artifacts(images: &Vec<GeneratedImage>) -> (r: Vec<ChatToolArtifact>)
    ensures
        artifact_views(r@) == image_artifacts(image_views(images@)),
{
    let mut out: Vec<ChatToolArtifact> = Vec::new();
    let mut i: usize = 0;
    while i < images.len()
        invariant
            i <= images@.len(),
            out@.len() == i,
            forall|j: int|
                0 <= j < i ==> (#[trigger] out@[j])@ == image_artifact(images@[j]@, j),
        decreases images@.len() - i,
    {
        let image = &images[i];
        let number = decimal_of((i + 1) as u64);
        let name = concat4(
            "generated-image-",
            number.as_str(),
            ".",
            extension_for_mime(image.mime_type.as_str()),
        );
        out.push(
            ChatToolArtifact {
                name,
                mime_type: image.mime_type.clone(),
                data_url: make_data_url(image.mime_type.as_str(), image.base64.as_str()),
                size_bytes: decoded_base64_len(image.base64.as_str()),
                path: None,
            },
        );
        i += 1;
    }
    assert(artifact_views(out@) =~= image_artifacts(image_views(images@)));
    out
}

/// The Markdown links to the artifacts, in order.
pub open spec fn artifact_links(artifacts: Seq<ArtifactView>) -> Seq<char>
    decreases artifacts.len(),
{
    if artifacts.len() == 0 {
        Seq::empty()
    } else {
        let name = artifacts.last().name;
        artifact_links(artifacts.drop_last()) + ("\n\n!["@ + name + "]("@ + name + ")"@)
    }
}

/// What is said of the artifacts.
pub open spec fn generated_text(artifacts: Seq<ArtifactView>) -> Seq<char> {
    let head = if artifacts.len() == 1 {
        "Generated 1 image."@
    } else {
        "Generated "@ + decimal(artifacts.len()) + " images."@
    };
    head + artifact_links(artifacts)
}

fn say_generated(artifacts: &Vec<ChatToolArtifact>) -> (r: String)
    ensures
        r@ == generated_text(artifact_views(artifacts@)),
{
    let ghost all = artifact_views(artifacts@);
    let mut content = if artifacts.len() == 1 {
        copy_str("Generated 1 image.")
    } else {
        let count = decimal_of(artifacts.len() as u64);
        concat3("Generated ", count.as_str(), " images.")
    };
    let ghost head = content@;
    let mut i: usize = 0;
    assert(all.take(0) =~= Seq::<ArtifactView>::empty());
    assert(content@ =~= head + artifact_links(all.take(0)));
    while i < artifacts.len()
        invariant
            i <= artifacts@.len(),
            all == artifact_views(artifacts@),
            content@ == head + artifact_links(all.take(i as int)),
        decreases artifacts@.len() - i,
    {
        assert(all.take(i + 1).drop_last() =~= all.take(i as int));
        assert(all.take(i + 1).last() == artifacts@[i as int]@);
        let name = artifacts[i].name.as_str();
        let link = concat5("\n\n![", name, "](", name, ")");
        let ghost before = content@;
        content.append(link.as_str());
        assert(content@ =~= head + artifact_links(all.take(i + 1)));
        i += 1;
    }
    assert(all.take(all.len() as int) =~= all);
    content
}

/// The prompts that the service wrote anew, in order.
pub open spec fn revised_prompts(images: Seq<ImageView>) -> Seq<JsonView>
    decreases images.len(),
{
    if images.len() == 0 {
        Seq::empty()
    } else {
        let before = revised_prompts(images.drop_last());
        match images.last().revised_prompt {
            Some(p) => before.push(str_json(p)),
            None => before,
        }
    }
}

fn list_revised_prompts(images: &Vec<GeneratedImage>) -> (r: Vec<Json>)
    ensures
        items_view(r@) == revised_prompts(image_views(images@)),
{
    let ghost all = image_views(images@);
    let mut out: Vec<Json> = Vec::new();
    let mut i: usize = 0;
    assert(items_view(out@) =~= Seq::<JsonView>::empty());
    assert(all.take(0) =~= Seq::<ImageView>::empty());
    while i < images.len()
        invariant
            i <= images@.len(),
            all == image_views(images@),
            items_view(out@) == revised_prompts(all.take(i as int)),
        decreases images@.len() - i,
    {
        assert(all.take(i + 1).drop_last() =~= all.take(i as int));
        assert(all.take(i + 1).last() == images@[i as int]@);
        let ghost before = out@;
        if let Some(p) = &images[i].revised_prompt {
            out.push(Json::string(p.as_str()));
            assert(items_view(out@) =~= items_view(before).push(str_json(p@)));
        }
        i += 1;
    }
    assert(all.take(all.len() as int) =~= all);
    out
}

/// What the tool returns for the images.
pub open spec fn generation_result(
    provider: ModelProvider,
    model: Seq<char>,
    request: ImageRequestView,
    images: Seq<ImageView>,
) -> Result<ToolResultView, Seq<char>> {
    if images.len() == 0 {
        Err("Image generation response did not include an image"@)
    } else {
        let artifacts = image_artifacts(images);
        Ok(
            ToolResultView {
                content: generated_text(artifacts),
                is_error: false,
                raw: JsonView::Object(
                    Map::empty().insert("providerId"@, str_json(provider.id@)).insert(
                        "providerName"@,
                        str_json(provider.name@),
                    ).insert("model"@, str_json(model)).insert(
                        "count"@,
                        JsonView::Number(JsonNumber::Unsigned(images.len() as u64)),
                    ).insert("size"@, str_json(request.size)).insert(
                        "quality"@,
                        str_json(request.quality),
                    ).insert("revisedPrompts"@, JsonView::Array(revised_prompts(images))),
                ),
                artifacts,
                structured_content: None,
                follow_up_user_messages: Seq::empty(),
            },
        )
    }
}

/// What the tool returns for the images.
pub fn image_result(
    provider: &ModelProvider,
    model: &str,
    request: &ImageGenerationRequest,
    images: &Vec<GeneratedImage>,
) -> (r: Result<McpToolCallResult, String>)
    ensures
        match r {
            Ok(result) => generation_result(*provider, model@, request@, image_views(images@))
                == Ok::<ToolResultView, Seq<char>>(result@),
            Err(e) => generation_result(*provider, model@, request@, image_views(images@)) == Err::<
                ToolResultView,
                Seq<char>,
            >(e@),
        },
{
    if images.len() == 0 {
        return Err(copy_str("Image generation response did not include an image"));
    }
    let artifacts = make_artifacts(images);
    let content = say_generated(&artifacts);
    assert(artifact_views(artifacts@).len() == artifacts@.len());
    let mut raw = Object::new();
    raw.set("providerId", Json::string(provider.id.as_str()));
    raw.set("providerName", Json::string(provider.name.as_str()));
    raw.set("model", Json::string(model));
    raw.set("count", Json::unsigned(artifacts.len() as u64));
    raw.set("size", Json::string(request.size.as_str()));
    raw.set("quality", Json::string(request.quality.as_str()));
    raw.set("revisedPrompts", Json::Array(list_revised_prompts(images)));
    let result = McpToolCallResult {
        content,
        is_error: false,
        raw: Json::Object(raw),
        artifacts,
        structured_content: None,
        follow_up_user_messages: Vec::new(),
    };
    assert(items_view(result.follow_up_user_messages@) =~= Seq::<JsonView>::empty());
    Ok(result)
}

/// An image whose Base64 stands for at least one byte.
pub open spec fn sound_image(image: ImageView) -> bool {
    &&& base64_bytes(image.base64) is Some
    &&& base64_bytes(image.base64)->0.len() > 0
    &&& 0 < decoded_len(image.base64) <= MAX_IMAGE_BYTES
}

/// Every image that a reply of chat gives is sound: its Base64 can be decoded, is
/// not empty and is within the limit.
pub proof fn law_chat_images_are_sound(value: JsonView)
    ensures
        chat_images(value) matches Ok(images) ==> forall|i: int|
            0 <= i < images.len() ==> sound_image(#[trigger] images[i]),
{
    if let Some(choices) = value.field_items("choices"@) {
        lemma_choices_sound(choices);
    }
}

proof fn lemma_choices_sound(choices: Seq<JsonView>)
    ensures
        choices_images(choices) matches Ok(images) ==> forall|i: int|
            0 <= i < images.len() ==> sound_image(#[trigger] images[i]),
    decreases choices.len(),
{
    if choices.len() > 0 {
        lemma_choices_sound(choices.drop_last());
        lemma_message_sound(choices_images(choices.drop_last()), choice_items(choices.last()));
    }
}

proof fn lemma_message_sound(before: Result<Seq<ImageView>, Seq<char>>, items: Seq<JsonView>)
    requires
        before matches Ok(images) ==> forall|i: int|
            0 <= i < images.len() ==> sound_image(#[trigger] images[i]),
    ensures
        message_images(before, items) matches Ok(images) ==> forall|i: int|
            0 <= i < images.len() ==> sound_image(#[trigger] images[i]),
    decreases items.len(),
{
    if items.len() > 0 {
        lemma_message_sound(before, items.drop_last());
    }
}

/// More downloads never change what was read: once the reading of a reply has
/// ended, with images or with a fault, it ends the same with further downloads,
/// and the images that were there before the reading stay in front.
pub proof fn law_downloads_are_used_in_order(
    items: Seq<JsonView>,
    downloads: Seq<DownloadView>,
    images: Seq<ImageView>,
    more: Seq<DownloadView>,
)
    ensures
        read_items(items, downloads, images) matches ReplyView::Images { images: all } ==> {
            &&& all.len() >= images.len()
            &&& images == all.take(images.len() as int)
        },
        !(read_items(items, downloads, images) is Download) ==> read_items(
            items,
            downloads + more,
            images,
        ) == read_items(items, downloads, images),
    decreases items.len(),
{
    let all = read_items(items, downloads, images)->images;
    if items.len() > 0 {
        match reply_item(items[0]) {
            ItemView::Nothing => {
                law_downloads_are_used_in_order(items.skip(1), downloads, images, more);
            },
            ItemView::Bad { error } => {},
            ItemView::Image { image } => {
                law_downloads_are_used_in_order(items.skip(1), downloads, images.push(image), more);
                lemma_take_push(images, image, all);
            },
            ItemView::Link { url, revised_prompt } => {
                if downloads.len() > 0 {
                    assert((downloads + more)[0] == downloads[0]);
                    assert((downloads + more).skip(1) =~= downloads.skip(1) + more);
                    if let Ok(image) = downloaded_image(downloads[0], revised_prompt) {
                        law_downloads_are_used_in_order(
                            items.skip(1),
                            downloads.skip(1),
                            images.push(image),
                            more,
                        );
                        lemma_take_push(images, image, all);
                    }
                }
            },
        }
    } else {
        assert(images =~= images.take(images.len() as int));
    }
}

proof fn lemma_take_push(images: Seq<ImageView>, image: ImageView, all: Seq<ImageView>)
    ensures
        all.len() >= images.len() + 1 && images.push(image) == all.take(images.len() as int + 1)
            ==> images == all.take(images.len() as int),
{
    if all.len() >= images.len() + 1 && images.push(image) == all.take(images.len() as int + 1) {
        assert(all.take(images.len() as int) =~= all.take(images.len() as int + 1).drop_last());
        assert(images.push(image).drop_last() =~= images);
    }
}

/// The links to images are those to the first, and then those to the rest.
pub proof fn law_links_stay_in_order(a: Seq<ArtifactView>, b: Seq<ArtifactView>)
    ensures
        artifact_links(a + b) == artifact_links(a) + artifact_links(b),
    decreases b.len(),
{
    if b.len() == 0 {
        assert(a + b =~= a);
        assert(artifact_links(a) + artifact_links(b) =~= artifact_links(a));
    } else {
        law_links_stay_in_order(a, b.drop_last());
        assert((a + b).drop_last() =~= a + b.drop_last());
        assert((a + b).last() == b.last());
        assert(artifact_links(a + b) =~= artifact_links(a) + artifact_links(b));
    }
}

/// The revised prompts of images are those of the first, and then those of the rest.
pub proof fn law_revised_prompts_stay_in_order(a: Seq<ImageView>, b: Seq<ImageView>)
    ensures
        revised_prompts(a + b) == revised_prompts(a) + revised_prompts(b),
    decreases b.len(),
{
    if b.len() == 0 {
        assert(a + b =~= a);
        assert(revised_prompts(a) + revised_prompts(b) =~= revised_prompts(a));
    } else {
        law_revised_prompts_stay_in_order(a, b.drop_last());
        assert((a + b).drop_last() =~= a + b.drop_last());
        assert((a + b).last() == b.last());
        assert(revised_prompts(a + b) =~= revised_prompts(a) + revised_prompts(b));
    }
}

proof fn lemma_images_keys()
    ensures
        "model"@ != "prompt"@,
        "model"@ != "n"@,
        "model"@ != "response_format"@,
        "model"@ != "aspect_ratio"@,
        "model"@ != "size"@,
        "model"@ != "background"@,
        "model"@ != "quality"@,
        "prompt"@ != "n"@,
        "prompt"@ != "response_format"@,
        "prompt"@ != "aspect_ratio"@,
        "prompt"@ != "size"@,
        "prompt"@ != "background"@,
        "prompt"@ != "quality"@,
        "n"@ != "response_format"@,
        "n"@ != "aspect_ratio"@,
        "n"@ != "size"@,
        "n"@ != "background"@,
        "n"@ != "quality"@,
        "response_format"@ != "aspect_ratio"@,
        "response_format"@ != "size"@,
        "response_format"@ != "background"@,
        "response_format"@ != "quality"@,
        "aspect_ratio"@ != "size"@,
        "aspect_ratio"@ != "background"@,
        "aspect_ratio"@ != "quality"@,
        "size"@ != "background"@,
        "size"@ != "quality"@,
        "background"@ != "quality"@,
{
    reveal_strlit("model");
    reveal_strlit("prompt");
    reveal_strlit("n");
    reveal_strlit("response_format");
    reveal_strlit("aspect_ratio");
    reveal_strlit("size");
    reveal_strlit("background");
    reveal_strlit("quality");
    assert("model"@.len() == 5);
    assert("prompt"@.len() == 6);
    assert("n"@.len() == 1);
    assert("response_format"@.len() == 15);
    assert("aspect_ratio"@.len() == 12);
    assert("size"@.len() == 4);
    assert("background"@.len() == 10);
    assert("quality"@.len() == 7);
}

proof fn lemma_chat_images_keys()
    ensures
        "model"@ != "messages"@,
        "model"@ != "modalities"@,
        "model"@ != "stream"@,
        "model"@ != "image_config"@,
        "model"@ != "role"@,
        "model"@ != "content"@,
        "messages"@ != "modalities"@,
        "messages"@ != "stream"@,
        "messages"@ != "image_config"@,
        "messages"@ != "role"@,
        "messages"@ != "content"@,
        "modalities"@ != "stream"@,
        "modalities"@ != "image_config"@,
        "modalities"@ != "role"@,
        "modalities"@ != "content"@,
        "stream"@ != "image_config"@,
        "stream"@ != "role"@,
        "stream"@ != "content"@,
        "image_config"@ != "role"@,
        "image_config"@ != "content"@,
        "role"@ != "content"@,
{
    reveal_strlit("model");
    reveal_strlit("messages");
    reveal_strlit("modalities");
    reveal_strlit("stream");
    reveal_strlit("image_config");
    reveal_strlit("role");
    reveal_strlit("content");
    assert("model"@.len() == 5);
    assert("messages"@.len() == 8);
    assert("modalities"@.len() == 10);
    assert("stream"@.len() == 6);
    assert("image_config"@.len() == 12);
    assert("role"@.len() == 4);
    assert("content"@.len() == 7);
}

proof fn lemma_generation_keys()
    ensures
        "providerId"@ != "providerName"@,
        "providerId"@ != "model"@,
        "providerId"@ != "count"@,
        "providerId"@ != "size"@,
        "providerId"@ != "quality"@,
        "providerId"@ != "revisedPrompts"@,
        "providerName"@ != "model"@,
        "providerName"@ != "count"@,
        "providerName"@ != "size"@,
        "providerName"@ != "quality"@,
        "providerName"@ != "revisedPrompts"@,
        "model"@ != "count"@,
        "model"@ != "size"@,
        "model"@ != "quality"@,
        "model"@ != "revisedPrompts"@,
        "count"@ != "size"@,
        "count"@ != "quality"@,
        "count"@ != "revisedPrompts"@,
        "size"@ != "quality"@,
        "size"@ != "revisedPrompts"@,
        "quality"@ != "revisedPrompts"@,
{
    reveal_strlit("providerId");
    reveal_strlit("providerName");
    reveal_strlit("model");
    reveal_strlit("count");
    reveal_strlit("size");
    reveal_strlit("quality");
    reveal_strlit("revisedPrompts");
    assert("providerId"@.len() == 10);
    assert("providerName"@.len() == 12);
    assert("model"@.len() == 5);
    assert("count"@.len() == 5);
    assert("size"@.len() == 4);
    assert("quality"@.len() == 7);
    assert("revisedPrompts"@.len() == 14);
    assert("model"@[0] == 'm');
    assert("count"@[0] == 'c');
}

/// One image has one link, under its name, and its revised prompt where it has one.
pub proof fn law_one_image_has_one_link(artifact: ArtifactView, image: ImageView)
    ensures
        artifact_links(seq![artifact]) == seq!['\n', '\n', '!', '['] + artifact.name + seq![
            ']',
            '(',
        ] + artifact.name + seq![')'],
        revised_prompts(seq![image]) == match image.revised_prompt {
            Some(p) => seq![JsonView::Str(p)],
            None => Seq::<JsonView>::empty(),
        },
{
    reveal_with_fuel(artifact_links, 2);
    reveal_with_fuel(revised_prompts, 2);
    reveal_strlit("\n\n![");
    reveal_strlit("](");
    reveal_strlit(")");
    assert("\n\n!["@ =~= seq!['\n', '\n', '!', '[']);
    assert("]("@ =~= seq![']', '(']);
    assert(")"@ =~= seq![')']);
    assert(seq![artifact].drop_last() =~= Seq::<ArtifactView>::empty());
    assert(seq![artifact].last() == artifact);
    assert(seq![image].drop_last() =~= Seq::<ImageView>::empty());
    assert(seq![image].last() == image);
    assert(artifact_links(seq![artifact]) =~= seq!['\n', '\n', '!', '['] + artifact.name + seq![
        ']',
        '(',
    ] + artifact.name + seq![')']);
    match image.revised_prompt {
        Some(p) => {
            assert(revised_prompts(seq![image]) =~= seq![JsonView::Str(p)]);
        },
        None => {},
    }
}

/// A request for images is taken where it has a prompt and its size and quality are known;
/// it asks for what was asked, from one image to four.
pub proof fn law_image_requests_are_as_asked(arguments: JsonView, prompt: Seq<char>, n: u64)
    requires
        arguments.field_text("prompt"@) == Some(prompt),
        arguments.field("size"@) is None,
        arguments.field("quality"@) is None,
    ensures
        is_blank_text(prompt) ==> image_request(arguments) is Err,
        !is_blank_text(prompt) ==> image_request(arguments) is Ok && ({
            let r = image_request(arguments)->Ok_0;
            &&& r.prompt == first_chars(trimmed(prompt), 8000)
            &&& r.size == "auto"@ && r.quality == "auto"@
            &&& 1 <= r.n <= 4
            &&& arguments.field_unsigned("n"@) == Some(n) && 1 <= n <= 4 ==> r.n == n
            &&& arguments.field("n"@) is None ==> r.n == 1
        }),
{
    assert(known_sizes()[0]@ == "auto"@);
    assert(known_qualities()[0]@ == "auto"@);
}

/// A size or a quality that is given is asked for, where it is known, and else refused.
pub proof fn law_sizes_are_as_asked(arguments: JsonView, size: Seq<char>, quality: Seq<char>)
    requires
        arguments.field_text("prompt"@) is Some,
        !is_blank_text(arguments.field_text("prompt"@)->0),
        arguments.field_text("size"@) == Some(size),
        arguments.field_text("quality"@) == Some(quality),
        !is_blank_text(size),
        !is_blank_text(quality),
    ensures
        image_request(arguments) is Ok <==> is_one_of(trimmed(size), known_sizes()) && is_one_of(
            trimmed(quality),
            known_qualities(),
        ),
        image_request(arguments) is Ok ==> image_request(arguments)->Ok_0.size == trimmed(size)
            && image_request(arguments)->Ok_0.quality == trimmed(quality),
        arguments.field_unsigned("n"@) is None && image_request(arguments) is Ok ==> image_request(
            arguments,
        )->Ok_0.n == 1,
{
}

/// The body of a request for images says the model, the prompt and how many; the size as
/// the service takes it; and the quality where one is asked for.
pub proof fn law_the_images_body_says_what_is_asked(
    provider: ModelProvider,
    model: Seq<char>,
    request: ImageRequestView,
)
    ensures
        ({
            let b = images_body(provider, model, request);
            let xai = xai_route(provider, model);
            &&& b.field_text("model"@) == Some(model)
            &&& b.field_text("prompt"@) == Some(request.prompt)
            &&& 0 <= request.n <= u64::MAX ==> b.field_unsigned("n"@) is Some && (b.field_unsigned(
                "n"@,
            )->0) == request.n
            &&& xai ==> b.field_text("response_format"@) == Some("b64_json"@) && b.field("size"@)
                is None && b.field("quality"@) is None
            &&& !xai ==> b.field("response_format"@) is None && b.field("aspect_ratio"@) is None
            &&& xai ==> b.field_text("aspect_ratio"@) == aspect_ratio(request.size)
            &&& !xai && request.size != "auto"@ ==> b.field_text("size"@) == Some(request.size)
            &&& !xai && request.quality != "auto"@ ==> b.field_text("quality"@) == Some(
                request.quality,
            )
            &&& request.quality == "auto"@ ==> b.field("quality"@) is None
        }),
{
    lemma_images_keys();
}

/// The body of a request for images by chat asks the prompt of the model, as one message
/// of the user.
pub proof fn law_the_chat_images_body_asks_the_prompt(model: Seq<char>, request: ImageRequestView)
    ensures
        ({
            let b = chat_images_body(model, request);
            &&& b.field_text("model"@) == Some(model)
            &&& b.field_items("messages"@) is Some
            &&& (b.field_items("messages"@)->0).len() == 1
            &&& (b.field_items("messages"@)->0)[0].field_text("role"@) == Some("user"@)
            &&& (b.field_items("messages"@)->0)[0].field_text("content"@) == Some(request.prompt)
            &&& b.field("modalities"@) == Some(modalities(model))
            &&& b.field_truth("stream"@) == Some(false)
            &&& b.field("image_config"@) is Some <==> aspect_ratio(request.size) is Some
        }),
{
    lemma_chat_images_keys();
}

/// A call for images goes to the service that the provider has for them.
pub proof fn law_image_calls_go_to_the_service(
    provider: ModelProvider,
    model: Seq<char>,
    arguments: JsonView,
)
    ensures
        ({
            let call = image_call(provider, model, arguments);
            let base = without_slashes(provider.base_url@);
            &&& call is Ok <==> image_request(arguments) is Ok && provider_fault(provider) is None
            &&& call is Ok ==> call->Ok_0.request == image_request(arguments)->Ok_0
            &&& call is Ok ==> call->Ok_0.chat == chat_image_route(provider.base_url@, model)
            &&& call is Ok && call->Ok_0.chat ==> call->Ok_0.url == base + "/chat/completions"@
                && call->Ok_0.body == chat_images_body(model, call->Ok_0.request)
            &&& call is Ok && !call->Ok_0.chat ==> call->Ok_0.url == base + "/images/generations"@
                && call->Ok_0.body == images_body(provider, model, call->Ok_0.request)
        }),
{
}

/// The images of a message are those of its first items, and then those of the rest; an
/// item that cannot be read fails the whole.
pub proof fn law_message_images_stay_in_order(
    before: Result<Seq<ImageView>, Seq<char>>,
    a: Seq<JsonView>,
    b: Seq<JsonView>,
)
    ensures
        message_images(before, a + b) == message_images(message_images(before, a), b),
    decreases b.len(),
{
    if b.len() == 0 {
        assert(a + b =~= a);
    } else {
        law_message_images_stay_in_order(before, a, b.drop_last());
        assert((a + b).drop_last() =~= a + b.drop_last());
        assert((a + b).last() == b.last());
    }
}

/// An item with an image adds it to the end; an item without one adds nothing.
pub proof fn law_an_item_adds_its_image(images: Seq<ImageView>, item: JsonView, url: Seq<char>)
    ensures
        item.path("image_url"@, "url"@) == Some(JsonView::Str(url)) && image_in_url(url) is Ok
            ==> message_images(Ok(images), seq![item]) == Ok::<Seq<ImageView>, Seq<char>>(
            images.push(
                ImageView {
                    mime_type: image_in_url(url)->Ok_0.0,
                    base64: image_in_url(url)->Ok_0.1,
                    revised_prompt: None,
                },
            ),
        ),
        item.path("image_url"@, "url"@) == Some(JsonView::Str(url)) && image_in_url(url) is Err
            ==> message_images(Ok(images), seq![item]) is Err,
        item.field("image_url"@) is None && item.field("imageUrl"@) is None ==> message_images(
            Ok(images),
            seq![item],
        ) == Ok::<Seq<ImageView>, Seq<char>>(images),
{
    reveal_with_fuel(message_images, 2);
    assert(seq![item].drop_last() =~= Seq::<JsonView>::empty());
    assert(seq![item].last() == item);
}

/// The images of one more choice come after those of the choices before it.
pub proof fn law_choices_stay_in_order(choices: Seq<JsonView>, choice: JsonView)
    ensures
        choices_images(choices.push(choice)) == message_images(
            choices_images(choices),
            choice_items(choice),
        ),
        choices_images(Seq::<JsonView>::empty()) == Ok::<Seq<ImageView>, Seq<char>>(Seq::empty()),
{
    assert(choices.push(choice).drop_last() =~= choices);
}

/// Items that hold images give these images, one by one and in order, after those that
/// are there.
pub proof fn law_every_item_gives_its_image(
    items: Seq<JsonView>,
    downloads: Seq<DownloadView>,
    images: Seq<ImageView>,
)
    requires
        forall|i: int| 0 <= i < items.len() ==> reply_item(#[trigger] items[i]) is Image,
    ensures
        read_items(items, downloads, images) == (ReplyView::Images {
            images: images + Seq::new(items.len(), |i: int| reply_item(items[i])->Image_image),
        }),
    decreases items.len(),
{
    let all = Seq::new(items.len(), |i: int| reply_item(items[i])->Image_image);
    if items.len() == 0 {
        assert(images + all =~= images);
    } else {
        let rest = items.skip(1);
        assert(reply_item(items[0]) is Image);
        let image = reply_item(items[0])->Image_image;
        assert forall|i: int| 0 <= i < rest.len() implies reply_item(#[trigger] rest[i])
            is Image by {
            assert(rest[i] == items[i + 1]);
        }
        law_every_item_gives_its_image(rest, downloads, images.push(image));
        assert(images.push(image) + Seq::new(rest.len(), |i: int| reply_item(rest[i])->Image_image)
            =~= images + all);
    }
}

/// An item holds the image that it gives in text, or else the link that it gives; with its
/// revised prompt.
pub proof fn law_items_are_read_whole(item: JsonView, t: Seq<char>)
    requires
        !is_blank_text(t),
    ensures
        item.field_text("b64_json"@) == Some(t) && image_fault(trimmed(t)) is None ==> reply_item(
            item,
        ) is Image && reply_item(item)->Image_image.base64 == trimmed(t) && (item.field_text(
            "revised_prompt"@,
        ) is Some ==> reply_item(item)->Image_image.revised_prompt == item.field_text(
            "revised_prompt"@,
        )) && (item.field_text("mime_type"@) is Some ==> reply_item(item)->Image_image.mime_type
            == item.field_text("mime_type"@)->0),
        item.field_text("b64_json"@) == Some(t) && image_fault(trimmed(t)) is Some ==> reply_item(
            item,
        ) is Bad,
        item.field("b64_json"@) is None && item.field("b64Json"@) is None && item.field_text("url"@)
            == Some(t) && has_prefix(trimmed(t), "https://"@) ==> reply_item(item) is Link
            && reply_item(item)->Link_url == trimmed(t),
        item.field("b64_json"@) is None && item.field("b64Json"@) is None && item.field("url"@)
            is None ==> reply_item(item) is Nothing,
{
}

/// An image that was downloaded is kept with its bytes, where it is not too large.
pub proof fn law_downloads_keep_their_bytes(
    content_type: Option<Seq<char>>,
    bytes: Seq<u8>,
    revised_prompt: Option<Seq<char>>,
    error: Seq<char>,
)
    ensures
        ({
            let r = downloaded_image(
                (DownloadView::Content { content_type, bytes }),
                revised_prompt,
            );
            &&& r is Ok <==> bytes.len() <= 25_165_824
            &&& r is Ok ==> r->Ok_0.base64 == base64_text(bytes) && r->Ok_0.revised_prompt
                == revised_prompt
            &&& r is Ok && content_type is None ==> r->Ok_0.mime_type == "image/png"@
        }),
        downloaded_image((DownloadView::Failed { error }), revised_prompt) == Err::<
            ImageView,
            Seq<char>,
        >(error),
{
}

/// Images become artifacts, one each and in order, with their type and their data; the
/// result holds them all, and there is an error where there are none.
pub proof fn law_images_become_artifacts(
    provider: ModelProvider,
    model: Seq<char>,
    request: ImageRequestView,
    images: Seq<ImageView>,
    i: int,
)
    requires
        0 <= i < images.len(),
    ensures
        generation_result(provider, model, request, Seq::<ImageView>::empty()) is Err,
        generation_result(provider, model, request, images) is Ok,
        ({
            let r = generation_result(provider, model, request, images)->Ok_0;
            &&& r.artifacts.len() == images.len()
            &&& r.artifacts[i].mime_type == images[i].mime_type
            &&& r.artifacts[i].data_url == "data:"@ + images[i].mime_type + ";base64,"@
                + images[i].base64
            &&& r.artifacts[i].name == "generated-image-"@ + decimal((i + 1) as nat) + "."@
                + image_extension(images[i].mime_type)
            &&& crate::text::has_suffix(r.content, artifact_links(r.artifacts))
            &&& r.raw.field_text("model"@) == Some(model)
            &&& r.raw.field_text("providerId"@) == Some(provider.id@)
            &&& r.raw.field_text("size"@) == Some(request.size)
            &&& r.raw.field_text("quality"@) == Some(request.quality)
            &&& images.len() <= u64::MAX ==> r.raw.field_unsigned("count"@) is Some && (
            r.raw.field_unsigned("count"@)->0) == images.len()
            &&& r.raw.field_items("revisedPrompts"@) == Some(revised_prompts(images))
            &&& !r.is_error
        }),
{
    lemma_generation_keys();
    let r = generation_result(provider, model, request, images)->Ok_0;
    let links = artifact_links(r.artifacts);
    assert(r.content.subrange(r.content.len() - links.len(), r.content.len() as int) =~= links);
}

/// Text without white space and padding stands for three bytes in four characters; each
/// padding character takes one byte off.
pub proof fn law_decoded_lengths(s: Seq<char>)
    requires
        forall|i: int| 0 <= i < s.len() ==> !white_space(#[trigger] s[i]) && s[i] != '=',
        s.len() >= 2,
    ensures
        decoded_len(s) == s.len() * 3 / 4,
        decoded_len(s.push('=')) == (s.len() + 1) * 3 / 4 - 1,
        decoded_len(s.push('=').push('=')) == (s.len() + 2) * 3 / 4 - 2,
{
    lemma_solid(s);
    let a = s.push('=');
    let b = a.push('=');
    assert(a.drop_last() =~= s);
    assert(b.drop_last() =~= a);
    assert(s[s.len() - 1] == s.last());
    reveal_with_fuel(pad_count, 4);
    assert(!white_space('='));
}

proof fn lemma_solid(s: Seq<char>)
    requires
        forall|i: int| 0 <= i < s.len() ==> !white_space(#[trigger] s[i]) && s[i] != '=',
    ensures
        solid_count(s) == s.len(),
    decreases s.len(),
{
    if s.len() > 0 {
        let front = s.drop_last();
        assert(s[s.len() - 1] == s.last());
        assert forall|i: int| 0 <= i < front.len() implies !white_space(#[trigger] front[i])
            && front[i] != '=' by {
            assert(s[i] == front[i]);
        }
        lemma_solid(front);
    }
}

/// A size stands for its ratio; a size that is left open for none.
pub proof fn law_sizes_stand_for_ratios(size: Seq<char>)
    ensures
        aspect_ratio("1024x1024"@) == Some("1:1"@),
        aspect_ratio("1024x1536"@) == Some("2:3"@),
        aspect_ratio("1536x1024"@) == Some("3:2"@),
        size != "1024x1024"@ && size != "1024x1536"@ && size != "1536x1024"@ ==> aspect_ratio(
            size,
        ) is None,
{
    reveal_strlit("1024x1024");
    reveal_strlit("1024x1536");
    reveal_strlit("1536x1024");
    assert("1024x1024"@[5] == '1' && "1024x1024"@[6] == '0' && "1024x1024"@[1] == '0');
    assert("1024x1536"@[5] == '1' && "1024x1536"@[6] == '5' && "1024x1536"@[1] == '0');
    assert("1536x1024"@[1] == '5');
}

/// A provider can be asked for images where it speaks chat completions or responses and
/// has a key.
pub proof fn law_image_providers_have_a_key(provider: ModelProvider)
    ensures
        provider_fault(provider) is None <==> provider.api_keys@.len() > 0 && provider.api_format@
            != "anthropic_messages"@ && provider.api_format@ != "gemini"@,
{
    crate::settings::law_formats_have_names(provider.api_format@);
}

/// The data of an image comes out of its URL, with its type.
pub proof fn law_data_urls_hold_images(kind: Seq<char>, payload: Seq<char>)
    requires
        !kind.contains(';'),
        !kind.contains(','),
        kind.len() > 0,
        trimmed(kind) == kind,
        payload.len() > 0,
        trimmed(payload) == payload,
        has_prefix(kind, "image/"@),
        image_fault(payload) is None,
    ensures
        image_in_url("data:"@ + kind + ";base64,"@ + payload) == Ok::<
            (Seq<char>, Seq<char>),
            Seq<char>,
        >((kind, payload)),
{
    reveal_strlit("data:");
    reveal_strlit(";base64,");
    reveal_strlit("base64");
    reveal_strlit(",");
    let url = "data:"@ + kind + ";base64,"@ + payload;
    let none = Seq::<char>::empty();
    lemma_ends(payload);
    assert(url.last() == payload.last());
    assert(url[0] == 'd');
    crate::text::law_trimming_finds_the_core(none, url, none);
    assert(none + url + none =~= url);
    let meta = kind + seq![';'] + "base64"@;
    let rest = meta + ","@ + payload;
    assert("data:"@ + rest =~= url);
    assert(url.subrange(0, 5) =~= "data:"@);
    assert(url.skip(5) =~= rest);
    assert(","@ =~= seq![',']);
    assert forall|j: int| 0 <= j < meta.len() implies !crate::text::occurs_at(rest, ","@, j) by {
        if crate::text::occurs_at(rest, ","@, j) {
            assert(rest.subrange(j, j + 1)[0] == ',');
            assert(rest[j] == meta[j]);
            if j < kind.len() {
                assert(kind.contains(kind[j]));
            }
        }
    }
    crate::text::law_texts_come_apart(meta, ","@, payload);
    let parts = seq![kind, "base64"@];
    assert forall|i: int| 0 <= i < parts.len() implies !(#[trigger] parts[i]).contains(';') by {
        if parts[i].contains(';') {
            let k = choose|k: int| 0 <= k < parts[i].len() && parts[i][k] == ';';
            if i == 0 {
                assert(kind.contains(';'));
            } else {
                assert("base64"@[k] == ';');
            }
        }
    }
    crate::text::law_joined_texts_come_apart(parts, ';');
    reveal_with_fuel(crate::text::joined, 3);
    assert(parts.drop_last() =~= seq![kind]);
    assert(crate::text::joined(parts, seq![';']) =~= meta);
    assert(split_on(meta, ';') == parts);
    assert(lower("base64"@) =~= "base64"@);
    assert(lower(parts[1]) == "base64"@);
    assert(says_base64(parts));
    assert(parts[0] == kind);
}

proof fn lemma_ends(s: Seq<char>)
    requires
        s.len() > 0,
        trimmed(s) == s,
    ensures
        !white_space(s[0]),
        !white_space(s.last()),
{
    crate::text::law_trimming_takes_white_space(s);
}

/// A model that makes images alone is asked for images alone, and any other for text too.
pub proof fn law_modalities_ask_for_images(model: Seq<char>)
    ensures
        modalities(model).items() is Some,
        (modalities(model).items()->0).len() > 0,
        (modalities(model).items()->0)[0] == JsonView::Str("image"@),
        has_infix(lower(model), "flux"@) ==> (modalities(model).items()->0).len() == 1,
        !has_any_infix(lower(model), image_only_marks()) ==> modalities(model).items() == Some(
            seq![JsonView::Str("image"@), JsonView::Str("text"@)],
        ),
{
    assert(image_only_marks()[0]@ == "flux"@);
    if has_infix(lower(model), "flux"@) {
        assert(has_infix(lower(model), image_only_marks()[0]@));
    }
}

/// Images go by chat where the service is one that gives them so, or the model is of a
/// maker whose models do, on a service that is not the maker's own.
pub proof fn law_images_go_by_chat(base_url: Seq<char>, model: Seq<char>)
    ensures
        has_infix(lower(trimmed(base_url)), "openrouter.ai"@) ==> chat_image_route(base_url, model),
        !has_infix(lower(trimmed(base_url)), "openrouter.ai"@) && (has_infix(
            lower(base_url),
            "api.openai.com"@,
        ) || has_infix(lower(base_url), "api.x.ai"@)) ==> !chat_image_route(base_url, model),
        !has_infix(lower(base_url), "api.openai.com"@) && !has_infix(lower(base_url), "api.x.ai"@)
            && has_prefix(lower(trimmed(model)), "google/"@) ==> chat_image_route(base_url, model),
        chat_image_route(base_url, model) && !has_infix(lower(trimmed(base_url)), "openrouter.ai"@)
            ==> has_any_prefix(lower(trimmed(model)), chat_image_makers()),
{
    assert(chat_image_makers()[2]@ == "google/"@);
    if has_prefix(lower(trimmed(model)), "google/"@) {
        assert(has_prefix(lower(trimmed(model)), chat_image_makers()[2]@));
    }
}

/// The text on images that were made says how many.
pub proof fn law_the_text_says_how_many(artifacts: Seq<ArtifactView>)
    ensures
        artifacts.len() == 1 ==> has_prefix(generated_text(artifacts), "Generated 1 image."@),
        artifacts.len() != 1 ==> has_prefix(
            generated_text(artifacts),
            "Generated "@ + decimal(artifacts.len()) + " images."@,
        ),
{
    let s = generated_text(artifacts);
    let head = if artifacts.len() == 1 {
        "Generated 1 image."@
    } else {
        "Generated "@ + decimal(artifacts.len()) + " images."@
    };
    assert(s.subrange(0, head.len() as int) =~= head);
}

/// Every character that is not white space is counted, once each; white space at the end
/// of a text, and between the signs that fill it up, is passed over.
pub proof fn law_solid_characters_are_counted(s: Seq<char>, c: char)
    ensures
        solid_count(s) == s.filter(|d: char| !white_space(d)).len(),
        pad_count(s.push('=')) == pad_count(s) + 1,
        white_space(c) && c != '=' ==> pad_count(s.push(c)) == pad_count(s) && decoded_len(
            s.push(c),
        ) == decoded_len(s),
        !white_space(c) && c != '=' ==> pad_count(s.push(c)) == 0,
    decreases s.len(),
{
    reveal(Seq::filter);
    assert(s.push('=').drop_last() =~= s);
    assert(s.push(c).drop_last() =~= s);
    if s.len() > 0 {
        law_solid_characters_are_counted(s.drop_last(), c);
    }
}

} // verus!
