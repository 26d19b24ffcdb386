//! The adapter of the chat completions service.

use vstd::prelude::*;

use crate::json::{items_view, json_text, parsed_json};
use crate::json::{Json, JsonNumber, JsonView, Object};
use crate::model::messages::{
    arguments_of, call_count, drawn, item_texts, message_calls, object1, reasoning_field, request_messages, str_json,
    with_field,
};
use crate::model::messages::{
    collect_item_texts, fresh_call_ids, make_object1, openai_messages_from_generate_request,
    parse_tool_arguments, pending_tool_calls_with, reasoning_value,
};
use crate::model::sse::{data_of_line, split_lines};
use crate::model::sse::{ended_lines, law_cuts_do_not_change_lines, line_data, open_line};
use crate::model::types::{
    call_views, law_tools_are_told_whole, message_views, stream_views, tool_views, CallView,
    OutputView, StreamView, ToolView,
};
use crate::model::types::{
    emit, GenerateOutput, GenerateRequest, ModelError, ModelErrorKind, ModelTool, ModelUsage,
    PendingToolCall, ProviderCapabilities, StreamPart,
};
use crate::settings::ModelProvider;
use crate::text::{
    among, decimal, first_chars, has_prefix, is_blank_text, joined, opt_text, strings, strip_back,
    trimmed,
};
use crate::text::{
    concat2, concat4, copy_opt, copy_str, decimal_of, is_blank, join, own_opt, starts_with, str_eq,
    strip_prefix, trim, trim_end_set, truncate_chars,
};
use crate::usage::{model_usage_from_openai_value, openai_usage};

verus! {

/// The chat completions service of a provider.
#[derive(Debug)]
pub struct OpenAiChatProvider<'a> {
    pub provider: &'a ModelProvider,
    pub retry_attempts: usize,
}

/// A label, or another where it is blank.
pub open spec fn label_or(label: Seq<char>, fallback: Seq<char>) -> Seq<char> {
    if is_blank_text(label) {
        fallback
    } else {
        label
    }
}

/// The label of a request, or another where it is blank.
pub fn request_label(request: &GenerateRequest, fallback: &str) -> (r: String)
    ensures
        r@ == label_or(request.metadata.label@, fallback@),
{
    if is_blank(request.metadata.label.as_str()) {
        copy_str(fallback)
    } else {
        request.metadata.label.clone()
    }
}

/// A URL without the slashes at its end.
pub open spec fn without_slashes(url: Seq<char>) -> Seq<char> {
    strip_back(url, among(seq!['/']))
}

/// A URL without the slashes at its end.
pub fn trim_slashes(url: &str) -> (r: String)
    ensures
        r@ == without_slashes(url@),
{
    let slash = ['/'];
    assert(slash@ == seq!['/']);
    trim_end_set(url, &slash)
}

/// The tools as chat completions write them, in order.
pub open spec fn tools_json(tools: Seq<ToolView>) -> Seq<JsonView> {
    Seq::new(tools.len(), |i: int| tools[i].chat_json())
}

fn make_tools(tools: &Vec<ModelTool>) -> (r: Vec<Json>)
    ensures
        items_view(r@) == tools_json(tool_views(tools@)),
{
    let ghost all = tool_views(tools@);
    let mut out: Vec<Json> = Vec::new();
    let mut i: usize = 0;
    while i < tools.len()
        invariant
            i <= tools@.len(),
            all == tool_views(tools@),
            items_view(out@) == tools_json(all).take(i as int),
        decreases tools@.len() - i,
    {
        let ghost before = out@;
        out.push(tools[i].to_openai_tool());
        assert(items_view(out@) == items_view(before).push(tools_json(all)[i as int]));
        i += 1;
    }
    assert(tools_json(all).take(all.len() as int) == tools_json(all));
    out
}

/// The fields of `extra` over those of `base`.
pub open spec fn overridden(base: Map<Seq<char>, JsonView>, extra: JsonView) -> Map<
    Seq<char>,
    JsonView,
> {
    match extra {
        JsonView::Object(m) => base.union_prefer_right(m),
        _ => base,
    }
}

/// Puts the fields of `extra` over those of `body`.
pub fn apply_overrides(body: &mut Object, extra: &Json)
    ensures
        final(body)@ == overridden(old(body)@, extra@),
{
    if let Json::Object(o) = extra {
        let ghost base = body@;
        let ghost all = o.fields@;
        let mut i: usize = 0;
        assert(all.take(0) == Seq::<(String, Json)>::empty());
        assert(base.union_prefer_right(Map::<Seq<char>, JsonView>::empty()) =~= base);
        while i < o.fields.len()
            invariant
                i <= o.fields@.len(),
                all == o.fields@,
                body@ == base.union_prefer_right(crate::json::fields_view(all.take(i as int))),
            decreases o.fields@.len() - i,
        {
            proof {
                let m = crate::json::fields_view(all.take(i as int));
                assert(all.take(i + 1).drop_last() == all.take(i as int));
                let k = all[i as int].0@;
                let v = crate::json::json_view(all[i as int].1);
                assert(base.union_prefer_right(m).insert(k, v) =~= base.union_prefer_right(
                    m.insert(k, v),
                ));
            }
            body.set(o.fields[i].0.as_str(), o.fields[i].1.copy());
            i += 1;
        }
        assert(all.take(all.len() as int) == all);
    }
}

/// The body of a request. `thinking_field` tells whether the service knows the
/// field that switches thinking off; the user's own fields come last and win.
pub open spec fn chat_body(request: GenerateRequest, stream: bool, thinking_field: bool) -> JsonView {
    let base = Map::empty().insert("model"@, str_json(request.model@)).insert(
        "messages"@,
        JsonView::Array(request_messages(request.system@, message_views(request.messages@))),
    ).insert("temperature"@, request.options.temperature@).insert(
        "max_tokens"@,
        JsonView::Number(JsonNumber::Unsigned(request.options.max_tokens as u64)),
    );
    let streamed = with_field(
        base,
        "stream"@,
        if stream {
            Some(JsonView::Bool(true))
        } else {
            None
        },
    );
    let tooled = with_field(
        streamed,
        "tools"@,
        if request.tools@.len() > 0 {
            Some(JsonView::Array(tools_json(tool_views(request.tools@))))
        } else {
            None
        },
    );
    let thought = with_field(
        tooled,
        "thinking"@,
        if !request.options.thinking_enabled && thinking_field {
            Some(object1("type"@, str_json("disabled"@)))
        } else {
            None
        },
    );
    JsonView::Object(overridden(thought, request.options.provider_options@))
}

impl<'a> OpenAiChatProvider<'a> {
    pub fn new(provider: &'a ModelProvider, retry_attempts: usize) -> (r: OpenAiChatProvider<'a>)
        ensures
            r.provider == provider,
            r.retry_attempts == retry_attempts,
    {
        OpenAiChatProvider { provider, retry_attempts }
    }

    /// What the service can do.
    pub fn capabilities(&self) -> (r: ProviderCapabilities)
        ensures
            r == (ProviderCapabilities {
                tool_calling: self.provider.supports_tools,
                vision: true,
                streaming: true,
                reasoning: true,
            }),
    {
        ProviderCapabilities {
            tool_calling: self.provider.supports_tools,
            vision: true,
            streaming: true,
            reasoning: true,
        }
    }

    /// Where requests go.
    pub fn chat_completions_url(&self) -> (r: String)
        ensures
            r@ == without_slashes(self.provider.base_url@) + "/chat/completions"@,
    {
        let base = trim_slashes(self.provider.base_url.as_str());
        concat2(base.as_str(), "/chat/completions")
    }

    /// The body of a request.
    pub fn request_body(&self, request: &GenerateRequest, stream: bool, thinking_field: bool) -> (r:
        Json)
        ensures
            r@ == chat_body(*request, stream, thinking_field),
    {
        let mut o = Object::new();
        o.set("model", Json::string(request.model.as_str()));
        o.set("messages", Json::Array(openai_messages_from_generate_request(request)));
        o.set("temperature", request.options.temperature.copy());
        o.set("max_tokens", Json::unsigned(request.options.max_tokens as u64));
        if stream {
            o.set("stream", Json::Bool(true));
        }
        if request.tools.len() > 0 {
            o.set("tools", Json::Array(make_tools(&request.tools)));
        }
        if !request.options.thinking_enabled && thinking_field {
            o.set("thinking", make_object1("type", Json::string("disabled")));
        }
        apply_overrides(&mut o, &request.options.provider_options);
        Json::Object(o)
    }
}

// ---------------------------------------------------------------------
// Replies
// ---------------------------------------------------------------------

/// The first choice of a reply.
pub open spec fn first_choice(value: JsonView) -> Option<JsonView> {
    match value.field("choices"@) {
        Some(choices) => choices.item(0),
        None => None,
    }
}

/// The first choice of a reply.
pub fn choice_of(value: &Json) -> (r: Option<&Json>)
    ensures
        crate::json::opt_ref(r) == first_choice(value@),
{
    match value.get("choices") {
        Some(choices) => choices.item(0),
        None => None,
    }
}

/// The text of a message of the assistant.
pub open spec fn assistant_text(message: JsonView) -> Seq<char> {
    match message.field("content"@) {
        Some(JsonView::Str(t)) => t,
        Some(JsonView::Array(items)) => joined(item_texts(items), "\n"@),
        _ => Seq::empty(),
    }
}

/// The reasoning of a message, trimmed, where it is not blank.
pub open spec fn trimmed_reasoning(message: JsonView) -> Option<Seq<char>> {
    match reasoning_field(message) {
        Some(JsonView::Str(t)) => kept_text(t),
        _ => None,
    }
}

/// A text, trimmed, where it is not blank.
pub open spec fn kept_text(t: Seq<char>) -> Option<Seq<char>> {
    if is_blank_text(t) {
        None
    } else {
        Some(trimmed(t))
    }
}

/// A text, trimmed, where it is not blank.
pub fn non_empty(value: &str) -> (r: Option<String>)
    ensures
        opt_text(r) == kept_text(value@),
{
    if is_blank(value) {
        None
    } else {
        Some(trim(value))
    }
}

/// A reply is not one: the message of the error.
pub open spec fn invalid_text(label: Seq<char>, raw: Seq<char>) -> Seq<char> {
    "Invalid "@ + label + " response: "@ + first_chars(raw, 500)
}

/// The error for a reply that is not one.
pub fn invalid_response(label: &str, raw: &str) -> (r: ModelError)
    ensures
        r.message@ == invalid_text(label@, raw@),
        r.kind == ModelErrorKind::Other,
{
    let shown = truncate_chars(raw, 500);
    let message = concat4("Invalid ", label, " response: ", shown.as_str());
    ModelError::new(message.as_str())
}

/// A reply over the characters of its error.
pub open spec fn output_result(r: Result<GenerateOutput, ModelError>) -> Result<
    OutputView,
    Seq<char>,
> {
    match r {
        Ok(o) => Ok(o@),
        Err(e) => Err(e.message@),
    }
}

/// The reply that a chat completion is; it is one where its first choice holds a
/// message.
pub open spec fn completion_output(
    value: JsonView,
    raw: Seq<char>,
    label: Seq<char>,
    fresh: Seq<Seq<char>>,
) -> Result<OutputView, Seq<char>> {
    match first_choice(value) {
        None => Err(invalid_text(label, raw)),
        Some(choice) => match choice.field("message"@) {
            None => Err(invalid_text(label, raw)),
            Some(message) => Ok(
                OutputView {
                    text: assistant_text(message),
                    reasoning: trimmed_reasoning(message),
                    tool_calls: message_calls(message, fresh),
                    usage: openai_usage(value),
                    finish_reason: choice.field_text("finish_reason"@),
                    provider_messages: seq![message],
                    cancelled: false,
                },
            ),
        },
    }
}

fn assistant_text_from_openai_message(message: &Json) -> (r: String)
    ensures
        r@ == assistant_text(message@),
{
    match message.get("content") {
        Some(Json::Str(t)) => t.clone(),
        Some(Json::Array(items)) => {
            let texts = collect_item_texts(items);
            join(&texts, "\n")
        },
        _ => String::new(),
    }
}

fn reasoning_from_openai_message(message: &Json) -> (r: Option<String>)
    ensures
        opt_text(r) == trimmed_reasoning(message@),
{
    match reasoning_value(message) {
        Some(Json::Str(t)) => non_empty(t.as_str()),
        _ => None,
    }
}

/// The message of the first choice.
pub open spec fn choice_message(value: JsonView) -> Option<JsonView> {
    match first_choice(value) {
        Some(choice) => choice.field("message"@),
        None => None,
    }
}

/// The reply that a chat completion is; tool calls without an identifier take
/// those of `fresh`.
pub fn output_from_chat_completion_with(
    value: &Json,
    raw: &str,
    label: &str,
    fresh: &Vec<String>,
) -> (r: Result<GenerateOutput, ModelError>)
    requires
        match choice_message(value@) {
            Some(message) => match message.field_items("tool_calls"@) {
                Some(calls) => fresh@.len() >= calls.len(),
                None => true,
            },
            None => true,
        },
    ensures
        output_result(r) == completion_output(value@, raw@, label@, strings(fresh@)),
        r is Err ==> r->Err_0.kind == ModelErrorKind::Other,
{
    let choice = match choice_of(value) {
        Some(c) => c,
        None => {
            return Err(invalid_response(label, raw));
        },
    };
    let message = match choice.get("message") {
        Some(m) => m,
        None => {
            return Err(invalid_response(label, raw));
        },
    };
    let mut provider_messages: Vec<Json> = Vec::new();
    provider_messages.push(message.copy());
    assert(items_view(provider_messages@) == seq![message@]);
    Ok(
        GenerateOutput {
            text: assistant_text_from_openai_message(message),
            reasoning: reasoning_from_openai_message(message),
            tool_calls: pending_tool_calls_with(message, fresh),
            usage: model_usage_from_openai_value(value),
            finish_reason: own_opt(choice.get_str("finish_reason")),
            provider_messages,
            cancelled: false,
        },
    )
}

/// How many entries the `tool_calls` of a chat completion has.
pub open spec fn reply_call_count(value: JsonView) -> nat {
    match choice_message(value) {
        Some(message) => call_count(message),
        None => 0,
    }
}

/// The reply that a chat completion is. A tool call without an identifier gets
/// one by chance.
pub fn output_from_chat_completion(value: &Json, raw: &str, label: &str) -> (r: Result<
    GenerateOutput,
    ModelError,
>)
    ensures
        r is Ok == choice_message(value@) is Some,
        exists|fresh: Seq<Seq<char>>|
            drawn(fresh, reply_call_count(value@), "tool_"@) && output_result(r)
                == #[trigger] completion_output(value@, raw@, label@, fresh),
{
    let none: Vec<String> = Vec::new();
    let fresh = match choice_of(value) {
        Some(choice) => match choice.get("message") {
            Some(message) => fresh_call_ids(message),
            None => none,
        },
        None => none,
    };
    output_from_chat_completion_with(value, raw, label, &fresh)
}

/// The error for a body that is not JSON.
pub open spec fn parse_error_text(label: Seq<char>, error: Seq<char>, raw: Seq<char>) -> Seq<char> {
    label + " parse JSON: "@ + error + " (body: "@ + first_chars(raw, 500) + ")"@
}

/// The JSON of a body, or the error for a body that is not JSON.
pub fn parse_body(raw: &str, label: &str) -> (r: Result<Json, ModelError>)
    ensures
        match r {
            Ok(j) => parsed_json(raw@) == Ok::<JsonView, Seq<char>>(j@),
            Err(e) => parsed_json(raw@) is Err && e.message@ == parse_error_text(
                label@,
                parsed_json(raw@)->Err_0,
                raw@,
            ) && e.kind == ModelErrorKind::Other,
        },
{
    match Json::parse(raw) {
        Ok(j) => Ok(j),
        Err(e) => {
            let shown = truncate_chars(raw, 500);
            let mut message = concat4(label, " parse JSON: ", e.as_str(), " (body: ");
            message.append(shown.as_str());
            message.append(")");
            Err(ModelError::new(message.as_str()))
        },
    }
}

/// The reply that the body of a response is.
pub fn output_from_body(raw: &str, label: &str) -> (r: Result<GenerateOutput, ModelError>)
    ensures
        match parsed_json(raw@) {
            Ok(value) => exists|fresh: Seq<Seq<char>>|
                drawn(fresh, reply_call_count(value), "tool_"@) && output_result(r)
                    == #[trigger] completion_output(value, raw@, label@, fresh),
            Err(e) => r is Err && r->Err_0.message@ == parse_error_text(label@, e, raw@),
        },
{
    match parse_body(raw, label) {
        Ok(value) => output_from_chat_completion(&value, raw, label),
        Err(e) => Err(e),
    }
}

// ---------------------------------------------------------------------
// Streams: text
// ---------------------------------------------------------------------

/// Whether a text comes piece by piece or as all of it so far.
#[derive(Debug, Clone, Copy, PartialEq, Eq, Structural)]
pub enum ChatStreamTextMode {
    Delta,
    Snapshot,
}

/// A text that is there and not empty.
pub open spec fn filled(v: Option<JsonView>) -> Option<Seq<char>> {
    match v {
        Some(JsonView::Str(t)) => if t.len() > 0 {
            Some(t)
        } else {
            None
        },
        _ => None,
    }
}

/// The text that an event of the stream carries.
pub open spec fn event_text(value: JsonView) -> Option<(Seq<char>, ChatStreamTextMode)> {
    match first_choice(value) {
        None => None,
        Some(choice) => match filled(choice.path("delta"@, "content"@)) {
            Some(t) => Some((t, ChatStreamTextMode::Delta)),
            None => match filled(choice.field("text"@)) {
                Some(t) => Some((t, ChatStreamTextMode::Delta)),
                None => match filled(choice.path("message"@, "content"@)) {
                    Some(t) => Some((t, ChatStreamTextMode::Snapshot)),
                    None => None,
                },
            },
        },
    }
}

/// The reasoning in a field of the choice.
pub open spec fn reasoning_under(choice: JsonView, key: Seq<char>) -> Option<Seq<char>> {
    match choice.field(key) {
        Some(v) => filled(reasoning_field(v)),
        None => None,
    }
}

/// The reasoning that an event of the stream carries.
pub open spec fn event_reasoning(value: JsonView) -> Option<(Seq<char>, ChatStreamTextMode)> {
    match first_choice(value) {
        None => None,
        Some(choice) => match reasoning_under(choice, "delta"@) {
            Some(t) => Some((t, ChatStreamTextMode::Delta)),
            None => match reasoning_under(choice, "message"@) {
                Some(t) => Some((t, ChatStreamTextMode::Snapshot)),
                None => None,
            },
        },
    }
}

/// The value of a text with its mode.
pub open spec fn moded(v: Option<(String, ChatStreamTextMode)>) -> Option<
    (Seq<char>, ChatStreamTextMode),
> {
    match v {
        Some((t, m)) => Some((t@, m)),
        None => None,
    }
}

/// A text that is there and not empty.
pub fn filled_text(v: Option<&Json>) -> (r: Option<String>)
    ensures
        opt_text(r) == filled(crate::json::opt_ref(v)),
{
    match v {
        Some(Json::Str(t)) => if t.as_str().is_empty() {
            None
        } else {
            Some(t.clone())
        },
        _ => None,
    }
}

/// The text that an event of the stream carries.
pub fn extract_chat_stream_text(value: &Json) -> (r: Option<(String, ChatStreamTextMode)>)
    ensures
        moded(r) == event_text(value@),
{
    let choice = match choice_of(value) {
        Some(c) => c,
        None => {
            return None;
        },
    };
    if let Some(t) = filled_text(choice.get_path("delta", "content")) {
        return Some((t, ChatStreamTextMode::Delta));
    }
    if let Some(t) = filled_text(choice.get("text")) {
        return Some((t, ChatStreamTextMode::Delta));
    }
    match filled_text(choice.get_path("message", "content")) {
        Some(t) => Some((t, ChatStreamTextMode::Snapshot)),
        None => None,
    }
}

fn reasoning_in_field(choice: &Json, key: &str) -> (r: Option<String>)
    ensures
        opt_text(r) == reasoning_under(choice@, key@),
{
    match choice.get(key) {
        Some(v) => filled_text(reasoning_value(v)),
        None => None,
    }
}

/// The reasoning that an event of the stream carries.
pub fn extract_chat_stream_reasoning(value: &Json) -> (r: Option<(String, ChatStreamTextMode)>)
    ensures
        moded(r) == event_reasoning(value@),
{
    let choice = match choice_of(value) {
        Some(c) => c,
        None => {
            return None;
        },
    };
    if let Some(t) = reasoning_in_field(choice, "delta") {
        return Some((t, ChatStreamTextMode::Delta));
    }
    match reasoning_in_field(choice, "message") {
        Some(t) => Some((t, ChatStreamTextMode::Snapshot)),
        None => None,
    }
}

/// The text after one more, and what is new of it: a snapshot that repeats what
/// is there adds nothing, one that continues it adds the rest.
pub open spec fn text_added(
    full: Seq<char>,
    text: Seq<char>,
    mode: ChatStreamTextMode,
) -> (Seq<char>, Option<Seq<char>>) {
    if text.len() == 0 {
        (full, None)
    } else {
        match mode {
            ChatStreamTextMode::Delta => (full + text, Some(text)),
            ChatStreamTextMode::Snapshot => if has_prefix(full, text) {
                (full, None)
            } else if has_prefix(text, full) {
                (text, Some(text.skip(full.len() as int)))
            } else {
                (full + text, Some(text))
            },
        }
    }
}

/// Adds a text to what there is, and returns what is new.
pub fn append_chat_stream_text(full: &mut String, text: &str, mode: ChatStreamTextMode) -> (r:
    Option<String>)
    ensures
        (final(full)@, opt_text(r)) == text_added(old(full)@, text@, mode),
{
    if text.is_empty() {
        return None;
    }
    match mode {
        ChatStreamTextMode::Delta => {
            full.append(text);
            Some(copy_str(text))
        },
        ChatStreamTextMode::Snapshot => {
            if starts_with(full.as_str(), text) {
                return None;
            }
            if let Some(rest) = strip_prefix(text, full.as_str()) {
                *full = copy_str(text);
                return Some(rest);
            }
            full.append(text);
            Some(copy_str(text))
        },
    }
}

/// What a reader has seen of the text is always the text so far: each delta
/// continues it.
pub proof fn law_deltas_make_the_text(
    full: Seq<char>,
    text: Seq<char>,
    mode: ChatStreamTextMode,
)
    ensures
        match text_added(full, text, mode) {
            (after, Some(delta)) => after == full + delta,
            (after, None) => after == full,
        },
{
    if has_prefix(text, full) {
        assert(text == text.subrange(0, full.len() as int) + text.skip(full.len() as int));
    }
}

// ---------------------------------------------------------------------
// Streams: tool calls
// ---------------------------------------------------------------------

/// A tool call of which not everything has arrived.
#[derive(Debug)]
pub struct PartialToolCall {
    pub id: Option<String>,
    pub name: Option<String>,
    pub arguments_raw: String,
    pub started: bool,
}

/// The value of a tool call of which not everything has arrived.
#[verifier::ext_equal]
pub struct PartialView {
    pub id: Option<Seq<char>>,
    pub name: Option<Seq<char>>,
    pub arguments_raw: Seq<char>,
    pub started: bool,
}

impl View for PartialToolCall {
    type V = PartialView;

    open spec fn view(&self) -> PartialView {
        PartialView {
            id: opt_text(self.id),
            name: opt_text(self.name),
            arguments_raw: self.arguments_raw@,
            started: self.started,
        }
    }
}

/// The values of the partial calls, in order.
pub open spec fn partial_views(v: Seq<PartialToolCall>) -> Seq<PartialView> {
    Seq::new(v.len(), |i: int| v[i]@)
}

/// A call of which nothing has arrived.
pub open spec fn no_call() -> PartialView {
    PartialView { id: None, name: None, arguments_raw: Seq::empty(), started: false }
}

/// `a`, or `b` where it is missing.
pub open spec fn or_else<T>(a: Option<T>, b: Option<T>) -> Option<T> {
    match a {
        Some(v) => Some(v),
        None => b,
    }
}

/// What an event adds to the arguments of a call: a piece of text, or a whole
/// value written out.
pub open spec fn arguments_delta(v: Option<JsonView>) -> Option<Seq<char>> {
    match v {
        Some(JsonView::Str(t)) => if t.len() > 0 {
            Some(t)
        } else {
            None
        },
        Some(JsonView::Null) => None,
        Some(other) => Some(json_text(other)),
        None => None,
    }
}

/// What is told when a call starts: its name, and the arguments that came early.
pub open spec fn start_parts(p: PartialView) -> Seq<StreamView> {
    match (p.id, p.name) {
        (Some(id), Some(name)) => {
            let first = seq![StreamView::ToolCallStart { id, name }];
            if p.arguments_raw.len() > 0 {
                first.push(StreamView::ToolCallDelta { id, delta: p.arguments_raw })
            } else {
                first
            }
        },
        _ => Seq::empty(),
    }
}

/// A call after its identifier and name have been taken from an event.
pub open spec fn named(p: PartialView, call: JsonView) -> PartialView {
    PartialView {
        id: or_else(call.field_text("id"@), p.id),
        name: or_else(filled(call.path("function"@, "name"@)), p.name),
        arguments_raw: p.arguments_raw,
        started: p.started,
    }
}

/// A call starts once, as soon as both its identifier and its name are known.
pub open spec fn starts_now(p: PartialView) -> bool {
    !p.started && p.id is Some && p.name is Some
}

/// A call after one event, and what is told of it.
pub open spec fn call_event(p: PartialView, call: JsonView) -> (PartialView, Seq<StreamView>) {
    let q = named(p, call);
    let begun = if starts_now(q) {
        start_parts(q)
    } else {
        Seq::empty()
    };
    let started = q.started || starts_now(q);
    match arguments_delta(call.path("function"@, "arguments"@)) {
        None => (
            PartialView { id: q.id, name: q.name, arguments_raw: q.arguments_raw, started },
            begun,
        ),
        Some(delta) => (
            PartialView { id: q.id, name: q.name, arguments_raw: q.arguments_raw + delta, started },
            if started && q.id is Some {
                begun.push(StreamView::ToolCallDelta { id: q.id->0, delta })
            } else {
                begun
            },
        ),
    }
}

fn arguments_piece(v: Option<&Json>) -> (r: Option<String>)
    ensures
        opt_text(r) == arguments_delta(crate::json::opt_ref(v)),
{
    match v {
        None => None,
        Some(j) => match j {
            Json::Str(t) => if t.as_str().is_empty() {
                None
            } else {
                Some(t.clone())
            },
            Json::Null => None,
            _ => Some(j.to_text()),
        },
    }
}

fn advance_call(partial: PartialToolCall, call: &Json, parts: &mut Vec<StreamPart>) -> (r:
    PartialToolCall)
    ensures
        r@ == call_event(partial@, call@).0,
        stream_views(final(parts)@) == stream_views(old(parts)@) + call_event(partial@, call@).1,
{
    let mut p = partial;
    if let Some(id) = call.get_str("id") {
        p.id = Some(copy_str(id));
    }
    if let Some(name) = filled_text(call.get_path("function", "name")) {
        p.name = Some(name);
    }
    assert(p@ == named(partial@, call@));
    let ghost q = p@;
    let ghost begun = if starts_now(q) {
        start_parts(q)
    } else {
        Seq::empty()
    };
    if !p.started {
        if let (Some(id), Some(name)) = (&p.id, &p.name) {
            emit(parts, StreamPart::ToolCallStart { id: id.clone(), name: name.clone() });
            if !p.arguments_raw.as_str().is_empty() {
                emit(
                    parts,
                    StreamPart::ToolCallDelta { id: id.clone(), delta: p.arguments_raw.clone() },
                );
            }
            p.started = true;
        }
    }
    assert(stream_views(parts@) == stream_views(old(parts)@) + begun);
    if let Some(delta) = arguments_piece(call.get_path("function", "arguments")) {
        p.arguments_raw.append(delta.as_str());
        if p.started {
            if let Some(id) = &p.id {
                emit(parts, StreamPart::ToolCallDelta { id: id.clone(), delta });
            }
        }
    }
    assert(stream_views(parts@) == stream_views(old(parts)@) + call_event(partial@, call@).1);
    p
}

/// The partial calls, with empty ones up to position `index`.
pub open spec fn padded(partials: Seq<PartialView>, index: int) -> Seq<PartialView>
    decreases index + 1 - partials.len(),
{
    if partials.len() > index {
        partials
    } else {
        padded(partials.push(no_call()), index)
    }
}

/// The position of the call that an entry speaks of: its index, or the end.
pub open spec fn entry_index(call: JsonView, len: nat) -> int {
    match call.field_unsigned("index"@) {
        Some(n) => n as usize as int,
        None => len as int,
    }
}

/// The partial calls after one entry of an event, and what is told.
pub open spec fn entry_event(partials: Seq<PartialView>, call: JsonView) -> (
    Seq<PartialView>,
    Seq<StreamView>,
) {
    let i = entry_index(call, partials.len());
    let all = padded(partials, i);
    let (p, parts) = call_event(all[i], call);
    (all.update(i, p), parts)
}

/// The partial calls after the entries of an event, and what is told.
pub open spec fn entries_event(partials: Seq<PartialView>, calls: Seq<JsonView>) -> (
    Seq<PartialView>,
    Seq<StreamView>,
)
    decreases calls.len(),
{
    if calls.len() == 0 {
        (partials, Seq::empty())
    } else {
        let before = entries_event(partials, calls.drop_last());
        let last = entry_event(before.0, calls.last());
        (last.0, before.1 + last.1)
    }
}

/// The entries on tool calls in an event.
pub open spec fn event_calls(value: JsonView) -> Seq<JsonView> {
    match first_choice(value) {
        Some(choice) => match choice.path("delta"@, "tool_calls"@) {
            Some(JsonView::Array(calls)) => calls,
            _ => Seq::empty(),
        },
        None => Seq::empty(),
    }
}

fn pad(partials: &mut Vec<PartialToolCall>, index: usize)
    ensures
        partial_views(final(partials)@) == padded(partial_views(old(partials)@), index as int),
        final(partials)@.len() > index,
{
    while partials.len() <= index
        invariant
            padded(partial_views(partials@), index as int) == padded(
                partial_views(old(partials)@),
                index as int,
            ),
        decreases index + 1 - partials@.len(),
    {
        let ghost before = partials@;
        partials.push(
            PartialToolCall { id: None, name: None, arguments_raw: String::new(), started: false },
        );
        assert(partials@.last()@ == no_call());
        assert(partial_views(partials@) == partial_views(before).push(no_call()));
    }
}

/// Takes up what an event tells of tool calls.
pub fn handle_openai_stream_tool_calls(
    value: &Json,
    partials: &mut Vec<PartialToolCall>,
    parts: &mut Vec<StreamPart>,
)
    ensures
        partial_views(final(partials)@) == entries_event(
            partial_views(old(partials)@),
            event_calls(value@),
        ).0,
        stream_views(final(parts)@) == stream_views(old(parts)@) + entries_event(
            partial_views(old(partials)@),
            event_calls(value@),
        ).1,
{
    let choice = match choice_of(value) {
        Some(c) => c,
        None => {
            return ;
        },
    };
    let calls = match choice.get_path("delta", "tool_calls") {
        Some(Json::Array(calls)) => calls,
        _ => {
            return ;
        },
    };
    let ghost all = items_view(calls@);
    let ghost start = partial_views(partials@);
    let mut i: usize = 0;
    assert(all.take(0) == Seq::<JsonView>::empty());
    while i < calls.len()
        invariant
            i <= calls@.len(),
            all == items_view(calls@),
            start == partial_views(old(partials)@),
            partial_views(partials@) == entries_event(start, all.take(i as int)).0,
            stream_views(parts@) == stream_views(old(parts)@) + entries_event(
                start,
                all.take(i as int),
            ).1,
        decreases calls@.len() - i,
    {
        let ghost before = partial_views(partials@);
        assert(all.take(i + 1).drop_last() == all.take(i as int));
        assert(all.take(i + 1).last() == calls@[i as int]@);
        let index: usize = match calls[i].get_u64("index") {
            Some(n) => n as usize,
            None => partials.len(),
        };
        pad(partials, index);
        let ghost full = partial_views(partials@);
        let current = PartialToolCall {
            id: copy_opt(&partials[index].id),
            name: copy_opt(&partials[index].name),
            arguments_raw: partials[index].arguments_raw.clone(),
            started: partials[index].started,
        };
        assert(current@ == full[index as int]);
        let next = advance_call(current, &calls[i], parts);
        partials.set(index, next);
        assert(partial_views(partials@) == full.update(index as int, next@));
        i += 1;
    }
    assert(all.take(all.len() as int) == all);
}

/// The call that a partial call is once nothing more arrives, and what is told
/// of it: none without a name.
pub open spec fn finished_call(p: PartialView, index: nat) -> Option<(CallView, Seq<StreamView>)> {
    match p.name {
        None => None,
        Some(name) => {
            let id = match p.id {
                Some(id) => id,
                None => "tool_"@ + decimal(index),
            };
            let raw = if is_blank_text(p.arguments_raw) {
                "{}"@
            } else {
                p.arguments_raw
            };
            let (arguments, error) = arguments_of(raw);
            let call = CallView {
                id,
                function_name: name,
                arguments,
                arguments_raw: raw,
                arguments_parse_error: error,
                signature: None,
            };
            let start = if p.started {
                Seq::empty()
            } else if raw == "{}"@ {
                seq![StreamView::ToolCallStart { id, name }]
            } else {
                seq![
                    StreamView::ToolCallStart { id, name },
                    StreamView::ToolCallDelta { id, delta: raw },
                ]
            };
            Some((call, start.push(StreamView::ToolCallDone { call })))
        },
    }
}

/// The calls that partial calls are once nothing more arrives, and what is told.
pub open spec fn finished_calls(partials: Seq<PartialView>) -> (Seq<CallView>, Seq<StreamView>)
    decreases partials.len(),
{
    if partials.len() == 0 {
        (Seq::empty(), Seq::empty())
    } else {
        let before = finished_calls(partials.drop_last());
        match finished_call(partials.last(), (partials.len() - 1) as nat) {
            None => before,
            Some((call, parts)) => (before.0.push(call), before.1 + parts),
        }
    }
}

fn finish_call(p: &PartialToolCall, index: usize, parts: &mut Vec<StreamPart>) -> (r: Option<
    PendingToolCall,
>)
    ensures
        match finished_call(p@, index as nat) {
            None => r is None && stream_views(final(parts)@) == stream_views(old(parts)@),
            Some((call, told)) => r is Some && (r->0)@ == call && stream_views(final(parts)@)
                == stream_views(old(parts)@) + told,
        },
{
    let name = match &p.name {
        None => {
            return None;
        },
        Some(n) => n,
    };
    let id = match &p.id {
        Some(id) => id.clone(),
        None => {
            let number = decimal_of(index as u64);
            concat2("tool_", number.as_str())
        },
    };
    let raw = if is_blank(p.arguments_raw.as_str()) {
        copy_str("{}")
    } else {
        p.arguments_raw.clone()
    };
    if !p.started {
        emit(parts, StreamPart::ToolCallStart { id: id.clone(), name: name.clone() });
        if !str_eq(raw.as_str(), "{}") {
            emit(parts, StreamPart::ToolCallDelta { id: id.clone(), delta: raw.clone() });
        }
    }
    let (arguments, error) = parse_tool_arguments(raw.as_str());
    let call = PendingToolCall {
        id,
        function_name: name.clone(),
        arguments,
        arguments_raw: raw,
        arguments_parse_error: error,
        signature: None,
    };
    emit(parts, StreamPart::ToolCallDone { call: call.copy() });
    assert(stream_views(parts@) == stream_views(old(parts)@) + (finished_call(
        p@,
        index as nat,
    )->0).1);
    Some(call)
}

/// The calls that partial calls are once nothing more arrives.
pub fn finish_tool_call_partials(partials: &Vec<PartialToolCall>, parts: &mut Vec<StreamPart>) -> (r:
    Vec<PendingToolCall>)
    ensures
        call_views(r@) == finished_calls(partial_views(partials@)).0,
        stream_views(final(parts)@) == stream_views(old(parts)@) + finished_calls(
            partial_views(partials@),
        ).1,
{
    let ghost all = partial_views(partials@);
    let mut out: Vec<PendingToolCall> = Vec::new();
    assert(call_views(out@) == Seq::<CallView>::empty());
    assert(all.take(0) == Seq::<PartialView>::empty());
    let mut i: usize = 0;
    while i < partials.len()
        invariant
            i <= partials@.len(),
            all == partial_views(partials@),
            call_views(out@) == finished_calls(all.take(i as int)).0,
            stream_views(parts@) == stream_views(old(parts)@) + finished_calls(
                all.take(i as int),
            ).1,
        decreases partials@.len() - i,
    {
        let ghost before = out@;
        assert(all.take(i + 1).drop_last() == all.take(i as int));
        assert(all.take(i + 1).last() == partials@[i as int]@);
        if let Some(call) = finish_call(&partials[i], i, parts) {
            out.push(call);
            assert(call_views(out@) == call_views(before).push(call@));
        }
        i += 1;
    }
    assert(all.take(all.len() as int) == all);
    out
}

// ---------------------------------------------------------------------
// Streams
// ---------------------------------------------------------------------

/// What has arrived of a streamed reply.
#[derive(Debug)]
pub struct OpenAiStream {
    pub buffer: String,
    pub full: String,
    pub reasoning: String,
    pub partials: Vec<PartialToolCall>,
    pub finish_reason: Option<String>,
    pub usage: Option<ModelUsage>,
}

/// The value of what has arrived, the open line left out.
#[verifier::ext_equal]
pub struct ChatStreamView {
    pub full: Seq<char>,
    pub reasoning: Seq<char>,
    pub partials: Seq<PartialView>,
    pub finish_reason: Option<Seq<char>>,
    pub usage: Option<ModelUsage>,
}

impl OpenAiStream {
    /// The value of what has arrived, the open line left out.
    pub open spec fn state(&self) -> ChatStreamView {
        ChatStreamView {
            full: self.full@,
            reasoning: self.reasoning@,
            partials: partial_views(self.partials@),
            finish_reason: opt_text(self.finish_reason),
            usage: self.usage,
        }
    }
}

/// What is told of a text that was added.
pub open spec fn told(delta: Option<Seq<char>>, reasoning: bool) -> Seq<StreamView> {
    match delta {
        Some(delta) => if reasoning {
            seq![StreamView::ReasoningDelta { delta }]
        } else {
            seq![StreamView::TextDelta { delta }]
        },
        None => Seq::empty(),
    }
}

/// A text after what an event carries of it, and what is new.
pub open spec fn text_event(
    full: Seq<char>,
    event: Option<(Seq<char>, ChatStreamTextMode)>,
) -> (Seq<char>, Option<Seq<char>>) {
    match event {
        Some((t, mode)) => text_added(full, t, mode),
        None => (full, None),
    }
}

/// What has arrived after one event, and what is told.
pub open spec fn value_event(st: ChatStreamView, value: JsonView) -> (
    ChatStreamView,
    Seq<StreamView>,
) {
    let calls = entries_event(st.partials, event_calls(value));
    let reasoning = text_event(st.reasoning, event_reasoning(value));
    let text = text_event(st.full, event_text(value));
    (
        ChatStreamView {
            full: text.0,
            reasoning: reasoning.0,
            partials: calls.0,
            finish_reason: or_else(
                match first_choice(value) {
                    Some(choice) => choice.field_text("finish_reason"@),
                    None => None,
                },
                st.finish_reason,
            ),
            usage: or_else(openai_usage(value), st.usage),
        },
        calls.1 + told(reasoning.1, true) + told(text.1, false),
    )
}

/// What has arrived after some lines, what has been told, and whether the end
/// has come.
#[verifier::ext_equal]
pub struct ChatRun {
    pub state: ChatStreamView,
    pub parts: Seq<StreamView>,
    pub done: bool,
}

/// One line more. Lines without data, and data that is not JSON, are passed over.
pub open spec fn line_event(run: ChatRun, line: Seq<char>) -> ChatRun {
    if run.done {
        run
    } else {
        match line_data(line) {
            None => run,
            Some(data) => if data == "[DONE]"@ {
                ChatRun { state: run.state, parts: run.parts, done: true }
            } else {
                match parsed_json(data) {
                    Err(_) => run,
                    Ok(value) => {
                        let (state, parts) = value_event(run.state, value);
                        ChatRun { state, parts: run.parts + parts, done: false }
                    },
                }
            },
        }
    }
}

/// Line after line.
pub open spec fn run_lines(st: ChatStreamView, lines: Seq<Seq<char>>) -> ChatRun
    decreases lines.len(),
{
    if lines.len() == 0 {
        ChatRun { state: st, parts: Seq::empty(), done: false }
    } else {
        line_event(run_lines(st, lines.drop_last()), lines.last())
    }
}

/// The reply once the stream has ended, and what is told last.
pub open spec fn stream_output(st: ChatStreamView) -> (OutputView, Seq<StreamView>) {
    let calls = finished_calls(st.partials);
    let reason = match st.finish_reason {
        Some(r) => r,
        None => "done"@,
    };
    (
        OutputView {
            text: st.full,
            reasoning: kept_text(st.reasoning),
            tool_calls: calls.0,
            usage: st.usage,
            finish_reason: Some(reason),
            provider_messages: Seq::empty(),
            cancelled: false,
        },
        calls.1.push(StreamView::Finish { reason, full: st.full }),
    )
}

impl OpenAiStream {
    /// A stream of which nothing has arrived.
    pub fn new() -> (r: OpenAiStream)
        ensures
            r.buffer@ == Seq::<char>::empty(),
            r.state() == (ChatStreamView {
                full: Seq::empty(),
                reasoning: Seq::empty(),
                partials: Seq::empty(),
                finish_reason: None,
                usage: None,
            }),
    {
        let partials: Vec<PartialToolCall> = Vec::new();
        assert(partial_views(partials@) == Seq::<PartialView>::empty());
        OpenAiStream {
            buffer: String::new(),
            full: String::new(),
            reasoning: String::new(),
            partials,
            finish_reason: None,
            usage: None,
        }
    }

    fn take_value(&mut self, value: &Json, parts: &mut Vec<StreamPart>)
        ensures
            final(self).state() == value_event(old(self).state(), value@).0,
            final(self).buffer == old(self).buffer,
            stream_views(final(parts)@) == stream_views(old(parts)@) + value_event(
                old(self).state(),
                value@,
            ).1,
    {
        if let Some(u) = model_usage_from_openai_value(value) {
            self.usage = Some(u);
        }
        if let Some(choice) = choice_of(value) {
            if let Some(reason) = choice.get_str("finish_reason") {
                self.finish_reason = Some(copy_str(reason));
            }
        }
        handle_openai_stream_tool_calls(value, &mut self.partials, parts);
        if let Some((t, mode)) = extract_chat_stream_reasoning(value) {
            if let Some(delta) = append_chat_stream_text(&mut self.reasoning, t.as_str(), mode) {
                emit(parts, StreamPart::ReasoningDelta { delta });
            }
        }
        if let Some((t, mode)) = extract_chat_stream_text(value) {
            if let Some(delta) = append_chat_stream_text(&mut self.full, t.as_str(), mode) {
                emit(parts, StreamPart::TextDelta { delta });
            }
        }
        assert(stream_views(parts@) == stream_views(old(parts)@) + value_event(
            old(self).state(),
            value@,
        ).1);
    }

    /// Takes up a chunk of the stream. Returns what there is to tell, and whether
    /// the end has come.
    pub fn feed(&mut self, chunk: &str) -> (r: (Vec<StreamPart>, bool))
        ensures
            ({
                let text = old(self).buffer@ + chunk@;
                let run = run_lines(old(self).state(), ended_lines(text));
                &&& final(self).buffer@ == open_line(text)
                &&& final(self).state() == run.state
                &&& stream_views(r.0@) == run.parts
                &&& r.1 == run.done
            }),
    {
        let text = concat2(self.buffer.as_str(), chunk);
        let (lines, open) = split_lines(text.as_str());
        self.buffer = open;
        let ghost st = old(self).state();
        let ghost all = strings(lines@);
        let mut parts: Vec<StreamPart> = Vec::new();
        let mut done = false;
        assert(stream_views(parts@) == Seq::<StreamView>::empty());
        assert(all.take(0) == Seq::<Seq<char>>::empty());
        let mut i: usize = 0;
        while i < lines.len()
            invariant
                i <= lines@.len(),
                all == strings(lines@),
                self.buffer@ == open@,
                run_lines(st, all.take(i as int)) == (ChatRun {
                    state: self.state(),
                    parts: stream_views(parts@),
                    done,
                }),
            decreases lines@.len() - i,
        {
            assert(all.take(i + 1).drop_last() == all.take(i as int));
            assert(all.take(i + 1).last() == lines@[i as int]@);
            if !done {
                if let Some(data) = data_of_line(lines[i].as_str()) {
                    if str_eq(data.as_str(), "[DONE]") {
                        done = true;
                    } else if let Ok(value) = Json::parse(data.as_str()) {
                        self.take_value(&value, &mut parts);
                    }
                }
            }
            i += 1;
        }
        assert(all.take(all.len() as int) == all);
        (parts, done)
    }

    /// The reply once the stream has ended, and what there is to tell last.
    pub fn finish(self) -> (r: (GenerateOutput, Vec<StreamPart>))
        ensures
            r.0@ == stream_output(self.state()).0,
            stream_views(r.1@) == stream_output(self.state()).1,
    {
        let mut parts: Vec<StreamPart> = Vec::new();
        assert(stream_views(parts@) == Seq::<StreamView>::empty());
        let tool_calls = finish_tool_call_partials(&self.partials, &mut parts);
        let reason = match &self.finish_reason {
            Some(r) => r.clone(),
            None => copy_str("done"),
        };
        emit(&mut parts, StreamPart::Finish { reason: reason.clone(), full: self.full.clone() });
        let provider_messages: Vec<Json> = Vec::new();
        assert(items_view(provider_messages@) == Seq::<JsonView>::empty());
        (
            GenerateOutput {
                text: self.full,
                reasoning: non_empty(self.reasoning.as_str()),
                tool_calls,
                usage: self.usage,
                finish_reason: Some(reason),
                provider_messages,
                cancelled: false,
            },
            parts,
        )
    }
}

proof fn lemma_run_after(st: ChatStreamView, a: Seq<Seq<char>>, b: Seq<Seq<char>>)
    ensures
        ({
            let first = run_lines(st, a);
            let both = run_lines(st, a + b);
            let second = run_lines(first.state, b);
            if first.done {
                both == first
            } else {
                both.state == second.state && both.done == second.done && both.parts == first.parts
                    + second.parts
            }
        }),
    decreases b.len(),
{
    let first = run_lines(st, a);
    if b.len() == 0 {
        assert(a + b == a);
        assert(first.parts + Seq::<StreamView>::empty() == first.parts);
    } else {
        lemma_run_after(st, a, b.drop_last());
        assert((a + b).drop_last() == a + b.drop_last());
        assert((a + b).last() == b.last());
        let second = run_lines(first.state, b.drop_last());
        if !first.done && !second.done {
            match line_data(b.last()) {
                Some(data) => match parsed_json(data) {
                    Ok(value) => {
                        let told = value_event(second.state, value).1;
                        assert((first.parts + second.parts) + told == first.parts + (second.parts
                            + told));
                    },
                    Err(_) => {},
                },
                None => {},
            }
        }
    }
}

/// However the text of a stream is cut, the same is told and the same reply comes
/// out: two chunks do what their concatenation does, as long as the end has not
/// come, and after the end nothing is read.
/// The law is over decoded text, cut between characters: each chunk of bytes is decoded
/// by itself, so a cut inside a character changes the text.
pub proof fn law_cuts_do_not_change_the_reply(
    st: ChatStreamView,
    buffer: Seq<char>,
    a: Seq<char>,
    b: Seq<char>,
)
    ensures
        ({
            let first = run_lines(st, ended_lines(buffer + a));
            let second = run_lines(first.state, ended_lines(open_line(buffer + a) + b));
            let both = run_lines(st, ended_lines(buffer + (a + b)));
            if first.done {
                both == first
            } else {
                both.state == second.state && both.done == second.done && both.parts == first.parts
                    + second.parts
            }
        }),
{
    assert(buffer + (a + b) == (buffer + a) + b);
    law_cuts_do_not_change_lines(buffer + a, b);
    lemma_run_after(
        st,
        ended_lines(buffer + a),
        ended_lines(open_line(buffer + a) + b),
    );
}

proof fn lemma_body_keys()
    ensures
        "model"@ != "messages"@,
        "model"@ != "temperature"@,
        "model"@ != "max_tokens"@,
        "model"@ != "stream"@,
        "model"@ != "tools"@,
        "model"@ != "thinking"@,
        "messages"@ != "temperature"@,
        "messages"@ != "max_tokens"@,
        "messages"@ != "stream"@,
        "messages"@ != "tools"@,
        "messages"@ != "thinking"@,
        "temperature"@ != "max_tokens"@,
        "temperature"@ != "stream"@,
        "temperature"@ != "tools"@,
        "temperature"@ != "thinking"@,
        "max_tokens"@ != "stream"@,
        "max_tokens"@ != "tools"@,
        "max_tokens"@ != "thinking"@,
        "stream"@ != "tools"@,
        "stream"@ != "thinking"@,
        "tools"@ != "thinking"@,
{
    reveal_strlit("model");
    reveal_strlit("messages");
    reveal_strlit("temperature");
    reveal_strlit("max_tokens");
    reveal_strlit("stream");
    reveal_strlit("tools");
    reveal_strlit("thinking");
    assert("model"@.len() == 5);
    assert("messages"@.len() == 8);
    assert("temperature"@.len() == 11);
    assert("max_tokens"@.len() == 10);
    assert("stream"@.len() == 6);
    assert("model"@[0] == 'm');
    assert("tools"@[0] == 't');
    assert("thinking"@.len() == 8);
    assert("tools"@.len() == 5);
    assert("messages"@[0] == 'm');
    assert("thinking"@[0] == 't');
}

/// A body says what the request asks: the model, the messages, the temperature, the limit,
/// the tools, and thinking where it is switched off and the service knows the field. The
/// user's own fields win, and there are no others.
pub proof fn law_the_body_says_what_is_asked(
    request: GenerateRequest,
    stream: bool,
    thinking_field: bool,
)
    ensures
        ({
            let body = chat_body(request, stream, thinking_field);
            let own = request.options.provider_options@;
            &&& forall|k: Seq<char>| own.field(k) is Some ==> #[trigger] body.field(k) == own.field(k)
            &&& own.field("model"@) is None ==> body.field_text("model"@) == Some(request.model@)
            &&& own.field("messages"@) is None ==> body.field_items("messages"@) == Some(
                request_messages(request.system@, message_views(request.messages@)),
            )
            &&& own.field("temperature"@) is None ==> body.field("temperature"@) == Some(
                request.options.temperature@,
            )
            &&& own.field("max_tokens"@) is None ==> body.field_unsigned("max_tokens"@) == Some(
                request.options.max_tokens as u64,
            )
            &&& own.field("stream"@) is None ==> body.field("stream"@) == if stream {
                Some(JsonView::Bool(true))
            } else {
                None
            }
            &&& own.field("thinking"@) is None ==> (body.field("thinking"@) is Some
                <==> !request.options.thinking_enabled && thinking_field)
            &&& own.field("thinking"@) is None && body.field("thinking"@) is Some ==> body.path(
                "thinking"@,
                "type"@,
            ) == Some(JsonView::Str("disabled"@))
            &&& forall|k: Seq<char>| #[trigger]
                body.field(k) is Some && own.field(k) is None ==> k == "model"@ || k
                    == "messages"@ || k == "temperature"@ || k == "max_tokens"@ || k == "stream"@
                    || k == "tools"@ || k == "thinking"@
        }),
{
    lemma_body_keys();
}

/// Where the user sets no tools, a body holds the tools of the request, one by one and in
/// order, whether or not the reply is streamed; and no field where there are none.
pub proof fn law_the_body_holds_the_tools(
    request: GenerateRequest,
    stream: bool,
    thinking_field: bool,
)
    requires
        request.options.provider_options@.field("tools"@) is None,
    ensures
        ({
            let body = chat_body(request, stream, thinking_field);
            &&& body.field("tools"@) is Some <==> request.tools@.len() > 0
            &&& request.tools@.len() > 0 ==> body.field_items("tools"@) is Some && ({
                let told = body.field_items("tools"@)->0;
                &&& told.len() == request.tools@.len()
                &&& forall|i: int|
                    0 <= i < told.len() ==> (#[trigger] told[i]).path("function"@, "name"@) == Some(
                        JsonView::Str(request.tools@[i]@.call_name()),
                    ) && told[i].path("function"@, "description"@) == Some(
                        JsonView::Str(request.tools@[i].description@),
                    ) && told[i].path("function"@, "parameters"@) == Some(
                        request.tools@[i].input_schema@,
                    ) && told[i].field_text("type"@) == Some("function"@)
            })
        }),
{
    lemma_body_keys();
    let body = chat_body(request, stream, thinking_field);
    if request.tools@.len() > 0 {
        let told = body.field_items("tools"@)->0;
        assert forall|i: int| 0 <= i < told.len() implies (#[trigger] told[i]).path(
            "function"@,
            "name"@,
        ) == Some(JsonView::Str(request.tools@[i]@.call_name())) && told[i].path(
            "function"@,
            "description"@,
        ) == Some(JsonView::Str(request.tools@[i].description@)) && told[i].path(
            "function"@,
            "parameters"@,
        ) == Some(request.tools@[i].input_schema@) && told[i].field_text("type"@) == Some(
            "function"@,
        ) by {
            law_tools_are_told_whole(request.tools@[i]@);
        }
    }
}

/// The bodies of a streamed and of a plain request differ in the field `stream` alone.
pub proof fn law_streaming_changes_one_field(
    request: GenerateRequest,
    thinking_field: bool,
    key: Seq<char>,
)
    requires
        key != "stream"@,
    ensures
        chat_body(request, true, thinking_field).field(key) == chat_body(
            request,
            false,
            thinking_field,
        ).field(key),
{
    lemma_body_keys();
}

/// How many of the partial calls have a name.
pub open spec fn name_count(partials: Seq<PartialView>) -> nat
    decreases partials.len(),
{
    if partials.len() == 0 {
        0
    } else {
        name_count(partials.drop_last()) + if partials.last().name is Some {
            1nat
        } else {
            0
        }
    }
}

/// `call` is what the partial call `p` at position `i` has become.
pub open spec fn is_call_of(call: CallView, p: PartialView, i: int) -> bool {
    let raw = if is_blank_text(p.arguments_raw) {
        "{}"@
    } else {
        p.arguments_raw
    };
    &&& p.name == Some(call.function_name)
    &&& p.id is Some ==> call.id == p.id->0
    &&& p.id is None ==> call.id == "tool_"@ + decimal(i as nat)
    &&& call.arguments_raw == raw
    &&& match parsed_json(raw) {
        Ok(v) => call.arguments == v && call.arguments_parse_error is None,
        Err(e) => call.arguments == JsonView::Null && call.arguments_parse_error == Some(
            "Tool arguments JSON is invalid or incomplete: "@ + e,
        ),
    }
    &&& call.signature is None
}

/// The calls that are finished are the partial calls that have a name: as many as there
/// are, each in its place, with its name, its identifier and its arguments.
pub proof fn law_named_calls_are_finished(partials: Seq<PartialView>)
    ensures
        finished_calls(partials).0.len() == name_count(partials),
        forall|i: int|
            0 <= i < partials.len() && (#[trigger] partials[i]).name is Some ==> name_count(
                partials.take(i),
            ) < finished_calls(partials).0.len() && is_call_of(
                finished_calls(partials).0[name_count(partials.take(i)) as int],
                partials[i],
                i,
            ),
    decreases partials.len(),
{
    if partials.len() > 0 {
        let front = partials.drop_last();
        law_named_calls_are_finished(front);
        let before = finished_calls(front).0;
        let calls = finished_calls(partials).0;
        reveal_strlit("{}");
        assert forall|i: int|
            0 <= i < partials.len() && (#[trigger] partials[i]).name is Some implies name_count(
            partials.take(i),
        ) < calls.len() && is_call_of(
            calls[name_count(partials.take(i)) as int],
            partials[i],
            i,
        ) by {
            if i < front.len() {
                assert(front[i] == partials[i]);
                assert(front.take(i) =~= partials.take(i));
                assert(calls[name_count(partials.take(i)) as int] == before[name_count(
                    front.take(i),
                ) as int]);
            } else {
                assert(partials.take(i) =~= front);
                assert(!is_blank_text("{}"@)) by {
                    crate::text::law_trimming_takes_white_space("{}"@);
                    assert(!crate::text::white_space("{}"@[0]));
                }
            }
        }
    }
}

/// The calls whose end is told, in order.
pub open spec fn ends_told(parts: Seq<StreamView>) -> Seq<CallView>
    decreases parts.len(),
{
    if parts.len() == 0 {
        Seq::empty()
    } else {
        match parts.last() {
            StreamView::ToolCallDone { call } => ends_told(parts.drop_last()).push(call),
            _ => ends_told(parts.drop_last()),
        }
    }
}

/// The calls whose start is told, in order: identifier and name.
pub open spec fn starts_told(parts: Seq<StreamView>) -> Seq<(Seq<char>, Seq<char>)>
    decreases parts.len(),
{
    if parts.len() == 0 {
        Seq::empty()
    } else {
        match parts.last() {
            StreamView::ToolCallStart { id, name } => starts_told(parts.drop_last()).push(
                (id, name),
            ),
            _ => starts_told(parts.drop_last()),
        }
    }
}

proof fn lemma_told_concat(a: Seq<StreamView>, b: Seq<StreamView>)
    ensures
        ends_told(a + b) == ends_told(a) + ends_told(b),
        starts_told(a + b) == starts_told(a) + starts_told(b),
    decreases b.len(),
{
    if b.len() == 0 {
        assert(a + b =~= a);
        assert(ends_told(a) + ends_told(b) =~= ends_told(a));
        assert(starts_told(a) + starts_told(b) =~= starts_told(a));
    } else {
        lemma_told_concat(a, b.drop_last());
        assert((a + b).drop_last() =~= a + b.drop_last());
        assert(ends_told(a + b) =~= ends_told(a) + ends_told(b));
        assert(starts_told(a + b) =~= starts_told(a) + starts_told(b));
    }
}

/// Of the finished calls, the end of each is told once, in order; and the start of one is
/// told then where it was not told before.
pub proof fn law_every_finished_call_is_told(partials: Seq<PartialView>)
    ensures
        ends_told(finished_calls(partials).1) == finished_calls(partials).0,
        (forall|i: int| 0 <= i < partials.len() ==> (#[trigger] partials[i]).started)
            ==> starts_told(finished_calls(partials).1).len() == 0,
        (forall|i: int| 0 <= i < partials.len() ==> !(#[trigger] partials[i]).started)
            ==> starts_told(finished_calls(partials).1) == Seq::new(
            finished_calls(partials).0.len(),
            |k: int|
                (finished_calls(partials).0[k].id, finished_calls(partials).0[k].function_name),
        ),
    decreases partials.len(),
{
    let out = finished_calls(partials);
    if partials.len() > 0 {
        let front = partials.drop_last();
        law_every_finished_call_is_told(front);
        let before = finished_calls(front);
        assert forall|i: int| 0 <= i < front.len() implies front[i] == partials[i] by {}
        if forall|i: int| 0 <= i < partials.len() ==> (#[trigger] partials[i]).started {
            assert forall|i: int| 0 <= i < front.len() implies (#[trigger] front[i]).started by {
                assert(partials[i].started);
            }
        }
        if forall|i: int| 0 <= i < partials.len() ==> !(#[trigger] partials[i]).started {
            assert forall|i: int| 0 <= i < front.len() implies !(#[trigger] front[i]).started by {
                assert(!partials[i].started);
            }
        }
        assert(partials[partials.len() - 1] == partials.last());
        match finished_call(partials.last(), (partials.len() - 1) as nat) {
            None => {},
            Some((call, parts)) => {
                lemma_told_concat(before.1, parts);
                reveal_with_fuel(ends_told, 4);
                reveal_with_fuel(starts_told, 4);
                let start = parts.drop_last();
                assert(parts =~= start.push(StreamView::ToolCallDone { call }));
                if !partials.last().started {
                    assert(start[0] is ToolCallStart);
                    if start.len() == 2 {
                        assert(start.drop_last() =~= seq![start[0]]);
                        assert(start.drop_last().drop_last() =~= Seq::<StreamView>::empty());
                    } else {
                        assert(start.drop_last() =~= Seq::<StreamView>::empty());
                    }
                    assert(starts_told(parts) =~= seq![(call.id, call.function_name)]);
                } else {
                    assert(start =~= Seq::<StreamView>::empty());
                    assert(starts_told(parts) =~= Seq::empty());
                }
                assert(ends_told(parts) =~= seq![call]);
                assert(ends_told(out.1) =~= out.0);
                if forall|i: int| 0 <= i < partials.len() ==> !(#[trigger] partials[i]).started {
                    assert(starts_told(out.1) =~= Seq::new(
                        out.0.len(),
                        |k: int| (out.0[k].id, out.0[k].function_name),
                    ));
                }
            },
        }
    } else {
        assert(starts_told(out.1) =~= Seq::new(
            out.0.len(),
            |k: int| (out.0[k].id, out.0[k].function_name),
        ));
    }
}

/// `choice` is the first choice of an event.
pub open spec fn is_choice(value: JsonView, choice: JsonView) -> bool {
    value.field_items("choices"@) is Some && (value.field_items("choices"@)->0).len() > 0 && (
    value.field_items("choices"@)->0)[0] == choice
}

/// A delta of an event is added to the end of the text, and is told; so with the
/// reasoning. What an event does not speak of stays.
pub proof fn law_deltas_are_added(st: ChatStreamView, value: JsonView, choice: JsonView)
    requires
        is_choice(value, choice),
    ensures
        ({
            let (after, parts) = value_event(st, value);
            &&& match choice.path("delta"@, "content"@) {
                Some(JsonView::Str(t)) => t.len() > 0 ==> after.full == st.full + t && parts.len()
                    > 0 && parts.last() == (StreamView::TextDelta { delta: t }),
                _ => true,
            }
            &&& match choice.path("delta"@, "reasoning_content"@) {
                Some(JsonView::Str(t)) => t.len() > 0 ==> after.reasoning == st.reasoning + t
                    && parts.contains(StreamView::ReasoningDelta { delta: t }),
                _ => true,
            }
            &&& match choice.field_text("finish_reason"@) {
                Some(r) => after.finish_reason == Some(r),
                None => after.finish_reason == st.finish_reason,
            }
            &&& choice.field("delta"@) is None && choice.field("message"@) is None && choice.field(
                "text"@,
            ) is None ==> after.full == st.full && after.reasoning == st.reasoning
                && after.partials == st.partials && parts.len() == 0
            &&& choice.path("delta"@, "tool_calls"@) is None ==> after.partials == st.partials
        }),
{
    let (after, parts) = value_event(st, value);
    let calls = entries_event(st.partials, event_calls(value));
    let reasoning = text_event(st.reasoning, event_reasoning(value));
    assert(first_choice(value) == Some(choice));
    match choice.path("delta"@, "reasoning_content"@) {
        Some(JsonView::Str(t)) => {
            if t.len() > 0 {
                assert(told(reasoning.1, true) == seq![StreamView::ReasoningDelta { delta: t }]);
                assert(parts[calls.1.len() as int] == (StreamView::ReasoningDelta { delta: t }));
            }
        },
        _ => {},
    }
}

/// A snapshot of the text takes the place of a text that it continues, and a snapshot of a
/// beginning of the text changes nothing; a delta is added to the end.
pub proof fn law_snapshots_take_the_place_of_the_text(full: Seq<char>, more: Seq<char>)
    ensures
        text_added(full, more, ChatStreamTextMode::Delta).0 == full + more,
        more.len() > 0 ==> text_added(full, full + more, ChatStreamTextMode::Snapshot) == (
            full + more,
            Some(more),
        ),
        text_added(full + more, full, ChatStreamTextMode::Snapshot) == (
            full + more,
            None::<Seq<char>>,
        ),
{
    let all = full + more;
    assert(all.subrange(0, full.len() as int) =~= full);
    assert(all.skip(full.len() as int) =~= more);
    if more.len() == 0 {
        assert(full + more =~= full);
    }
    if more.len() > 0 && has_prefix(full, all) {
        assert(full.len() >= all.len());
    }
}

proof fn lemma_padded(partials: Seq<PartialView>, index: int)
    requires
        index >= 0,
    ensures
        padded(partials, index).len() == if partials.len() > index {
            partials.len() as int
        } else {
            index + 1
        },
        forall|j: int|
            0 <= j < padded(partials, index).len() ==> (#[trigger] padded(partials, index)[j])
                == if j < partials.len() {
                partials[j]
            } else {
                no_call()
            },
    decreases index + 1 - partials.len(),
{
    if partials.len() <= index {
        lemma_padded(partials.push(no_call()), index);
    }
}

/// A piece of a call goes to the call at its index: the identifier and the name are taken
/// where they are given and else kept, the arguments are added to the end, and the other
/// calls stay as they are.
pub proof fn law_pieces_go_to_their_call(
    partials: Seq<PartialView>,
    call: JsonView,
    i: int,
    j: int,
)
    requires
        i == match call.field_unsigned("index"@) {
            Some(n) => n as usize as int,
            None => partials.len() as int,
        },
        0 <= j < partials.len(),
    ensures
        ({
            let after = entry_event(partials, call).0;
            let was = if i < partials.len() {
                partials[i]
            } else {
                no_call()
            };
            &&& i < after.len()
            &&& after.len() == if i < partials.len() {
                partials.len() as int
            } else {
                i + 1
            }
            &&& j != i ==> after[j] == partials[j]
            &&& after[i].id == match call.field_text("id"@) {
                Some(id) => Some(id),
                None => was.id,
            }
            &&& match call.path("function"@, "name"@) {
                Some(JsonView::Str(name)) => name.len() > 0 ==> after[i].name == Some(name),
                None => after[i].name == was.name,
                _ => true,
            }
            &&& match call.path("function"@, "arguments"@) {
                Some(JsonView::Str(t)) => after[i].arguments_raw == was.arguments_raw + t,
                None => after[i].arguments_raw == was.arguments_raw,
                _ => true,
            }
            &&& after[i].started <==> was.started || (after[i].id is Some && after[i].name is Some)
        }),
{
    lemma_padded(partials, i);
    let all = padded(partials, i);
    match call.path("function"@, "arguments"@) {
        Some(JsonView::Str(t)) => {
            assert(all[i].arguments_raw + t =~= all[i].arguments_raw + t);
            if t.len() == 0 {
                assert(all[i].arguments_raw + t =~= all[i].arguments_raw);
            }
        },
        _ => {},
    }
}

/// What is told of a call's arguments, in order.
pub open spec fn arguments_told(parts: Seq<StreamView>) -> Seq<char>
    decreases parts.len(),
{
    if parts.len() == 0 {
        Seq::empty()
    } else {
        match parts.last() {
            StreamView::ToolCallDelta { id, delta } => arguments_told(parts.drop_last()) + delta,
            _ => arguments_told(parts.drop_last()),
        }
    }
}

/// A call is told from the moment at which its identifier and its name are known: then all
/// of its arguments so far, and after that each piece as it comes.
pub proof fn law_call_arguments_are_told(p: PartialView, call: JsonView)
    requires
        p.started ==> p.id is Some && p.name is Some,
    ensures
        ({
            let (after, parts) = call_event(p, call);
            &&& after.started && !p.started ==> parts.len() > 0 && parts[0]
                == (StreamView::ToolCallStart { id: after.id->0, name: after.name->0 })
                && arguments_told(parts) == after.arguments_raw
            &&& p.started ==> p.arguments_raw + arguments_told(parts) == after.arguments_raw
            &&& !after.started ==> parts.len() == 0
        }),
{
    let q = named(p, call);
    let (after, parts) = call_event(p, call);
    reveal_with_fuel(arguments_told, 4);
    let none = Seq::<StreamView>::empty();
    let begun = if starts_now(q) {
        start_parts(q)
    } else {
        Seq::empty()
    };
    if starts_now(q) {
        if q.arguments_raw.len() > 0 {
            assert(begun.drop_last() =~= seq![begun[0]]);
            assert(begun.drop_last().drop_last() =~= none);
            assert(arguments_told(begun) =~= q.arguments_raw);
        } else {
            assert(begun.drop_last() =~= none);
            assert(arguments_told(begun) =~= q.arguments_raw);
        }
    }
    match arguments_delta(call.path("function"@, "arguments"@)) {
        None => {
            assert(parts == begun);
            assert(p.arguments_raw + Seq::<char>::empty() =~= p.arguments_raw);
        },
        Some(delta) => {
            if after.started {
                assert(parts =~= begun.push(
                    StreamView::ToolCallDelta { id: q.id->0, delta },
                ));
                assert(parts.drop_last() =~= begun);
                assert(arguments_told(parts) == arguments_told(begun) + delta);
                assert(arguments_told(none) + delta =~= delta);
            }
        },
    }
}

/// A line of data is an event, unless it is the end or no JSON; other lines are passed
/// over; and after the end nothing is read.
pub proof fn law_lines_are_events(st: ChatStreamView, line: Seq<char>, data: Seq<char>)
    ensures
        line_data(line) == Some(data) && data != "[DONE]"@ && parsed_json(data) is Ok
            ==> run_lines(st, seq![line]).state == value_event(st, parsed_json(data)->Ok_0).0
            && run_lines(st, seq![line]).parts == value_event(st, parsed_json(data)->Ok_0).1
            && !run_lines(st, seq![line]).done,
        line_data(line) == Some(data) && parsed_json(data) is Err && data != "[DONE]"@ || line_data(
            line,
        ) is None ==> run_lines(st, seq![line]).state == st && run_lines(
            st,
            seq![line],
        ).parts.len() == 0 && !run_lines(st, seq![line]).done,
        line_data(line) == Some("[DONE]"@) ==> run_lines(st, seq![line]).done && run_lines(
            st,
            seq![line],
        ).state == st,
        forall|lines: Seq<Seq<char>>|
            line_data(line) == Some("[DONE]"@) ==> #[trigger] run_lines(st, seq![line] + lines).state
                == st,
{
    reveal_with_fuel(run_lines, 2);
    assert(seq![line].drop_last() =~= Seq::<Seq<char>>::empty());
    if line_data(line) == Some(data) && data != "[DONE]"@ && parsed_json(data) is Ok {
        let told = value_event(st, parsed_json(data)->Ok_0).1;
        assert(Seq::<StreamView>::empty() + told =~= told);
    }
    assert forall|lines: Seq<Seq<char>>| line_data(line) == Some("[DONE]"@) implies #[trigger] run_lines(
        st,
        seq![line] + lines,
    ).state == st by {
        lemma_run_after(st, seq![line], lines);
    }
}

/// The reply of a stream is the text and the reasoning that have arrived, the calls, the
/// usage, and the reason for the end; the last thing that is told is the end, with the
/// whole text.
pub proof fn law_the_reply_is_what_arrived(st: ChatStreamView)
    ensures
        ({
            let (out, parts) = stream_output(st);
            &&& out.text == st.full
            &&& is_blank_text(st.reasoning) ==> out.reasoning is None
            &&& !is_blank_text(st.reasoning) ==> out.reasoning == Some(trimmed(st.reasoning))
            &&& out.tool_calls.len() == name_count(st.partials)
            &&& out.tool_calls == ends_told(parts)
            &&& out.usage == st.usage
            &&& out.finish_reason is Some
            &&& st.finish_reason is Some ==> out.finish_reason == st.finish_reason
            &&& !out.cancelled
            &&& parts.len() > 0 && parts.last() == (StreamView::Finish {
                reason: out.finish_reason->0,
                full: st.full,
            })
        }),
{
    law_named_calls_are_finished(st.partials);
    law_every_finished_call_is_told(st.partials);
    let (out, parts) = stream_output(st);
    assert(parts.drop_last() =~= finished_calls(st.partials).1);
}

/// The reply of a completion is the message of its first choice: its text, its calls, its
/// finish reason; without such a message there is an error that shows the reply.
pub proof fn law_completions_are_read_whole(
    value: JsonView,
    choice: JsonView,
    message: JsonView,
    raw: Seq<char>,
    label: Seq<char>,
    fresh: Seq<Seq<char>>,
)
    ensures
        is_choice(value, choice) && choice.field("message"@) == Some(message)
            ==> completion_output(value, raw, label, fresh) is Ok && ({
            let out = completion_output(value, raw, label, fresh)->Ok_0;
            &&& match message.field("content"@) {
                Some(JsonView::Str(t)) => out.text == t,
                Some(JsonView::Array(items)) => out.text == joined(item_texts(items), seq!['\n']),
                _ => out.text.len() == 0,
            }
            &&& out.tool_calls == message_calls(message, fresh)
            &&& out.finish_reason == choice.field_text("finish_reason"@)
            &&& out.provider_messages == seq![message]
            &&& !out.cancelled
        }),
        (is_choice(value, choice) && choice.field("message"@) is None) || value.field("choices"@)
            is None ==> completion_output(value, raw, label, fresh) is Err,
{
    reveal_strlit("\n");
    assert("\n"@ =~= seq!['\n']);
}

/// The entries of an event are taken one after another.
pub proof fn law_entries_are_taken_in_order(
    partials: Seq<PartialView>,
    a: Seq<JsonView>,
    b: Seq<JsonView>,
)
    ensures
        entries_event(partials, a + b).0 == entries_event(entries_event(partials, a).0, b).0,
        entries_event(partials, a + b).1 == entries_event(partials, a).1 + entries_event(
            entries_event(partials, a).0,
            b,
        ).1,
    decreases b.len(),
{
    if b.len() == 0 {
        assert(a + b =~= a);
        assert(entries_event(partials, a).1 + Seq::<StreamView>::empty() =~= entries_event(
            partials,
            a,
        ).1);
    } else {
        law_entries_are_taken_in_order(partials, a, b.drop_last());
        assert((a + b).drop_last() =~= a + b.drop_last());
        assert((a + b).last() == b.last());
        assert(entries_event(partials, a + b).1 =~= entries_event(partials, a).1 + entries_event(
            entries_event(partials, a).0,
            b,
        ).1);
    }
}

/// The calls of an event go to the calls that have arrived, entry by entry.
pub proof fn law_calls_of_an_event_are_taken(
    st: ChatStreamView,
    value: JsonView,
    choice: JsonView,
    call: JsonView,
)
    requires
        is_choice(value, choice),
        choice.path("delta"@, "tool_calls"@) == Some(JsonView::Array(seq![call])),
    ensures
        value_event(st, value).0.partials == entry_event(st.partials, call).0,
{
    assert(first_choice(value) == Some(choice));
    assert(event_calls(value) == seq![call]);
    reveal_with_fuel(entries_event, 2);
    assert(seq![call].drop_last() =~= Seq::<JsonView>::empty());
    assert(seq![call].last() == call);
}

/// The usage of an event replaces the one before it; without one it stays.
pub proof fn law_the_latest_usage_counts(st: ChatStreamView, value: JsonView)
    ensures
        openai_usage(value) is Some ==> value_event(st, value).0.usage == openai_usage(value),
        openai_usage(value) is None ==> value_event(st, value).0.usage == st.usage,
{
}

/// The reasoning of a completion is that of its message, without white space around it.
pub proof fn law_completions_keep_the_reasoning(
    value: JsonView,
    choice: JsonView,
    message: JsonView,
    raw: Seq<char>,
    label: Seq<char>,
    fresh: Seq<Seq<char>>,
    t: Seq<char>,
)
    requires
        is_choice(value, choice),
        choice.field("message"@) == Some(message),
        message.field_text("reasoning_content"@) == Some(t),
    ensures
        ({
            let out = completion_output(value, raw, label, fresh)->Ok_0;
            &&& is_blank_text(t) ==> out.reasoning is None
            &&& !is_blank_text(t) ==> out.reasoning == Some(trimmed(t))
            &&& out.usage == openai_usage(value)
        }),
{
}

/// A URL loses the slashes at its end, and nothing else; a label is kept unless it is
/// blank.
pub proof fn law_urls_lose_their_last_slashes(url: Seq<char>, label: Seq<char>, other: Seq<char>)
    requires
        url.len() > 0,
        url.last() != '/',
    ensures
        without_slashes(url) == url,
        without_slashes(url.push('/')) == url,
        without_slashes(url.push('/').push('/')) == url,
        !is_blank_text(label) ==> label_or(label, other) == label,
        is_blank_text(label) ==> label_or(label, other) == other,
{
    let slash = among(seq!['/']);
    assert(seq!['/'][0] == '/');
    assert(slash('/'));
    if slash(url.last()) {
        let i = choose|i: int| 0 <= i < seq!['/'].len() && seq!['/'][i] == url.last();
        assert(seq!['/'][i] == '/');
    }
    let a = url.push('/');
    let b = a.push('/');
    assert(a.drop_last() =~= url);
    assert(b.drop_last() =~= a);
    assert(without_slashes(a) == without_slashes(url));
    assert(without_slashes(b) == without_slashes(a));
}

/// Text and reasoning are taken from where the service puts them: a delta of either name,
/// the plain text of a choice, or a whole message as a snapshot.
pub proof fn law_text_is_taken_from_its_field(value: JsonView, choice: JsonView, t: Seq<char>)
    requires
        is_choice(value, choice),
        t.len() > 0,
    ensures
        choice.path("delta"@, "content"@) == Some(JsonView::Str(t)) ==> event_text(value) == Some(
            (t, ChatStreamTextMode::Delta),
        ),
        choice.field("delta"@) is None && choice.field_text("text"@) == Some(t) ==> event_text(
            value,
        ) == Some((t, ChatStreamTextMode::Delta)),
        choice.field("delta"@) is None && choice.field("text"@) is None && choice.path(
            "message"@,
            "content"@,
        ) == Some(JsonView::Str(t)) ==> event_text(value) == Some(
            (t, ChatStreamTextMode::Snapshot),
        ),
        choice.path("delta"@, "reasoning_content"@) == Some(JsonView::Str(t)) ==> event_reasoning(
            value,
        ) == Some((t, ChatStreamTextMode::Delta)),
        choice.path("delta"@, "reasoning_content"@) is None && choice.path("delta"@, "reasoning"@)
            == Some(JsonView::Str(t)) ==> event_reasoning(value) == Some(
            (t, ChatStreamTextMode::Delta),
        ),
        choice.field("delta"@) is None && choice.path("message"@, "reasoning_content"@) == Some(
            JsonView::Str(t),
        ) ==> event_reasoning(value) == Some((t, ChatStreamTextMode::Snapshot)),
        choice.field("delta"@) is None && choice.field("text"@) is None && choice.field("message"@)
            is None ==> event_text(value) is None && event_reasoning(value) is None,
{
    assert(first_choice(value) == Some(choice));
}

/// Arguments that come as a value are added as its text; nothing is added for none.
pub proof fn law_arguments_come_as_text_or_value(v: JsonView, t: Seq<char>)
    ensures
        t.len() > 0 ==> arguments_delta(Some(JsonView::Str(t))) == Some(t),
        arguments_delta(Some(JsonView::Null)) is None,
        arguments_delta(None) is None,
        v is Object || v is Array ==> arguments_delta(Some(v)) == Some(json_text(v)),
{
}

} // verus!
