//! What the library and the adapters of model services exchange.

use vstd::prelude::*;

use crate::json::{items_view, Json, JsonView, Object};
use crate::text::{ascii_alphanumeric, joined, opt_str, opt_text, strings};
use crate::text::{
    chars_of, concat4, copy_opt, copy_str, is_ascii_alphanumeric, join, own_opt, str_eq,
};
use crate::types::{artifact_views, ArtifactView, ChatToolArtifact};

verus! {

/// Who a message is from.
#[derive(Debug, Clone, Copy, PartialEq, Eq, Structural)]
pub enum ModelRole {
    User,
    Assistant,
    Tool,
}

impl ModelRole {
    /// The name of the role.
    pub open spec fn name(self) -> Seq<char> {
        match self {
            ModelRole::User => "user"@,
            ModelRole::Assistant => "assistant"@,
            ModelRole::Tool => "tool"@,
        }
    }

    /// The name of the role.
    pub fn as_str(self) -> (r: &'static str)
        ensures
            r@ == self.name(),
    {
        match self {
            ModelRole::User => "user",
            ModelRole::Assistant => "assistant",
            ModelRole::Tool => "tool",
        }
    }
}

/// One part of a message.
#[derive(Debug)]
pub enum MessagePart {
    Text { text: String },
    Image { mime_type: String, data: String },
    ImageUrl { url: String },
    ToolCall {
        id: String,
        name: String,
        arguments: Json,
        arguments_raw: String,
        signature: Option<String>,
    },
    ToolResult {
        tool_call_id: String,
        content: String,
        is_error: bool,
        artifacts: Vec<ChatToolArtifact>,
    },
    Reasoning { text: String },
}

/// The value of a part.
#[verifier::ext_equal]
pub enum PartView {
    Text { text: Seq<char> },
    Image { mime_type: Seq<char>, data: Seq<char> },
    ImageUrl { url: Seq<char> },
    ToolCall {
        id: Seq<char>,
        name: Seq<char>,
        arguments: JsonView,
        arguments_raw: Seq<char>,
        signature: Option<Seq<char>>,
    },
    ToolResult {
        tool_call_id: Seq<char>,
        content: Seq<char>,
        is_error: bool,
        artifacts: Seq<ArtifactView>,
    },
    Reasoning { text: Seq<char> },
}

impl View for MessagePart {
    type V = PartView;

    open spec fn view(&self) -> PartView {
        match *self {
            MessagePart::Text { text } => PartView::Text { text: text@ },
            MessagePart::Image { mime_type, data } => PartView::Image {
                mime_type: mime_type@,
                data: data@,
            },
            MessagePart::ImageUrl { url } => PartView::ImageUrl { url: url@ },
            MessagePart::ToolCall { id, name, arguments, arguments_raw, signature } =>
                PartView::ToolCall {
                id: id@,
                name: name@,
                arguments: arguments@,
                arguments_raw: arguments_raw@,
                signature: opt_text(signature),
            },
            MessagePart::ToolResult { tool_call_id, content, is_error, artifacts } =>
                PartView::ToolResult {
                tool_call_id: tool_call_id@,
                content: content@,
                is_error,
                artifacts: artifact_views(artifacts@),
            },
            MessagePart::Reasoning { text } => PartView::Reasoning { text: text@ },
        }
    }
}

/// The values of the parts, in order.
pub open spec fn part_views(v: Seq<MessagePart>) -> Seq<PartView> {
    Seq::new(v.len(), |i: int| v[i]@)
}

/// A message of a conversation, whatever the service.
#[derive(Debug)]
pub struct ModelMessage {
    pub role: ModelRole,
    pub content: Vec<MessagePart>,
}

/// The value of a message.
#[verifier::ext_equal]
pub struct MessageView {
    pub role: ModelRole,
    pub content: Seq<PartView>,
}

impl View for ModelMessage {
    type V = MessageView;

    open spec fn view(&self) -> MessageView {
        MessageView { role: self.role, content: part_views(self.content@) }
    }
}

/// The values of the messages, in order.
pub open spec fn message_views(v: Seq<ModelMessage>) -> Seq<MessageView> {
    Seq::new(v.len(), |i: int| v[i]@)
}

/// The texts among the parts, in order.
pub open spec fn texts_in(parts: Seq<PartView>) -> Seq<Seq<char>>
    decreases parts.len(),
{
    if parts.len() == 0 {
        Seq::empty()
    } else {
        let before = texts_in(parts.drop_last());
        match parts.last() {
            PartView::Text { text } => before.push(text),
            _ => before,
        }
    }
}

impl ModelMessage {
    /// A message of one text.
    pub fn text(role: ModelRole, text: &str) -> (r: ModelMessage)
        ensures
            r@ == (MessageView { role, content: seq![PartView::Text { text: text@ }] }),
    {
        let mut content: Vec<MessagePart> = Vec::new();
        content.push(MessagePart::Text { text: copy_str(text) });
        assert(part_views(content@) == seq![PartView::Text { text: text@ }]);
        ModelMessage { role, content }
    }

    /// The texts of the message, one per line.
    pub fn text_content(&self) -> (r: String)
        ensures
            r@ == joined(texts_in(self@.content), "\n"@),
    {
        let texts = collect_texts(&self.content);
        join(&texts, "\n")
    }
}

/// The texts among the parts, in order.
pub fn collect_texts(parts: &Vec<MessagePart>) -> (r: Vec<String>)
    ensures
        strings(r@) == texts_in(part_views(parts@)),
{
    let ghost all = part_views(parts@);
    let mut out: Vec<String> = Vec::new();
    let mut i: usize = 0;
    assert(strings(out@) == Seq::<Seq<char>>::empty());
    while i < parts.len()
        invariant
            i <= parts@.len(),
            all == part_views(parts@),
            strings(out@) == texts_in(all.take(i as int)),
        decreases parts@.len() - i,
    {
        let ghost before = out@;
        assert(all.take(i + 1).drop_last() == all.take(i as int));
        assert(all.take(i + 1).last() == parts@[i as int]@);
        if let MessagePart::Text { text } = &parts[i] {
            out.push(text.clone());
            assert(strings(out@) == strings(before).push(text@));
        }
        i += 1;
    }
    assert(all.take(all.len() as int) == all);
    out
}

// ---------------------------------------------------------------------
// Tools
// ---------------------------------------------------------------------

/// A tool that the model may call.
#[derive(Debug)]
pub struct ModelTool {
    pub id: String,
    pub name: String,
    pub description: String,
    pub source: String,
    pub server_id: Option<String>,
    pub server_name: Option<String>,
    pub input_schema: Json,
    pub sensitive: bool,
}

/// The value of a tool.
#[verifier::ext_equal]
pub struct ToolView {
    pub id: Seq<char>,
    pub name: Seq<char>,
    pub description: Seq<char>,
    pub source: Seq<char>,
    pub server_id: Option<Seq<char>>,
    pub server_name: Option<Seq<char>>,
    pub input_schema: JsonView,
    pub sensitive: bool,
}

impl View for ModelTool {
    type V = ToolView;

    open spec fn view(&self) -> ToolView {
        ToolView {
            id: self.id@,
            name: self.name@,
            description: self.description@,
            source: self.source@,
            server_id: opt_text(self.server_id),
            server_name: opt_text(self.server_name),
            input_schema: self.input_schema@,
            sensitive: self.sensitive,
        }
    }
}

/// The values of the tools, in order.
pub open spec fn tool_views(v: Seq<ModelTool>) -> Seq<ToolView> {
    Seq::new(v.len(), |i: int| v[i]@)
}

/// A character that services accept in the name of a tool.
pub open spec fn tool_name_char(c: char) -> bool {
    ascii_alphanumeric(c) || c == '_' || c == '-'
}

/// A name as services accept it: other characters become `_`.
pub open spec fn service_name(name: Seq<char>) -> Seq<char> {
    Seq::new(
        name.len(),
        |i: int|
            if tool_name_char(name[i]) {
                name[i]
            } else {
                '_'
            },
    )
}

/// A name as services accept it.
pub fn sanitize_openai_tool_name(name: &str) -> (r: String)
    ensures
        r@ == service_name(name@),
{
    let v = chars_of(name);
    let mut out = String::new();
    let mut i: usize = 0;
    while i < v.len()
        invariant
            i <= v@.len(),
            out@ == service_name(v@).take(i as int),
        decreases v@.len() - i,
    {
        let c: char = v[i];
        if is_ascii_alphanumeric(c) || c == '_' || c == '-' {
            out.push(c);
        } else {
            out.push('_');
        }
        assert(out@ == service_name(v@).take(i + 1));
        i += 1;
    }
    assert(service_name(v@).take(v@.len() as int) == service_name(v@));
    out
}

impl ToolView {
    /// The name under which the model calls the tool.
    pub open spec fn call_name(self) -> Seq<char> {
        if self.source == "native"@ || self.source == "skill"@ || self.source == "mixer"@ {
            service_name(self.name)
        } else {
            service_name(self.id)
        }
    }

    /// The tool for the chat completions service.
    pub open spec fn chat_json(self) -> JsonView {
        JsonView::Object(
            Map::empty().insert("type"@, JsonView::Str("function"@)).insert(
                "function"@,
                JsonView::Object(
                    Map::empty().insert("name"@, JsonView::Str(self.call_name())).insert(
                        "description"@,
                        JsonView::Str(self.description),
                    ).insert("parameters"@, self.input_schema),
                ),
            ),
        )
    }

    /// The tool for the responses service, whose fields are not nested.
    pub open spec fn responses_json(self) -> JsonView {
        JsonView::Object(
            Map::empty().insert("type"@, JsonView::Str("function"@)).insert(
                "name"@,
                JsonView::Str(self.call_name()),
            ).insert("description"@, JsonView::Str(self.description)).insert(
                "parameters"@,
                self.input_schema,
            ),
        )
    }
}

impl ModelTool {
    /// The name under which the model calls the tool.
    pub fn openai_tool_name(&self) -> (r: String)
        ensures
            r@ == self@.call_name(),
    {
        let source = self.source.as_str();
        if str_eq(source, "native") || str_eq(source, "skill") || str_eq(source, "mixer") {
            sanitize_openai_tool_name(self.name.as_str())
        } else {
            sanitize_openai_tool_name(self.id.as_str())
        }
    }

    /// The tool for the chat completions service.
    pub fn to_openai_tool(&self) -> (r: Json)
        ensures
            r@ == self@.chat_json(),
    {
        let mut function = Object::new();
        function.set("name", Json::Str(self.openai_tool_name()));
        function.set("description", Json::string(self.description.as_str()));
        function.set("parameters", self.input_schema.copy());
        let mut o = Object::new();
        o.set("type", Json::string("function"));
        o.set("function", Json::Object(function));
        Json::Object(o)
    }

    /// The tool for the responses service.
    pub fn to_openai_responses_tool(&self) -> (r: Json)
        ensures
            r@ == self@.responses_json(),
    {
        let mut o = Object::new();
        o.set("type", Json::string("function"));
        o.set("name", Json::Str(self.openai_tool_name()));
        o.set("description", Json::string(self.description.as_str()));
        o.set("parameters", self.input_schema.copy());
        Json::Object(o)
    }

    /// The same tool once more.
    pub fn copy(&self) -> (r: ModelTool)
        ensures
            r@ == self@,
    {
        ModelTool {
            id: self.id.clone(),
            name: self.name.clone(),
            description: self.description.clone(),
            source: self.source.clone(),
            server_id: copy_opt(&self.server_id),
            server_name: copy_opt(&self.server_name),
            input_schema: self.input_schema.copy(),
            sensitive: self.sensitive,
        }
    }
}

// ---------------------------------------------------------------------
// Requests
// ---------------------------------------------------------------------

/// What a service can do.
#[derive(Debug, Clone, Copy, PartialEq, Eq, Structural)]
pub struct ProviderCapabilities {
    pub tool_calling: bool,
    pub vision: bool,
    pub streaming: bool,
    pub reasoning: bool,
}

/// How a reply is to be generated. The temperature is a JSON number.
#[derive(Debug)]
pub struct GenerateOptions {
    pub temperature: Json,
    pub max_tokens: u32,
    pub stream: bool,
    pub thinking_enabled: bool,
    pub thinking_level: Option<String>,
    pub provider_options: Json,
}

impl GenerateOptions {
    /// The usual options with the given temperature.
    pub fn with_temperature(temperature: Json) -> (r: GenerateOptions)
        ensures
            r.temperature@ == temperature@,
            r.max_tokens == 8192,
            !r.stream,
            r.thinking_enabled,
            r.thinking_level is None,
            r.provider_options@ == JsonView::Object(Map::empty()),
    {
        GenerateOptions {
            temperature,
            max_tokens: 8192,
            stream: false,
            thinking_enabled: true,
            thinking_level: None,
            provider_options: Json::Object(Object::new()),
        }
    }
}

/// What a request is for.
#[derive(Debug)]
pub struct RequestMetadata {
    pub label: String,
    pub usage_source: Option<String>,
    pub usage_operation: Option<String>,
    pub conversation_id: Option<String>,
    pub message_id: Option<String>,
}

/// The conversation and the message that a request belongs to.
#[derive(Debug)]
pub struct GenerateRequestContext {
    pub conversation_id: Option<String>,
    pub message_id: Option<String>,
}

impl GenerateRequestContext {
    pub fn new(conversation_id: Option<&str>, message_id: Option<&str>) -> (r:
        GenerateRequestContext)
        ensures
            opt_text(r.conversation_id) == opt_str(conversation_id),
            opt_text(r.message_id) == opt_str(message_id),
    {
        GenerateRequestContext {
            conversation_id: own_opt(conversation_id),
            message_id: own_opt(message_id),
        }
    }
}

/// A request to a model service, whatever the service.
#[derive(Debug)]
pub struct GenerateRequest {
    pub model: String,
    pub system: String,
    pub messages: Vec<ModelMessage>,
    pub tools: Vec<ModelTool>,
    pub options: GenerateOptions,
    pub metadata: RequestMetadata,
}

// ---------------------------------------------------------------------
// Replies
// ---------------------------------------------------------------------

/// The tokens that a call took.
#[derive(Debug, Clone, Copy, PartialEq, Eq, Structural)]
pub struct ModelUsage {
    pub input_tokens: Option<u64>,
    pub output_tokens: Option<u64>,
    pub total_tokens: Option<u64>,
    pub cached_input_tokens: Option<u64>,
    pub cache_creation_input_tokens: Option<u64>,
    pub reasoning_tokens: Option<u64>,
}

/// A tool call that the model asks for.
#[derive(Debug)]
pub struct PendingToolCall {
    pub id: String,
    pub function_name: String,
    pub arguments: Json,
    pub arguments_raw: String,
    pub arguments_parse_error: Option<String>,
    pub signature: Option<String>,
}

/// The value of a tool call.
#[verifier::ext_equal]
pub struct CallView {
    pub id: Seq<char>,
    pub function_name: Seq<char>,
    pub arguments: JsonView,
    pub arguments_raw: Seq<char>,
    pub arguments_parse_error: Option<Seq<char>>,
    pub signature: Option<Seq<char>>,
}

impl View for PendingToolCall {
    type V = CallView;

    open spec fn view(&self) -> CallView {
        CallView {
            id: self.id@,
            function_name: self.function_name@,
            arguments: self.arguments@,
            arguments_raw: self.arguments_raw@,
            arguments_parse_error: opt_text(self.arguments_parse_error),
            signature: opt_text(self.signature),
        }
    }
}

/// The values of the calls, in order.
pub open spec fn call_views(v: Seq<PendingToolCall>) -> Seq<CallView> {
    Seq::new(v.len(), |i: int| v[i]@)
}

impl PendingToolCall {
    /// The same call once more.
    pub fn copy(&self) -> (r: PendingToolCall)
        ensures
            r@ == self@,
    {
        PendingToolCall {
            id: self.id.clone(),
            function_name: self.function_name.clone(),
            arguments: self.arguments.copy(),
            arguments_raw: self.arguments_raw.clone(),
            arguments_parse_error: copy_opt(&self.arguments_parse_error),
            signature: copy_opt(&self.signature),
        }
    }
}

/// The reply of a model service.
#[derive(Debug)]
pub struct GenerateOutput {
    pub text: String,
    pub reasoning: Option<String>,
    pub tool_calls: Vec<PendingToolCall>,
    pub usage: Option<ModelUsage>,
    pub finish_reason: Option<String>,
    pub provider_messages: Vec<Json>,
    pub cancelled: bool,
}

/// The value of a reply.
#[verifier::ext_equal]
pub struct OutputView {
    pub text: Seq<char>,
    pub reasoning: Option<Seq<char>>,
    pub tool_calls: Seq<CallView>,
    pub usage: Option<ModelUsage>,
    pub finish_reason: Option<Seq<char>>,
    pub provider_messages: Seq<JsonView>,
    pub cancelled: bool,
}

impl View for GenerateOutput {
    type V = OutputView;

    open spec fn view(&self) -> OutputView {
        OutputView {
            text: self.text@,
            reasoning: opt_text(self.reasoning),
            tool_calls: call_views(self.tool_calls@),
            usage: self.usage,
            finish_reason: opt_text(self.finish_reason),
            provider_messages: items_view(self.provider_messages@),
            cancelled: self.cancelled,
        }
    }
}

/// A part of a reply as it arrives.
#[derive(Debug)]
pub enum StreamPart {
    TextDelta { delta: String },
    ReasoningDelta { delta: String },
    ToolCallStart { id: String, name: String },
    ToolCallDelta { id: String, delta: String },
    ToolCallDone { call: PendingToolCall },
    ToolResult { tool_call_id: String, content: String },
    Finish { reason: String, full: String },
    Error { message: String },
}

/// The value of a stream part.
#[verifier::ext_equal]
pub enum StreamView {
    TextDelta { delta: Seq<char> },
    ReasoningDelta { delta: Seq<char> },
    ToolCallStart { id: Seq<char>, name: Seq<char> },
    ToolCallDelta { id: Seq<char>, delta: Seq<char> },
    ToolCallDone { call: CallView },
    ToolResult { tool_call_id: Seq<char>, content: Seq<char> },
    Finish { reason: Seq<char>, full: Seq<char> },
    Error { message: Seq<char> },
}

impl View for StreamPart {
    type V = StreamView;

    open spec fn view(&self) -> StreamView {
        match *self {
            StreamPart::TextDelta { delta } => StreamView::TextDelta { delta: delta@ },
            StreamPart::ReasoningDelta { delta } => StreamView::ReasoningDelta { delta: delta@ },
            StreamPart::ToolCallStart { id, name } => StreamView::ToolCallStart {
                id: id@,
                name: name@,
            },
            StreamPart::ToolCallDelta { id, delta } => StreamView::ToolCallDelta {
                id: id@,
                delta: delta@,
            },
            StreamPart::ToolCallDone { call } => StreamView::ToolCallDone { call: call@ },
            StreamPart::ToolResult { tool_call_id, content } => StreamView::ToolResult {
                tool_call_id: tool_call_id@,
                content: content@,
            },
            StreamPart::Finish { reason, full } => StreamView::Finish {
                reason: reason@,
                full: full@,
            },
            StreamPart::Error { message } => StreamView::Error { message: message@ },
        }
    }
}

/// The values of the stream parts, in order.
pub open spec fn stream_views(v: Seq<StreamPart>) -> Seq<StreamView> {
    Seq::new(v.len(), |i: int| v[i]@)
}

/// Appends a stream part.
pub fn emit(parts: &mut Vec<StreamPart>, part: StreamPart)
    ensures
        stream_views(final(parts)@) == stream_views(old(parts)@).push(part@),
{
    parts.push(part);
    assert(stream_views(parts@) == stream_views(old(parts)@).push(part@));
}

// ---------------------------------------------------------------------
// Errors
// ---------------------------------------------------------------------

/// What kind of error a service met.
#[derive(Debug, Clone, Copy, PartialEq, Eq, Structural)]
pub enum ModelErrorKind {
    Other,
    StreamReadInterrupted,
}

/// An error of a model service.
#[derive(Debug)]
pub struct ModelError {
    pub message: String,
    pub kind: ModelErrorKind,
}

impl ModelError {
    pub fn new(message: &str) -> (r: ModelError)
        ensures
            r.message@ == message@,
            r.kind == ModelErrorKind::Other,
    {
        ModelError { message: copy_str(message), kind: ModelErrorKind::Other }
    }

    pub fn with_kind(message: &str, kind: ModelErrorKind) -> (r: ModelError)
        ensures
            r.message@ == message@,
            r.kind == kind,
    {
        ModelError { message: copy_str(message), kind }
    }

    /// Whether the stream of the service broke off.
    pub fn is_stream_read_interrupted(&self) -> (r: bool)
        ensures
            r == (self.kind == ModelErrorKind::StreamReadInterrupted),
    {
        self.kind == ModelErrorKind::StreamReadInterrupted
    }
}

/// How a stream broke off, as the transport tells.
#[derive(Debug, Clone, Copy, PartialEq, Eq, Structural)]
pub struct StreamFault {
    pub timeout: bool,
    pub connect: bool,
    pub decode: bool,
}

/// Why a stream broke off, in words.
pub open spec fn fault_reason(fault: StreamFault) -> Seq<char> {
    if fault.timeout {
        "the provider stream timed out"@
    } else if fault.connect {
        "the provider connection was interrupted"@
    } else if fault.decode {
        "the provider sent an incomplete or invalid encoded stream chunk"@
    } else {
        "the provider stream ended unexpectedly"@
    }
}

/// The error for a stream that broke off.
pub fn stream_read_error(label: &str, fault: StreamFault) -> (r: ModelError)
    ensures
        r.message@ == label@ + " 流式响应读取中断："@ + fault_reason(fault)
            + "。这通常是临时的网络、代理或模型服务流式断包问题，请重试。"@,
        r.kind == ModelErrorKind::StreamReadInterrupted,
{
    let reason = if fault.timeout {
        "the provider stream timed out"
    } else if fault.connect {
        "the provider connection was interrupted"
    } else if fault.decode {
        "the provider sent an incomplete or invalid encoded stream chunk"
    } else {
        "the provider stream ended unexpectedly"
    };
    let message = concat4(
        label,
        " 流式响应读取中断：",
        reason,
        "。这通常是临时的网络、代理或模型服务流式断包问题，请重试。",
    );
    ModelError::with_kind(message.as_str(), ModelErrorKind::StreamReadInterrupted)
}

proof fn lemma_tool_keys()
    ensures
        "type"@ != "function"@,
        "type"@ != "name"@,
        "type"@ != "description"@,
        "type"@ != "parameters"@,
        "function"@ != "name"@,
        "function"@ != "description"@,
        "function"@ != "parameters"@,
        "name"@ != "description"@,
        "name"@ != "parameters"@,
        "description"@ != "parameters"@,
{
    reveal_strlit("type");
    reveal_strlit("function");
    reveal_strlit("name");
    reveal_strlit("description");
    reveal_strlit("parameters");
    assert("type"@.len() == 4);
    assert("function"@.len() == 8);
    assert("type"@[0] == 't');
    assert("name"@[0] == 'n');
    assert("description"@.len() == 11);
    assert("parameters"@.len() == 10);
    assert("name"@.len() == 4);
}

/// A tool is told to the chat completions service as a function of its name, with its
/// description and the schema of its arguments; to the responses service likewise, without
/// the nesting.
pub proof fn law_tools_are_told_whole(tool: ToolView)
    ensures
        tool.chat_json().field_text("type"@) == Some("function"@),
        tool.chat_json().path("function"@, "name"@) == Some(JsonView::Str(tool.call_name())),
        tool.chat_json().path("function"@, "description"@) == Some(JsonView::Str(tool.description)),
        tool.chat_json().path("function"@, "parameters"@) == Some(tool.input_schema),
        tool.responses_json().field_text("type"@) == Some("function"@),
        tool.responses_json().field_text("name"@) == Some(tool.call_name()),
        tool.responses_json().field_text("description"@) == Some(tool.description),
        tool.responses_json().field("parameters"@) == Some(tool.input_schema),
{
    lemma_tool_keys();
}

/// The name under which a tool is called is its name, for the sources that the library
/// has itself, and else its identifier: character for character, with `_` in place of what
/// is no letter, digit, `_` or `-`.
pub proof fn law_tools_are_called_by_name(tool: ToolView)
    ensures
        ({
            let of = if tool.source == "native"@ || tool.source == "skill"@ || tool.source
                == "mixer"@ {
                tool.name
            } else {
                tool.id
            };
            &&& tool.call_name().len() == of.len()
            &&& forall|i: int|
                0 <= i < of.len() ==> (#[trigger] tool.call_name()[i]) == if ('a' <= of[i] <= 'z')
                    || ('A' <= of[i] <= 'Z') || ('0' <= of[i] <= '9') || of[i] == '_' || of[i]
                    == '-' {
                    of[i]
                } else {
                    '_'
                }
        }),
{
}

/// The texts of parts are those of the first parts, and then those of the rest.
pub proof fn law_texts_stay_in_order(a: Seq<PartView>, b: Seq<PartView>)
    ensures
        texts_in(a + b) == texts_in(a) + texts_in(b),
    decreases b.len(),
{
    if b.len() == 0 {
        assert(a + b =~= a);
        assert(texts_in(a) + texts_in(b) =~= texts_in(a));
    } else {
        law_texts_stay_in_order(a, b.drop_last());
        assert((a + b).drop_last() =~= a + b.drop_last());
        assert((a + b).last() == b.last());
        assert(texts_in(a + b) =~= texts_in(a) + texts_in(b));
    }
}

/// A text part has its text, and no other part has one.
pub proof fn law_text_parts_have_texts(part: PartView)
    ensures
        texts_in(seq![part]) == match part {
            PartView::Text { text } => seq![text],
            _ => Seq::<Seq<char>>::empty(),
        },
{
    reveal_with_fuel(texts_in, 2);
    assert(seq![part].drop_last() =~= Seq::<PartView>::empty());
    assert(seq![part].last() == part);
    match part {
        PartView::Text { text } => {
            assert(texts_in(seq![part]) =~= seq![text]);
        },
        _ => {},
    }
}

} // verus!
