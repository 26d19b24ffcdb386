//! The adapter of the responses service.

use vstd::prelude::*;

use crate::json::{items_view, parsed_json};
use crate::json::{Json, JsonNumber, JsonView, Object};
use crate::model::messages::{
    all_responses_items, arguments_of, or_empty, str_json, with_field,
};
use crate::model::messages::{parse_tool_arguments, responses_input_from_model_messages};
use crate::model::openai::{apply_overrides, invalid_response, parse_body, trim_slashes};
use crate::model::openai::{
    invalid_text, or_else, output_result, overridden, parse_error_text, told, without_slashes,
};
use crate::model::sse::{data_of_line, split_lines};
use crate::model::sse::{ended_lines, law_cuts_do_not_change_lines, line_data, open_line};
use crate::model::types::{
    call_views, law_tools_are_told_whole, message_views, stream_views, tool_views, CallView,
    OutputView, StreamView, ToolView,
};
use crate::model::types::{
    emit, GenerateOutput, GenerateRequest, ModelError, ModelErrorKind, ModelTool, ModelUsage,
    PendingToolCall, ProviderCapabilities, StreamPart,
};
use crate::settings::ModelProvider;
use crate::text::{concat2, concat3, copy_str, is_blank, str_eq};
use crate::text::{is_blank_text, opt_str, opt_text, strings};
use crate::usage::{model_usage_from_openai_value, openai_usage};

verus! {

/// The responses service of a provider.
#[derive(Debug)]
pub struct OpenAiResponsesProvider<'a> {
    pub provider: &'a ModelProvider,
    pub retry_attempts: usize,
}

/// The tools as the responses service writes them, in order.
pub open spec fn responses_tools(tools: Seq<ToolView>) -> Seq<JsonView> {
    Seq::new(tools.len(), |i: int| tools[i].responses_json())
}

fn make_tools(tools: &Vec<ModelTool>) -> (r: Vec<Json>)
    ensures
        items_view(r@) == responses_tools(tool_views(tools@)),
{
    let ghost all = tool_views(tools@);
    let mut out: Vec<Json> = Vec::new();
    let mut i: usize = 0;
    while i < tools.len()
        invariant
            i <= tools@.len(),
            all == tool_views(tools@),
            items_view(out@) == responses_tools(all).take(i as int),
        decreases tools@.len() - i,
    {
        let ghost before = out@;
        out.push(tools[i].to_openai_responses_tool());
        assert(items_view(out@) == items_view(before).push(responses_tools(all)[i as int]));
        i += 1;
    }
    assert(responses_tools(all).take(all.len() as int) == responses_tools(all));
    out
}

/// The body of a request; the user's own fields come last and win.
pub open spec fn responses_body(request: GenerateRequest, stream: bool) -> JsonView {
    let base = Map::empty().insert("model"@, str_json(request.model@)).insert(
        "input"@,
        JsonView::Array(all_responses_items(message_views(request.messages@))),
    );
    let instructed = with_field(
        base,
        "instructions"@,
        if is_blank_text(request.system@) {
            None
        } else {
            Some(str_json(request.system@))
        },
    );
    let limited = with_field(
        instructed,
        "max_output_tokens"@,
        if request.options.max_tokens > 0 {
            Some(JsonView::Number(JsonNumber::Unsigned(request.options.max_tokens as u64)))
        } else {
            None
        },
    );
    let streamed = with_field(
        limited,
        "stream"@,
        if stream {
            Some(JsonView::Bool(true))
        } else {
            None
        },
    );
    let tooled = if request.tools@.len() > 0 {
        streamed.insert(
            "tools"@,
            JsonView::Array(responses_tools(tool_views(request.tools@))),
        ).insert("tool_choice"@, str_json("auto"@))
    } else {
        streamed
    };
    JsonView::Object(overridden(tooled, request.options.provider_options@))
}

impl<'a> OpenAiResponsesProvider<'a> {
    pub fn new(provider: &'a ModelProvider, retry_attempts: usize) -> (r: OpenAiResponsesProvider<
        'a,
    >)
        ensures
            r.provider == provider,
            r.retry_attempts == retry_attempts,
    {
        OpenAiResponsesProvider { provider, retry_attempts }
    }

    /// What the service can do.
    pub fn capabilities(&self) -> (r: ProviderCapabilities)
        ensures
            r == (ProviderCapabilities {
                tool_calling: self.provider.supports_tools,
                vision: true,
                streaming: true,
                reasoning: true,
            }),
    {
        ProviderCapabilities {
            tool_calling: self.provider.supports_tools,
            vision: true,
            streaming: true,
            reasoning: true,
        }
    }

    /// Where requests go.
    pub fn responses_url(&self) -> (r: String)
        ensures
            r@ == without_slashes(self.provider.base_url@) + "/responses"@,
    {
        let base = trim_slashes(self.provider.base_url.as_str());
        concat2(base.as_str(), "/responses")
    }

    /// The body of a request.
    pub fn request_body(&self, request: &GenerateRequest, stream: bool) -> (r: Json)
        ensures
            r@ == responses_body(*request, stream),
    {
        let mut o = Object::new();
        o.set("model", Json::string(request.model.as_str()));
        o.set("input", Json::Array(responses_input_from_model_messages(&request.messages)));
        if !is_blank(request.system.as_str()) {
            o.set("instructions", Json::string(request.system.as_str()));
        }
        if request.options.max_tokens > 0 {
            o.set("max_output_tokens", Json::unsigned(request.options.max_tokens as u64));
        }
        if stream {
            o.set("stream", Json::Bool(true));
        }
        if request.tools.len() > 0 {
            o.set("tools", Json::Array(make_tools(&request.tools)));
            o.set("tool_choice", Json::string("auto"));
        }
        apply_overrides(&mut o, &request.options.provider_options);
        Json::Object(o)
    }
}

// ---------------------------------------------------------------------
// Replies
// ---------------------------------------------------------------------

/// Arguments as text, `{}` where they are blank.
pub open spec fn arguments_or_none(raw: Seq<char>) -> Seq<char> {
    if is_blank_text(raw) {
        "{}"@
    } else {
        raw
    }
}

/// A call with the given arguments.
pub open spec fn call_with(id: Seq<char>, name: Seq<char>, raw: Seq<char>) -> CallView {
    let text = arguments_or_none(raw);
    let (arguments, error) = arguments_of(text);
    CallView {
        id,
        function_name: name,
        arguments,
        arguments_raw: text,
        arguments_parse_error: error,
        signature: None,
    }
}

/// A call with the given arguments.
pub fn make_call(id: &str, name: &str, raw: &str) -> (r: PendingToolCall)
    ensures
        r@ == call_with(id@, name@, raw@),
{
    let text = if is_blank(raw) {
        copy_str("{}")
    } else {
        copy_str(raw)
    };
    let (arguments, error) = parse_tool_arguments(text.as_str());
    PendingToolCall {
        id: copy_str(id),
        function_name: copy_str(name),
        arguments,
        arguments_raw: text,
        arguments_parse_error: error,
        signature: None,
    }
}

/// The texts of the output in the content of an item, one after another.
pub open spec fn output_text_of(content: Seq<JsonView>) -> Seq<char>
    decreases content.len(),
{
    if content.len() == 0 {
        Seq::empty()
    } else {
        let before = output_text_of(content.drop_last());
        let part = content.last();
        if part.field_text("type"@) == Some("output_text"@) {
            before + or_empty(part.field_text("text"@))
        } else {
            before
        }
    }
}

/// The call that an item is.
pub open spec fn function_call_of(item: JsonView) -> CallView {
    let id = match or_else(item.field("call_id"@), item.field("id"@)) {
        Some(v) => v.text(),
        None => None,
    };
    call_with(
        or_empty(id),
        or_empty(item.field_text("name"@)),
        or_empty(item.field_text("arguments"@)),
    )
}

/// The text of all items, and the calls among them, in order.
pub open spec fn output_parts(items: Seq<JsonView>) -> (Seq<char>, Seq<CallView>)
    decreases items.len(),
{
    if items.len() == 0 {
        (Seq::empty(), Seq::empty())
    } else {
        let before = output_parts(items.drop_last());
        let item = items.last();
        if item.field_text("type"@) == Some("message"@) {
            match item.field_items("content"@) {
                Some(content) => (before.0 + output_text_of(content), before.1),
                None => before,
            }
        } else if item.field_text("type"@) == Some("function_call"@) {
            (
                before.0,
                before.1.push(function_call_of(item)),
            )
        } else {
            before
        }
    }
}

/// The reason why a reply ended, from its status.
pub open spec fn end_reason(status: Seq<char>, calls: bool) -> Seq<char> {
    if status == "completed"@ {
        if calls {
            "tool_calls"@
        } else {
            "stop"@
        }
    } else {
        status
    }
}

fn make_end_reason(status: &str, calls: bool) -> (r: String)
    ensures
        r@ == end_reason(status@, calls),
{
    if str_eq(status, "completed") {
        if calls {
            copy_str("tool_calls")
        } else {
            copy_str("stop")
        }
    } else {
        copy_str(status)
    }
}

/// The reply that a response is: one that holds a list of output and no error.
pub open spec fn response_output(value: JsonView, raw: Seq<char>, label: Seq<char>) -> Result<
    OutputView,
    Seq<char>,
> {
    match value.field("error"@) {
        Some(error) => Err(
            label + ": "@ + match error.field_text("message"@) {
                Some(m) => m,
                None => "Unknown Responses API error"@,
            },
        ),
        None => match value.field_items("output"@) {
            None => Err(invalid_text(label, raw)),
            Some(items) => {
                let (text, calls) = output_parts(items);
                Ok(
                    OutputView {
                        text,
                        reasoning: None,
                        tool_calls: calls,
                        usage: openai_usage(value),
                        finish_reason: match value.field_text("status"@) {
                            Some(status) => Some(end_reason(status, calls.len() > 0)),
                            None => None,
                        },
                        provider_messages: Seq::empty(),
                        cancelled: false,
                    },
                )
            },
        },
    }
}

fn push_output_text(content: &Vec<Json>, text: &mut String)
    ensures
        final(text)@ == old(text)@ + output_text_of(items_view(content@)),
{
    let ghost all = items_view(content@);
    assert(all.take(0) == Seq::<JsonView>::empty());
    let mut i: usize = 0;
    while i < content.len()
        invariant
            i <= content@.len(),
            all == items_view(content@),
            text@ == old(text)@ + output_text_of(all.take(i as int)),
        decreases content@.len() - i,
    {
        assert(all.take(i + 1).drop_last() == all.take(i as int));
        assert(all.take(i + 1).last() == content@[i as int]@);
        if content[i].field_is("type", "output_text") {
            if let Some(t) = content[i].get_str("text") {
                text.append(t);
            }
        }
        assert(text@ == old(text)@ + output_text_of(all.take(i + 1)));
        i += 1;
    }
    assert(all.take(all.len() as int) == all);
}

fn str_or<'a>(v: Option<&'a str>, other: &'a str) -> (r: &'a str)
    ensures
        r@ == match opt_str(v) {
            Some(t) => t,
            None => other@,
        },
{
    match v {
        Some(t) => t,
        None => other,
    }
}

fn owned_or_empty(v: Option<&str>) -> (r: String)
    ensures
        r@ == or_empty(opt_str(v)),
{
    match v {
        Some(t) => copy_str(t),
        None => String::new(),
    }
}

fn parse_function_call(item: &Json) -> (r: PendingToolCall)
    ensures
        r@ == function_call_of(item@),
{
    let id_value = match item.get("call_id") {
        Some(v) => Some(v),
        None => item.get("id"),
    };
    let id = match id_value {
        Some(v) => owned_or_empty(v.as_str()),
        None => String::new(),
    };
    let name = owned_or_empty(item.get_str("name"));
    let arguments = owned_or_empty(item.get_str("arguments"));
    make_call(id.as_str(), name.as_str(), arguments.as_str())
}

/// The reply that a response is.
pub fn output_from_responses(value: &Json, raw: &str, label: &str) -> (r: Result<
    GenerateOutput,
    ModelError,
>)
    ensures
        output_result(r) == response_output(value@, raw@, label@),
        r is Err ==> r->Err_0.kind == ModelErrorKind::Other,
{
    if let Some(error) = value.get("error") {
        let message = str_or(error.get_str("message"), "Unknown Responses API error");
        return Err(ModelError::new(concat3(label, ": ", message).as_str()));
    }
    let items = match value.get_array("output") {
        Some(v) => v,
        None => {
            return Err(invalid_response(label, raw));
        },
    };
    let ghost all = items_view(items@);
    let mut text = String::new();
    let mut calls: Vec<PendingToolCall> = Vec::new();
    assert(call_views(calls@) == Seq::<CallView>::empty());
    assert(all.take(0) == Seq::<JsonView>::empty());
    let mut i: usize = 0;
    while i < items.len()
        invariant
            i <= items@.len(),
            all == items_view(items@),
            (text@, call_views(calls@)) == output_parts(all.take(i as int)),
        decreases items@.len() - i,
    {
        let ghost before = calls@;
        assert(all.take(i + 1).drop_last() == all.take(i as int));
        assert(all.take(i + 1).last() == items@[i as int]@);
        let item = &items[i];
        if item.field_is("type", "message") {
            if let Some(content) = item.get_array("content") {
                push_output_text(content, &mut text);
            }
        } else if item.field_is("type", "function_call") {
            let call = parse_function_call(item);
            calls.push(call);
            assert(call_views(calls@) == call_views(before).push(call@));
        }
        i += 1;
    }
    assert(all.take(all.len() as int) == all);
    assert(call_views(calls@).len() == calls@.len());
    let finish_reason = match value.get_str("status") {
        Some(status) => Some(make_end_reason(status, calls.len() > 0)),
        None => None,
    };
    let provider_messages: Vec<Json> = Vec::new();
    assert(items_view(provider_messages@) == Seq::<JsonView>::empty());
    Ok(
        GenerateOutput {
            text,
            reasoning: None,
            tool_calls: calls,
            usage: model_usage_from_openai_value(value),
            finish_reason,
            provider_messages,
            cancelled: false,
        },
    )
}

/// The reply that the body of a response is.
pub fn output_from_body(raw: &str, label: &str) -> (r: Result<GenerateOutput, ModelError>)
    ensures
        match parsed_json(raw@) {
            Ok(value) => output_result(r) == response_output(value, raw@, label@),
            Err(e) => output_result(r) == Err::<OutputView, Seq<char>>(
                parse_error_text(label@, e, raw@),
            ),
        },
{
    match parse_body(raw, label) {
        Ok(value) => output_from_responses(&value, raw, label),
        Err(e) => Err(e),
    }
}

// ---------------------------------------------------------------------
// Streams
// ---------------------------------------------------------------------

/// A tool call of a stream. Events speak of it by `item_id`; `call_id` is what
/// the result of the call goes back under.
#[derive(Debug)]
pub struct ResponsesToolPartial {
    pub item_id: String,
    pub call_id: String,
    pub name: String,
    pub arguments: String,
    pub done: bool,
}

/// The value of a tool call of a stream.
#[verifier::ext_equal]
pub struct ItemView {
    pub item_id: Seq<char>,
    pub call_id: Seq<char>,
    pub name: Seq<char>,
    pub arguments: Seq<char>,
    pub done: bool,
}

impl View for ResponsesToolPartial {
    type V = ItemView;

    open spec fn view(&self) -> ItemView {
        ItemView {
            item_id: self.item_id@,
            call_id: self.call_id@,
            name: self.name@,
            arguments: self.arguments@,
            done: self.done,
        }
    }
}

/// The values of the tool calls of a stream, in order.
pub open spec fn item_views(v: Seq<ResponsesToolPartial>) -> Seq<ItemView> {
    Seq::new(v.len(), |i: int| v[i]@)
}

/// What has arrived of a streamed reply.
#[derive(Debug)]
pub struct ResponsesStreamState {
    pub text: String,
    pub reasoning: String,
    pub tool_calls: Vec<ResponsesToolPartial>,
    pub finish_reason: Option<String>,
    pub usage: Option<ModelUsage>,
}

/// The value of what has arrived.
#[verifier::ext_equal]
pub struct ResponsesView {
    pub text: Seq<char>,
    pub reasoning: Seq<char>,
    pub calls: Seq<ItemView>,
    pub finish_reason: Option<Seq<char>>,
    pub usage: Option<ModelUsage>,
}

impl View for ResponsesStreamState {
    type V = ResponsesView;

    open spec fn view(&self) -> ResponsesView {
        ResponsesView {
            text: self.text@,
            reasoning: self.reasoning@,
            calls: item_views(self.tool_calls@),
            finish_reason: opt_text(self.finish_reason),
            usage: self.usage,
        }
    }
}

/// The position from `from` on of the first call of the given item, or the end.
pub open spec fn item_at(calls: Seq<ItemView>, id: Seq<char>, from: int) -> int
    decreases calls.len() - from,
{
    if from >= calls.len() || calls[from].item_id == id {
        from
    } else {
        item_at(calls, id, from + 1)
    }
}

/// The call that a partial call is.
pub open spec fn item_call(p: ItemView) -> CallView {
    call_with(p.call_id, p.name, p.arguments)
}

/// The calls after one of them is complete, and what is told: a call is complete
/// once.
pub open spec fn completed(calls: Seq<ItemView>, id: Seq<char>) -> (Seq<ItemView>, Seq<StreamView>) {
    let i = item_at(calls, id, 0);
    if i >= calls.len() || calls[i].done {
        (calls, Seq::empty())
    } else {
        (
            calls.update(
                i,
                ItemView {
                    item_id: calls[i].item_id,
                    call_id: calls[i].call_id,
                    name: calls[i].name,
                    arguments: calls[i].arguments,
                    done: true,
                },
            ),
            seq![StreamView::ToolCallDone { call: item_call(calls[i]) }],
        )
    }
}

/// The calls after the arguments of one of them have been set.
pub open spec fn with_arguments(calls: Seq<ItemView>, id: Seq<char>, arguments: Seq<char>) -> Seq<
    ItemView,
> {
    let i = item_at(calls, id, 0);
    if i >= calls.len() {
        calls
    } else {
        calls.update(
            i,
            ItemView {
                item_id: calls[i].item_id,
                call_id: calls[i].call_id,
                name: calls[i].name,
                arguments,
                done: calls[i].done,
            },
        )
    }
}

/// What one event comes to.
#[verifier::ext_equal]
pub struct ResponsesStep {
    pub state: ResponsesView,
    pub parts: Seq<StreamView>,
    pub error: Option<Seq<char>>,
}

/// An event that changes nothing.
pub open spec fn quiet(st: ResponsesView) -> ResponsesStep {
    ResponsesStep { state: st, parts: Seq::empty(), error: None }
}

/// A piece of text arrives.
pub open spec fn text_step(st: ResponsesView, value: JsonView) -> ResponsesStep {
    match value.field_text("delta"@) {
        Some(delta) => if delta.len() > 0 {
            ResponsesStep {
                state: ResponsesView { text: st.text + delta, ..st },
                parts: told(Some(delta), false),
                error: None,
            }
        } else {
            quiet(st)
        },
        None => quiet(st),
    }
}

/// A piece of reasoning arrives.
pub open spec fn reasoning_step(st: ResponsesView, value: JsonView) -> ResponsesStep {
    match value.field_text("delta"@) {
        Some(delta) => if delta.len() > 0 {
            ResponsesStep {
                state: ResponsesView { reasoning: st.reasoning + delta, ..st },
                parts: told(Some(delta), true),
                error: None,
            }
        } else {
            quiet(st)
        },
        None => quiet(st),
    }
}

/// The item of an event, where it is a tool call.
pub open spec fn event_item(value: JsonView) -> Option<JsonView> {
    match value.field("item"@) {
        Some(item) => if item.field_text("type"@) == Some("function_call"@) {
            Some(item)
        } else {
            None
        },
        None => None,
    }
}

/// A tool call begins.
pub open spec fn added_step(st: ResponsesView, value: JsonView) -> ResponsesStep {
    match event_item(value) {
        None => quiet(st),
        Some(item) => {
            let item_id = or_empty(item.field_text("id"@));
            let call_id = match item.field_text("call_id"@) {
                Some(t) => t,
                None => item_id,
            };
            let name = or_empty(item.field_text("name"@));
            ResponsesStep {
                state: ResponsesView {
                    calls: st.calls.push(
                        ItemView {
                            item_id,
                            call_id,
                            name,
                            arguments: Seq::empty(),
                            done: false,
                        },
                    ),
                    ..st
                },
                parts: seq![StreamView::ToolCallStart { id: call_id, name }],
                error: None,
            }
        },
    }
}

/// A piece of the arguments of a call arrives.
pub open spec fn arguments_step(st: ResponsesView, value: JsonView) -> ResponsesStep {
    let id = or_empty(value.field_text("item_id"@));
    let i = item_at(st.calls, id, 0);
    match value.field_text("delta"@) {
        Some(delta) => if i < st.calls.len() {
            ResponsesStep {
                state: ResponsesView {
                    calls: with_arguments(st.calls, id, st.calls[i].arguments + delta),
                    ..st
                },
                parts: seq![StreamView::ToolCallDelta { id: st.calls[i].call_id, delta }],
                error: None,
            }
        } else {
            quiet(st)
        },
        None => quiet(st),
    }
}

/// All arguments of a call arrive at once, in place of the pieces.
pub open spec fn all_arguments_step(st: ResponsesView, value: JsonView) -> ResponsesStep {
    match value.field_text("arguments"@) {
        Some(arguments) => ResponsesStep {
            state: ResponsesView {
                calls: with_arguments(
                    st.calls,
                    or_empty(value.field_text("item_id"@)),
                    arguments,
                ),
                ..st
            },
            parts: Seq::empty(),
            error: None,
        },
        None => quiet(st),
    }
}

/// A tool call is complete.
pub open spec fn item_done_step(st: ResponsesView, value: JsonView) -> ResponsesStep {
    match event_item(value) {
        None => quiet(st),
        Some(item) => {
            let id = or_empty(item.field_text("id"@));
            let arguments = or_empty(item.field_text("arguments"@));
            let set = if arguments.len() > 0 {
                with_arguments(st.calls, id, arguments)
            } else {
                st.calls
            };
            let (calls, parts) = completed(set, id);
            ResponsesStep { state: ResponsesView { calls, ..st }, parts, error: None }
        },
    }
}

/// The reply has ended.
pub open spec fn ended_step(st: ResponsesView, value: JsonView) -> ResponsesStep {
    match value.field("response"@) {
        None => quiet(st),
        Some(response) => ResponsesStep {
            state: ResponsesView {
                usage: or_else(openai_usage(response), st.usage),
                finish_reason: match response.field_text("status"@) {
                    Some(status) => Some(end_reason(status, st.calls.len() > 0)),
                    None => st.finish_reason,
                },
                ..st
            },
            parts: Seq::empty(),
            error: None,
        },
    }
}

/// The message of an event that reports a failure.
pub open spec fn failure_text(value: JsonView) -> Seq<char> {
    let error = or_else(value.path("response"@, "error"@), value.field("error"@));
    let message = match error {
        Some(e) => e.field_text("message"@),
        None => None,
    };
    match message {
        Some(m) => m,
        None => "Responses stream failed"@,
    }
}

/// What one event comes to; events of other types change nothing.
pub open spec fn responses_step(st: ResponsesView, value: JsonView) -> ResponsesStep {
    match value.field_text("type"@) {
        None => quiet(st),
        Some(kind) => if kind == "response.output_text.delta"@ {
            text_step(st, value)
        } else if kind == "response.reasoning_summary_text.delta"@ || kind
            == "response.reasoning_text.delta"@ || kind == "response.reasoning_summary.delta"@ {
            reasoning_step(st, value)
        } else if kind == "response.output_item.added"@ {
            added_step(st, value)
        } else if kind == "response.function_call_arguments.delta"@ {
            arguments_step(st, value)
        } else if kind == "response.function_call_arguments.done"@ {
            all_arguments_step(st, value)
        } else if kind == "response.output_item.done"@ {
            item_done_step(st, value)
        } else if kind == "response.completed"@ || kind == "response.incomplete"@ {
            ended_step(st, value)
        } else if kind == "response.failed"@ || kind == "error"@ {
            ResponsesStep { state: st, parts: Seq::empty(), error: Some(failure_text(value)) }
        } else {
            quiet(st)
        },
    }
}

proof fn lemma_item_at(calls: Seq<ItemView>, id: Seq<char>, from: int)
    requires
        0 <= from <= calls.len(),
    ensures
        from <= item_at(calls, id, from) <= calls.len(),
    decreases calls.len() - from,
{
    if from < calls.len() && calls[from].item_id != id {
        lemma_item_at(calls, id, from + 1);
    }
}

impl ResponsesStreamState {
    /// A stream of which nothing has arrived.
    pub fn new() -> (r: ResponsesStreamState)
        ensures
            r@ == (ResponsesView {
                text: Seq::empty(),
                reasoning: Seq::empty(),
                calls: Seq::empty(),
                finish_reason: None,
                usage: None,
            }),
    {
        let tool_calls: Vec<ResponsesToolPartial> = Vec::new();
        assert(item_views(tool_calls@) == Seq::<ItemView>::empty());
        ResponsesStreamState {
            text: String::new(),
            reasoning: String::new(),
            tool_calls,
            finish_reason: None,
            usage: None,
        }
    }

    fn position(&self, id: &str) -> (r: usize)
        ensures
            r == item_at(self@.calls, id@, 0),
            r <= self.tool_calls@.len(),
    {
        let mut i: usize = 0;
        while i < self.tool_calls.len()
            invariant
                i <= self.tool_calls@.len(),
                item_at(self@.calls, id@, 0) == item_at(self@.calls, id@, i as int),
            decreases self.tool_calls@.len() - i,
        {
            assert(self@.calls[i as int] == self.tool_calls@[i as int]@);
            if str_eq(self.tool_calls[i].item_id.as_str(), id) {
                return i;
            }
            i += 1;
        }
        i
    }

    fn replace_call(&mut self, i: usize, arguments: String, done: bool)
        requires
            i < old(self).tool_calls@.len(),
        ensures
            final(self)@ == (ResponsesView {
                calls: old(self)@.calls.update(
                    i as int,
                    ItemView {
                        item_id: old(self)@.calls[i as int].item_id,
                        call_id: old(self)@.calls[i as int].call_id,
                        name: old(self)@.calls[i as int].name,
                        arguments: arguments@,
                        done,
                    },
                ),
                ..old(self)@
            }),
    {
        let next = ResponsesToolPartial {
            item_id: self.tool_calls[i].item_id.clone(),
            call_id: self.tool_calls[i].call_id.clone(),
            name: self.tool_calls[i].name.clone(),
            arguments,
            done,
        };
        self.tool_calls.set(i, next);
        assert(item_views(self.tool_calls@) == old(self)@.calls.update(i as int, next@));
    }

    fn set_arguments(&mut self, id: &str, arguments: &str)
        ensures
            final(self)@ == (ResponsesView {
                calls: with_arguments(old(self)@.calls, id@, arguments@),
                ..old(self)@
            }),
    {
        let i: usize = self.position(id);
        if i < self.tool_calls.len() {
            let done = self.tool_calls[i].done;
            self.replace_call(i, copy_str(arguments), done);
        }
    }

    /// Completes a call, once.
    pub fn finalize_tool_call(&mut self, item_id: &str, parts: &mut Vec<StreamPart>)
        ensures
            final(self)@ == (ResponsesView {
                calls: completed(old(self)@.calls, item_id@).0,
                ..old(self)@
            }),
            stream_views(final(parts)@) == stream_views(old(parts)@) + completed(
                old(self)@.calls,
                item_id@,
            ).1,
    {
        let i: usize = self.position(item_id);
        if i >= self.tool_calls.len() {
            return ;
        }
        if self.tool_calls[i].done {
            return ;
        }
        let call = make_call(
            self.tool_calls[i].call_id.as_str(),
            self.tool_calls[i].name.as_str(),
            self.tool_calls[i].arguments.as_str(),
        );
        let arguments = self.tool_calls[i].arguments.clone();
        self.replace_call(i, arguments, true);
        emit(parts, StreamPart::ToolCallDone { call });
    }
}

fn item_of<'a>(value: &'a Json) -> (r: Option<&'a Json>)
    ensures
        crate::json::opt_ref(r) == event_item(value@),
{
    match value.get("item") {
        Some(item) => if item.field_is("type", "function_call") {
            Some(item)
        } else {
            None
        },
        None => None,
    }
}

fn take_added(value: &Json, state: &mut ResponsesStreamState, parts: &mut Vec<StreamPart>)
    ensures
        final(state)@ == added_step(old(state)@, value@).state,
        stream_views(final(parts)@) == stream_views(old(parts)@) + added_step(
            old(state)@,
            value@,
        ).parts,
{
    if let Some(item) = item_of(value) {
        let item_id = owned_or_empty(item.get_str("id"));
        let call_id = match item.get_str("call_id") {
            Some(t) => copy_str(t),
            None => item_id.clone(),
        };
        let name = owned_or_empty(item.get_str("name"));
        emit(parts, StreamPart::ToolCallStart { id: call_id.clone(), name: name.clone() });
        let partial = ResponsesToolPartial {
            item_id,
            call_id,
            name,
            arguments: String::new(),
            done: false,
        };
        state.tool_calls.push(partial);
        assert(item_views(state.tool_calls@) == old(state)@.calls.push(partial@));
    }
}

fn take_arguments(value: &Json, state: &mut ResponsesStreamState, parts: &mut Vec<StreamPart>)
    ensures
        final(state)@ == arguments_step(old(state)@, value@).state,
        stream_views(final(parts)@) == stream_views(old(parts)@) + arguments_step(
            old(state)@,
            value@,
        ).parts,
{
    let id = owned_or_empty(value.get_str("item_id"));
    if let Some(delta) = value.get_str("delta") {
        let i: usize = state.position(id.as_str());
        if i < state.tool_calls.len() {
            assert(state@.calls[i as int] == state.tool_calls@[i as int]@);
            let call_id = state.tool_calls[i].call_id.clone();
            let arguments = concat2(state.tool_calls[i].arguments.as_str(), delta);
            let done = state.tool_calls[i].done;
            state.replace_call(i, arguments, done);
            emit(parts, StreamPart::ToolCallDelta { id: call_id, delta: copy_str(delta) });
        }
    }
}

fn take_item_done(value: &Json, state: &mut ResponsesStreamState, parts: &mut Vec<StreamPart>)
    ensures
        final(state)@ == item_done_step(old(state)@, value@).state,
        stream_views(final(parts)@) == stream_views(old(parts)@) + item_done_step(
            old(state)@,
            value@,
        ).parts,
{
    if let Some(item) = item_of(value) {
        let id = owned_or_empty(item.get_str("id"));
        let arguments = owned_or_empty(item.get_str("arguments"));
        if !arguments.as_str().is_empty() {
            state.set_arguments(id.as_str(), arguments.as_str());
        }
        state.finalize_tool_call(id.as_str(), parts);
    }
}

fn take_end(value: &Json, state: &mut ResponsesStreamState)
    ensures
        final(state)@ == ended_step(old(state)@, value@).state,
{
    assert(old(state)@.calls.len() == state.tool_calls@.len());
    if let Some(response) = value.get("response") {
        if let Some(usage) = model_usage_from_openai_value(response) {
            state.usage = Some(usage);
        }
        if let Some(status) = response.get_str("status") {
            state.finish_reason = Some(make_end_reason(status, state.tool_calls.len() > 0));
        }
    }
}

fn failure_message(value: &Json) -> (r: String)
    ensures
        r@ == failure_text(value@),
{
    let error = match value.get_path("response", "error") {
        Some(e) => Some(e),
        None => value.get("error"),
    };
    let message = match error {
        Some(e) => e.get_str("message"),
        None => None,
    };
    match message {
        Some(m) => copy_str(m),
        None => copy_str("Responses stream failed"),
    }
}

/// Takes up one event. Returns the message of a failure that the event reports.
pub fn handle_responses_stream_event(
    value: &Json,
    state: &mut ResponsesStreamState,
    parts: &mut Vec<StreamPart>,
) -> (r: Option<String>)
    ensures
        final(state)@ == responses_step(old(state)@, value@).state,
        stream_views(final(parts)@) == stream_views(old(parts)@) + responses_step(
            old(state)@,
            value@,
        ).parts,
        opt_text(r) == responses_step(old(state)@, value@).error,
{
    let kind = match value.get_str("type") {
        Some(k) => k,
        None => {
            return None;
        },
    };
    if str_eq(kind, "response.output_text.delta") {
        if let Some(delta) = value.get_str("delta") {
            if !delta.is_empty() {
                state.text.append(delta);
                emit(parts, StreamPart::TextDelta { delta: copy_str(delta) });
            }
        }
    } else if str_eq(kind, "response.reasoning_summary_text.delta") || str_eq(
        kind,
        "response.reasoning_text.delta",
    ) || str_eq(kind, "response.reasoning_summary.delta") {
        if let Some(delta) = value.get_str("delta") {
            if !delta.is_empty() {
                state.reasoning.append(delta);
                emit(parts, StreamPart::ReasoningDelta { delta: copy_str(delta) });
            }
        }
    } else if str_eq(kind, "response.output_item.added") {
        take_added(value, state, parts);
    } else if str_eq(kind, "response.function_call_arguments.delta") {
        take_arguments(value, state, parts);
    } else if str_eq(kind, "response.function_call_arguments.done") {
        if let Some(arguments) = value.get_str("arguments") {
            let id = owned_or_empty(value.get_str("item_id"));
            state.set_arguments(id.as_str(), arguments);
        }
    } else if str_eq(kind, "response.output_item.done") {
        take_item_done(value, state, parts);
    } else if str_eq(kind, "response.completed") || str_eq(kind, "response.incomplete") {
        take_end(value, state);
    } else if str_eq(kind, "response.failed") || str_eq(kind, "error") {
        return Some(failure_message(value));
    }
    None
}

/// The items of the calls that are not complete, in order.
pub open spec fn open_items(calls: Seq<ItemView>) -> Seq<Seq<char>>
    decreases calls.len(),
{
    if calls.len() == 0 {
        Seq::empty()
    } else {
        let before = open_items(calls.drop_last());
        if calls.last().done {
            before
        } else {
            before.push(calls.last().item_id)
        }
    }
}

/// The calls after the given items have been completed one by one, and what is
/// told.
pub open spec fn completed_all(calls: Seq<ItemView>, ids: Seq<Seq<char>>) -> (
    Seq<ItemView>,
    Seq<StreamView>,
)
    decreases ids.len(),
{
    if ids.len() == 0 {
        (calls, Seq::empty())
    } else {
        let before = completed_all(calls, ids.drop_last());
        let last = completed(before.0, ids.last());
        (last.0, before.1 + last.1)
    }
}

/// The calls that the partial calls are, in order.
pub open spec fn item_calls(calls: Seq<ItemView>) -> Seq<CallView> {
    Seq::new(calls.len(), |i: int| item_call(calls[i]))
}

/// The reply once the stream has ended, and what is told last.
pub open spec fn responses_output(st: ResponsesView) -> (OutputView, Seq<StreamView>) {
    let flushed = completed_all(st.calls, open_items(st.calls));
    let calls = item_calls(flushed.0);
    let reason = match st.finish_reason {
        Some(r) => r,
        None => end_reason("completed"@, calls.len() > 0),
    };
    (
        OutputView {
            text: st.text,
            reasoning: if is_blank_text(st.reasoning) {
                None
            } else {
                Some(st.reasoning)
            },
            tool_calls: calls,
            usage: st.usage,
            finish_reason: Some(reason),
            provider_messages: Seq::empty(),
            cancelled: false,
        },
        flushed.1.push(StreamView::Finish { reason, full: st.text }),
    )
}

fn collect_open_items(calls: &Vec<ResponsesToolPartial>) -> (r: Vec<String>)
    ensures
        strings(r@) == open_items(item_views(calls@)),
{
    let ghost all = item_views(calls@);
    let mut out: Vec<String> = Vec::new();
    assert(strings(out@) == Seq::<Seq<char>>::empty());
    assert(all.take(0) == Seq::<ItemView>::empty());
    let mut i: usize = 0;
    while i < calls.len()
        invariant
            i <= calls@.len(),
            all == item_views(calls@),
            strings(out@) == open_items(all.take(i as int)),
        decreases calls@.len() - i,
    {
        let ghost before = out@;
        assert(all.take(i + 1).drop_last() == all.take(i as int));
        assert(all.take(i + 1).last() == calls@[i as int]@);
        if !calls[i].done {
            out.push(calls[i].item_id.clone());
            assert(strings(out@) == strings(before).push(calls@[i as int].item_id@));
        }
        i += 1;
    }
    assert(all.take(all.len() as int) == all);
    out
}

impl ResponsesStreamState {
    fn complete_all(&mut self, ids: &Vec<String>, parts: &mut Vec<StreamPart>)
        ensures
            final(self)@ == (ResponsesView {
                calls: completed_all(old(self)@.calls, strings(ids@)).0,
                ..old(self)@
            }),
            stream_views(final(parts)@) == stream_views(old(parts)@) + completed_all(
                old(self)@.calls,
                strings(ids@),
            ).1,
    {
        let ghost all = strings(ids@);
        assert(all.take(0) == Seq::<Seq<char>>::empty());
        let mut i: usize = 0;
        while i < ids.len()
            invariant
                i <= ids@.len(),
                all == strings(ids@),
                self@ == (ResponsesView {
                    calls: completed_all(old(self)@.calls, all.take(i as int)).0,
                    ..old(self)@
                }),
                stream_views(parts@) == stream_views(old(parts)@) + completed_all(
                    old(self)@.calls,
                    all.take(i as int),
                ).1,
            decreases ids@.len() - i,
        {
            assert(all.take(i + 1).drop_last() == all.take(i as int));
            assert(all.take(i + 1).last() == ids@[i as int]@);
            self.finalize_tool_call(ids[i].as_str(), parts);
            i += 1;
        }
        assert(all.take(all.len() as int) == all);
    }

    fn calls(&self) -> (r: Vec<PendingToolCall>)
        ensures
            call_views(r@) == item_calls(self@.calls),
    {
        let ghost all = item_calls(self@.calls);
        let mut out: Vec<PendingToolCall> = Vec::new();
        let mut i: usize = 0;
        while i < self.tool_calls.len()
            invariant
                i <= self.tool_calls@.len(),
                all == item_calls(self@.calls),
                call_views(out@) == all.take(i as int),
            decreases self.tool_calls@.len() - i,
        {
            let ghost before = out@;
            let call = make_call(
                self.tool_calls[i].call_id.as_str(),
                self.tool_calls[i].name.as_str(),
                self.tool_calls[i].arguments.as_str(),
            );
            assert(self@.calls[i as int] == self.tool_calls@[i as int]@);
            out.push(call);
            assert(call_views(out@) == call_views(before).push(all[i as int]));
            i += 1;
        }
        assert(all.take(all.len() as int) == all);
        out
    }

    /// The reply once the stream has ended, and what there is to tell last.
    pub fn finish(self) -> (r: (GenerateOutput, Vec<StreamPart>))
        ensures
            r.0@ == responses_output(self@).0,
            stream_views(r.1@) == responses_output(self@).1,
    {
        let mut state = self;
        let mut parts: Vec<StreamPart> = Vec::new();
        assert(stream_views(parts@) == Seq::<StreamView>::empty());
        let ids = collect_open_items(&state.tool_calls);
        state.complete_all(&ids, &mut parts);
        let tool_calls = state.calls();
        assert(call_views(tool_calls@).len() == tool_calls@.len());
        let reason = match &state.finish_reason {
            Some(r) => r.clone(),
            None => make_end_reason("completed", tool_calls.len() > 0),
        };
        emit(&mut parts, StreamPart::Finish { reason: reason.clone(), full: state.text.clone() });
        let provider_messages: Vec<Json> = Vec::new();
        assert(items_view(provider_messages@) == Seq::<JsonView>::empty());
        let reasoning = if is_blank(state.reasoning.as_str()) {
            None
        } else {
            Some(state.reasoning)
        };
        (
            GenerateOutput {
                text: state.text,
                reasoning,
                tool_calls,
                usage: state.usage,
                finish_reason: Some(reason),
                provider_messages,
                cancelled: false,
            },
            parts,
        )
    }
}

/// One line more of a stream. After a failure nothing is read.
pub open spec fn responses_line(run: ResponsesStep, line: Seq<char>) -> ResponsesStep {
    if run.error is Some {
        run
    } else {
        match line_data(line) {
            None => run,
            Some(data) => if data == "[DONE]"@ {
                run
            } else {
                match parsed_json(data) {
                    Err(_) => run,
                    Ok(value) => {
                        let step = responses_step(run.state, value);
                        ResponsesStep {
                            state: step.state,
                            parts: run.parts + step.parts,
                            error: step.error,
                        }
                    },
                }
            },
        }
    }
}

/// Line after line.
pub open spec fn responses_run(st: ResponsesView, lines: Seq<Seq<char>>) -> ResponsesStep
    decreases lines.len(),
{
    if lines.len() == 0 {
        quiet(st)
    } else {
        responses_line(responses_run(st, lines.drop_last()), lines.last())
    }
}

/// A streamed reply: what has arrived, and the open line.
#[derive(Debug)]
pub struct ResponsesStream {
    pub buffer: String,
    pub state: ResponsesStreamState,
}

impl ResponsesStream {
    /// A stream of which nothing has arrived.
    pub fn new() -> (r: ResponsesStream)
        ensures
            r.buffer@ == Seq::<char>::empty(),
            r.state@ == (ResponsesView {
                text: Seq::empty(),
                reasoning: Seq::empty(),
                calls: Seq::empty(),
                finish_reason: None,
                usage: None,
            }),
    {
        ResponsesStream { buffer: String::new(), state: ResponsesStreamState::new() }
    }

    /// Takes up a chunk of the stream. Returns what there is to tell, and the
    /// message of a failure.
    pub fn feed(&mut self, chunk: &str) -> (r: (Vec<StreamPart>, Option<String>))
        ensures
            ({
                let text = old(self).buffer@ + chunk@;
                let run = responses_run(old(self).state@, ended_lines(text));
                &&& final(self).buffer@ == open_line(text)
                &&& final(self).state@ == run.state
                &&& stream_views(r.0@) == run.parts
                &&& opt_text(r.1) == run.error
            }),
    {
        let text = concat2(self.buffer.as_str(), chunk);
        let (lines, open) = split_lines(text.as_str());
        self.buffer = open;
        let ghost st = old(self).state@;
        let ghost all = strings(lines@);
        let mut parts: Vec<StreamPart> = Vec::new();
        let mut error: Option<String> = None;
        assert(stream_views(parts@) == Seq::<StreamView>::empty());
        assert(all.take(0) == Seq::<Seq<char>>::empty());
        let mut i: usize = 0;
        while i < lines.len()
            invariant
                i <= lines@.len(),
                all == strings(lines@),
                self.buffer@ == open@,
                responses_run(st, all.take(i as int)) == (ResponsesStep {
                    state: self.state@,
                    parts: stream_views(parts@),
                    error: opt_text(error),
                }),
            decreases lines@.len() - i,
        {
            assert(all.take(i + 1).drop_last() == all.take(i as int));
            assert(all.take(i + 1).last() == lines@[i as int]@);
            if error.is_none() {
                if let Some(data) = data_of_line(lines[i].as_str()) {
                    if !str_eq(data.as_str(), "[DONE]") {
                        if let Ok(value) = Json::parse(data.as_str()) {
                            error =
                            handle_responses_stream_event(&value, &mut self.state, &mut parts);
                        }
                    }
                }
            }
            i += 1;
        }
        assert(all.take(all.len() as int) == all);
        (parts, error)
    }
}

// ---------------------------------------------------------------------
// Laws
// ---------------------------------------------------------------------

proof fn lemma_run_after(st: ResponsesView, a: Seq<Seq<char>>, b: Seq<Seq<char>>)
    ensures
        ({
            let first = responses_run(st, a);
            let both = responses_run(st, a + b);
            let second = responses_run(first.state, b);
            if first.error is Some {
                both == first
            } else {
                both.state == second.state && both.error == second.error && both.parts
                    == first.parts + second.parts
            }
        }),
    decreases b.len(),
{
    let first = responses_run(st, a);
    if b.len() == 0 {
        assert(a + b == a);
        assert(first.parts + Seq::<StreamView>::empty() == first.parts);
    } else {
        lemma_run_after(st, a, b.drop_last());
        assert((a + b).drop_last() == a + b.drop_last());
        assert((a + b).last() == b.last());
        let second = responses_run(first.state, b.drop_last());
        if first.error is None && second.error is None {
            match line_data(b.last()) {
                Some(data) => match parsed_json(data) {
                    Ok(value) => {
                        let more = responses_step(second.state, value).parts;
                        assert((first.parts + second.parts) + more == first.parts + (second.parts
                            + more));
                    },
                    Err(_) => {},
                },
                None => {},
            }
        }
    }
}

/// However the text of a stream is cut, the same is told and the same reply comes
/// out: two chunks do what their concatenation does, and after a failure nothing
/// is read.
/// The law is over decoded text, cut between characters: each chunk of bytes is decoded
/// by itself, so a cut inside a character changes the text.
pub proof fn law_cuts_do_not_change_the_reply(
    st: ResponsesView,
    buffer: Seq<char>,
    a: Seq<char>,
    b: Seq<char>,
)
    ensures
        ({
            let first = responses_run(st, ended_lines(buffer + a));
            let second = responses_run(first.state, ended_lines(open_line(buffer + a) + b));
            let both = responses_run(st, ended_lines(buffer + (a + b)));
            if first.error is Some {
                both == first
            } else {
                both.state == second.state && both.error == second.error && both.parts
                    == first.parts + second.parts
            }
        }),
{
    assert(buffer + (a + b) == (buffer + a) + b);
    law_cuts_do_not_change_lines(buffer + a, b);
    lemma_run_after(
        st,
        ended_lines(buffer + a),
        ended_lines(open_line(buffer + a) + b),
    );
}

/// A call is told complete at most once, however often its item is reported done.
pub proof fn law_calls_complete_once(calls: Seq<ItemView>, id: Seq<char>)
    ensures
        completed(completed(calls, id).0, id).1.len() == 0,
        completed(completed(calls, id).0, id).0 == completed(calls, id).0,
{
    lemma_item_at(calls, id, 0);
    let i = item_at(calls, id, 0);
    if i < calls.len() && !calls[i].done {
        lemma_item_at_update(calls, id, 0, i);
    }
}

proof fn lemma_item_at_update(calls: Seq<ItemView>, id: Seq<char>, from: int, i: int)
    requires
        0 <= from <= i < calls.len(),
        item_at(calls, id, from) == i,
    ensures
        item_at(
            calls.update(
                i,
                ItemView {
                    item_id: calls[i].item_id,
                    call_id: calls[i].call_id,
                    name: calls[i].name,
                    arguments: calls[i].arguments,
                    done: true,
                },
            ),
            id,
            from,
        ) == i,
    decreases i - from,
{
    if from < i {
        lemma_item_at_update(calls, id, from + 1, i);
    } else {
        lemma_item_at(calls, id, i + 1);
    }
}

proof fn lemma_request_keys()
    ensures
        "model"@ != "input"@,
        "model"@ != "instructions"@,
        "model"@ != "max_output_tokens"@,
        "model"@ != "stream"@,
        "model"@ != "tools"@,
        "model"@ != "tool_choice"@,
        "input"@ != "instructions"@,
        "input"@ != "max_output_tokens"@,
        "input"@ != "stream"@,
        "input"@ != "tools"@,
        "input"@ != "tool_choice"@,
        "instructions"@ != "max_output_tokens"@,
        "instructions"@ != "stream"@,
        "instructions"@ != "tools"@,
        "instructions"@ != "tool_choice"@,
        "max_output_tokens"@ != "stream"@,
        "max_output_tokens"@ != "tools"@,
        "max_output_tokens"@ != "tool_choice"@,
        "stream"@ != "tools"@,
        "stream"@ != "tool_choice"@,
        "tools"@ != "tool_choice"@,
{
    reveal_strlit("model");
    reveal_strlit("input");
    reveal_strlit("instructions");
    reveal_strlit("max_output_tokens");
    reveal_strlit("stream");
    reveal_strlit("tools");
    reveal_strlit("tool_choice");
    assert("model"@[0] == 'm');
    assert("input"@[0] == 'i');
    assert("model"@.len() == 5);
    assert("instructions"@.len() == 12);
    assert("max_output_tokens"@.len() == 17);
    assert("stream"@.len() == 6);
    assert("tools"@[0] == 't');
    assert("tool_choice"@.len() == 11);
    assert("input"@.len() == 5);
    assert("tools"@.len() == 5);
}

proof fn lemma_event_kinds()
    ensures
        "response.output_text.delta"@ != "response.reasoning_summary_text.delta"@,
        "response.output_text.delta"@ != "response.reasoning_text.delta"@,
        "response.output_text.delta"@ != "response.reasoning_summary.delta"@,
        "response.output_text.delta"@ != "response.output_item.added"@,
        "response.output_text.delta"@ != "response.function_call_arguments.delta"@,
        "response.output_text.delta"@ != "response.function_call_arguments.done"@,
        "response.output_text.delta"@ != "response.output_item.done"@,
        "response.output_text.delta"@ != "response.completed"@,
        "response.output_text.delta"@ != "response.incomplete"@,
        "response.output_text.delta"@ != "response.failed"@,
        "response.output_text.delta"@ != "error"@,
        "response.reasoning_summary_text.delta"@ != "response.reasoning_text.delta"@,
        "response.reasoning_summary_text.delta"@ != "response.reasoning_summary.delta"@,
        "response.reasoning_summary_text.delta"@ != "response.output_item.added"@,
        "response.reasoning_summary_text.delta"@ != "response.function_call_arguments.delta"@,
        "response.reasoning_summary_text.delta"@ != "response.function_call_arguments.done"@,
        "response.reasoning_summary_text.delta"@ != "response.output_item.done"@,
        "response.reasoning_summary_text.delta"@ != "response.completed"@,
        "response.reasoning_summary_text.delta"@ != "response.incomplete"@,
        "response.reasoning_summary_text.delta"@ != "response.failed"@,
        "response.reasoning_summary_text.delta"@ != "error"@,
        "response.reasoning_text.delta"@ != "response.reasoning_summary.delta"@,
        "response.reasoning_text.delta"@ != "response.output_item.added"@,
        "response.reasoning_text.delta"@ != "response.function_call_arguments.delta"@,
        "response.reasoning_text.delta"@ != "response.function_call_arguments.done"@,
        "response.reasoning_text.delta"@ != "response.output_item.done"@,
        "response.reasoning_text.delta"@ != "response.completed"@,
        "response.reasoning_text.delta"@ != "response.incomplete"@,
        "response.reasoning_text.delta"@ != "response.failed"@,
        "response.reasoning_text.delta"@ != "error"@,
        "response.reasoning_summary.delta"@ != "response.output_item.added"@,
        "response.reasoning_summary.delta"@ != "response.function_call_arguments.delta"@,
        "response.reasoning_summary.delta"@ != "response.function_call_arguments.done"@,
        "response.reasoning_summary.delta"@ != "response.output_item.done"@,
        "response.reasoning_summary.delta"@ != "response.completed"@,
        "response.reasoning_summary.delta"@ != "response.incomplete"@,
        "response.reasoning_summary.delta"@ != "response.failed"@,
        "response.reasoning_summary.delta"@ != "error"@,
        "response.output_item.added"@ != "response.function_call_arguments.delta"@,
        "response.output_item.added"@ != "response.function_call_arguments.done"@,
        "response.output_item.added"@ != "response.output_item.done"@,
        "response.output_item.added"@ != "response.completed"@,
        "response.output_item.added"@ != "response.incomplete"@,
        "response.output_item.added"@ != "response.failed"@,
        "response.output_item.added"@ != "error"@,
        "response.function_call_arguments.delta"@ != "response.function_call_arguments.done"@,
        "response.function_call_arguments.delta"@ != "response.output_item.done"@,
        "response.function_call_arguments.delta"@ != "response.completed"@,
        "response.function_call_arguments.delta"@ != "response.incomplete"@,
        "response.function_call_arguments.delta"@ != "response.failed"@,
        "response.function_call_arguments.delta"@ != "error"@,
        "response.function_call_arguments.done"@ != "response.output_item.done"@,
        "response.function_call_arguments.done"@ != "response.completed"@,
        "response.function_call_arguments.done"@ != "response.incomplete"@,
        "response.function_call_arguments.done"@ != "response.failed"@,
        "response.function_call_arguments.done"@ != "error"@,
        "response.output_item.done"@ != "response.completed"@,
        "response.output_item.done"@ != "response.incomplete"@,
        "response.output_item.done"@ != "response.failed"@,
        "response.output_item.done"@ != "error"@,
        "response.completed"@ != "response.incomplete"@,
        "response.completed"@ != "response.failed"@,
        "response.completed"@ != "error"@,
        "response.incomplete"@ != "response.failed"@,
        "response.incomplete"@ != "error"@,
        "response.failed"@ != "error"@,
{
    reveal_strlit("response.output_text.delta");
    reveal_strlit("response.reasoning_summary_text.delta");
    reveal_strlit("response.reasoning_text.delta");
    reveal_strlit("response.reasoning_summary.delta");
    reveal_strlit("response.output_item.added");
    reveal_strlit("response.function_call_arguments.delta");
    reveal_strlit("response.function_call_arguments.done");
    reveal_strlit("response.output_item.done");
    reveal_strlit("response.completed");
    reveal_strlit("response.incomplete");
    reveal_strlit("response.failed");
    reveal_strlit("error");
    assert("response.output_text.delta"@.len() == 26);
    assert("response.reasoning_summary_text.delta"@.len() == 37);
    assert("response.reasoning_text.delta"@.len() == 29);
    assert("response.reasoning_summary.delta"@.len() == 32);
    assert("response.output_text.delta"@[16] == 't');
    assert("response.output_item.added"@[16] == 'i');
    assert("response.function_call_arguments.delta"@.len() == 38);
    assert("response.function_call_arguments.done"@.len() == 37);
    assert("response.output_item.done"@.len() == 25);
    assert("response.completed"@.len() == 18);
    assert("response.incomplete"@.len() == 19);
    assert("response.failed"@.len() == 15);
    assert("error"@.len() == 5);
    assert("response.output_item.added"@.len() == 26);
    assert("response.reasoning_summary_text.delta"@[9] == 'r');
    assert("response.function_call_arguments.done"@[9] == 'f');
}

/// A body says what the request asks: the model, the conversation, the system prompt where
/// it is not blank, the limit where there is one, and the tools, of which the model may
/// choose. The user's own fields win, and there are no others.
pub proof fn law_the_body_says_what_is_asked(request: GenerateRequest, stream: bool)
    ensures
        ({
            let body = responses_body(request, stream);
            let own = request.options.provider_options@;
            &&& forall|k: Seq<char>| own.field(k) is Some ==> #[trigger] body.field(k) == own.field(k)
            &&& own.field("model"@) is None ==> body.field_text("model"@) == Some(request.model@)
            &&& own.field("input"@) is None ==> body.field_items("input"@) == Some(
                all_responses_items(message_views(request.messages@)),
            )
            &&& own.field("instructions"@) is None ==> body.field("instructions"@)
                == if is_blank_text(request.system@) {
                None
            } else {
                Some(JsonView::Str(request.system@))
            }
            &&& own.field("max_output_tokens"@) is None ==> body.field("max_output_tokens"@)
                == if request.options.max_tokens > 0 {
                Some(JsonView::Number(JsonNumber::Unsigned(request.options.max_tokens as u64)))
            } else {
                None
            }
            &&& own.field("stream"@) is None ==> body.field("stream"@) == if stream {
                Some(JsonView::Bool(true))
            } else {
                None
            }
            &&& own.field("tool_choice"@) is None ==> body.field("tool_choice"@)
                == if request.tools@.len() > 0 {
                Some(JsonView::Str("auto"@))
            } else {
                None
            }
            &&& forall|k: Seq<char>| #[trigger]
                body.field(k) is Some && own.field(k) is None ==> k == "model"@ || k == "input"@
                    || k == "instructions"@ || k == "max_output_tokens"@ || k == "stream"@ || k
                    == "tools"@ || k == "tool_choice"@
        }),
{
    lemma_request_keys();
}

/// Where the user sets no tools, a body holds the tools of the request, one by one and in
/// order, whether or not the reply is streamed; and no field where there are none.
pub proof fn law_the_body_holds_the_tools(request: GenerateRequest, stream: bool)
    requires
        request.options.provider_options@.field("tools"@) is None,
    ensures
        ({
            let body = responses_body(request, stream);
            &&& body.field("tools"@) is Some <==> request.tools@.len() > 0
            &&& request.tools@.len() > 0 ==> body.field_items("tools"@) is Some && ({
                let told = body.field_items("tools"@)->0;
                &&& told.len() == request.tools@.len()
                &&& forall|i: int|
                    0 <= i < told.len() ==> (#[trigger] told[i]).field_text("name"@) == Some(
                        request.tools@[i]@.call_name(),
                    ) && told[i].field_text("description"@) == Some(request.tools@[i].description@)
                        && told[i].field("parameters"@) == Some(request.tools@[i].input_schema@)
                        && told[i].field_text("type"@) == Some("function"@)
            })
        }),
{
    lemma_request_keys();
    let body = responses_body(request, stream);
    if request.tools@.len() > 0 {
        let told = body.field_items("tools"@)->0;
        assert forall|i: int| 0 <= i < told.len() implies (#[trigger] told[i]).field_text("name"@)
            == Some(request.tools@[i]@.call_name()) && told[i].field_text("description"@) == Some(
            request.tools@[i].description@,
        ) && told[i].field("parameters"@) == Some(request.tools@[i].input_schema@)
            && told[i].field_text("type"@) == Some("function"@) by {
            law_tools_are_told_whole(request.tools@[i]@);
        }
    }
}

/// The bodies of a streamed and of a plain request differ in the field `stream` alone.
pub proof fn law_streaming_changes_one_field(request: GenerateRequest, key: Seq<char>)
    requires
        key != "stream"@,
    ensures
        responses_body(request, true).field(key) == responses_body(request, false).field(key),
{
    lemma_request_keys();
}

/// A call has the identifier, the name and the arguments that it is made of; blank
/// arguments are those of an empty object.
pub proof fn law_calls_hold_their_arguments(id: Seq<char>, name: Seq<char>, raw: Seq<char>)
    ensures
        ({
            let call = call_with(id, name, raw);
            &&& call.id == id
            &&& call.function_name == name
            &&& !is_blank_text(raw) ==> call.arguments_raw == raw
            &&& is_blank_text(raw) ==> call.arguments_raw == "{}"@
            &&& !is_blank_text(raw) ==> match parsed_json(raw) {
                Ok(v) => call.arguments == v && call.arguments_parse_error is None,
                Err(_) => call.arguments == JsonView::Null && call.arguments_parse_error is Some,
            }
            &&& call.signature is None
        }),
{
}

/// The text of content is the text of its first items, and then that of the rest.
pub proof fn law_output_texts_run_together(a: Seq<JsonView>, b: Seq<JsonView>)
    ensures
        output_text_of(a + b) == output_text_of(a) + output_text_of(b),
    decreases b.len(),
{
    if b.len() == 0 {
        assert(a + b =~= a);
        assert(output_text_of(a) + output_text_of(b) =~= output_text_of(a));
    } else {
        law_output_texts_run_together(a, b.drop_last());
        assert((a + b).drop_last() =~= a + b.drop_last());
        assert((a + b).last() == b.last());
        assert(output_text_of(a + b) =~= output_text_of(a) + output_text_of(b));
    }
}

/// What items hold is what the first ones hold, and then what the rest hold.
pub proof fn law_output_is_read_in_order(a: Seq<JsonView>, b: Seq<JsonView>)
    ensures
        output_parts(a + b).0 == output_parts(a).0 + output_parts(b).0,
        output_parts(a + b).1 == output_parts(a).1 + output_parts(b).1,
    decreases b.len(),
{
    if b.len() == 0 {
        assert(a + b =~= a);
        assert(output_parts(a).0 + output_parts(b).0 =~= output_parts(a).0);
        assert(output_parts(a).1 + output_parts(b).1 =~= output_parts(a).1);
    } else {
        law_output_is_read_in_order(a, b.drop_last());
        assert((a + b).drop_last() =~= a + b.drop_last());
        assert((a + b).last() == b.last());
        assert(output_parts(a + b).0 =~= output_parts(a).0 + output_parts(b).0);
        assert(output_parts(a + b).1 =~= output_parts(a).1 + output_parts(b).1);
    }
}

/// A message item holds its text, and a call item one call, with its identifier, its name
/// and its arguments.
pub proof fn law_an_item_is_read_whole(item: JsonView, content: Seq<JsonView>)
    ensures
        item.field_text("type"@) == Some("message"@) && item.field_items("content"@) == Some(
            content,
        ) ==> output_parts(seq![item]).0 == output_text_of(content) && output_parts(
            seq![item],
        ).1.len() == 0,
        item.field_text("type"@) == Some("function_call"@) && item.field_text("call_id"@) is Some
            && item.field_text("name"@) is Some && item.field_text("arguments"@) is Some
            ==> output_parts(seq![item]).0.len() == 0 && output_parts(seq![item]).1 == seq![
            call_with(
                item.field_text("call_id"@)->0,
                item.field_text("name"@)->0,
                item.field_text("arguments"@)->0,
            ),
        ],
        item.field_text("type"@) == Some("output_text"@) && item.field_text("text"@) is Some
            ==> output_text_of(seq![item]) == item.field_text("text"@)->0,
{
    reveal_with_fuel(output_parts, 2);
    reveal_with_fuel(output_text_of, 2);
    assert(seq![item].drop_last() =~= Seq::<JsonView>::empty());
    assert(seq![item].last() == item);
    reveal_strlit("message");
    reveal_strlit("function_call");
    assert("message"@.len() == 7);
    assert("function_call"@.len() == 13);
    if item.field_text("type"@) == Some("message"@) && item.field_items("content"@) == Some(
        content,
    ) {
        assert(output_parts(seq![item]).0 =~= output_text_of(content));
    }
    if item.field_text("type"@) == Some("output_text"@) && item.field_text("text"@) is Some {
        assert(output_text_of(seq![item]) =~= item.field_text("text"@)->0);
    }
}

/// A response is the text and the calls of its output; an error is told as one, and what
/// has no output is none.
pub proof fn law_a_response_is_its_output(value: JsonView, raw: Seq<char>, label: Seq<char>)
    ensures
        response_output(value, raw, label) is Ok <==> value.field("error"@) is None
            && value.field_items("output"@) is Some,
        response_output(value, raw, label) is Ok ==> ({
            let out = response_output(value, raw, label)->Ok_0;
            let (text, calls) = output_parts(value.field_items("output"@)->0);
            &&& out.text == text
            &&& out.tool_calls == calls
            &&& out.usage == openai_usage(value)
            &&& value.field_text("status"@) == Some("completed"@) ==> out.finish_reason == Some(
                if calls.len() > 0 {
                    "tool_calls"@
                } else {
                    "stop"@
                },
            )
            &&& value.field_text("status"@) is Some && value.field_text("status"@) != Some(
                "completed"@,
            ) ==> out.finish_reason == value.field_text("status"@)
            &&& !out.cancelled
        }),
{
}

/// A delta of text or of reasoning is added to the end, and told; what else has arrived
/// stays.
pub proof fn law_deltas_are_added(st: ResponsesView, value: JsonView, t: Seq<char>)
    requires
        value.field_text("delta"@) == Some(t),
        t.len() > 0,
    ensures
        value.field_text("type"@) == Some("response.output_text.delta"@) ==> ({
            let step = responses_step(st, value);
            &&& step.state.text == st.text + t
            &&& step.state.reasoning == st.reasoning && step.state.calls == st.calls
            &&& step.parts == seq![StreamView::TextDelta { delta: t }]
            &&& step.error is None
        }),
        value.field_text("type"@) == Some("response.reasoning_summary_text.delta"@)
            || value.field_text("type"@) == Some("response.reasoning_text.delta"@)
            || value.field_text("type"@) == Some("response.reasoning_summary.delta"@) ==> ({
            let step = responses_step(st, value);
            &&& step.state.reasoning == st.reasoning + t
            &&& step.state.text == st.text && step.state.calls == st.calls
            &&& step.parts == seq![StreamView::ReasoningDelta { delta: t }]
            &&& step.error is None
        }),
{
    lemma_event_kinds();
}

proof fn lemma_item_found(calls: Seq<ItemView>, id: Seq<char>, from: int, i: int)
    requires
        0 <= from <= i < calls.len(),
        calls[i].item_id == id,
        forall|j: int| from <= j < i ==> (#[trigger] calls[j]).item_id != id,
    ensures
        item_at(calls, id, from) == i,
    decreases i - from,
{
    if from < i {
        assert(calls[from].item_id != id);
        lemma_item_found(calls, id, from + 1, i);
    }
}

/// A call that is announced is one more call at the end, with its identifiers and its name
/// and no arguments yet; its start is told.
pub proof fn law_announced_calls_are_added(st: ResponsesView, value: JsonView, item: JsonView)
    requires
        value.field_text("type"@) == Some("response.output_item.added"@),
        value.field("item"@) == Some(item),
        item.field_text("type"@) == Some("function_call"@),
    ensures
        ({
            let step = responses_step(st, value);
            &&& step.state.calls.len() == st.calls.len() + 1
            &&& step.state.calls.drop_last() == st.calls
            &&& item.field_text("id"@) is Some ==> step.state.calls.last().item_id
                == item.field_text("id"@)->0
            &&& item.field_text("call_id"@) is Some ==> step.state.calls.last().call_id
                == item.field_text("call_id"@)->0
            &&& item.field_text("name"@) is Some ==> step.state.calls.last().name
                == item.field_text("name"@)->0
            &&& step.state.calls.last().arguments.len() == 0
            &&& !step.state.calls.last().done
            &&& step.parts == seq![
                StreamView::ToolCallStart {
                    id: step.state.calls.last().call_id,
                    name: step.state.calls.last().name,
                },
            ]
            &&& step.state.text == st.text && step.state.reasoning == st.reasoning
        }),
{
    lemma_event_kinds();
    let step = responses_step(st, value);
    assert(step.state.calls.drop_last() =~= st.calls);
}

/// A piece of a call's arguments is added to the end of that call's arguments, and told;
/// whole arguments take the place of what has arrived. The other calls stay as they are.
pub proof fn law_arguments_go_to_their_call(
    st: ResponsesView,
    value: JsonView,
    t: Seq<char>,
    i: int,
    j: int,
)
    requires
        0 <= i < st.calls.len(),
        0 <= j < st.calls.len(),
        value.field_text("item_id"@) == Some(st.calls[i].item_id),
        forall|k: int| 0 <= k < i ==> (#[trigger] st.calls[k]).item_id != st.calls[i].item_id,
    ensures
        ({
            let step = responses_step(st, value);
            let pieced = value.field_text("type"@) == Some("response.function_call_arguments.delta"@)
                && value.field_text("delta"@) == Some(t);
            let whole = value.field_text("type"@) == Some("response.function_call_arguments.done"@)
                && value.field_text("arguments"@) == Some(t);
            &&& pieced ==> step.state.calls[i].arguments == st.calls[i].arguments + t && step.parts
                == seq![StreamView::ToolCallDelta { id: st.calls[i].call_id, delta: t }]
            &&& whole ==> step.state.calls[i].arguments == t && step.parts.len() == 0
            &&& pieced || whole ==> step.state.calls.len() == st.calls.len()
                && step.state.calls[i].name == st.calls[i].name && step.state.calls[i].call_id
                == st.calls[i].call_id && (j != i ==> step.state.calls[j] == st.calls[j])
                && step.state.text == st.text && step.error is None
        }),
{
    lemma_event_kinds();
    lemma_item_found(st.calls, st.calls[i].item_id, 0, i);
}

/// A call whose item is done is told complete, with the arguments that the item gives, or
/// those that have arrived where it gives none.
pub proof fn law_done_items_complete_their_call(
    st: ResponsesView,
    value: JsonView,
    item: JsonView,
    i: int,
    j: int,
)
    requires
        0 <= i < st.calls.len(),
        0 <= j < st.calls.len(),
        !st.calls[i].done,
        forall|k: int| 0 <= k < i ==> (#[trigger] st.calls[k]).item_id != st.calls[i].item_id,
        value.field_text("type"@) == Some("response.output_item.done"@),
        value.field("item"@) == Some(item),
        item.field_text("type"@) == Some("function_call"@),
        item.field_text("id"@) == Some(st.calls[i].item_id),
    ensures
        ({
            let step = responses_step(st, value);
            let raw = if item.field_text("arguments"@) is Some && (item.field_text(
                "arguments"@,
            )->0).len() > 0 {
                item.field_text("arguments"@)->0
            } else {
                st.calls[i].arguments
            };
            &&& step.state.calls.len() == st.calls.len()
            &&& step.state.calls[i].done
            &&& step.state.calls[i].arguments == raw
            &&& step.parts == seq![
                StreamView::ToolCallDone {
                    call: call_with(st.calls[i].call_id, st.calls[i].name, raw),
                },
            ]
            &&& j != i ==> step.state.calls[j] == st.calls[j]
        }),
{
    lemma_event_kinds();
    let id = st.calls[i].item_id;
    lemma_item_found(st.calls, id, 0, i);
    let arguments = or_empty(item.field_text("arguments"@));
    let set = if arguments.len() > 0 {
        with_arguments(st.calls, id, arguments)
    } else {
        st.calls
    };
    assert forall|k: int| 0 <= k < i implies (#[trigger] set[k]).item_id != id by {
        assert(set[k] == st.calls[k]);
    }
    lemma_item_found(set, id, 0, i);
}

/// The end of a response gives the usage and the reason; a failure gives the error.
pub proof fn law_the_end_is_reported(st: ResponsesView, value: JsonView, response: JsonView)
    ensures
        (value.field_text("type"@) == Some("response.completed"@) || value.field_text("type"@)
            == Some("response.incomplete"@)) && value.field("response"@) == Some(response) ==> ({
            let step = responses_step(st, value);
            &&& step.state.text == st.text && step.state.calls == st.calls
            &&& openai_usage(response) is Some ==> step.state.usage == openai_usage(response)
            &&& openai_usage(response) is None ==> step.state.usage == st.usage
            &&& response.field_text("status"@) == Some("completed"@) ==> step.state.finish_reason
                == Some(
                if st.calls.len() > 0 {
                    "tool_calls"@
                } else {
                    "stop"@
                },
            )
            &&& response.field_text("status"@) == Some("incomplete"@) ==> step.state.finish_reason
                == Some("incomplete"@)
            &&& step.error is None
        }),
        value.field_text("type"@) == Some("response.failed"@) || value.field_text("type"@) == Some(
            "error"@,
        ) ==> responses_step(st, value).error is Some && responses_step(st, value).state == st,
{
    lemma_event_kinds();
    reveal_strlit("completed");
    reveal_strlit("incomplete");
    assert("completed"@.len() == 9);
    assert("incomplete"@.len() == 10);
}

proof fn lemma_completed_keeps(calls: Seq<ItemView>, id: Seq<char>)
    ensures
        completed(calls, id).0.len() == calls.len(),
        forall|k: int|
            0 <= k < calls.len() ==> item_call(#[trigger] completed(calls, id).0[k]) == item_call(
                calls[k],
            ) && completed(calls, id).0[k].item_id == calls[k].item_id && (calls[k].done
                ==> completed(calls, id).0[k].done),
{
    lemma_item_at(calls, id, 0);
}

proof fn lemma_completed_all_keeps(calls: Seq<ItemView>, ids: Seq<Seq<char>>)
    ensures
        completed_all(calls, ids).0.len() == calls.len(),
        forall|k: int|
            0 <= k < calls.len() ==> item_call(#[trigger] completed_all(calls, ids).0[k])
                == item_call(calls[k]),
    decreases ids.len(),
{
    if ids.len() > 0 {
        lemma_completed_all_keeps(calls, ids.drop_last());
        lemma_completed_keeps(completed_all(calls, ids.drop_last()).0, ids.last());
    }
}

/// The reply of a stream is what has arrived: the text, the reasoning where it is not
/// blank, the usage, the reason for the end, and one call for each call that was
/// announced, in order, with all its arguments. The last thing that is told is the end.
pub proof fn law_the_reply_is_what_arrived(st: ResponsesView)
    ensures
        ({
            let (out, parts) = responses_output(st);
            &&& out.text == st.text
            &&& is_blank_text(st.reasoning) ==> out.reasoning is None
            &&& !is_blank_text(st.reasoning) ==> out.reasoning == Some(st.reasoning)
            &&& out.tool_calls.len() == st.calls.len()
            &&& forall|i: int|
                0 <= i < st.calls.len() ==> (#[trigger] out.tool_calls[i]) == call_with(
                    st.calls[i].call_id,
                    st.calls[i].name,
                    st.calls[i].arguments,
                )
            &&& out.usage == st.usage
            &&& st.finish_reason is Some ==> out.finish_reason == st.finish_reason
            &&& st.finish_reason is None ==> out.finish_reason == Some(
                if st.calls.len() > 0 {
                    "tool_calls"@
                } else {
                    "stop"@
                },
            )
            &&& parts.len() > 0 && parts.last() == (StreamView::Finish {
                reason: out.finish_reason->0,
                full: st.text,
            })
            &&& !out.cancelled
        }),
{
    lemma_completed_all_keeps(st.calls, open_items(st.calls));
}

/// A line with an event does what the event does, and any other line nothing; after an
/// error nothing is read.
pub proof fn law_lines_are_events(
    st: ResponsesView,
    line: Seq<char>,
    data: Seq<char>,
    lines: Seq<Seq<char>>,
    more: Seq<Seq<char>>,
)
    ensures
        line_data(line) == Some(data) && data != "[DONE]"@ && parsed_json(data) is Ok
            ==> responses_run(st, seq![line]) == responses_step(st, parsed_json(data)->Ok_0),
        line_data(line) is None || line_data(line) == Some("[DONE]"@) ==> responses_run(
            st,
            seq![line],
        ).state == st && responses_run(st, seq![line]).parts.len() == 0,
        responses_run(st, lines).error is Some ==> responses_run(st, lines + more) == responses_run(
            st,
            lines,
        ),
{
    reveal_with_fuel(responses_run, 2);
    assert(seq![line].drop_last() =~= Seq::<Seq<char>>::empty());
    assert(seq![line].last() == line);
    lemma_run_after(st, lines, more);
    if line_data(line) == Some(data) && data != "[DONE]"@ && parsed_json(data) is Ok {
        let step = responses_step(st, parsed_json(data)->Ok_0);
        assert(Seq::<StreamView>::empty() + step.parts =~= step.parts);
    }
}

/// The calls that are still open, in order, as they are told when they end.
pub open spec fn ends_of_open(calls: Seq<ItemView>) -> Seq<StreamView>
    decreases calls.len(),
{
    if calls.len() == 0 {
        Seq::empty()
    } else if calls.last().done {
        ends_of_open(calls.drop_last())
    } else {
        ends_of_open(calls.drop_last()).push(
            StreamView::ToolCallDone {
                call: call_with(calls.last().call_id, calls.last().name, calls.last().arguments),
            },
        )
    }
}

proof fn lemma_completed_other(calls: Seq<ItemView>, id: Seq<char>, k: int)
    requires
        0 <= k < calls.len(),
        calls[k].item_id != id,
    ensures
        completed(calls, id).0[k] == calls[k],
{
    lemma_item_at(calls, id, 0);
    lemma_item_is(calls, id, 0);
}

proof fn lemma_item_is(calls: Seq<ItemView>, id: Seq<char>, from: int)
    requires
        0 <= from <= calls.len(),
    ensures
        item_at(calls, id, from) < calls.len() ==> calls[item_at(calls, id, from)].item_id == id,
    decreases calls.len() - from,
{
    if from < calls.len() && calls[from].item_id != id {
        lemma_item_is(calls, id, from + 1);
    }
}

proof fn lemma_flush(all: Seq<ItemView>, n: int)
    requires
        0 <= n <= all.len(),
        forall|i: int, j: int| 0 <= i < j < all.len() ==> all[i].item_id != all[j].item_id,
    ensures
        ({
            let out = completed_all(all, open_items(all.take(n)));
            &&& out.1 == ends_of_open(all.take(n))
            &&& out.0.len() == all.len()
            &&& forall|k: int| n <= k < all.len() ==> (#[trigger] out.0[k]) == all[k]
            &&& forall|k: int|
                0 <= k < all.len() ==> (#[trigger] out.0[k]).item_id == all[k].item_id && item_call(
                    out.0[k],
                ) == item_call(all[k])
        }),
    decreases n,
{
    if n == 0 {
        assert(all.take(0) =~= Seq::<ItemView>::empty());
    } else {
        lemma_flush(all, n - 1);
        let part = all.take(n);
        assert(part.drop_last() =~= all.take(n - 1));
        assert(part.last() == all[n - 1]);
        let before = completed_all(all, open_items(all.take(n - 1)));
        if !all[n - 1].done {
            let id = all[n - 1].item_id;
            let ids = open_items(part);
            assert(ids.drop_last() =~= open_items(all.take(n - 1)));
            assert(ids.last() == id);
            assert(before.0[n - 1] == all[n - 1]);
            assert forall|k: int| 0 <= k < n - 1 implies (#[trigger] before.0[k]).item_id != id by {
                assert(before.0[k].item_id == all[k].item_id);
            }
            lemma_item_found(before.0, id, 0, n - 1);
            let out = completed_all(all, ids);
            lemma_completed_keeps(before.0, id);
            assert forall|k: int| n <= k < all.len() implies (#[trigger] out.0[k]) == all[k] by {
                assert(before.0[k] == all[k]);
                assert(all[n - 1].item_id != all[k].item_id);
                lemma_completed_other(before.0, id, k);
            }
            assert(out.1 =~= ends_of_open(part));
        }
    }
}

/// At the end of a stream, the end of each call that is still open is told, once and in
/// order, and then the end of the stream.
pub proof fn law_open_calls_end_with_the_stream(st: ResponsesView)
    requires
        forall|i: int, j: int|
            0 <= i < j < st.calls.len() ==> st.calls[i].item_id != st.calls[j].item_id,
    ensures
        responses_output(st).1.drop_last() == ends_of_open(st.calls),
{
    lemma_flush(st.calls, st.calls.len() as int);
    assert(st.calls.take(st.calls.len() as int) =~= st.calls);
    assert(responses_output(st).1.drop_last() =~= ends_of_open(st.calls));
}

} // verus!
