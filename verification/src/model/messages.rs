//! Conversion between messages and the JSON of the OpenAI services.

use vstd::prelude::*;

use crate::clock::new_uuid;
use crate::json::{items_view, json_text, parsed_json};
use crate::json::{Json, JsonView, Object};
use crate::model::types::{
    call_views, message_views, part_views, texts_in, tool_views, CallView, MessageView, OutputView,
    PartView,
};
use crate::model::types::{
    collect_texts, GenerateOptions, GenerateOutput, GenerateRequest, GenerateRequestContext,
    MessagePart, ModelMessage, ModelRole, ModelTool, PendingToolCall, RequestMetadata,
};
use crate::text::{
    concat2, concat4, copy_str, is_blank, join, own_opt, split_once, str_eq, strip_prefix,
};
use crate::text::{
    has_prefix, is_blank_text, joined, opt_str, opt_text, split_at_first, strings, without_prefix,
};
use crate::types::ChatToolArtifact;

verus! {

// ---------------------------------------------------------------------
// Tool arguments
// ---------------------------------------------------------------------

/// The arguments that a text stands for, and what is wrong with it; a blank text
/// stands for no arguments.
pub open spec fn arguments_of(raw: Seq<char>) -> (JsonView, Option<Seq<char>>) {
    let text = if is_blank_text(raw) {
        "{}"@
    } else {
        raw
    };
    match parsed_json(text) {
        Ok(v) => (v, None),
        Err(e) => (
            JsonView::Null,
            Some("Tool arguments JSON is invalid or incomplete: "@ + e),
        ),
    }
}

/// The arguments that a text stands for, and what is wrong with it.
pub fn parse_tool_arguments(arguments_raw: &str) -> (r: (Json, Option<String>))
    ensures
        (r.0@, opt_text(r.1)) == arguments_of(arguments_raw@),
{
    let parsed = if is_blank(arguments_raw) {
        Json::parse("{}")
    } else {
        Json::parse(arguments_raw)
    };
    match parsed {
        Ok(v) => (v, None),
        Err(e) => (
            Json::Null,
            Some(concat2("Tool arguments JSON is invalid or incomplete: ", e.as_str())),
        ),
    }
}

/// Arguments as text: a string as it is, any other value written out, and `{}`
/// where there are none.
pub open spec fn raw_arguments(value: Option<JsonView>) -> Seq<char> {
    match value {
        Some(JsonView::Str(s)) => s,
        Some(JsonView::Null) => "{}"@,
        None => "{}"@,
        Some(other) => json_text(other),
    }
}

/// Arguments as text. Some services send them as a string, some as an object.
pub fn tool_arguments_to_raw(value: Option<&Json>) -> (r: String)
    ensures
        r@ == raw_arguments(crate::json::opt_ref(value)),
{
    match value {
        None => copy_str("{}"),
        Some(v) => match v {
            Json::Str(s) => s.clone(),
            Json::Null => copy_str("{}"),
            _ => v.to_text(),
        },
    }
}

/// The tool call in an entry of `tool_calls`; `fresh` is its identifier where it
/// has none.
pub open spec fn call_in(call: JsonView, fresh: Seq<char>) -> Option<CallView> {
    match call.field("function"@) {
        None => None,
        Some(function) => match function.field_text("name"@) {
            None => None,
            Some(name) => {
                let raw = raw_arguments(function.field("arguments"@));
                let (arguments, error) = arguments_of(raw);
                Some(
                    CallView {
                        id: match call.field_text("id"@) {
                            Some(id) => id,
                            None => fresh,
                        },
                        function_name: name,
                        arguments,
                        arguments_raw: raw,
                        arguments_parse_error: error,
                        signature: call.field_text("thought_signature"@),
                    },
                )
            },
        },
    }
}

/// The tool calls in the first entries of `tool_calls`.
pub open spec fn calls_in(calls: Seq<JsonView>, fresh: Seq<Seq<char>>) -> Seq<CallView>
    decreases calls.len(),
{
    if calls.len() == 0 {
        Seq::empty()
    } else {
        let before = calls_in(calls.drop_last(), fresh);
        match call_in(calls.last(), fresh[calls.len() - 1]) {
            Some(c) => before.push(c),
            None => before,
        }
    }
}

/// The tool calls of a message; entry `i` takes the identifier `fresh[i]` where
/// it has none.
pub open spec fn message_calls(message: JsonView, fresh: Seq<Seq<char>>) -> Seq<CallView> {
    match message.field_items("tool_calls"@) {
        Some(calls) => calls_in(calls, fresh),
        None => Seq::empty(),
    }
}

fn parse_call(call: &Json, fresh: &str) -> (r: Option<PendingToolCall>)
    ensures
        match r {
            Some(c) => call_in(call@, fresh@) == Some(c@),
            None => call_in(call@, fresh@) is None,
        },
{
    let function = match call.get("function") {
        None => {
            return None;
        },
        Some(f) => f,
    };
    let name = match function.get_str("name") {
        None => {
            return None;
        },
        Some(n) => n,
    };
    let raw = tool_arguments_to_raw(function.get("arguments"));
    let (arguments, error) = parse_tool_arguments(raw.as_str());
    Some(
        PendingToolCall {
            id: match call.get_str("id") {
                Some(id) => copy_str(id),
                None => copy_str(fresh),
            },
            function_name: copy_str(name),
            arguments,
            arguments_raw: raw,
            arguments_parse_error: error,
            signature: own_opt(call.get_str("thought_signature")),
        },
    )
}

/// The tool calls of a message; entry `i` takes the identifier `fresh[i]` where
/// it has none.
pub fn pending_tool_calls_with(message: &Json, fresh: &Vec<String>) -> (r: Vec<PendingToolCall>)
    requires
        match message@.field_items("tool_calls"@) {
            Some(calls) => fresh@.len() >= calls.len(),
            None => true,
        },
    ensures
        call_views(r@) == message_calls(message@, strings(fresh@)),
{
    let mut out: Vec<PendingToolCall> = Vec::new();
    assert(call_views(out@) == Seq::<CallView>::empty());
    if let Some(calls) = message.get_array("tool_calls") {
        let ghost all = items_view(calls@);
        let ghost names = strings(fresh@);
        let mut i: usize = 0;
        while i < calls.len()
            invariant
                i <= calls@.len() <= fresh@.len(),
                all == items_view(calls@),
                names == strings(fresh@),
                call_views(out@) == calls_in(all.take(i as int), names),
            decreases calls@.len() - i,
        {
            let ghost before = out@;
            assert(all.take(i + 1).drop_last() == all.take(i as int));
            assert(all.take(i + 1).last() == calls@[i as int]@);
            if let Some(c) = parse_call(&calls[i], fresh[i].as_str()) {
                out.push(c);
                assert(call_views(out@) == call_views(before).push(c@));
            }
            i += 1;
        }
        assert(all.take(all.len() as int) == all);
    }
    out
}

/// Identifiers by chance for `n` calls: each begins with `prefix`.
pub open spec fn drawn(ids: Seq<Seq<char>>, n: nat, prefix: Seq<char>) -> bool {
    &&& ids.len() == n
    &&& forall|i: int| 0 <= i < ids.len() ==> has_prefix(#[trigger] ids[i], prefix)
}

/// Identifiers by chance for `n` calls.
pub(crate) fn draw_ids(n: usize, prefix: &str) -> (r: Vec<String>)
    ensures
        r@.len() == n,
        drawn(strings(r@), n as nat, prefix@),
{
    let mut out: Vec<String> = Vec::new();
    while out.len() < n
        invariant
            out@.len() <= n,
            drawn(strings(out@), out@.len(), prefix@),
        decreases n - out@.len(),
    {
        let ghost before = strings(out@);
        let unique = new_uuid();
        let id = concat2(prefix, unique.as_str());
        proof {
            assert((prefix@ + unique@).take(prefix@.len() as int) =~= prefix@);
            assert(has_prefix(id@, prefix@));
        }
        out.push(id);
        assert(strings(out@) =~= before.push(id@));
    }
    out
}

/// How many entries `tool_calls` has.
pub open spec fn call_count(message: JsonView) -> nat {
    match message.field_items("tool_calls"@) {
        Some(calls) => calls.len(),
        None => 0,
    }
}

/// One fresh identifier for each entry of `tool_calls`.
pub(crate) fn fresh_call_ids(message: &Json) -> (r: Vec<String>)
    ensures
        r@.len() == call_count(message@),
        drawn(strings(r@), call_count(message@), "tool_"@),
{
    let n: usize = match message.get_array("tool_calls") {
        Some(calls) => {
            assert(items_view(calls@).len() == calls@.len());
            calls.len()
        },
        None => 0,
    };
    draw_ids(n, "tool_")
}

/// The tool calls of a message. A call without an identifier gets one by chance.
pub fn pending_tool_calls_from_openai_message(message: &Json) -> (r: Vec<PendingToolCall>)
    ensures
        exists|fresh: Seq<Seq<char>>|
            drawn(fresh, call_count(message@), "tool_"@) && call_views(r@)
                == #[trigger] message_calls(message@, fresh),
{
    let fresh = fresh_call_ids(message);
    pending_tool_calls_with(message, &fresh)
}

/// Identifiers by chance matter only to calls that came without one.
pub proof fn law_given_ids_are_kept(
    calls: Seq<JsonView>,
    a: Seq<Seq<char>>,
    b: Seq<Seq<char>>,
)
    requires
        forall|i: int| 0 <= i < calls.len() ==> (#[trigger] calls[i]).field_text("id"@) is Some,
    ensures
        calls_in(calls, a) == calls_in(calls, b),
    decreases calls.len(),
{
    if calls.len() > 0 {
        law_given_ids_are_kept(calls.drop_last(), a, b);
        assert(calls[calls.len() - 1].field_text("id"@) is Some);
    }
}

// ---------------------------------------------------------------------
// From the JSON of chat completions
// ---------------------------------------------------------------------

/// The media type and the data of a `data:` URL.
pub open spec fn data_url_parts(url: Seq<char>) -> Option<(Seq<char>, Seq<char>)> {
    match without_prefix(url, "data:"@) {
        Some(rest) => split_at_first(rest, ";base64,"@),
        None => None,
    }
}

/// The media type and the data of a `data:` URL.
pub fn parse_data_image_url(url: &str) -> (r: Option<(String, String)>)
    ensures
        match r {
            Some((a, b)) => data_url_parts(url@) == Some((a@, b@)),
            None => data_url_parts(url@) is None,
        },
{
    match strip_prefix(url, "data:") {
        Some(rest) => split_once(rest.as_str(), ";base64,"),
        None => None,
    }
}

/// The part that an image of the given URL is; none without a URL.
pub open spec fn image_part(url: Seq<char>) -> Option<PartView> {
    match data_url_parts(url) {
        Some((mime_type, data)) => Some(PartView::Image { mime_type, data }),
        None => if url.len() > 0 {
            Some(PartView::ImageUrl { url })
        } else {
            None
        },
    }
}

/// The part that an item of the content is.
pub open spec fn item_part(item: JsonView) -> Option<PartView> {
    match item.field_text("type"@) {
        Some(kind) => if kind == "text"@ {
            match item.field_text("text"@) {
                Some(text) => Some(PartView::Text { text }),
                None => None,
            }
        } else if kind == "image_url"@ {
            match item.path("image_url"@, "url"@) {
                Some(JsonView::Str(url)) => image_part(url),
                _ => None,
            }
        } else {
            None
        },
        None => None,
    }
}

/// The parts that the items of the content are, in order.
pub open spec fn items_parts(items: Seq<JsonView>) -> Seq<PartView>
    decreases items.len(),
{
    if items.len() == 0 {
        Seq::empty()
    } else {
        let before = items_parts(items.drop_last());
        match item_part(items.last()) {
            Some(p) => before.push(p),
            None => before,
        }
    }
}

/// The parts that the content of a message is.
pub open spec fn content_parts(content: Option<JsonView>) -> Seq<PartView> {
    match content {
        Some(JsonView::Str(text)) => if text.len() > 0 {
            seq![PartView::Text { text }]
        } else {
            Seq::empty()
        },
        Some(JsonView::Array(items)) => items_parts(items),
        _ => Seq::empty(),
    }
}

/// The field under which a message carries its reasoning.
pub open spec fn reasoning_field(message: JsonView) -> Option<JsonView> {
    match message.field("reasoning_content"@) {
        Some(v) => Some(v),
        None => message.field("reasoning"@),
    }
}

/// The reasoning of a message, where it is not blank.
pub open spec fn reasoning_text(message: JsonView) -> Option<Seq<char>> {
    match reasoning_field(message) {
        Some(JsonView::Str(t)) => if is_blank_text(t) {
            None
        } else {
            Some(t)
        },
        _ => None,
    }
}

/// The field under which a message carries its reasoning.
pub fn reasoning_value(message: &Json) -> (r: Option<&Json>)
    ensures
        crate::json::opt_ref(r) == reasoning_field(message@),
{
    match message.get("reasoning_content") {
        Some(v) => Some(v),
        None => message.get("reasoning"),
    }
}

/// The tool calls as parts.
pub open spec fn call_parts(calls: Seq<CallView>) -> Seq<PartView> {
    Seq::new(
        calls.len(),
        |i: int|
            PartView::ToolCall {
                id: calls[i].id,
                name: calls[i].function_name,
                arguments: calls[i].arguments,
                arguments_raw: calls[i].arguments_raw,
                signature: calls[i].signature,
            },
    )
}

/// The role that a message names.
pub open spec fn role_of(message: JsonView) -> Option<ModelRole> {
    match message.field_text("role"@) {
        Some(t) => if t == "assistant"@ {
            Some(ModelRole::Assistant)
        } else if t == "tool"@ {
            Some(ModelRole::Tool)
        } else if t == "user"@ {
            Some(ModelRole::User)
        } else {
            None
        },
        None => None,
    }
}

/// A text, or the empty text.
pub open spec fn or_empty(t: Option<Seq<char>>) -> Seq<char> {
    match t {
        Some(s) => s,
        None => Seq::empty(),
    }
}

/// The message that a JSON message is: none for a role that is not one of a
/// conversation.
pub open spec fn message_of(message: JsonView, fresh: Seq<Seq<char>>) -> Option<MessageView> {
    match role_of(message) {
        None => None,
        Some(ModelRole::Tool) => Some(
            MessageView {
                role: ModelRole::Tool,
                content: seq![
                    PartView::ToolResult {
                        tool_call_id: or_empty(message.field_text("tool_call_id"@)),
                        content: or_empty(message.field_text("content"@)),
                        is_error: false,
                        artifacts: Seq::empty(),
                    },
                ],
            },
        ),
        Some(role) => Some(
            MessageView {
                role,
                content: content_parts(message.field("content"@)) + (match reasoning_text(message) {
                    Some(text) => seq![PartView::Reasoning { text }],
                    None => Seq::empty(),
                }) + call_parts(message_calls(message, fresh)),
            },
        ),
    }
}

fn parse_item(item: &Json) -> (r: Option<MessagePart>)
    ensures
        match r {
            Some(p) => item_part(item@) == Some(p@),
            None => item_part(item@) is None,
        },
{
    let kind = match item.get_str("type") {
        Some(k) => k,
        None => {
            return None;
        },
    };
    if str_eq(kind, "text") {
        match item.get_str("text") {
            Some(text) => Some(MessagePart::Text { text: copy_str(text) }),
            None => None,
        }
    } else if str_eq(kind, "image_url") {
        match item.get_path("image_url", "url") {
            Some(Json::Str(url)) => match parse_data_image_url(url.as_str()) {
                Some((mime_type, data)) => Some(MessagePart::Image { mime_type, data }),
                None => if url.as_str().is_empty() {
                    None
                } else {
                    Some(MessagePart::ImageUrl { url: url.clone() })
                },
            },
            _ => None,
        }
    } else {
        None
    }
}

fn parse_content(content: Option<&Json>) -> (r: Vec<MessagePart>)
    ensures
        part_views(r@) == content_parts(crate::json::opt_ref(content)),
{
    let mut out: Vec<MessagePart> = Vec::new();
    assert(part_views(out@) == Seq::<PartView>::empty());
    match content {
        Some(Json::Str(text)) => {
            if !text.as_str().is_empty() {
                out.push(MessagePart::Text { text: text.clone() });
                assert(part_views(out@) == seq![PartView::Text { text: text@ }]);
            }
        },
        Some(Json::Array(items)) => {
            let ghost all = items_view(items@);
            let mut i: usize = 0;
            while i < items.len()
                invariant
                    i <= items@.len(),
                    all == items_view(items@),
                    part_views(out@) == items_parts(all.take(i as int)),
                decreases items@.len() - i,
            {
                let ghost before = out@;
                assert(all.take(i + 1).drop_last() == all.take(i as int));
                assert(all.take(i + 1).last() == items@[i as int]@);
                if let Some(p) = parse_item(&items[i]) {
                    out.push(p);
                    assert(part_views(out@) == part_views(before).push(p@));
                }
                i += 1;
            }
            assert(all.take(all.len() as int) == all);
        },
        _ => {},
    }
    out
}

fn parse_role(message: &Json) -> (r: Option<ModelRole>)
    ensures
        r == role_of(message@),
{
    match message.get_str("role") {
        Some(t) => if str_eq(t, "assistant") {
            Some(ModelRole::Assistant)
        } else if str_eq(t, "tool") {
            Some(ModelRole::Tool)
        } else if str_eq(t, "user") {
            Some(ModelRole::User)
        } else {
            None
        },
        None => None,
    }
}

fn text_or_empty(t: Option<&str>) -> (r: String)
    ensures
        r@ == or_empty(opt_str(t)),
{
    match t {
        Some(s) => copy_str(s),
        None => String::new(),
    }
}

/// The message that a JSON message is; tool calls without an identifier take
/// those of `fresh`.
pub fn model_message_with(message: &Json, fresh: &Vec<String>) -> (r: Option<ModelMessage>)
    requires
        match message@.field_items("tool_calls"@) {
            Some(calls) => fresh@.len() >= calls.len(),
            None => true,
        },
    ensures
        match r {
            Some(m) => message_of(message@, strings(fresh@)) == Some(m@),
            None => message_of(message@, strings(fresh@)) is None,
        },
{
    let role = match parse_role(message) {
        Some(role) => role,
        None => {
            return None;
        },
    };
    if role == ModelRole::Tool {
        let artifacts: Vec<ChatToolArtifact> = Vec::new();
        let mut parts: Vec<MessagePart> = Vec::new();
        parts.push(
            MessagePart::ToolResult {
                tool_call_id: text_or_empty(message.get_str("tool_call_id")),
                content: text_or_empty(message.get_str("content")),
                is_error: false,
                artifacts,
            },
        );
        assert(crate::types::artifact_views(artifacts@) == Seq::<crate::types::ArtifactView>::empty());
        assert(part_views(parts@) == seq![parts@[0]@]);
        return Some(ModelMessage { role, content: parts });
    }
    let mut parts = parse_content(message.get("content"));
    let ghost content = part_views(parts@);
    let ghost mut thought = Seq::<PartView>::empty();
    if let Some(Json::Str(t)) = reasoning_value(message) {
        if !is_blank(t.as_str()) {
            let ghost before = parts@;
            parts.push(MessagePart::Reasoning { text: t.clone() });
            proof {
                thought = seq![PartView::Reasoning { text: t@ }];
                assert(part_views(parts@) == part_views(before) + thought);
            }
        }
    }
    assert(part_views(parts@) == content + thought);
    let calls = pending_tool_calls_with(message, fresh);
    let ghost all = call_views(calls@);
    let ghost base = parts@;
    let mut i: usize = 0;
    while i < calls.len()
        invariant
            i <= calls@.len(),
            all == call_views(calls@),
            part_views(parts@) == part_views(base) + call_parts(all).take(i as int),
        decreases calls@.len() - i,
    {
        let ghost before = parts@;
        let c = calls[i].copy();
        parts.push(
            MessagePart::ToolCall {
                id: c.id,
                name: c.function_name,
                arguments: c.arguments,
                arguments_raw: c.arguments_raw,
                signature: c.signature,
            },
        );
        assert(part_views(parts@) == part_views(before).push(call_parts(all)[i as int]));
        i += 1;
    }
    assert(call_parts(all).take(all.len() as int) == call_parts(all));
    Some(ModelMessage { role, content: parts })
}

/// The message that a JSON message is. A tool call without an identifier gets
/// one by chance.
pub fn model_message_from_openai_message(message: &Json) -> (r: Option<ModelMessage>)
    ensures
        r is Some == role_of(message@) is Some,
        r is Some ==> exists|fresh: Seq<Seq<char>>|
            drawn(fresh, call_count(message@), "tool_"@) && #[trigger] message_of(message@, fresh)
                == Some((r->0)@),
{
    let fresh = fresh_call_ids(message);
    model_message_with(message, &fresh)
}

/// The messages that JSON messages are, those of other roles left out.
pub open spec fn messages_of(
    messages: Seq<JsonView>,
    fresh: Seq<Seq<Seq<char>>>,
) -> Seq<MessageView>
    decreases messages.len(),
{
    if messages.len() == 0 {
        Seq::empty()
    } else {
        let before = messages_of(messages.drop_last(), fresh);
        match message_of(messages.last(), fresh[messages.len() - 1]) {
            Some(m) => before.push(m),
            None => before,
        }
    }
}

proof fn lemma_messages_of_extend(
    messages: Seq<JsonView>,
    fresh: Seq<Seq<Seq<char>>>,
    more: Seq<Seq<char>>,
)
    requires
        messages.len() <= fresh.len(),
    ensures
        messages_of(messages, fresh) == messages_of(messages, fresh.push(more)),
    decreases messages.len(),
{
    if messages.len() > 0 {
        lemma_messages_of_extend(messages.drop_last(), fresh, more);
    }
}

/// Identifiers by chance for the calls of each message.
pub open spec fn drawn_for(fresh: Seq<Seq<Seq<char>>>, messages: Seq<JsonView>) -> bool {
    &&& fresh.len() == messages.len()
    &&& forall|i: int|
        0 <= i < fresh.len() ==> drawn(#[trigger] fresh[i], call_count(messages[i]), "tool_"@)
}

/// The messages that JSON messages are, those of other roles left out.
pub fn model_messages_from_openai_messages(messages: &Vec<Json>) -> (r: Vec<ModelMessage>)
    ensures
        exists|fresh: Seq<Seq<Seq<char>>>|
            drawn_for(fresh, items_view(messages@)) && message_views(r@)
                == #[trigger] messages_of(items_view(messages@), fresh),
{
    let ghost all = items_view(messages@);
    let ghost mut ids = Seq::<Seq<Seq<char>>>::empty();
    let mut out: Vec<ModelMessage> = Vec::new();
    assert(message_views(out@) == Seq::<MessageView>::empty());
    let mut i: usize = 0;
    while i < messages.len()
        invariant
            i <= messages@.len(),
            all == items_view(messages@),
            drawn_for(ids, all.take(i as int)),
            message_views(out@) == messages_of(all.take(i as int), ids),
        decreases messages@.len() - i,
    {
        let ghost before = out@;
        let fresh = fresh_call_ids(&messages[i]);
        proof {
            lemma_messages_of_extend(all.take(i as int), ids, strings(fresh@));
            ids = ids.push(strings(fresh@));
            assert(all.take(i + 1).drop_last() == all.take(i as int));
            assert(all.take(i + 1).last() == messages@[i as int]@);
            assert forall|j: int| 0 <= j < ids.len() implies drawn(
                #[trigger] ids[j],
                call_count(all.take(i + 1)[j]),
                "tool_"@,
            ) by {
                if j < i {
                    assert(all.take(i + 1)[j] == all.take(i as int)[j]);
                }
            }
        }
        if let Some(m) = model_message_with(&messages[i], &fresh) {
            out.push(m);
            assert(message_views(out@) == message_views(before).push(m@));
        }
        i += 1;
    }
    assert(all.take(all.len() as int) == all);
    out
}

/// The texts among the items of the content, in order.
pub open spec fn item_texts(items: Seq<JsonView>) -> Seq<Seq<char>>
    decreases items.len(),
{
    if items.len() == 0 {
        Seq::empty()
    } else {
        let before = item_texts(items.drop_last());
        if items.last().field_text("type"@) == Some("text"@) {
            match items.last().field_text("text"@) {
                Some(t) => before.push(t),
                None => before,
            }
        } else {
            before
        }
    }
}

/// The texts among the items of the content, in order.
pub fn collect_item_texts(items: &Vec<Json>) -> (r: Vec<String>)
    ensures
        strings(r@) == item_texts(items_view(items@)),
{
    let ghost all = items_view(items@);
    let mut out: Vec<String> = Vec::new();
    assert(strings(out@) == Seq::<Seq<char>>::empty());
    let mut i: usize = 0;
    while i < items.len()
        invariant
            i <= items@.len(),
            all == items_view(items@),
            strings(out@) == item_texts(all.take(i as int)),
        decreases items@.len() - i,
    {
        let ghost before = out@;
        assert(all.take(i + 1).drop_last() == all.take(i as int));
        assert(all.take(i + 1).last() == items@[i as int]@);
        let is_text = match items[i].get_str("type") {
            Some(k) => str_eq(k, "text"),
            None => false,
        };
        if is_text {
            if let Some(t) = items[i].get_str("text") {
                out.push(copy_str(t));
                assert(strings(out@) == strings(before).push(t@));
            }
        }
        i += 1;
    }
    assert(all.take(all.len() as int) == all);
    out
}

/// The text of a message, where it has one.
pub open spec fn text_content_of(message: JsonView) -> Option<Seq<char>> {
    match message.field("content"@) {
        Some(JsonView::Str(t)) => Some(t),
        Some(JsonView::Array(items)) => if item_texts(items).len() == 0 {
            None
        } else {
            Some(joined(item_texts(items), "\n"@))
        },
        _ => None,
    }
}

fn openai_message_text_content(message: &Json) -> (r: Option<String>)
    ensures
        opt_text(r) == text_content_of(message@),
{
    match message.get("content") {
        Some(Json::Str(t)) => Some(t.clone()),
        Some(Json::Array(items)) => {
            let texts = collect_item_texts(items);
            assert(strings(texts@).len() == texts@.len());
            if texts.len() == 0 {
                None
            } else {
                Some(join(&texts, "\n"))
            }
        },
        _ => None,
    }
}

/// A message to the system.
pub open spec fn is_system(message: JsonView) -> bool {
    message.field_text("role"@) == Some("system"@)
}

/// The texts of the messages to the system, in order.
pub open spec fn system_texts(messages: Seq<JsonView>) -> Seq<Seq<char>>
    decreases messages.len(),
{
    if messages.len() == 0 {
        Seq::empty()
    } else {
        let before = system_texts(messages.drop_last());
        if is_system(messages.last()) {
            match text_content_of(messages.last()) {
                Some(t) => before.push(t),
                None => before,
            }
        } else {
            before
        }
    }
}

fn collect_system_texts(messages: &Vec<Json>) -> (r: Vec<String>)
    ensures
        strings(r@) == system_texts(items_view(messages@)),
{
    let ghost all = items_view(messages@);
    let mut out: Vec<String> = Vec::new();
    assert(strings(out@) == Seq::<Seq<char>>::empty());
    let mut i: usize = 0;
    while i < messages.len()
        invariant
            i <= messages@.len(),
            all == items_view(messages@),
            strings(out@) == system_texts(all.take(i as int)),
        decreases messages@.len() - i,
    {
        let ghost before = out@;
        assert(all.take(i + 1).drop_last() == all.take(i as int));
        assert(all.take(i + 1).last() == messages@[i as int]@);
        let system = match messages[i].get_str("role") {
            Some(k) => str_eq(k, "system"),
            None => false,
        };
        if system {
            if let Some(t) = openai_message_text_content(&messages[i]) {
                out.push(t);
                assert(strings(out@) == strings(before).push(t@));
            }
        }
        i += 1;
    }
    assert(all.take(all.len() as int) == all);
    out
}

/// The same tools once more.
pub fn copy_tools(tools: &Vec<ModelTool>) -> (r: Vec<ModelTool>)
    ensures
        tool_views(r@) == tool_views(tools@),
{
    let ghost all = tool_views(tools@);
    let mut out: Vec<ModelTool> = Vec::new();
    let mut i: usize = 0;
    while i < tools.len()
        invariant
            i <= tools@.len(),
            all == tool_views(tools@),
            tool_views(out@) == all.take(i as int),
        decreases tools@.len() - i,
    {
        let ghost before = out@;
        out.push(tools[i].copy());
        assert(tool_views(out@) == tool_views(before).push(all[i as int]));
        i += 1;
    }
    assert(all.take(all.len() as int) == all);
    out
}

/// A request made of JSON messages: the texts to the system apart, all other
/// messages in order.
pub fn generate_request_from_openai_messages(
    model: &str,
    messages: &Vec<Json>,
    tools: &Vec<ModelTool>,
    options: GenerateOptions,
    label: &str,
    context: GenerateRequestContext,
) -> (r: GenerateRequest)
    ensures
        r.model@ == model@,
        r.system@ == joined(system_texts(items_view(messages@)), "\n\n"@),
        exists|fresh: Seq<Seq<Seq<char>>>|
            drawn_for(fresh, items_view(messages@)) && message_views(r.messages@)
                == #[trigger] messages_of(items_view(messages@), fresh),
        tool_views(r.tools@) == tool_views(tools@),
        r.options == options,
        r.metadata.label@ == label@,
        r.metadata.usage_source is None,
        r.metadata.usage_operation is None,
        r.metadata.conversation_id == context.conversation_id,
        r.metadata.message_id == context.message_id,
{
    let system = collect_system_texts(messages);
    GenerateRequest {
        model: copy_str(model),
        system: join(&system, "\n\n"),
        messages: model_messages_from_openai_messages(messages),
        tools: copy_tools(tools),
        options,
        metadata: RequestMetadata {
            label: copy_str(label),
            usage_source: None,
            usage_operation: None,
            conversation_id: context.conversation_id,
            message_id: context.message_id,
        },
    }
}

// ---------------------------------------------------------------------
// To the JSON of chat completions
// ---------------------------------------------------------------------

/// An object of two fields.
pub open spec fn object2(k1: Seq<char>, v1: JsonView, k2: Seq<char>, v2: JsonView) -> JsonView {
    JsonView::Object(Map::empty().insert(k1, v1).insert(k2, v2))
}

/// An object of two fields.
pub fn make_object2(k1: &str, v1: Json, k2: &str, v2: Json) -> (r: Json)
    ensures
        r@ == object2(k1@, v1@, k2@, v2@),
{
    let mut o = Object::new();
    o.set(k1, v1);
    o.set(k2, v2);
    Json::Object(o)
}

/// An object of one field.
pub open spec fn object1(k1: Seq<char>, v1: JsonView) -> JsonView {
    JsonView::Object(Map::empty().insert(k1, v1))
}

/// An object of one field.
pub fn make_object1(k1: &str, v1: Json) -> (r: Json)
    ensures
        r@ == object1(k1@, v1@),
{
    let mut o = Object::new();
    o.set(k1, v1);
    Json::Object(o)
}

/// An object of three fields.
pub open spec fn object3(
    k1: Seq<char>,
    v1: JsonView,
    k2: Seq<char>,
    v2: JsonView,
    k3: Seq<char>,
    v3: JsonView,
) -> JsonView {
    JsonView::Object(Map::empty().insert(k1, v1).insert(k2, v2).insert(k3, v3))
}

/// An object of three fields.
pub fn make_object3(k1: &str, v1: Json, k2: &str, v2: Json, k3: &str, v3: Json) -> (r: Json)
    ensures
        r@ == object3(k1@, v1@, k2@, v2@, k3@, v3@),
{
    let mut o = Object::new();
    o.set(k1, v1);
    o.set(k2, v2);
    o.set(k3, v3);
    Json::Object(o)
}

/// A value, or null.
pub open spec fn value_or_null(v: Option<JsonView>) -> JsonView {
    match v {
        Some(j) => j,
        None => JsonView::Null,
    }
}

/// A copy of a value, or null.
pub fn copy_or_null(v: Option<&Json>) -> (r: Json)
    ensures
        r@ == value_or_null(crate::json::opt_ref(v)),
{
    match v {
        Some(j) => j.copy(),
        None => Json::Null,
    }
}

/// A string value.
pub open spec fn str_json(s: Seq<char>) -> JsonView {
    JsonView::Str(s)
}

/// The `data:` URL of an image.
pub open spec fn data_url(mime_type: Seq<char>, data: Seq<char>) -> Seq<char> {
    "data:"@ + mime_type + ";base64,"@ + data
}

/// The `data:` URL of an image.
pub fn make_data_url(mime_type: &str, data: &str) -> (r: String)
    ensures
        r@ == data_url(mime_type@, data@),
{
    concat4("data:", mime_type, ";base64,", data)
}

/// An image item of the content.
pub open spec fn image_item(url: Seq<char>) -> JsonView {
    object2(
        "type"@,
        str_json("image_url"@),
        "image_url"@,
        object1("url"@, str_json(url)),
    )
}

pub(crate) fn make_image_item(url: &str) -> (r: Json)
    ensures
        r@ == image_item(url@),
{
    make_object2(
        "type",
        Json::string("image_url"),
        "image_url",
        make_object1("url", Json::string(url)),
    )
}

/// The items of the content that texts and images are, in order.
pub open spec fn content_items(parts: Seq<PartView>) -> Seq<JsonView>
    decreases parts.len(),
{
    if parts.len() == 0 {
        Seq::empty()
    } else {
        let before = content_items(parts.drop_last());
        match parts.last() {
            PartView::Text { text } => before.push(
                object2("type"@, str_json("text"@), "text"@, str_json(text)),
            ),
            PartView::Image { mime_type, data } => before.push(
                image_item(data_url(mime_type, data)),
            ),
            PartView::ImageUrl { url } => before.push(image_item(url)),
            _ => before,
        }
    }
}

/// Some part is an image.
pub open spec fn has_image(parts: Seq<PartView>) -> bool {
    exists|i: int| 0 <= i < parts.len() && (parts[i] is Image || parts[i] is ImageUrl)
}

/// A tool call as chat completions write it.
pub open spec fn call_item(id: Seq<char>, name: Seq<char>, arguments_raw: Seq<char>) -> JsonView {
    object3(
        "id"@,
        str_json(id),
        "type"@,
        str_json("function"@),
        "function"@,
        object2("name"@, str_json(name), "arguments"@, str_json(arguments_raw)),
    )
}

/// A tool call as chat completions write it.
pub fn make_call_item(id: &str, name: &str, arguments_raw: &str) -> (r: Json)
    ensures
        r@ == call_item(id@, name@, arguments_raw@),
{
    make_object3(
        "id",
        Json::string(id),
        "type",
        Json::string("function"),
        "function",
        make_object2("name", Json::string(name), "arguments", Json::string(arguments_raw)),
    )
}

/// The tool calls among the parts as chat completions write them, in order.
pub open spec fn call_items(parts: Seq<PartView>) -> Seq<JsonView>
    decreases parts.len(),
{
    if parts.len() == 0 {
        Seq::empty()
    } else {
        let before = call_items(parts.drop_last());
        match parts.last() {
            PartView::ToolCall { id, name, arguments_raw, .. } => before.push(
                call_item(id, name, arguments_raw),
            ),
            _ => before,
        }
    }
}

/// The last reasoning among the parts.
pub open spec fn last_reasoning(parts: Seq<PartView>) -> Option<Seq<char>>
    decreases parts.len(),
{
    if parts.len() == 0 {
        None
    } else {
        match parts.last() {
            PartView::Reasoning { text } => Some(text),
            _ => last_reasoning(parts.drop_last()),
        }
    }
}

/// The results among the parts as chat completions write them, in order.
pub open spec fn result_items(parts: Seq<PartView>) -> Seq<JsonView>
    decreases parts.len(),
{
    if parts.len() == 0 {
        Seq::empty()
    } else {
        let before = result_items(parts.drop_last());
        match parts.last() {
            PartView::ToolResult { tool_call_id, content, .. } => before.push(
                object3(
                    "role"@,
                    str_json("tool"@),
                    "tool_call_id"@,
                    str_json(tool_call_id),
                    "content"@,
                    str_json(content),
                ),
            ),
            _ => before,
        }
    }
}

/// The content of a message: a list where it holds an image, nothing where it
/// holds tool calls alone, its texts else.
pub open spec fn content_json(parts: Seq<PartView>) -> JsonView {
    if has_image(parts) {
        JsonView::Array(content_items(parts))
    } else if texts_in(parts).len() == 0 && call_items(parts).len() > 0 {
        JsonView::Null
    } else {
        JsonView::Str(joined(texts_in(parts), "\n"@))
    }
}

/// A field that is there only where it has a value.
pub open spec fn with_field(
    m: Map<Seq<char>, JsonView>,
    key: Seq<char>,
    value: Option<JsonView>,
) -> Map<Seq<char>, JsonView> {
    match value {
        Some(v) => m.insert(key, v),
        None => m,
    }
}

/// The JSON messages that a message is for chat completions.
pub open spec fn chat_messages(message: MessageView) -> Seq<JsonView> {
    if message.role == ModelRole::Tool {
        result_items(message.content)
    } else {
        let calls = call_items(message.content);
        let base = Map::empty().insert("role"@, str_json(message.role.name())).insert(
            "content"@,
            content_json(message.content),
        );
        let with_calls = with_field(
            base,
            "tool_calls"@,
            if calls.len() > 0 {
                Some(JsonView::Array(calls))
            } else {
                None
            },
        );
        seq![
            JsonView::Object(
                with_field(
                    with_calls,
                    "reasoning_content"@,
                    match last_reasoning(message.content) {
                        Some(t) => Some(str_json(t)),
                        None => None,
                    },
                ),
            ),
        ]
    }
}

fn make_result_items(parts: &Vec<MessagePart>) -> (r: Vec<Json>)
    ensures
        items_view(r@) == result_items(part_views(parts@)),
{
    let ghost all = part_views(parts@);
    let mut out: Vec<Json> = Vec::new();
    assert(items_view(out@) == Seq::<JsonView>::empty());
    let mut i: usize = 0;
    while i < parts.len()
        invariant
            i <= parts@.len(),
            all == part_views(parts@),
            items_view(out@) == result_items(all.take(i as int)),
        decreases parts@.len() - i,
    {
        let ghost before = out@;
        assert(all.take(i + 1).drop_last() == all.take(i as int));
        assert(all.take(i + 1).last() == parts@[i as int]@);
        if let MessagePart::ToolResult { tool_call_id, content, .. } = &parts[i] {
            let item = make_object3(
                "role",
                Json::string("tool"),
                "tool_call_id",
                Json::string(tool_call_id.as_str()),
                "content",
                Json::string(content.as_str()),
            );
            out.push(item);
            assert(items_view(out@) == items_view(before).push(item@));
        }
        i += 1;
    }
    assert(all.take(all.len() as int) == all);
    out
}

/// The JSON messages that a message is for chat completions.
pub fn openai_messages_from_model_message(message: &ModelMessage) -> (r: Vec<Json>)
    ensures
        items_view(r@) == chat_messages(message@),
{
    if message.role == ModelRole::Tool {
        return make_result_items(&message.content);
    }
    let ghost all = message@.content;
    let texts = collect_texts(&message.content);
    let mut items: Vec<Json> = Vec::new();
    let mut calls: Vec<Json> = Vec::new();
    let mut reasoning: Option<String> = None;
    let mut image = false;
    assert(items_view(items@) == Seq::<JsonView>::empty());
    assert(items_view(calls@) == Seq::<JsonView>::empty());
    let mut i: usize = 0;
    while i < message.content.len()
        invariant
            i <= message.content@.len(),
            all == part_views(message.content@),
            items_view(items@) == content_items(all.take(i as int)),
            items_view(calls@) == call_items(all.take(i as int)),
            opt_text(reasoning) == last_reasoning(all.take(i as int)),
            image == has_image(all.take(i as int)),
        decreases message.content@.len() - i,
    {
        let ghost items_before = items@;
        let ghost calls_before = calls@;
        let ghost part = message.content@[i as int]@;
        let ghost had = image;
        assert(all.take(i + 1).drop_last() == all.take(i as int));
        assert(all.take(i + 1).last() == part);
        match &message.content[i] {
            MessagePart::Text { text } => {
                let item = make_object2(
                    "type",
                    Json::string("text"),
                    "text",
                    Json::string(text.as_str()),
                );
                items.push(item);
                assert(items_view(items@) == items_view(items_before).push(item@));
            },
            MessagePart::Image { mime_type, data } => {
                let item = make_image_item(
                    make_data_url(mime_type.as_str(), data.as_str()).as_str(),
                );
                items.push(item);
                image = true;
                assert(items_view(items@) == items_view(items_before).push(item@));
            },
            MessagePart::ImageUrl { url } => {
                let item = make_image_item(url.as_str());
                items.push(item);
                image = true;
                assert(items_view(items@) == items_view(items_before).push(item@));
            },
            MessagePart::ToolCall { id, name, arguments_raw, .. } => {
                let item = make_call_item(id.as_str(), name.as_str(), arguments_raw.as_str());
                calls.push(item);
                assert(items_view(calls@) == items_view(calls_before).push(item@));
            },
            MessagePart::Reasoning { text } => {
                reasoning = Some(text.clone());
            },
            MessagePart::ToolResult { .. } => {},
        }
        proof {
            let now = all.take(i + 1);
            let was = all.take(i as int);
            if had {
                let k = choose|k: int|
                    0 <= k < was.len() && (was[k] is Image || was[k] is ImageUrl);
                assert(now[k] is Image || now[k] is ImageUrl);
            }
            if part is Image || part is ImageUrl {
                assert(now[i as int] is Image || now[i as int] is ImageUrl);
            }
            if has_image(now) && !(part is Image || part is ImageUrl) {
                let k = choose|k: int|
                    0 <= k < now.len() && (now[k] is Image || now[k] is ImageUrl);
                assert(k < i);
                assert(was[k] is Image || was[k] is ImageUrl);
            }
        }
        i += 1;
    }
    assert(all.take(all.len() as int) == all);
    assert(items_view(calls@).len() == calls@.len());
    assert(strings(texts@).len() == texts@.len());
    let content = if image {
        Json::Array(items)
    } else if texts.len() == 0 && calls.len() > 0 {
        Json::Null
    } else {
        Json::Str(join(&texts, "\n"))
    };
    let mut o = Object::new();
    o.set("role", Json::string(message.role.as_str()));
    o.set("content", content);
    if calls.len() > 0 {
        o.set("tool_calls", Json::Array(calls));
    }
    if let Some(t) = reasoning {
        o.set("reasoning_content", Json::Str(t));
    }
    let mut out: Vec<Json> = Vec::new();
    let ghost fields = o@;
    out.push(Json::Object(o));
    assert(items_view(out@) == seq![JsonView::Object(fields)]);
    out
}

/// Moves the values of `more` to the end of `out`.
pub fn extend_items(out: &mut Vec<Json>, more: Vec<Json>)
    ensures
        items_view(final(out)@) == items_view(old(out)@) + items_view(more@),
{
    let mut rest = more;
    out.append(&mut rest);
    assert(items_view(out@) == items_view(old(out)@) + items_view(more@));
}

/// The JSON messages that messages are for chat completions, in order.
pub open spec fn all_chat_messages(messages: Seq<MessageView>) -> Seq<JsonView>
    decreases messages.len(),
{
    if messages.len() == 0 {
        Seq::empty()
    } else {
        all_chat_messages(messages.drop_last()) + chat_messages(messages.last())
    }
}

/// The JSON messages that messages are for chat completions, in order.
pub fn openai_messages_from_model_messages(messages: &Vec<ModelMessage>) -> (r: Vec<Json>)
    ensures
        items_view(r@) == all_chat_messages(message_views(messages@)),
{
    let ghost all = message_views(messages@);
    let mut out: Vec<Json> = Vec::new();
    assert(items_view(out@) == Seq::<JsonView>::empty());
    let mut i: usize = 0;
    while i < messages.len()
        invariant
            i <= messages@.len(),
            all == message_views(messages@),
            items_view(out@) == all_chat_messages(all.take(i as int)),
        decreases messages@.len() - i,
    {
        assert(all.take(i + 1).drop_last() == all.take(i as int));
        assert(all.take(i + 1).last() == messages@[i as int]@);
        extend_items(&mut out, openai_messages_from_model_message(&messages[i]));
        i += 1;
    }
    assert(all.take(all.len() as int) == all);
    out
}

/// The JSON messages of a request for chat completions: the text to the system
/// first, where there is one.
pub open spec fn request_messages(system: Seq<char>, messages: Seq<MessageView>) -> Seq<JsonView> {
    if is_blank_text(system) {
        all_chat_messages(messages)
    } else {
        seq![object2("role"@, str_json("system"@), "content"@, str_json(system))]
            + all_chat_messages(messages)
    }
}

/// The JSON messages of a request for chat completions.
pub fn openai_messages_from_generate_request(request: &GenerateRequest) -> (r: Vec<Json>)
    ensures
        items_view(r@) == request_messages(request.system@, message_views(request.messages@)),
{
    let rest = openai_messages_from_model_messages(&request.messages);
    if is_blank(request.system.as_str()) {
        return rest;
    }
    let mut out: Vec<Json> = Vec::new();
    let first = make_object2(
        "role",
        Json::string("system"),
        "content",
        Json::string(request.system.as_str()),
    );
    out.push(first);
    assert(items_view(out@) == seq![first@]);
    extend_items(&mut out, rest);
    out
}

// ---------------------------------------------------------------------
// To the items of the responses service
// ---------------------------------------------------------------------

/// The results among the parts as items, in order.
pub open spec fn output_items(parts: Seq<PartView>) -> Seq<JsonView>
    decreases parts.len(),
{
    if parts.len() == 0 {
        Seq::empty()
    } else {
        let before = output_items(parts.drop_last());
        match parts.last() {
            PartView::ToolResult { tool_call_id, content, .. } => before.push(
                object3(
                    "type"@,
                    str_json("function_call_output"@),
                    "call_id"@,
                    str_json(tool_call_id),
                    "output"@,
                    str_json(content),
                ),
            ),
            _ => before,
        }
    }
}

/// A tool call as an item.
pub open spec fn function_call_item(
    id: Seq<char>,
    name: Seq<char>,
    arguments_raw: Seq<char>,
) -> JsonView {
    JsonView::Object(
        Map::empty().insert("type"@, str_json("function_call"@)).insert(
            "call_id"@,
            str_json(id),
        ).insert("name"@, str_json(name)).insert("arguments"@, str_json(arguments_raw)),
    )
}

/// The tool calls among the parts as items, in order.
pub open spec fn function_call_items(parts: Seq<PartView>) -> Seq<JsonView>
    decreases parts.len(),
{
    if parts.len() == 0 {
        Seq::empty()
    } else {
        let before = function_call_items(parts.drop_last());
        match parts.last() {
            PartView::ToolCall { id, name, arguments_raw, .. } => before.push(
                function_call_item(id, name, arguments_raw),
            ),
            _ => before,
        }
    }
}

/// The texts and images among the parts as content of an item, in order.
pub open spec fn responses_content(parts: Seq<PartView>, kind: Seq<char>) -> Seq<JsonView>
    decreases parts.len(),
{
    if parts.len() == 0 {
        Seq::empty()
    } else {
        let before = responses_content(parts.drop_last(), kind);
        match parts.last() {
            PartView::Text { text } => before.push(
                object2("type"@, str_json(kind), "text"@, str_json(text)),
            ),
            PartView::Image { mime_type, data } => before.push(
                object2(
                    "type"@,
                    str_json("input_image"@),
                    "image_url"@,
                    str_json(data_url(mime_type, data)),
                ),
            ),
            PartView::ImageUrl { url } => before.push(
                object2("type"@, str_json("input_image"@), "image_url"@, str_json(url)),
            ),
            _ => before,
        }
    }
}

/// The items that a message is: its content first, then the tools it calls.
pub open spec fn responses_items(message: MessageView) -> Seq<JsonView> {
    if message.role == ModelRole::Tool {
        output_items(message.content)
    } else {
        let kind = if message.role == ModelRole::Assistant {
            "output_text"@
        } else {
            "input_text"@
        };
        let content = responses_content(message.content, kind);
        (if content.len() > 0 {
            seq![
                object2(
                    "role"@,
                    str_json(message.role.name()),
                    "content"@,
                    JsonView::Array(content),
                ),
            ]
        } else {
            Seq::empty()
        }) + function_call_items(message.content)
    }
}

fn make_output_items(parts: &Vec<MessagePart>) -> (r: Vec<Json>)
    ensures
        items_view(r@) == output_items(part_views(parts@)),
{
    let ghost all = part_views(parts@);
    let mut out: Vec<Json> = Vec::new();
    assert(items_view(out@) == Seq::<JsonView>::empty());
    let mut i: usize = 0;
    while i < parts.len()
        invariant
            i <= parts@.len(),
            all == part_views(parts@),
            items_view(out@) == output_items(all.take(i as int)),
        decreases parts@.len() - i,
    {
        let ghost before = out@;
        assert(all.take(i + 1).drop_last() == all.take(i as int));
        assert(all.take(i + 1).last() == parts@[i as int]@);
        if let MessagePart::ToolResult { tool_call_id, content, .. } = &parts[i] {
            let item = make_object3(
                "type",
                Json::string("function_call_output"),
                "call_id",
                Json::string(tool_call_id.as_str()),
                "output",
                Json::string(content.as_str()),
            );
            out.push(item);
            assert(items_view(out@) == items_view(before).push(item@));
        }
        i += 1;
    }
    assert(all.take(all.len() as int) == all);
    out
}

fn responses_items_from_model_message(message: &ModelMessage) -> (r: Vec<Json>)
    ensures
        items_view(r@) == responses_items(message@),
{
    if message.role == ModelRole::Tool {
        return make_output_items(&message.content);
    }
    let kind = if message.role == ModelRole::Assistant {
        "output_text"
    } else {
        "input_text"
    };
    let ghost all = message@.content;
    let mut content: Vec<Json> = Vec::new();
    let mut calls: Vec<Json> = Vec::new();
    assert(items_view(content@) == Seq::<JsonView>::empty());
    assert(items_view(calls@) == Seq::<JsonView>::empty());
    let mut i: usize = 0;
    while i < message.content.len()
        invariant
            i <= message.content@.len(),
            all == part_views(message.content@),
            items_view(content@) == responses_content(all.take(i as int), kind@),
            items_view(calls@) == function_call_items(all.take(i as int)),
        decreases message.content@.len() - i,
    {
        let ghost content_before = content@;
        let ghost calls_before = calls@;
        assert(all.take(i + 1).drop_last() == all.take(i as int));
        assert(all.take(i + 1).last() == message.content@[i as int]@);
        match &message.content[i] {
            MessagePart::Text { text } => {
                let item = make_object2(
                    "type",
                    Json::string(kind),
                    "text",
                    Json::string(text.as_str()),
                );
                content.push(item);
                assert(items_view(content@) == items_view(content_before).push(item@));
            },
            MessagePart::Image { mime_type, data } => {
                let item = make_object2(
                    "type",
                    Json::string("input_image"),
                    "image_url",
                    Json::Str(make_data_url(mime_type.as_str(), data.as_str())),
                );
                content.push(item);
                assert(items_view(content@) == items_view(content_before).push(item@));
            },
            MessagePart::ImageUrl { url } => {
                let item = make_object2(
                    "type",
                    Json::string("input_image"),
                    "image_url",
                    Json::string(url.as_str()),
                );
                content.push(item);
                assert(items_view(content@) == items_view(content_before).push(item@));
            },
            MessagePart::ToolCall { id, name, arguments_raw, .. } => {
                let mut o = Object::new();
                o.set("type", Json::string("function_call"));
                o.set("call_id", Json::string(id.as_str()));
                o.set("name", Json::string(name.as_str()));
                o.set("arguments", Json::string(arguments_raw.as_str()));
                let item = Json::Object(o);
                calls.push(item);
                assert(items_view(calls@) == items_view(calls_before).push(item@));
            },
            _ => {},
        }
        i += 1;
    }
    assert(all.take(all.len() as int) == all);
    let mut out: Vec<Json> = Vec::new();
    assert(items_view(content@).len() == content@.len());
    if content.len() > 0 {
        let item = make_object2(
            "role",
            Json::string(message.role.as_str()),
            "content",
            Json::Array(content),
        );
        out.push(item);
        assert(items_view(out@) == seq![item@]);
    }
    assert(content@.len() == 0 ==> items_view(out@) == Seq::<JsonView>::empty());
    extend_items(&mut out, calls);
    out
}

/// The items that messages are, in order.
pub open spec fn all_responses_items(messages: Seq<MessageView>) -> Seq<JsonView>
    decreases messages.len(),
{
    if messages.len() == 0 {
        Seq::empty()
    } else {
        all_responses_items(messages.drop_last()) + responses_items(messages.last())
    }
}

/// The items that messages are for the responses service, in order.
pub fn responses_input_from_model_messages(messages: &Vec<ModelMessage>) -> (r: Vec<Json>)
    ensures
        items_view(r@) == all_responses_items(message_views(messages@)),
{
    let ghost all = message_views(messages@);
    let mut out: Vec<Json> = Vec::new();
    assert(items_view(out@) == Seq::<JsonView>::empty());
    let mut i: usize = 0;
    while i < messages.len()
        invariant
            i <= messages@.len(),
            all == message_views(messages@),
            items_view(out@) == all_responses_items(all.take(i as int)),
        decreases messages@.len() - i,
    {
        assert(all.take(i + 1).drop_last() == all.take(i as int));
        assert(all.take(i + 1).last() == messages@[i as int]@);
        extend_items(&mut out, responses_items_from_model_message(&messages[i]));
        i += 1;
    }
    assert(all.take(all.len() as int) == all);
    out
}

// ---------------------------------------------------------------------
// Replies
// ---------------------------------------------------------------------

/// The calls as chat completions write them, in order.
pub open spec fn pending_call_items(calls: Seq<CallView>) -> Seq<JsonView> {
    Seq::new(
        calls.len(),
        |i: int| call_item(calls[i].id, calls[i].function_name, calls[i].arguments_raw),
    )
}

/// A reply as a JSON message: the service's own where there is one.
pub open spec fn reply_message(output: OutputView) -> JsonView {
    if output.provider_messages.len() > 0 {
        output.provider_messages[0]
    } else {
        let base = Map::empty().insert("role"@, str_json("assistant"@)).insert(
            "content"@,
            if output.text.len() == 0 {
                JsonView::Null
            } else {
                str_json(output.text)
            },
        );
        let with_reasoning = with_field(
            base,
            "reasoning_content"@,
            match output.reasoning {
                Some(t) => if is_blank_text(t) {
                    None
                } else {
                    Some(str_json(t))
                },
                None => None,
            },
        );
        JsonView::Object(
            with_field(
                with_reasoning,
                "tool_calls"@,
                if output.tool_calls.len() > 0 {
                    Some(JsonView::Array(pending_call_items(output.tool_calls)))
                } else {
                    None
                },
            ),
        )
    }
}

/// The calls as chat completions write them, in order.
pub fn make_pending_call_items(calls: &Vec<PendingToolCall>) -> (r: Vec<Json>)
    ensures
        items_view(r@) == pending_call_items(call_views(calls@)),
{
    let ghost all = call_views(calls@);
    let mut out: Vec<Json> = Vec::new();
    let mut i: usize = 0;
    while i < calls.len()
        invariant
            i <= calls@.len(),
            all == call_views(calls@),
            items_view(out@) == pending_call_items(all).take(i as int),
        decreases calls@.len() - i,
    {
        let ghost before = out@;
        let item = make_call_item(
            calls[i].id.as_str(),
            calls[i].function_name.as_str(),
            calls[i].arguments_raw.as_str(),
        );
        out.push(item);
        assert(items_view(out@) == items_view(before).push(pending_call_items(all)[i as int]));
        i += 1;
    }
    assert(pending_call_items(all).take(all.len() as int) == pending_call_items(all));
    out
}

impl GenerateOutput {
    /// A reply of text.
    pub fn text(text: String, reasoning: Option<String>, provider_message: Json) -> (r:
        GenerateOutput)
        ensures
            r@ == (OutputView {
                text: text@,
                reasoning: opt_text(reasoning),
                tool_calls: Seq::empty(),
                usage: None,
                finish_reason: None,
                provider_messages: seq![provider_message@],
                cancelled: false,
            }),
    {
        let mut provider_messages: Vec<Json> = Vec::new();
        provider_messages.push(provider_message);
        let tool_calls: Vec<PendingToolCall> = Vec::new();
        assert(items_view(provider_messages@) == seq![provider_message@]);
        assert(call_views(tool_calls@) == Seq::<CallView>::empty());
        GenerateOutput {
            text,
            reasoning,
            tool_calls,
            usage: None,
            finish_reason: None,
            provider_messages,
            cancelled: false,
        }
    }

    /// A reply that was broken off.
    pub fn cancelled(text: String, reasoning: Option<String>) -> (r: GenerateOutput)
        ensures
            r@ == (OutputView {
                text: text@,
                reasoning: opt_text(reasoning),
                tool_calls: Seq::empty(),
                usage: None,
                finish_reason: Some("cancelled"@),
                provider_messages: Seq::empty(),
                cancelled: true,
            }),
    {
        let provider_messages: Vec<Json> = Vec::new();
        let tool_calls: Vec<PendingToolCall> = Vec::new();
        assert(items_view(provider_messages@) == Seq::<JsonView>::empty());
        assert(call_views(tool_calls@) == Seq::<CallView>::empty());
        GenerateOutput {
            text,
            reasoning,
            tool_calls,
            usage: None,
            finish_reason: Some(copy_str("cancelled")),
            provider_messages,
            cancelled: true,
        }
    }

    /// The reply as a JSON message.
    pub fn to_openai_compatible_message(&self) -> (r: Json)
        ensures
            r@ == reply_message(self@),
    {
        assert(items_view(self.provider_messages@).len() == self.provider_messages@.len());
        assert(call_views(self.tool_calls@).len() == self.tool_calls@.len());
        if self.provider_messages.len() > 0 {
            return self.provider_messages[0].copy();
        }
        let mut o = Object::new();
        o.set("role", Json::string("assistant"));
        o.set(
            "content",
            if self.text.as_str().is_empty() {
                Json::Null
            } else {
                Json::string(self.text.as_str())
            },
        );
        if let Some(t) = &self.reasoning {
            if !is_blank(t.as_str()) {
                o.set("reasoning_content", Json::string(t.as_str()));
            }
        }
        if self.tool_calls.len() > 0 {
            o.set("tool_calls", Json::Array(make_pending_call_items(&self.tool_calls)));
        }
        Json::Object(o)
    }
}

// ---------------------------------------------------------------------
// Laws
// ---------------------------------------------------------------------

/// The result of a tool comes back from the JSON it was written to.
pub proof fn law_tool_results_come_back(
    id: Seq<char>,
    content: Seq<char>,
    fresh: Seq<Seq<char>>,
)
    ensures
        ({
            let m = MessageView {
                role: ModelRole::Tool,
                content: seq![
                    PartView::ToolResult {
                        tool_call_id: id,
                        content,
                        is_error: false,
                        artifacts: Seq::empty(),
                    },
                ],
            };
            chat_messages(m).len() == 1 && message_of(chat_messages(m)[0], fresh) == Some(m)
        }),
{
    reveal_with_fuel(result_items, 2);
    reveal_strlit("role");
    reveal_strlit("tool_call_id");
    reveal_strlit("content");
    reveal_strlit("tool");
    reveal_strlit("assistant");
    assert("role"@.len() == 4 && "tool_call_id"@.len() == 12 && "content"@.len() == 7);
    assert("tool"@.len() == 4 && "assistant"@.len() == 9);
    let part = PartView::ToolResult {
        tool_call_id: id,
        content,
        is_error: false,
        artifacts: Seq::empty(),
    };
    let m = MessageView { role: ModelRole::Tool, content: seq![part] };
    assert(seq![part].drop_last() == Seq::<PartView>::empty());
    let j = object3(
        "role"@,
        str_json("tool"@),
        "tool_call_id"@,
        str_json(id),
        "content"@,
        str_json(content),
    );
    assert(chat_messages(m) == seq![j]);
    assert(j.field_text("role"@) == Some("tool"@));
    assert(j.field_text("tool_call_id"@) == Some(id));
    assert(j.field_text("content"@) == Some(content));
}

/// A tool call comes back from the JSON it was written to, with the identifier,
/// the name and the arguments that it had.
pub proof fn law_tool_calls_come_back(
    id: Seq<char>,
    name: Seq<char>,
    arguments_raw: Seq<char>,
    fresh: Seq<char>,
)
    ensures
        call_in(call_item(id, name, arguments_raw), fresh) == Some(
            CallView {
                id,
                function_name: name,
                arguments: arguments_of(arguments_raw).0,
                arguments_raw,
                arguments_parse_error: arguments_of(arguments_raw).1,
                signature: None,
            },
        ),
{
    reveal_strlit("id");
    reveal_strlit("type");
    reveal_strlit("function");
    reveal_strlit("name");
    reveal_strlit("arguments");
    reveal_strlit("thought_signature");
    assert("id"@.len() == 2 && "type"@.len() == 4 && "function"@.len() == 8 && "name"@.len() == 4
        && "arguments"@.len() == 9 && "thought_signature"@.len() == 17);
    let item = call_item(id, name, arguments_raw);
    let function = object2("name"@, str_json(name), "arguments"@, str_json(arguments_raw));
    assert(item.field("function"@) == Some(function));
    assert(function.field_text("name"@) == Some(name));
    assert(function.field("arguments"@) == Some(str_json(arguments_raw)));
    assert(item.field_text("id"@) == Some(id));
    assert(item.field_text("thought_signature"@) is None);
}

/// The tool calls of a message come back from the JSON it was written to, in
/// order.
pub proof fn law_message_calls_come_back(m: MessageView, fresh: Seq<Seq<char>>)
    requires
        m.role != ModelRole::Tool,
        call_items(m.content).len() > 0,
    ensures
        message_calls(chat_messages(m)[0], fresh) == calls_in(call_items(m.content), fresh),
{
    reveal_strlit("role");
    reveal_strlit("content");
    reveal_strlit("tool_calls");
    reveal_strlit("reasoning_content");
    assert("role"@.len() == 4 && "content"@.len() == 7 && "tool_calls"@.len() == 10
        && "reasoning_content"@.len() == 17);
    let j = chat_messages(m)[0];
    assert(j.field("tool_calls"@) == Some(JsonView::Array(call_items(m.content))));
}

/// What is told of parts is what is told of the first ones, and then what is told of the
/// rest: nothing is left out, and nothing moves.
pub proof fn law_parts_are_told_in_order(a: Seq<PartView>, b: Seq<PartView>, kind: Seq<char>)
    ensures
        content_items(a + b) == content_items(a) + content_items(b),
        call_items(a + b) == call_items(a) + call_items(b),
        result_items(a + b) == result_items(a) + result_items(b),
        output_items(a + b) == output_items(a) + output_items(b),
        function_call_items(a + b) == function_call_items(a) + function_call_items(b),
        responses_content(a + b, kind) == responses_content(a, kind) + responses_content(b, kind),
    decreases b.len(),
{
    if b.len() == 0 {
        assert(a + b =~= a);
        assert(content_items(a) + content_items(b) =~= content_items(a));
        assert(call_items(a) + call_items(b) =~= call_items(a));
        assert(result_items(a) + result_items(b) =~= result_items(a));
        assert(output_items(a) + output_items(b) =~= output_items(a));
        assert(function_call_items(a) + function_call_items(b) =~= function_call_items(a));
        assert(responses_content(a, kind) + responses_content(b, kind) =~= responses_content(a, kind));
    } else {
        law_parts_are_told_in_order(a, b.drop_last(), kind);
        assert((a + b).drop_last() =~= a + b.drop_last());
        assert((a + b).last() == b.last());
        assert(content_items(a + b) =~= content_items(a) + content_items(b));
        assert(call_items(a + b) =~= call_items(a) + call_items(b));
        assert(result_items(a + b) =~= result_items(a) + result_items(b));
        assert(output_items(a + b) =~= output_items(a) + output_items(b));
        assert(function_call_items(a + b) =~= function_call_items(a) + function_call_items(b));
        assert(responses_content(a + b, kind) =~= responses_content(a, kind) + responses_content(b, kind));
    }
}

/// What is told of messages is what is told of the first ones, and then what is told of
/// the rest.
pub proof fn law_messages_are_told_in_order(a: Seq<MessageView>, b: Seq<MessageView>)
    ensures
        all_chat_messages(a + b) == all_chat_messages(a) + all_chat_messages(b),
        all_responses_items(a + b) == all_responses_items(a) + all_responses_items(b),
    decreases b.len(),
{
    if b.len() == 0 {
        assert(a + b =~= a);
        assert(all_chat_messages(a) + all_chat_messages(b) =~= all_chat_messages(a));
        assert(all_responses_items(a) + all_responses_items(b) =~= all_responses_items(a));
    } else {
        law_messages_are_told_in_order(a, b.drop_last());
        assert((a + b).drop_last() =~= a + b.drop_last());
        assert((a + b).last() == b.last());
        assert(all_chat_messages(a + b) =~= all_chat_messages(a) + all_chat_messages(b));
        assert(all_responses_items(a + b) =~= all_responses_items(a) + all_responses_items(b));
    }
}

/// What items hold is what the first ones hold, and then what the rest hold.
pub proof fn law_items_are_read_in_order(a: Seq<JsonView>, b: Seq<JsonView>)
    ensures
        items_parts(a + b) == items_parts(a) + items_parts(b),
        item_texts(a + b) == item_texts(a) + item_texts(b),
        system_texts(a + b) == system_texts(a) + system_texts(b),
    decreases b.len(),
{
    if b.len() == 0 {
        assert(a + b =~= a);
        assert(items_parts(a) + items_parts(b) =~= items_parts(a));
        assert(item_texts(a) + item_texts(b) =~= item_texts(a));
        assert(system_texts(a) + system_texts(b) =~= system_texts(a));
    } else {
        law_items_are_read_in_order(a, b.drop_last());
        assert((a + b).drop_last() =~= a + b.drop_last());
        assert((a + b).last() == b.last());
        assert(items_parts(a + b) =~= items_parts(a) + items_parts(b));
        assert(item_texts(a + b) =~= item_texts(a) + item_texts(b));
        assert(system_texts(a + b) =~= system_texts(a) + system_texts(b));
    }
}

proof fn lemma_message_keys()
    ensures
        "type"@ != "text"@,
        "type"@ != "image_url"@,
        "type"@ != "url"@,
        "type"@ != "id"@,
        "type"@ != "function"@,
        "type"@ != "name"@,
        "type"@ != "arguments"@,
        "type"@ != "role"@,
        "type"@ != "content"@,
        "type"@ != "tool_calls"@,
        "type"@ != "reasoning_content"@,
        "type"@ != "tool_call_id"@,
        "type"@ != "call_id"@,
        "type"@ != "output"@,
        "text"@ != "image_url"@,
        "text"@ != "url"@,
        "text"@ != "id"@,
        "text"@ != "function"@,
        "text"@ != "name"@,
        "text"@ != "arguments"@,
        "text"@ != "role"@,
        "text"@ != "content"@,
        "text"@ != "tool_calls"@,
        "text"@ != "reasoning_content"@,
        "text"@ != "tool_call_id"@,
        "text"@ != "call_id"@,
        "text"@ != "output"@,
        "image_url"@ != "url"@,
        "image_url"@ != "id"@,
        "image_url"@ != "function"@,
        "image_url"@ != "name"@,
        "image_url"@ != "arguments"@,
        "image_url"@ != "role"@,
        "image_url"@ != "content"@,
        "image_url"@ != "tool_calls"@,
        "image_url"@ != "reasoning_content"@,
        "image_url"@ != "tool_call_id"@,
        "image_url"@ != "call_id"@,
        "image_url"@ != "output"@,
        "url"@ != "id"@,
        "url"@ != "function"@,
        "url"@ != "name"@,
        "url"@ != "arguments"@,
        "url"@ != "role"@,
        "url"@ != "content"@,
        "url"@ != "tool_calls"@,
        "url"@ != "reasoning_content"@,
        "url"@ != "tool_call_id"@,
        "url"@ != "call_id"@,
        "url"@ != "output"@,
        "id"@ != "function"@,
        "id"@ != "name"@,
        "id"@ != "arguments"@,
        "id"@ != "role"@,
        "id"@ != "content"@,
        "id"@ != "tool_calls"@,
        "id"@ != "reasoning_content"@,
        "id"@ != "tool_call_id"@,
        "id"@ != "call_id"@,
        "id"@ != "output"@,
        "function"@ != "name"@,
        "function"@ != "arguments"@,
        "function"@ != "role"@,
        "function"@ != "content"@,
        "function"@ != "tool_calls"@,
        "function"@ != "reasoning_content"@,
        "function"@ != "tool_call_id"@,
        "function"@ != "call_id"@,
        "function"@ != "output"@,
        "name"@ != "arguments"@,
        "name"@ != "role"@,
        "name"@ != "content"@,
        "name"@ != "tool_calls"@,
        "name"@ != "reasoning_content"@,
        "name"@ != "tool_call_id"@,
        "name"@ != "call_id"@,
        "name"@ != "output"@,
        "arguments"@ != "role"@,
        "arguments"@ != "content"@,
        "arguments"@ != "tool_calls"@,
        "arguments"@ != "reasoning_content"@,
        "arguments"@ != "tool_call_id"@,
        "arguments"@ != "call_id"@,
        "arguments"@ != "output"@,
        "role"@ != "content"@,
        "role"@ != "tool_calls"@,
        "role"@ != "reasoning_content"@,
        "role"@ != "tool_call_id"@,
        "role"@ != "call_id"@,
        "role"@ != "output"@,
        "content"@ != "tool_calls"@,
        "content"@ != "reasoning_content"@,
        "content"@ != "tool_call_id"@,
        "content"@ != "call_id"@,
        "content"@ != "output"@,
        "tool_calls"@ != "reasoning_content"@,
        "tool_calls"@ != "tool_call_id"@,
        "tool_calls"@ != "call_id"@,
        "tool_calls"@ != "output"@,
        "reasoning_content"@ != "tool_call_id"@,
        "reasoning_content"@ != "call_id"@,
        "reasoning_content"@ != "output"@,
        "tool_call_id"@ != "call_id"@,
        "tool_call_id"@ != "output"@,
        "call_id"@ != "output"@,
{
    reveal_strlit("type");
    reveal_strlit("text");
    reveal_strlit("image_url");
    reveal_strlit("url");
    reveal_strlit("id");
    reveal_strlit("function");
    reveal_strlit("name");
    reveal_strlit("arguments");
    reveal_strlit("role");
    reveal_strlit("content");
    reveal_strlit("tool_calls");
    reveal_strlit("reasoning_content");
    reveal_strlit("tool_call_id");
    reveal_strlit("call_id");
    reveal_strlit("output");
    assert("type"@[1] == 'y');
    assert("text"@[1] == 'e');
    assert("type"@.len() == 4);
    assert("image_url"@.len() == 9);
    assert("url"@.len() == 3);
    assert("id"@.len() == 2);
    assert("function"@.len() == 8);
    assert("type"@[0] == 't');
    assert("name"@[0] == 'n');
    assert("arguments"@.len() == 9);
    assert("role"@[0] == 'r');
    assert("content"@.len() == 7);
    assert("tool_calls"@.len() == 10);
    assert("reasoning_content"@.len() == 17);
    assert("tool_call_id"@.len() == 12);
    assert("call_id"@.len() == 7);
    assert("output"@.len() == 6);
    assert("text"@.len() == 4);
    assert("text"@[0] == 't');
    assert("name"@.len() == 4);
    assert("image_url"@[0] == 'i');
    assert("arguments"@[0] == 'a');
    assert("role"@.len() == 4);
    assert("content"@[1] == 'o');
    assert("call_id"@[1] == 'a');
}

/// One part is told as one item at most: a text as a text item, an image as an item with
/// its URL, a call as a call with its identifier, name and arguments, a result as a
/// message with the identifier of its call and its content.
pub proof fn law_a_part_is_told_as_one_item(part: PartView, kind: Seq<char>)
    ensures
        match part {
            PartView::Text { text } => content_items(seq![part]).len() == 1 && content_items(
                seq![part],
            )[0].field_text("type"@) == Some("text"@) && content_items(seq![part])[0].field_text(
                "text"@,
            ) == Some(text) && responses_content(seq![part], kind).len() == 1 && responses_content(
                seq![part],
                kind,
            )[0].field_text("text"@) == Some(text) && responses_content(
                seq![part],
                kind,
            )[0].field_text("type"@) == Some(kind),
            PartView::Image { mime_type, data } => content_items(seq![part]).len() == 1
                && content_items(seq![part])[0].field_text("type"@) == Some("image_url"@)
                && content_items(seq![part])[0].path("image_url"@, "url"@) == Some(
                JsonView::Str("data:"@ + mime_type + ";base64,"@ + data),
            ) && responses_content(seq![part], kind).len() == 1 && responses_content(
                seq![part],
                kind,
            )[0].field_text("image_url"@) == Some("data:"@ + mime_type + ";base64,"@ + data),
            PartView::ImageUrl { url } => content_items(seq![part]).len() == 1 && content_items(
                seq![part],
            )[0].field_text("type"@) == Some("image_url"@) && content_items(seq![part])[0].path(
                "image_url"@,
                "url"@,
            ) == Some(JsonView::Str(url)) && responses_content(seq![part], kind).len() == 1
                && responses_content(seq![part], kind)[0].field_text("image_url"@) == Some(url),
            _ => content_items(seq![part]).len() == 0 && responses_content(seq![part], kind).len()
                == 0,
        },
        match part {
            PartView::ToolCall { id, name, arguments_raw, .. } => call_items(seq![part]).len() == 1
                && call_items(seq![part])[0].field_text("id"@) == Some(id) && call_items(
                seq![part],
            )[0].path("function"@, "name"@) == Some(JsonView::Str(name)) && call_items(
                seq![part],
            )[0].path("function"@, "arguments"@) == Some(JsonView::Str(arguments_raw))
                && function_call_items(seq![part]).len() == 1 && function_call_items(
                seq![part],
            )[0].field_text("call_id"@) == Some(id) && function_call_items(
                seq![part],
            )[0].field_text("name"@) == Some(name) && function_call_items(
                seq![part],
            )[0].field_text("arguments"@) == Some(arguments_raw) && function_call_items(
                seq![part],
            )[0].field_text("type"@) == Some("function_call"@),
            _ => call_items(seq![part]).len() == 0 && function_call_items(seq![part]).len() == 0,
        },
        match part {
            PartView::ToolResult { tool_call_id, content, .. } => result_items(seq![part]).len()
                == 1 && result_items(seq![part])[0].field_text("role"@) == Some("tool"@)
                && result_items(seq![part])[0].field_text("tool_call_id"@) == Some(tool_call_id)
                && result_items(seq![part])[0].field_text("content"@) == Some(content)
                && output_items(seq![part]).len() == 1 && output_items(seq![part])[0].field_text(
                "type"@,
            ) == Some("function_call_output"@) && output_items(seq![part])[0].field_text(
                "call_id"@,
            ) == Some(tool_call_id) && output_items(seq![part])[0].field_text("output"@) == Some(
                content,
            ),
            _ => result_items(seq![part]).len() == 0 && output_items(seq![part]).len() == 0,
        },
{
    lemma_message_keys();
    reveal_with_fuel(content_items, 2);
    reveal_with_fuel(call_items, 2);
    reveal_with_fuel(result_items, 2);
    reveal_with_fuel(output_items, 2);
    reveal_with_fuel(function_call_items, 2);
    reveal_with_fuel(responses_content, 2);
    assert(seq![part].drop_last() =~= Seq::<PartView>::empty());
    assert(seq![part].last() == part);
}

/// A message of the user or of the assistant is told as one message: under its role, with
/// its texts one below another, or its items where there is an image, with its calls and
/// with its last reasoning.
pub proof fn law_a_message_is_told_whole(message: MessageView)
    requires
        message.role != ModelRole::Tool,
    ensures
        chat_messages(message).len() == 1,
        ({
            let told = chat_messages(message)[0];
            let calls = call_items(message.content);
            let image = exists|i: int|
                0 <= i < message.content.len() && (message.content[i] is Image
                    || message.content[i] is ImageUrl);
            &&& told.field_text("role"@) == Some(
                if message.role == ModelRole::User {
                    "user"@
                } else {
                    "assistant"@
                },
            )
            &&& image ==> told.field("content"@) == Some(
                JsonView::Array(content_items(message.content)),
            )
            &&& !image && texts_in(message.content).len() > 0 ==> told.field_text("content"@)
                == Some(joined(texts_in(message.content), seq!['\n']))
            &&& !image && texts_in(message.content).len() == 0 && calls.len() > 0 ==> told.field(
                "content"@,
            ) == Some(JsonView::Null)
            &&& told.field("tool_calls"@) == if calls.len() > 0 {
                Some(JsonView::Array(calls))
            } else {
                None
            }
            &&& told.field("reasoning_content"@) is Some <==> last_reasoning(
                message.content,
            ) is Some
            &&& last_reasoning(message.content) is Some ==> told.field_text("reasoning_content"@)
                == last_reasoning(message.content)
        }),
{
    lemma_message_keys();
    reveal_strlit("\n");
    assert("\n"@ =~= seq!['\n']);
}

/// The reasoning of a message is that of its last reasoning part.
pub proof fn law_the_last_reasoning_counts(
    a: Seq<PartView>,
    text: Seq<char>,
    b: Seq<PartView>,
)
    requires
        forall|i: int| 0 <= i < b.len() ==> !(#[trigger] b[i] is Reasoning),
    ensures
        last_reasoning(a.push(PartView::Reasoning { text }) + b) == Some(text),
        last_reasoning(b) is None,
    decreases b.len(),
{
    let s = a.push(PartView::Reasoning { text }) + b;
    if b.len() == 0 {
        assert(s =~= a.push(PartView::Reasoning { text }));
    } else {
        assert(b[b.len() - 1] == b.last());
        assert forall|i: int| 0 <= i < b.drop_last().len() implies !(#[trigger] b.drop_last()[i]
            is Reasoning) by {
            assert(b.drop_last()[i] == b[i]);
        }
        law_the_last_reasoning_counts(a, text, b.drop_last());
        assert(s.drop_last() =~= a.push(PartView::Reasoning { text }) + b.drop_last());
        assert(s.last() == b.last());
    }
}

/// A request tells the system prompt first, where it is not blank, and then every message.
pub proof fn law_requests_begin_with_the_system(
    system: Seq<char>,
    a: Seq<MessageView>,
    b: Seq<MessageView>,
)
    ensures
        request_messages(system, a + b) == request_messages(system, a) + all_chat_messages(b),
        is_blank_text(system) ==> request_messages(system, Seq::<MessageView>::empty()).len() == 0,
        !is_blank_text(system) ==> request_messages(system, a).len() == all_chat_messages(a).len()
            + 1 && request_messages(system, a)[0].field_text("role"@) == Some("system"@)
            && request_messages(system, a)[0].field_text("content"@) == Some(system),
        forall|m: MessageView| #[trigger] all_chat_messages(seq![m]) == chat_messages(m),
        forall|m: MessageView| #[trigger] all_responses_items(seq![m]) == responses_items(m),
{
    lemma_message_keys();
    law_messages_are_told_in_order(a, b);
    assert(request_messages(system, a + b) =~= request_messages(system, a) + all_chat_messages(b));
    reveal_with_fuel(all_chat_messages, 2);
    reveal_with_fuel(all_responses_items, 2);
    assert forall|m: MessageView| #[trigger] all_chat_messages(seq![m]) == chat_messages(m) by {
        assert(seq![m].drop_last() =~= Seq::<MessageView>::empty());
        assert(seq![m].last() == m);
        assert(all_chat_messages(seq![m]) =~= chat_messages(m));
    }
    assert forall|m: MessageView| #[trigger] all_responses_items(seq![m]) == responses_items(
        m,
    ) by {
        assert(seq![m].drop_last() =~= Seq::<MessageView>::empty());
        assert(seq![m].last() == m);
        assert(all_responses_items(seq![m]) =~= responses_items(m));
    }
}

/// For the responses service a message is told under its role with all its content, where
/// it has any, and then its calls; a message of results as its results.
pub proof fn law_a_message_becomes_its_items(message: MessageView)
    ensures
        message.role == ModelRole::Tool ==> responses_items(message) == output_items(
            message.content,
        ),
        message.role != ModelRole::Tool ==> ({
            let kind = if message.role == ModelRole::User {
                "input_text"@
            } else {
                "output_text"@
            };
            let content = responses_content(message.content, kind);
            let items = responses_items(message);
            let lead: nat = if content.len() > 0 {
                1
            } else {
                0
            };
            &&& items.len() == lead + function_call_items(message.content).len()
            &&& items.skip(lead as int) == function_call_items(message.content)
            &&& content.len() > 0 ==> items[0].field_items("content"@) == Some(content)
                && items[0].field_text("role"@) == Some(
                if message.role == ModelRole::User {
                    "user"@
                } else {
                    "assistant"@
                },
            )
        }),
{
    lemma_message_keys();
    let items = responses_items(message);
    if message.role != ModelRole::Tool {
        let kind = if message.role == ModelRole::User {
            "input_text"@
        } else {
            "output_text"@
        };
        let content = responses_content(message.content, kind);
        let lead: int = if content.len() > 0 {
            1
        } else {
            0
        };
        assert(items.skip(lead) =~= function_call_items(message.content));
    }
}

/// Calls are read one by one and in order.
pub proof fn law_calls_are_read_in_order(
    a: Seq<JsonView>,
    fa: Seq<Seq<char>>,
    b: Seq<JsonView>,
    fb: Seq<Seq<char>>,
)
    requires
        fa.len() == a.len(),
        fb.len() == b.len(),
    ensures
        calls_in(a + b, fa + fb) == calls_in(a, fa) + calls_in(b, fb),
    decreases b.len(),
{
    if b.len() == 0 {
        assert(a + b =~= a);
        assert(fa + fb =~= fa);
        assert(calls_in(a, fa) + calls_in(b, fb) =~= calls_in(a, fa));
    } else {
        law_calls_are_read_in_order(a, fa, b.drop_last(), fb.drop_last());
        assert((a + b).drop_last() =~= a + b.drop_last());
        assert((a + b).last() == b.last());
        assert((fa + fb)[a.len() + b.len() - 1] == fb[b.len() - 1]);
        lemma_calls_front(a + b.drop_last(), fa + fb, fa + fb.drop_last());
        lemma_calls_front(b.drop_last(), fb, fb.drop_last());
        assert(calls_in(a + b, fa + fb) =~= calls_in(a, fa) + calls_in(b, fb));
    }
}

proof fn lemma_calls_front(calls: Seq<JsonView>, f: Seq<Seq<char>>, g: Seq<Seq<char>>)
    requires
        calls.len() <= f.len(),
        calls.len() <= g.len(),
        forall|i: int| 0 <= i < calls.len() ==> f[i] == g[i],
    ensures
        calls_in(calls, f) == calls_in(calls, g),
    decreases calls.len(),
{
    if calls.len() > 0 {
        lemma_calls_front(calls.drop_last(), f, g);
        assert(f[calls.len() - 1] == g[calls.len() - 1]);
    }
}

/// A call is read where it has a name: with its identifier, or the fresh one where it has
/// none, its name, its arguments as text and its signature.
pub proof fn law_a_call_is_read_whole(call: JsonView, fresh: Seq<char>)
    ensures
        match call.path("function"@, "name"@) {
            Some(JsonView::Str(name)) => {
                let read = calls_in(seq![call], seq![fresh]);
                &&& read.len() == 1
                &&& read[0].function_name == name
                &&& read[0].id == match call.field_text("id"@) {
                    Some(id) => id,
                    None => fresh,
                }
                &&& read[0].signature == call.field_text("thought_signature"@)
                &&& match call.path("function"@, "arguments"@) {
                    Some(JsonView::Str(raw)) => read[0].arguments_raw == raw && (is_blank_text(raw)
                        || match crate::json::parsed_json(raw) {
                        Ok(v) => read[0].arguments == v && read[0].arguments_parse_error is None,
                        Err(_) => read[0].arguments == JsonView::Null
                            && read[0].arguments_parse_error is Some,
                    }),
                    None => read[0].arguments_raw == "{}"@,
                    _ => true,
                }
            },
            _ => calls_in(seq![call], seq![fresh]).len() == 0,
        },
{
    reveal_with_fuel(calls_in, 2);
    assert(seq![call].drop_last() =~= Seq::<JsonView>::empty());
    assert(seq![call].last() == call);
}

/// Messages are read one by one and in order.
pub proof fn law_messages_are_read_in_order(
    a: Seq<JsonView>,
    fa: Seq<Seq<Seq<char>>>,
    b: Seq<JsonView>,
    fb: Seq<Seq<Seq<char>>>,
)
    requires
        fa.len() == a.len(),
        fb.len() == b.len(),
    ensures
        messages_of(a + b, fa + fb) == messages_of(a, fa) + messages_of(b, fb),
    decreases b.len(),
{
    if b.len() == 0 {
        assert(a + b =~= a);
        assert(fa + fb =~= fa);
        assert(messages_of(a, fa) + messages_of(b, fb) =~= messages_of(a, fa));
    } else {
        law_messages_are_read_in_order(a, fa, b.drop_last(), fb.drop_last());
        assert((a + b).drop_last() =~= a + b.drop_last());
        assert((a + b).last() == b.last());
        assert((fa + fb)[a.len() + b.len() - 1] == fb[b.len() - 1]);
        lemma_messages_front(a + b.drop_last(), fa + fb, fa + fb.drop_last());
        lemma_messages_front(b.drop_last(), fb, fb.drop_last());
        assert(messages_of(a + b, fa + fb) =~= messages_of(a, fa) + messages_of(b, fb));
    }
}

proof fn lemma_messages_front(
    messages: Seq<JsonView>,
    f: Seq<Seq<Seq<char>>>,
    g: Seq<Seq<Seq<char>>>,
)
    requires
        messages.len() <= f.len(),
        messages.len() <= g.len(),
        forall|i: int| 0 <= i < messages.len() ==> f[i] == g[i],
    ensures
        messages_of(messages, f) == messages_of(messages, g),
    decreases messages.len(),
{
    if messages.len() > 0 {
        lemma_messages_front(messages.drop_last(), f, g);
        assert(f[messages.len() - 1] == g[messages.len() - 1]);
    }
}

/// A message of text comes back as it was told: its role and its text.
pub proof fn law_texts_come_back(role: ModelRole, text: Seq<char>, fresh: Seq<Seq<char>>)
    requires
        role != ModelRole::Tool,
        text.len() > 0,
    ensures
        ({
            let m = MessageView { role, content: seq![PartView::Text { text }] };
            message_of(chat_messages(m)[0], fresh) == Some(m)
        }),
{
    lemma_message_keys();
    let parts = seq![PartView::Text { text }];
    let m = MessageView { role, content: parts };
    law_a_message_is_told_whole(m);
    crate::model::types::law_text_parts_have_texts(PartView::Text { text });
    law_a_part_is_told_as_one_item(PartView::Text { text }, "input_text"@);
    law_the_last_reasoning_counts(Seq::empty(), text, parts);
    let told = chat_messages(m)[0];
    assert(joined(seq![text], seq!['\n']) == text);
    assert(!(parts[0] is Image) && !(parts[0] is ImageUrl));
    assert(told.field_text("content"@) == Some(text));
    lemma_role_names();
    assert(told.field("tool_calls"@) is None);
    assert(told.field("reasoning_content"@) is None);
    assert(told.field("reasoning"@) is None) by {
        reveal_strlit("reasoning");
        reveal_strlit("role");
        reveal_strlit("content");
        reveal_strlit("tool_calls");
        reveal_strlit("reasoning_content");
        assert("reasoning"@.len() == 9);
        assert("role"@.len() == 4);
        assert("content"@.len() == 7);
        assert("tool_calls"@.len() == 10);
        assert("reasoning_content"@.len() == 17);
    }
    let back = message_of(told, fresh)->0;
    assert(back.content =~= parts);
}

proof fn lemma_role_names()
    ensures
        "user"@ != "assistant"@,
        "user"@ != "tool"@,
        "assistant"@ != "tool"@,
{
    reveal_strlit("user");
    reveal_strlit("assistant");
    reveal_strlit("tool");
    assert("user"@.len() == 4);
    assert("assistant"@.len() == 9);
    assert("user"@[0] == 'u');
    assert("tool"@[0] == 't');
}

/// An image told by a `data:` URL comes back with its media type and its data.
pub proof fn law_images_come_back(mime_type: Seq<char>, data: Seq<char>)
    requires
        !mime_type.contains(';'),
    ensures
        data_url_parts("data:"@ + mime_type + ";base64,"@ + data) == Some((mime_type, data)),
        item_part(image_item(data_url(mime_type, data))) == Some(
            PartView::Image { mime_type, data },
        ),
{
    lemma_message_keys();
    reveal_strlit("data:");
    reveal_strlit(";base64,");
    reveal_strlit("text");
    reveal_strlit("image_url");
    let sep = ";base64,"@;
    let url = "data:"@ + mime_type + sep + data;
    let rest = mime_type + sep + data;
    assert(url.subrange(0, 5) =~= "data:"@);
    assert(url.skip(5) =~= rest);
    let n = mime_type.len() as int;
    assert(rest.subrange(n, n + 8) =~= sep);
    crate::text::lemma_find_from(rest, sep, 0);
    assert forall|j: int| 0 <= j < n implies !crate::text::occurs_at(rest, sep, j) by {
        if crate::text::occurs_at(rest, sep, j) {
            assert(rest.subrange(j, j + 8)[0] == ';');
            assert(rest[j] == mime_type[j]);
            assert(mime_type.contains(mime_type[j]));
        }
    }
    assert(crate::text::occurs_at(rest, sep, n));
    assert(crate::text::find_from(rest, sep, 0) == Some(n));
    assert(rest.take(n) =~= mime_type);
    assert(rest.subrange(0, n) =~= mime_type);
    assert(rest.skip(n + 8) =~= data);
    assert(data_url_parts(url) == Some((mime_type, data)));
    assert("text"@.len() == 4);
    assert("image_url"@.len() == 9);
}

/// A reply is carried on as the message that the service gave, or else as one of the
/// assistant with the text, the reasoning and the calls of the reply.
pub proof fn law_replies_are_carried_on(output: OutputView)
    ensures
        output.provider_messages.len() > 0 ==> reply_message(output) == output.provider_messages[0],
        output.provider_messages.len() == 0 ==> ({
            let m = reply_message(output);
            &&& m.field_text("role"@) == Some("assistant"@)
            &&& output.text.len() > 0 ==> m.field_text("content"@) == Some(output.text)
            &&& output.text.len() == 0 ==> m.field("content"@) == Some(JsonView::Null)
            &&& output.reasoning is Some && !is_blank_text(output.reasoning->0) ==> m.field_text(
                "reasoning_content"@,
            ) == output.reasoning
            &&& m.field("tool_calls"@) is Some <==> output.tool_calls.len() > 0
            &&& output.tool_calls.len() > 0 ==> m.field_items("tool_calls"@) is Some && (
            m.field_items("tool_calls"@)->0).len() == output.tool_calls.len()
            &&& forall|i: int|
                0 <= i < output.tool_calls.len() ==> (#[trigger] (m.field_items(
                    "tool_calls"@,
                )->0)[i]).field_text("id"@) == Some(output.tool_calls[i].id) && (m.field_items(
                    "tool_calls"@,
                )->0)[i].path("function"@, "name"@) == Some(
                    JsonView::Str(output.tool_calls[i].function_name),
                ) && (m.field_items("tool_calls"@)->0)[i].path("function"@, "arguments"@) == Some(
                    JsonView::Str(output.tool_calls[i].arguments_raw),
                )
        }),
{
    lemma_message_keys();
}

/// An item of content is read as what it is: a text as a text, an image by its URL.
pub proof fn law_items_are_read_whole(item: JsonView, t: Seq<char>)
    ensures
        item.field_text("type"@) == Some("text"@) && item.field_text("text"@) == Some(t)
            ==> items_parts(seq![item]) == seq![PartView::Text { text: t }] && item_texts(
            seq![item],
        ) == seq![t],
        item.field_text("type"@) == Some("image_url"@) && item.path("image_url"@, "url"@) == Some(
            JsonView::Str(t),
        ) && t.len() > 0 && data_url_parts(t) is None ==> items_parts(seq![item]) == seq![
            PartView::ImageUrl { url: t },
        ],
        item.field_text("type"@) == Some("image_url"@) && item.path("image_url"@, "url"@) == Some(
            JsonView::Str(t),
        ) && data_url_parts(t) is Some ==> items_parts(seq![item]) == seq![
            PartView::Image { mime_type: (data_url_parts(t)->0).0, data: (data_url_parts(t)->0).1 },
        ],
        item.field_text("type"@) != Some("text"@) ==> item_texts(seq![item]).len() == 0,
{
    lemma_message_keys();
    reveal_with_fuel(items_parts, 2);
    reveal_with_fuel(item_texts, 2);
    assert(seq![item].drop_last() =~= Seq::<JsonView>::empty());
    assert(seq![item].last() == item);
    if item_part(item) is Some {
        assert(items_parts(seq![item]) =~= seq![item_part(item)->0]);
    }
    if item.field_text("type"@) == Some("text"@) && item.field_text("text"@) == Some(t) {
        assert(item_texts(seq![item]) =~= seq![t]);
    }
}

/// A message of JSON is read under its role with its text, its reasoning and its calls; a
/// result with the identifier of its call; and a message of any other role is left out.
pub proof fn law_a_message_is_read_whole(message: JsonView, fresh: Seq<Seq<char>>, t: Seq<char>)
    ensures
        ({
            let r = message_of(message, fresh);
            let role = message.field_text("role"@);
            &&& role == Some("user"@) || role == Some("assistant"@) || role == Some("tool"@) <==> r
                is Some
            &&& role == Some("user"@) ==> r->0.role == ModelRole::User
            &&& role == Some("assistant"@) ==> r->0.role == ModelRole::Assistant
            &&& role == Some("tool"@) ==> r->0.role == ModelRole::Tool && r->0.content.len() == 1
                && r->0.content[0] is ToolResult && (message.field_text("tool_call_id"@) is Some
                ==> r->0.content[0]->ToolResult_tool_call_id == message.field_text(
                "tool_call_id"@,
            )->0) && (message.field_text("content"@) is Some ==> r->0.content[0]->ToolResult_content
                == message.field_text("content"@)->0)
            &&& (role == Some("user"@) || role == Some("assistant"@)) && message.field_text(
                "content"@,
            ) == Some(t) && t.len() > 0 ==> r->0.content.len() > 0 && r->0.content[0]
                == (PartView::Text { text: t })
            &&& (role == Some("user"@) || role == Some("assistant"@)) ==> r->0.content.len()
                >= message_calls(message, fresh).len() && r->0.content.skip(
                r->0.content.len() - message_calls(message, fresh).len(),
            ) == call_parts(message_calls(message, fresh))
            &&& (role == Some("user"@) || role == Some("assistant"@)) && message.field_text(
                "reasoning_content"@,
            ) == Some(t) && !is_blank_text(t) ==> r->0.content.contains(
                PartView::Reasoning { text: t },
            )
        }),
{
    lemma_role_names();
    let r = message_of(message, fresh);
    let role = message.field_text("role"@);
    if role == Some("user"@) || role == Some("assistant"@) {
        let a = content_parts(message.field("content"@));
        let b = match reasoning_text(message) {
            Some(text) => seq![PartView::Reasoning { text }],
            None => Seq::empty(),
        };
        let c = call_parts(message_calls(message, fresh));
        assert(r->0.content == a + b + c);
        assert(r->0.content.skip(r->0.content.len() - c.len()) =~= c);
        if message.field_text("reasoning_content"@) == Some(t) && !is_blank_text(t) {
            assert(b[0] == (PartView::Reasoning { text: t }));
            assert(r->0.content[a.len() as int] == b[0]);
        }
    }
}

/// Calls become parts, one each, with all that they hold.
pub proof fn law_calls_become_parts(calls: Seq<CallView>, i: int)
    requires
        0 <= i < calls.len(),
    ensures
        call_parts(calls).len() == calls.len(),
        call_parts(calls)[i] == (PartView::ToolCall {
            id: calls[i].id,
            name: calls[i].function_name,
            arguments: calls[i].arguments,
            arguments_raw: calls[i].arguments_raw,
            signature: calls[i].signature,
        }),
{
}

/// The system prompt is made of the texts of the system messages, and of no other.
pub proof fn law_system_messages_are_read(message: JsonView, t: Seq<char>)
    ensures
        message.field_text("role"@) == Some("system"@) && message.field_text("content"@) == Some(t)
            ==> system_texts(seq![message]) == seq![t],
        message.field_text("role"@) != Some("system"@) ==> system_texts(seq![message]).len() == 0,
{
    reveal_with_fuel(system_texts, 2);
    assert(seq![message].drop_last() =~= Seq::<JsonView>::empty());
    assert(seq![message].last() == message);
    if message.field_text("role"@) == Some("system"@) && message.field_text("content"@) == Some(t) {
        assert(system_texts(seq![message]) =~= seq![t]);
    }
}

} // verus!
