//! The adapter of the Anthropic messages service.

use vstd::prelude::*;

use crate::json::{items_view, json_text, parsed_json};
use crate::json::{Json, JsonNumber, JsonView, Object};
use crate::model::messages::{
    copy_or_null, extend_items, make_object1, make_object2, make_object3, make_pending_call_items,
};
use crate::model::messages::{
    object1, object2, object3, or_empty, pending_call_items, str_json, with_field,
};
use crate::model::openai::{apply_overrides, filled_text, non_empty, parse_body, trim_slashes};
use crate::model::openai::{
    filled, kept_text, or_else, output_result, overridden, parse_error_text, told, without_slashes,
};
use crate::model::responses::{call_with, make_call};
use crate::model::sse::{data_of_line, split_lines};
use crate::model::sse::{ended_lines, law_cuts_do_not_change_lines, line_data, open_line};
use crate::model::types::{
    call_views, message_views, part_views, stream_views, tool_views, CallView, MessageView,
    OutputView, PartView, StreamView, ToolView,
};
use crate::model::types::{
    emit, GenerateOutput, GenerateRequest, MessagePart, ModelError, ModelErrorKind, ModelMessage,
    ModelRole, ModelTool, ModelUsage, PendingToolCall, ProviderCapabilities, StreamPart,
};
use crate::settings::ModelProvider;
use crate::text::{concat2, concat3, copy_str, is_blank, join, list_contains, str_eq};
use crate::text::{is_blank_text, joined, opt_str, opt_text, strings};
use crate::usage::{anthropic_usage, model_usage_from_anthropic_value};

verus! {

/// The messages service of a provider.
#[derive(Debug)]
pub struct AnthropicMessagesProvider<'a> {
    pub provider: &'a ModelProvider,
    pub retry_attempts: usize,
}

// ---------------------------------------------------------------------
// Requests
// ---------------------------------------------------------------------

/// The input of a tool call: its arguments, or what their text stands for.
pub open spec fn tool_input(arguments: JsonView, raw: Seq<char>) -> JsonView {
    if arguments is Null {
        match parsed_json(raw) {
            Ok(v) => v,
            Err(_) => JsonView::Null,
        }
    } else {
        arguments
    }
}

/// The block of content that a part is in a message of the given role.
pub open spec fn content_block(part: PartView, role: ModelRole) -> Option<JsonView> {
    match part {
        PartView::Text { text } => Some(
            object2("type"@, str_json("text"@), "text"@, str_json(text)),
        ),
        PartView::Image { mime_type, data } => if role == ModelRole::User {
            Some(
                object2(
                    "type"@,
                    str_json("image"@),
                    "source"@,
                    object3(
                        "type"@,
                        str_json("base64"@),
                        "media_type"@,
                        str_json(mime_type),
                        "data"@,
                        str_json(data),
                    ),
                ),
            )
        } else {
            None
        },
        PartView::ImageUrl { url } => if role == ModelRole::User {
            Some(
                object2(
                    "type"@,
                    str_json("image"@),
                    "source"@,
                    object2("type"@, str_json("url"@), "url"@, str_json(url)),
                ),
            )
        } else {
            None
        },
        PartView::ToolCall { id, name, arguments, arguments_raw, .. } => if role
            == ModelRole::Assistant {
            Some(
                JsonView::Object(
                    Map::empty().insert("type"@, str_json("tool_use"@)).insert(
                        "id"@,
                        str_json(id),
                    ).insert("name"@, str_json(name)).insert(
                        "input"@,
                        tool_input(arguments, arguments_raw),
                    ),
                ),
            )
        } else {
            None
        },
        PartView::ToolResult { tool_call_id, content, is_error, .. } => Some(
            JsonView::Object(
                Map::empty().insert("type"@, str_json("tool_result"@)).insert(
                    "tool_use_id"@,
                    str_json(tool_call_id),
                ).insert("content"@, str_json(content)).insert(
                    "is_error"@,
                    JsonView::Bool(is_error),
                ),
            ),
        ),
        PartView::Reasoning { text } => if role == ModelRole::Assistant {
            Some(object2("type"@, str_json("thinking"@), "thinking"@, str_json(text)))
        } else {
            None
        },
    }
}

/// The blocks that the parts are, in order.
pub open spec fn blocks_of(parts: Seq<PartView>, role: ModelRole) -> Seq<JsonView>
    decreases parts.len(),
{
    if parts.len() == 0 {
        Seq::empty()
    } else {
        let before = blocks_of(parts.drop_last(), role);
        match content_block(parts.last(), role) {
            Some(b) => before.push(b),
            None => before,
        }
    }
}

/// The content of a message: its blocks, or an empty text.
pub open spec fn content_blocks(message: MessageView) -> Seq<JsonView> {
    let blocks = blocks_of(message.content, message.role);
    if blocks.len() == 0 {
        seq![object2("type"@, str_json("text"@), "text"@, str_json(Seq::empty()))]
    } else {
        blocks
    }
}

fn make_block(part: &MessagePart, role: ModelRole) -> (r: Option<Json>)
    ensures
        crate::json::opt_json(r) == content_block(part@, role),
{
    match part {
        MessagePart::Text { text } => Some(
            make_object2("type", Json::string("text"), "text", Json::string(text.as_str())),
        ),
        MessagePart::Image { mime_type, data } => if role == ModelRole::User {
            let source = make_object3(
                "type",
                Json::string("base64"),
                "media_type",
                Json::string(mime_type.as_str()),
                "data",
                Json::string(data.as_str()),
            );
            Some(make_object2("type", Json::string("image"), "source", source))
        } else {
            None
        },
        MessagePart::ImageUrl { url } => if role == ModelRole::User {
            let source = make_object2(
                "type",
                Json::string("url"),
                "url",
                Json::string(url.as_str()),
            );
            Some(make_object2("type", Json::string("image"), "source", source))
        } else {
            None
        },
        MessagePart::ToolCall { id, name, arguments, arguments_raw, .. } => if role
            == ModelRole::Assistant {
            let input = if arguments.is_null() {
                match Json::parse(arguments_raw.as_str()) {
                    Ok(v) => v,
                    Err(_) => Json::Null,
                }
            } else {
                arguments.copy()
            };
            let mut o = Object::new();
            o.set("type", Json::string("tool_use"));
            o.set("id", Json::string(id.as_str()));
            o.set("name", Json::string(name.as_str()));
            o.set("input", input);
            Some(Json::Object(o))
        } else {
            None
        },
        MessagePart::ToolResult { tool_call_id, content, is_error, .. } => {
            let mut o = Object::new();
            o.set("type", Json::string("tool_result"));
            o.set("tool_use_id", Json::string(tool_call_id.as_str()));
            o.set("content", Json::string(content.as_str()));
            o.set("is_error", Json::Bool(*is_error));
            Some(Json::Object(o))
        },
        MessagePart::Reasoning { text } => if role == ModelRole::Assistant {
            Some(
                make_object2(
                    "type",
                    Json::string("thinking"),
                    "thinking",
                    Json::string(text.as_str()),
                ),
            )
        } else {
            None
        },
    }
}

/// The content of a message.
pub fn anthropic_content_blocks(message: &ModelMessage) -> (r: Vec<Json>)
    ensures
        items_view(r@) == content_blocks(message@),
{
    let ghost all = message@.content;
    let mut out: Vec<Json> = Vec::new();
    assert(items_view(out@) == Seq::<JsonView>::empty());
    assert(all.take(0) == Seq::<PartView>::empty());
    let mut i: usize = 0;
    while i < message.content.len()
        invariant
            i <= message.content@.len(),
            all == part_views(message.content@),
            items_view(out@) == blocks_of(all.take(i as int), message.role),
        decreases message.content@.len() - i,
    {
        let ghost before = out@;
        assert(all.take(i + 1).drop_last() == all.take(i as int));
        assert(all.take(i + 1).last() == message.content@[i as int]@);
        if let Some(b) = make_block(&message.content[i], message.role) {
            out.push(b);
            assert(items_view(out@) == items_view(before).push(b@));
        }
        i += 1;
    }
    assert(all.take(all.len() as int) == all);
    assert(items_view(out@).len() == out@.len());
    if out.len() == 0 {
        let nothing = String::new();
        assert(nothing@ == Seq::<char>::empty());
        let b = make_object2("type", Json::string("text"), "text", Json::Str(nothing));
        out.push(b);
        assert(items_view(out@) == seq![b@]);
    }
    out
}

/// A message, those of tools as the user's.
pub open spec fn anthropic_message(message: MessageView) -> JsonView {
    object2(
        "role"@,
        str_json(
            if message.role == ModelRole::Assistant {
                "assistant"@
            } else {
                "user"@
            },
        ),
        "content"@,
        JsonView::Array(content_blocks(message)),
    )
}

/// The role of a JSON message, or the empty text.
pub open spec fn role_name(message: JsonView) -> Seq<char> {
    or_empty(message.field_text("role"@))
}

/// The list under `key` of a JSON message, or none.
pub open spec fn content_list(message: JsonView, key: Seq<char>) -> Seq<JsonView> {
    match message.field_items(key) {
        Some(items) => items,
        None => Seq::empty(),
    }
}

/// A message with more under `key`, where a list stands there.
pub open spec fn content_extended(
    message: JsonView,
    key: Seq<char>,
    more: Seq<JsonView>,
) -> JsonView {
    match (message, message.field_items(key)) {
        (JsonView::Object(m), Some(items)) => JsonView::Object(
            m.insert(key, JsonView::Array(items + more)),
        ),
        _ => message,
    }
}

/// The messages with neighbours of one role made one; their content stands under
/// `key`.
pub open spec fn roles_merged(messages: Seq<JsonView>, key: Seq<char>) -> Seq<JsonView>
    decreases messages.len(),
{
    if messages.len() == 0 {
        Seq::empty()
    } else {
        let before = roles_merged(messages.drop_last(), key);
        let last = messages.last();
        if before.len() > 0 && role_name(before.last()) == role_name(last) {
            before.drop_last().push(content_extended(before.last(), key, content_list(last, key)))
        } else {
            before.push(last)
        }
    }
}

fn copy_content_list(message: &Json, key: &str) -> (r: Vec<Json>)
    ensures
        items_view(r@) == content_list(message@, key@),
{
    match message.get_array(key) {
        Some(items) => crate::json::copy_items(items),
        None => {
            let none: Vec<Json> = Vec::new();
            assert(items_view(none@) == Seq::<JsonView>::empty());
            none
        },
    }
}

fn extend_content(message: Json, key: &str, more: Vec<Json>) -> (r: Json)
    ensures
        r@ == content_extended(message@, key@, items_view(more@)),
{
    let items = match message.get_array(key) {
        Some(items) => crate::json::copy_items(items),
        None => {
            return message;
        },
    };
    match message {
        Json::Object(o) => {
            let mut object = o;
            let mut list = items;
            extend_items(&mut list, more);
            object.set(key, Json::Array(list));
            Json::Object(object)
        },
        other => other,
    }
}

fn same_role(a: &Json, b: &Json) -> (r: bool)
    ensures
        r == (role_name(a@) == role_name(b@)),
{
    let x = match a.get_str("role") {
        Some(t) => copy_str(t),
        None => String::new(),
    };
    let y = match b.get_str("role") {
        Some(t) => copy_str(t),
        None => String::new(),
    };
    str_eq(x.as_str(), y.as_str())
}

/// Makes neighbours of one role one message; their content stands under `key`.
pub fn merge_roles(messages: &Vec<Json>, key: &str) -> (r: Vec<Json>)
    ensures
        items_view(r@) == roles_merged(items_view(messages@), key@),
{
    let ghost all = items_view(messages@);
    let mut out: Vec<Json> = Vec::new();
    assert(items_view(out@) == Seq::<JsonView>::empty());
    assert(all.take(0) == Seq::<JsonView>::empty());
    let mut i: usize = 0;
    while i < messages.len()
        invariant
            i <= messages@.len(),
            all == items_view(messages@),
            items_view(out@) == roles_merged(all.take(i as int), key@),
        decreases messages@.len() - i,
    {
        let ghost before = out@;
        assert(all.take(i + 1).drop_last() == all.take(i as int));
        assert(all.take(i + 1).last() == messages@[i as int]@);
        assert(items_view(before).len() == before.len());
        let n: usize = out.len();
        if n > 0 && same_role(&out[n - 1], &messages[i]) {
            assert(items_view(before).last() == before[n - 1]@);
            if let Some(last) = out.pop() {
                assert(items_view(out@) == items_view(before).drop_last());
                let ghost mid = out@;
                let more = copy_content_list(&messages[i], key);
                let joined_message = extend_content(last, key, more);
                out.push(joined_message);
                assert(items_view(out@) == items_view(mid).push(joined_message@));
            }
        } else {
            if n > 0 {
                assert(items_view(before).last() == before[n - 1]@);
            }
            let m = messages[i].copy();
            out.push(m);
            assert(items_view(out@) == items_view(before).push(m@));
        }
        i += 1;
    }
    assert(all.take(all.len() as int) == all);
    out
}

/// Makes neighbours of one role one message.
pub fn merge_consecutive_anthropic_roles(messages: &Vec<Json>) -> (r: Vec<Json>)
    ensures
        items_view(r@) == roles_merged(items_view(messages@), "content"@),
{
    merge_roles(messages, "content")
}

/// The messages of a request.
pub open spec fn anthropic_messages(messages: Seq<MessageView>) -> Seq<JsonView> {
    roles_merged(
        Seq::new(messages.len(), |i: int| anthropic_message(messages[i])),
        "content"@,
    )
}

/// The messages of a request: tool results are the user's, and neighbours of one
/// role are one message.
pub fn anthropic_messages_from_generate_request(request: &GenerateRequest) -> (r: Vec<Json>)
    ensures
        items_view(r@) == anthropic_messages(message_views(request.messages@)),
{
    let ghost all = message_views(request.messages@);
    let ghost each = Seq::new(all.len(), |i: int| anthropic_message(all[i]));
    let mut out: Vec<Json> = Vec::new();
    let mut i: usize = 0;
    while i < request.messages.len()
        invariant
            i <= request.messages@.len(),
            all == message_views(request.messages@),
            each == Seq::new(all.len(), |i: int| anthropic_message(all[i])),
            items_view(out@) == each.take(i as int),
        decreases request.messages@.len() - i,
    {
        let ghost before = out@;
        let message = &request.messages[i];
        let role = if message.role == ModelRole::Assistant {
            "assistant"
        } else {
            "user"
        };
        let m = make_object2(
            "role",
            Json::string(role),
            "content",
            Json::Array(anthropic_content_blocks(message)),
        );
        out.push(m);
        assert(m@ == each[i as int]);
        assert(items_view(out@) == items_view(before).push(m@));
        i += 1;
    }
    assert(each.take(all.len() as int) == each);
    merge_consecutive_anthropic_roles(&out)
}

/// After merging, neighbours differ in role: the service takes turns.
pub proof fn law_merged_roles_alternate(messages: Seq<JsonView>, key: Seq<char>, i: int)
    requires
        key != "role"@,
        0 < i < roles_merged(messages, key).len(),
    ensures
        role_name(roles_merged(messages, key)[i - 1]) != role_name(roles_merged(messages, key)[i]),
    decreases messages.len(),
{
    if messages.len() > 0 {
        let before = roles_merged(messages.drop_last(), key);
        let last = messages.last();
        if before.len() > 0 && role_name(before.last()) == role_name(last) {
            let ext = content_extended(before.last(), key, content_list(last, key));
            assert(role_name(ext) == role_name(before.last()));
            law_merged_roles_alternate(messages.drop_last(), key, i);
        } else if i < before.len() {
            law_merged_roles_alternate(messages.drop_last(), key, i);
        }
    }
}

// ---------------------------------------------------------------------
// Tools
// ---------------------------------------------------------------------

/// An item of type `null`.
pub open spec fn null_type(item: JsonView) -> bool {
    item.field_text("type"@) == Some("null"@)
}

/// The one alternative of a schema that may also be null, where there is one.
pub open spec fn nullable_of(schema: JsonView) -> Option<JsonView> {
    match schema.field_items("anyOf"@) {
        Some(any_of) => if any_of.len() == 2 && (null_type(any_of[0]) || null_type(any_of[1])) {
            if !null_type(any_of[0]) {
                Some(any_of[0])
            } else if !null_type(any_of[1]) {
                Some(any_of[1])
            } else {
                None
            }
        } else {
            None
        },
        None => None,
    }
}

/// A value with a description; null becomes an object of it alone.
pub open spec fn described(value: JsonView, description: Option<JsonView>) -> JsonView {
    match description {
        None => value,
        Some(d) => match value {
            JsonView::Object(m) => JsonView::Object(m.insert("description"@, d)),
            JsonView::Null => object1("description"@, d),
            other => other,
        },
    }
}

/// Where a schema is one that may be null, and has a description, its other
/// alternative can take the description.
pub open spec fn schema_describable(schema: JsonView) -> bool {
    match nullable_of(schema) {
        Some(v) => schema.field("description"@) is None || v is Object || v is Null,
        None => true,
    }
}

/// A schema as the service takes it: one that may be null is the other
/// alternative, and an object has properties.
pub open spec fn schema_normalized(schema: JsonView) -> JsonView {
    match nullable_of(schema) {
        Some(v) => described(v, schema.field("description"@)),
        None => match schema {
            JsonView::Object(m) => if schema.field_text("type"@) == Some("object"@)
                && !m.contains_key("properties"@) {
                JsonView::Object(m.insert("properties"@, JsonView::Object(Map::empty())))
            } else {
                schema
            },
            _ => schema,
        },
    }
}

fn describe(value: &Json, description: Option<&Json>) -> (r: Json)
    ensures
        r@ == described(value@, crate::json::opt_ref(description)),
{
    match description {
        None => value.copy(),
        Some(d) => match value {
            Json::Object(o) => {
                let mut object = o.copy();
                object.set("description", d.copy());
                Json::Object(object)
            },
            Json::Null => make_object1("description", d.copy()),
            _ => value.copy(),
        },
    }
}

/// The one alternative of a schema that may also be null, where there is one.
pub fn other_than_null<'a>(schema: &'a Json) -> (r: Option<&'a Json>)
    ensures
        crate::json::opt_ref(r) == nullable_of(schema@),
        r is Some ==> decreases_to!(schema => r->0),
{
    match schema.get_array("anyOf") {
        Some(any_of) => {
            assert(items_view(any_of@).len() == any_of@.len());
            if any_of.len() != 2 {
                return None;
            }
            assert(decreases_to!(any_of => any_of@[0]));
            assert(decreases_to!(any_of => any_of@[1]));
            assert(items_view(any_of@)[0] == any_of@[0]@);
            assert(items_view(any_of@)[1] == any_of@[1]@);
            let first = any_of[0].field_is("type", "null");
            let second = any_of[1].field_is("type", "null");
            if first && !second {
                Some(&any_of[1])
            } else if second && !first {
                Some(&any_of[0])
            } else {
                None
            }
        },
        None => None,
    }
}

/// A schema as the service takes it.
pub fn normalize_anthropic_schema(schema: &Json) -> (r: Json)
    requires
        schema_describable(schema@),
    ensures
        r@ == schema_normalized(schema@),
{
    if let Some(v) = other_than_null(schema) {
        return describe(v, schema.get("description"));
    }
    match schema {
        Json::Object(o) => {
            if schema.field_is("type", "object") && o.get("properties").is_none() {
                let mut object = o.copy();
                object.set("properties", Json::Object(Object::new()));
                Json::Object(object)
            } else {
                schema.copy()
            }
        },
        _ => schema.copy(),
    }
}

/// A tool as the service takes it.
pub open spec fn anthropic_tool(tool: ToolView) -> JsonView {
    object3(
        "name"@,
        str_json(tool.call_name()),
        "description"@,
        str_json(tool.description),
        "input_schema"@,
        schema_normalized(tool.input_schema),
    )
}

/// The tools as the service takes them, and the names they have: the first of a
/// name counts, and one without a name is left out.
pub open spec fn anthropic_tools(tools: Seq<ToolView>) -> (Seq<JsonView>, Seq<Seq<char>>)
    decreases tools.len(),
{
    if tools.len() == 0 {
        (Seq::empty(), Seq::empty())
    } else {
        let before = anthropic_tools(tools.drop_last());
        let name = tools.last().call_name();
        if name.len() == 0 || before.1.contains(name) {
            before
        } else {
            (before.0.push(anthropic_tool(tools.last())), before.1.push(name))
        }
    }
}

/// The schemas of the tools can be normalized.
pub open spec fn tools_describable(tools: Seq<ToolView>) -> bool {
    forall|i: int| 0 <= i < tools.len() ==> schema_describable((#[trigger] tools[i]).input_schema)
}

/// Whether the schemas of the tools can be normalized.
pub fn can_describe_tools(tools: &Vec<ModelTool>) -> (r: bool)
    ensures
        r == tools_describable(tool_views(tools@)),
{
    let ghost all = tool_views(tools@);
    let mut i: usize = 0;
    while i < tools.len()
        invariant
            i <= tools@.len(),
            all == tool_views(tools@),
            forall|j: int| 0 <= j < i ==> schema_describable((#[trigger] all[j]).input_schema),
        decreases tools@.len() - i,
    {
        assert(all[i as int] == tools@[i as int]@);
        let schema = &tools[i].input_schema;
        if let Some(v) = other_than_null(schema) {
            let takes = match v {
                Json::Object(_) => true,
                Json::Null => true,
                _ => false,
            };
            if schema.get("description").is_some() && !takes {
                assert(!schema_describable(all[i as int].input_schema));
                return false;
            }
        }
        i += 1;
    }
    true
}

/// The tools as the service takes them.
pub fn anthropic_tools_from_model_tools(tools: &Vec<ModelTool>) -> (r: Vec<Json>)
    requires
        tools_describable(tool_views(tools@)),
    ensures
        items_view(r@) == anthropic_tools(tool_views(tools@)).0,
{
    let ghost all = tool_views(tools@);
    let mut out: Vec<Json> = Vec::new();
    let mut names: Vec<String> = Vec::new();
    assert(items_view(out@) == Seq::<JsonView>::empty());
    assert(strings(names@) == Seq::<Seq<char>>::empty());
    assert(all.take(0) == Seq::<ToolView>::empty());
    let mut i: usize = 0;
    while i < tools.len()
        invariant
            i <= tools@.len(),
            all == tool_views(tools@),
            tools_describable(all),
            (items_view(out@), strings(names@)) == anthropic_tools(all.take(i as int)),
        decreases tools@.len() - i,
    {
        let ghost out_before = out@;
        let ghost names_before = names@;
        assert(all.take(i + 1).drop_last() == all.take(i as int));
        assert(all.take(i + 1).last() == tools@[i as int]@);
        assert(schema_describable(all[i as int].input_schema));
        let name = tools[i].openai_tool_name();
        if !name.as_str().is_empty() && !list_contains(&names, name.as_str()) {
            let tool = make_object3(
                "name",
                Json::string(name.as_str()),
                "description",
                Json::string(tools[i].description.as_str()),
                "input_schema",
                normalize_anthropic_schema(&tools[i].input_schema),
            );
            out.push(tool);
            names.push(name);
            assert(items_view(out@) == items_view(out_before).push(tool@));
            assert(strings(names@) == strings(names_before).push(name@));
        }
        i += 1;
    }
    assert(all.take(all.len() as int) == all);
    out
}

/// A level of thinking that the user chose.
pub open spec fn chosen_level(level: Option<String>) -> Option<Seq<char>> {
    match level {
        Some(l) => if l@.len() > 0 {
            Some(l@)
        } else {
            None
        },
        None => None,
    }
}

/// The body of a request; the user's own fields come last and win.
pub open spec fn anthropic_body(request: GenerateRequest, stream: bool) -> JsonView {
    let base = Map::empty().insert("model"@, str_json(request.model@)).insert(
        "messages"@,
        JsonView::Array(anthropic_messages(message_views(request.messages@))),
    ).insert(
        "max_tokens"@,
        JsonView::Number(JsonNumber::Unsigned(request.options.max_tokens as u64)),
    );
    let instructed = with_field(
        base,
        "system"@,
        if is_blank_text(request.system@) {
            None
        } else {
            Some(str_json(request.system@))
        },
    );
    let streamed = with_field(
        instructed,
        "stream"@,
        if stream {
            Some(JsonView::Bool(true))
        } else {
            None
        },
    );
    let tools = anthropic_tools(tool_views(request.tools@)).0;
    let tooled = with_field(
        streamed,
        "tools"@,
        if tools.len() > 0 {
            Some(JsonView::Array(tools))
        } else {
            None
        },
    );
    let thought = match chosen_level(request.options.thinking_level) {
        Some(level) => tooled.insert("thinking"@, object1("type"@, str_json("adaptive"@))).insert(
            "output_config"@,
            object1("effort"@, str_json(level)),
        ),
        None => tooled,
    };
    JsonView::Object(overridden(thought, request.options.provider_options@))
}

/// Where requests go.
pub fn anthropic_messages_url(base_url: &str) -> (r: String)
    ensures
        r@ == without_slashes(base_url@) + "/messages"@,
{
    let base = trim_slashes(base_url);
    concat2(base.as_str(), "/messages")
}

impl<'a> AnthropicMessagesProvider<'a> {
    pub fn new(provider: &'a ModelProvider, retry_attempts: usize) -> (r: AnthropicMessagesProvider<
        'a,
    >)
        ensures
            r.provider == provider,
            r.retry_attempts == retry_attempts,
    {
        AnthropicMessagesProvider { provider, retry_attempts }
    }

    /// What the service can do.
    pub fn capabilities(&self) -> (r: ProviderCapabilities)
        ensures
            r == (ProviderCapabilities {
                tool_calling: self.provider.supports_tools,
                vision: true,
                streaming: true,
                reasoning: true,
            }),
    {
        ProviderCapabilities {
            tool_calling: self.provider.supports_tools,
            vision: true,
            streaming: true,
            reasoning: true,
        }
    }

    /// The body of a request.
    pub fn request_body(&self, request: &GenerateRequest, stream: bool) -> (r: Json)
        requires
            tools_describable(tool_views(request.tools@)),
        ensures
            r@ == anthropic_body(*request, stream),
    {
        let mut o = Object::new();
        o.set("model", Json::string(request.model.as_str()));
        o.set("messages", Json::Array(anthropic_messages_from_generate_request(request)));
        o.set("max_tokens", Json::unsigned(request.options.max_tokens as u64));
        if !is_blank(request.system.as_str()) {
            o.set("system", Json::string(request.system.as_str()));
        }
        if stream {
            o.set("stream", Json::Bool(true));
        }
        let tools = anthropic_tools_from_model_tools(&request.tools);
        assert(items_view(tools@).len() == tools@.len());
        if tools.len() > 0 {
            o.set("tools", Json::Array(tools));
        }
        if let Some(level) = &request.options.thinking_level {
            if !level.as_str().is_empty() {
                o.set("thinking", make_object1("type", Json::string("adaptive")));
                o.set("output_config", make_object1("effort", Json::string(level.as_str())));
            }
        }
        apply_overrides(&mut o, &request.options.provider_options);
        Json::Object(o)
    }
}

// ---------------------------------------------------------------------
// Replies
// ---------------------------------------------------------------------

/// Why a reply ended, in the words of chat completions.
pub open spec fn stop_reason_text(reason: Seq<char>) -> Seq<char> {
    if reason == "tool_use"@ {
        "tool_calls"@
    } else if reason == "max_tokens"@ {
        "length"@
    } else {
        "stop"@
    }
}

/// Why a reply ended, in the words of chat completions.
pub fn finish_reason_from_anthropic_stop_reason(reason: &str) -> (r: String)
    ensures
        r@ == stop_reason_text(reason@),
{
    if str_eq(reason, "tool_use") {
        copy_str("tool_calls")
    } else if str_eq(reason, "max_tokens") {
        copy_str("length")
    } else {
        copy_str("stop")
    }
}

/// A reply as a message of chat completions, with the reason why it ended.
pub open spec fn compatible_message(
    text: Seq<char>,
    reasoning: Option<Seq<char>>,
    calls: Seq<JsonView>,
    finish_reason: Seq<char>,
) -> JsonView {
    let base = Map::empty().insert("role"@, str_json("assistant"@)).insert(
        "content"@,
        if text.len() == 0 {
            JsonView::Null
        } else {
            str_json(text)
        },
    );
    let thought = with_field(
        base,
        "reasoning_content"@,
        match reasoning {
            Some(t) => match kept_text(t) {
                Some(kept) => Some(str_json(kept)),
                None => None,
            },
            None => None,
        },
    );
    let called = with_field(
        thought,
        "tool_calls"@,
        if calls.len() > 0 {
            Some(JsonView::Array(calls))
        } else {
            None
        },
    );
    JsonView::Object(called.insert("finish_reason"@, str_json(finish_reason)))
}

/// A reply as a message of chat completions; `calls` are its tool calls written
/// out.
pub fn openai_compatible_message(
    text: &str,
    reasoning: &Option<String>,
    calls: Vec<Json>,
    finish_reason: &str,
) -> (r: Json)
    ensures
        r@ == compatible_message(
            text@,
            opt_text(*reasoning),
            items_view(calls@),
            finish_reason@,
        ),
{
    assert(items_view(calls@).len() == calls@.len());
    let mut o = Object::new();
    o.set("role", Json::string("assistant"));
    o.set(
        "content",
        if text.is_empty() {
            Json::Null
        } else {
            Json::string(text)
        },
    );
    if let Some(t) = reasoning {
        if let Some(kept) = non_empty(t.as_str()) {
            o.set("reasoning_content", Json::Str(kept));
        }
    }
    if calls.len() > 0 {
        o.set("tool_calls", Json::Array(calls));
    }
    o.set("finish_reason", Json::string(finish_reason));
    Json::Object(o)
}

/// What the blocks of a reply hold: texts, thoughts and tool calls.
#[verifier::ext_equal]
pub struct BlocksView {
    pub texts: Seq<Seq<char>>,
    pub thoughts: Seq<Seq<char>>,
    pub calls: Seq<CallView>,
}

/// The tool call that a block is.
pub open spec fn block_call(block: JsonView) -> CallView {
    let input = match block.field("input"@) {
        Some(v) => v,
        None => JsonView::Null,
    };
    CallView {
        id: or_empty(block.field_text("id"@)),
        function_name: or_empty(block.field_text("name"@)),
        arguments: if input is Null {
            JsonView::Object(Map::empty())
        } else {
            input
        },
        arguments_raw: if input is Null {
            "{}"@
        } else {
            json_text(input)
        },
        arguments_parse_error: None,
        signature: None,
    }
}

/// What the blocks of a reply hold, in order.
pub open spec fn blocks_read(blocks: Seq<JsonView>) -> BlocksView
    decreases blocks.len(),
{
    if blocks.len() == 0 {
        BlocksView { texts: Seq::empty(), thoughts: Seq::empty(), calls: Seq::empty() }
    } else {
        let before = blocks_read(blocks.drop_last());
        let block = blocks.last();
        if block.field_text("type"@) == Some("text"@) {
            match filled(block.field("text"@)) {
                Some(t) => BlocksView { texts: before.texts.push(t), ..before },
                None => before,
            }
        } else if block.field_text("type"@) == Some("thinking"@) {
            match filled(block.field("thinking"@)) {
                Some(t) => BlocksView { thoughts: before.thoughts.push(t), ..before },
                None => before,
            }
        } else if block.field_text("type"@) == Some("tool_use"@) {
            BlocksView { calls: before.calls.push(block_call(block)), ..before }
        } else {
            before
        }
    }
}

/// The reply that a message of the service is.
pub open spec fn message_output(value: JsonView, label: Seq<char>) -> Result<
    OutputView,
    Seq<char>,
> {
    match value.field("error"@) {
        Some(error) => Err(
            label + ": "@ + match error.field_text("message"@) {
                Some(m) => m,
                None => "Unknown Anthropic error"@,
            },
        ),
        None => {
            let blocks = blocks_read(
                match value.field_items("content"@) {
                    Some(items) => items,
                    None => Seq::empty(),
                },
            );
            let text = joined(blocks.texts, "\n\n"@);
            let reasoning = if blocks.thoughts.len() == 0 {
                None
            } else {
                Some(joined(blocks.thoughts, "\n\n"@))
            };
            let reason = stop_reason_text(
                match value.field_text("stop_reason"@) {
                    Some(t) => t,
                    None => "end_turn"@,
                },
            );
            Ok(
                OutputView {
                    text,
                    reasoning,
                    tool_calls: blocks.calls,
                    usage: anthropic_usage(value),
                    finish_reason: Some(reason),
                    provider_messages: seq![
                        compatible_message(
                            text,
                            reasoning,
                            pending_call_items(blocks.calls),
                            reason,
                        ),
                    ],
                    cancelled: false,
                },
            )
        },
    }
}

struct Blocks {
    texts: Vec<String>,
    thoughts: Vec<String>,
    calls: Vec<PendingToolCall>,
}

fn parse_block_call(block: &Json) -> (r: PendingToolCall)
    ensures
        r@ == block_call(block@),
{
    let input = copy_or_null(block.get("input"));
    let id = match block.get_str("id") {
        Some(t) => copy_str(t),
        None => String::new(),
    };
    let function_name = match block.get_str("name") {
        Some(t) => copy_str(t),
        None => String::new(),
    };
    let missing = input.is_null();
    let arguments_raw = if missing {
        copy_str("{}")
    } else {
        input.to_text()
    };
    PendingToolCall {
        id,
        function_name,
        arguments: if missing {
            Json::Object(Object::new())
        } else {
            input
        },
        arguments_raw,
        arguments_parse_error: None,
        signature: None,
    }
}

fn read_blocks(blocks: &Vec<Json>) -> (r: Blocks)
    ensures
        blocks_read(items_view(blocks@)) == (BlocksView {
            texts: strings(r.texts@),
            thoughts: strings(r.thoughts@),
            calls: call_views(r.calls@),
        }),
{
    let ghost all = items_view(blocks@);
    let mut texts: Vec<String> = Vec::new();
    let mut thoughts: Vec<String> = Vec::new();
    let mut calls: Vec<PendingToolCall> = Vec::new();
    assert(strings(texts@) == Seq::<Seq<char>>::empty());
    assert(strings(thoughts@) == Seq::<Seq<char>>::empty());
    assert(call_views(calls@) == Seq::<CallView>::empty());
    assert(all.take(0) == Seq::<JsonView>::empty());
    let mut i: usize = 0;
    while i < blocks.len()
        invariant
            i <= blocks@.len(),
            all == items_view(blocks@),
            blocks_read(all.take(i as int)) == (BlocksView {
                texts: strings(texts@),
                thoughts: strings(thoughts@),
                calls: call_views(calls@),
            }),
        decreases blocks@.len() - i,
    {
        let ghost texts_before = texts@;
        let ghost thoughts_before = thoughts@;
        let ghost calls_before = calls@;
        assert(all.take(i + 1).drop_last() == all.take(i as int));
        assert(all.take(i + 1).last() == blocks@[i as int]@);
        let block = &blocks[i];
        if block.field_is("type", "text") {
            if let Some(t) = filled_text(block.get("text")) {
                texts.push(t);
                assert(strings(texts@) == strings(texts_before).push(t@));
            }
        } else if block.field_is("type", "thinking") {
            if let Some(t) = filled_text(block.get("thinking")) {
                thoughts.push(t);
                assert(strings(thoughts@) == strings(thoughts_before).push(t@));
            }
        } else if block.field_is("type", "tool_use") {
            let call = parse_block_call(block);
            calls.push(call);
            assert(call_views(calls@) == call_views(calls_before).push(call@));
        }
        i += 1;
    }
    assert(all.take(all.len() as int) == all);
    Blocks { texts, thoughts, calls }
}

/// A reply made of its parts, with its message of chat completions.
fn make_output(
    text: String,
    reasoning: Option<String>,
    tool_calls: Vec<PendingToolCall>,
    finish_reason: String,
    usage: Option<ModelUsage>,
) -> (r: GenerateOutput)
    ensures
        r@ == (OutputView {
            text: text@,
            reasoning: opt_text(reasoning),
            tool_calls: call_views(tool_calls@),
            usage,
            finish_reason: Some(finish_reason@),
            provider_messages: seq![
                compatible_message(
                    text@,
                    opt_text(reasoning),
                    pending_call_items(call_views(tool_calls@)),
                    finish_reason@,
                ),
            ],
            cancelled: false,
        }),
{
    let calls = make_pending_call_items(&tool_calls);
    let message = openai_compatible_message(
        text.as_str(),
        &reasoning,
        calls,
        finish_reason.as_str(),
    );
    let mut provider_messages: Vec<Json> = Vec::new();
    provider_messages.push(message);
    assert(items_view(provider_messages@) == seq![message@]);
    GenerateOutput {
        text,
        reasoning,
        tool_calls,
        usage,
        finish_reason: Some(finish_reason),
        provider_messages,
        cancelled: false,
    }
}

/// The reply that a message of the service is.
pub fn output_from_anthropic_message(value: &Json, label: &str) -> (r: Result<
    GenerateOutput,
    ModelError,
>)
    ensures
        output_result(r) == message_output(value@, label@),
        r is Err ==> r->Err_0.kind == ModelErrorKind::Other,
{
    if let Some(error) = value.get("error") {
        let message = match error.get_str("message") {
            Some(m) => m,
            None => "Unknown Anthropic error",
        };
        return Err(ModelError::new(concat3(label, ": ", message).as_str()));
    }
    let none: Vec<Json> = Vec::new();
    assert(items_view(none@) == Seq::<JsonView>::empty());
    let blocks = match value.get_array("content") {
        Some(items) => read_blocks(items),
        None => read_blocks(&none),
    };
    let text = join(&blocks.texts, "\n\n");
    assert(strings(blocks.thoughts@).len() == blocks.thoughts@.len());
    let reasoning = if blocks.thoughts.len() == 0 {
        None
    } else {
        Some(join(&blocks.thoughts, "\n\n"))
    };
    let stop = match value.get_str("stop_reason") {
        Some(t) => t,
        None => "end_turn",
    };
    let reason = finish_reason_from_anthropic_stop_reason(stop);
    Ok(make_output(text, reasoning, blocks.calls, reason, model_usage_from_anthropic_value(value)))
}

/// The reply that the body of a response is.
pub fn output_from_body(raw: &str, label: &str) -> (r: Result<GenerateOutput, ModelError>)
    ensures
        match parsed_json(raw@) {
            Ok(value) => output_result(r) == message_output(value, label@),
            Err(e) => output_result(r) == Err::<OutputView, Seq<char>>(
                parse_error_text(label@, e, raw@),
            ),
        },
{
    match parse_body(raw, label) {
        Ok(value) => output_from_anthropic_message(&value, label),
        Err(e) => Err(e),
    }
}

// ---------------------------------------------------------------------
// Streams: events
// ---------------------------------------------------------------------

/// What a line of the stream tells.
#[derive(Debug)]
pub enum AnthropicSseEvent {
    TextDelta(String),
    ThinkingDelta(String),
    ToolUseStart { id: String, name: String },
    ToolInputDelta(String),
    ContentBlockStop,
    MessageStop,
    MessageStopWithReason { reason: String, usage: Option<ModelUsage> },
    Error(String),
}

/// The value of what a line tells.
#[verifier::ext_equal]
pub enum EventView {
    TextDelta(Seq<char>),
    ThinkingDelta(Seq<char>),
    ToolUseStart { id: Seq<char>, name: Seq<char> },
    ToolInputDelta(Seq<char>),
    ContentBlockStop,
    MessageStop,
    MessageStopWithReason { reason: Seq<char>, usage: Option<ModelUsage> },
    Error(Seq<char>),
}

impl View for AnthropicSseEvent {
    type V = EventView;

    open spec fn view(&self) -> EventView {
        match *self {
            AnthropicSseEvent::TextDelta(t) => EventView::TextDelta(t@),
            AnthropicSseEvent::ThinkingDelta(t) => EventView::ThinkingDelta(t@),
            AnthropicSseEvent::ToolUseStart { id, name } => EventView::ToolUseStart {
                id: id@,
                name: name@,
            },
            AnthropicSseEvent::ToolInputDelta(t) => EventView::ToolInputDelta(t@),
            AnthropicSseEvent::ContentBlockStop => EventView::ContentBlockStop,
            AnthropicSseEvent::MessageStop => EventView::MessageStop,
            AnthropicSseEvent::MessageStopWithReason { reason, usage } =>
                EventView::MessageStopWithReason { reason: reason@, usage },
            AnthropicSseEvent::Error(t) => EventView::Error(t@),
        }
    }
}

/// The value of an optional event.
pub open spec fn opt_event(e: Option<AnthropicSseEvent>) -> Option<EventView> {
    match e {
        Some(v) => Some(v@),
        None => None,
    }
}

/// What a delta of a block tells.
pub open spec fn delta_event(delta: JsonView) -> Option<EventView> {
    let kind = or_empty(delta.field_text("type"@));
    if kind == "text_delta"@ {
        match filled(delta.field("text"@)) {
            Some(t) => Some(EventView::TextDelta(t)),
            None => None,
        }
    } else if kind == "thinking_delta"@ {
        match filled(delta.field("thinking"@)) {
            Some(t) => Some(EventView::ThinkingDelta(t)),
            None => None,
        }
    } else if kind == "input_json_delta"@ {
        Some(EventView::ToolInputDelta(or_empty(delta.field_text("partial_json"@))))
    } else {
        None
    }
}

/// What the start of a block tells: a tool call begins.
pub open spec fn start_event(block: JsonView) -> Option<EventView> {
    if block.field_text("type"@) == Some("tool_use"@) {
        Some(
            EventView::ToolUseStart {
                id: or_empty(block.field_text("id"@)),
                name: or_empty(block.field_text("name"@)),
            },
        )
    } else {
        None
    }
}

/// The text at a path, or another.
pub open spec fn path_text(
    value: JsonView,
    outer: Seq<char>,
    inner: Seq<char>,
    other: Seq<char>,
) -> Seq<char> {
    match value.path(outer, inner) {
        Some(JsonView::Str(t)) => t,
        _ => other,
    }
}

/// What the JSON of a line tells.
pub open spec fn value_event(value: JsonView) -> Option<EventView> {
    let kind = or_empty(value.field_text("type"@));
    if kind == "content_block_start"@ {
        match value.field("content_block"@) {
            Some(block) => start_event(block),
            None => None,
        }
    } else if kind == "content_block_delta"@ {
        match value.field("delta"@) {
            Some(delta) => delta_event(delta),
            None => None,
        }
    } else if kind == "content_block_stop"@ {
        Some(EventView::ContentBlockStop)
    } else if kind == "message_delta"@ {
        Some(
            EventView::MessageStopWithReason {
                reason: path_text(value, "delta"@, "stop_reason"@, "end_turn"@),
                usage: anthropic_usage(value),
            },
        )
    } else if kind == "message_stop"@ {
        Some(EventView::MessageStop)
    } else if kind == "error"@ {
        Some(
            EventView::Error(path_text(value, "error"@, "message"@, "Unknown Anthropic error"@)),
        )
    } else {
        None
    }
}

/// What a line of the stream tells.
pub open spec fn line_event(line: Seq<char>) -> Option<EventView> {
    match line_data(line) {
        None => None,
        Some(data) => match parsed_json(data) {
            Ok(value) => value_event(value),
            Err(_) => None,
        },
    }
}

fn text_of(v: Option<&str>) -> (r: String)
    ensures
        r@ == or_empty(opt_str(v)),
{
    match v {
        Some(t) => copy_str(t),
        None => String::new(),
    }
}

fn parse_delta(delta: &Json) -> (r: Option<AnthropicSseEvent>)
    ensures
        opt_event(r) == delta_event(delta@),
{
    let kind = text_of(delta.get_str("type"));
    if str_eq(kind.as_str(), "text_delta") {
        match filled_text(delta.get("text")) {
            Some(t) => Some(AnthropicSseEvent::TextDelta(t)),
            None => None,
        }
    } else if str_eq(kind.as_str(), "thinking_delta") {
        match filled_text(delta.get("thinking")) {
            Some(t) => Some(AnthropicSseEvent::ThinkingDelta(t)),
            None => None,
        }
    } else if str_eq(kind.as_str(), "input_json_delta") {
        Some(AnthropicSseEvent::ToolInputDelta(text_of(delta.get_str("partial_json"))))
    } else {
        None
    }
}

fn parse_start(block: &Json) -> (r: Option<AnthropicSseEvent>)
    ensures
        opt_event(r) == start_event(block@),
{
    if block.field_is("type", "tool_use") {
        Some(
            AnthropicSseEvent::ToolUseStart {
                id: text_of(block.get_str("id")),
                name: text_of(block.get_str("name")),
            },
        )
    } else {
        None
    }
}

fn text_at(value: &Json, outer: &str, inner: &str, other: &str) -> (r: String)
    ensures
        r@ == path_text(value@, outer@, inner@, other@),
{
    match value.get_path(outer, inner) {
        Some(Json::Str(t)) => t.clone(),
        _ => copy_str(other),
    }
}

fn parse_event(value: &Json) -> (r: Option<AnthropicSseEvent>)
    ensures
        opt_event(r) == value_event(value@),
{
    let kind = text_of(value.get_str("type"));
    if str_eq(kind.as_str(), "content_block_start") {
        match value.get("content_block") {
            Some(block) => parse_start(block),
            None => None,
        }
    } else if str_eq(kind.as_str(), "content_block_delta") {
        match value.get("delta") {
            Some(delta) => parse_delta(delta),
            None => None,
        }
    } else if str_eq(kind.as_str(), "content_block_stop") {
        Some(AnthropicSseEvent::ContentBlockStop)
    } else if str_eq(kind.as_str(), "message_delta") {
        Some(
            AnthropicSseEvent::MessageStopWithReason {
                reason: text_at(value, "delta", "stop_reason", "end_turn"),
                usage: model_usage_from_anthropic_value(value),
            },
        )
    } else if str_eq(kind.as_str(), "message_stop") {
        Some(AnthropicSseEvent::MessageStop)
    } else if str_eq(kind.as_str(), "error") {
        Some(
            AnthropicSseEvent::Error(
                text_at(value, "error", "message", "Unknown Anthropic error"),
            ),
        )
    } else {
        None
    }
}

/// What a line of the stream tells.
pub fn parse_anthropic_sse_event(line: &str) -> (r: Option<AnthropicSseEvent>)
    ensures
        opt_event(r) == line_event(line@),
{
    match data_of_line(line) {
        None => None,
        Some(data) => match Json::parse(data.as_str()) {
            Ok(value) => parse_event(&value),
            Err(_) => None,
        },
    }
}

/// The tool call that pieces of its input make.
pub fn assemble_tool_call_from_stream(id: &str, name: &str, input_json_parts: &Vec<String>) -> (r:
    PendingToolCall)
    ensures
        r@ == call_with(id@, name@, joined(strings(input_json_parts@), ""@)),
{
    let raw = join(input_json_parts, "");
    make_call(id, name, raw.as_str())
}

// ---------------------------------------------------------------------
// Streams
// ---------------------------------------------------------------------

/// What has arrived of a streamed reply.
#[derive(Debug)]
pub struct AnthropicStream {
    pub buffer: String,
    pub full: String,
    pub reasoning: String,
    pub tool_calls: Vec<PendingToolCall>,
    pub tool_id: String,
    pub tool_name: String,
    pub tool_input: String,
    pub finish_reason: String,
    pub usage: Option<ModelUsage>,
}

/// The value of what has arrived, the open line left out. The tool call that is
/// arriving has an identifier, a name and the input so far.
#[verifier::ext_equal]
pub struct AnthropicView {
    pub full: Seq<char>,
    pub reasoning: Seq<char>,
    pub calls: Seq<CallView>,
    pub tool_id: Seq<char>,
    pub tool_name: Seq<char>,
    pub tool_input: Seq<char>,
    pub finish_reason: Seq<char>,
    pub usage: Option<ModelUsage>,
}

impl AnthropicStream {
    /// The value of what has arrived, the open line left out.
    pub open spec fn state(&self) -> AnthropicView {
        AnthropicView {
            full: self.full@,
            reasoning: self.reasoning@,
            calls: call_views(self.tool_calls@),
            tool_id: self.tool_id@,
            tool_name: self.tool_name@,
            tool_input: self.tool_input@,
            finish_reason: self.finish_reason@,
            usage: self.usage,
        }
    }
}

/// How a stream stands.
#[derive(Debug)]
pub enum StreamEnd {
    Open,
    Done,
    Failed(String),
}

/// The value of how a stream stands.
#[verifier::ext_equal]
pub enum EndView {
    Open,
    Done,
    Failed(Seq<char>),
}

impl View for StreamEnd {
    type V = EndView;

    open spec fn view(&self) -> EndView {
        match *self {
            StreamEnd::Open => EndView::Open,
            StreamEnd::Done => EndView::Done,
            StreamEnd::Failed(t) => EndView::Failed(t@),
        }
    }
}

/// What has arrived after some lines, what has been told, and how the stream
/// stands.
#[verifier::ext_equal]
pub struct AnthropicRun {
    pub state: AnthropicView,
    pub parts: Seq<StreamView>,
    pub end: EndView,
}

/// What one event comes to.
pub open spec fn event_step(st: AnthropicView, event: EventView) -> AnthropicRun {
    match event {
        EventView::TextDelta(t) => AnthropicRun {
            state: AnthropicView { full: st.full + t, ..st },
            parts: told(Some(t), false),
            end: EndView::Open,
        },
        EventView::ThinkingDelta(t) => AnthropicRun {
            state: AnthropicView { reasoning: st.reasoning + t, ..st },
            parts: told(Some(t), true),
            end: EndView::Open,
        },
        EventView::ToolUseStart { id, name } => AnthropicRun {
            state: AnthropicView {
                tool_id: id,
                tool_name: name,
                tool_input: Seq::empty(),
                ..st
            },
            parts: seq![StreamView::ToolCallStart { id, name }],
            end: EndView::Open,
        },
        EventView::ToolInputDelta(t) => AnthropicRun {
            state: AnthropicView { tool_input: st.tool_input + t, ..st },
            parts: if st.tool_id.len() > 0 {
                seq![StreamView::ToolCallDelta { id: st.tool_id, delta: t }]
            } else {
                Seq::empty()
            },
            end: EndView::Open,
        },
        EventView::ContentBlockStop => {
            let call = call_with(st.tool_id, st.tool_name, st.tool_input);
            let cleared = AnthropicView {
                tool_id: Seq::empty(),
                tool_name: Seq::empty(),
                tool_input: Seq::empty(),
                ..st
            };
            if st.tool_id.len() > 0 {
                AnthropicRun {
                    state: AnthropicView { calls: st.calls.push(call), ..cleared },
                    parts: seq![StreamView::ToolCallDone { call }],
                    end: EndView::Open,
                }
            } else {
                AnthropicRun { state: cleared, parts: Seq::empty(), end: EndView::Open }
            }
        },
        EventView::MessageStop => AnthropicRun {
            state: st,
            parts: Seq::empty(),
            end: EndView::Done,
        },
        EventView::MessageStopWithReason { reason, usage } => AnthropicRun {
            state: AnthropicView {
                finish_reason: stop_reason_text(reason),
                usage: or_else(usage, st.usage),
                ..st
            },
            parts: Seq::empty(),
            end: EndView::Done,
        },
        EventView::Error(t) => AnthropicRun {
            state: st,
            parts: seq![StreamView::Error { message: t }],
            end: EndView::Failed("Anthropic stream error: "@ + t),
        },
    }
}

/// One line more. After the end nothing is read.
pub open spec fn run_line(run: AnthropicRun, line: Seq<char>) -> AnthropicRun {
    if run.end != EndView::Open {
        run
    } else {
        match line_event(line) {
            None => run,
            Some(event) => {
                let step = event_step(run.state, event);
                AnthropicRun { state: step.state, parts: run.parts + step.parts, end: step.end }
            },
        }
    }
}

/// Line after line.
pub open spec fn run_lines(st: AnthropicView, lines: Seq<Seq<char>>) -> AnthropicRun
    decreases lines.len(),
{
    if lines.len() == 0 {
        AnthropicRun { state: st, parts: Seq::empty(), end: EndView::Open }
    } else {
        run_line(run_lines(st, lines.drop_last()), lines.last())
    }
}

/// The reply once the stream has ended.
pub open spec fn stream_result(st: AnthropicView) -> OutputView {
    OutputView {
        text: st.full,
        reasoning: kept_text(st.reasoning),
        tool_calls: st.calls,
        usage: st.usage,
        finish_reason: Some(st.finish_reason),
        provider_messages: seq![
            compatible_message(
                st.full,
                kept_text(st.reasoning),
                pending_call_items(st.calls),
                st.finish_reason,
            ),
        ],
        cancelled: false,
    }
}

/// A stream of which nothing has arrived.
pub open spec fn nothing_arrived() -> AnthropicView {
    AnthropicView {
        full: Seq::empty(),
        reasoning: Seq::empty(),
        calls: Seq::empty(),
        tool_id: Seq::empty(),
        tool_name: Seq::empty(),
        tool_input: Seq::empty(),
        finish_reason: "stop"@,
        usage: None,
    }
}

impl AnthropicStream {
    /// A stream of which nothing has arrived.
    pub fn new() -> (r: AnthropicStream)
        ensures
            r.buffer@ == Seq::<char>::empty(),
            r.state() == nothing_arrived(),
    {
        let tool_calls: Vec<PendingToolCall> = Vec::new();
        assert(call_views(tool_calls@) == Seq::<CallView>::empty());
        AnthropicStream {
            buffer: String::new(),
            full: String::new(),
            reasoning: String::new(),
            tool_calls,
            tool_id: String::new(),
            tool_name: String::new(),
            tool_input: String::new(),
            finish_reason: copy_str("stop"),
            usage: None,
        }
    }

    fn take(&mut self, event: AnthropicSseEvent, parts: &mut Vec<StreamPart>) -> (r: StreamEnd)
        ensures
            final(self).buffer == old(self).buffer,
            final(self).state() == event_step(old(self).state(), event@).state,
            stream_views(final(parts)@) == stream_views(old(parts)@) + event_step(
                old(self).state(),
                event@,
            ).parts,
            r@ == event_step(old(self).state(), event@).end,
    {
        match event {
            AnthropicSseEvent::TextDelta(t) => {
                self.full.append(t.as_str());
                emit(parts, StreamPart::TextDelta { delta: t });
                StreamEnd::Open
            },
            AnthropicSseEvent::ThinkingDelta(t) => {
                self.reasoning.append(t.as_str());
                emit(parts, StreamPart::ReasoningDelta { delta: t });
                StreamEnd::Open
            },
            AnthropicSseEvent::ToolUseStart { id, name } => {
                emit(parts, StreamPart::ToolCallStart { id: id.clone(), name: name.clone() });
                self.tool_id = id;
                self.tool_name = name;
                self.tool_input = String::new();
                StreamEnd::Open
            },
            AnthropicSseEvent::ToolInputDelta(t) => {
                self.tool_input.append(t.as_str());
                if !self.tool_id.as_str().is_empty() {
                    emit(parts, StreamPart::ToolCallDelta { id: self.tool_id.clone(), delta: t });
                }
                StreamEnd::Open
            },
            AnthropicSseEvent::ContentBlockStop => {
                if !self.tool_id.as_str().is_empty() {
                    let call = make_call(
                        self.tool_id.as_str(),
                        self.tool_name.as_str(),
                        self.tool_input.as_str(),
                    );
                    emit(parts, StreamPart::ToolCallDone { call: call.copy() });
                    self.tool_calls.push(call);
                    assert(call_views(self.tool_calls@) == old(self).state().calls.push(call@));
                }
                self.tool_id = String::new();
                self.tool_name = String::new();
                self.tool_input = String::new();
                StreamEnd::Open
            },
            AnthropicSseEvent::MessageStop => StreamEnd::Done,
            AnthropicSseEvent::MessageStopWithReason { reason, usage } => {
                self.finish_reason = finish_reason_from_anthropic_stop_reason(reason.as_str());
                if usage.is_some() {
                    self.usage = usage;
                }
                StreamEnd::Done
            },
            AnthropicSseEvent::Error(t) => {
                let message = concat2("Anthropic stream error: ", t.as_str());
                emit(parts, StreamPart::Error { message: t });
                StreamEnd::Failed(message)
            },
        }
    }

    /// Takes up a chunk of the stream. Returns what there is to tell, and how the
    /// stream stands.
    pub fn feed(&mut self, chunk: &str) -> (r: (Vec<StreamPart>, StreamEnd))
        ensures
            ({
                let text = old(self).buffer@ + chunk@;
                let run = run_lines(old(self).state(), ended_lines(text));
                &&& final(self).buffer@ == open_line(text)
                &&& final(self).state() == run.state
                &&& stream_views(r.0@) == run.parts
                &&& r.1@ == run.end
            }),
    {
        let text = concat2(self.buffer.as_str(), chunk);
        let (lines, open) = split_lines(text.as_str());
        self.buffer = open;
        let ghost st = old(self).state();
        let ghost all = strings(lines@);
        let mut parts: Vec<StreamPart> = Vec::new();
        let mut end = StreamEnd::Open;
        assert(stream_views(parts@) == Seq::<StreamView>::empty());
        assert(all.take(0) == Seq::<Seq<char>>::empty());
        let mut i: usize = 0;
        while i < lines.len()
            invariant
                i <= lines@.len(),
                all == strings(lines@),
                self.buffer@ == open@,
                run_lines(st, all.take(i as int)) == (AnthropicRun {
                    state: self.state(),
                    parts: stream_views(parts@),
                    end: end@,
                }),
            decreases lines@.len() - i,
        {
            assert(all.take(i + 1).drop_last() == all.take(i as int));
            assert(all.take(i + 1).last() == lines@[i as int]@);
            if let StreamEnd::Open = end {
                if let Some(event) = parse_anthropic_sse_event(lines[i].as_str()) {
                    end = self.take(event, &mut parts);
                }
            }
            i += 1;
        }
        assert(all.take(all.len() as int) == all);
        (parts, end)
    }

    /// The reply once the stream has ended, and what there is to tell last.
    pub fn finish(self) -> (r: (GenerateOutput, Vec<StreamPart>))
        ensures
            r.0@ == stream_result(self.state()),
            stream_views(r.1@) == seq![
                StreamView::Finish { reason: self.finish_reason@, full: self.full@ },
            ],
    {
        let mut parts: Vec<StreamPart> = Vec::new();
        assert(stream_views(parts@) == Seq::<StreamView>::empty());
        emit(
            &mut parts,
            StreamPart::Finish { reason: self.finish_reason.clone(), full: self.full.clone() },
        );
        let reasoning = non_empty(self.reasoning.as_str());
        (
            make_output(self.full, reasoning, self.tool_calls, self.finish_reason, self.usage),
            parts,
        )
    }
}

// ---------------------------------------------------------------------
// Laws
// ---------------------------------------------------------------------

proof fn lemma_run_after(st: AnthropicView, a: Seq<Seq<char>>, b: Seq<Seq<char>>)
    ensures
        ({
            let first = run_lines(st, a);
            let both = run_lines(st, a + b);
            let second = run_lines(first.state, b);
            if first.end != EndView::Open {
                both == first
            } else {
                both.state == second.state && both.end == second.end && both.parts == first.parts
                    + second.parts
            }
        }),
    decreases b.len(),
{
    let first = run_lines(st, a);
    if b.len() == 0 {
        assert(a + b == a);
        assert(first.parts + Seq::<StreamView>::empty() == first.parts);
    } else {
        lemma_run_after(st, a, b.drop_last());
        assert((a + b).drop_last() == a + b.drop_last());
        assert((a + b).last() == b.last());
        let second = run_lines(first.state, b.drop_last());
        if first.end == EndView::Open && second.end == EndView::Open {
            match line_event(b.last()) {
                Some(event) => {
                    let more = event_step(second.state, event).parts;
                    assert((first.parts + second.parts) + more == first.parts + (second.parts
                        + more));
                },
                None => {},
            }
        }
    }
}

/// However the text of a stream is cut, the same is told and the same reply comes
/// out: two chunks do what their concatenation does, and after the end nothing
/// is read.
/// The law is over decoded text, cut between characters: each chunk of bytes is decoded
/// by itself, so a cut inside a character changes the text.
pub proof fn law_cuts_do_not_change_the_reply(
    st: AnthropicView,
    buffer: Seq<char>,
    a: Seq<char>,
    b: Seq<char>,
)
    ensures
        ({
            let first = run_lines(st, ended_lines(buffer + a));
            let second = run_lines(first.state, ended_lines(open_line(buffer + a) + b));
            let both = run_lines(st, ended_lines(buffer + (a + b)));
            if first.end != EndView::Open {
                both == first
            } else {
                both.state == second.state && both.end == second.end && both.parts == first.parts
                    + second.parts
            }
        }),
{
    assert(buffer + (a + b) == (buffer + a) + b);
    law_cuts_do_not_change_lines(buffer + a, b);
    lemma_run_after(
        st,
        ended_lines(buffer + a),
        ended_lines(open_line(buffer + a) + b),
    );
}

/// The blocks of parts are those of the first parts, and then those of the rest.
pub proof fn law_blocks_stay_in_order(a: Seq<PartView>, b: Seq<PartView>, role: ModelRole)
    ensures
        blocks_of(a + b, role) == blocks_of(a, role) + blocks_of(b, role),
    decreases b.len(),
{
    if b.len() == 0 {
        assert(a + b =~= a);
        assert(blocks_of(a, role) + blocks_of(b, role) =~= blocks_of(a, role));
    } else {
        law_blocks_stay_in_order(a, b.drop_last(), role);
        assert((a + b).drop_last() =~= a + b.drop_last());
        assert((a + b).last() == b.last());
        assert(blocks_of(a + b, role) =~= blocks_of(a, role) + blocks_of(b, role));
    }
}

proof fn lemma_block_keys()
    ensures
        "type"@ != "text"@,
        "type"@ != "source"@,
        "type"@ != "media_type"@,
        "type"@ != "data"@,
        "type"@ != "url"@,
        "type"@ != "id"@,
        "type"@ != "name"@,
        "type"@ != "input"@,
        "type"@ != "tool_use_id"@,
        "type"@ != "content"@,
        "type"@ != "is_error"@,
        "type"@ != "thinking"@,
        "type"@ != "role"@,
        "type"@ != "description"@,
        "type"@ != "input_schema"@,
        "text"@ != "source"@,
        "text"@ != "media_type"@,
        "text"@ != "data"@,
        "text"@ != "url"@,
        "text"@ != "id"@,
        "text"@ != "name"@,
        "text"@ != "input"@,
        "text"@ != "tool_use_id"@,
        "text"@ != "content"@,
        "text"@ != "is_error"@,
        "text"@ != "thinking"@,
        "text"@ != "role"@,
        "text"@ != "description"@,
        "text"@ != "input_schema"@,
        "source"@ != "media_type"@,
        "source"@ != "data"@,
        "source"@ != "url"@,
        "source"@ != "id"@,
        "source"@ != "name"@,
        "source"@ != "input"@,
        "source"@ != "tool_use_id"@,
        "source"@ != "content"@,
        "source"@ != "is_error"@,
        "source"@ != "thinking"@,
        "source"@ != "role"@,
        "source"@ != "description"@,
        "source"@ != "input_schema"@,
        "media_type"@ != "data"@,
        "media_type"@ != "url"@,
        "media_type"@ != "id"@,
        "media_type"@ != "name"@,
        "media_type"@ != "input"@,
        "media_type"@ != "tool_use_id"@,
        "media_type"@ != "content"@,
        "media_type"@ != "is_error"@,
        "media_type"@ != "thinking"@,
        "media_type"@ != "role"@,
        "media_type"@ != "description"@,
        "media_type"@ != "input_schema"@,
        "data"@ != "url"@,
        "data"@ != "id"@,
        "data"@ != "name"@,
        "data"@ != "input"@,
        "data"@ != "tool_use_id"@,
        "data"@ != "content"@,
        "data"@ != "is_error"@,
        "data"@ != "thinking"@,
        "data"@ != "role"@,
        "data"@ != "description"@,
        "data"@ != "input_schema"@,
        "url"@ != "id"@,
        "url"@ != "name"@,
        "url"@ != "input"@,
        "url"@ != "tool_use_id"@,
        "url"@ != "content"@,
        "url"@ != "is_error"@,
        "url"@ != "thinking"@,
        "url"@ != "role"@,
        "url"@ != "description"@,
        "url"@ != "input_schema"@,
        "id"@ != "name"@,
        "id"@ != "input"@,
        "id"@ != "tool_use_id"@,
        "id"@ != "content"@,
        "id"@ != "is_error"@,
        "id"@ != "thinking"@,
        "id"@ != "role"@,
        "id"@ != "description"@,
        "id"@ != "input_schema"@,
        "name"@ != "input"@,
        "name"@ != "tool_use_id"@,
        "name"@ != "content"@,
        "name"@ != "is_error"@,
        "name"@ != "thinking"@,
        "name"@ != "role"@,
        "name"@ != "description"@,
        "name"@ != "input_schema"@,
        "input"@ != "tool_use_id"@,
        "input"@ != "content"@,
        "input"@ != "is_error"@,
        "input"@ != "thinking"@,
        "input"@ != "role"@,
        "input"@ != "description"@,
        "input"@ != "input_schema"@,
        "tool_use_id"@ != "content"@,
        "tool_use_id"@ != "is_error"@,
        "tool_use_id"@ != "thinking"@,
        "tool_use_id"@ != "role"@,
        "tool_use_id"@ != "description"@,
        "tool_use_id"@ != "input_schema"@,
        "content"@ != "is_error"@,
        "content"@ != "thinking"@,
        "content"@ != "role"@,
        "content"@ != "description"@,
        "content"@ != "input_schema"@,
        "is_error"@ != "thinking"@,
        "is_error"@ != "role"@,
        "is_error"@ != "description"@,
        "is_error"@ != "input_schema"@,
        "thinking"@ != "role"@,
        "thinking"@ != "description"@,
        "thinking"@ != "input_schema"@,
        "role"@ != "description"@,
        "role"@ != "input_schema"@,
        "description"@ != "input_schema"@,
{
    reveal_strlit("type");
    reveal_strlit("text");
    reveal_strlit("source");
    reveal_strlit("media_type");
    reveal_strlit("data");
    reveal_strlit("url");
    reveal_strlit("id");
    reveal_strlit("name");
    reveal_strlit("input");
    reveal_strlit("tool_use_id");
    reveal_strlit("content");
    reveal_strlit("is_error");
    reveal_strlit("thinking");
    reveal_strlit("role");
    reveal_strlit("description");
    reveal_strlit("input_schema");
    assert("type"@[1] == 'y');
    assert("text"@[1] == 'e');
    assert("type"@.len() == 4);
    assert("source"@.len() == 6);
    assert("media_type"@.len() == 10);
    assert("type"@[0] == 't');
    assert("data"@[0] == 'd');
    assert("url"@.len() == 3);
    assert("id"@.len() == 2);
    assert("name"@[0] == 'n');
    assert("input"@.len() == 5);
    assert("tool_use_id"@.len() == 11);
    assert("content"@.len() == 7);
    assert("is_error"@.len() == 8);
    assert("thinking"@.len() == 8);
    assert("role"@[0] == 'r');
    assert("description"@.len() == 11);
    assert("input_schema"@.len() == 12);
    assert("text"@.len() == 4);
    assert("text"@[0] == 't');
    assert("data"@.len() == 4);
    assert("name"@.len() == 4);
    assert("role"@.len() == 4);
    assert("tool_use_id"@[0] == 't');
    assert("description"@[0] == 'd');
    assert("is_error"@[0] == 'i');
    assert("thinking"@[0] == 't');
}

proof fn lemma_kinds()
    ensures
        "text"@ != "thinking"@,
        "text"@ != "tool_use"@,
        "text"@ != "image"@,
        "text"@ != "tool_result"@,
        "thinking"@ != "tool_use"@,
        "thinking"@ != "image"@,
        "thinking"@ != "tool_result"@,
        "tool_use"@ != "image"@,
        "tool_use"@ != "tool_result"@,
        "image"@ != "tool_result"@,
{
    reveal_strlit("text");
    reveal_strlit("thinking");
    reveal_strlit("tool_use");
    reveal_strlit("image");
    reveal_strlit("tool_result");
    assert("text"@.len() == 4);
    assert("thinking"@.len() == 8);
    assert("tool_use"@.len() == 8);
    assert("image"@.len() == 5);
    assert("tool_result"@.len() == 11);
    assert("thinking"@[1] == 'h');
    assert("tool_use"@[1] == 'o');
}

proof fn lemma_request_keys()
    ensures
        "model"@ != "messages"@,
        "model"@ != "max_tokens"@,
        "model"@ != "system"@,
        "model"@ != "stream"@,
        "model"@ != "tools"@,
        "model"@ != "thinking"@,
        "model"@ != "output_config"@,
        "messages"@ != "max_tokens"@,
        "messages"@ != "system"@,
        "messages"@ != "stream"@,
        "messages"@ != "tools"@,
        "messages"@ != "thinking"@,
        "messages"@ != "output_config"@,
        "max_tokens"@ != "system"@,
        "max_tokens"@ != "stream"@,
        "max_tokens"@ != "tools"@,
        "max_tokens"@ != "thinking"@,
        "max_tokens"@ != "output_config"@,
        "system"@ != "stream"@,
        "system"@ != "tools"@,
        "system"@ != "thinking"@,
        "system"@ != "output_config"@,
        "stream"@ != "tools"@,
        "stream"@ != "thinking"@,
        "stream"@ != "output_config"@,
        "tools"@ != "thinking"@,
        "tools"@ != "output_config"@,
        "thinking"@ != "output_config"@,
{
    reveal_strlit("model");
    reveal_strlit("messages");
    reveal_strlit("max_tokens");
    reveal_strlit("system");
    reveal_strlit("stream");
    reveal_strlit("tools");
    reveal_strlit("thinking");
    reveal_strlit("output_config");
    assert("model"@.len() == 5);
    assert("messages"@.len() == 8);
    assert("max_tokens"@.len() == 10);
    assert("system"@.len() == 6);
    assert("stream"@.len() == 6);
    assert("model"@[0] == 'm');
    assert("tools"@[0] == 't');
    assert("thinking"@.len() == 8);
    assert("output_config"@.len() == 13);
    assert("tools"@.len() == 5);
    assert("messages"@[0] == 'm');
    assert("thinking"@[0] == 't');
    assert("system"@[1] == 'y');
    assert("stream"@[1] == 't');
}

proof fn lemma_event_kinds()
    ensures
        "content_block_start"@ != "content_block_delta"@,
        "content_block_start"@ != "content_block_stop"@,
        "content_block_start"@ != "message_delta"@,
        "content_block_start"@ != "message_stop"@,
        "content_block_start"@ != "error"@,
        "content_block_delta"@ != "content_block_stop"@,
        "content_block_delta"@ != "message_delta"@,
        "content_block_delta"@ != "message_stop"@,
        "content_block_delta"@ != "error"@,
        "content_block_stop"@ != "message_delta"@,
        "content_block_stop"@ != "message_stop"@,
        "content_block_stop"@ != "error"@,
        "message_delta"@ != "message_stop"@,
        "message_delta"@ != "error"@,
        "message_stop"@ != "error"@,
{
    reveal_strlit("content_block_start");
    reveal_strlit("content_block_delta");
    reveal_strlit("content_block_stop");
    reveal_strlit("message_delta");
    reveal_strlit("message_stop");
    reveal_strlit("error");
    assert("content_block_start"@[14] == 's');
    assert("content_block_delta"@[14] == 'd');
    assert("content_block_start"@.len() == 19);
    assert("content_block_stop"@.len() == 18);
    assert("message_delta"@.len() == 13);
    assert("message_stop"@.len() == 12);
    assert("error"@.len() == 5);
    assert("content_block_delta"@.len() == 19);
}

proof fn lemma_delta_kinds()
    ensures
        "text_delta"@ != "thinking_delta"@,
        "text_delta"@ != "input_json_delta"@,
        "thinking_delta"@ != "input_json_delta"@,
{
    reveal_strlit("text_delta");
    reveal_strlit("thinking_delta");
    reveal_strlit("input_json_delta");
    assert("text_delta"@.len() == 10);
    assert("thinking_delta"@.len() == 14);
    assert("input_json_delta"@.len() == 16);
}

/// One part is one block, where the role allows it: a text for every role, an image of the
/// user, a call or a thought of the assistant, a result. The block holds all of the part.
pub proof fn law_a_part_is_one_block(part: PartView, role: ModelRole)
    ensures
        blocks_of(seq![part], role) == match content_block(part, role) {
            Some(b) => seq![b],
            None => Seq::<JsonView>::empty(),
        },
        match part {
            PartView::Text { text } => content_block(part, role) is Some && ({
                let b = content_block(part, role)->0;
                b.field_text("type"@) == Some("text"@) && b.field_text("text"@) == Some(text)
            }),
            PartView::Image { mime_type, data } => if role == ModelRole::User {
                content_block(part, role) is Some && ({
                    let b = content_block(part, role)->0;
                    b.field_text("type"@) == Some("image"@) && b.path("source"@, "media_type"@)
                        == Some(JsonView::Str(mime_type)) && b.path("source"@, "data"@) == Some(
                        JsonView::Str(data),
                    ) && b.path("source"@, "type"@) == Some(JsonView::Str("base64"@))
                })
            } else {
                content_block(part, role) is None
            },
            PartView::ImageUrl { url } => if role == ModelRole::User {
                content_block(part, role) is Some && ({
                    let b = content_block(part, role)->0;
                    b.field_text("type"@) == Some("image"@) && b.path("source"@, "url"@) == Some(
                        JsonView::Str(url),
                    ) && b.path("source"@, "type"@) == Some(JsonView::Str("url"@))
                })
            } else {
                content_block(part, role) is None
            },
            PartView::ToolCall { id, name, arguments, arguments_raw, .. } => if role
                == ModelRole::Assistant {
                content_block(part, role) is Some && ({
                    let b = content_block(part, role)->0;
                    b.field_text("type"@) == Some("tool_use"@) && b.field_text("id"@) == Some(id)
                        && b.field_text("name"@) == Some(name) && (!(arguments is Null) ==> b.field(
                        "input"@,
                    ) == Some(arguments)) && (arguments is Null && parsed_json(arguments_raw) is Ok
                        ==> b.field("input"@) == Some(parsed_json(arguments_raw)->Ok_0))
                })
            } else {
                content_block(part, role) is None
            },
            PartView::ToolResult { tool_call_id, content, is_error, .. } => content_block(
                part,
                role,
            ) is Some && ({
                let b = content_block(part, role)->0;
                b.field_text("type"@) == Some("tool_result"@) && b.field_text("tool_use_id"@)
                    == Some(tool_call_id) && b.field_text("content"@) == Some(content)
                    && b.field_truth("is_error"@) == Some(is_error)
            }),
            PartView::Reasoning { text } => if role == ModelRole::Assistant {
                content_block(part, role) is Some && ({
                    let b = content_block(part, role)->0;
                    b.field_text("type"@) == Some("thinking"@) && b.field_text("thinking"@) == Some(
                        text,
                    )
                })
            } else {
                content_block(part, role) is None
            },
        },
{
    lemma_block_keys();
    reveal_with_fuel(blocks_of, 2);
    assert(seq![part].drop_last() =~= Seq::<PartView>::empty());
    assert(seq![part].last() == part);
    match content_block(part, role) {
        Some(b) => {
            assert(blocks_of(seq![part], role) =~= seq![b]);
        },
        None => {},
    }
}

/// The items of the messages, each with the role of its message, in order.
pub open spec fn said(messages: Seq<JsonView>, key: Seq<char>) -> Seq<(Seq<char>, JsonView)>
    decreases messages.len(),
{
    if messages.len() == 0 {
        Seq::empty()
    } else {
        let items = content_list(messages.last(), key);
        let role = role_name(messages.last());
        said(messages.drop_last(), key) + Seq::new(items.len(), |i: int| (role, items[i]))
    }
}

/// Merging messages of one role keeps every item, in order and under its role.
pub proof fn law_merging_keeps_every_item(messages: Seq<JsonView>, key: Seq<char>)
    requires
        key != "role"@,
        forall|i: int| 0 <= i < messages.len() ==> (#[trigger] messages[i]).field_items(key) is Some,
    ensures
        said(roles_merged(messages, key), key) == said(messages, key),
        forall|i: int|
            0 <= i < roles_merged(messages, key).len() ==> (#[trigger] roles_merged(
                messages,
                key,
            )[i]).field_items(key) is Some,
        messages.len() > 0 ==> roles_merged(messages, key).len() > 0,
    decreases messages.len(),
{
    if messages.len() > 0 {
        let front = messages.drop_last();
        assert forall|i: int| 0 <= i < front.len() implies (#[trigger] front[i]).field_items(
            key,
        ) is Some by {
            assert(front[i] == messages[i]);
        }
        law_merging_keeps_every_item(front, key);
        let before = roles_merged(front, key);
        let last = messages.last();
        assert(messages[messages.len() - 1] == last);
        let merged = roles_merged(messages, key);
        let more = content_list(last, key);
        if before.len() > 0 && role_name(before.last()) == role_name(last) {
            let ext = content_extended(before.last(), key, more);
            assert(before[before.len() - 1].field_items(key) is Some);
            assert(merged.drop_last() =~= before.drop_last());
            assert(merged.last() == ext);
            let old_items = content_list(before.last(), key);
            assert(content_list(ext, key) =~= old_items + more);
            assert(role_name(ext) == role_name(last));
            let role = role_name(last);
            assert(Seq::new((old_items + more).len(), |i: int| (role, (old_items + more)[i]))
                =~= Seq::new(old_items.len(), |i: int| (role, old_items[i])) + Seq::new(
                more.len(),
                |i: int| (role, more[i]),
            ));
            assert(said(merged, key) =~= said(messages, key));
            assert forall|i: int| 0 <= i < merged.len() implies (#[trigger] merged[i]).field_items(
                key,
            ) is Some by {
                if i < merged.len() - 1 {
                    assert(merged[i] == before[i]);
                }
            }
        } else {
            assert(merged.drop_last() =~= before);
            assert(said(merged, key) =~= said(messages, key));
            assert forall|i: int| 0 <= i < merged.len() implies (#[trigger] merged[i]).field_items(
                key,
            ) is Some by {
                if i < merged.len() - 1 {
                    assert(merged[i] == before[i]);
                }
            }
        }
    }
}

/// What the messages of a conversation say: the blocks of each message, each under the
/// role of the assistant or of the user.
pub open spec fn conversation_said(messages: Seq<MessageView>) -> Seq<(Seq<char>, JsonView)>
    decreases messages.len(),
{
    if messages.len() == 0 {
        Seq::empty()
    } else {
        let m = messages.last();
        let role = if m.role == ModelRole::Assistant {
            "assistant"@
        } else {
            "user"@
        };
        let blocks = content_blocks(m);
        conversation_said(messages.drop_last()) + Seq::new(blocks.len(), |i: int| (role, blocks[i]))
    }
}

/// The messages that are sent say what the conversation says, in order and under the same
/// roles.
pub proof fn law_the_whole_conversation_is_sent(messages: Seq<MessageView>)
    ensures
        said(anthropic_messages(messages), "content"@) == conversation_said(messages),
{
    lemma_block_keys();
    let told = Seq::new(messages.len(), |i: int| anthropic_message(messages[i]));
    assert forall|i: int| 0 <= i < told.len() implies (#[trigger] told[i]).field_items(
        "content"@,
    ) is Some by {}
    law_merging_keeps_every_item(told, "content"@);
    lemma_said(messages);
}

proof fn lemma_said(messages: Seq<MessageView>)
    ensures
        said(
            Seq::new(messages.len(), |i: int| anthropic_message(messages[i])),
            "content"@,
        ) == conversation_said(messages),
    decreases messages.len(),
{
    lemma_block_keys();
    let told = Seq::new(messages.len(), |i: int| anthropic_message(messages[i]));
    if messages.len() > 0 {
        let front = messages.drop_last();
        lemma_said(front);
        assert(told.drop_last() =~= Seq::new(front.len(), |i: int| anthropic_message(front[i])));
        assert(told.last() == anthropic_message(messages.last()));
        assert(said(told, "content"@) =~= conversation_said(messages));
    }
}

/// A message without a block that its role allows is sent as an empty text; any other as
/// its blocks.
pub proof fn law_no_message_is_empty(message: MessageView)
    ensures
        content_blocks(message).len() > 0,
        blocks_of(message.content, message.role).len() > 0 ==> content_blocks(message) == blocks_of(
            message.content,
            message.role,
        ),
        blocks_of(message.content, message.role).len() == 0 ==> content_blocks(message).len() == 1
            && content_blocks(message)[0].field_text("text"@) == Some(Seq::<char>::empty()),
{
    lemma_block_keys();
}

/// One of the tools is called `name`.
pub open spec fn is_tool_name(tools: Seq<ToolView>, name: Seq<char>) -> bool {
    exists|i: int| 0 <= i < tools.len() && (#[trigger] tools[i]).call_name() == name
}

/// Tools are told one by one and in order, each name once: every tool that has a name is
/// told under it, and where no two share a name, all of them are.
pub proof fn law_every_named_tool_is_told(tools: Seq<ToolView>)
    ensures
        ({
            let (told, names) = anthropic_tools(tools);
            &&& told.len() == names.len()
            &&& forall|k: int|
                0 <= k < told.len() ==> (#[trigger] told[k]).field_text("name"@) == Some(names[k])
            &&& forall|k: int, j: int| 0 <= k < j < names.len() ==> names[k] != names[j]
            &&& forall|i: int|
                0 <= i < tools.len() && (#[trigger] tools[i]).call_name().len() > 0
                    ==> names.contains(tools[i].call_name())
            &&& forall|k: int| 0 <= k < names.len() ==> is_tool_name(tools, #[trigger] names[k])
        }),
        (forall|i: int| 0 <= i < tools.len() ==> (#[trigger] tools[i]).call_name().len() > 0) && (
        forall|i: int, j: int|
            0 <= i < j < tools.len() ==> (#[trigger] tools[i]).call_name() != (
            #[trigger] tools[j]).call_name()) ==> anthropic_tools(tools).0.len() == tools.len()
            && forall|i: int|
            0 <= i < tools.len() ==> (#[trigger] anthropic_tools(tools).0[i]) == anthropic_tool(
                tools[i],
            ),
    decreases tools.len(),
{
    lemma_block_keys();
    if tools.len() > 0 {
        let front = tools.drop_last();
        law_every_named_tool_is_told(front);
        let (bt, bn) = anthropic_tools(front);
        let (told, names) = anthropic_tools(tools);
        let name = tools.last().call_name();
        assert forall|i: int|
            0 <= i < tools.len() && (#[trigger] tools[i]).call_name().len() > 0 implies names.contains(
            tools[i].call_name(),
        ) by {
            if i < front.len() {
                assert(front[i] == tools[i]);
                let k = choose|k: int| 0 <= k < bn.len() && bn[k] == tools[i].call_name();
                assert(names[k] == bn[k]);
            } else if !bn.contains(name) {
                assert(names.last() == name);
            }
        }
        assert forall|k: int| 0 <= k < names.len() implies is_tool_name(
            tools,
            #[trigger] names[k],
        ) by {
            if k < bn.len() {
                assert(names[k] == bn[k]);
                assert(is_tool_name(front, bn[k]));
                let i = choose|i: int|
                    0 <= i < front.len() && (#[trigger] front[i]).call_name() == bn[k];
                assert(tools[i] == front[i]);
            } else {
                assert(tools[tools.len() - 1].call_name() == names[k]);
            }
        }
        if (forall|i: int| 0 <= i < tools.len() ==> (#[trigger] tools[i]).call_name().len() > 0) && (
        forall|i: int, j: int|
            0 <= i < j < tools.len() ==> (#[trigger] tools[i]).call_name() != (
            #[trigger] tools[j]).call_name()) {
            assert forall|i: int| 0 <= i < front.len() implies (
            #[trigger] front[i]).call_name().len() > 0 by {
                assert(front[i] == tools[i]);
            }
            assert forall|i: int, j: int| 0 <= i < j < front.len() implies (
            #[trigger] front[i]).call_name() != (#[trigger] front[j]).call_name() by {
                assert(front[i] == tools[i]);
                assert(front[j] == tools[j]);
            }
            let n = tools.len() - 1;
            assert(tools[n].call_name().len() > 0);
            if bn.contains(name) {
                let k = choose|k: int| 0 <= k < bn.len() && bn[k] == name;
                assert(is_tool_name(front, bn[k]));
                let i = choose|i: int|
                    0 <= i < front.len() && (#[trigger] front[i]).call_name() == bn[k];
                assert(tools[i].call_name() == tools[n].call_name());
            }
            assert(told == bt.push(anthropic_tool(tools.last())));
        }
    }
}

/// A tool is told with its name, its description and the schema of its arguments; an
/// object schema that says nothing of properties is given none, a schema of a value or
/// nothing is the schema of the value, and any other schema stays as it is.
pub proof fn law_a_tool_is_told_whole(tool: ToolView)
    ensures
        anthropic_tool(tool).field_text("name"@) == Some(tool.call_name()),
        anthropic_tool(tool).field_text("description"@) == Some(tool.description),
        anthropic_tool(tool).field("input_schema"@) == Some(schema_normalized(tool.input_schema)),
        tool.input_schema.field("anyOf"@) is None && tool.input_schema.field("properties"@) is Some
            ==> schema_normalized(tool.input_schema) == tool.input_schema,
        tool.input_schema.field("anyOf"@) is None ==> forall|k: Seq<char>|
            #![trigger schema_normalized(tool.input_schema).field(k)]
            tool.input_schema.field(k) is Some ==> schema_normalized(tool.input_schema).field(k)
                == tool.input_schema.field(k),
        tool.input_schema.field_text("type"@) == Some("object"@) && tool.input_schema.field(
            "anyOf"@,
        ) is None ==> schema_normalized(tool.input_schema).field("properties"@) is Some,
{
    lemma_block_keys();
}

/// A schema that allows a value or nothing becomes the schema of the value, whichever of
/// the two comes first, with the description of the whole.
pub proof fn law_nullable_schemas_become_their_value(
    schema: JsonView,
    value: JsonView,
    null: JsonView,
)
    requires
        null.field_text("type"@) == Some("null"@),
        value.field_text("type"@) != Some("null"@),
        schema.field_items("anyOf"@) == Some(seq![value, null]) || schema.field_items("anyOf"@)
            == Some(seq![null, value]),
    ensures
        schema.field("description"@) is None ==> schema_normalized(schema) == value,
        value is Object && schema.field("description"@) is Some ==> schema_normalized(schema).field(
            "description"@,
        ) == schema.field("description"@) && forall|k: Seq<char>|
            #![trigger schema_normalized(schema).field(k)]
            k != "description"@ ==> schema_normalized(schema).field(k) == value.field(k),
{
}

/// A body says what the request asks: the model, the conversation, the limit, the system
/// prompt where it is not blank, the tools, and the effort where a level is chosen. The
/// user's own fields win, and there are no others.
pub proof fn law_the_body_says_what_is_asked(request: GenerateRequest, stream: bool)
    ensures
        ({
            let body = anthropic_body(request, stream);
            let own = request.options.provider_options@;
            let tools = anthropic_tools(tool_views(request.tools@)).0;
            let level = chosen_level(request.options.thinking_level);
            &&& forall|k: Seq<char>| own.field(k) is Some ==> #[trigger] body.field(k) == own.field(k)
            &&& own.field("model"@) is None ==> body.field_text("model"@) == Some(request.model@)
            &&& own.field("messages"@) is None ==> body.field_items("messages"@) == Some(
                anthropic_messages(message_views(request.messages@)),
            )
            &&& own.field("max_tokens"@) is None ==> body.field_unsigned("max_tokens"@) == Some(
                request.options.max_tokens as u64,
            )
            &&& own.field("system"@) is None ==> body.field("system"@) == if is_blank_text(
                request.system@,
            ) {
                None
            } else {
                Some(JsonView::Str(request.system@))
            }
            &&& own.field("stream"@) is None ==> body.field("stream"@) == if stream {
                Some(JsonView::Bool(true))
            } else {
                None
            }
            &&& own.field("tools"@) is None ==> body.field("tools"@) == if tools.len() > 0 {
                Some(JsonView::Array(tools))
            } else {
                None
            }
            &&& own.field("thinking"@) is None ==> (body.field("thinking"@) is Some <==> level
                is Some)
            &&& own.field("thinking"@) is None && level is Some ==> body.path(
                "thinking"@,
                "type"@,
            ) == Some(JsonView::Str("adaptive"@))
            &&& own.field("output_config"@) is None ==> (body.field("output_config"@) is Some
                <==> level is Some)
            &&& own.field("output_config"@) is None && level is Some ==> body.path(
                "output_config"@,
                "effort"@,
            ) == Some(JsonView::Str(level->0))
            &&& forall|k: Seq<char>| #[trigger]
                body.field(k) is Some && own.field(k) is None ==> k == "model"@ || k
                    == "messages"@ || k == "max_tokens"@ || k == "system"@ || k == "stream"@ || k
                    == "tools"@ || k == "thinking"@ || k == "output_config"@
        }),
{
    lemma_request_keys();
}

/// The bodies of a streamed and of a plain request differ in the field `stream` alone.
pub proof fn law_streaming_changes_one_field(request: GenerateRequest, key: Seq<char>)
    requires
        key != "stream"@,
    ensures
        anthropic_body(request, true).field(key) == anthropic_body(request, false).field(key),
{
    lemma_request_keys();
}

/// What blocks hold is what the first ones hold, and then what the rest hold.
pub proof fn law_blocks_are_read_in_order(a: Seq<JsonView>, b: Seq<JsonView>)
    ensures
        blocks_read(a + b).texts == blocks_read(a).texts + blocks_read(b).texts,
        blocks_read(a + b).thoughts == blocks_read(a).thoughts + blocks_read(b).thoughts,
        blocks_read(a + b).calls == blocks_read(a).calls + blocks_read(b).calls,
    decreases b.len(),
{
    if b.len() == 0 {
        assert(a + b =~= a);
        assert(blocks_read(a).texts + blocks_read(b).texts =~= blocks_read(a).texts);
        assert(blocks_read(a).thoughts + blocks_read(b).thoughts =~= blocks_read(a).thoughts);
        assert(blocks_read(a).calls + blocks_read(b).calls =~= blocks_read(a).calls);
    } else {
        law_blocks_are_read_in_order(a, b.drop_last());
        assert((a + b).drop_last() =~= a + b.drop_last());
        assert((a + b).last() == b.last());
        assert(blocks_read(a + b).texts =~= blocks_read(a).texts + blocks_read(b).texts);
        assert(blocks_read(a + b).thoughts =~= blocks_read(a).thoughts + blocks_read(b).thoughts);
        assert(blocks_read(a + b).calls =~= blocks_read(a).calls + blocks_read(b).calls);
    }
}

/// A block of text holds a text, a block of thinking a thought, and a block of a call one
/// call, with its identifier, its name and its input.
pub proof fn law_a_block_is_read_whole(block: JsonView, t: Seq<char>)
    ensures
        block.field_text("type"@) == Some("text"@) && block.field_text("text"@) == Some(t)
            && t.len() > 0 ==> blocks_read(seq![block]).texts == seq![t] && blocks_read(
            seq![block],
        ).calls.len() == 0,
        block.field_text("type"@) == Some("thinking"@) && block.field_text("thinking"@) == Some(t)
            && t.len() > 0 ==> blocks_read(seq![block]).thoughts == seq![t],
        block.field_text("type"@) == Some("tool_use"@) ==> blocks_read(seq![block]).calls.len() == 1
            && ({
            let call = blocks_read(seq![block]).calls[0];
            &&& block.field_text("id"@) is Some ==> call.id == block.field_text("id"@)->0
            &&& block.field_text("name"@) is Some ==> call.function_name == block.field_text(
                "name"@,
            )->0
            &&& block.field("input"@) is Some && !(block.field("input"@)->0 is Null)
                ==> call.arguments == block.field("input"@)->0 && call.arguments_raw == json_text(
                block.field("input"@)->0,
            )
            &&& call.arguments_parse_error is None
        }) && blocks_read(seq![block]).texts.len() == 0,
{
    lemma_kinds();
    reveal_with_fuel(blocks_read, 2);
    assert(seq![block].drop_last() =~= Seq::<JsonView>::empty());
    assert(seq![block].last() == block);
}

/// A reply is the texts of its blocks with an empty line between, their thoughts likewise,
/// and their calls; an error is told as one.
pub proof fn law_a_reply_is_its_blocks(value: JsonView, blocks: Seq<JsonView>, label: Seq<char>)
    requires
        value.field_items("content"@) == Some(blocks),
    ensures
        value.field("error"@) is Some ==> message_output(value, label) is Err,
        value.field("error"@) is None ==> message_output(value, label) is Ok && ({
            let out = message_output(value, label)->Ok_0;
            &&& out.text == joined(blocks_read(blocks).texts, seq!['\n', '\n'])
            &&& out.reasoning is Some <==> blocks_read(blocks).thoughts.len() > 0
            &&& blocks_read(blocks).thoughts.len() > 0 ==> out.reasoning == Some(
                joined(blocks_read(blocks).thoughts, seq!['\n', '\n']),
            )
            &&& out.tool_calls == blocks_read(blocks).calls
            &&& out.usage == anthropic_usage(value)
            &&& out.provider_messages.len() == 1
            &&& !out.cancelled
            &&& value.field_text("stop_reason"@) == Some("tool_use"@) ==> out.finish_reason == Some(
                "tool_calls"@,
            )
            &&& value.field_text("stop_reason"@) == Some("max_tokens"@) ==> out.finish_reason
                == Some("length"@)
            &&& value.field_text("stop_reason"@) == Some("end_turn"@) ==> out.finish_reason == Some(
                "stop"@,
            )
        }),
{
    reveal_strlit("\n\n");
    assert("\n\n"@ =~= seq!['\n', '\n']);
    reveal_strlit("tool_use");
    reveal_strlit("max_tokens");
    reveal_strlit("end_turn");
    assert("tool_use"@.len() == 8);
    assert("tool_use"@[0] == 't');
    assert("max_tokens"@.len() == 10);
    assert("end_turn"@.len() == 8);
    assert("end_turn"@[0] == 'e');
}

/// Deltas of an event say what is new: text, thought, or a piece of a call's input; a
/// block that begins a call says its identifier and its name.
pub proof fn law_events_say_what_is_new(value: JsonView, inner: JsonView, t: Seq<char>)
    ensures
        value.field_text("type"@) == Some("content_block_delta"@) && value.field("delta"@) == Some(
            inner,
        ) && t.len() > 0 ==> (inner.field_text("type"@) == Some("text_delta"@) && inner.field_text(
            "text"@,
        ) == Some(t) ==> value_event(value) == Some(EventView::TextDelta(t))) && (inner.field_text(
            "type"@,
        ) == Some("thinking_delta"@) && inner.field_text("thinking"@) == Some(t) ==> value_event(
            value,
        ) == Some(EventView::ThinkingDelta(t))) && (inner.field_text("type"@) == Some(
            "input_json_delta"@,
        ) && inner.field_text("partial_json"@) == Some(t) ==> value_event(value) == Some(
            EventView::ToolInputDelta(t),
        )),
        value.field_text("type"@) == Some("content_block_start"@) && value.field("content_block"@)
            == Some(inner) && inner.field_text("type"@) == Some("tool_use"@) && inner.field_text(
            "id"@,
        ) is Some && inner.field_text("name"@) is Some ==> value_event(value) == Some(
            EventView::ToolUseStart {
                id: inner.field_text("id"@)->0,
                name: inner.field_text("name"@)->0,
            },
        ),
        value.field_text("type"@) == Some("content_block_stop"@) ==> value_event(value) == Some(
            EventView::ContentBlockStop,
        ),
        value.field_text("type"@) == Some("message_stop"@) ==> value_event(value) == Some(
            EventView::MessageStop,
        ),
        value.field_text("type"@) == Some("message_delta"@) && value.path("delta"@, "stop_reason"@)
            == Some(JsonView::Str(t)) ==> value_event(value) == Some(
            EventView::MessageStopWithReason { reason: t, usage: anthropic_usage(value) },
        ),
        value.field_text("type"@) == Some("error"@) && value.path("error"@, "message"@) == Some(
            JsonView::Str(t),
        ) ==> value_event(value) == Some(EventView::Error(t)),
{
    lemma_event_kinds();
    lemma_delta_kinds();
}

/// What a stream says of text and of thought is added to the end, and told; what else has
/// arrived stays.
pub proof fn law_deltas_are_added(st: AnthropicView, t: Seq<char>)
    ensures
        ({
            let a = event_step(st, EventView::TextDelta(t));
            let b = event_step(st, EventView::ThinkingDelta(t));
            &&& a.state.full == st.full + t && a.state.reasoning == st.reasoning && a.state.calls
                == st.calls
            &&& a.parts == seq![StreamView::TextDelta { delta: t }] && a.end is Open
            &&& b.state.reasoning == st.reasoning + t && b.state.full == st.full && b.state.calls
                == st.calls
            &&& b.parts == seq![StreamView::ReasoningDelta { delta: t }] && b.end is Open
        }),
{
}

/// A call that begins, whose input comes in two pieces, and that ends, is one more call:
/// with its identifier, its name and the two pieces of its input in order. Its start, both
/// pieces and its end are told, and nothing else changes.
pub proof fn law_a_call_comes_in_pieces(
    st: AnthropicView,
    id: Seq<char>,
    name: Seq<char>,
    a: Seq<char>,
    b: Seq<char>,
)
    requires
        id.len() > 0,
        !is_blank_text(a + b),
    ensures
        ({
            let s1 = event_step(st, EventView::ToolUseStart { id, name });
            let s2 = event_step(s1.state, EventView::ToolInputDelta(a));
            let s3 = event_step(s2.state, EventView::ToolInputDelta(b));
            let s4 = event_step(s3.state, EventView::ContentBlockStop);
            &&& s4.state.calls.len() == st.calls.len() + 1
            &&& s4.state.calls.drop_last() == st.calls
            &&& s4.state.calls.last().id == id
            &&& s4.state.calls.last().function_name == name
            &&& s4.state.calls.last().arguments_raw == a + b
            &&& parsed_json(a + b) is Ok ==> s4.state.calls.last().arguments == parsed_json(
                a + b,
            )->Ok_0 && s4.state.calls.last().arguments_parse_error is None
            &&& s4.state.full == st.full && s4.state.reasoning == st.reasoning
            &&& s1.parts == seq![StreamView::ToolCallStart { id, name }]
            &&& s2.parts == seq![StreamView::ToolCallDelta { id, delta: a }]
            &&& s3.parts == seq![StreamView::ToolCallDelta { id, delta: b }]
            &&& s4.parts == seq![StreamView::ToolCallDone { call: s4.state.calls.last() }]
            &&& event_step(s4.state, EventView::ContentBlockStop).state.calls == s4.state.calls
        }),
{
    let s1 = event_step(st, EventView::ToolUseStart { id, name });
    let s2 = event_step(s1.state, EventView::ToolInputDelta(a));
    let s3 = event_step(s2.state, EventView::ToolInputDelta(b));
    let s4 = event_step(s3.state, EventView::ContentBlockStop);
    assert(s3.state.tool_input =~= a + b);
    assert(s4.state.calls.drop_last() =~= st.calls);
}

/// The end of a stream ends it, with the reason that was given; an error ends it with what
/// the service said; and after the end nothing is read.
pub proof fn law_the_end_ends_the_stream(
    st: AnthropicView,
    reason: Seq<char>,
    usage: Option<ModelUsage>,
    lines: Seq<Seq<char>>,
    more: Seq<Seq<char>>,
)
    ensures
        event_step(st, EventView::MessageStop).end is Done,
        event_step(st, EventView::MessageStop).state == st,
        event_step(st, EventView::MessageStopWithReason { reason, usage }).end is Done,
        event_step(
            st,
            EventView::MessageStopWithReason { reason, usage },
        ).state.finish_reason == stop_reason_text(reason),
        usage is Some ==> event_step(
            st,
            EventView::MessageStopWithReason { reason, usage },
        ).state.usage == usage,
        usage is None ==> event_step(
            st,
            EventView::MessageStopWithReason { reason, usage },
        ).state.usage == st.usage,
        event_step(st, EventView::MessageStopWithReason { reason, usage }).state.full == st.full,
        event_step(st, EventView::MessageStopWithReason { reason, usage }).state.calls == st.calls,
        event_step(st, EventView::Error(reason)).end == EndView::Failed(
            "Anthropic stream error: "@ + reason,
        ),
        event_step(st, EventView::Error(reason)).parts == seq![
            StreamView::Error { message: reason },
        ],
        !(run_lines(st, lines).end is Open) ==> run_lines(st, lines + more) == run_lines(st, lines),
{
    lemma_run_after(st, lines, more);
}

/// A line with an event does what the event does, and any other line nothing.
pub proof fn law_lines_are_events(st: AnthropicView, line: Seq<char>, data: Seq<char>)
    ensures
        line_data(line) == Some(data) && parsed_json(data) is Ok && value_event(
            parsed_json(data)->Ok_0,
        ) is Some ==> run_lines(st, seq![line]) == event_step(
            st,
            value_event(parsed_json(data)->Ok_0)->0,
        ),
        line_data(line) is None ==> run_lines(st, seq![line]).state == st && run_lines(
            st,
            seq![line],
        ).parts.len() == 0 && run_lines(st, seq![line]).end is Open,
{
    reveal_with_fuel(run_lines, 2);
    assert(seq![line].drop_last() =~= Seq::<Seq<char>>::empty());
    assert(seq![line].last() == line);
    if line_data(line) == Some(data) && parsed_json(data) is Ok && value_event(
        parsed_json(data)->Ok_0,
    ) is Some {
        let step = event_step(st, value_event(parsed_json(data)->Ok_0)->0);
        assert(Seq::<StreamView>::empty() + step.parts =~= step.parts);
    }
}

/// The reply of a stream is what has arrived: the text, the reasoning, the calls, the
/// usage and the reason for the end.
pub proof fn law_the_reply_is_what_arrived(st: AnthropicView)
    ensures
        stream_result(st).text == st.full,
        !is_blank_text(st.reasoning) ==> stream_result(st).reasoning == Some(
            crate::text::trimmed(st.reasoning),
        ),
        is_blank_text(st.reasoning) ==> stream_result(st).reasoning is None,
        stream_result(st).tool_calls == st.calls,
        stream_result(st).usage == st.usage,
        stream_result(st).finish_reason == Some(st.finish_reason),
        stream_result(st).provider_messages.len() == 1,
        !stream_result(st).cancelled,
{
}

/// The message that is carried on holds the text, the reasoning and the calls of the reply.
pub proof fn law_the_carried_message_is_whole(
    text: Seq<char>,
    reasoning: Option<Seq<char>>,
    calls: Seq<JsonView>,
    finish_reason: Seq<char>,
)
    ensures
        ({
            let m = compatible_message(text, reasoning, calls, finish_reason);
            &&& m.field_text("role"@) == Some("assistant"@)
            &&& text.len() > 0 ==> m.field_text("content"@) == Some(text)
            &&& text.len() == 0 ==> m.field("content"@) == Some(JsonView::Null)
            &&& reasoning is Some && !is_blank_text(reasoning->0) ==> m.field_text(
                "reasoning_content"@,
            ) == Some(crate::text::trimmed(reasoning->0))
            &&& m.field("tool_calls"@) == if calls.len() > 0 {
                Some(JsonView::Array(calls))
            } else {
                None
            }
            &&& m.field_text("finish_reason"@) == Some(finish_reason)
        }),
{
    lemma_carried_keys();
}

proof fn lemma_carried_keys()
    ensures
        "role"@ != "content"@,
        "role"@ != "reasoning_content"@,
        "role"@ != "tool_calls"@,
        "role"@ != "finish_reason"@,
        "content"@ != "reasoning_content"@,
        "content"@ != "tool_calls"@,
        "content"@ != "finish_reason"@,
        "reasoning_content"@ != "tool_calls"@,
        "reasoning_content"@ != "finish_reason"@,
        "tool_calls"@ != "finish_reason"@,
{
    reveal_strlit("role");
    reveal_strlit("content");
    reveal_strlit("reasoning_content");
    reveal_strlit("tool_calls");
    reveal_strlit("finish_reason");
    assert("role"@.len() == 4);
    assert("content"@.len() == 7);
    assert("reasoning_content"@.len() == 17);
    assert("tool_calls"@.len() == 10);
    assert("finish_reason"@.len() == 13);
}

} // verus!
