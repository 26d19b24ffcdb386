//! The adapter of the Gemini service.

use vstd::prelude::*;

use crate::json::{fields_view, items_view, json_text, lemma_fields_finite, parsed_json};
use crate::json::{Json, JsonNumber, JsonView, Object};
use crate::model::anthropic::{merge_roles, openai_compatible_message, other_than_null};
use crate::model::anthropic::{chosen_level, compatible_message, nullable_of, roles_merged, EndView};
use crate::model::anthropic::StreamEnd;
use crate::model::anthropic::{
    content_list, is_tool_name, law_merging_keeps_every_item, role_name, said,
};
use crate::model::messages::{
    arguments_of, call_item, drawn, object1, object2, object3, str_json, with_field,
};
use crate::model::messages::{
    draw_ids, make_call_item, make_object1, make_object2, make_object3, parse_tool_arguments,
};
use crate::model::openai::{apply_overrides, filled_text, non_empty, parse_body, trim_slashes};
use crate::model::openai::{
    filled, kept_text, or_else, output_result, overridden, parse_error_text, told, without_slashes,
};
use crate::model::sse::{data_of_line, split_lines, strip_prefixes};
use crate::model::sse::{
    ended_lines, law_cuts_do_not_change_lines, line_data, open_line, without_prefixes,
};
use crate::model::types::{
    call_views, message_views, part_views, stream_views, tool_views, CallView, MessageView,
    OutputView, PartView, StreamView, ToolView,
};
use crate::model::types::{
    emit, GenerateOutput, GenerateRequest, MessagePart, ModelError, ModelErrorKind, ModelMessage,
    ModelRole, ModelTool, ModelUsage, PendingToolCall, StreamPart,
};
use crate::settings::ModelProvider;
use crate::text::{concat2, concat3, copy_opt, copy_str, is_blank, list_contains, str_eq, to_lower};
use crate::text::{is_blank_text, lower, opt_text, strings};

verus! {

/// The Gemini service of a provider.
#[derive(Debug)]
pub struct GeminiProvider<'a> {
    pub provider: &'a ModelProvider,
    pub retry_attempts: usize,
}

/// Where requests go.
pub open spec fn endpoint(base_url: Seq<char>, model: Seq<char>, stream: bool) -> Seq<char> {
    without_slashes(base_url) + "/models/"@ + without_prefixes(model, "models/"@) + if stream {
        ":streamGenerateContent?alt=sse"@
    } else {
        ":generateContent"@
    }
}

/// Where requests go: the model and the method stand in the URL.
pub fn gemini_url(base_url: &str, model: &str, stream: bool) -> (r: String)
    ensures
        r@ == endpoint(base_url@, model@, stream),
{
    let base = trim_slashes(base_url);
    let name = strip_prefixes(model, "models/");
    let mut out = concat3(base.as_str(), "/models/", name.as_str());
    if stream {
        out.append(":streamGenerateContent?alt=sse");
    } else {
        out.append(":generateContent");
    }
    out
}

// ---------------------------------------------------------------------
// Contents
// ---------------------------------------------------------------------

/// The tool calls of the parts by identifier: the name of the last with that
/// identifier.
pub open spec fn names_in(parts: Seq<PartView>, names: Map<Seq<char>, Seq<char>>) -> Map<
    Seq<char>,
    Seq<char>,
>
    decreases parts.len(),
{
    if parts.len() == 0 {
        names
    } else {
        let before = names_in(parts.drop_last(), names);
        match parts.last() {
            PartView::ToolCall { id, name, .. } => if id.len() > 0 {
                before.insert(id, name)
            } else {
                before
            },
            _ => before,
        }
    }
}

/// The tool calls of the messages by identifier.
pub open spec fn call_names(messages: Seq<MessageView>) -> Map<Seq<char>, Seq<char>>
    decreases messages.len(),
{
    if messages.len() == 0 {
        Map::empty()
    } else {
        names_in(messages.last().content, call_names(messages.drop_last()))
    }
}

/// The map that pairs make, later ones over earlier ones.
pub open spec fn pairs_map(v: Seq<(String, String)>) -> Map<Seq<char>, Seq<char>>
    decreases v.len(),
{
    if v.len() == 0 {
        Map::empty()
    } else {
        pairs_map(v.drop_last()).insert(v.last().0@, v.last().1@)
    }
}

fn add_names(parts: &Vec<MessagePart>, pairs: &mut Vec<(String, String)>)
    ensures
        pairs_map(final(pairs)@) == names_in(part_views(parts@), pairs_map(old(pairs)@)),
{
    let ghost all = part_views(parts@);
    let ghost start = pairs_map(pairs@);
    assert(all.take(0) == Seq::<PartView>::empty());
    let mut i: usize = 0;
    while i < parts.len()
        invariant
            i <= parts@.len(),
            all == part_views(parts@),
            start == pairs_map(old(pairs)@),
            pairs_map(pairs@) == names_in(all.take(i as int), start),
        decreases parts@.len() - i,
    {
        let ghost before = pairs@;
        assert(all.take(i + 1).drop_last() == all.take(i as int));
        assert(all.take(i + 1).last() == parts@[i as int]@);
        if let MessagePart::ToolCall { id, name, .. } = &parts[i] {
            if !id.as_str().is_empty() {
                pairs.push((id.clone(), name.clone()));
                assert(pairs@.drop_last() == before);
            }
        }
        i += 1;
    }
    assert(all.take(all.len() as int) == all);
}

fn tool_call_id_to_name(messages: &Vec<ModelMessage>) -> (r: Vec<(String, String)>)
    ensures
        pairs_map(r@) == call_names(message_views(messages@)),
{
    let ghost all = message_views(messages@);
    let mut pairs: Vec<(String, String)> = Vec::new();
    assert(all.take(0) == Seq::<MessageView>::empty());
    let mut i: usize = 0;
    while i < messages.len()
        invariant
            i <= messages@.len(),
            all == message_views(messages@),
            pairs_map(pairs@) == call_names(all.take(i as int)),
        decreases messages@.len() - i,
    {
        assert(all.take(i + 1).drop_last() == all.take(i as int));
        assert(all.take(i + 1).last() == messages@[i as int]@);
        add_names(&messages[i].content, &mut pairs);
        i += 1;
    }
    assert(all.take(all.len() as int) == all);
    pairs
}

/// The name of a call by its identifier, or the identifier itself.
pub open spec fn name_of(names: Map<Seq<char>, Seq<char>>, id: Seq<char>) -> Seq<char> {
    if names.contains_key(id) {
        names[id]
    } else {
        id
    }
}

fn find_name(pairs: &Vec<(String, String)>, id: &str) -> (r: String)
    ensures
        r@ == name_of(pairs_map(pairs@), id@),
{
    let ghost all = pairs@;
    let mut i: usize = pairs.len();
    assert(all.take(i as int) == all);
    while i > 0
        invariant
            i <= pairs@.len(),
            all == pairs@,
            name_of(pairs_map(all.take(i as int)), id@) == name_of(pairs_map(all), id@),
        decreases i,
    {
        assert(all.take(i as int).drop_last() == all.take(i - 1));
        if str_eq(pairs[i - 1].0.as_str(), id) {
            return pairs[i - 1].1.clone();
        }
        i -= 1;
    }
    copy_str(id)
}

/// The arguments of a call: its own, or what their text stands for, or none.
pub open spec fn call_args(arguments: JsonView, raw: Seq<char>) -> JsonView {
    if arguments is Null {
        match parsed_json(raw) {
            Ok(v) => v,
            Err(_) => JsonView::Object(Map::empty()),
        }
    } else {
        arguments
    }
}

/// The result of a tool as an object: as it is where it is one, else under
/// `output`.
pub open spec fn response_object(content: Seq<char>) -> JsonView {
    match parsed_json(content) {
        Ok(JsonView::Object(m)) => JsonView::Object(m),
        _ => object1("output"@, str_json(content)),
    }
}

/// The part of the content that a part of a message is.
pub open spec fn gemini_part(
    part: PartView,
    role: ModelRole,
    names: Map<Seq<char>, Seq<char>>,
) -> Option<JsonView> {
    match part {
        PartView::Text { text } => if text.len() > 0 {
            Some(object1("text"@, str_json(text)))
        } else {
            None
        },
        PartView::Image { mime_type, data } => if role == ModelRole::User {
            Some(
                object1(
                    "inlineData"@,
                    object2("mimeType"@, str_json(mime_type), "data"@, str_json(data)),
                ),
            )
        } else {
            None
        },
        PartView::ImageUrl { url } => if role == ModelRole::User {
            Some(object1("fileData"@, object1("fileUri"@, str_json(url))))
        } else {
            None
        },
        PartView::ToolCall { name, arguments, arguments_raw, signature, .. } => if role
            == ModelRole::Assistant {
            Some(
                JsonView::Object(
                    with_field(
                        Map::empty().insert(
                            "functionCall"@,
                            object2(
                                "name"@,
                                str_json(name),
                                "args"@,
                                call_args(arguments, arguments_raw),
                            ),
                        ),
                        "thoughtSignature"@,
                        match signature {
                            Some(s) => Some(str_json(s)),
                            None => None,
                        },
                    ),
                ),
            )
        } else {
            None
        },
        PartView::ToolResult { tool_call_id, content, .. } => Some(
            object1(
                "functionResponse"@,
                object2(
                    "name"@,
                    str_json(name_of(names, tool_call_id)),
                    "response"@,
                    response_object(content),
                ),
            ),
        ),
        PartView::Reasoning { .. } => None,
    }
}

/// The parts of the content that the parts of a message are, in order.
pub open spec fn gemini_parts(
    parts: Seq<PartView>,
    role: ModelRole,
    names: Map<Seq<char>, Seq<char>>,
) -> Seq<JsonView>
    decreases parts.len(),
{
    if parts.len() == 0 {
        Seq::empty()
    } else {
        let before = gemini_parts(parts.drop_last(), role, names);
        match gemini_part(parts.last(), role, names) {
            Some(p) => before.push(p),
            None => before,
        }
    }
}

fn make_response_object(content: &str) -> (r: Json)
    ensures
        r@ == response_object(content@),
{
    match Json::parse(content) {
        Ok(Json::Object(o)) => Json::Object(o),
        _ => make_object1("output", Json::string(content)),
    }
}

fn make_part(part: &MessagePart, role: ModelRole, pairs: &Vec<(String, String)>) -> (r: Option<Json>)
    ensures
        crate::json::opt_json(r) == gemini_part(part@, role, pairs_map(pairs@)),
{
    match part {
        MessagePart::Text { text } => if text.as_str().is_empty() {
            None
        } else {
            Some(make_object1("text", Json::string(text.as_str())))
        },
        MessagePart::Image { mime_type, data } => if role == ModelRole::User {
            let inner = make_object2(
                "mimeType",
                Json::string(mime_type.as_str()),
                "data",
                Json::string(data.as_str()),
            );
            Some(make_object1("inlineData", inner))
        } else {
            None
        },
        MessagePart::ImageUrl { url } => if role == ModelRole::User {
            Some(make_object1("fileData", make_object1("fileUri", Json::string(url.as_str()))))
        } else {
            None
        },
        MessagePart::ToolCall { name, arguments, arguments_raw, signature, .. } => if role
            == ModelRole::Assistant {
            let args = if arguments.is_null() {
                match Json::parse(arguments_raw.as_str()) {
                    Ok(v) => v,
                    Err(_) => Json::Object(Object::new()),
                }
            } else {
                arguments.copy()
            };
            let mut o = Object::new();
            o.set("functionCall", make_object2("name", Json::string(name.as_str()), "args", args));
            if let Some(s) = signature {
                o.set("thoughtSignature", Json::string(s.as_str()));
            }
            Some(Json::Object(o))
        } else {
            None
        },
        MessagePart::ToolResult { tool_call_id, content, .. } => {
            let name = find_name(pairs, tool_call_id.as_str());
            let inner = make_object2(
                "name",
                Json::Str(name),
                "response",
                make_response_object(content.as_str()),
            );
            Some(make_object1("functionResponse", inner))
        },
        MessagePart::Reasoning { .. } => None,
    }
}

fn gemini_parts_from_message(message: &ModelMessage, pairs: &Vec<(String, String)>) -> (r: Vec<
    Json,
>)
    ensures
        items_view(r@) == gemini_parts(message@.content, message.role, pairs_map(pairs@)),
{
    let ghost all = message@.content;
    let mut out: Vec<Json> = Vec::new();
    assert(items_view(out@) == Seq::<JsonView>::empty());
    assert(all.take(0) == Seq::<PartView>::empty());
    let mut i: usize = 0;
    while i < message.content.len()
        invariant
            i <= message.content@.len(),
            all == part_views(message.content@),
            items_view(out@) == gemini_parts(
                all.take(i as int),
                message.role,
                pairs_map(pairs@),
            ),
        decreases message.content@.len() - i,
    {
        let ghost before = out@;
        assert(all.take(i + 1).drop_last() == all.take(i as int));
        assert(all.take(i + 1).last() == message.content@[i as int]@);
        if let Some(p) = make_part(&message.content[i], message.role, pairs) {
            out.push(p);
            assert(items_view(out@) == items_view(before).push(p@));
        }
        i += 1;
    }
    assert(all.take(all.len() as int) == all);
    out
}

/// The contents that messages are before neighbours are merged; a message
/// without parts is left out.
pub open spec fn contents_of(
    messages: Seq<MessageView>,
    names: Map<Seq<char>, Seq<char>>,
) -> Seq<JsonView>
    decreases messages.len(),
{
    if messages.len() == 0 {
        Seq::empty()
    } else {
        let before = contents_of(messages.drop_last(), names);
        let m = messages.last();
        let parts = gemini_parts(m.content, m.role, names);
        if parts.len() == 0 {
            before
        } else {
            before.push(
                object2(
                    "role"@,
                    str_json(
                        if m.role == ModelRole::Assistant {
                            "model"@
                        } else {
                            "user"@
                        },
                    ),
                    "parts"@,
                    JsonView::Array(parts),
                ),
            )
        }
    }
}

/// The contents of a request.
pub open spec fn gemini_contents(messages: Seq<MessageView>) -> Seq<JsonView> {
    roles_merged(contents_of(messages, call_names(messages)), "parts"@)
}

/// The contents of a request. The service knows a tool call by its name, so a
/// result carries the name of the call that it answers.
pub fn gemini_contents_from_generate_request(request: &GenerateRequest) -> (r: Vec<Json>)
    ensures
        items_view(r@) == gemini_contents(message_views(request.messages@)),
{
    let pairs = tool_call_id_to_name(&request.messages);
    let ghost all = message_views(request.messages@);
    let ghost names = pairs_map(pairs@);
    let mut out: Vec<Json> = Vec::new();
    assert(items_view(out@) == Seq::<JsonView>::empty());
    assert(all.take(0) == Seq::<MessageView>::empty());
    let mut i: usize = 0;
    while i < request.messages.len()
        invariant
            i <= request.messages@.len(),
            all == message_views(request.messages@),
            names == pairs_map(pairs@),
            items_view(out@) == contents_of(all.take(i as int), names),
        decreases request.messages@.len() - i,
    {
        let ghost before = out@;
        assert(all.take(i + 1).drop_last() == all.take(i as int));
        assert(all.take(i + 1).last() == request.messages@[i as int]@);
        let message = &request.messages[i];
        let role = if message.role == ModelRole::Assistant {
            "model"
        } else {
            "user"
        };
        let parts = gemini_parts_from_message(message, &pairs);
        assert(items_view(parts@).len() == parts@.len());
        if parts.len() > 0 {
            let c = make_object2("role", Json::string(role), "parts", Json::Array(parts));
            out.push(c);
            assert(items_view(out@) == items_view(before).push(c@));
        }
        i += 1;
    }
    assert(all.take(all.len() as int) == all);
    merge_roles(&out, "parts")
}

// ---------------------------------------------------------------------
// Tools
// ---------------------------------------------------------------------

/// The fields of a schema that the service does not take.
pub open spec fn stripped(m: Map<Seq<char>, JsonView>) -> Map<Seq<char>, JsonView> {
    m.remove("$schema"@).remove("additionalProperties"@).remove("$defs"@).remove(
        "definitions"@,
    ).remove("$id"@).remove("$ref"@).remove("title"@)
}

/// An object with a description; another value as it is.
pub open spec fn object_described(value: JsonView, description: Option<JsonView>) -> JsonView {
    match (value, description) {
        (JsonView::Object(m), Some(d)) => JsonView::Object(m.insert("description"@, d)),
        _ => value,
    }
}

/// A schema as the service takes it: one that may be null is the other
/// alternative, the fields that it does not take are gone, and so for the
/// schemas of properties and items. (An object always has finitely many fields.)
pub open spec fn gemini_schema(schema: JsonView) -> JsonView
    decreases schema,
    via gemini_schema_decreases
{
    match schema {
        JsonView::Object(m) => if !m.dom().finite() {
            schema
        } else {
            match nullable_of(schema) {
                Some(alternative) => object_described(
                    gemini_schema(alternative),
                    crate::json::lookup(m, "description"@),
                ),
                None => {
                    let with_properties = match crate::json::lookup(m, "properties"@) {
                        Some(JsonView::Object(props)) => stripped(m).insert(
                            "properties"@,
                            JsonView::Object(all_schemas(props)),
                        ),
                        _ => stripped(m),
                    };
                    JsonView::Object(
                        match crate::json::lookup(m, "items"@) {
                            Some(items) => with_properties.insert(
                                "items"@,
                                gemini_schema(items),
                            ),
                            None => with_properties,
                        },
                    )
                },
            }
        },
        _ => schema,
    }
}

/// The schemas under their keys as the service takes them.
pub open spec fn all_schemas(props: Map<Seq<char>, JsonView>) -> Map<Seq<char>, JsonView>
    decreases props,
{
    Map::new(
        |k: Seq<char>| props.contains_key(k),
        |k: Seq<char>|
            if props.contains_key(k) && props.dom().finite() {
                gemini_schema(props[k])
            } else {
                JsonView::Null
            },
    )
}

#[via_fn]
proof fn gemini_schema_decreases(schema: JsonView) {
    if let JsonView::Object(m) = schema {
        if m.dom().finite() {
            match nullable_of(schema) {
                Some(alternative) => {
                    let list = m["anyOf"@]->Array_0;
                    assert(decreases_to!(schema => m));
                    assert(decreases_to!(m => m["anyOf"@]));
                    assert(decreases_to!(m["anyOf"@] => list));
                    assert(decreases_to!(list => list[0]));
                    assert(decreases_to!(list => list[1]));
                },
                None => {
                    assert(decreases_to!(schema => m));
                    if m.contains_key("items"@) {
                        assert(decreases_to!(m => m["items"@]));
                    }
                    if m.contains_key("properties"@) {
                        assert(decreases_to!(m => m["properties"@]));
                        if let JsonView::Object(props) = m["properties"@] {
                            assert(decreases_to!(m["properties"@] => props));
                        }
                    }
                },
            }
        }
    }
}

fn normalize_properties(props: &Object) -> (r: Object)
    ensures
        r@ == all_schemas(props@),
    decreases props,
{
    let ghost all = props.fields@;
    let mut out = Object::new();
    assert(all.take(0) == Seq::<(String, Json)>::empty());
    assert(all_schemas(Map::empty()) =~= Map::<Seq<char>, JsonView>::empty());
    let mut i: usize = 0;
    while i < props.fields.len()
        invariant
            i <= props.fields@.len(),
            all == props.fields@,
            out@ == all_schemas(fields_view(all.take(i as int))),
        decreases props.fields@.len() - i,
    {
        let ghost m = fields_view(all.take(i as int));
        let ghost k = all[i as int].0@;
        let ghost v = crate::json::json_view(all[i as int].1);
        assert(all.take(i + 1).drop_last() == all.take(i as int));
        assert(decreases_to!(props => props.fields@[i as int].1));
        let value = normalize_gemini_schema(&props.fields[i].1);
        out.set(props.fields[i].0.as_str(), value);
        proof {
            lemma_fields_finite(all.take(i as int));
        }
        assert(all_schemas(m).insert(k, gemini_schema(v)) =~= all_schemas(m.insert(k, v)));
        i += 1;
    }
    assert(all.take(all.len() as int) == all);
    out
}

/// A schema as the service takes it.
pub fn normalize_gemini_schema(schema: &Json) -> (r: Json)
    ensures
        r@ == gemini_schema(schema@),
    decreases schema,
{
    let object = match schema {
        Json::Object(o) => o,
        _ => {
            return schema.copy();
        },
    };
    proof {
        lemma_fields_finite(object.fields@);
    }
    if let Some(alternative) = other_than_null(schema) {
        let inner = normalize_gemini_schema(alternative);
        return match inner {
            Json::Object(o) => match object.get("description") {
                Some(d) => {
                    let mut described = o;
                    described.set("description", d.copy());
                    Json::Object(described)
                },
                None => Json::Object(o),
            },
            other => other,
        };
    }
    let mut out = object.without("$schema").without("additionalProperties").without(
        "$defs",
    ).without("definitions").without("$id").without("$ref").without("title");
    assert(decreases_to!(schema => object));
    if let Some(properties) = object.get("properties") {
        if let Json::Object(props) = properties {
            proof {
                lemma_fields_finite(props.fields@);
                assert(decreases_to!(properties => props));
            }
            out.set("properties", Json::Object(normalize_properties(props)));
        }
    }
    if let Some(items) = object.get("items") {
        out.set("items", normalize_gemini_schema(items));
    }
    Json::Object(out)
}

/// A tool as the service takes it.
pub open spec fn declaration(tool: ToolView) -> JsonView {
    object3(
        "name"@,
        str_json(tool.call_name()),
        "description"@,
        str_json(tool.description),
        "parameters"@,
        gemini_schema(tool.input_schema),
    )
}

/// The tools as the service takes them, and the names they have: the first of a
/// name counts, and one without a name is left out.
pub open spec fn declarations(tools: Seq<ToolView>) -> (Seq<JsonView>, Seq<Seq<char>>)
    decreases tools.len(),
{
    if tools.len() == 0 {
        (Seq::empty(), Seq::empty())
    } else {
        let before = declarations(tools.drop_last());
        let name = tools.last().call_name();
        if name.len() == 0 || before.1.contains(name) {
            before
        } else {
            (before.0.push(declaration(tools.last())), before.1.push(name))
        }
    }
}

/// The tools as the service takes them.
pub fn gemini_function_declarations(tools: &Vec<ModelTool>) -> (r: Vec<Json>)
    ensures
        items_view(r@) == declarations(tool_views(tools@)).0,
{
    let ghost all = tool_views(tools@);
    let mut out: Vec<Json> = Vec::new();
    let mut names: Vec<String> = Vec::new();
    assert(items_view(out@) == Seq::<JsonView>::empty());
    assert(strings(names@) == Seq::<Seq<char>>::empty());
    assert(all.take(0) == Seq::<ToolView>::empty());
    let mut i: usize = 0;
    while i < tools.len()
        invariant
            i <= tools@.len(),
            all == tool_views(tools@),
            (items_view(out@), strings(names@)) == declarations(all.take(i as int)),
        decreases tools@.len() - i,
    {
        let ghost out_before = out@;
        let ghost names_before = names@;
        assert(all.take(i + 1).drop_last() == all.take(i as int));
        assert(all.take(i + 1).last() == tools@[i as int]@);
        let name = tools[i].openai_tool_name();
        if !name.as_str().is_empty() && !list_contains(&names, name.as_str()) {
            let tool = make_object3(
                "name",
                Json::string(name.as_str()),
                "description",
                Json::string(tools[i].description.as_str()),
                "parameters",
                normalize_gemini_schema(&tools[i].input_schema),
            );
            out.push(tool);
            names.push(name);
            assert(items_view(out@) == items_view(out_before).push(tool@));
            assert(strings(names@) == strings(names_before).push(name@));
        }
        i += 1;
    }
    assert(all.take(all.len() as int) == all);
    out
}

/// How a reply is to be generated.
pub open spec fn generation_config(request: GenerateRequest) -> JsonView {
    JsonView::Object(
        with_field(
            Map::empty().insert("temperature"@, request.options.temperature@).insert(
                "maxOutputTokens"@,
                JsonView::Number(JsonNumber::Unsigned(request.options.max_tokens as u64)),
            ),
            "thinkingConfig"@,
            match chosen_level(request.options.thinking_level) {
                Some(_) => Some(object1("includeThoughts"@, JsonView::Bool(true))),
                None => None,
            },
        ),
    )
}

/// The body of a request; the user's own fields come last and win.
pub open spec fn gemini_body(request: GenerateRequest) -> JsonView {
    let base = Map::empty().insert(
        "contents"@,
        JsonView::Array(gemini_contents(message_views(request.messages@))),
    ).insert("generationConfig"@, generation_config(request));
    let instructed = with_field(
        base,
        "systemInstruction"@,
        if is_blank_text(request.system@) {
            None
        } else {
            Some(
                object1(
                    "parts"@,
                    JsonView::Array(seq![object1("text"@, str_json(request.system@))]),
                ),
            )
        },
    );
    let tools = declarations(tool_views(request.tools@)).0;
    let tooled = if tools.len() > 0 {
        instructed.insert(
            "tools"@,
            JsonView::Array(seq![object1("functionDeclarations"@, JsonView::Array(tools))]),
        ).insert(
            "toolConfig"@,
            object1("functionCallingConfig"@, object1("mode"@, str_json("AUTO"@))),
        )
    } else {
        instructed
    };
    JsonView::Object(overridden(tooled, request.options.provider_options@))
}

fn single(value: Json) -> (r: Json)
    ensures
        r@ == JsonView::Array(seq![value@]),
{
    let mut list: Vec<Json> = Vec::new();
    list.push(value);
    assert(items_view(list@) == seq![value@]);
    Json::Array(list)
}

impl<'a> GeminiProvider<'a> {
    pub fn new(provider: &'a ModelProvider, retry_attempts: usize) -> (r: GeminiProvider<'a>)
        ensures
            r.provider == provider,
            r.retry_attempts == retry_attempts,
    {
        GeminiProvider { provider, retry_attempts }
    }

    /// Where requests go.
    pub fn endpoint_url(&self, model: &str, stream: bool) -> (r: String)
        ensures
            r@ == endpoint(self.provider.base_url@, model@, stream),
    {
        gemini_url(self.provider.base_url.as_str(), model, stream)
    }

    /// The body of a request. Model, method and streaming stand in the URL.
    pub fn request_body(&self, request: &GenerateRequest) -> (r: Json)
        ensures
            r@ == gemini_body(*request),
    {
        let mut config = Object::new();
        config.set("temperature", request.options.temperature.copy());
        config.set("maxOutputTokens", Json::unsigned(request.options.max_tokens as u64));
        if let Some(level) = &request.options.thinking_level {
            if !level.as_str().is_empty() {
                config.set("thinkingConfig", make_object1("includeThoughts", Json::Bool(true)));
            }
        }
        let mut o = Object::new();
        o.set("contents", Json::Array(gemini_contents_from_generate_request(request)));
        o.set("generationConfig", Json::Object(config));
        if !is_blank(request.system.as_str()) {
            let part = make_object1("text", Json::string(request.system.as_str()));
            o.set("systemInstruction", make_object1("parts", single(part)));
        }
        let tools = gemini_function_declarations(&request.tools);
        assert(items_view(tools@).len() == tools@.len());
        if tools.len() > 0 {
            o.set("tools", single(make_object1("functionDeclarations", Json::Array(tools))));
            o.set(
                "toolConfig",
                make_object1(
                    "functionCallingConfig",
                    make_object1("mode", Json::string("AUTO")),
                ),
            );
        }
        apply_overrides(&mut o, &request.options.provider_options);
        Json::Object(o)
    }
}

// ---------------------------------------------------------------------
// Replies
// ---------------------------------------------------------------------

/// The first candidate of a reply.
pub open spec fn candidate(value: JsonView) -> Option<JsonView> {
    match value.field("candidates"@) {
        Some(c) => c.item(0),
        None => None,
    }
}

/// The parts of the first candidate.
pub open spec fn reply_parts(value: JsonView) -> Seq<JsonView> {
    match candidate(value) {
        Some(c) => match c.path("content"@, "parts"@) {
            Some(JsonView::Array(parts)) => parts,
            _ => Seq::empty(),
        },
        None => Seq::empty(),
    }
}

/// The first signature of a thought among the parts.
pub open spec fn signature_in(parts: Seq<JsonView>) -> Option<Seq<char>>
    decreases parts.len(),
{
    if parts.len() == 0 {
        None
    } else {
        or_else(
            signature_in(parts.drop_last()),
            filled(parts.last().field("thoughtSignature"@)),
        )
    }
}

/// A piece of a reply.
#[derive(Debug)]
pub enum GeminiPiece {
    Call(PendingToolCall),
    Thought(String),
    Text(String),
}

/// The value of a piece.
#[verifier::ext_equal]
pub enum PieceView {
    Call(CallView),
    Thought(Seq<char>),
    Text(Seq<char>),
}

impl View for GeminiPiece {
    type V = PieceView;

    open spec fn view(&self) -> PieceView {
        match *self {
            GeminiPiece::Call(c) => PieceView::Call(c@),
            GeminiPiece::Thought(t) => PieceView::Thought(t@),
            GeminiPiece::Text(t) => PieceView::Text(t@),
        }
    }
}

/// The values of the pieces, in order.
pub open spec fn piece_views(v: Seq<GeminiPiece>) -> Seq<PieceView> {
    Seq::new(v.len(), |i: int| v[i]@)
}

/// The tool call that a part is, under the identifier `fresh`; a call without a
/// signature of its own takes `carry`.
pub open spec fn part_call(part: JsonView, fresh: Seq<char>, carry: Option<Seq<char>>) -> Option<
    CallView,
> {
    match part.field("functionCall"@) {
        None => None,
        Some(call) => match call.field_text("name"@) {
            None => None,
            Some(name) => {
                let args = match call.field("args"@) {
                    Some(a) => a,
                    None => JsonView::Object(Map::empty()),
                };
                let raw = json_text(args);
                let (arguments, error) = arguments_of(raw);
                Some(
                    CallView {
                        id: fresh,
                        function_name: name,
                        arguments,
                        arguments_raw: raw,
                        arguments_parse_error: error,
                        signature: or_else(filled(part.field("thoughtSignature"@)), carry),
                    },
                )
            },
        },
    }
}

/// The piece that a part is: a tool call, or a text that is not empty.
pub open spec fn part_piece(part: JsonView, fresh: Seq<char>, carry: Option<Seq<char>>) -> Option<
    PieceView,
> {
    match part_call(part, fresh, carry) {
        Some(c) => Some(PieceView::Call(c)),
        None => match filled(part.field("text"@)) {
            Some(t) => if part.field_truth("thought"@) == Some(true) {
                Some(PieceView::Thought(t))
            } else {
                Some(PieceView::Text(t))
            },
            None => None,
        },
    }
}

/// The pieces that the parts are, in order; part `i` takes the identifier
/// `fresh[i]`.
pub open spec fn pieces_of(
    parts: Seq<JsonView>,
    fresh: Seq<Seq<char>>,
    carry: Option<Seq<char>>,
) -> Seq<PieceView>
    decreases parts.len(),
{
    if parts.len() == 0 {
        Seq::empty()
    } else {
        let before = pieces_of(parts.drop_last(), fresh, carry);
        match part_piece(parts.last(), fresh[parts.len() - 1], carry) {
            Some(p) => before.push(p),
            None => before,
        }
    }
}

/// What the pieces hold together: text, thoughts, whether there are thoughts,
/// and tool calls.
#[verifier::ext_equal]
pub struct PiecesView {
    pub text: Seq<char>,
    pub thoughts: Seq<char>,
    pub thought: bool,
    pub calls: Seq<CallView>,
}

/// What the pieces add to what there is.
pub open spec fn pieces_added(start: PiecesView, pieces: Seq<PieceView>) -> PiecesView
    decreases pieces.len(),
{
    if pieces.len() == 0 {
        start
    } else {
        let before = pieces_added(start, pieces.drop_last());
        match pieces.last() {
            PieceView::Call(c) => PiecesView { calls: before.calls.push(c), ..before },
            PieceView::Thought(t) => PiecesView {
                thoughts: before.thoughts + t,
                thought: true,
                ..before
            },
            PieceView::Text(t) => PiecesView { text: before.text + t, ..before },
        }
    }
}

/// What is told of the pieces.
pub open spec fn pieces_told(pieces: Seq<PieceView>) -> Seq<StreamView>
    decreases pieces.len(),
{
    if pieces.len() == 0 {
        Seq::empty()
    } else {
        let before = pieces_told(pieces.drop_last());
        match pieces.last() {
            PieceView::Call(call) => before + seq![
                StreamView::ToolCallStart { id: call.id, name: call.function_name },
                StreamView::ToolCallDelta { id: call.id, delta: call.arguments_raw },
                StreamView::ToolCallDone { call },
            ],
            PieceView::Thought(t) => before + told(Some(t), true),
            PieceView::Text(t) => before + told(Some(t), false),
        }
    }
}

/// Nothing yet.
pub open spec fn no_pieces() -> PiecesView {
    PiecesView { text: Seq::empty(), thoughts: Seq::empty(), thought: false, calls: Seq::empty() }
}

/// Why a reply ended, in the words of chat completions: tools are called where
/// there are calls.
pub open spec fn finish_text(reason: Seq<char>, calls: bool) -> Seq<char> {
    if calls {
        "tool_calls"@
    } else if reason == "MAX_TOKENS"@ {
        "length"@
    } else {
        lower(reason)
    }
}

/// Why a reply ended, in the words of chat completions.
pub fn normalize_finish_reason(reason: &str, has_tool_calls: bool) -> (r: String)
    ensures
        r@ == finish_text(reason@, has_tool_calls),
{
    if has_tool_calls {
        copy_str("tool_calls")
    } else if str_eq(reason, "MAX_TOKENS") {
        copy_str("length")
    } else {
        to_lower(reason)
    }
}

/// The reason that a reply gives for its end.
pub open spec fn given_reason(value: JsonView) -> Option<Seq<char>> {
    match candidate(value) {
        Some(c) => c.field_text("finishReason"@),
        None => None,
    }
}

/// The tokens that the service reports.
pub open spec fn reported_usage(value: JsonView) -> Option<ModelUsage> {
    match value.field("usageMetadata"@) {
        None => None,
        Some(meta) => Some(
            ModelUsage {
                input_tokens: meta.field_unsigned("promptTokenCount"@),
                output_tokens: meta.field_unsigned("candidatesTokenCount"@),
                total_tokens: meta.field_unsigned("totalTokenCount"@),
                cached_input_tokens: meta.field_unsigned("cachedContentTokenCount"@),
                cache_creation_input_tokens: None,
                reasoning_tokens: meta.field_unsigned("thoughtsTokenCount"@),
            },
        ),
    }
}

/// The message of an error that the service reports.
pub open spec fn error_text(value: JsonView) -> Option<Seq<char>> {
    match value.path("error"@, "message"@) {
        Some(v) => v.text(),
        None => None,
    }
}

/// A call as chat completions write it, with the signature of its thought, which
/// comes back when the call is sent again.
pub open spec fn signed_item(call: CallView) -> JsonView {
    match call_item(call.id, call.function_name, call.arguments_raw) {
        JsonView::Object(m) => JsonView::Object(
            with_field(
                m,
                "thought_signature"@,
                match call.signature {
                    Some(s) => Some(str_json(s)),
                    None => None,
                },
            ),
        ),
        other => other,
    }
}

/// The calls as chat completions write them, in order.
pub open spec fn signed_items(calls: Seq<CallView>) -> Seq<JsonView> {
    Seq::new(calls.len(), |i: int| signed_item(calls[i]))
}

/// A reply made of its parts.
pub open spec fn gemini_output(
    text: Seq<char>,
    reasoning: Option<Seq<char>>,
    calls: Seq<CallView>,
    reason: Seq<char>,
    usage: Option<ModelUsage>,
) -> OutputView {
    OutputView {
        text,
        reasoning,
        tool_calls: calls,
        usage,
        finish_reason: Some(reason),
        provider_messages: seq![compatible_message(text, reasoning, signed_items(calls), reason)],
        cancelled: false,
    }
}

/// The reply that a response is.
pub open spec fn response_output(
    value: JsonView,
    label: Seq<char>,
    fresh: Seq<Seq<char>>,
) -> Result<OutputView, Seq<char>> {
    match error_text(value) {
        Some(m) => Err(label + ": "@ + m),
        None => {
            let parts = reply_parts(value);
            let all = pieces_added(no_pieces(), pieces_of(parts, fresh, signature_in(parts)));
            let reason = finish_text(
                match given_reason(value) {
                    Some(r) => r,
                    None => "stop"@,
                },
                all.calls.len() > 0,
            );
            Ok(
                gemini_output(
                    all.text,
                    if all.thought {
                        Some(all.thoughts)
                    } else {
                        None
                    },
                    all.calls,
                    reason,
                    reported_usage(value),
                ),
            )
        },
    }
}

fn candidate_of<'a>(value: &'a Json) -> (r: Option<&'a Json>)
    ensures
        crate::json::opt_ref(r) == candidate(value@),
{
    match value.get("candidates") {
        Some(c) => c.item(0),
        None => None,
    }
}

fn parts_of_reply(value: &Json) -> (r: Vec<Json>)
    ensures
        items_view(r@) == reply_parts(value@),
{
    let none: Vec<Json> = Vec::new();
    assert(items_view(none@) == Seq::<JsonView>::empty());
    match candidate_of(value) {
        Some(c) => match c.get_path("content", "parts") {
            Some(Json::Array(parts)) => crate::json::copy_items(parts),
            _ => none,
        },
        None => none,
    }
}

fn candidate_signature(parts: &Vec<Json>) -> (r: Option<String>)
    ensures
        opt_text(r) == signature_in(items_view(parts@)),
{
    let ghost all = items_view(parts@);
    let mut out: Option<String> = None;
    assert(all.take(0) == Seq::<JsonView>::empty());
    let mut i: usize = 0;
    while i < parts.len()
        invariant
            i <= parts@.len(),
            all == items_view(parts@),
            opt_text(out) == signature_in(all.take(i as int)),
        decreases parts@.len() - i,
    {
        assert(all.take(i + 1).drop_last() == all.take(i as int));
        assert(all.take(i + 1).last() == parts@[i as int]@);
        if out.is_none() {
            out = filled_text(parts[i].get("thoughtSignature"));
        }
        i += 1;
    }
    assert(all.take(all.len() as int) == all);
    out
}

fn parse_part_call(part: &Json, fresh: &str, carry: &Option<String>) -> (r: Option<PendingToolCall>)
    ensures
        match r {
            Some(c) => part_call(part@, fresh@, opt_text(*carry)) == Some(c@),
            None => part_call(part@, fresh@, opt_text(*carry)) is None,
        },
{
    let call = match part.get("functionCall") {
        Some(c) => c,
        None => {
            return None;
        },
    };
    let name = match call.get_str("name") {
        Some(n) => n,
        None => {
            return None;
        },
    };
    let args = match call.get("args") {
        Some(a) => a.copy(),
        None => Json::Object(Object::new()),
    };
    let raw = args.to_text();
    let (arguments, error) = parse_tool_arguments(raw.as_str());
    let signature = match filled_text(part.get("thoughtSignature")) {
        Some(s) => Some(s),
        None => copy_opt(carry),
    };
    Some(
        PendingToolCall {
            id: copy_str(fresh),
            function_name: copy_str(name),
            arguments,
            arguments_raw: raw,
            arguments_parse_error: error,
            signature,
        },
    )
}

fn parse_piece(part: &Json, fresh: &str, carry: &Option<String>) -> (r: Option<GeminiPiece>)
    ensures
        match r {
            Some(p) => part_piece(part@, fresh@, opt_text(*carry)) == Some(p@),
            None => part_piece(part@, fresh@, opt_text(*carry)) is None,
        },
{
    if let Some(c) = parse_part_call(part, fresh, carry) {
        return Some(GeminiPiece::Call(c));
    }
    match filled_text(part.get("text")) {
        Some(t) => match part.get_bool("thought") {
            Some(true) => Some(GeminiPiece::Thought(t)),
            _ => Some(GeminiPiece::Text(t)),
        },
        None => None,
    }
}

/// The pieces that the parts are; part `i` takes the identifier `fresh[i]`.
pub fn read_parts(parts: &Vec<Json>, fresh: &Vec<String>, carry: &Option<String>) -> (r: Vec<
    GeminiPiece,
>)
    requires
        fresh@.len() >= parts@.len(),
    ensures
        piece_views(r@) == pieces_of(items_view(parts@), strings(fresh@), opt_text(*carry)),
{
    let ghost all = items_view(parts@);
    let ghost ids = strings(fresh@);
    let mut out: Vec<GeminiPiece> = Vec::new();
    assert(piece_views(out@) == Seq::<PieceView>::empty());
    assert(all.take(0) == Seq::<JsonView>::empty());
    let mut i: usize = 0;
    while i < parts.len()
        invariant
            i <= parts@.len() <= fresh@.len(),
            all == items_view(parts@),
            ids == strings(fresh@),
            piece_views(out@) == pieces_of(all.take(i as int), ids, opt_text(*carry)),
        decreases parts@.len() - i,
    {
        let ghost before = out@;
        assert(all.take(i + 1).drop_last() == all.take(i as int));
        assert(all.take(i + 1).last() == parts@[i as int]@);
        if let Some(p) = parse_piece(&parts[i], fresh[i].as_str(), carry) {
            out.push(p);
            assert(piece_views(out@) == piece_views(before).push(p@));
        }
        i += 1;
    }
    assert(all.take(all.len() as int) == all);
    out
}

/// What pieces hold together.
struct Pieces {
    text: String,
    thoughts: String,
    thought: bool,
    calls: Vec<PendingToolCall>,
}

impl View for Pieces {
    type V = PiecesView;

    closed spec fn view(&self) -> PiecesView {
        PiecesView {
            text: self.text@,
            thoughts: self.thoughts@,
            thought: self.thought,
            calls: call_views(self.calls@),
        }
    }
}

fn add_pieces(start: Pieces, pieces: &Vec<GeminiPiece>) -> (r: Pieces)
    ensures
        r@ == pieces_added(start@, piece_views(pieces@)),
{
    let ghost all = piece_views(pieces@);
    let ghost first = start@;
    let mut out = start;
    assert(all.take(0) == Seq::<PieceView>::empty());
    let mut i: usize = 0;
    while i < pieces.len()
        invariant
            i <= pieces@.len(),
            all == piece_views(pieces@),
            out@ == pieces_added(first, all.take(i as int)),
        decreases pieces@.len() - i,
    {
        let ghost before = out@;
        assert(all.take(i + 1).drop_last() == all.take(i as int));
        assert(all.take(i + 1).last() == pieces@[i as int]@);
        match &pieces[i] {
            GeminiPiece::Call(c) => {
                let call = c.copy();
                out.calls.push(call);
                assert(call_views(out.calls@) == before.calls.push(call@));
            },
            GeminiPiece::Thought(t) => {
                out.thoughts.append(t.as_str());
                out.thought = true;
            },
            GeminiPiece::Text(t) => {
                out.text.append(t.as_str());
            },
        }
        i += 1;
    }
    assert(all.take(all.len() as int) == all);
    out
}

fn tell_pieces(pieces: &Vec<GeminiPiece>, parts: &mut Vec<StreamPart>)
    ensures
        stream_views(final(parts)@) == stream_views(old(parts)@) + pieces_told(
            piece_views(pieces@),
        ),
{
    let ghost all = piece_views(pieces@);
    assert(all.take(0) == Seq::<PieceView>::empty());
    let mut i: usize = 0;
    while i < pieces.len()
        invariant
            i <= pieces@.len(),
            all == piece_views(pieces@),
            stream_views(parts@) == stream_views(old(parts)@) + pieces_told(all.take(i as int)),
        decreases pieces@.len() - i,
    {
        assert(all.take(i + 1).drop_last() == all.take(i as int));
        assert(all.take(i + 1).last() == pieces@[i as int]@);
        match &pieces[i] {
            GeminiPiece::Call(c) => {
                emit(
                    parts,
                    StreamPart::ToolCallStart { id: c.id.clone(), name: c.function_name.clone() },
                );
                emit(
                    parts,
                    StreamPart::ToolCallDelta { id: c.id.clone(), delta: c.arguments_raw.clone() },
                );
                emit(parts, StreamPart::ToolCallDone { call: c.copy() });
            },
            GeminiPiece::Thought(t) => {
                emit(parts, StreamPart::ReasoningDelta { delta: t.clone() });
            },
            GeminiPiece::Text(t) => {
                emit(parts, StreamPart::TextDelta { delta: t.clone() });
            },
        }
        assert(stream_views(parts@) == stream_views(old(parts)@) + pieces_told(all.take(i + 1)));
        i += 1;
    }
    assert(all.take(all.len() as int) == all);
}

fn make_signed_items(calls: &Vec<PendingToolCall>) -> (r: Vec<Json>)
    ensures
        items_view(r@) == signed_items(call_views(calls@)),
{
    let ghost all = signed_items(call_views(calls@));
    let mut out: Vec<Json> = Vec::new();
    let mut i: usize = 0;
    while i < calls.len()
        invariant
            i <= calls@.len(),
            all == signed_items(call_views(calls@)),
            items_view(out@) == all.take(i as int),
        decreases calls@.len() - i,
    {
        let ghost before = out@;
        let item = make_call_item(
            calls[i].id.as_str(),
            calls[i].function_name.as_str(),
            calls[i].arguments_raw.as_str(),
        );
        let signed = match item {
            Json::Object(o) => {
                let mut object = o;
                if let Some(s) = &calls[i].signature {
                    object.set("thought_signature", Json::string(s.as_str()));
                }
                Json::Object(object)
            },
            other => other,
        };
        out.push(signed);
        assert(call_views(calls@)[i as int] == calls@[i as int]@);
        assert(signed@ == all[i as int]);
        assert(items_view(out@) == items_view(before).push(all[i as int]));
        i += 1;
    }
    assert(all.take(all.len() as int) == all);
    out
}

fn make_output(
    text: String,
    reasoning: Option<String>,
    tool_calls: Vec<PendingToolCall>,
    finish_reason: String,
    usage: Option<ModelUsage>,
) -> (r: GenerateOutput)
    ensures
        r@ == gemini_output(
            text@,
            opt_text(reasoning),
            call_views(tool_calls@),
            finish_reason@,
            usage,
        ),
{
    let calls = make_signed_items(&tool_calls);
    let message = openai_compatible_message(
        text.as_str(),
        &reasoning,
        calls,
        finish_reason.as_str(),
    );
    let mut provider_messages: Vec<Json> = Vec::new();
    provider_messages.push(message);
    assert(items_view(provider_messages@) == seq![message@]);
    GenerateOutput {
        text,
        reasoning,
        tool_calls,
        usage,
        finish_reason: Some(finish_reason),
        provider_messages,
        cancelled: false,
    }
}

fn gemini_error_message(value: &Json) -> (r: Option<String>)
    ensures
        opt_text(r) == error_text(value@),
{
    match value.get_path("error", "message") {
        Some(v) => crate::text::own_opt(v.as_str()),
        None => None,
    }
}

fn gemini_finish_reason_str(value: &Json) -> (r: Option<String>)
    ensures
        opt_text(r) == given_reason(value@),
{
    match candidate_of(value) {
        Some(c) => crate::text::own_opt(c.get_str("finishReason")),
        None => None,
    }
}

/// The tokens that the service reports.
pub fn gemini_usage(value: &Json) -> (r: Option<ModelUsage>)
    ensures
        r == reported_usage(value@),
{
    match value.get("usageMetadata") {
        None => None,
        Some(meta) => Some(
            ModelUsage {
                input_tokens: meta.get_u64("promptTokenCount"),
                output_tokens: meta.get_u64("candidatesTokenCount"),
                total_tokens: meta.get_u64("totalTokenCount"),
                cached_input_tokens: meta.get_u64("cachedContentTokenCount"),
                cache_creation_input_tokens: None,
                reasoning_tokens: meta.get_u64("thoughtsTokenCount"),
            },
        ),
    }
}

/// The reply that a response is; part `i` takes the identifier `fresh[i]`.
pub fn output_from_gemini_response_with(value: &Json, label: &str, fresh: &Vec<String>) -> (r:
    Result<GenerateOutput, ModelError>)
    requires
        fresh@.len() >= reply_parts(value@).len(),
    ensures
        output_result(r) == response_output(value@, label@, strings(fresh@)),
        r is Err ==> r->Err_0.kind == ModelErrorKind::Other,
{
    if let Some(m) = gemini_error_message(value) {
        return Err(ModelError::new(concat3(label, ": ", m.as_str()).as_str()));
    }
    let parts = parts_of_reply(value);
    assert(items_view(parts@).len() == parts@.len());
    let carry = candidate_signature(&parts);
    let pieces = read_parts(&parts, fresh, &carry);
    let calls: Vec<PendingToolCall> = Vec::new();
    assert(call_views(calls@) == Seq::<CallView>::empty());
    let start = Pieces { text: String::new(), thoughts: String::new(), thought: false, calls };
    assert(start@ == no_pieces());
    let all = add_pieces(start, &pieces);
    assert(call_views(all.calls@).len() == all.calls@.len());
    let given = match gemini_finish_reason_str(value) {
        Some(r) => r,
        None => copy_str("stop"),
    };
    let reason = normalize_finish_reason(given.as_str(), all.calls.len() > 0);
    let reasoning = if all.thought {
        Some(all.thoughts)
    } else {
        None
    };
    Ok(make_output(all.text, reasoning, all.calls, reason, gemini_usage(value)))
}

/// The reply that a response is. Tool calls get identifiers by chance.
pub fn output_from_gemini_response(value: &Json, label: &str) -> (r: Result<
    GenerateOutput,
    ModelError,
>)
    ensures
        r is Ok == error_text(value@) is None,
        exists|fresh: Seq<Seq<char>>|
            drawn(fresh, reply_parts(value@).len(), "call_"@) && output_result(r)
                == #[trigger] response_output(value@, label@, fresh),
{
    let parts = parts_of_reply(value);
    assert(items_view(parts@).len() == parts@.len());
    let fresh = draw_ids(parts.len(), "call_");
    output_from_gemini_response_with(value, label, &fresh)
}

/// The reply that the body of a response is.
pub fn output_from_body(raw: &str, label: &str) -> (r: Result<GenerateOutput, ModelError>)
    ensures
        match parsed_json(raw@) {
            Ok(value) => exists|fresh: Seq<Seq<char>>|
                drawn(fresh, reply_parts(value).len(), "call_"@) && output_result(r)
                    == #[trigger] response_output(value, label@, fresh),
            Err(e) => output_result(r) == Err::<OutputView, Seq<char>>(
                parse_error_text(label@, e, raw@),
            ),
        },
{
    match parse_body(raw, label) {
        Ok(value) => output_from_gemini_response(&value, label),
        Err(e) => Err(e),
    }
}

// ---------------------------------------------------------------------
// Streams
// ---------------------------------------------------------------------

/// What has arrived of a streamed reply. The last signature of a thought is
/// carried over to calls without one.
#[derive(Debug)]
pub struct GeminiStream {
    pub buffer: String,
    pub full: String,
    pub reasoning: String,
    pub tool_calls: Vec<PendingToolCall>,
    pub carry: Option<String>,
    pub finish_reason: String,
    pub usage: Option<ModelUsage>,
}

/// The value of what has arrived, the open line left out.
#[verifier::ext_equal]
pub struct GeminiView {
    pub full: Seq<char>,
    pub reasoning: Seq<char>,
    pub calls: Seq<CallView>,
    pub carry: Option<Seq<char>>,
    pub finish_reason: Seq<char>,
    pub usage: Option<ModelUsage>,
}

impl GeminiStream {
    /// The value of what has arrived, the open line left out.
    pub open spec fn state(&self) -> GeminiView {
        GeminiView {
            full: self.full@,
            reasoning: self.reasoning@,
            calls: call_views(self.tool_calls@),
            carry: opt_text(self.carry),
            finish_reason: self.finish_reason@,
            usage: self.usage,
        }
    }
}

/// What has arrived after some lines, what has been told, and how the stream
/// stands.
#[verifier::ext_equal]
pub struct GeminiRun {
    pub state: GeminiView,
    pub parts: Seq<StreamView>,
    pub end: EndView,
}

/// What one response of the stream comes to.
pub open spec fn response_step(st: GeminiView, value: JsonView, fresh: Seq<Seq<char>>) -> GeminiRun {
    match error_text(value) {
        Some(m) => GeminiRun {
            state: st,
            parts: seq![StreamView::Error { message: m }],
            end: EndView::Failed("Gemini stream error: "@ + m),
        },
        None => {
            let parts = reply_parts(value);
            let carry = or_else(signature_in(parts), st.carry);
            let pieces = pieces_of(parts, fresh, carry);
            let all = pieces_added(
                PiecesView {
                    text: st.full,
                    thoughts: st.reasoning,
                    thought: false,
                    calls: st.calls,
                },
                pieces,
            );
            GeminiRun {
                state: GeminiView {
                    full: all.text,
                    reasoning: all.thoughts,
                    calls: all.calls,
                    carry,
                    finish_reason: match given_reason(value) {
                        Some(r) => r,
                        None => st.finish_reason,
                    },
                    usage: or_else(reported_usage(value), st.usage),
                },
                parts: pieces_told(pieces),
                end: EndView::Open,
            }
        },
    }
}

/// One line more. After a failure nothing is read.
pub open spec fn gemini_line(run: GeminiRun, line: Seq<char>, fresh: Seq<Seq<char>>) -> GeminiRun {
    if run.end != EndView::Open {
        run
    } else {
        match line_data(line) {
            None => run,
            Some(data) => match parsed_json(data) {
                Err(_) => run,
                Ok(value) => {
                    let step = response_step(run.state, value, fresh);
                    GeminiRun { state: step.state, parts: run.parts + step.parts, end: step.end }
                },
            },
        }
    }
}

/// How many parts the response in a line has.
pub open spec fn line_parts(line: Seq<char>) -> nat {
    match line_data(line) {
        Some(data) => match parsed_json(data) {
            Ok(value) => reply_parts(value).len(),
            Err(_) => 0,
        },
        None => 0,
    }
}

/// Identifiers by chance for the parts of each line.
pub open spec fn drawn_for_lines(fresh: Seq<Seq<Seq<char>>>, lines: Seq<Seq<char>>) -> bool {
    &&& fresh.len() == lines.len()
    &&& forall|i: int|
        0 <= i < fresh.len() ==> drawn(#[trigger] fresh[i], line_parts(lines[i]), "call_"@)
}

/// Line after line; line `i` takes the identifiers `fresh[i]`.
pub open spec fn gemini_run(
    st: GeminiView,
    lines: Seq<Seq<char>>,
    fresh: Seq<Seq<Seq<char>>>,
) -> GeminiRun
    decreases lines.len(),
{
    if lines.len() == 0 {
        GeminiRun { state: st, parts: Seq::empty(), end: EndView::Open }
    } else {
        gemini_line(
            gemini_run(st, lines.drop_last(), fresh),
            lines.last(),
            fresh[lines.len() - 1],
        )
    }
}

/// The reply once the stream has ended, and what is told last.
pub open spec fn gemini_result(st: GeminiView) -> (OutputView, Seq<StreamView>) {
    let reason = finish_text(st.finish_reason, st.calls.len() > 0);
    (
        gemini_output(st.full, kept_text(st.reasoning), st.calls, reason, st.usage),
        seq![StreamView::Finish { reason, full: st.full }],
    )
}

proof fn lemma_run_extend(
    st: GeminiView,
    lines: Seq<Seq<char>>,
    fresh: Seq<Seq<Seq<char>>>,
    more: Seq<Seq<char>>,
)
    requires
        lines.len() <= fresh.len(),
    ensures
        gemini_run(st, lines, fresh) == gemini_run(st, lines, fresh.push(more)),
    decreases lines.len(),
{
    if lines.len() > 0 {
        lemma_run_extend(st, lines.drop_last(), fresh, more);
    }
}

impl GeminiStream {
    /// A stream of which nothing has arrived.
    pub fn new() -> (r: GeminiStream)
        ensures
            r.buffer@ == Seq::<char>::empty(),
            r.state() == (GeminiView {
                full: Seq::empty(),
                reasoning: Seq::empty(),
                calls: Seq::empty(),
                carry: None,
                finish_reason: "stop"@,
                usage: None,
            }),
    {
        let tool_calls: Vec<PendingToolCall> = Vec::new();
        assert(call_views(tool_calls@) == Seq::<CallView>::empty());
        GeminiStream {
            buffer: String::new(),
            full: String::new(),
            reasoning: String::new(),
            tool_calls,
            carry: None,
            finish_reason: copy_str("stop"),
            usage: None,
        }
    }

    /// Takes up one response of the stream; its part `i` takes the identifier
    /// `fresh[i]`. Returns the message of a failure.
    pub fn take_response(
        &mut self,
        value: &Json,
        fresh: &Vec<String>,
        parts: &mut Vec<StreamPart>,
    ) -> (r: StreamEnd)
        requires
            fresh@.len() >= reply_parts(value@).len(),
        ensures
            final(self).buffer == old(self).buffer,
            final(self).state() == response_step(old(self).state(), value@, strings(fresh@)).state,
            stream_views(final(parts)@) == stream_views(old(parts)@) + response_step(
                old(self).state(),
                value@,
                strings(fresh@),
            ).parts,
            r@ == response_step(old(self).state(), value@, strings(fresh@)).end,
    {
        if let Some(m) = gemini_error_message(value) {
            let message = concat2("Gemini stream error: ", m.as_str());
            emit(parts, StreamPart::Error { message: m });
            return StreamEnd::Failed(message);
        }
        let list = parts_of_reply(value);
        assert(items_view(list@).len() == list@.len());
        if let Some(s) = candidate_signature(&list) {
            self.carry = Some(s);
        }
        let pieces = read_parts(&list, fresh, &self.carry);
        tell_pieces(&pieces, parts);
        let mut calls: Vec<PendingToolCall> = Vec::new();
        let mut i: usize = 0;
        let ghost had = call_views(self.tool_calls@);
        while i < self.tool_calls.len()
            invariant
                i <= self.tool_calls@.len(),
                had == call_views(self.tool_calls@),
                call_views(calls@) == had.take(i as int),
            decreases self.tool_calls@.len() - i,
        {
            let ghost before = calls@;
            let c = self.tool_calls[i].copy();
            calls.push(c);
            assert(call_views(calls@) == call_views(before).push(had[i as int]));
            i += 1;
        }
        assert(had.take(had.len() as int) == had);
        let start = Pieces {
            text: self.full.clone(),
            thoughts: self.reasoning.clone(),
            thought: false,
            calls,
        };
        let all = add_pieces(start, &pieces);
        self.full = all.text;
        self.reasoning = all.thoughts;
        self.tool_calls = all.calls;
        if let Some(r) = gemini_finish_reason_str(value) {
            self.finish_reason = r;
        }
        if let Some(u) = gemini_usage(value) {
            self.usage = Some(u);
        }
        StreamEnd::Open
    }

    /// Takes up a chunk of the stream. Returns what there is to tell, and how the
    /// stream stands. Tool calls get identifiers by chance.
    pub fn feed(&mut self, chunk: &str) -> (r: (Vec<StreamPart>, StreamEnd))
        ensures
            final(self).buffer@ == open_line(old(self).buffer@ + chunk@),
            exists|fresh: Seq<Seq<Seq<char>>>|
                drawn_for_lines(fresh, ended_lines(old(self).buffer@ + chunk@)) && (GeminiRun {
                    state: final(self).state(),
                    parts: stream_views(r.0@),
                    end: r.1@,
                }) == #[trigger] gemini_run(
                    old(self).state(),
                    ended_lines(old(self).buffer@ + chunk@),
                    fresh,
                ),
    {
        let text = concat2(self.buffer.as_str(), chunk);
        let (lines, open) = split_lines(text.as_str());
        self.buffer = open;
        let ghost st = old(self).state();
        let ghost all = strings(lines@);
        let ghost mut ids = Seq::<Seq<Seq<char>>>::empty();
        let mut parts: Vec<StreamPart> = Vec::new();
        let mut end = StreamEnd::Open;
        assert(stream_views(parts@) == Seq::<StreamView>::empty());
        assert(all.take(0) == Seq::<Seq<char>>::empty());
        let mut i: usize = 0;
        while i < lines.len()
            invariant
                i <= lines@.len(),
                all == strings(lines@),
                drawn_for_lines(ids, all.take(i as int)),
                self.buffer@ == open@,
                gemini_run(st, all.take(i as int), ids) == (GeminiRun {
                    state: self.state(),
                    parts: stream_views(parts@),
                    end: end@,
                }),
            decreases lines@.len() - i,
        {
            assert(all.take(i + 1).drop_last() == all.take(i as int));
            assert(all.take(i + 1).last() == lines@[i as int]@);
            let ghost mut mine = Seq::new(line_parts(all[i as int]), |k: int| "call_"@);
            if let StreamEnd::Open = end {
                if let Some(data) = data_of_line(lines[i].as_str()) {
                    if let Ok(value) = Json::parse(data.as_str()) {
                        let list = parts_of_reply(&value);
                        assert(items_view(list@).len() == list@.len());
                        let fresh = draw_ids(list.len(), "call_");
                        proof {
                            mine = strings(fresh@);
                        }
                        end = self.take_response(&value, &fresh, &mut parts);
                    }
                }
            }
            proof {
                lemma_run_extend(st, all.take(i as int), ids, mine);
                assert(drawn(mine, line_parts(all[i as int]), "call_"@)) by {
                    assert("call_"@.take("call_"@.len() as int) =~= "call_"@);
                }
                ids = ids.push(mine);
                assert forall|j: int| 0 <= j < ids.len() implies drawn(
                    #[trigger] ids[j],
                    line_parts(all.take(i + 1)[j]),
                    "call_"@,
                ) by {
                    if j < i {
                        assert(all.take(i + 1)[j] == all.take(i as int)[j]);
                    }
                }
            }
            i += 1;
        }
        assert(all.take(all.len() as int) == all);
        (parts, end)
    }

    /// The reply once the stream has ended, and what there is to tell last.
    pub fn finish(self) -> (r: (GenerateOutput, Vec<StreamPart>))
        ensures
            r.0@ == gemini_result(self.state()).0,
            stream_views(r.1@) == gemini_result(self.state()).1,
    {
        let mut parts: Vec<StreamPart> = Vec::new();
        assert(stream_views(parts@) == Seq::<StreamView>::empty());
        assert(call_views(self.tool_calls@).len() == self.tool_calls@.len());
        let reason = normalize_finish_reason(
            self.finish_reason.as_str(),
            self.tool_calls.len() > 0,
        );
        emit(
            &mut parts,
            StreamPart::Finish { reason: reason.clone(), full: self.full.clone() },
        );
        let reasoning = non_empty(self.reasoning.as_str());
        (make_output(self.full, reasoning, self.tool_calls, reason, self.usage), parts)
    }
}

// ---------------------------------------------------------------------
// Laws
// ---------------------------------------------------------------------

proof fn lemma_run_after(
    st: GeminiView,
    a: Seq<Seq<char>>,
    b: Seq<Seq<char>>,
    fresh: Seq<Seq<Seq<char>>>,
)
    requires
        a.len() + b.len() <= fresh.len(),
    ensures
        ({
            let first = gemini_run(st, a, fresh);
            let both = gemini_run(st, a + b, fresh);
            let second = gemini_run(first.state, b, fresh.skip(a.len() as int));
            if first.end != EndView::Open {
                both == first
            } else {
                both.state == second.state && both.end == second.end && both.parts == first.parts
                    + second.parts
            }
        }),
    decreases b.len(),
{
    let first = gemini_run(st, a, fresh);
    let rest = fresh.skip(a.len() as int);
    if b.len() == 0 {
        assert(a + b == a);
        assert(first.parts + Seq::<StreamView>::empty() == first.parts);
    } else {
        lemma_run_after(st, a, b.drop_last(), fresh);
        assert((a + b).drop_last() == a + b.drop_last());
        assert((a + b).last() == b.last());
        assert(fresh[(a + b).len() - 1] == rest[b.len() - 1]);
        let second = gemini_run(first.state, b.drop_last(), rest);
        if first.end == EndView::Open && second.end == EndView::Open {
            match line_data(b.last()) {
                Some(data) => match parsed_json(data) {
                    Ok(value) => {
                        let more = response_step(second.state, value, rest[b.len() - 1]).parts;
                        assert((first.parts + second.parts) + more == first.parts + (second.parts
                            + more));
                    },
                    Err(_) => {},
                },
                None => {},
            }
        }
    }
}

/// However the text of a stream is cut, the same is told and the same reply comes
/// out, given the same identifiers: two chunks do what their concatenation does,
/// and after a failure nothing is read.
/// The law is over decoded text, cut between characters: each chunk of bytes is decoded
/// by itself, so a cut inside a character changes the text.
pub proof fn law_cuts_do_not_change_the_reply(
    st: GeminiView,
    buffer: Seq<char>,
    a: Seq<char>,
    b: Seq<char>,
    fresh: Seq<Seq<Seq<char>>>,
)
    requires
        ended_lines(buffer + (a + b)).len() <= fresh.len(),
    ensures
        ({
            let early = ended_lines(buffer + a);
            let first = gemini_run(st, early, fresh);
            let second = gemini_run(
                first.state,
                ended_lines(open_line(buffer + a) + b),
                fresh.skip(early.len() as int),
            );
            let both = gemini_run(st, ended_lines(buffer + (a + b)), fresh);
            if first.end != EndView::Open {
                both == first
            } else {
                both.state == second.state && both.end == second.end && both.parts == first.parts
                    + second.parts
            }
        }),
{
    assert(buffer + (a + b) == (buffer + a) + b);
    law_cuts_do_not_change_lines(buffer + a, b);
    lemma_run_after(
        st,
        ended_lines(buffer + a),
        ended_lines(open_line(buffer + a) + b),
        fresh,
    );
}

/// The signature of a thought comes back with its call: written into the message
/// that is kept, it is read from it again.
pub proof fn law_signatures_come_back(call: CallView, fresh: Seq<char>)
    ensures
        crate::model::messages::call_in(signed_item(call), fresh) is Some,
        (crate::model::messages::call_in(signed_item(call), fresh)->0).signature == call.signature,
        (crate::model::messages::call_in(signed_item(call), fresh)->0).id == call.id,
        (crate::model::messages::call_in(signed_item(call), fresh)->0).function_name
            == call.function_name,
        (crate::model::messages::call_in(signed_item(call), fresh)->0).arguments_raw
            == call.arguments_raw,
{
    reveal_strlit("id");
    reveal_strlit("type");
    reveal_strlit("function");
    reveal_strlit("name");
    reveal_strlit("arguments");
    reveal_strlit("thought_signature");
    assert("id"@.len() == 2 && "type"@.len() == 4 && "function"@.len() == 8 && "name"@.len() == 4
        && "arguments"@.len() == 9 && "thought_signature"@.len() == 17);
    let item = signed_item(call);
    let function = object2(
        "name"@,
        str_json(call.function_name),
        "arguments"@,
        str_json(call.arguments_raw),
    );
    assert(item.field("function"@) == Some(function));
    assert(function.field_text("name"@) == Some(call.function_name));
    assert(function.field("arguments"@) == Some(str_json(call.arguments_raw)));
    assert(item.field_text("id"@) == Some(call.id));
    assert(item.field_text("thought_signature"@) == call.signature);
}

/// A schema that the service takes has none of the fields that it refuses.
pub proof fn law_refused_fields_are_gone(schema: JsonView)
    requires
        nullable_of(schema) is None,
        schema matches JsonView::Object(m) ==> m.dom().finite(),
    ensures
        gemini_schema(schema).field("$schema"@) is None,
        gemini_schema(schema).field("additionalProperties"@) is None,
        gemini_schema(schema).field("$defs"@) is None,
        gemini_schema(schema).field("definitions"@) is None,
        gemini_schema(schema).field("$id"@) is None,
        gemini_schema(schema).field("$ref"@) is None,
        gemini_schema(schema).field("title"@) is None,
{
    reveal_strlit("$schema");
    reveal_strlit("additionalProperties");
    reveal_strlit("$defs");
    reveal_strlit("definitions");
    reveal_strlit("$id");
    reveal_strlit("$ref");
    reveal_strlit("title");
    reveal_strlit("properties");
    reveal_strlit("items");
    assert("$schema"@.len() == 7 && "additionalProperties"@.len() == 20 && "$defs"@.len() == 5
        && "definitions"@.len() == 11 && "$id"@.len() == 3 && "$ref"@.len() == 4 && "title"@.len()
        == 5 && "properties"@.len() == 10 && "items"@.len() == 5);
    assert("title"@[0] == 't' && "items"@[0] == 'i' && "$defs"@[0] == '$');
    if let JsonView::Object(m) = schema {
        let s = stripped(m);
        assert(!s.contains_key("$schema"@));
        assert(!s.contains_key("additionalProperties"@));
        assert(!s.contains_key("$defs"@));
        assert(!s.contains_key("definitions"@));
        assert(!s.contains_key("$id"@));
        assert(!s.contains_key("$ref"@));
        assert(!s.contains_key("title"@));
        let p = "properties"@;
        let i = "items"@;
        assert("$schema"@ != p && "$schema"@ != i && "additionalProperties"@ != p
            && "additionalProperties"@ != i && "$defs"@ != p && "$defs"@ != i && "definitions"@ != p
            && "definitions"@ != i && "$id"@ != p && "$id"@ != i && "$ref"@ != p && "$ref"@ != i
            && "title"@ != p && "title"@ != i);
    }
}

/// The parts of a message are those of its first parts, and then those of the rest.
pub proof fn law_parts_stay_in_order(a: Seq<PartView>, b: Seq<PartView>, role: ModelRole, names: Map<Seq<char>, Seq<char>>)
    ensures
        gemini_parts(a + b, role, names) == gemini_parts(a, role, names) + gemini_parts(b, role, names),
    decreases b.len(),
{
    if b.len() == 0 {
        assert(a + b =~= a);
        assert(gemini_parts(a, role, names) + gemini_parts(b, role, names) =~= gemini_parts(a, role, names));
    } else {
        law_parts_stay_in_order(a, b.drop_last(), role, names);
        assert((a + b).drop_last() =~= a + b.drop_last());
        assert((a + b).last() == b.last());
        assert(gemini_parts(a + b, role, names) =~= gemini_parts(a, role, names) + gemini_parts(b, role, names));
    }
}

proof fn lemma_part_keys()
    ensures
        "text"@ != "inlineData"@,
        "text"@ != "mimeType"@,
        "text"@ != "data"@,
        "text"@ != "fileData"@,
        "text"@ != "fileUri"@,
        "text"@ != "functionCall"@,
        "text"@ != "name"@,
        "text"@ != "args"@,
        "text"@ != "thoughtSignature"@,
        "text"@ != "functionResponse"@,
        "text"@ != "response"@,
        "text"@ != "role"@,
        "text"@ != "parts"@,
        "text"@ != "description"@,
        "text"@ != "parameters"@,
        "inlineData"@ != "mimeType"@,
        "inlineData"@ != "data"@,
        "inlineData"@ != "fileData"@,
        "inlineData"@ != "fileUri"@,
        "inlineData"@ != "functionCall"@,
        "inlineData"@ != "name"@,
        "inlineData"@ != "args"@,
        "inlineData"@ != "thoughtSignature"@,
        "inlineData"@ != "functionResponse"@,
        "inlineData"@ != "response"@,
        "inlineData"@ != "role"@,
        "inlineData"@ != "parts"@,
        "inlineData"@ != "description"@,
        "inlineData"@ != "parameters"@,
        "mimeType"@ != "data"@,
        "mimeType"@ != "fileData"@,
        "mimeType"@ != "fileUri"@,
        "mimeType"@ != "functionCall"@,
        "mimeType"@ != "name"@,
        "mimeType"@ != "args"@,
        "mimeType"@ != "thoughtSignature"@,
        "mimeType"@ != "functionResponse"@,
        "mimeType"@ != "response"@,
        "mimeType"@ != "role"@,
        "mimeType"@ != "parts"@,
        "mimeType"@ != "description"@,
        "mimeType"@ != "parameters"@,
        "data"@ != "fileData"@,
        "data"@ != "fileUri"@,
        "data"@ != "functionCall"@,
        "data"@ != "name"@,
        "data"@ != "args"@,
        "data"@ != "thoughtSignature"@,
        "data"@ != "functionResponse"@,
        "data"@ != "response"@,
        "data"@ != "role"@,
        "data"@ != "parts"@,
        "data"@ != "description"@,
        "data"@ != "parameters"@,
        "fileData"@ != "fileUri"@,
        "fileData"@ != "functionCall"@,
        "fileData"@ != "name"@,
        "fileData"@ != "args"@,
        "fileData"@ != "thoughtSignature"@,
        "fileData"@ != "functionResponse"@,
        "fileData"@ != "response"@,
        "fileData"@ != "role"@,
        "fileData"@ != "parts"@,
        "fileData"@ != "description"@,
        "fileData"@ != "parameters"@,
        "fileUri"@ != "functionCall"@,
        "fileUri"@ != "name"@,
        "fileUri"@ != "args"@,
        "fileUri"@ != "thoughtSignature"@,
        "fileUri"@ != "functionResponse"@,
        "fileUri"@ != "response"@,
        "fileUri"@ != "role"@,
        "fileUri"@ != "parts"@,
        "fileUri"@ != "description"@,
        "fileUri"@ != "parameters"@,
        "functionCall"@ != "name"@,
        "functionCall"@ != "args"@,
        "functionCall"@ != "thoughtSignature"@,
        "functionCall"@ != "functionResponse"@,
        "functionCall"@ != "response"@,
        "functionCall"@ != "role"@,
        "functionCall"@ != "parts"@,
        "functionCall"@ != "description"@,
        "functionCall"@ != "parameters"@,
        "name"@ != "args"@,
        "name"@ != "thoughtSignature"@,
        "name"@ != "functionResponse"@,
        "name"@ != "response"@,
        "name"@ != "role"@,
        "name"@ != "parts"@,
        "name"@ != "description"@,
        "name"@ != "parameters"@,
        "args"@ != "thoughtSignature"@,
        "args"@ != "functionResponse"@,
        "args"@ != "response"@,
        "args"@ != "role"@,
        "args"@ != "parts"@,
        "args"@ != "description"@,
        "args"@ != "parameters"@,
        "thoughtSignature"@ != "functionResponse"@,
        "thoughtSignature"@ != "response"@,
        "thoughtSignature"@ != "role"@,
        "thoughtSignature"@ != "parts"@,
        "thoughtSignature"@ != "description"@,
        "thoughtSignature"@ != "parameters"@,
        "functionResponse"@ != "response"@,
        "functionResponse"@ != "role"@,
        "functionResponse"@ != "parts"@,
        "functionResponse"@ != "description"@,
        "functionResponse"@ != "parameters"@,
        "response"@ != "role"@,
        "response"@ != "parts"@,
        "response"@ != "description"@,
        "response"@ != "parameters"@,
        "role"@ != "parts"@,
        "role"@ != "description"@,
        "role"@ != "parameters"@,
        "parts"@ != "description"@,
        "parts"@ != "parameters"@,
        "description"@ != "parameters"@,
{
    reveal_strlit("text");
    reveal_strlit("inlineData");
    reveal_strlit("mimeType");
    reveal_strlit("data");
    reveal_strlit("fileData");
    reveal_strlit("fileUri");
    reveal_strlit("functionCall");
    reveal_strlit("name");
    reveal_strlit("args");
    reveal_strlit("thoughtSignature");
    reveal_strlit("functionResponse");
    reveal_strlit("response");
    reveal_strlit("role");
    reveal_strlit("parts");
    reveal_strlit("description");
    reveal_strlit("parameters");
    assert("text"@.len() == 4);
    assert("inlineData"@.len() == 10);
    assert("mimeType"@.len() == 8);
    assert("text"@[0] == 't');
    assert("data"@[0] == 'd');
    assert("fileData"@.len() == 8);
    assert("fileUri"@.len() == 7);
    assert("functionCall"@.len() == 12);
    assert("name"@[0] == 'n');
    assert("args"@[0] == 'a');
    assert("thoughtSignature"@.len() == 16);
    assert("functionResponse"@.len() == 16);
    assert("response"@.len() == 8);
    assert("role"@[0] == 'r');
    assert("parts"@.len() == 5);
    assert("description"@.len() == 11);
    assert("parameters"@.len() == 10);
    assert("data"@.len() == 4);
    assert("name"@.len() == 4);
    assert("args"@.len() == 4);
    assert("role"@.len() == 4);
    assert("inlineData"@[0] == 'i');
    assert("parameters"@[0] == 'p');
    assert("mimeType"@[0] == 'm');
    assert("fileData"@[0] == 'f');
    assert("response"@[0] == 'r');
    assert("thoughtSignature"@[0] == 't');
    assert("functionResponse"@[0] == 'f');
}

proof fn lemma_request_keys()
    ensures
        "contents"@ != "generationConfig"@,
        "contents"@ != "systemInstruction"@,
        "contents"@ != "tools"@,
        "contents"@ != "toolConfig"@,
        "generationConfig"@ != "systemInstruction"@,
        "generationConfig"@ != "tools"@,
        "generationConfig"@ != "toolConfig"@,
        "systemInstruction"@ != "tools"@,
        "systemInstruction"@ != "toolConfig"@,
        "tools"@ != "toolConfig"@,
{
    reveal_strlit("contents");
    reveal_strlit("generationConfig");
    reveal_strlit("systemInstruction");
    reveal_strlit("tools");
    reveal_strlit("toolConfig");
    assert("contents"@.len() == 8);
    assert("generationConfig"@.len() == 16);
    assert("systemInstruction"@.len() == 17);
    assert("tools"@.len() == 5);
    assert("toolConfig"@.len() == 10);
}

proof fn lemma_config_keys()
    ensures
        "temperature"@ != "maxOutputTokens"@,
        "temperature"@ != "thinkingConfig"@,
        "maxOutputTokens"@ != "thinkingConfig"@,
{
    reveal_strlit("temperature");
    reveal_strlit("maxOutputTokens");
    reveal_strlit("thinkingConfig");
    assert("temperature"@.len() == 11);
    assert("maxOutputTokens"@.len() == 15);
    assert("thinkingConfig"@.len() == 14);
}

/// One part is one part at most, where the role allows it: a text that is not empty, an
/// image of the user, a call of the assistant with its signature, a result under the name
/// of its call. Reasoning is not sent.
pub proof fn law_a_part_is_sent_whole(
    part: PartView,
    role: ModelRole,
    names: Map<Seq<char>, Seq<char>>,
)
    ensures
        gemini_parts(seq![part], role, names) == match gemini_part(part, role, names) {
            Some(p) => seq![p],
            None => Seq::<JsonView>::empty(),
        },
        match part {
            PartView::Text { text } => {
                &&& gemini_part(part, role, names) is Some <==> text.len() > 0
                &&& text.len() > 0 ==> (gemini_part(part, role, names)->0).field_text("text"@)
                    == Some(text)
            },
            PartView::Image { mime_type, data } => if role == ModelRole::User {
                gemini_part(part, role, names) is Some && (gemini_part(part, role, names)->0).path(
                    "inlineData"@,
                    "mimeType"@,
                ) == Some(JsonView::Str(mime_type)) && (gemini_part(part, role, names)->0).path(
                    "inlineData"@,
                    "data"@,
                ) == Some(JsonView::Str(data))
            } else {
                gemini_part(part, role, names) is None
            },
            PartView::ImageUrl { url } => if role == ModelRole::User {
                gemini_part(part, role, names) is Some && (gemini_part(part, role, names)->0).path(
                    "fileData"@,
                    "fileUri"@,
                ) == Some(JsonView::Str(url))
            } else {
                gemini_part(part, role, names) is None
            },
            PartView::ToolCall { id, name, arguments, arguments_raw, signature } => if role
                == ModelRole::Assistant {
                gemini_part(part, role, names) is Some && ({
                    let p = gemini_part(part, role, names)->0;
                    &&& p.path("functionCall"@, "name"@) == Some(JsonView::Str(name))
                    &&& !(arguments is Null) ==> p.path("functionCall"@, "args"@) == Some(arguments)
                    &&& arguments is Null && parsed_json(arguments_raw) is Ok ==> p.path(
                        "functionCall"@,
                        "args"@,
                    ) == Some(parsed_json(arguments_raw)->Ok_0)
                    &&& p.field_text("thoughtSignature"@) == signature
                })
            } else {
                gemini_part(part, role, names) is None
            },
            PartView::ToolResult { tool_call_id, content, .. } => gemini_part(
                part,
                role,
                names,
            ) is Some && ({
                let p = gemini_part(part, role, names)->0;
                &&& p.path("functionResponse"@, "name"@) == Some(
                    JsonView::Str(name_of(names, tool_call_id)),
                )
                &&& p.path("functionResponse"@, "response"@) is Some
                &&& match parsed_json(content) {
                    Ok(v) => v is Object ==> p.path("functionResponse"@, "response"@) == Some(v),
                    Err(_) => (p.path("functionResponse"@, "response"@)->0).field_text("output"@)
                        == Some(content),
                }
            }),
            PartView::Reasoning { .. } => gemini_part(part, role, names) is None,
        },
{
    lemma_part_keys();
    reveal_with_fuel(gemini_parts, 2);
    assert(seq![part].drop_last() =~= Seq::<PartView>::empty());
    assert(seq![part].last() == part);
    match gemini_part(part, role, names) {
        Some(b) => {
            assert(gemini_parts(seq![part], role, names) =~= seq![b]);
        },
        None => {},
    }
}

/// What the messages of a conversation say: the parts of each message, each under the role
/// of the model or of the user.
pub open spec fn conversation_said(
    messages: Seq<MessageView>,
    names: Map<Seq<char>, Seq<char>>,
) -> Seq<(Seq<char>, JsonView)>
    decreases messages.len(),
{
    if messages.len() == 0 {
        Seq::empty()
    } else {
        let m = messages.last();
        let role = if m.role == ModelRole::Assistant {
            "model"@
        } else {
            "user"@
        };
        let parts = gemini_parts(m.content, m.role, names);
        conversation_said(messages.drop_last(), names) + Seq::new(
            parts.len(),
            |i: int| (role, parts[i]),
        )
    }
}

/// The contents that are sent say what the conversation says, in order and under the same
/// roles.
pub proof fn law_the_whole_conversation_is_sent(messages: Seq<MessageView>)
    ensures
        said(gemini_contents(messages), "parts"@) == conversation_said(
            messages,
            call_names(messages),
        ),
{
    lemma_part_keys();
    lemma_contents_said(messages, call_names(messages));
    law_merging_keeps_every_item(contents_of(messages, call_names(messages)), "parts"@);
}

proof fn lemma_contents_said(messages: Seq<MessageView>, names: Map<Seq<char>, Seq<char>>)
    ensures
        said(contents_of(messages, names), "parts"@) == conversation_said(messages, names),
        forall|i: int|
            0 <= i < contents_of(messages, names).len() ==> (#[trigger] contents_of(
                messages,
                names,
            )[i]).field_items("parts"@) is Some,
    decreases messages.len(),
{
    lemma_part_keys();
    if messages.len() > 0 {
        let front = messages.drop_last();
        lemma_contents_said(front, names);
        let before = contents_of(front, names);
        let all = contents_of(messages, names);
        let m = messages.last();
        let parts = gemini_parts(m.content, m.role, names);
        if parts.len() == 0 {
            assert(said(all, "parts"@) =~= conversation_said(messages, names));
        } else {
            assert(all.drop_last() =~= before);
            assert(content_list(all.last(), "parts"@) == parts);
            assert(said(all, "parts"@) =~= conversation_said(messages, names));
            assert forall|i: int| 0 <= i < all.len() implies (#[trigger] all[i]).field_items(
                "parts"@,
            ) is Some by {
                if i < before.len() {
                    assert(all[i] == before[i]);
                }
            }
        }
    }
}

/// Every call with identifier `id` among the parts is one of the tool `name`.
pub open spec fn always_named(parts: Seq<PartView>, id: Seq<char>, name: Seq<char>) -> bool {
    forall|i: int|
        0 <= i < parts.len() && (#[trigger] parts[i]) is ToolCall && parts[i]->ToolCall_id == id
            ==> parts[i]->ToolCall_name == name
}

/// One of the parts is a call with identifier `id`.
pub open spec fn calls_with(parts: Seq<PartView>, id: Seq<char>) -> bool {
    exists|i: int|
        0 <= i < parts.len() && (#[trigger] parts[i]) is ToolCall && parts[i]->ToolCall_id == id
}

proof fn lemma_names_in(
    parts: Seq<PartView>,
    names: Map<Seq<char>, Seq<char>>,
    id: Seq<char>,
    name: Seq<char>,
)
    requires
        id.len() > 0,
        always_named(parts, id, name),
        names.contains_key(id) ==> names[id] == name,
    ensures
        names_in(parts, names).contains_key(id) <==> names.contains_key(id) || calls_with(
            parts,
            id,
        ),
        names_in(parts, names).contains_key(id) ==> names_in(parts, names)[id] == name,
    decreases parts.len(),
{
    if parts.len() > 0 {
        let front = parts.drop_last();
        let n = parts.len() - 1;
        assert(always_named(front, id, name)) by {
            assert forall|i: int|
                0 <= i < front.len() && (#[trigger] front[i]) is ToolCall && front[i]->ToolCall_id
                    == id implies front[i]->ToolCall_name == name by {
                assert(parts[i] == front[i]);
            }
        }
        lemma_names_in(front, names, id, name);
        assert(parts[n] == parts.last());
        if calls_with(front, id) {
            let i = choose|i: int|
                0 <= i < front.len() && (#[trigger] front[i]) is ToolCall && front[i]->ToolCall_id
                    == id;
            assert(parts[i] == front[i]);
            assert(calls_with(parts, id));
        }
        if calls_with(parts, id) && !calls_with(front, id) {
            let i = choose|i: int|
                0 <= i < parts.len() && (#[trigger] parts[i]) is ToolCall && parts[i]->ToolCall_id
                    == id;
            if i < n {
                assert(front[i] == parts[i]);
            }
            assert(i == n);
        }
    }
}

/// A result is sent under the name of the tool whose call it answers, whichever message
/// the call stands in.
pub proof fn law_results_find_their_tool(
    messages: Seq<MessageView>,
    id: Seq<char>,
    name: Seq<char>,
)
    requires
        id.len() > 0,
        forall|i: int|
            0 <= i < messages.len() ==> always_named((#[trigger] messages[i]).content, id, name),
    ensures
        (exists|i: int| 0 <= i < messages.len() && calls_with((#[trigger] messages[i]).content, id))
            ==> name_of(call_names(messages), id) == name,
        !(exists|i: int| 0 <= i < messages.len() && calls_with((#[trigger] messages[i]).content, id))
            ==> name_of(call_names(messages), id) == id,
        call_names(messages).contains_key(id) ==> call_names(messages)[id] == name,
        call_names(messages).contains_key(id) <==> exists|i: int|
            0 <= i < messages.len() && calls_with((#[trigger] messages[i]).content, id),
    decreases messages.len(),
{
    if messages.len() > 0 {
        let front = messages.drop_last();
        let n = messages.len() - 1;
        assert forall|i: int| 0 <= i < front.len() implies always_named(
            (#[trigger] front[i]).content,
            id,
            name,
        ) by {
            assert(front[i] == messages[i]);
        }
        law_results_find_their_tool(front, id, name);
        assert(messages[n] == messages.last());
        lemma_names_in(messages.last().content, call_names(front), id, name);
        if exists|i: int| 0 <= i < front.len() && calls_with((#[trigger] front[i]).content, id) {
            let i = choose|i: int|
                0 <= i < front.len() && calls_with((#[trigger] front[i]).content, id);
            assert(calls_with(messages[i].content, id));
        }
        if exists|i: int|
            0 <= i < messages.len() && calls_with((#[trigger] messages[i]).content, id) {
            let i = choose|i: int|
                0 <= i < messages.len() && calls_with((#[trigger] messages[i]).content, id);
            if i < n {
                assert(front[i] == messages[i]);
                assert(calls_with(front[i].content, id));
            }
        }
    }
}

proof fn lemma_all_schemas(props: Map<Seq<char>, JsonView>)
    requires
        props.dom().finite(),
    ensures
        forall|name: Seq<char>| #[trigger]
            JsonView::Object(all_schemas(props)).field(name) == if props.contains_key(name) {
                Some(gemini_schema(props[name]))
            } else {
                None
            },
{
}

/// A schema keeps every field but those that the service refuses; its properties are the
/// same ones, each with its schema, and so are its items.
pub proof fn law_schemas_keep_their_fields(schema: JsonView, k: Seq<char>)
    requires
        nullable_of(schema) is None,
        schema matches JsonView::Object(m) ==> m.dom().finite(),
        k != "$schema"@ && k != "additionalProperties"@ && k != "$defs"@ && k != "definitions"@ && k
            != "$id"@ && k != "$ref"@ && k != "title"@,
    ensures
        k != "properties"@ && k != "items"@ ==> gemini_schema(schema).field(k) == schema.field(k),
        k == "items"@ ==> (gemini_schema(schema).field(k) is Some <==> schema.field(k) is Some),
        k == "items"@ && schema.field(k) is Some ==> gemini_schema(schema).field(k) == Some(
            gemini_schema(schema.field(k)->0),
        ),
        k == "properties"@ ==> match schema.field(k) {
            Some(JsonView::Object(props)) => props.dom().finite() ==> gemini_schema(schema).field(
                k,
            ) is Some && gemini_schema(schema).field(k)->0 is Object && forall|name: Seq<char>|
                #![trigger (gemini_schema(schema).field(k)->0).field(name)]
                (gemini_schema(schema).field(k)->0).field(name) == if props.contains_key(name) {
                    Some(gemini_schema(props[name]))
                } else {
                    None
                },
            _ => true,
        },
{
    reveal_strlit("properties");
    reveal_strlit("items");
    assert("properties"@.len() == 10 && "items"@.len() == 5);
    if let JsonView::Object(m) = schema {
        let s = stripped(m);
        assert(s.contains_key(k) <==> m.contains_key(k));
        assert(m.contains_key(k) ==> s[k] == m[k]);
        if k == "properties"@ {
            match schema.field(k) {
                Some(JsonView::Object(props)) => {
                    assert(gemini_schema(schema).field(k) == Some(
                        JsonView::Object(all_schemas(props)),
                    ));
                    if props.dom().finite() {
                        lemma_all_schemas(props);
                    }
                },
                _ => {},
            }
        }
    }
}

/// Tools are told one by one and in order, each name once: every tool that has a name is
/// told under it, and where no two share a name, all of them are.
pub proof fn law_every_named_tool_is_told(tools: Seq<ToolView>)
    ensures
        ({
            let (told, names) = declarations(tools);
            &&& told.len() == names.len()
            &&& forall|k: int|
                0 <= k < told.len() ==> (#[trigger] told[k]).field_text("name"@) == Some(names[k])
            &&& forall|k: int, j: int| 0 <= k < j < names.len() ==> names[k] != names[j]
            &&& forall|i: int|
                0 <= i < tools.len() && (#[trigger] tools[i]).call_name().len() > 0
                    ==> names.contains(tools[i].call_name())
            &&& forall|k: int| 0 <= k < names.len() ==> is_tool_name(tools, #[trigger] names[k])
        }),
        (forall|i: int| 0 <= i < tools.len() ==> (#[trigger] tools[i]).call_name().len() > 0) && (
        forall|i: int, j: int|
            0 <= i < j < tools.len() ==> (#[trigger] tools[i]).call_name() != (
            #[trigger] tools[j]).call_name()) ==> declarations(tools).0.len() == tools.len()
            && forall|i: int|
            0 <= i < tools.len() ==> (#[trigger] declarations(tools).0[i]) == declaration(
                tools[i],
            ),
    decreases tools.len(),
{
    lemma_part_keys();
    if tools.len() > 0 {
        let front = tools.drop_last();
        law_every_named_tool_is_told(front);
        let (bt, bn) = declarations(front);
        let (told, names) = declarations(tools);
        let name = tools.last().call_name();
        assert forall|i: int|
            0 <= i < tools.len() && (#[trigger] tools[i]).call_name().len() > 0 implies names.contains(
            tools[i].call_name(),
        ) by {
            if i < front.len() {
                assert(front[i] == tools[i]);
                let k = choose|k: int| 0 <= k < bn.len() && bn[k] == tools[i].call_name();
                assert(names[k] == bn[k]);
            } else if !bn.contains(name) {
                assert(names.last() == name);
            }
        }
        assert forall|k: int| 0 <= k < names.len() implies is_tool_name(
            tools,
            #[trigger] names[k],
        ) by {
            if k < bn.len() {
                assert(names[k] == bn[k]);
                assert(is_tool_name(front, bn[k]));
                let i = choose|i: int|
                    0 <= i < front.len() && (#[trigger] front[i]).call_name() == bn[k];
                assert(tools[i] == front[i]);
            } else {
                assert(tools[tools.len() - 1].call_name() == names[k]);
            }
        }
        if (forall|i: int| 0 <= i < tools.len() ==> (#[trigger] tools[i]).call_name().len() > 0) && (
        forall|i: int, j: int|
            0 <= i < j < tools.len() ==> (#[trigger] tools[i]).call_name() != (
            #[trigger] tools[j]).call_name()) {
            assert forall|i: int| 0 <= i < front.len() implies (
            #[trigger] front[i]).call_name().len() > 0 by {
                assert(front[i] == tools[i]);
            }
            assert forall|i: int, j: int| 0 <= i < j < front.len() implies (
            #[trigger] front[i]).call_name() != (#[trigger] front[j]).call_name() by {
                assert(front[i] == tools[i]);
                assert(front[j] == tools[j]);
            }
            let n = tools.len() - 1;
            assert(tools[n].call_name().len() > 0);
            if bn.contains(name) {
                let k = choose|k: int| 0 <= k < bn.len() && bn[k] == name;
                assert(is_tool_name(front, bn[k]));
                let i = choose|i: int|
                    0 <= i < front.len() && (#[trigger] front[i]).call_name() == bn[k];
                assert(tools[i].call_name() == tools[n].call_name());
            }
            assert(told == bt.push(declaration(tools.last())));
        }
    }
}

/// A tool is told with its name, its description and its schema as the service takes it.
pub proof fn law_a_tool_is_told_whole(tool: ToolView)
    ensures
        declaration(tool).field_text("name"@) == Some(tool.call_name()),
        declaration(tool).field_text("description"@) == Some(tool.description),
        declaration(tool).field("parameters"@) == Some(gemini_schema(tool.input_schema)),
{
    lemma_part_keys();
}

/// A body says what the request asks: the conversation, the temperature and the limit, the
/// system prompt where it is not blank, and the tools, of which the model may choose. The
/// user's own fields win, and there are no others.
pub proof fn law_the_body_says_what_is_asked(request: GenerateRequest)
    ensures
        ({
            let body = gemini_body(request);
            let own = request.options.provider_options@;
            let tools = declarations(tool_views(request.tools@)).0;
            let level = chosen_level(request.options.thinking_level);
            &&& forall|k: Seq<char>| own.field(k) is Some ==> #[trigger] body.field(k) == own.field(k)
            &&& own.field("contents"@) is None ==> body.field_items("contents"@) == Some(
                gemini_contents(message_views(request.messages@)),
            )
            &&& own.field("generationConfig"@) is None ==> body.path(
                "generationConfig"@,
                "temperature"@,
            ) == Some(request.options.temperature@) && body.path(
                "generationConfig"@,
                "maxOutputTokens"@,
            ) == Some(
                JsonView::Number(JsonNumber::Unsigned(request.options.max_tokens as u64)),
            ) && (body.path("generationConfig"@, "thinkingConfig"@) is Some <==> level is Some)
            &&& own.field("generationConfig"@) is None && level is Some ==> (body.path(
                "generationConfig"@,
                "thinkingConfig"@,
            )->0).field_truth("includeThoughts"@) == Some(true)
            &&& own.field("systemInstruction"@) is None ==> (body.field("systemInstruction"@)
                is Some <==> !is_blank_text(request.system@))
            &&& own.field("systemInstruction"@) is None && !is_blank_text(request.system@) ==> ({
                let parts = body.path("systemInstruction"@, "parts"@);
                &&& parts is Some && parts->0 is Array
                &&& (parts->0)->Array_0.len() == 1
                &&& (parts->0)->Array_0[0].field_text("text"@) == Some(request.system@)
            })
            &&& own.field("tools"@) is None ==> (body.field("tools"@) is Some <==> tools.len() > 0)
            &&& own.field("tools"@) is None && tools.len() > 0 ==> ({
                let told = body.field_items("tools"@);
                &&& told is Some
                &&& (told->0).len() == 1
                &&& (told->0)[0].field_items("functionDeclarations"@) == Some(tools)
            })
            &&& own.field("toolConfig"@) is None ==> (body.field("toolConfig"@) is Some
                <==> tools.len() > 0)
            &&& own.field("toolConfig"@) is None && tools.len() > 0 ==> (body.path(
                "toolConfig"@,
                "functionCallingConfig"@,
            )->0).field_text("mode"@) == Some("AUTO"@)
            &&& forall|k: Seq<char>| #[trigger]
                body.field(k) is Some && own.field(k) is None ==> k == "contents"@ || k
                    == "generationConfig"@ || k == "systemInstruction"@ || k == "tools"@ || k
                    == "toolConfig"@
        }),
{
    lemma_request_keys();
    lemma_config_keys();
}

/// Requests go to the model under the base URL, whatever slashes end it and whether or not
/// the model is named with `models/` before it.
pub proof fn law_requests_go_to_the_model(base: Seq<char>, model: Seq<char>, stream: bool)
    requires
        base.len() > 0,
        base.last() != '/',
        !crate::text::has_prefix(model, "models/"@),
    ensures
        endpoint(base, model, stream) == base + "/models/"@ + model + if stream {
            ":streamGenerateContent?alt=sse"@
        } else {
            ":generateContent"@
        },
        endpoint(base.push('/'), model, stream) == endpoint(base, model, stream),
        endpoint(base, "models/"@ + model, stream) == endpoint(base, model, stream),
{
    reveal_strlit("models/");
    let p = "models/"@;
    let slash = crate::text::among(seq!['/']);
    assert(!slash(base.last())) by {
        if seq!['/'].contains(base.last()) {
            let i = choose|i: int| 0 <= i < seq!['/'].len() && seq!['/'][i] == base.last();
            assert(seq!['/'][i] == '/');
        }
    }
    assert(seq!['/'][0] == '/');
    assert(slash('/'));
    assert(without_slashes(base) == base);
    assert(base.push('/').drop_last() =~= base);
    assert(without_slashes(base.push('/')) == without_slashes(base));
    assert(without_prefixes(model, p) == model);
    let long = p + model;
    assert(long.subrange(0, p.len() as int) =~= p);
    assert(long.skip(p.len() as int) =~= model);
    assert(without_prefixes(long, p) == without_prefixes(model, p));
}

/// The pieces of a reply are those of its first parts, and then those of the rest.
pub proof fn law_pieces_stay_in_order(
    a: Seq<JsonView>,
    fa: Seq<Seq<char>>,
    b: Seq<JsonView>,
    fb: Seq<Seq<char>>,
    carry: Option<Seq<char>>,
)
    requires
        fa.len() == a.len(),
        fb.len() == b.len(),
    ensures
        pieces_of(a + b, fa + fb, carry) == pieces_of(a, fa, carry) + pieces_of(b, fb, carry),
    decreases b.len(),
{
    if b.len() == 0 {
        assert(a + b =~= a);
        assert(fa + fb =~= fa);
        assert(pieces_of(a, fa, carry) + pieces_of(b, fb, carry) =~= pieces_of(a, fa, carry));
    } else {
        law_pieces_stay_in_order(a, fa, b.drop_last(), fb.drop_last(), carry);
        assert((a + b).drop_last() =~= a + b.drop_last());
        assert((a + b).last() == b.last());
        assert((fa + fb)[a.len() + b.len() - 1] == fb[b.len() - 1]);
        lemma_pieces_front(a + b.drop_last(), fa + fb, fa + fb.drop_last(), carry);
        lemma_pieces_front(b.drop_last(), fb, fb.drop_last(), carry);
        assert(pieces_of(a + b, fa + fb, carry) =~= pieces_of(a, fa, carry) + pieces_of(
            b,
            fb,
            carry,
        ));
    }
}

proof fn lemma_pieces_front(
    parts: Seq<JsonView>,
    f: Seq<Seq<char>>,
    g: Seq<Seq<char>>,
    carry: Option<Seq<char>>,
)
    requires
        parts.len() <= f.len(),
        parts.len() <= g.len(),
        forall|i: int| 0 <= i < parts.len() ==> f[i] == g[i],
    ensures
        pieces_of(parts, f, carry) == pieces_of(parts, g, carry),
    decreases parts.len(),
{
    if parts.len() > 0 {
        lemma_pieces_front(parts.drop_last(), f, g, carry);
        assert(f[parts.len() - 1] == g[parts.len() - 1]);
    }
}

/// A part of a reply is a call where it holds one, with its name, its arguments and its
/// signature, or the one that is carried; and else its text, as a thought where it is
/// marked as one.
pub proof fn law_a_part_is_read_whole(part: JsonView, fresh: Seq<char>, carry: Option<Seq<char>>)
    ensures
        pieces_of(seq![part], seq![fresh], carry) == match part_piece(part, fresh, carry) {
            Some(p) => seq![p],
            None => Seq::<PieceView>::empty(),
        },
        part.field("functionCall"@) is None && part.field_text("text"@) is Some && (part.field_text(
            "text"@,
        )->0).len() > 0 ==> part_piece(part, fresh, carry) == Some(
            if part.field_truth("thought"@) == Some(true) {
                PieceView::Thought(part.field_text("text"@)->0)
            } else {
                PieceView::Text(part.field_text("text"@)->0)
            },
        ),
        match part.path("functionCall"@, "name"@) {
            Some(JsonView::Str(name)) => part_piece(part, fresh, carry) is Some && part_piece(
                part,
                fresh,
                carry,
            )->0 is Call && ({
                let call = (part_piece(part, fresh, carry)->0)->Call_0;
                &&& call.function_name == name
                &&& call.id == fresh
                &&& part.path("functionCall"@, "args"@) is Some ==> call.arguments_raw == json_text(
                    part.path("functionCall"@, "args"@)->0,
                )
                &&& match part.field("thoughtSignature"@) {
                    Some(JsonView::Str(s)) => s.len() > 0 ==> call.signature == Some(s),
                    None => call.signature == carry,
                    _ => true,
                }
            }),
            _ => true,
        },
{
    reveal_with_fuel(pieces_of, 2);
    assert(seq![part].drop_last() =~= Seq::<JsonView>::empty());
    assert(seq![part].last() == part);
    match part_piece(part, fresh, carry) {
        Some(p) => {
            assert(pieces_of(seq![part], seq![fresh], carry) =~= seq![p]);
        },
        None => {},
    }
}

/// Pieces are added to what there is: texts to the end of the text, thoughts to the end of
/// the thoughts, calls to the end of the calls; and first some and then the rest is all of
/// them.
pub proof fn law_pieces_are_added(start: PiecesView, a: Seq<PieceView>, b: Seq<PieceView>)
    ensures
        pieces_added(start, a + b) == pieces_added(pieces_added(start, a), b),
        pieces_told(a + b) == pieces_told(a) + pieces_told(b),
    decreases b.len(),
{
    if b.len() == 0 {
        assert(a + b =~= a);
        assert(pieces_told(a) + pieces_told(b) =~= pieces_told(a));
    } else {
        law_pieces_are_added(start, a, b.drop_last());
        assert((a + b).drop_last() =~= a + b.drop_last());
        assert((a + b).last() == b.last());
        assert(pieces_told(a + b) =~= pieces_told(a) + pieces_told(b));
    }
}

/// What one piece adds, and what is told of it.
pub proof fn law_a_piece_is_added_and_told(start: PiecesView, piece: PieceView)
    ensures
        ({
            let after = pieces_added(start, seq![piece]);
            let told = pieces_told(seq![piece]);
            match piece {
                PieceView::Text(t) => after.text == start.text + t && after.thoughts
                    == start.thoughts && after.calls == start.calls && after.thought
                    == start.thought && told == seq![StreamView::TextDelta { delta: t }],
                PieceView::Thought(t) => after.thoughts == start.thoughts + t && after.text
                    == start.text && after.calls == start.calls && after.thought && told == seq![
                    StreamView::ReasoningDelta { delta: t },
                ],
                PieceView::Call(c) => after.calls == start.calls.push(c) && after.text == start.text
                    && after.thoughts == start.thoughts && told.len() == 3 && told[0]
                    == (StreamView::ToolCallStart { id: c.id, name: c.function_name }) && told[1]
                    == (StreamView::ToolCallDelta { id: c.id, delta: c.arguments_raw }) && told[2]
                    == (StreamView::ToolCallDone { call: c }),
            }
        }),
{
    reveal_with_fuel(pieces_added, 2);
    reveal_with_fuel(pieces_told, 2);
    assert(seq![piece].drop_last() =~= Seq::<PieceView>::empty());
    assert(seq![piece].last() == piece);
    let none = Seq::<StreamView>::empty();
    match piece {
        PieceView::Text(t) => {
            assert(pieces_told(seq![piece]) =~= told(Some(t), false));
        },
        PieceView::Thought(t) => {
            assert(pieces_told(seq![piece]) =~= told(Some(t), true));
        },
        PieceView::Call(c) => {},
    }
}

/// The signature that is carried is the first that the parts hold.
pub proof fn law_the_first_signature_is_carried(
    a: Seq<JsonView>,
    part: JsonView,
    b: Seq<JsonView>,
    signature: Seq<char>,
)
    requires
        forall|i: int|
            0 <= i < a.len() ==> (#[trigger] a[i]).field("thoughtSignature"@) is None,
        part.field_text("thoughtSignature"@) == Some(signature),
        signature.len() > 0,
    ensures
        signature_in(a) is None,
        signature_in(a.push(part) + b) == Some(signature),
    decreases a.len() + b.len(),
{
    let s = a.push(part) + b;
    if b.len() > 0 {
        law_the_first_signature_is_carried(a, part, b.drop_last(), signature);
        assert(s.drop_last() =~= a.push(part) + b.drop_last());
    } else {
        assert(s.drop_last() =~= a);
        assert(s.last() == part);
        if a.len() > 0 {
            let x = a.last();
            assert(a[a.len() - 1] == x);
            assert forall|i: int| 0 <= i < a.drop_last().len() implies (
            #[trigger] a.drop_last()[i]).field("thoughtSignature"@) is None by {
                assert(a.drop_last()[i] == a[i]);
            }
            law_the_first_signature_is_carried(
                a.drop_last(),
                part,
                Seq::<JsonView>::empty(),
                signature,
            );
        }
    }
}

/// A response adds its pieces to what has arrived, tells them, and keeps what it does not
/// speak of; an error ends the stream with what the service said.
pub proof fn law_responses_are_added(st: GeminiView, value: JsonView, fresh: Seq<Seq<char>>)
    ensures
        ({
            let run = response_step(st, value, fresh);
            let parts = reply_parts(value);
            let carry = match signature_in(parts) {
                Some(s) => Some(s),
                None => st.carry,
            };
            let pieces = pieces_of(parts, fresh, carry);
            let start = PiecesView {
                text: st.full,
                thoughts: st.reasoning,
                thought: false,
                calls: st.calls,
            };
            &&& value.path("error"@, "message"@) is None ==> run.state.full == pieces_added(
                start,
                pieces,
            ).text && run.state.reasoning == pieces_added(start, pieces).thoughts && run.state.calls
                == pieces_added(start, pieces).calls && run.parts == pieces_told(pieces)
                && run.state.carry == carry && run.end is Open
            &&& value.path("error"@, "message"@) is None && value.field("candidates"@) is None
                ==> run.state.full == st.full && run.state.calls == st.calls && run.parts.len() == 0
                && run.state.finish_reason == st.finish_reason
            &&& match value.path("error"@, "message"@) {
                Some(JsonView::Str(m)) => run.end == EndView::Failed("Gemini stream error: "@ + m)
                    && run.state == st && run.parts == seq![StreamView::Error { message: m }],
                _ => true,
            }
            &&& value.path("error"@, "message"@) is None ==> run.state.usage == match value.field(
                "usageMetadata"@,
            ) {
                Some(_) => reported_usage(value),
                None => st.usage,
            }
            &&& value.path("error"@, "message"@) is None && given_reason(value) is Some
                ==> run.state.finish_reason == given_reason(value)->0
        }),
{
}

/// The usage is what the service counts, each number under its name.
pub proof fn law_usage_is_what_is_counted(value: JsonView, meta: JsonView)
    requires
        value.field("usageMetadata"@) == Some(meta),
    ensures
        reported_usage(value) is Some,
        (reported_usage(value)->0).input_tokens == meta.field_unsigned("promptTokenCount"@),
        (reported_usage(value)->0).output_tokens == meta.field_unsigned("candidatesTokenCount"@),
        (reported_usage(value)->0).total_tokens == meta.field_unsigned("totalTokenCount"@),
        (reported_usage(value)->0).cached_input_tokens == meta.field_unsigned(
            "cachedContentTokenCount"@,
        ),
        (reported_usage(value)->0).reasoning_tokens == meta.field_unsigned("thoughtsTokenCount"@),
{
}

/// The reply of a stream is what has arrived: the text, the reasoning, the calls and the
/// usage; where there are calls, they are the reason for the end. The end is told with the
/// whole text.
pub proof fn law_the_reply_is_what_arrived(st: GeminiView)
    ensures
        ({
            let (out, parts) = gemini_result(st);
            &&& out.text == st.full
            &&& is_blank_text(st.reasoning) ==> out.reasoning is None
            &&& !is_blank_text(st.reasoning) ==> out.reasoning == Some(
                crate::text::trimmed(st.reasoning),
            )
            &&& out.tool_calls == st.calls
            &&& out.usage == st.usage
            &&& st.calls.len() > 0 ==> out.finish_reason == Some("tool_calls"@)
            &&& st.calls.len() == 0 && st.finish_reason == "MAX_TOKENS"@ ==> out.finish_reason
                == Some("length"@)
            &&& st.calls.len() == 0 && st.finish_reason != "MAX_TOKENS"@ ==> out.finish_reason
                == Some(lower(st.finish_reason))
            &&& parts == seq![
                StreamView::Finish { reason: out.finish_reason->0, full: st.full },
            ]
            &&& out.provider_messages.len() == 1
            &&& !out.cancelled
        }),
{
}

/// A plain reply is the pieces of its parts; an error is told as one.
pub proof fn law_a_reply_is_its_pieces(value: JsonView, label: Seq<char>, fresh: Seq<Seq<char>>)
    ensures
        match value.path("error"@, "message"@) {
            Some(JsonView::Str(m)) => response_output(value, label, fresh) == Err::<
                OutputView,
                Seq<char>,
            >(label + ": "@ + m),
            _ => response_output(value, label, fresh) is Ok && ({
                let out = response_output(value, label, fresh)->Ok_0;
                let parts = reply_parts(value);
                let start = PiecesView {
                    text: Seq::empty(),
                    thoughts: Seq::empty(),
                    thought: false,
                    calls: Seq::empty(),
                };
                let all = pieces_added(start, pieces_of(parts, fresh, signature_in(parts)));
                &&& out.text == all.text
                &&& out.reasoning == if all.thought {
                    Some(all.thoughts)
                } else {
                    None
                }
                &&& out.tool_calls == all.calls
                &&& out.usage == reported_usage(value)
                &&& all.calls.len() > 0 ==> out.finish_reason == Some("tool_calls"@)
                &&& !out.cancelled
            }),
        },
{
}

/// The parts of a reply are those of its first candidate.
pub proof fn law_the_first_candidate_counts(
    value: JsonView,
    candidates: Seq<JsonView>,
    parts: Seq<JsonView>,
)
    requires
        value.field_items("candidates"@) == Some(candidates),
        candidates.len() > 0,
    ensures
        candidates[0].path("content"@, "parts"@) == Some(JsonView::Array(parts)) ==> reply_parts(
            value,
        ) == parts,
        given_reason(value) == candidates[0].field_text("finishReason"@),
{
}

/// A line with a response does what the response does, and any other line nothing; after
/// the end nothing is read.
pub proof fn law_lines_are_responses(
    st: GeminiView,
    line: Seq<char>,
    data: Seq<char>,
    fresh: Seq<Seq<char>>,
)
    ensures
        line_data(line) == Some(data) && parsed_json(data) is Ok ==> gemini_run(
            st,
            seq![line],
            seq![fresh],
        ) == response_step(st, parsed_json(data)->Ok_0, fresh),
        line_data(line) is None ==> gemini_run(st, seq![line], seq![fresh]).state == st
            && gemini_run(st, seq![line], seq![fresh]).parts.len() == 0,
{
    reveal_with_fuel(gemini_run, 2);
    assert(seq![line].drop_last() =~= Seq::<Seq<char>>::empty());
    assert(seq![line].last() == line);
    if line_data(line) == Some(data) && parsed_json(data) is Ok {
        let step = response_step(st, parsed_json(data)->Ok_0, fresh);
        assert(Seq::<StreamView>::empty() + step.parts =~= step.parts);
    }
}

} // verus!
