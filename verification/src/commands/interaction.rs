//! What the user is told and asked while an answer is made.

use vstd::prelude::*;

use crate::clock::now_timestamp;
use crate::commands::mutations::{conversation_result, filled};
use crate::conversation::{
    chat_message_views, ChatMessageView, ConversationView, ToolRecordView,
};
use crate::conversation::{Conversation, ToolCallRecord};
use crate::json::{integer_json, items_view, opt_json, parsed_json};
use crate::json::{Json, JsonNumber, JsonView, Object};
use crate::model::messages::{str_json, value_or_null};
use crate::plan::{approved, executable_plan, mode_of, mode_set};
use crate::plan::{approve_at, executable_plan_text, mode_from_str, with_mode_at};
use crate::text::{concat2, copy_str, is_blank, join, str_eq, trim, truncate_chars};
use crate::text::{first_chars, is_blank_text, joined, opt_str, opt_text, strings, trimmed};

verus! {

// ---------------------------------------------------------------------
// Plans
// ---------------------------------------------------------------------

/// The conversation in another mode.
pub open spec fn in_mode(c: ConversationView, mode: Seq<char>, now: i64) -> Result<
    ConversationView,
    Seq<char>,
> {
    match mode_of(mode) {
        Err(e) => Err(e),
        Ok(m) => Ok(
            ConversationView {
                agent_plan_state: mode_set(c.agent_plan_state, m, now),
                updated_at: now,
                ..c
            },
        ),
    }
}

/// Puts the agent of a conversation into another mode.
pub fn set_agent_plan_mode_at(conversation: Conversation, mode: &str, now: i64) -> (r: Result<
    Conversation,
    String,
>)
    ensures
        conversation_result(r) == in_mode(conversation@, mode@, now),
{
    let mut c = conversation;
    match mode_from_str(mode) {
        Err(e) => Err(e),
        Ok(m) => {
            c.agent_plan_state = with_mode_at(&c.agent_plan_state, m, now);
            c.updated_at = now;
            Ok(c)
        },
    }
}

/// Puts the agent of a conversation into another mode, now.
pub fn chat_set_agent_plan_mode(conversation: Conversation, mode: &str) -> (r: Result<
    Conversation,
    String,
>)
    ensures
        exists|now: i64|
            conversation_result(r) == #[trigger] in_mode(conversation@, mode@, now),
{
    set_agent_plan_mode_at(conversation, mode, now_timestamp())
}

/// The first answer with the identifier, from `from` on.
pub open spec fn answer_index(messages: Seq<ChatMessageView>, id: Seq<char>, from: int) -> Option<int>
    decreases messages.len() - from,
{
    if from < 0 || from >= messages.len() {
        None
    } else if messages[from].id == id && messages[from].role == "assistant"@ {
        Some(from)
    } else {
        answer_index(messages, id, from + 1)
    }
}

fn find_answer(conversation: &Conversation, id: &str) -> (r: Option<usize>)
    ensures
        match r {
            Some(i) => i < conversation.messages@.len() && answer_index(
                conversation@.messages,
                id@,
                0,
            ) == Some(i as int),
            None => answer_index(conversation@.messages, id@, 0) is None,
        },
{
    let ghost all = conversation@.messages;
    let mut i: usize = 0;
    while i < conversation.messages.len()
        invariant
            i <= conversation.messages@.len(),
            all == chat_message_views(conversation.messages@),
            answer_index(all, id@, 0) == answer_index(all, id@, i as int),
        decreases conversation.messages@.len() - i,
    {
        assert(all[i as int] == conversation.messages@[i as int]@);
        if str_eq(conversation.messages[i].id.as_str(), id) && str_eq(
            conversation.messages[i].role.as_str(),
            "assistant",
        ) {
            return Some(i);
        }
        i += 1;
    }
    None
}

/// The conversation with a plan approved: that of an answer, where one is named,
/// else its own. The plan of an answer must be one that can be carried out.
pub open spec fn approving(c: ConversationView, message_id: Option<Seq<char>>, now: i64) -> Result<
    ConversationView,
    Seq<char>,
> {
    match filled(message_id) {
        None => Ok(
            ConversationView { agent_plan_state: approved(c.agent_plan_state, now), ..c },
        ),
        Some(id) => match answer_index(c.messages, id, 0) {
            None => Err("计划消息不存在"@),
            Some(i) => match c.messages[i].agent_plan {
                None => Err("该消息不是可执行计划"@),
                Some(p) => if executable_plan(p) is None {
                    Err("该消息不是可执行计划"@)
                } else {
                    Ok(
                        ConversationView {
                            messages: c.messages.update(
                                i,
                                ChatMessageView {
                                    agent_plan: Some(approved(p, now)),
                                    ..c.messages[i]
                                },
                            ),
                            agent_plan_state: approved(p, now),
                            ..c
                        },
                    )
                },
            },
        },
    }
}

/// Approves a plan. Nothing changes where that is refused.
pub fn approve_agent_plan_at(conversation: &mut Conversation, message_id: Option<&str>, now: i64) -> (r:
    Result<(), String>)
    ensures
        match approving(old(conversation)@, opt_str(message_id), now) {
            Ok(c) => r is Ok && final(conversation)@ == c,
            Err(e) => r is Err && r->Err_0@ == e && final(conversation)@ == old(conversation)@,
        },
{
    let id = match message_id {
        Some(t) => if is_blank(t) {
            None
        } else {
            Some(trim(t))
        },
        None => None,
    };
    match id {
        None => {
            conversation.agent_plan_state = approve_at(&conversation.agent_plan_state, now);
        },
        Some(id) => {
            let i = match find_answer(conversation, id.as_str()) {
                Some(i) => i,
                None => {
                    return Err(copy_str("计划消息不存在"));
                },
            };
            assert(conversation@.messages[i as int] == conversation.messages@[i as int]@);
            let next = match &conversation.messages[i].agent_plan {
                None => {
                    return Err(copy_str("该消息不是可执行计划"));
                },
                Some(p) => {
                    if executable_plan_text(p).is_none() {
                        return Err(copy_str("该消息不是可执行计划"));
                    }
                    approve_at(p, now)
                },
            };
            let ghost before = conversation.messages@;
            let mut message = conversation.messages[i].copy();
            message.agent_plan = Some(next.copy());
            conversation.messages.set(i, message);
            assert(chat_message_views(conversation.messages@) =~= chat_message_views(before).update(
                i as int,
                message@,
            ));
            conversation.agent_plan_state = next;
        },
    }
    Ok(())
}

/// Approves a plan, now.
pub fn approve_agent_plan_for_execution(
    conversation: &mut Conversation,
    message_id: Option<&str>,
) -> (r: Result<(), String>)
    ensures
        exists|now: i64|
            match #[trigger] approving(old(conversation)@, opt_str(message_id), now) {
                Ok(c) => r is Ok && final(conversation)@ == c,
                Err(e) => r is Err && r->Err_0@ == e && final(conversation)@ == old(conversation)@,
            },
{
    approve_agent_plan_at(conversation, message_id, now_timestamp())
}

/// The conversation with a plan approved at `approved_at`, changed at `now`.
pub open spec fn executing(
    c: ConversationView,
    message_id: Option<Seq<char>>,
    approved_at: i64,
    now: i64,
) -> Result<ConversationView, Seq<char>> {
    match approving(c, message_id, approved_at) {
        Ok(next) => Ok(ConversationView { updated_at: now, ..next }),
        Err(e) => Err(e),
    }
}

/// Has a plan carried out: approves it at `approved_at` and notes the time of the change.
pub fn execute_agent_plan_at(
    conversation: Conversation,
    message_id: Option<&str>,
    approved_at: i64,
    now: i64,
) -> (r: Result<Conversation, String>)
    ensures
        conversation_result(r) == executing(conversation@, opt_str(message_id), approved_at, now),
{
    let mut c = conversation;
    match approve_agent_plan_at(&mut c, message_id, approved_at) {
        Ok(_) => {
            c.updated_at = now;
            Ok(c)
        },
        Err(e) => Err(e),
    }
}

/// Has a plan carried out, from now on.
pub fn chat_execute_agent_plan(conversation: Conversation, message_id: Option<&str>) -> (r: Result<
    Conversation,
    String,
>)
    ensures
        exists|approved_at: i64, now: i64|
            conversation_result(r) == #[trigger] executing(
                conversation@,
                opt_str(message_id),
                approved_at,
                now,
            ),
{
    let approved_at: i64 = now_timestamp();
    let now: i64 = now_timestamp();
    execute_agent_plan_at(conversation, message_id, approved_at, now)
}

/// Approving the plan of an answer leaves every other message as it is.
pub proof fn law_approving_touches_one_message(
    c: ConversationView,
    message_id: Option<Seq<char>>,
    now: i64,
    i: int,
)
    requires
        0 <= i < c.messages.len(),
    ensures
        approving(c, message_id, now) matches Ok(r) ==> r.messages.len() == c.messages.len() && (
        r.messages[i] == c.messages[i] || (filled(message_id) == Some(c.messages[i].id)
            && r.messages[i] == (ChatMessageView {
            agent_plan: Some(r.agent_plan_state),
            ..c.messages[i]
        }))),
{
    if let Some(id) = filled(message_id) {
        lemma_answer_index(c.messages, id, 0);
    }
}

proof fn lemma_answer_index(messages: Seq<ChatMessageView>, id: Seq<char>, from: int)
    requires
        0 <= from <= messages.len(),
    ensures
        answer_index(messages, id, from) matches Some(i) ==> from <= i < messages.len()
            && messages[i].id == id && messages[i].role == "assistant"@,
    decreases messages.len() - from,
{
    if from < messages.len() {
        lemma_answer_index(messages, id, from + 1);
    }
}

// ---------------------------------------------------------------------
// Approving tool calls
// ---------------------------------------------------------------------

/// A text argument that is not blank, trimmed.
pub open spec fn text_argument(arguments: Option<JsonView>, key: Seq<char>) -> Option<Seq<char>> {
    match arguments {
        Some(v) => filled(v.field_text(key)),
        None => None,
    }
}

fn get_text_argument(arguments: &Option<Json>, key: &str) -> (r: Option<String>)
    ensures
        opt_text(r) == text_argument(opt_json(*arguments), key@),
{
    match arguments {
        Some(v) => match v.get_str(key) {
            Some(t) => if is_blank(t) {
                None
            } else {
                Some(trim(t))
            },
            None => None,
        },
        None => None,
    }
}

/// The text that the first of several edits replaces.
pub open spec fn first_edit(arguments: JsonView) -> Option<Seq<char>> {
    match arguments.field_items("edits"@) {
        Some(edits) => if edits.len() > 0 {
            edits[0].field_text("old_string"@)
        } else {
            None
        },
        None => None,
    }
}

/// The text that an edit replaces.
pub open spec fn replaced_text(arguments: Option<JsonView>) -> Option<Seq<char>> {
    match arguments {
        None => None,
        Some(v) => filled(
            match first_edit(v) {
                Some(t) => Some(t),
                None => match v.field("old_string"@) {
                    Some(j) => j.text(),
                    None => v.field_text("old"@),
                },
            },
        ),
    }
}

fn get_replaced_text(arguments: &Option<Json>) -> (r: Option<String>)
    ensures
        opt_text(r) == replaced_text(opt_json(*arguments)),
{
    let v = match arguments {
        None => {
            return None;
        },
        Some(v) => v,
    };
    let first = match v.get_array("edits") {
        Some(edits) => {
            assert(items_view(edits@).len() == edits@.len());
            if edits.len() > 0 {
                assert(items_view(edits@)[0] == edits@[0]@);
                edits[0].get_str("old_string")
            } else {
                None
            }
        },
        None => None,
    };
    let old_text = match first {
        Some(t) => Some(t),
        None => match v.get("old_string") {
            Some(j) => j.as_str(),
            None => v.get_str("old"),
        },
    };
    match old_text {
        Some(t) => if is_blank(t) {
            None
        } else {
            Some(trim(t))
        },
        None => None,
    }
}

/// A line with a label, where there is something to show.
pub open spec fn labelled(label: Seq<char>, text: Option<Seq<char>>) -> Seq<Seq<char>> {
    match text {
        Some(t) => seq![label + t],
        None => Seq::empty(),
    }
}

/// The lines that say what a tool call is about.
pub open spec fn summary_lines(name: Seq<char>, arguments: Option<JsonView>) -> Seq<Seq<char>> {
    if name == "bash"@ {
        labelled("Command: "@, text_argument(arguments, "command"@)) + labelled(
            "Working directory: "@,
            text_argument(arguments, "cwd"@),
        )
    } else if name == "write"@ || name == "edit"@ || name == "read"@ {
        labelled("Path: "@, text_argument(arguments, "path"@)) + if name == "edit"@ {
            labelled(
                "Replace: "@,
                match replaced_text(arguments) {
                    Some(t) => Some(first_chars(t, 180)),
                    None => None,
                },
            )
        } else {
            Seq::empty()
        }
    } else {
        Seq::empty()
    }
}

fn push_labelled(lines: &mut Vec<String>, label: &str, text: Option<String>)
    ensures
        strings(final(lines)@) == strings(old(lines)@) + labelled(label@, opt_text(text)),
{
    let ghost before = lines@;
    match text {
        Some(t) => {
            let line = concat2(label, t.as_str());
            lines.push(line);
            assert(strings(lines@) =~= strings(before) + seq![label@ + t@]);
        },
        None => {
            assert(strings(lines@) =~= strings(before) + Seq::<Seq<char>>::empty());
        },
    }
}

/// The arguments of a tool call, where they are JSON.
pub open spec fn arguments_json(raw: Seq<char>) -> Option<JsonView> {
    match parsed_json(raw) {
        Ok(v) => Some(v),
        Err(_) => None,
    }
}

/// What the user is shown of a tool call before they allow it: what it is about,
/// and the arguments.
pub open spec fn approval_summary(name: Seq<char>, raw: Seq<char>, arguments: Option<JsonView>) -> Seq<
    char,
> {
    let lines = summary_lines(name, arguments);
    if lines.len() == 0 {
        first_chars(raw, 800)
    } else {
        joined(lines, "\n"@) + "\n\nRaw arguments:\n"@ + first_chars(raw, 800)
    }
}

/// What the user is shown of a tool call whose arguments were read.
pub fn summarize_tool_call(name: &str, raw: &str, arguments: &Option<Json>) -> (r: String)
    ensures
        r@ == approval_summary(name@, raw@, opt_json(*arguments)),
{
    let mut lines: Vec<String> = Vec::new();
    assert(strings(lines@) =~= Seq::<Seq<char>>::empty());
    if str_eq(name, "bash") {
        push_labelled(&mut lines, "Command: ", get_text_argument(arguments, "command"));
        push_labelled(&mut lines, "Working directory: ", get_text_argument(arguments, "cwd"));
    } else if str_eq(name, "write") || str_eq(name, "edit") || str_eq(name, "read") {
        push_labelled(&mut lines, "Path: ", get_text_argument(arguments, "path"));
        if str_eq(name, "edit") {
            let old_text = match get_replaced_text(arguments) {
                Some(t) => Some(truncate_chars(t.as_str(), 180)),
                None => None,
            };
            push_labelled(&mut lines, "Replace: ", old_text);
        }
    }
    proof {
        reveal_strlit("bash");
        reveal_strlit("edit");
        assert("bash"@[0] != "edit"@[0]);
        assert(strings(lines@) =~= summary_lines(name@, opt_json(*arguments)));
    }
    assert(strings(lines@).len() == lines@.len());
    let shown = truncate_chars(raw, 800);
    if lines.len() == 0 {
        shown
    } else {
        let mut summary = join(&lines, "\n");
        summary.append("\n\nRaw arguments:\n");
        summary.append(shown.as_str());
        summary
    }
}

/// What the user is shown of a tool call before they allow it.
pub fn format_tool_approval_summary(record: &ToolCallRecord) -> (r: String)
    ensures
        r@ == approval_summary(record.name@, record.arguments@, arguments_json(record.arguments@)),
{
    let parsed = match Json::parse(record.arguments.as_str()) {
        Ok(v) => Some(v),
        Err(_) => None,
    };
    summarize_tool_call(record.name.as_str(), record.arguments.as_str(), &parsed)
}

// ---------------------------------------------------------------------
// Waiting for the user
// ---------------------------------------------------------------------

/// How waiting for the user ended.
#[derive(Debug)]
pub enum Waited<T> {
    Answered(T),
    /// Whoever should have answered is gone.
    Dropped,
    TimedOut,
    /// The answer is not being made any more.
    Cancelled,
}

/// Whether a tool call is allowed: only where the user said so.
pub fn tool_approved(waited: &Waited<bool>) -> (r: bool)
    ensures
        r == (*waited == Waited::Answered(true)),
{
    match waited {
        Waited::Answered(yes) => *yes,
        _ => false,
    }
}

/// Whether tools may be used in a conversation: where that was granted before, or
/// the user grants it now.
pub fn session_consented(granted: bool, waited: &Waited<bool>) -> (r: bool)
    ensures
        r == (granted || *waited == Waited::Answered(true)),
{
    granted || tool_approved(waited)
}

/// What a question to the user came to.
#[derive(Debug)]
pub enum UserReply<T> {
    Answered(T),
    Cancelled,
    TimedOut,
}

/// What a question to the user came to: without an answer it was cancelled, or the
/// time ran out.
pub fn user_reply<T>(waited: Waited<T>) -> (r: UserReply<T>)
    ensures
        r == (match waited {
            Waited::Answered(t) => UserReply::Answered(t),
            Waited::TimedOut => UserReply::TimedOut,
            _ => UserReply::Cancelled,
        }),
{
    match waited {
        Waited::Answered(t) => UserReply::Answered(t),
        Waited::TimedOut => UserReply::TimedOut,
        Waited::Dropped => UserReply::Cancelled,
        Waited::Cancelled => UserReply::Cancelled,
    }
}

// ---------------------------------------------------------------------
// Events
// ---------------------------------------------------------------------

/// The fields that say which message an event is about.
pub open spec fn about(conversation_id: Seq<char>, run_id: Seq<char>, message_id: Seq<char>) -> Map<
    Seq<char>,
    JsonView,
> {
    Map::empty().insert("conversationId"@, str_json(conversation_id)).insert(
        "runId"@,
        str_json(run_id),
    ).insert("messageId"@, str_json(message_id))
}

fn make_about(conversation_id: &str, run_id: &str, message_id: &str) -> (r: Object)
    ensures
        r@ == about(conversation_id@, run_id@, message_id@),
{
    let mut o = Object::new();
    o.set("conversationId", Json::string(conversation_id));
    o.set("runId", Json::string(run_id));
    o.set("messageId", Json::string(message_id));
    o
}

/// A text, or null.
pub open spec fn text_or_null(t: Option<Seq<char>>) -> JsonView {
    match t {
        Some(s) => str_json(s),
        None => JsonView::Null,
    }
}

fn make_text_or_null(t: Option<&str>) -> (r: Json)
    ensures
        r@ == text_or_null(opt_str(t)),
{
    match t {
        Some(s) => Json::string(s),
        None => Json::Null,
    }
}

fn text_field_or_null(t: &Option<String>) -> (r: Json)
    ensures
        r@ == text_or_null(opt_text(*t)),
{
    match t {
        Some(s) => Json::string(s.as_str()),
        None => Json::Null,
    }
}

/// A count, or null.
pub open spec fn count_or_null(n: Option<u64>) -> JsonView {
    match n {
        Some(k) => JsonView::Number(JsonNumber::Unsigned(k)),
        None => JsonView::Null,
    }
}

fn make_count_or_null(n: Option<u64>) -> (r: Json)
    ensures
        r@ == count_or_null(n),
{
    match n {
        Some(k) => Json::unsigned(k),
        None => Json::Null,
    }
}

/// A time, or null.
pub open spec fn time_or_null(n: Option<i64>) -> JsonView {
    match n {
        Some(k) => integer_json(k as int),
        None => JsonView::Null,
    }
}

fn make_time_or_null(n: Option<i64>) -> (r: Json)
    ensures
        r@ == time_or_null(n),
{
    match n {
        Some(k) => Json::integer(k),
        None => Json::Null,
    }
}

/// The request to allow a tool call.
pub open spec fn confirm_event(
    conversation_id: Seq<char>,
    run_id: Seq<char>,
    message_id: Seq<char>,
    record: ToolRecordView,
) -> JsonView {
    JsonView::Object(
        about(conversation_id, run_id, message_id).insert(
            "toolCallId"@,
            str_json(record.id),
        ).insert("name"@, str_json(record.name)).insert("source"@, str_json(record.source)).insert(
            "serverId"@,
            text_or_null(record.server_id),
        ).insert(
            "argumentsPreview"@,
            str_json(
                approval_summary(record.name, record.arguments, arguments_json(record.arguments)),
            ),
        ).insert("sensitivity"@, str_json("sensitive"@)),
    )
}

/// The request to allow a tool call.
pub fn tool_confirm_event(
    conversation_id: &str,
    run_id: &str,
    message_id: &str,
    record: &ToolCallRecord,
) -> (r: Json)
    ensures
        r@ == confirm_event(conversation_id@, run_id@, message_id@, record@),
{
    let mut o = make_about(conversation_id, run_id, message_id);
    o.set("toolCallId", Json::string(record.id.as_str()));
    o.set("name", Json::string(record.name.as_str()));
    o.set("source", Json::string(record.source.as_str()));
    o.set("serverId", text_field_or_null(&record.server_id));
    let summary = format_tool_approval_summary(record);
    o.set("argumentsPreview", Json::string(summary.as_str()));
    o.set("sensitivity", Json::string("sensitive"));
    Json::Object(o)
}

/// The request to allow tools in a conversation.
pub fn session_consent_event(conversation_id: &str, run_id: &str, message_id: &str) -> (r: Json)
    ensures
        r@ == JsonView::Object(about(conversation_id@, run_id@, message_id@)),
{
    Json::Object(make_about(conversation_id, run_id, message_id))
}

/// The question to the user.
pub open spec fn prompt_event(
    conversation_id: Seq<char>,
    run_id: Seq<char>,
    message_id: Seq<char>,
    record: ToolRecordView,
    prompt: JsonView,
    structured: JsonView,
) -> JsonView {
    JsonView::Object(
        about(conversation_id, run_id, message_id).insert(
            "toolCallId"@,
            str_json(record.id),
        ).insert("id"@, str_json(record.id)).insert("name"@, str_json(record.name)).insert(
            "source"@,
            str_json(record.source),
        ).insert("prompt"@, prompt).insert("structuredContent"@, structured),
    )
}

/// The question to the user.
pub fn user_prompt_event(
    conversation_id: &str,
    run_id: &str,
    message_id: &str,
    record: &ToolCallRecord,
    prompt: Json,
    structured: Json,
) -> (r: Json)
    ensures
        r@ == prompt_event(
            conversation_id@,
            run_id@,
            message_id@,
            record@,
            prompt@,
            structured@,
        ),
{
    let mut o = make_about(conversation_id, run_id, message_id);
    o.set("toolCallId", Json::string(record.id.as_str()));
    o.set("id", Json::string(record.id.as_str()));
    o.set("name", Json::string(record.name.as_str()));
    o.set("source", Json::string(record.source.as_str()));
    o.set("prompt", prompt);
    o.set("structuredContent", structured);
    Json::Object(o)
}

/// The first fields of what is told of a tool call.
pub open spec fn tool_fields_head(
    conversation_id: Seq<char>,
    run_id: Seq<char>,
    message_id: Seq<char>,
    record: ToolRecordView,
    status: Seq<char>,
) -> Map<Seq<char>, JsonView> {
    about(conversation_id, run_id, message_id).insert("toolCallId"@, str_json(record.id)).insert(
        "id"@,
        str_json(record.id),
    ).insert("name"@, str_json(record.name)).insert("source"@, str_json(record.source)).insert(
        "serverId"@,
        text_or_null(record.server_id),
    ).insert("status"@, str_json(status)).insert(
        "argumentsPreview"@,
        str_json(first_chars(record.arguments, 800)),
    ).insert("resultPreview"@, text_or_null(record.result_preview)).insert(
        "error"@,
        text_or_null(record.error),
    )
}

/// What is told of a tool call; the word for its status and its artifacts are
/// given.
pub open spec fn tool_event(
    conversation_id: Seq<char>,
    run_id: Seq<char>,
    message_id: Seq<char>,
    record: ToolRecordView,
    status: Seq<char>,
    artifacts: JsonView,
) -> JsonView {
    JsonView::Object(
        tool_fields_head(conversation_id, run_id, message_id, record, status).insert(
            "startedAt"@,
            time_or_null(record.started_at),
        ).insert("completedAt"@, time_or_null(record.completed_at)).insert(
            "durationMs"@,
            count_or_null(record.duration_ms),
        ).insert("round"@, JsonView::Number(JsonNumber::Unsigned(record.round as u64))).insert(
            "sensitive"@,
            JsonView::Bool(record.sensitive),
        ).insert("artifacts"@, artifacts).insert("traceId"@, text_or_null(record.trace_id)).insert(
            "spanId"@,
            text_or_null(record.span_id),
        ).insert("structuredContent"@, value_or_null(record.structured_content)),
    )
}

/// What is told of a tool call.
pub fn tool_record_event(
    conversation_id: &str,
    run_id: &str,
    message_id: &str,
    record: &ToolCallRecord,
    status: &str,
    artifacts: Json,
) -> (r: Json)
    ensures
        r@ == tool_event(
            conversation_id@,
            run_id@,
            message_id@,
            record@,
            status@,
            artifacts@,
        ),
{
    let mut o = make_about(conversation_id, run_id, message_id);
    o.set("toolCallId", Json::string(record.id.as_str()));
    o.set("id", Json::string(record.id.as_str()));
    o.set("name", Json::string(record.name.as_str()));
    o.set("source", Json::string(record.source.as_str()));
    o.set("serverId", text_field_or_null(&record.server_id));
    o.set("status", Json::string(status));
    let preview = truncate_chars(record.arguments.as_str(), 800);
    o.set("argumentsPreview", Json::string(preview.as_str()));
    o.set("resultPreview", text_field_or_null(&record.result_preview));
    o.set("error", text_field_or_null(&record.error));
    assert(o@ == tool_fields_head(conversation_id@, run_id@, message_id@, record@, status@));
    o.set("startedAt", make_time_or_null(record.started_at));
    o.set("completedAt", make_time_or_null(record.completed_at));
    o.set("durationMs", make_count_or_null(record.duration_ms));
    o.set("round", Json::unsigned(record.round as u64));
    o.set("sensitive", Json::Bool(record.sensitive));
    o.set("artifacts", artifacts);
    o.set("traceId", text_field_or_null(&record.trace_id));
    o.set("spanId", text_field_or_null(&record.span_id));
    let structured = match &record.structured_content {
        Some(j) => j.copy(),
        None => Json::Null,
    };
    o.set("structuredContent", structured);
    Json::Object(o)
}

/// A part of an answer: its names and numbers, and the whole of it.
#[derive(Debug)]
pub struct SegmentInfo {
    pub id: String,
    pub kind: String,
    pub phase: String,
    pub order: u64,
    pub step_number: Option<u64>,
    pub round: Option<u64>,
    pub tool_call_id: Option<String>,
    pub json: Json,
}

/// What is told of a piece of an answer, without its part.
pub open spec fn delta_fields(
    conversation_id: Seq<char>,
    run_id: Seq<char>,
    message_id: Seq<char>,
    delta: Seq<char>,
) -> Map<Seq<char>, JsonView> {
    about(conversation_id, run_id, message_id).insert("imageId"@, str_json(""@)).insert(
        "kind"@,
        str_json("answer"@),
    ).insert("delta"@, str_json(delta))
}

/// What is told of a piece of an answer.
pub open spec fn delta_event(
    conversation_id: Seq<char>,
    run_id: Seq<char>,
    message_id: Seq<char>,
    delta: Seq<char>,
    reasoning_delta: Option<Seq<char>>,
    segment: Option<&SegmentInfo>,
) -> JsonView {
    let m = delta_fields(conversation_id, run_id, message_id, delta).insert(
        "reasoningDelta"@,
        text_or_null(reasoning_delta),
    );
    JsonView::Object(
        match segment {
            Some(s) => m.insert("segmentId"@, str_json(s.id@)).insert(
                "segmentKind"@,
                str_json(s.kind@),
            ).insert("phase"@, str_json(s.phase@)).insert(
                "order"@,
                JsonView::Number(JsonNumber::Unsigned(s.order)),
            ).insert("stepNumber"@, count_or_null(s.step_number)).insert(
                "round"@,
                count_or_null(s.round),
            ).insert("toolCallId"@, text_or_null(opt_text(s.tool_call_id))).insert(
                "segment"@,
                s.json@,
            ),
            None => m.insert("segmentId"@, JsonView::Null).insert(
                "segmentKind"@,
                JsonView::Null,
            ).insert("phase"@, JsonView::Null).insert("order"@, JsonView::Null).insert(
                "stepNumber"@,
                JsonView::Null,
            ).insert("round"@, JsonView::Null).insert("toolCallId"@, JsonView::Null).insert(
                "segment"@,
                JsonView::Null,
            ),
        },
    )
}

/// What is told of a piece of an answer.
pub fn stream_delta_event(
    conversation_id: &str,
    run_id: &str,
    message_id: &str,
    delta: &str,
    reasoning_delta: Option<&str>,
    segment: Option<&SegmentInfo>,
) -> (r: Json)
    ensures
        r@ == delta_event(
            conversation_id@,
            run_id@,
            message_id@,
            delta@,
            opt_str(reasoning_delta),
            segment,
        ),
{
    let mut o = make_about(conversation_id, run_id, message_id);
    o.set("imageId", Json::string(""));
    o.set("kind", Json::string("answer"));
    o.set("delta", Json::string(delta));
    o.set("reasoningDelta", make_text_or_null(reasoning_delta));
    match segment {
        Some(s) => {
            o.set("segmentId", Json::string(s.id.as_str()));
            o.set("segmentKind", Json::string(s.kind.as_str()));
            o.set("phase", Json::string(s.phase.as_str()));
            o.set("order", Json::unsigned(s.order));
            o.set("stepNumber", make_count_or_null(s.step_number));
            o.set("round", make_count_or_null(s.round));
            o.set("toolCallId", text_field_or_null(&s.tool_call_id));
            o.set("segment", s.json.copy());
        },
        None => {
            o.set("segmentId", Json::Null);
            o.set("segmentKind", Json::Null);
            o.set("phase", Json::Null);
            o.set("order", Json::Null);
            o.set("stepNumber", Json::Null);
            o.set("round", Json::Null);
            o.set("toolCallId", Json::Null);
            o.set("segment", Json::Null);
        },
    }
    Json::Object(o)
}

/// What is told when an answer is complete.
pub open spec fn done_event(
    conversation_id: Seq<char>,
    run_id: Seq<char>,
    message_id: Seq<char>,
    reason: Seq<char>,
    full: Seq<char>,
) -> JsonView {
    JsonView::Object(
        delta_fields(conversation_id, run_id, message_id, ""@).insert(
            "done"@,
            JsonView::Bool(true),
        ).insert("reason"@, str_json(reason)).insert("full"@, str_json(full)),
    )
}

/// What is told when an answer is complete.
pub fn stream_done_event(
    conversation_id: &str,
    run_id: &str,
    message_id: &str,
    reason: &str,
    full: &str,
) -> (r: Json)
    ensures
        r@ == done_event(conversation_id@, run_id@, message_id@, reason@, full@),
{
    let mut o = make_about(conversation_id, run_id, message_id);
    o.set("imageId", Json::string(""));
    o.set("kind", Json::string("answer"));
    o.set("delta", Json::string(""));
    o.set("done", Json::Bool(true));
    o.set("reason", Json::string(reason));
    o.set("full", Json::string(full));
    Json::Object(o)
}

// ---------------------------------------------------------------------
// Commands in the background
// ---------------------------------------------------------------------

/// A command that was started in the background; `started_at` tells which of two
/// started first.
#[derive(Debug)]
pub struct BackgroundJob {
    pub job_id: String,
    pub command: String,
    pub cwd: String,
    pub pid: u64,
    pub running: bool,
    pub started_at: u64,
    pub elapsed_secs: u64,
}

/// What is shown of a command.
pub open spec fn job_json(j: BackgroundJob) -> JsonView {
    JsonView::Object(
        Map::empty().insert("jobId"@, str_json(j.job_id@)).insert(
            "command"@,
            str_json(j.command@),
        ).insert("cwd"@, str_json(j.cwd@)).insert(
            "pid"@,
            JsonView::Number(JsonNumber::Unsigned(j.pid)),
        ).insert("elapsedSecs"@, JsonView::Number(JsonNumber::Unsigned(j.elapsed_secs))),
    )
}

fn make_job_json(j: &BackgroundJob) -> (r: Json)
    ensures
        r@ == job_json(*j),
{
    let mut o = Object::new();
    o.set("jobId", Json::string(j.job_id.as_str()));
    o.set("command", Json::string(j.command.as_str()));
    o.set("cwd", Json::string(j.cwd.as_str()));
    o.set("pid", Json::unsigned(j.pid));
    o.set("elapsedSecs", Json::unsigned(j.elapsed_secs));
    Json::Object(o)
}

/// Commands in order, with one more behind those that did not start later.
pub open spec fn job_placed(jobs: Seq<BackgroundJob>, x: BackgroundJob) -> Seq<BackgroundJob>
    decreases jobs.len(),
{
    if jobs.len() == 0 || jobs.last().started_at <= x.started_at {
        jobs.push(x)
    } else {
        job_placed(jobs.drop_last(), x).push(jobs.last())
    }
}

/// The commands that are running, the first to start first.
pub open spec fn running_jobs(jobs: Seq<BackgroundJob>) -> Seq<BackgroundJob>
    decreases jobs.len(),
{
    if jobs.len() == 0 {
        Seq::empty()
    } else {
        let before = running_jobs(jobs.drop_last());
        if jobs.last().running {
            job_placed(before, jobs.last())
        } else {
            before
        }
    }
}

/// The commands of a list of references.
pub open spec fn jobs_of(v: Seq<&BackgroundJob>) -> Seq<BackgroundJob> {
    Seq::new(v.len(), |i: int| *v[i])
}

fn place_job<'a>(jobs: &mut Vec<&'a BackgroundJob>, x: &'a BackgroundJob)
    ensures
        jobs_of(final(jobs)@) == job_placed(jobs_of(old(jobs)@), *x),
{
    let ghost all = jobs_of(jobs@);
    let mut i: usize = jobs.len();
    assert(all.take(all.len() as int) =~= all);
    assert(job_placed(all, *x) + all.skip(all.len() as int) =~= job_placed(all, *x));
    while i > 0 && jobs[i - 1].started_at > x.started_at
        invariant
            i <= jobs@.len(),
            jobs@ == old(jobs)@,
            all == jobs_of(jobs@),
            job_placed(all, *x) == job_placed(all.take(i as int), *x) + all.skip(i as int),
        decreases i,
    {
        proof {
            assert(all[i - 1] == *jobs@[i - 1]);
            assert(all.take(i as int).drop_last() =~= all.take(i - 1));
            assert(job_placed(all.take(i - 1), *x).push(all[i - 1]) + all.skip(i as int)
                =~= job_placed(all.take(i - 1), *x) + all.skip(i - 1));
        }
        i -= 1;
    }
    proof {
        if i > 0 {
            assert(all[i - 1] == *jobs@[i - 1]);
            assert(all.take(i as int).last() == all[i - 1]);
        }
        assert(job_placed(all.take(i as int), *x) == all.take(i as int).push(*x));
    }
    jobs.insert(i, x);
    assert(jobs_of(jobs@) =~= all.take(i as int).push(*x) + all.skip(i as int));
}

/// The commands that are running, the first to start first, as they are shown.
pub fn chat_list_background_commands(jobs: &Vec<BackgroundJob>) -> (r: Vec<Json>)
    ensures
        items_view(r@) == Seq::new(
            running_jobs(jobs@).len(),
            |i: int| job_json(running_jobs(jobs@)[i]),
        ),
{
    let mut sorted: Vec<&BackgroundJob> = Vec::new();
    let mut i: usize = 0;
    assert(jobs@.take(0) =~= Seq::<BackgroundJob>::empty());
    assert(jobs_of(sorted@) =~= Seq::<BackgroundJob>::empty());
    while i < jobs.len()
        invariant
            i <= jobs@.len(),
            jobs_of(sorted@) == running_jobs(jobs@.take(i as int)),
        decreases jobs@.len() - i,
    {
        assert(jobs@.take(i + 1).drop_last() =~= jobs@.take(i as int));
        if jobs[i].running {
            place_job(&mut sorted, &jobs[i]);
        }
        i += 1;
    }
    assert(jobs@.take(jobs@.len() as int) =~= jobs@);
    let ghost all = jobs_of(sorted@);
    let mut out: Vec<Json> = Vec::new();
    let mut k: usize = 0;
    while k < sorted.len()
        invariant
            k <= sorted@.len(),
            all == jobs_of(sorted@),
            out@.len() == k,
            forall|j: int| 0 <= j < k ==> (#[trigger] out@[j])@ == job_json(all[j]),
        decreases sorted@.len() - k,
    {
        assert(all[k as int] == *sorted@[k as int]);
        out.push(make_job_json(sorted[k]));
        k += 1;
    }
    assert(items_view(out@) =~= Seq::new(all.len(), |i: int| job_json(all[i])));
    out
}

/// An answer is found by its identifier: the first message of the assistant that has it.
pub proof fn law_answers_are_found_by_id(messages: Seq<ChatMessageView>, id: Seq<char>, from: int, i: int)
    requires
        0 <= from <= i <= messages.len(),
        forall|j: int| from <= j < i ==> !((#[trigger] messages[j]).id == id && messages[j].role == "assistant"@),
    ensures
        i < messages.len() && (messages[i]).id == id && messages[i].role == "assistant"@ ==> answer_index(messages, id, from) == Some(i),
        i == messages.len() ==> answer_index(messages, id, from) == None::<int>,
    decreases i - from,
{
    if from < i {
        assert(!((messages[from]).id == id && messages[from].role == "assistant"@));
        law_answers_are_found_by_id(messages, id, from + 1, i);
    }
}

proof fn lemma_event_keys()
    ensures
        "conversationId"@ != "runId"@,
        "conversationId"@ != "messageId"@,
        "conversationId"@ != "toolCallId"@,
        "conversationId"@ != "id"@,
        "conversationId"@ != "name"@,
        "conversationId"@ != "source"@,
        "conversationId"@ != "serverId"@,
        "conversationId"@ != "status"@,
        "conversationId"@ != "argumentsPreview"@,
        "conversationId"@ != "resultPreview"@,
        "conversationId"@ != "error"@,
        "conversationId"@ != "startedAt"@,
        "conversationId"@ != "completedAt"@,
        "conversationId"@ != "durationMs"@,
        "conversationId"@ != "round"@,
        "conversationId"@ != "sensitive"@,
        "conversationId"@ != "artifacts"@,
        "conversationId"@ != "traceId"@,
        "conversationId"@ != "spanId"@,
        "conversationId"@ != "structuredContent"@,
        "conversationId"@ != "sensitivity"@,
        "conversationId"@ != "prompt"@,
        "runId"@ != "messageId"@,
        "runId"@ != "toolCallId"@,
        "runId"@ != "id"@,
        "runId"@ != "name"@,
        "runId"@ != "source"@,
        "runId"@ != "serverId"@,
        "runId"@ != "status"@,
        "runId"@ != "argumentsPreview"@,
        "runId"@ != "resultPreview"@,
        "runId"@ != "error"@,
        "runId"@ != "startedAt"@,
        "runId"@ != "completedAt"@,
        "runId"@ != "durationMs"@,
        "runId"@ != "round"@,
        "runId"@ != "sensitive"@,
        "runId"@ != "artifacts"@,
        "runId"@ != "traceId"@,
        "runId"@ != "spanId"@,
        "runId"@ != "structuredContent"@,
        "runId"@ != "sensitivity"@,
        "runId"@ != "prompt"@,
        "messageId"@ != "toolCallId"@,
        "messageId"@ != "id"@,
        "messageId"@ != "name"@,
        "messageId"@ != "source"@,
        "messageId"@ != "serverId"@,
        "messageId"@ != "status"@,
        "messageId"@ != "argumentsPreview"@,
        "messageId"@ != "resultPreview"@,
        "messageId"@ != "error"@,
        "messageId"@ != "startedAt"@,
        "messageId"@ != "completedAt"@,
        "messageId"@ != "durationMs"@,
        "messageId"@ != "round"@,
        "messageId"@ != "sensitive"@,
        "messageId"@ != "artifacts"@,
        "messageId"@ != "traceId"@,
        "messageId"@ != "spanId"@,
        "messageId"@ != "structuredContent"@,
        "messageId"@ != "sensitivity"@,
        "messageId"@ != "prompt"@,
        "toolCallId"@ != "id"@,
        "toolCallId"@ != "name"@,
        "toolCallId"@ != "source"@,
        "toolCallId"@ != "serverId"@,
        "toolCallId"@ != "status"@,
        "toolCallId"@ != "argumentsPreview"@,
        "toolCallId"@ != "resultPreview"@,
        "toolCallId"@ != "error"@,
        "toolCallId"@ != "startedAt"@,
        "toolCallId"@ != "completedAt"@,
        "toolCallId"@ != "durationMs"@,
        "toolCallId"@ != "round"@,
        "toolCallId"@ != "sensitive"@,
        "toolCallId"@ != "artifacts"@,
        "toolCallId"@ != "traceId"@,
        "toolCallId"@ != "spanId"@,
        "toolCallId"@ != "structuredContent"@,
        "toolCallId"@ != "sensitivity"@,
        "toolCallId"@ != "prompt"@,
        "id"@ != "name"@,
        "id"@ != "source"@,
        "id"@ != "serverId"@,
        "id"@ != "status"@,
        "id"@ != "argumentsPreview"@,
        "id"@ != "resultPreview"@,
        "id"@ != "error"@,
        "id"@ != "startedAt"@,
        "id"@ != "completedAt"@,
        "id"@ != "durationMs"@,
        "id"@ != "round"@,
        "id"@ != "sensitive"@,
        "id"@ != "artifacts"@,
        "id"@ != "traceId"@,
        "id"@ != "spanId"@,
        "id"@ != "structuredContent"@,
        "id"@ != "sensitivity"@,
        "id"@ != "prompt"@,
        "name"@ != "source"@,
        "name"@ != "serverId"@,
        "name"@ != "status"@,
        "name"@ != "argumentsPreview"@,
        "name"@ != "resultPreview"@,
        "name"@ != "error"@,
        "name"@ != "startedAt"@,
        "name"@ != "completedAt"@,
        "name"@ != "durationMs"@,
        "name"@ != "round"@,
        "name"@ != "sensitive"@,
        "name"@ != "artifacts"@,
        "name"@ != "traceId"@,
        "name"@ != "spanId"@,
        "name"@ != "structuredContent"@,
        "name"@ != "sensitivity"@,
        "name"@ != "prompt"@,
        "source"@ != "serverId"@,
        "source"@ != "status"@,
        "source"@ != "argumentsPreview"@,
        "source"@ != "resultPreview"@,
        "source"@ != "error"@,
        "source"@ != "startedAt"@,
        "source"@ != "completedAt"@,
        "source"@ != "durationMs"@,
        "source"@ != "round"@,
        "source"@ != "sensitive"@,
        "source"@ != "artifacts"@,
        "source"@ != "traceId"@,
        "source"@ != "spanId"@,
        "source"@ != "structuredContent"@,
        "source"@ != "sensitivity"@,
        "source"@ != "prompt"@,
        "serverId"@ != "status"@,
        "serverId"@ != "argumentsPreview"@,
        "serverId"@ != "resultPreview"@,
        "serverId"@ != "error"@,
        "serverId"@ != "startedAt"@,
        "serverId"@ != "completedAt"@,
        "serverId"@ != "durationMs"@,
        "serverId"@ != "round"@,
        "serverId"@ != "sensitive"@,
        "serverId"@ != "artifacts"@,
        "serverId"@ != "traceId"@,
        "serverId"@ != "spanId"@,
        "serverId"@ != "structuredContent"@,
        "serverId"@ != "sensitivity"@,
        "serverId"@ != "prompt"@,
        "status"@ != "argumentsPreview"@,
        "status"@ != "resultPreview"@,
        "status"@ != "error"@,
        "status"@ != "startedAt"@,
        "status"@ != "completedAt"@,
        "status"@ != "durationMs"@,
        "status"@ != "round"@,
        "status"@ != "sensitive"@,
        "status"@ != "artifacts"@,
        "status"@ != "traceId"@,
        "status"@ != "spanId"@,
        "status"@ != "structuredContent"@,
        "status"@ != "sensitivity"@,
        "status"@ != "prompt"@,
        "argumentsPreview"@ != "resultPreview"@,
        "argumentsPreview"@ != "error"@,
        "argumentsPreview"@ != "startedAt"@,
        "argumentsPreview"@ != "completedAt"@,
        "argumentsPreview"@ != "durationMs"@,
        "argumentsPreview"@ != "round"@,
        "argumentsPreview"@ != "sensitive"@,
        "argumentsPreview"@ != "artifacts"@,
        "argumentsPreview"@ != "traceId"@,
        "argumentsPreview"@ != "spanId"@,
        "argumentsPreview"@ != "structuredContent"@,
        "argumentsPreview"@ != "sensitivity"@,
        "argumentsPreview"@ != "prompt"@,
        "resultPreview"@ != "error"@,
        "resultPreview"@ != "startedAt"@,
        "resultPreview"@ != "completedAt"@,
        "resultPreview"@ != "durationMs"@,
        "resultPreview"@ != "round"@,
        "resultPreview"@ != "sensitive"@,
        "resultPreview"@ != "artifacts"@,
        "resultPreview"@ != "traceId"@,
        "resultPreview"@ != "spanId"@,
        "resultPreview"@ != "structuredContent"@,
        "resultPreview"@ != "sensitivity"@,
        "resultPreview"@ != "prompt"@,
        "error"@ != "startedAt"@,
        "error"@ != "completedAt"@,
        "error"@ != "durationMs"@,
        "error"@ != "round"@,
        "error"@ != "sensitive"@,
        "error"@ != "artifacts"@,
        "error"@ != "traceId"@,
        "error"@ != "spanId"@,
        "error"@ != "structuredContent"@,
        "error"@ != "sensitivity"@,
        "error"@ != "prompt"@,
        "startedAt"@ != "completedAt"@,
        "startedAt"@ != "durationMs"@,
        "startedAt"@ != "round"@,
        "startedAt"@ != "sensitive"@,
        "startedAt"@ != "artifacts"@,
        "startedAt"@ != "traceId"@,
        "startedAt"@ != "spanId"@,
        "startedAt"@ != "structuredContent"@,
        "startedAt"@ != "sensitivity"@,
        "startedAt"@ != "prompt"@,
        "completedAt"@ != "durationMs"@,
        "completedAt"@ != "round"@,
        "completedAt"@ != "sensitive"@,
        "completedAt"@ != "artifacts"@,
        "completedAt"@ != "traceId"@,
        "completedAt"@ != "spanId"@,
        "completedAt"@ != "structuredContent"@,
        "completedAt"@ != "sensitivity"@,
        "completedAt"@ != "prompt"@,
        "durationMs"@ != "round"@,
        "durationMs"@ != "sensitive"@,
        "durationMs"@ != "artifacts"@,
        "durationMs"@ != "traceId"@,
        "durationMs"@ != "spanId"@,
        "durationMs"@ != "structuredContent"@,
        "durationMs"@ != "sensitivity"@,
        "durationMs"@ != "prompt"@,
        "round"@ != "sensitive"@,
        "round"@ != "artifacts"@,
        "round"@ != "traceId"@,
        "round"@ != "spanId"@,
        "round"@ != "structuredContent"@,
        "round"@ != "sensitivity"@,
        "round"@ != "prompt"@,
        "sensitive"@ != "artifacts"@,
        "sensitive"@ != "traceId"@,
        "sensitive"@ != "spanId"@,
        "sensitive"@ != "structuredContent"@,
        "sensitive"@ != "sensitivity"@,
        "sensitive"@ != "prompt"@,
        "artifacts"@ != "traceId"@,
        "artifacts"@ != "spanId"@,
        "artifacts"@ != "structuredContent"@,
        "artifacts"@ != "sensitivity"@,
        "artifacts"@ != "prompt"@,
        "traceId"@ != "spanId"@,
        "traceId"@ != "structuredContent"@,
        "traceId"@ != "sensitivity"@,
        "traceId"@ != "prompt"@,
        "spanId"@ != "structuredContent"@,
        "spanId"@ != "sensitivity"@,
        "spanId"@ != "prompt"@,
        "structuredContent"@ != "sensitivity"@,
        "structuredContent"@ != "prompt"@,
        "sensitivity"@ != "prompt"@,
{
    reveal_strlit("conversationId");
    reveal_strlit("runId");
    reveal_strlit("messageId");
    reveal_strlit("toolCallId");
    reveal_strlit("id");
    reveal_strlit("name");
    reveal_strlit("source");
    reveal_strlit("serverId");
    reveal_strlit("status");
    reveal_strlit("argumentsPreview");
    reveal_strlit("resultPreview");
    reveal_strlit("error");
    reveal_strlit("startedAt");
    reveal_strlit("completedAt");
    reveal_strlit("durationMs");
    reveal_strlit("round");
    reveal_strlit("sensitive");
    reveal_strlit("artifacts");
    reveal_strlit("traceId");
    reveal_strlit("spanId");
    reveal_strlit("structuredContent");
    reveal_strlit("sensitivity");
    reveal_strlit("prompt");
    assert("conversationId"@.len() == 14);
    assert("runId"@.len() == 5);
    assert("messageId"@.len() == 9);
    assert("toolCallId"@.len() == 10);
    assert("id"@.len() == 2);
    assert("name"@.len() == 4);
    assert("source"@.len() == 6);
    assert("serverId"@.len() == 8);
    assert("status"@.len() == 6);
    assert("argumentsPreview"@.len() == 16);
    assert("resultPreview"@.len() == 13);
    assert("error"@.len() == 5);
    assert("startedAt"@.len() == 9);
    assert("completedAt"@.len() == 11);
    assert("durationMs"@.len() == 10);
    assert("round"@.len() == 5);
    assert("sensitive"@.len() == 9);
    assert("artifacts"@.len() == 9);
    assert("traceId"@.len() == 7);
    assert("spanId"@.len() == 6);
    assert("structuredContent"@.len() == 17);
    assert("sensitivity"@.len() == 11);
    assert("prompt"@.len() == 6);
    assert("runId"@[0] == 'r');
    assert("error"@[0] == 'e');
    assert("runId"@[1] == 'u');
    assert("round"@[1] == 'o');
    assert("messageId"@[0] == 'm');
    assert("startedAt"@[0] == 's');
    assert("sensitive"@[0] == 's');
    assert("artifacts"@[0] == 'a');
    assert("toolCallId"@[0] == 't');
    assert("durationMs"@[0] == 'd');
    assert("source"@[1] == 'o');
    assert("status"@[1] == 't');
    assert("spanId"@[1] == 'p');
    assert("source"@[0] == 's');
    assert("prompt"@[0] == 'p');
    assert("status"@[0] == 's');
    assert("round"@[0] == 'r');
    assert("startedAt"@[1] == 't');
    assert("sensitive"@[1] == 'e');
    assert("completedAt"@[0] == 'c');
    assert("sensitivity"@[0] == 's');
    assert("spanId"@[0] == 's');
}

proof fn lemma_delta_keys()
    ensures
        "conversationId"@ != "runId"@,
        "conversationId"@ != "messageId"@,
        "conversationId"@ != "imageId"@,
        "conversationId"@ != "kind"@,
        "conversationId"@ != "delta"@,
        "conversationId"@ != "reasoningDelta"@,
        "conversationId"@ != "segmentId"@,
        "conversationId"@ != "segmentKind"@,
        "conversationId"@ != "phase"@,
        "conversationId"@ != "order"@,
        "conversationId"@ != "stepNumber"@,
        "conversationId"@ != "round"@,
        "conversationId"@ != "toolCallId"@,
        "conversationId"@ != "segment"@,
        "conversationId"@ != "done"@,
        "conversationId"@ != "reason"@,
        "conversationId"@ != "full"@,
        "runId"@ != "messageId"@,
        "runId"@ != "imageId"@,
        "runId"@ != "kind"@,
        "runId"@ != "delta"@,
        "runId"@ != "reasoningDelta"@,
        "runId"@ != "segmentId"@,
        "runId"@ != "segmentKind"@,
        "runId"@ != "phase"@,
        "runId"@ != "order"@,
        "runId"@ != "stepNumber"@,
        "runId"@ != "round"@,
        "runId"@ != "toolCallId"@,
        "runId"@ != "segment"@,
        "runId"@ != "done"@,
        "runId"@ != "reason"@,
        "runId"@ != "full"@,
        "messageId"@ != "imageId"@,
        "messageId"@ != "kind"@,
        "messageId"@ != "delta"@,
        "messageId"@ != "reasoningDelta"@,
        "messageId"@ != "segmentId"@,
        "messageId"@ != "segmentKind"@,
        "messageId"@ != "phase"@,
        "messageId"@ != "order"@,
        "messageId"@ != "stepNumber"@,
        "messageId"@ != "round"@,
        "messageId"@ != "toolCallId"@,
        "messageId"@ != "segment"@,
        "messageId"@ != "done"@,
        "messageId"@ != "reason"@,
        "messageId"@ != "full"@,
        "imageId"@ != "kind"@,
        "imageId"@ != "delta"@,
        "imageId"@ != "reasoningDelta"@,
        "imageId"@ != "segmentId"@,
        "imageId"@ != "segmentKind"@,
        "imageId"@ != "phase"@,
        "imageId"@ != "order"@,
        "imageId"@ != "stepNumber"@,
        "imageId"@ != "round"@,
        "imageId"@ != "toolCallId"@,
        "imageId"@ != "segment"@,
        "imageId"@ != "done"@,
        "imageId"@ != "reason"@,
        "imageId"@ != "full"@,
        "kind"@ != "delta"@,
        "kind"@ != "reasoningDelta"@,
        "kind"@ != "segmentId"@,
        "kind"@ != "segmentKind"@,
        "kind"@ != "phase"@,
        "kind"@ != "order"@,
        "kind"@ != "stepNumber"@,
        "kind"@ != "round"@,
        "kind"@ != "toolCallId"@,
        "kind"@ != "segment"@,
        "kind"@ != "done"@,
        "kind"@ != "reason"@,
        "kind"@ != "full"@,
        "delta"@ != "reasoningDelta"@,
        "delta"@ != "segmentId"@,
        "delta"@ != "segmentKind"@,
        "delta"@ != "phase"@,
        "delta"@ != "order"@,
        "delta"@ != "stepNumber"@,
        "delta"@ != "round"@,
        "delta"@ != "toolCallId"@,
        "delta"@ != "segment"@,
        "delta"@ != "done"@,
        "delta"@ != "reason"@,
        "delta"@ != "full"@,
        "reasoningDelta"@ != "segmentId"@,
        "reasoningDelta"@ != "segmentKind"@,
        "reasoningDelta"@ != "phase"@,
        "reasoningDelta"@ != "order"@,
        "reasoningDelta"@ != "stepNumber"@,
        "reasoningDelta"@ != "round"@,
        "reasoningDelta"@ != "toolCallId"@,
        "reasoningDelta"@ != "segment"@,
        "reasoningDelta"@ != "done"@,
        "reasoningDelta"@ != "reason"@,
        "reasoningDelta"@ != "full"@,
        "segmentId"@ != "segmentKind"@,
        "segmentId"@ != "phase"@,
        "segmentId"@ != "order"@,
        "segmentId"@ != "stepNumber"@,
        "segmentId"@ != "round"@,
        "segmentId"@ != "toolCallId"@,
        "segmentId"@ != "segment"@,
        "segmentId"@ != "done"@,
        "segmentId"@ != "reason"@,
        "segmentId"@ != "full"@,
        "segmentKind"@ != "phase"@,
        "segmentKind"@ != "order"@,
        "segmentKind"@ != "stepNumber"@,
        "segmentKind"@ != "round"@,
        "segmentKind"@ != "toolCallId"@,
        "segmentKind"@ != "segment"@,
        "segmentKind"@ != "done"@,
        "segmentKind"@ != "reason"@,
        "segmentKind"@ != "full"@,
        "phase"@ != "order"@,
        "phase"@ != "stepNumber"@,
        "phase"@ != "round"@,
        "phase"@ != "toolCallId"@,
        "phase"@ != "segment"@,
        "phase"@ != "done"@,
        "phase"@ != "reason"@,
        "phase"@ != "full"@,
        "order"@ != "stepNumber"@,
        "order"@ != "round"@,
        "order"@ != "toolCallId"@,
        "order"@ != "segment"@,
        "order"@ != "done"@,
        "order"@ != "reason"@,
        "order"@ != "full"@,
        "stepNumber"@ != "round"@,
        "stepNumber"@ != "toolCallId"@,
        "stepNumber"@ != "segment"@,
        "stepNumber"@ != "done"@,
        "stepNumber"@ != "reason"@,
        "stepNumber"@ != "full"@,
        "round"@ != "toolCallId"@,
        "round"@ != "segment"@,
        "round"@ != "done"@,
        "round"@ != "reason"@,
        "round"@ != "full"@,
        "toolCallId"@ != "segment"@,
        "toolCallId"@ != "done"@,
        "toolCallId"@ != "reason"@,
        "toolCallId"@ != "full"@,
        "segment"@ != "done"@,
        "segment"@ != "reason"@,
        "segment"@ != "full"@,
        "done"@ != "reason"@,
        "done"@ != "full"@,
        "reason"@ != "full"@,
{
    reveal_strlit("conversationId");
    reveal_strlit("runId");
    reveal_strlit("messageId");
    reveal_strlit("imageId");
    reveal_strlit("kind");
    reveal_strlit("delta");
    reveal_strlit("reasoningDelta");
    reveal_strlit("segmentId");
    reveal_strlit("segmentKind");
    reveal_strlit("phase");
    reveal_strlit("order");
    reveal_strlit("stepNumber");
    reveal_strlit("round");
    reveal_strlit("toolCallId");
    reveal_strlit("segment");
    reveal_strlit("done");
    reveal_strlit("reason");
    reveal_strlit("full");
    assert("conversationId"@.len() == 14);
    assert("runId"@.len() == 5);
    assert("messageId"@.len() == 9);
    assert("imageId"@.len() == 7);
    assert("kind"@.len() == 4);
    assert("delta"@.len() == 5);
    assert("conversationId"@[0] == 'c');
    assert("reasoningDelta"@[0] == 'r');
    assert("segmentId"@.len() == 9);
    assert("segmentKind"@.len() == 11);
    assert("phase"@.len() == 5);
    assert("order"@.len() == 5);
    assert("stepNumber"@.len() == 10);
    assert("round"@.len() == 5);
    assert("toolCallId"@.len() == 10);
    assert("segment"@.len() == 7);
    assert("done"@.len() == 4);
    assert("reason"@.len() == 6);
    assert("full"@.len() == 4);
    assert("runId"@[0] == 'r');
    assert("delta"@[0] == 'd');
    assert("reasoningDelta"@.len() == 14);
    assert("phase"@[0] == 'p');
    assert("order"@[0] == 'o');
    assert("runId"@[1] == 'u');
    assert("round"@[1] == 'o');
    assert("messageId"@[0] == 'm');
    assert("segmentId"@[0] == 's');
    assert("imageId"@[0] == 'i');
    assert("segment"@[0] == 's');
    assert("kind"@[0] == 'k');
    assert("done"@[0] == 'd');
    assert("full"@[0] == 'f');
    assert("round"@[0] == 'r');
    assert("stepNumber"@[0] == 's');
    assert("toolCallId"@[0] == 't');
}

/// A plan that is named is approved where it stands in an answer and can be carried out:
/// then it is the plan of the conversation too. Without a name the plan of the
/// conversation is approved, and the messages stay.
pub proof fn law_plans_are_approved(
    c: ConversationView,
    message_id: Option<Seq<char>>,
    now: i64,
    i: int,
)
    requires
        0 <= i < c.messages.len(),
        filled(message_id) is Some ==> c.messages[i].id == filled(message_id)->0
            && c.messages[i].role == "assistant"@ && forall|k: int|
            0 <= k < i ==> !((#[trigger] c.messages[k]).id == filled(message_id)->0
                && c.messages[k].role == "assistant"@),
    ensures
        ({
            let r = approving(c, message_id, now);
            &&& filled(message_id) is None ==> r is Ok && r->Ok_0.messages == c.messages
                && r->Ok_0.agent_plan_state == approved(c.agent_plan_state, now)
            &&& filled(message_id) is Some ==> (r is Ok <==> c.messages[i].agent_plan is Some
                && executable_plan(c.messages[i].agent_plan->0) is Some)
            &&& filled(message_id) is Some && r is Ok ==> r->Ok_0.agent_plan_state == approved(
                c.messages[i].agent_plan->0,
                now,
            ) && r->Ok_0.messages[i].agent_plan == Some(r->Ok_0.agent_plan_state)
                && r->Ok_0.messages[i].content == c.messages[i].content
            &&& r is Ok ==> r->Ok_0.title == c.title && r->Ok_0.group_selections
                == c.group_selections
        }),
{
    if let Some(id) = filled(message_id) {
        law_answers_are_found_by_id(c.messages, id, 0, i);
    }
}

/// The summary of a call that is to be approved ends with the beginning of its arguments;
/// for a command it begins with the command.
pub proof fn law_summaries_show_the_arguments(
    name: Seq<char>,
    raw: Seq<char>,
    arguments: Option<JsonView>,
    command: Seq<char>,
)
    ensures
        crate::text::has_suffix(
            approval_summary(name, raw, arguments),
            first_chars(raw, 800),
        ),
        name == "bash"@ && arguments is Some && (arguments->0).field_text("command"@) == Some(
            command,
        ) && !is_blank_text(command) ==> crate::text::has_prefix(
            approval_summary(name, raw, arguments),
            "Command: "@ + trimmed(command),
        ),
        (name == "write"@ || name == "edit"@ || name == "read"@) && arguments is Some && (
        arguments->0).field_text("path"@) == Some(command) && !is_blank_text(command)
            ==> crate::text::has_prefix(
            approval_summary(name, raw, arguments),
            "Path: "@ + trimmed(command),
        ),
{
    let s = approval_summary(name, raw, arguments);
    let shown = first_chars(raw, 800);
    assert(s.subrange(s.len() - shown.len(), s.len() as int) =~= shown);
    lemma_tool_names();
    let ls = summary_lines(name, arguments);
    if arguments is Some && !is_blank_text(command) && ((name == "bash"@ && (
    arguments->0).field_text("command"@) == Some(command)) || ((name == "write"@ || name
        == "edit"@ || name == "read"@) && (arguments->0).field_text("path"@) == Some(command))) {
        let head = if name == "bash"@ {
            "Command: "@ + trimmed(command)
        } else {
            "Path: "@ + trimmed(command)
        };
        assert(ls.len() > 0);
        assert(ls[0] == head);
        lemma_joined_begins(ls, "\n"@);
        let j = joined(ls, "\n"@);
        assert(s.subrange(0, head.len() as int) =~= j.subrange(0, head.len() as int));
    }
}

proof fn lemma_tool_names()
    ensures
        "bash"@ != "write"@,
        "bash"@ != "edit"@,
        "bash"@ != "read"@,
        "write"@ != "edit"@,
        "write"@ != "read"@,
        "edit"@ != "read"@,
{
    reveal_strlit("bash");
    reveal_strlit("write");
    reveal_strlit("edit");
    reveal_strlit("read");
    assert("bash"@.len() == 4);
    assert("write"@.len() == 5);
    assert("bash"@[0] == 'b');
    assert("edit"@[0] == 'e');
    assert("read"@[0] == 'r');
    assert("edit"@.len() == 4);
    assert("read"@.len() == 4);
}

proof fn lemma_joined_begins(parts: Seq<Seq<char>>, sep: Seq<char>)
    requires
        parts.len() > 0,
    ensures
        parts[0].len() <= joined(parts, sep).len(),
        joined(parts, sep).subrange(0, parts[0].len() as int) == parts[0],
    decreases parts.len(),
{
    if parts.len() > 1 {
        lemma_joined_begins(parts.drop_last(), sep);
        assert(parts.drop_last()[0] == parts[0]);
        let j = joined(parts.drop_last(), sep);
        let n = parts[0].len() as int;
        assert(joined(parts, sep).subrange(0, n) =~= j.subrange(0, n));
    } else {
        assert(parts[0].subrange(0, parts[0].len() as int) =~= parts[0]);
    }
}

/// An event on a call says which conversation, run and message it is about, and all that
/// the record of the call holds.
pub proof fn law_tool_events_say_all(
    conversation_id: Seq<char>,
    run_id: Seq<char>,
    message_id: Seq<char>,
    record: ToolRecordView,
    status: Seq<char>,
    artifacts: JsonView,
)
    ensures
        ({
            let e = tool_event(conversation_id, run_id, message_id, record, status, artifacts);
            &&& e.field_text("conversationId"@) == Some(conversation_id)
            &&& e.field_text("runId"@) == Some(run_id)
            &&& e.field_text("messageId"@) == Some(message_id)
            &&& e.field_text("toolCallId"@) == Some(record.id)
            &&& e.field_text("id"@) == Some(record.id)
            &&& e.field_text("name"@) == Some(record.name)
            &&& e.field_text("source"@) == Some(record.source)
            &&& e.field_text("serverId"@) == record.server_id
            &&& e.field_text("status"@) == Some(status)
            &&& e.field_text("argumentsPreview"@) == Some(first_chars(record.arguments, 800))
            &&& e.field_text("resultPreview"@) == record.result_preview
            &&& e.field_text("error"@) == record.error
            &&& e.field_unsigned("durationMs"@) == record.duration_ms
            &&& e.field_unsigned("round"@) == Some(record.round as u64)
            &&& e.field_truth("sensitive"@) == Some(record.sensitive)
            &&& e.field("artifacts"@) == Some(artifacts)
            &&& e.field_text("traceId"@) == record.trace_id
            &&& e.field_text("spanId"@) == record.span_id
            &&& record.started_at is Some ==> e.field("startedAt"@) == Some(
                integer_json(record.started_at->0 as int),
            )
            &&& record.completed_at is Some ==> e.field("completedAt"@) == Some(
                integer_json(record.completed_at->0 as int),
            )
            &&& record.structured_content is Some ==> e.field("structuredContent"@)
                == record.structured_content
        }),
{
    lemma_event_keys();
}

/// A question for approval, and a prompt of a tool, say which call they are about.
pub proof fn law_prompts_say_their_call(
    conversation_id: Seq<char>,
    run_id: Seq<char>,
    message_id: Seq<char>,
    record: ToolRecordView,
    prompt: JsonView,
    structured: JsonView,
)
    ensures
        ({
            let e = confirm_event(conversation_id, run_id, message_id, record);
            let p = prompt_event(conversation_id, run_id, message_id, record, prompt, structured);
            &&& e.field_text("conversationId"@) == Some(conversation_id)
            &&& e.field_text("runId"@) == Some(run_id)
            &&& e.field_text("messageId"@) == Some(message_id)
            &&& e.field_text("toolCallId"@) == Some(record.id)
            &&& e.field_text("name"@) == Some(record.name)
            &&& e.field_text("source"@) == Some(record.source)
            &&& e.field_text("serverId"@) == record.server_id
            &&& e.field_text("argumentsPreview"@) == Some(
                approval_summary(record.name, record.arguments, arguments_json(record.arguments)),
            )
            &&& p.field_text("conversationId"@) == Some(conversation_id)
            &&& p.field_text("runId"@) == Some(run_id)
            &&& p.field_text("messageId"@) == Some(message_id)
            &&& p.field_text("toolCallId"@) == Some(record.id)
            &&& p.field_text("name"@) == Some(record.name)
            &&& p.field("prompt"@) == Some(prompt)
            &&& p.field("structuredContent"@) == Some(structured)
        }),
{
    lemma_event_keys();
}

/// An event on a piece of the answer carries the piece, of the text and of the reasoning,
/// and the segment that it belongs to; the event on the end carries the whole text.
pub proof fn law_stream_events_carry_the_text(
    conversation_id: Seq<char>,
    run_id: Seq<char>,
    message_id: Seq<char>,
    delta: Seq<char>,
    reasoning_delta: Option<Seq<char>>,
    segment: Option<&SegmentInfo>,
    reason: Seq<char>,
    full: Seq<char>,
)
    ensures
        ({
            let e = delta_event(
                conversation_id,
                run_id,
                message_id,
                delta,
                reasoning_delta,
                segment,
            );
            let d = done_event(conversation_id, run_id, message_id, reason, full);
            &&& e.field_text("conversationId"@) == Some(conversation_id)
            &&& e.field_text("runId"@) == Some(run_id)
            &&& e.field_text("messageId"@) == Some(message_id)
            &&& e.field_text("delta"@) == Some(delta)
            &&& e.field_text("reasoningDelta"@) == reasoning_delta
            &&& segment is Some ==> e.field_text("segmentId"@) == Some((segment->0).id@)
                && e.field_text("segmentKind"@) == Some((segment->0).kind@) && e.field_text(
                "phase"@,
            ) == Some((segment->0).phase@) && e.field_unsigned("order"@) == Some(
                (segment->0).order,
            ) && e.field("segment"@) == Some((segment->0).json@) && e.field_unsigned("stepNumber"@)
                == (segment->0).step_number && e.field_unsigned("round"@) == (segment->0).round
                && e.field_text("toolCallId"@) == opt_text((segment->0).tool_call_id)
            &&& segment is None ==> e.field("segment"@) == Some(JsonView::Null)
            &&& d.field_text("conversationId"@) == Some(conversation_id)
            &&& d.field_text("runId"@) == Some(run_id)
            &&& d.field_text("messageId"@) == Some(message_id)
            &&& d.field_truth("done"@) == Some(true)
            &&& d.field_text("reason"@) == Some(reason)
            &&& d.field_text("full"@) == Some(full)
        }),
{
    lemma_delta_keys();
}

/// The jobs that run, as they come.
pub open spec fn still_running(jobs: Seq<BackgroundJob>) -> Seq<BackgroundJob>
    decreases jobs.len(),
{
    if jobs.len() == 0 {
        Seq::empty()
    } else if jobs.last().running {
        still_running(jobs.drop_last()).push(jobs.last())
    } else {
        still_running(jobs.drop_last())
    }
}

proof fn lemma_job_placed(jobs: Seq<BackgroundJob>, x: BackgroundJob)
    requires
        forall|a: int, b: int| 0 <= a <= b < jobs.len() ==> jobs[a].started_at <= jobs[b].started_at,
    ensures
        job_placed(jobs, x).len() == jobs.len() + 1,
        job_placed(jobs, x).to_multiset() == jobs.to_multiset().insert(x),
        forall|a: int, b: int|
            0 <= a <= b < job_placed(jobs, x).len() ==> job_placed(jobs, x)[a].started_at
                <= job_placed(jobs, x)[b].started_at,
    decreases jobs.len(),
{
    broadcast use vstd::seq_lib::group_to_multiset_ensures;

    if jobs.len() == 0 || jobs.last().started_at <= x.started_at {
    } else {
        let start = jobs.drop_last();
        lemma_job_placed(start, x);
        let p = job_placed(start, x);
        assert(start.push(jobs.last()) =~= jobs);
        assert(job_placed(jobs, x).to_multiset() =~= jobs.to_multiset().insert(x));
        assert forall|a: int| 0 <= a < p.len() implies p[a].started_at
            <= jobs.last().started_at by {
            assert(p.to_multiset().contains(p[a]));
            if p[a] != x {
                assert(start.to_multiset().contains(p[a]));
                assert(start.contains(p[a]));
                let k = choose|k: int| 0 <= k < start.len() && start[k] == p[a];
                assert(jobs[k] == start[k]);
            }
        }
    }
}

/// The jobs that are listed are those that run, each once, the oldest first.
pub proof fn law_running_jobs_are_listed(jobs: Seq<BackgroundJob>)
    ensures
        running_jobs(jobs).to_multiset() == still_running(jobs).to_multiset(),
        running_jobs(jobs).len() == still_running(jobs).len(),
        forall|a: int, b: int|
            0 <= a <= b < running_jobs(jobs).len() ==> running_jobs(jobs)[a].started_at
                <= running_jobs(jobs)[b].started_at,
    decreases jobs.len(),
{
    broadcast use vstd::seq_lib::group_to_multiset_ensures;

    if jobs.len() > 0 {
        law_running_jobs_are_listed(jobs.drop_last());
        if jobs.last().running {
            lemma_job_placed(running_jobs(jobs.drop_last()), jobs.last());
        }
    }
}

proof fn lemma_job_keys()
    ensures
        "jobId"@ != "command"@,
        "jobId"@ != "cwd"@,
        "jobId"@ != "pid"@,
        "jobId"@ != "elapsedSecs"@,
        "command"@ != "cwd"@,
        "command"@ != "pid"@,
        "command"@ != "elapsedSecs"@,
        "cwd"@ != "pid"@,
        "cwd"@ != "elapsedSecs"@,
        "pid"@ != "elapsedSecs"@,
{
    reveal_strlit("jobId");
    reveal_strlit("command");
    reveal_strlit("cwd");
    reveal_strlit("pid");
    reveal_strlit("elapsedSecs");
    assert("jobId"@.len() == 5);
    assert("command"@.len() == 7);
    assert("cwd"@.len() == 3);
    assert("pid"@.len() == 3);
    assert("elapsedSecs"@.len() == 11);
    assert("cwd"@[0] == 'c');
    assert("pid"@[0] == 'p');
}

/// A job is listed with what it is.
pub proof fn law_jobs_are_listed_whole(j: BackgroundJob)
    ensures
        job_json(j).field_text("jobId"@) == Some(j.job_id@),
        job_json(j).field_text("command"@) == Some(j.command@),
        job_json(j).field_text("cwd"@) == Some(j.cwd@),
        job_json(j).field_unsigned("pid"@) == Some(j.pid),
        job_json(j).field_unsigned("elapsedSecs"@) == Some(j.elapsed_secs),
{
    lemma_job_keys();
}

/// A mode is set where it is known, with the time; the rest of the conversation stays.
pub proof fn law_modes_are_set(c: ConversationView, mode: Seq<char>, now: i64)
    ensures
        in_mode(c, mode, now) is Ok <==> mode_of(mode) is Ok,
        in_mode(c, mode, now) is Ok ==> in_mode(c, mode, now)->Ok_0.agent_plan_state == mode_set(
            c.agent_plan_state,
            mode_of(mode)->Ok_0,
            now,
        ) && in_mode(c, mode, now)->Ok_0.messages == c.messages && in_mode(
            c,
            mode,
            now,
        )->Ok_0.updated_at == now && in_mode(c, mode, now)->Ok_0.title == c.title,
{
}

/// Carrying out a plan approves it, and sets the time; where it cannot be approved there
/// is an error.
pub proof fn law_carrying_out_approves(
    c: ConversationView,
    message_id: Option<Seq<char>>,
    approved_at: i64,
    now: i64,
)
    ensures
        ({
            let r = executing(c, message_id, approved_at, now);
            let a = approving(c, message_id, approved_at);
            &&& r is Ok <==> a is Ok
            &&& r is Ok ==> r->Ok_0.updated_at == now && r->Ok_0.messages == a->Ok_0.messages
                && r->Ok_0.agent_plan_state == a->Ok_0.agent_plan_state && r->Ok_0.title == c.title
            &&& r is Err ==> r == a
        }),
{
}

/// The summary of a command says where it runs, and that of an edit what it replaces.
pub proof fn law_summaries_say_more(arguments: JsonView, t: Seq<char>)
    requires
        !is_blank_text(t),
    ensures
        arguments.field_text("cwd"@) == Some(t) ==> summary_lines("bash"@, Some(arguments)).contains(
            "Working directory: "@ + trimmed(t),
        ),
        arguments.field_text("old_string"@) == Some(t) && arguments.field("edits"@) is None
            ==> summary_lines("edit"@, Some(arguments)).contains(
            "Replace: "@ + first_chars(trimmed(t), 180),
        ),
        summary_lines("read"@, Some(arguments)).len() <= 1,
{
    lemma_tool_names();
    let b = summary_lines("bash"@, Some(arguments));
    if arguments.field_text("cwd"@) == Some(t) {
        assert(b.last() == "Working directory: "@ + trimmed(t));
    }
    let e = summary_lines("edit"@, Some(arguments));
    if arguments.field_text("old_string"@) == Some(t) && arguments.field("edits"@) is None {
        assert(e.last() == "Replace: "@ + first_chars(trimmed(t), 180));
    }
}

} // verus!
