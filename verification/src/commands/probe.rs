//! Questions that are asked without a user: what they are asked in, and what is
//! reported of the answer.

use vstd::prelude::*;

use crate::clock::now_timestamp;
use crate::commands::mutations::conversation_result;
use crate::commands::mutations::{fill, filled};
use crate::commands::reply::{message_name, unit_result};
use crate::commands::reply::new_message_id;
use crate::conversation::{
    chat_message_views, plain_message, tool_record_views, ChatMessageView, ConversationView,
    ToolRecordView,
};
use crate::conversation::{ChatMessage, Conversation, ToolCallRecord, ToolCallStatus};
use crate::json::{integer_json, items_view};
use crate::json::{Json, JsonView, Object};
use crate::model::messages::str_json;
use crate::plan::{mode_of, mode_set};
use crate::plan::{mode_from_str, with_mode_at};
use crate::text::{concat2, copy_opt, copy_str, is_blank, list_contains, str_eq, truncate_chars};
use crate::text::{first_chars, is_blank_text, opt_text, strings};

verus! {

/// The identifier of the project that holds the conversations.
pub const PROBE_PROJECT_ID: &'static str = "proj_kivio_probe";

/// The name of the project.
pub const PROBE_PROJECT_NAME: &'static str = "Chat Probe";

/// What is said of the project.
pub const PROBE_PROJECT_DESCRIPTION: &'static str = "无头测试通道（debug）的会话都在这里，可点开观察";

/// What is done about the project before a question is asked.
#[derive(Debug)]
pub enum ProbeProject {
    /// The question belongs to no project.
    Skip,
    /// The project is there and gets another root.
    Move { root: String },
    /// The project is made.
    Create { root: String },
}

/// What is done about the project: there is one only for a working directory, and
/// it is made once.
pub fn probe_project(cwd: Option<&str>, known_projects: &Vec<String>) -> (r: ProbeProject)
    ensures
        match cwd {
            Some(root) => if is_blank_text(root@) {
                r is Skip
            } else if strings(known_projects@).contains(PROBE_PROJECT_ID@) {
                r matches ProbeProject::Move { root: x } && x@ == root@
            } else {
                r matches ProbeProject::Create { root: x } && x@ == root@
            },
            None => r is Skip,
        },
{
    match cwd {
        Some(root) => if is_blank(root) {
            ProbeProject::Skip
        } else if list_contains(known_projects, PROBE_PROJECT_ID) {
            ProbeProject::Move { root: copy_str(root) }
        } else {
            ProbeProject::Create { root: copy_str(root) }
        },
        None => ProbeProject::Skip,
    }
}

/// The title of the conversation of a question.
pub open spec fn probe_title(prompt: Seq<char>) -> Seq<char> {
    "🔬 "@ + first_chars(prompt, 60)
}

/// The conversation that a question is asked in.
pub open spec fn probing(
    c: ConversationView,
    prompt: Seq<char>,
    mode: Option<Seq<char>>,
    message_id: Seq<char>,
    now: i64,
) -> Result<ConversationView, Seq<char>> {
    let asked = ConversationView {
        title: probe_title(prompt),
        messages: c.messages.push(plain_message(message_id, "user"@, prompt, now)),
        updated_at: now,
        ..c
    };
    match filled(mode) {
        None => Ok(asked),
        Some(name) => match mode_of(name) {
            Err(e) => Err(e),
            Ok(m) => Ok(
                ConversationView {
                    agent_plan_state: mode_set(c.agent_plan_state, m, now),
                    ..asked
                },
            ),
        },
    }
}

/// The conversation that a question is asked in: named after it, in the mode that is
/// asked for, with the question at its end.
pub fn prepare_probe_with(
    conversation: Conversation,
    prompt: &str,
    mode: &Option<String>,
    message_id: String,
    now: i64,
) -> (r: Result<Conversation, String>)
    ensures
        conversation_result(r) == probing(
            conversation@,
            prompt@,
            opt_text(*mode),
            message_id@,
            now,
        ),
{
    let mut c = conversation;
    let head = truncate_chars(prompt, 60);
    c.title = concat2("🔬 ", head.as_str());
    if let Some(name) = fill(mode) {
        match mode_from_str(name.as_str()) {
            Err(e) => {
                return Err(e);
            },
            Ok(m) => {
                c.agent_plan_state = with_mode_at(&c.agent_plan_state, m, now);
            },
        }
    }
    let message = ChatMessage::plain(message_id, "user", prompt, now);
    let ghost before = c.messages@;
    let ghost q = message@;
    c.messages.push(message);
    assert(chat_message_views(c.messages@) =~= chat_message_views(before).push(q));
    c.updated_at = now;
    Ok(c)
}

/// The conversation that a question is asked in, now.
pub fn prepare_probe(conversation: Conversation, prompt: &str, mode: &Option<String>) -> (r: Result<
    Conversation,
    String,
>)
    ensures
        exists|unique: Seq<char>, now: i64|
            conversation_result(r) == #[trigger] probing(
                conversation@,
                prompt@,
                opt_text(*mode),
                message_name(unique),
                now,
            ),
{
    let id = new_message_id();
    let ghost unique = choose|unique: Seq<char>| id@ == #[trigger] message_name(unique);
    let now = now_timestamp();
    let r = prepare_probe_with(conversation, prompt, mode, id, now);
    assert(conversation_result(r) == probing(
        conversation@,
        prompt@,
        opt_text(*mode),
        message_name(unique),
        now,
    ));
    r
}

/// The place of the last answer.
pub open spec fn last_answer(messages: Seq<ChatMessageView>) -> Option<ChatMessageView>
    decreases messages.len(),
{
    if messages.len() == 0 {
        None
    } else if messages.last().role == "assistant"@ {
        Some(messages.last())
    } else {
        last_answer(messages.drop_last())
    }
}

/// What came of a question: the error that the answer ended with, else the last
/// answer.
pub open spec fn probe_outcome(messages: Seq<ChatMessageView>, outcome: Result<(), Seq<char>>) -> Result<
    ChatMessageView,
    Seq<char>,
> {
    match outcome {
        Err(e) => Err(e),
        Ok(_) => match last_answer(messages) {
            Some(m) => Ok(m),
            None => Err("probe: no assistant message produced"@),
        },
    }
}

/// A message or an error, as values.
pub open spec fn message_result(r: Result<ChatMessage, String>) -> Result<ChatMessageView, Seq<char>> {
    match r {
        Ok(m) => Ok(m@),
        Err(e) => Err(e@),
    }
}

/// What came of a question: the error that the answer ended with, else the last
/// answer.
pub fn run_chat_probe(conversation: &Conversation, outcome: Result<(), String>) -> (r: Result<
    ChatMessage,
    String,
>)
    ensures
        message_result(r) == probe_outcome(
            conversation@.messages,
            unit_result(outcome),
        ),
{
    if let Err(e) = outcome {
        return Err(e);
    }
    let messages = &conversation.messages;
    let ghost all = chat_message_views(messages@);
    let mut i: usize = messages.len();
    assert(all.take(all.len() as int) =~= all);
    while i > 0
        invariant
            i <= messages@.len(),
            all == chat_message_views(messages@),
            messages@ == conversation.messages@,
            outcome is Ok,
            last_answer(all) == last_answer(all.take(i as int)),
        decreases i,
    {
        assert(all.take(i as int).last() == messages@[i - 1]@);
        assert(all.take(i as int).drop_last() =~= all.take(i - 1));
        if str_eq(messages[i - 1].role.as_str(), "assistant") {
            return Ok(messages[i - 1].copy());
        }
        i -= 1;
    }
    Err(copy_str("probe: no assistant message produced"))
}

// ---------------------------------------------------------------------
// The report
// ---------------------------------------------------------------------

/// How a question ended.
#[derive(Debug)]
pub enum ProbeEnd {
    Answered(ChatMessage),
    Failed(String),
    TimedOut,
}

/// A call of a tool, as it is reported.
#[derive(Debug)]
pub struct ProbeToolCall {
    pub name: String,
    pub arguments: String,
    pub status: ToolCallStatus,
}

/// What is reported of a question.
#[derive(Debug)]
pub struct ProbeResult {
    pub id: Option<String>,
    pub conversation_id: Option<String>,
    pub answer: String,
    pub tool_calls: Vec<ProbeToolCall>,
    pub stream_outcome: Option<String>,
    pub error: Option<String>,
    pub finished_at: i64,
}

/// The calls of a report are those of the answer.
pub open spec fn reports(calls: Seq<ProbeToolCall>, records: Seq<ToolRecordView>) -> bool {
    &&& calls.len() == records.len()
    &&& forall|i: int|
        0 <= i < calls.len() ==> (#[trigger] calls[i]).name@ == records[i].name
            && calls[i].arguments@ == records[i].arguments && calls[i].status == records[i].status
}

fn report_calls(records: &Vec<ToolCallRecord>) -> (r: Vec<ProbeToolCall>)
    ensures
        reports(r@, tool_record_views(records@)),
{
    let mut out: Vec<ProbeToolCall> = Vec::new();
    let ghost all = tool_record_views(records@);
    let mut i: usize = 0;
    while i < records.len()
        invariant
            i <= records@.len(),
            all == tool_record_views(records@),
            out@.len() == i,
            forall|j: int|
                0 <= j < i ==> (#[trigger] out@[j]).name@ == all[j].name && out@[j].arguments@
                    == all[j].arguments && out@[j].status == all[j].status,
        decreases records@.len() - i,
    {
        assert(all[i as int] == records@[i as int]@);
        out.push(
            ProbeToolCall {
                name: records[i].name.clone(),
                arguments: records[i].arguments.clone(),
                status: records[i].status,
            },
        );
        i += 1;
    }
    out
}

/// What is reported where time ran out.
pub const TIMED_OUT: &'static str = "probe generation timed out after 360s";

/// The report of a question that ended at `finished_at`.
pub fn probe_result(id: Option<String>, end: &ProbeEnd, finished_at: i64) -> (r: ProbeResult)
    ensures
        r.id == id,
        r.conversation_id is None,
        r.finished_at == finished_at,
        match *end {
            ProbeEnd::Answered(m) => r.answer@ == m@.content && reports(
                r.tool_calls@,
                m@.tool_calls,
            ) && opt_text(r.stream_outcome) == m@.stream_outcome && r.error is None,
            ProbeEnd::Failed(e) => r.answer@ == Seq::<char>::empty() && r.tool_calls@.len() == 0
                && r.stream_outcome is None && opt_text(r.error) == Some(e@),
            ProbeEnd::TimedOut => r.answer@ == Seq::<char>::empty() && r.tool_calls@.len() == 0
                && opt_text(r.stream_outcome) == Some("timeout"@) && opt_text(r.error) == Some(
                TIMED_OUT@,
            ),
        },
{
    match end {
        ProbeEnd::Answered(m) => ProbeResult {
            id,
            conversation_id: None,
            answer: m.content.clone(),
            tool_calls: report_calls(&m.tool_calls),
            stream_outcome: copy_opt(&m.stream_outcome),
            error: None,
            finished_at,
        },
        ProbeEnd::Failed(e) => ProbeResult {
            id,
            conversation_id: None,
            answer: String::new(),
            tool_calls: Vec::new(),
            stream_outcome: None,
            error: Some(e.clone()),
            finished_at,
        },
        ProbeEnd::TimedOut => ProbeResult {
            id,
            conversation_id: None,
            answer: String::new(),
            tool_calls: Vec::new(),
            stream_outcome: Some(copy_str("timeout")),
            error: Some(copy_str(TIMED_OUT)),
            finished_at,
        },
    }
}

/// The report of a request that cannot be read.
pub fn invalid_request(error: &str) -> (r: ProbeResult)
    ensures
        r.id is None,
        r.conversation_id is None,
        r.answer@ == Seq::<char>::empty(),
        r.tool_calls@.len() == 0,
        r.stream_outcome is None,
        opt_text(r.error) == Some("invalid request.json: "@ + error@),
        r.finished_at == 0,
{
    ProbeResult {
        id: None,
        conversation_id: None,
        answer: String::new(),
        tool_calls: Vec::new(),
        stream_outcome: None,
        error: Some(concat2("invalid request.json: ", error)),
        finished_at: 0,
    }
}

/// The fields, with one more where there is a text for it.
pub open spec fn with_text(
    fields: Map<Seq<char>, JsonView>,
    key: Seq<char>,
    text: Option<Seq<char>>,
) -> Map<Seq<char>, JsonView> {
    match text {
        Some(t) => fields.insert(key, str_json(t)),
        None => fields,
    }
}

fn set_text(o: &mut Object, key: &str, text: &Option<String>)
    ensures
        final(o)@ == with_text(old(o)@, key@, opt_text(*text)),
{
    if let Some(t) = text {
        o.set(key, Json::string(t.as_str()));
    }
}

/// A call as it is reported; `status` is the word for how it ended.
pub open spec fn call_json(c: ProbeToolCall, status: Seq<char>) -> JsonView {
    JsonView::Object(
        Map::empty().insert("name"@, str_json(c.name@)).insert(
            "arguments"@,
            str_json(c.arguments@),
        ).insert("status"@, str_json(status)),
    )
}

/// The report as it is written down: without the fields that hold nothing. The words
/// for how the calls ended are given.
pub open spec fn result_json(r: ProbeResult, words: Seq<String>) -> JsonView {
    let head = with_text(
        with_text(Map::empty(), "id"@, opt_text(r.id)),
        "conversationId"@,
        opt_text(r.conversation_id),
    ).insert("answer"@, str_json(r.answer@)).insert(
        "toolCalls"@,
        JsonView::Array(
            Seq::new(r.tool_calls@.len(), |i: int| call_json(r.tool_calls@[i], words[i]@)),
        ),
    );
    JsonView::Object(
        with_text(
            with_text(head, "streamOutcome"@, opt_text(r.stream_outcome)),
            "error"@,
            opt_text(r.error),
        ).insert("finishedAt"@, integer_json(r.finished_at as int)),
    )
}

impl ProbeResult {
    /// The report as it is written down, with a word for how each call ended.
    pub fn to_json(&self, words: &Vec<String>) -> (r: Json)
        requires
            words@.len() == self.tool_calls@.len(),
        ensures
            r@ == result_json(*self, words@),
    {
        let mut calls: Vec<Json> = Vec::new();
        let mut i: usize = 0;
        while i < self.tool_calls.len()
            invariant
                i <= self.tool_calls@.len(),
                words@.len() == self.tool_calls@.len(),
                calls@.len() == i,
                forall|j: int|
                    0 <= j < i ==> (#[trigger] calls@[j])@ == call_json(
                        self.tool_calls@[j],
                        words@[j]@,
                    ),
            decreases self.tool_calls@.len() - i,
        {
            let call = &self.tool_calls[i];
            let mut o = Object::new();
            o.set("name", Json::string(call.name.as_str()));
            o.set("arguments", Json::string(call.arguments.as_str()));
            o.set("status", Json::string(words[i].as_str()));
            calls.push(Json::Object(o));
            i += 1;
        }
        assert(items_view(calls@) =~= Seq::new(
            self.tool_calls@.len(),
            |i: int| call_json(self.tool_calls@[i], words@[i]@),
        ));
        let mut o = Object::new();
        set_text(&mut o, "id", &self.id);
        set_text(&mut o, "conversationId", &self.conversation_id);
        o.set("answer", Json::string(self.answer.as_str()));
        o.set("toolCalls", Json::Array(calls));
        set_text(&mut o, "streamOutcome", &self.stream_outcome);
        set_text(&mut o, "error", &self.error);
        o.set("finishedAt", Json::integer(self.finished_at));
        Json::Object(o)
    }
}

/// The answer of a probe is the last message of the assistant; without one, or where the
/// run failed, there is an error.
pub proof fn law_the_last_answer_counts(
    a: Seq<ChatMessageView>,
    m: ChatMessageView,
    b: Seq<ChatMessageView>,
    error: Seq<char>,
)
    requires
        m.role == "assistant"@,
        forall|i: int| 0 <= i < b.len() ==> (#[trigger] b[i]).role != "assistant"@,
    ensures
        last_answer(a.push(m) + b) == Some(m),
        last_answer(b) is None,
        probe_outcome(a.push(m) + b, Ok(())) == Ok::<ChatMessageView, Seq<char>>(m),
        probe_outcome(b, Ok(())) is Err,
        probe_outcome(a, Err(error)) == Err::<ChatMessageView, Seq<char>>(error),
    decreases b.len(),
{
    let s = a.push(m) + b;
    if b.len() == 0 {
        assert(s =~= a.push(m));
    } else {
        assert(b[b.len() - 1] == b.last());
        assert forall|i: int| 0 <= i < b.drop_last().len() implies (
        #[trigger] b.drop_last()[i]).role != "assistant"@ by {
            assert(b.drop_last()[i] == b[i]);
        }
        law_the_last_answer_counts(a, m, b.drop_last(), error);
        assert(s.drop_last() =~= a.push(m) + b.drop_last());
        assert(s.last() == b.last());
    }
}

/// A probe asks its prompt at the end of the conversation, in the mode that it names,
/// where it names one that is known.
pub proof fn law_probes_ask_their_prompt(
    c: ConversationView,
    prompt: Seq<char>,
    mode: Option<Seq<char>>,
    message_id: Seq<char>,
    now: i64,
)
    ensures
        ({
            let r = probing(c, prompt, mode, message_id, now);
            &&& r is Ok <==> filled(mode) is None || mode_of(filled(mode)->0) is Ok
            &&& r is Ok ==> r->Ok_0.messages.len() == c.messages.len() + 1
                && r->Ok_0.messages.drop_last() == c.messages && r->Ok_0.messages.last().content
                == prompt && r->Ok_0.messages.last().role == "user"@ && r->Ok_0.messages.last().id
                == message_id && r->Ok_0.updated_at == now
            &&& r is Ok && filled(mode) is None ==> r->Ok_0.agent_plan_state == c.agent_plan_state
            &&& r is Ok && filled(mode) is Some ==> r->Ok_0.agent_plan_state == mode_set(
                c.agent_plan_state,
                mode_of(filled(mode)->0)->Ok_0,
                now,
            )
        }),
{
    let r = probing(c, prompt, mode, message_id, now);
    if r is Ok {
        assert(r->Ok_0.messages.drop_last() =~= c.messages);
    }
}

proof fn lemma_result_keys()
    ensures
        "id"@ != "conversationId"@,
        "id"@ != "answer"@,
        "id"@ != "toolCalls"@,
        "id"@ != "streamOutcome"@,
        "id"@ != "error"@,
        "id"@ != "finishedAt"@,
        "conversationId"@ != "answer"@,
        "conversationId"@ != "toolCalls"@,
        "conversationId"@ != "streamOutcome"@,
        "conversationId"@ != "error"@,
        "conversationId"@ != "finishedAt"@,
        "answer"@ != "toolCalls"@,
        "answer"@ != "streamOutcome"@,
        "answer"@ != "error"@,
        "answer"@ != "finishedAt"@,
        "toolCalls"@ != "streamOutcome"@,
        "toolCalls"@ != "error"@,
        "toolCalls"@ != "finishedAt"@,
        "streamOutcome"@ != "error"@,
        "streamOutcome"@ != "finishedAt"@,
        "error"@ != "finishedAt"@,
{
    reveal_strlit("id");
    reveal_strlit("conversationId");
    reveal_strlit("answer");
    reveal_strlit("toolCalls");
    reveal_strlit("streamOutcome");
    reveal_strlit("error");
    reveal_strlit("finishedAt");
    assert("id"@.len() == 2);
    assert("conversationId"@.len() == 14);
    assert("answer"@.len() == 6);
    assert("toolCalls"@.len() == 9);
    assert("streamOutcome"@.len() == 13);
    assert("error"@.len() == 5);
    assert("finishedAt"@.len() == 10);
}

proof fn lemma_call_keys()
    ensures
        "name"@ != "arguments"@,
        "name"@ != "status"@,
        "arguments"@ != "status"@,
{
    reveal_strlit("name");
    reveal_strlit("arguments");
    reveal_strlit("status");
    assert("name"@.len() == 4);
    assert("arguments"@.len() == 9);
    assert("status"@.len() == 6);
}

/// The result of a probe says what came of it: the answer, the calls one by one and in
/// order, and the error where there is one.
pub proof fn law_probe_results_say_all(r: ProbeResult, words: Seq<String>)
    ensures
        ({
            let j = result_json(r, words);
            &&& j.field_text("id"@) == opt_text(r.id)
            &&& j.field_text("conversationId"@) == opt_text(r.conversation_id)
            &&& j.field_text("answer"@) == Some(r.answer@)
            &&& j.field_text("streamOutcome"@) == opt_text(r.stream_outcome)
            &&& j.field_text("error"@) == opt_text(r.error)
            &&& j.field("finishedAt"@) == Some(integer_json(r.finished_at as int))
            &&& j.field_items("toolCalls"@) is Some && (j.field_items("toolCalls"@)->0).len()
                == r.tool_calls@.len()
            &&& forall|i: int|
                0 <= i < r.tool_calls@.len() ==> (#[trigger] (j.field_items(
                    "toolCalls"@,
                )->0)[i]).field_text("name"@) == Some(r.tool_calls@[i].name@) && (j.field_items(
                    "toolCalls"@,
                )->0)[i].field_text("arguments"@) == Some(r.tool_calls@[i].arguments@) && (
                j.field_items("toolCalls"@)->0)[i].field_text("status"@) == Some(words[i]@)
        }),
{
    lemma_result_keys();
    lemma_call_keys();
}

} // verus!
