//! Sending a message.

use vstd::prelude::*;

use crate::clock::{new_uuid, now_timestamp};
use crate::commands::mutations::{fill, filled};
use crate::commands::reply::{
    arm_views, message_name, reply_arms, side_by_side, unit_result,
};
use crate::commands::reply::{fans_out, new_message_id, resolve_reply_arms};
use crate::conversation::{
    attachment_views, chat_message_views, plain_message, AttachmentView, ChatMessageView,
    ContextView, ConversationView, ModelRefView,
};
use crate::conversation::{Attachment, ChatMessage, Conversation, CHAT_REPLY_BUSY_ERROR};
use crate::json::{Json, JsonView, Object};
use crate::model::messages::str_json;
use crate::settings::ModelProvider;
use crate::text::{concat2, concat3, copy_opt, str_eq};
use crate::text::{opt_str, opt_text};

verus! {

// ---------------------------------------------------------------------
// The message
// ---------------------------------------------------------------------

/// The reply to a message for a conversation that is still being answered.
pub fn busy_response() -> (r: Json)
    ensures
        r@ == JsonView::Object(
            Map::empty().insert("success"@, JsonView::Bool(false)).insert(
                "error"@,
                str_json(CHAT_REPLY_BUSY_ERROR@),
            ),
        ),
{
    let mut o = Object::new();
    o.set("success", Json::Bool(false));
    o.set("error", Json::string(CHAT_REPLY_BUSY_ERROR));
    Json::Object(o)
}

/// A skill that the text of a message names, and the text that takes its place.
#[derive(Debug)]
pub struct SlashTrigger {
    pub skill_id: String,
    pub content: String,
}

/// The text and the skill of a message. A message to another program stays as it
/// is; else a skill that it names counts before the one that was chosen.
pub open spec fn sent(
    external: bool,
    content: Seq<char>,
    skill_id: Option<Seq<char>>,
    trigger: Option<SlashTrigger>,
) -> (Seq<char>, Option<Seq<char>>) {
    match trigger {
        Some(t) => if external {
            (content, skill_id)
        } else {
            (t.content@, Some(t.skill_id@))
        },
        None => (content, skill_id),
    }
}

/// The text and the skill of a message.
pub fn sent_content(
    conversation: &Conversation,
    content: String,
    skill_id: Option<String>,
    trigger: Option<SlashTrigger>,
) -> (r: (String, Option<String>))
    ensures
        (r.0@, opt_text(r.1)) == sent(
            conversation.agent_runtime.external,
            content@,
            opt_text(skill_id),
            trigger,
        ),
{
    if conversation.agent_runtime.is_external() {
        return (content, skill_id);
    }
    match trigger {
        Some(t) => (t.content, Some(t.skill_id)),
        None => (content, skill_id),
    }
}

/// The skill that an answer is bound to.
pub fn forced_skill(skill_id: &Option<String>) -> (r: Option<String>)
    ensures
        opt_text(r) == filled(opt_text(*skill_id)),
{
    fill(skill_id)
}

/// The question of the user.
pub open spec fn question(
    id: Seq<char>,
    content: Seq<char>,
    attachments: Seq<AttachmentView>,
    group_id: Option<Seq<char>>,
    now: i64,
) -> ChatMessageView {
    ChatMessageView { attachments, group_id, ..plain_message(id, "user"@, content, now) }
}

/// The conversation with the question put in.
pub open spec fn with_question(c: ConversationView, q: ChatMessageView) -> ConversationView {
    ConversationView { messages: c.messages.push(q), updated_at: q.timestamp, ..c }
}

/// The identifier of a group of answers.
pub open spec fn group_name(unique: Seq<char>) -> Seq<char> {
    "grp_"@ + unique
}

/// How a message is sent: to which models, and whether they answer side by side as
/// one group.
#[derive(Debug)]
pub struct SendPlan {
    pub arms: Vec<(String, String)>,
    pub group_id: Option<String>,
    pub message_id: String,
}

/// The plan of a message that is sent in a conversation with the models `arms`.
pub open spec fn send_planned(
    c: ConversationView,
    arms: Seq<ModelRefView>,
    message_unique: Seq<char>,
    group_unique: Seq<char>,
    plan: SendPlan,
) -> bool {
    &&& arm_views(plan.arms@) == arms
    &&& plan.message_id@ == message_name(message_unique)
    &&& opt_text(plan.group_id) == if side_by_side(c, arms) {
        Some(group_name(group_unique))
    } else {
        None
    }
}

/// The question was put in, and is sent as `plan` says.
pub open spec fn question_added(
    before: ConversationView,
    after: ConversationView,
    arms: Seq<ModelRefView>,
    content: Seq<char>,
    attachments: Seq<AttachmentView>,
    plan: SendPlan,
    message_unique: Seq<char>,
    group_unique: Seq<char>,
    now: i64,
) -> bool {
    &&& send_planned(before, arms, message_unique, group_unique, plan)
    &&& after == with_question(
        before,
        question(
            message_name(message_unique),
            content,
            attachments,
            opt_text(plan.group_id),
            now,
        ),
    )
}

/// Puts a question into the conversation: `plan` says to whom it goes. Where several
/// models answer, the question carries their group. With too many models the
/// conversation stays as it is.
pub fn add_question(
    conversation: &mut Conversation,
    providers: &Vec<ModelProvider>,
    content: &str,
    attachments: Vec<Attachment>,
) -> (r: Result<SendPlan, String>)
    ensures
        match reply_arms(old(conversation)@.reply_models, providers@) {
            Err(e) => r is Err && r->Err_0@ == e && final(conversation)@ == old(conversation)@,
            Ok(arms) => r is Ok && exists|message_unique: Seq<char>, group_unique: Seq<char>, now: i64|
                #[trigger] question_added(
                    old(conversation)@,
                    final(conversation)@,
                    arms,
                    content@,
                    attachment_views(attachments@),
                    r->Ok_0,
                    message_unique,
                    group_unique,
                    now,
                ),
        },
{
    let ghost start = conversation@;
    let arms = match resolve_reply_arms(providers, &conversation.reply_models) {
        Ok(a) => a,
        Err(e) => {
            return Err(e);
        },
    };
    let group_unique = new_uuid();
    let group_id = if fans_out(conversation, &arms) {
        Some(concat2("grp_", group_unique.as_str()))
    } else {
        None
    };
    let message_id = new_message_id();
    let ghost message_unique = choose|unique: Seq<char>|
        message_id@ == #[trigger] message_name(unique);
    let now = now_timestamp();
    let mut message = ChatMessage::plain(message_id.clone(), "user", content, now);
    message.attachments = attachments;
    message.group_id = copy_opt(&group_id);
    let ghost before = conversation.messages@;
    let ghost q = message@;
    conversation.messages.push(message);
    assert(chat_message_views(conversation.messages@) =~= chat_message_views(before).push(q));
    conversation.updated_at = now;
    let plan = SendPlan { arms, group_id, message_id };
    let r: Result<SendPlan, String> = Ok(plan);
    assert(question_added(
        start,
        conversation@,
        reply_arms(start.reply_models, providers@)->Ok_0,
        content@,
        attachment_views(attachments@),
        r->Ok_0,
        message_unique,
        group_unique@,
        now,
    ));
    r
}

// ---------------------------------------------------------------------
// What happens next
// ---------------------------------------------------------------------

/// What happened while a message was sent.
#[derive(Debug)]
pub enum SendEvent {
    /// The size of the context was estimated. `compress` says that it is to be
    /// summed up.
    Estimated { compress: bool },
    EstimateFailed,
    Compressed,
    /// Summing up failed. `over_limit` says that the model cannot take the context.
    CompressionFailed { error: String, over_limit: bool },
    Refreshed,
    RefreshFailed { error: String },
    /// The question was taken back; `reason` is why.
    RolledBack { reason: String },
    RollBackFailed { error: String },
    /// The answer was made, or not.
    Replied { outcome: Result<(), String> },
}

/// What is done next. Steps that go on with the answer say whether the conversation
/// is saved and shown before.
#[allow(inconsistent_fields)]
#[derive(Debug)]
pub enum SendAction {
    Compress,
    Refresh,
    RollBack { reason: String },
    Answer { save: bool, touch: bool, warning: Option<String> },
    /// The reply to the user, with the conversation.
    Respond { error: Option<String> },
    /// No reply but an error.
    Fail { error: String },
}

/// What is said where the context is too large and could not be summed up.
pub open spec fn over_limit_text(error: Seq<char>) -> Seq<char> {
    "Context is likely over the model limit and automatic compression failed: "@ + error
        + ". Please compress manually or switch to a larger-context model."@
}

/// What is said where the context could not be summed up but still fits.
pub open spec fn uncompressed_text(error: Seq<char>) -> Seq<char> {
    "Automatic compression failed: "@ + error
        + ". The uncompressed request was sent because the estimate is still within the model window."@
}

/// The action is the one that follows the event.
pub open spec fn follows(event: SendEvent, action: SendAction) -> bool {
    match event {
        SendEvent::Estimated { compress } => if compress {
            action is Compress
        } else {
            action == (SendAction::Answer { save: true, touch: false, warning: None })
        },
        SendEvent::EstimateFailed => action == (SendAction::Answer {
            save: false,
            touch: false,
            warning: None,
        }),
        SendEvent::Compressed => action is Refresh,
        SendEvent::CompressionFailed { error, over_limit } => if over_limit {
            action matches SendAction::RollBack { reason } && reason@ == over_limit_text(error@)
        } else {
            &&& action matches SendAction::Answer { save, touch, warning }
            &&& save
            &&& !touch
            &&& opt_text(warning) == Some(uncompressed_text(error@))
        },
        SendEvent::Refreshed => action == (SendAction::Answer {
            save: true,
            touch: true,
            warning: None,
        }),
        SendEvent::RefreshFailed { error } => action matches SendAction::Fail { error: e } && e@
            == error@,
        SendEvent::RolledBack { reason } => action matches SendAction::Respond { error } && opt_text(
            error,
        ) == Some(reason@),
        SendEvent::RollBackFailed { error } => action matches SendAction::Fail { error: e } && e@
            == error@,
        SendEvent::Replied { outcome } => action matches SendAction::Respond { error } && opt_text(
            error,
        ) == reply_error(unit_result(outcome)),
    }
}

/// The error that the user is told of: an answer that was cancelled is none.
pub open spec fn reply_error(outcome: Result<(), Seq<char>>) -> Option<Seq<char>> {
    match outcome {
        Ok(_) => None,
        Err(e) => if e == "cancelled"@ {
            None
        } else {
            Some(e)
        },
    }
}

/// What is done after an event while a message is sent.
pub fn next_send_action(event: SendEvent) -> (r: SendAction)
    ensures
        follows(event, r),
{
    match event {
        SendEvent::Estimated { compress } => if compress {
            SendAction::Compress
        } else {
            SendAction::Answer { save: true, touch: false, warning: None }
        },
        SendEvent::EstimateFailed => SendAction::Answer {
            save: false,
            touch: false,
            warning: None,
        },
        SendEvent::Compressed => SendAction::Refresh,
        SendEvent::CompressionFailed { error, over_limit } => if over_limit {
            SendAction::RollBack {
                reason: concat3(
                    "Context is likely over the model limit and automatic compression failed: ",
                    error.as_str(),
                    ". Please compress manually or switch to a larger-context model.",
                ),
            }
        } else {
            SendAction::Answer {
                save: true,
                touch: false,
                warning: Some(
                    concat3(
                        "Automatic compression failed: ",
                        error.as_str(),
                        ". The uncompressed request was sent because the estimate is still within the model window.",
                    ),
                ),
            }
        },
        SendEvent::Refreshed => SendAction::Answer { save: true, touch: true, warning: None },
        SendEvent::RefreshFailed { error } => SendAction::Fail { error },
        SendEvent::RolledBack { reason } => SendAction::Respond { error: Some(reason) },
        SendEvent::RollBackFailed { error } => SendAction::Fail { error },
        SendEvent::Replied { outcome } => match outcome {
            Ok(_) => SendAction::Respond { error: None },
            Err(e) => if str_eq(e.as_str(), "cancelled") {
                SendAction::Respond { error: None }
            } else {
                SendAction::Respond { error: Some(e) }
            },
        },
    }
}

/// The conversation once an answer is to be made: with the warning, and with the
/// time where it is touched.
pub open spec fn before_answer(
    c: ConversationView,
    touch: bool,
    warning: Option<Seq<char>>,
    now: i64,
) -> ConversationView {
    ConversationView {
        context_state: match warning {
            Some(w) => ContextView { warning: Some(w), ..c.context_state },
            None => c.context_state,
        },
        updated_at: if touch {
            now
        } else {
            c.updated_at
        },
        ..c
    }
}

/// Writes into the conversation what is said before an answer is made.
pub fn note_before_answer(
    conversation: &mut Conversation,
    touch: bool,
    warning: Option<String>,
    now: i64,
)
    ensures
        final(conversation)@ == before_answer(old(conversation)@, touch, opt_text(warning), now),
{
    if let Some(w) = warning {
        conversation.context_state.warning = Some(w);
    }
    if touch {
        conversation.updated_at = now;
    }
}

/// The question may follow on the event: one step of sending is at most as far from
/// the end as this.
pub open spec fn steps_left(event: SendEvent) -> nat {
    match event {
        SendEvent::Estimated { .. } => 4,
        SendEvent::EstimateFailed => 2,
        SendEvent::Compressed => 3,
        SendEvent::CompressionFailed { .. } => 3,
        SendEvent::Refreshed => 2,
        SendEvent::RefreshFailed { .. } => 1,
        SendEvent::RolledBack { .. } => 1,
        SendEvent::RollBackFailed { .. } => 1,
        SendEvent::Replied { .. } => 1,
    }
}

/// The event is one that the action leads to.
pub open spec fn results_from(action: SendAction, event: SendEvent) -> bool {
    match action {
        SendAction::Compress => event is Compressed || event is CompressionFailed,
        SendAction::Refresh => event is Refreshed || event is RefreshFailed,
        SendAction::RollBack { reason } => (event matches SendEvent::RolledBack { reason: r } && r
            == reason) || event is RollBackFailed,
        SendAction::Answer { .. } => event is Replied,
        SendAction::Respond { .. } => false,
        SendAction::Fail { .. } => false,
    }
}

/// Sending comes to an end: each event that an action leads to is nearer to it than
/// the event before.
pub proof fn law_sending_ends(event: SendEvent, action: SendAction, next: SendEvent)
    requires
        follows(event, action),
        results_from(action, next),
    ensures
        steps_left(next) < steps_left(event),
{
}

/// A question is answered only where the model can take it: one that is over the
/// limit and could not be summed up is taken back, and the user is told.
pub proof fn law_oversized_questions_are_taken_back(
    error: String,
    action: SendAction,
    next: SendEvent,
    last: SendAction,
)
    requires
        follows((SendEvent::CompressionFailed { error, over_limit: true }), action),
        results_from(action, next),
        follows(next, last),
    ensures
        last matches SendAction::Respond { error: told } ==> opt_text(told) == Some(
            over_limit_text(error@),
        ),
        last is Respond || last is Fail,
{
}

// ---------------------------------------------------------------------
// The reply
// ---------------------------------------------------------------------

/// The reply to a message: the conversation, and the error where there is one.
pub open spec fn reply_json(conversation: JsonView, error: Option<Seq<char>>) -> JsonView {
    let shown = Map::empty().insert("success"@, JsonView::Bool(error is None)).insert(
        "conversation"@,
        conversation,
    );
    match error {
        Some(e) => JsonView::Object(shown.insert("error"@, str_json(e))),
        None => JsonView::Object(shown),
    }
}

/// The reply to a message: the conversation, and the error where there is one.
pub fn send_response(conversation: Json, error: Option<&str>) -> (r: Json)
    ensures
        r@ == reply_json(conversation@, opt_str(error)),
{
    let mut o = Object::new();
    match error {
        None => {
            o.set("success", Json::Bool(true));
            o.set("conversation", conversation);
        },
        Some(e) => {
            o.set("success", Json::Bool(false));
            o.set("conversation", conversation);
            o.set("error", Json::string(e));
        },
    }
    Json::Object(o)
}

/// The reply to the wish for a new answer: the conversation, or the error alone.
pub open spec fn regenerated_json(
    conversation: JsonView,
    outcome: Result<(), Seq<char>>,
) -> JsonView {
    match reply_error(outcome) {
        None => reply_json(conversation, None),
        Some(e) => JsonView::Object(
            Map::empty().insert("success"@, JsonView::Bool(false)).insert("error"@, str_json(e)),
        ),
    }
}

/// The reply to the wish for a new answer: the conversation, or the error alone.
pub fn regenerate_response(conversation: Json, outcome: &Result<(), String>) -> (r: Json)
    ensures
        r@ == regenerated_json(conversation@, unit_result(*outcome)),
{
    match outcome {
        Err(e) => if str_eq(e.as_str(), "cancelled") {
            send_response(conversation, None)
        } else {
            let mut o = Object::new();
            o.set("success", Json::Bool(false));
            o.set("error", Json::string(e.as_str()));
            Json::Object(o)
        },
        Ok(_) => send_response(conversation, None),
    }
}

/// A question goes to the end of the conversation, as one of the user, with its text, its
/// attachments and its group; what was there stays, and the time is that of the question.
pub proof fn law_questions_go_to_the_end(
    c: ConversationView,
    id: Seq<char>,
    content: Seq<char>,
    attachments: Seq<AttachmentView>,
    group_id: Option<Seq<char>>,
    now: i64,
)
    ensures
        ({
            let after = with_question(c, question(id, content, attachments, group_id, now));
            &&& after.messages.len() == c.messages.len() + 1
            &&& after.messages.drop_last() == c.messages
            &&& after.messages.last().id == id
            &&& after.messages.last().role == "user"@
            &&& after.messages.last().content == content
            &&& after.messages.last().attachments == attachments
            &&& after.messages.last().group_id == group_id
            &&& after.messages.last().timestamp == now
            &&& after.messages.last().tool_calls.len() == 0
            &&& after.updated_at == now
            &&& after.title == c.title && after.id == c.id && after.group_selections
                == c.group_selections && after.context_state == c.context_state
        }),
{
    let after = with_question(c, question(id, content, attachments, group_id, now));
    assert(after.messages.drop_last() =~= c.messages);
}

/// What is sent is what was typed, unless it calls a skill: then the skill and what it is
/// given. What comes from outside calls no skill.
pub proof fn law_what_was_typed_is_sent(
    external: bool,
    content: Seq<char>,
    skill_id: Option<Seq<char>>,
    trigger: Option<SlashTrigger>,
)
    ensures
        external || trigger is None ==> sent(external, content, skill_id, trigger) == (
            content,
            skill_id,
        ),
        !external && trigger is Some ==> sent(external, content, skill_id, trigger) == (
            (trigger->0).content@,
            Some((trigger->0).skill_id@),
        ),
{
}

/// A reply says whether it went well, shows the conversation and, where it did not, the
/// error; being cancelled is no error.
pub proof fn law_replies_show_the_conversation(
    conversation: JsonView,
    error: Option<Seq<char>>,
    outcome: Result<(), Seq<char>>,
)
    ensures
        reply_json(conversation, error).field_truth("success"@) == Some(error is None),
        reply_json(conversation, error).field("conversation"@) == Some(conversation),
        reply_json(conversation, error).field_text("error"@) == error,
        outcome is Ok ==> regenerated_json(conversation, outcome) == reply_json(conversation, None),
        outcome is Err && outcome->Err_0 == "cancelled"@ ==> regenerated_json(conversation, outcome)
            == reply_json(conversation, None),
        outcome is Err && outcome->Err_0 != "cancelled"@ ==> regenerated_json(
            conversation,
            outcome,
        ).field_truth("success"@) == Some(false) && regenerated_json(
            conversation,
            outcome,
        ).field_text("error"@) == Some(outcome->Err_0),
{
    lemma_reply_keys();
}

proof fn lemma_reply_keys()
    ensures
        "success"@ != "conversation"@,
        "success"@ != "error"@,
        "conversation"@ != "error"@,
{
    reveal_strlit("success");
    reveal_strlit("conversation");
    reveal_strlit("error");
    assert("success"@.len() == 7);
    assert("conversation"@.len() == 12);
    assert("error"@.len() == 5);
}

/// Before an answer, the context takes the warning, where there is one, and the time is
/// set where it is to be; the messages stay.
pub proof fn law_warnings_reach_the_context(
    c: ConversationView,
    touch: bool,
    warning: Option<Seq<char>>,
    now: i64,
)
    ensures
        ({
            let after = before_answer(c, touch, warning, now);
            &&& warning is Some ==> after.context_state.warning == warning
            &&& warning is None ==> after.context_state == c.context_state
            &&& after.context_state.summary == c.context_state.summary
            &&& touch ==> after.updated_at == now
            &&& !touch ==> after.updated_at == c.updated_at
            &&& after.messages == c.messages && after.title == c.title
        }),
{
}

/// A question that is added is at the end, under its own identifier; it opens a group
/// where several models answer side by side, and only there.
pub proof fn law_added_questions_are_there(
    before: ConversationView,
    after: ConversationView,
    arms: Seq<ModelRefView>,
    content: Seq<char>,
    attachments: Seq<AttachmentView>,
    plan: SendPlan,
    message_unique: Seq<char>,
    group_unique: Seq<char>,
    now: i64,
)
    requires
        question_added(
            before,
            after,
            arms,
            content,
            attachments,
            plan,
            message_unique,
            group_unique,
            now,
        ),
    ensures
        after.messages.len() == before.messages.len() + 1,
        after.messages.drop_last() == before.messages,
        after.messages.last().content == content,
        after.messages.last().attachments == attachments,
        after.messages.last().id == plan.message_id@,
        after.messages.last().group_id == opt_text(plan.group_id),
        plan.group_id is Some <==> side_by_side(before, arms),
        arm_views(plan.arms@) == arms,
        after.title == before.title,
{
    law_questions_go_to_the_end(
        before,
        message_name(message_unique),
        content,
        attachments,
        opt_text(plan.group_id),
        now,
    );
}

} // verus!
