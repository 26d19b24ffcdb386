//! Changing conversations: editing, deleting, branching off, settings.

use vstd::prelude::*;

use crate::clock::{new_uuid, now_timestamp};
use crate::conversation::{
    attachment_views, chat_message_views, context_after_change, empty_context, message_index,
    model_ref_views, selected, selection_map, tool_record_views, AttachmentView, ChatMessageView,
    ContextView, ConversationView, ForkView, ModelRefView, ToolRecordView,
};
use crate::conversation::{
    find_message, find_message_index, mark_summary_stale_if_needed, Attachment, ChatMessage,
    Conversation, ConversationContextState, ForkOrigin, GroupSelections, ModelRef, ToolCallRecord,
    MAX_REPLY_MODELS,
};
use crate::json::{Json, JsonView};
use crate::plan::{AgentPlanMode, AgentPlanState, AgentPlanStatus, PlanView};
use crate::text::{
    concat2, concat3, copy_opt, copy_str, has_char, is_blank, list_contains, one_of, opt_is, str_eq,
    trim, truncate_chars,
};
use crate::text::{first_chars, is_blank_text, is_one_of, opt_text, strings, trimmed};
use crate::types::{artifact_views, ArtifactView};
use crate::types::ChatToolArtifact;

verus! {

/// A conversation or an error, as values.
pub open spec fn conversation_result(r: Result<Conversation, String>) -> Result<
    ConversationView,
    Seq<char>,
> {
    match r {
        Ok(c) => Ok(c@),
        Err(e) => Err(e@),
    }
}

// ---------------------------------------------------------------------
// Answering anew
// ---------------------------------------------------------------------

/// The conversation cut off for a new answer. An answer goes, with all that
/// follows; a question stays, with another text where one is given, and what
/// follows goes.
pub open spec fn cut_for_answer(
    c: ConversationView,
    idx: int,
    new_content: Option<Seq<char>>,
    now: i64,
) -> Result<ConversationView, Seq<char>> {
    let m = c.messages[idx];
    if m.role == "assistant"@ {
        if new_content is Some {
            Err("编辑内容仅支持用户消息"@)
        } else {
            Ok(
                ConversationView {
                    context_state: context_after_change(c.messages, c.context_state, idx),
                    messages: c.messages.take(idx),
                    ..c
                },
            )
        }
    } else if m.role == "user"@ {
        match new_content {
            Some(text) => if is_blank_text(text) {
                Err("消息内容不能为空"@)
            } else {
                Ok(
                    ConversationView {
                        context_state: context_after_change(c.messages, c.context_state, idx),
                        messages: c.messages.take(idx).push(
                            ChatMessageView { content: trimmed(text), timestamp: now, ..m },
                        ),
                        ..c
                    },
                )
            },
            None => Ok(
                ConversationView {
                    context_state: context_after_change(c.messages, c.context_state, idx + 1),
                    messages: c.messages.take(idx + 1),
                    ..c
                },
            ),
        }
    } else {
        Err("仅支持重新生成助手回复或重试用户消息"@)
    }
}

/// Keeps the messages before a place.
fn cut_messages(conversation: &mut Conversation, n: usize)
    requires
        n <= old(conversation).messages@.len(),
    ensures
        final(conversation)@ == (ConversationView {
            messages: old(conversation)@.messages.take(n as int),
            ..old(conversation)@
        }),
        final(conversation).messages@ == old(conversation).messages@.take(n as int),
{
    let ghost before = conversation.messages@;
    conversation.messages.truncate(n);
    assert(chat_message_views(conversation.messages@) =~= chat_message_views(before).take(
        n as int,
    ));
}

/// Cuts a conversation off for a new answer at the message of a place. Nothing
/// changes where that is refused.
pub fn apply_regenerate_truncation_at(
    conversation: &mut Conversation,
    idx: usize,
    new_content: Option<String>,
    now: i64,
) -> (r: Result<(), String>)
    requires
        idx < old(conversation).messages@.len(),
    ensures
        match cut_for_answer(old(conversation)@, idx as int, opt_text(new_content), now) {
            Ok(c) => r is Ok && final(conversation)@ == c,
            Err(e) => r is Err && r->Err_0@ == e && final(conversation)@ == old(conversation)@,
        },
{
    let count: usize = conversation.messages.len();
    assert(idx < count);
    assert(conversation@.messages[idx as int] == conversation.messages@[idx as int]@);
    if str_eq(conversation.messages[idx].role.as_str(), "assistant") {
        if new_content.is_some() {
            return Err(copy_str("编辑内容仅支持用户消息"));
        }
        mark_summary_stale_if_needed(conversation, idx);
        cut_messages(conversation, idx);
        return Ok(());
    }
    if !str_eq(conversation.messages[idx].role.as_str(), "user") {
        return Err(copy_str("仅支持重新生成助手回复或重试用户消息"));
    }
    match new_content {
        Some(content) => {
            if is_blank(content.as_str()) {
                return Err(copy_str("消息内容不能为空"));
            }
            let mut message = conversation.messages[idx].copy();
            message.content = trim(content.as_str());
            message.timestamp = now;
            mark_summary_stale_if_needed(conversation, idx);
            cut_messages(conversation, idx);
            let ghost before = conversation.messages@;
            conversation.messages.push(message);
            assert(chat_message_views(conversation.messages@) =~= chat_message_views(before).push(
                message@,
            ));
        },
        None => {
            mark_summary_stale_if_needed(conversation, idx + 1);
            cut_messages(conversation, idx + 1);
        },
    }
    Ok(())
}

/// Cuts a conversation off for a new answer at the message of a place, now.
pub fn apply_regenerate_truncation(
    conversation: &mut Conversation,
    idx: usize,
    new_content: Option<String>,
) -> (r: Result<(), String>)
    requires
        idx < old(conversation).messages@.len(),
    ensures
        exists|now: i64|
            match #[trigger] cut_for_answer(
                old(conversation)@,
                idx as int,
                opt_text(new_content),
                now,
            ) {
                Ok(c) => r is Ok && final(conversation)@ == c,
                Err(e) => r is Err && r->Err_0@ == e && final(conversation)@ == old(conversation)@,
            },
{
    let now = now_timestamp();
    apply_regenerate_truncation_at(conversation, idx, new_content, now)
}

/// The selections that name a message that is there.
pub open spec fn live_selections(
    selections: Map<Seq<char>, Seq<char>>,
    messages: Seq<ChatMessageView>,
) -> Map<Seq<char>, Seq<char>> {
    Map::new(
        |g: Seq<char>|
            selections.dom().contains(g) && message_index(messages, selections[g], 0) is Some,
        |g: Seq<char>| selections[g],
    )
}

fn keep_live_selections(selections: &GroupSelections, messages: &Vec<ChatMessage>) -> (r:
    GroupSelections)
    ensures
        r@ == live_selections(selections@, chat_message_views(messages@)),
{
    let ghost m = selections@;
    let ghost views = chat_message_views(messages@);
    let mut kept = GroupSelections::new();
    let mut i: usize = 0;
    proof {
        lemma_keys(selections.entries@);
    }
    while i < selections.entries.len()
        invariant
            i <= selections.entries@.len(),
            m == selections@,
            views == chat_message_views(messages@),
            forall|g: Seq<char>|
                #[trigger] kept@.dom().contains(g) ==> m.dom().contains(g) && message_index(
                    views,
                    m[g],
                    0,
                ) is Some && kept@[g] == m[g],
            forall|j: int|
                0 <= j < i ==> (message_index(
                    views,
                    m[(#[trigger] selections.entries@[j]).0@],
                    0,
                ) is Some ==> kept@.dom().contains(selections.entries@[j].0@)),
            forall|j: int|
                0 <= j < selections.entries@.len() ==> m.dom().contains(
                    (#[trigger] selections.entries@[j]).0@,
                ),
        decreases selections.entries@.len() - i,
    {
        let group = selections.entries[i].0.as_str();
        assert(m.dom().contains(selections.entries@[i as int].0@));
        if let Some(id) = selections.get(group) {
            if find_message(messages, id).is_some() {
                kept.insert(group, id);
            }
        }
        i += 1;
    }
    proof {
        let live = live_selections(m, views);
        assert forall|g: Seq<char>| #[trigger] live.dom().contains(g) implies kept@.dom().contains(
            g,
        ) by {
            lemma_key_of(selections.entries@, g);
        }
        assert(kept@ =~= live);
    }
    kept
}

proof fn lemma_keys(entries: Seq<(String, String)>)
    ensures
        forall|j: int|
            0 <= j < entries.len() ==> selection_map(entries).dom().contains(
                (#[trigger] entries[j]).0@,
            ),
    decreases entries.len(),
{
    if entries.len() > 0 {
        lemma_keys(entries.drop_last());
        assert forall|j: int| 0 <= j < entries.len() implies selection_map(entries).dom().contains(
            (#[trigger] entries[j]).0@,
        ) by {
            if j < entries.len() - 1 {
                assert(entries.drop_last()[j] == entries[j]);
            }
        }
    }
}

proof fn lemma_key_of(entries: Seq<(String, String)>, g: Seq<char>)
    requires
        selection_map(entries).dom().contains(g),
    ensures
        exists|j: int| 0 <= j < entries.len() && (#[trigger] entries[j]).0@ == g,
    decreases entries.len(),
{
    if entries.last().0@ == g {
        assert(entries[entries.len() - 1].0@ == g);
    } else {
        lemma_key_of(entries.drop_last(), g);
        let j = choose|j: int|
            0 <= j < entries.drop_last().len() && (#[trigger] entries.drop_last()[j]).0@ == g;
        assert(entries[j].0@ == g);
    }
}

/// The conversation that a new answer is asked for in.
pub open spec fn regenerating(
    c: ConversationView,
    message_id: Seq<char>,
    new_content: Option<Seq<char>>,
    now: i64,
) -> Result<ConversationView, Seq<char>> {
    match message_index(c.messages, message_id, 0) {
        None => Err("消息不存在"@),
        Some(idx) => match cut_for_answer(c, idx, new_content, now) {
            Err(e) => Err(e),
            Ok(cut) => if cut.messages.len() == 0 || cut.messages.last().role != "user"@ {
                Err("缺少对应的用户消息，无法重新生成"@)
            } else {
                Ok(
                    ConversationView {
                        group_selections: live_selections(cut.group_selections, cut.messages),
                        updated_at: now,
                        ..cut
                    },
                )
            },
        },
    }
}

/// The conversation that a new answer is asked for in: cut off at a message, with
/// a question at its end, and without selections of answers that are gone.
pub fn regenerate_message_at(
    conversation: Conversation,
    message_id: &str,
    new_content: Option<String>,
    now: i64,
) -> (r: Result<Conversation, String>)
    ensures
        conversation_result(r) == regenerating(
            conversation@,
            message_id@,
            opt_text(new_content),
            now,
        ),
{
    let mut c = conversation;
    let idx = match find_message_index(&c, message_id) {
        Ok(i) => i,
        Err(e) => {
            return Err(e);
        },
    };
    match apply_regenerate_truncation_at(&mut c, idx, new_content, now) {
        Ok(_) => {},
        Err(e) => {
            return Err(e);
        },
    }
    let n: usize = c.messages.len();
    assert(chat_message_views(c.messages@).len() == c.messages@.len());
    let asks = n > 0 && str_eq(c.messages[n - 1].role.as_str(), "user");
    if !asks {
        return Err(copy_str("缺少对应的用户消息，无法重新生成"));
    }
    let kept = keep_live_selections(&c.group_selections, &c.messages);
    c.group_selections = kept;
    c.updated_at = now;
    Ok(c)
}

/// The conversation that a new answer is asked for in, now.
pub fn chat_regenerate_message(
    conversation: Conversation,
    message_id: &str,
    new_content: Option<String>,
) -> (r: Result<Conversation, String>)
    ensures
        exists|now: i64|
            conversation_result(r) == #[trigger] regenerating(
                conversation@,
                message_id@,
                opt_text(new_content),
                now,
            ),
{
    regenerate_message_at(conversation, message_id, new_content, now_timestamp())
}

/// A conversation that a new answer is asked for in ends with a question, and
/// every selection in it names a message that is there.
pub proof fn law_regeneration_leaves_a_question(
    c: ConversationView,
    message_id: Seq<char>,
    new_content: Option<Seq<char>>,
    now: i64,
)
    ensures
        regenerating(c, message_id, new_content, now) matches Ok(r) ==> {
            &&& r.messages.len() > 0
            &&& r.messages.last().role == "user"@
            &&& r.messages.len() <= c.messages.len()
            &&& forall|g: Seq<char>|
                #[trigger] r.group_selections.dom().contains(g) ==> message_index(
                    r.messages,
                    r.group_selections[g],
                    0,
                ) is Some
        },
{
    if let Some(idx) = message_index(c.messages, message_id, 0) {
        lemma_message_index(c.messages, message_id, 0);
    }
}

proof fn lemma_message_index(messages: Seq<ChatMessageView>, id: Seq<char>, from: int)
    requires
        0 <= from <= messages.len(),
    ensures
        match message_index(messages, id, from) {
            Some(i) => from <= i < messages.len() && messages[i].id == id && forall|j: int|
                from <= j < i ==> (#[trigger] messages[j]).id != id,
            None => forall|j: int|
                from <= j < messages.len() ==> (#[trigger] messages[j]).id != id,
        },
    decreases messages.len() - from,
{
    if from < messages.len() && messages[from].id != id {
        lemma_message_index(messages, id, from + 1);
    }
}

// ---------------------------------------------------------------------
// Editing and deleting answers
// ---------------------------------------------------------------------

/// A state of the context or an error, as values.
pub open spec fn context_result(r: Result<ConversationContextState, String>) -> Result<
    ContextView,
    Seq<char>,
> {
    match r {
        Ok(c) => Ok(c@),
        Err(e) => Err(e@),
    }
}

/// The conversation once a change to its messages is through: it has the context that
/// was estimated for the changed messages, and the time of the change. Without an
/// estimate the change fails.
pub open spec fn settled(
    changed: Result<ConversationView, Seq<char>>,
    context: Result<ContextView, Seq<char>>,
    now: i64,
) -> Result<ConversationView, Seq<char>> {
    match changed {
        Err(e) => Err(e),
        Ok(c) => match context {
            Err(e) => Err(e),
            Ok(state) => Ok(ConversationView { context_state: state, updated_at: now, ..c }),
        },
    }
}

/// Gives a conversation whose messages were changed the context that was estimated for
/// it, and the time of the change.
pub fn settle_change_at(
    conversation: Conversation,
    context: ConversationContextState,
    now: i64,
) -> (r: Conversation)
    ensures
        r@ == (ConversationView { context_state: context@, updated_at: now, ..conversation@ }),
{
    let mut c = conversation;
    c.context_state = context;
    c.updated_at = now;
    c
}

/// The conversation while an answer is being edited, the place of the answer and
/// its new text.
pub open spec fn editing(
    c: ConversationView,
    message_id: Seq<char>,
    content: Seq<char>,
    now: i64,
) -> Result<(ConversationView, int, Seq<char>), Seq<char>> {
    if is_blank_text(content) {
        Err("消息内容不能为空"@)
    } else {
        match message_index(c.messages, message_id, 0) {
            None => Err("消息不存在"@),
            Some(idx) => if c.messages[idx].role != "assistant"@ {
                Err("仅支持编辑助手回复"@)
            } else {
                Ok(
                    (
                        ConversationView {
                            context_state: context_after_change(c.messages, c.context_state, idx),
                            messages: c.messages.update(
                                idx,
                                ChatMessageView { timestamp: now, ..c.messages[idx] },
                            ),
                            ..c
                        },
                        idx,
                        trimmed(content),
                    ),
                )
            },
        }
    }
}

/// Begins to edit an answer: gives the conversation with the summary and the time
/// of the answer brought up to date, the place of the answer and its new text.
pub fn update_message_at(
    conversation: Conversation,
    message_id: &str,
    content: &str,
    now: i64,
) -> (r: Result<(Conversation, usize, String), String>)
    ensures
        match r {
            Ok((c, idx, text)) => editing(conversation@, message_id@, content@, now) == Ok::<
                (ConversationView, int, Seq<char>),
                Seq<char>,
            >((c@, idx as int, text@)),
            Err(e) => editing(conversation@, message_id@, content@, now) == Err::<
                (ConversationView, int, Seq<char>),
                Seq<char>,
            >(e@),
        },
{
    let mut c = conversation;
    if is_blank(content) {
        return Err(copy_str("消息内容不能为空"));
    }
    let idx = match find_message_index(&c, message_id) {
        Ok(i) => i,
        Err(e) => {
            return Err(e);
        },
    };
    assert(c@.messages[idx as int] == c.messages@[idx as int]@);
    if !str_eq(c.messages[idx].role.as_str(), "assistant") {
        return Err(copy_str("仅支持编辑助手回复"));
    }
    let mut message = c.messages[idx].copy();
    message.timestamp = now;
    mark_summary_stale_if_needed(&mut c, idx);
    let ghost before = c.messages@;
    c.messages.set(idx, message);
    assert(chat_message_views(c.messages@) =~= chat_message_views(before).update(
        idx as int,
        message@,
    ));
    Ok((c, idx, trim(content)))
}

/// The conversation in which an answer was replaced by `message`, the same answer with
/// its new text, written at `edited_at`.
pub open spec fn with_edited(
    c: ConversationView,
    message_id: Seq<char>,
    content: Seq<char>,
    message: ChatMessageView,
    edited_at: i64,
) -> Result<ConversationView, Seq<char>> {
    match editing(c, message_id, content, edited_at) {
        Err(e) => Err(e),
        Ok((begun, idx, _)) => Ok(
            ConversationView {
                messages: begun.messages.update(
                    idx,
                    ChatMessageView { timestamp: edited_at, ..message },
                ),
                ..begun
            },
        ),
    }
}

/// Puts the answer with its new text, as `message` holds it, in its place. The context is
/// then estimated for the conversation that comes back.
pub fn replace_answer_at(
    conversation: Conversation,
    message_id: &str,
    content: &str,
    message: ChatMessage,
    edited_at: i64,
) -> (r: Result<Conversation, String>)
    ensures
        conversation_result(r) == with_edited(
            conversation@,
            message_id@,
            content@,
            message@,
            edited_at,
        ),
{
    match update_message_at(conversation, message_id, content, edited_at) {
        Err(e) => Err(e),
        Ok((begun, idx, _)) => {
            let mut c = begun;
            let mut next = message;
            next.timestamp = edited_at;
            proof {
                lemma_message_index(conversation@.messages, message_id@, 0);
            }
            let ghost before = c.messages@;
            assert(chat_message_views(before).len() == before.len());
            c.messages.set(idx, next);
            assert(chat_message_views(c.messages@) =~= chat_message_views(before).update(
                idx as int,
                next@,
            ));
            Ok(c)
        },
    }
}

/// Edits an answer: `message` is the answer with its new text in place, and `context` the
/// context that was estimated for the conversation with it.
pub fn chat_update_message(
    conversation: Conversation,
    message_id: &str,
    content: &str,
    message: ChatMessage,
    context: Result<ConversationContextState, String>,
    edited_at: i64,
    now: i64,
) -> (r: Result<Conversation, String>)
    ensures
        conversation_result(r) == settled(
            with_edited(conversation@, message_id@, content@, message@, edited_at),
            context_result(context),
            now,
        ),
{
    match replace_answer_at(conversation, message_id, content, message, edited_at) {
        Err(e) => Err(e),
        Ok(c) => match context {
            Err(e) => Err(e),
            Ok(state) => Ok(settle_change_at(c, state, now)),
        },
    }
}

/// The conversation without an answer. Where the answer was the one that counts
/// in its group, the selection goes too.
pub open spec fn without_answer(c: ConversationView, message_id: Seq<char>) -> Result<
    ConversationView,
    Seq<char>,
> {
    match message_index(c.messages, message_id, 0) {
        None => Err("消息不存在"@),
        Some(idx) => {
            let m = c.messages[idx];
            if m.role != "assistant"@ {
                Err("仅支持删除助手回复"@)
            } else {
                Ok(
                    ConversationView {
                        context_state: context_after_change(c.messages, c.context_state, idx),
                        messages: c.messages.remove(idx),
                        group_selections: match m.group_id {
                            Some(g) => if selected(c.group_selections, g) == Some(m.id) {
                                c.group_selections.remove(g)
                            } else {
                                c.group_selections
                            },
                            None => c.group_selections,
                        },
                        ..c
                    },
                )
            }
        },
    }
}

/// Takes an answer out. The context is then estimated for the conversation that comes
/// back.
pub fn remove_answer(conversation: Conversation, message_id: &str) -> (r: Result<
    Conversation,
    String,
>)
    ensures
        conversation_result(r) == without_answer(conversation@, message_id@),
{
    let mut c = conversation;
    let idx = match find_message_index(&c, message_id) {
        Ok(i) => i,
        Err(e) => {
            return Err(e);
        },
    };
    assert(c@.messages[idx as int] == c.messages@[idx as int]@);
    if !str_eq(c.messages[idx].role.as_str(), "assistant") {
        return Err(copy_str("仅支持删除助手回复"));
    }
    mark_summary_stale_if_needed(&mut c, idx);
    let ghost before = c.messages@;
    let removed = c.messages.remove(idx);
    assert(chat_message_views(c.messages@) =~= chat_message_views(before).remove(idx as int));
    if let Some(group) = &removed.group_id {
        let was_selected = match c.group_selections.get(group.as_str()) {
            Some(id) => str_eq(id, removed.id.as_str()),
            None => false,
        };
        if was_selected {
            c.group_selections.remove(group.as_str());
        }
    }
    Ok(c)
}

/// Deletes an answer; `context` is the context that was estimated for the conversation
/// without it.
pub fn chat_delete_message(
    conversation: Conversation,
    message_id: &str,
    context: Result<ConversationContextState, String>,
    now: i64,
) -> (r: Result<Conversation, String>)
    ensures
        conversation_result(r) == settled(
            without_answer(conversation@, message_id@),
            context_result(context),
            now,
        ),
{
    match remove_answer(conversation, message_id) {
        Err(e) => Err(e),
        Ok(c) => match context {
            Err(e) => Err(e),
            Ok(state) => Ok(settle_change_at(c, state, now)),
        },
    }
}

/// Where every message has an identifier of its own, a selection that named a
/// message still names one after a message was deleted.
pub proof fn law_deleting_leaves_no_dangling_selection(
    c: ConversationView,
    message_id: Seq<char>,
    context: Result<ContextView, Seq<char>>,
    now: i64,
    g: Seq<char>,
)
    requires
        forall|i: int, j: int|
            0 <= i < j < c.messages.len() ==> c.messages[i].id != c.messages[j].id,
        settled(without_answer(c, message_id), context, now) is Ok,
        c.group_selections.dom().contains(g),
        message_index(c.messages, c.group_selections[g], 0) matches Some(k)
            && c.messages[k].group_id == Some(g),
        settled(without_answer(c, message_id), context, now)->Ok_0.group_selections.dom().contains(
            g,
        ),
    ensures
        message_index(
            settled(without_answer(c, message_id), context, now)->Ok_0.messages,
            settled(without_answer(c, message_id), context, now)->Ok_0.group_selections[g],
            0,
        ) is Some,
{
    let r = settled(without_answer(c, message_id), context, now)->Ok_0;
    lemma_message_index(c.messages, message_id, 0);
    let idx = message_index(c.messages, message_id, 0)->0;
    let chosen = c.group_selections[g];
    lemma_message_index(c.messages, chosen, 0);
    let k = message_index(c.messages, chosen, 0)->0;
    assert(k != idx);
    lemma_message_index(r.messages, chosen, 0);
    if k < idx {
        assert(r.messages[k] == c.messages[k]);
    } else {
        assert(r.messages[k - 1] == c.messages[k]);
    }
}

// ---------------------------------------------------------------------
// Branching off
// ---------------------------------------------------------------------

/// Another answer of a group.
pub open spec fn sibling(m: ChatMessageView, group: Seq<char>, anchor_id: Seq<char>) -> bool {
    m.role == "assistant"@ && m.group_id == Some(group) && m.id != anchor_id
}

/// The messages without the other answers of a group.
pub open spec fn without_siblings(
    messages: Seq<ChatMessageView>,
    group: Seq<char>,
    anchor_id: Seq<char>,
) -> Seq<ChatMessageView>
    decreases messages.len(),
{
    if messages.len() == 0 {
        Seq::empty()
    } else {
        let before = without_siblings(messages.drop_last(), group, anchor_id);
        if sibling(messages.last(), group, anchor_id) {
            before
        } else {
            before.push(messages.last())
        }
    }
}

/// The messages of a branch: those up to the anchor. Where the anchor is one of
/// several answers of a group, the others go and the anchor becomes a plain
/// answer.
pub open spec fn fork_messages(messages: Seq<ChatMessageView>, anchor_idx: int) -> Seq<
    ChatMessageView,
> {
    let anchor = messages[anchor_idx];
    let prefix = messages.take(anchor_idx + 1);
    match anchor.group_id {
        None => prefix,
        Some(group) => {
            let kept = without_siblings(prefix, group, anchor.id);
            match message_index(kept, anchor.id, 0) {
                Some(i) => kept.update(i, ChatMessageView { group_id: None, ..kept[i] }),
                None => kept,
            }
        },
    }
}

fn copy_without_siblings(messages: &[ChatMessage], n: usize, group: &str, anchor_id: &str) -> (r: Vec<
    ChatMessage,
>)
    requires
        n <= messages@.len(),
    ensures
        chat_message_views(r@) == without_siblings(
            chat_message_views(messages@).take(n as int),
            group@,
            anchor_id@,
        ),
{
    let ghost all = chat_message_views(messages@);
    let mut out: Vec<ChatMessage> = Vec::new();
    let mut i: usize = 0;
    assert(all.take(0) =~= Seq::<ChatMessageView>::empty());
    assert(chat_message_views(out@) =~= Seq::<ChatMessageView>::empty());
    while i < n
        invariant
            i <= n <= messages@.len(),
            all == chat_message_views(messages@),
            chat_message_views(out@) == without_siblings(all.take(i as int), group@, anchor_id@),
        decreases n - i,
    {
        assert(all.take(i + 1).drop_last() =~= all.take(i as int));
        assert(all.take(i + 1).last() == messages@[i as int]@);
        let other = str_eq(messages[i].role.as_str(), "assistant") && opt_is(
            &messages[i].group_id,
            group,
        ) && !str_eq(messages[i].id.as_str(), anchor_id);
        if !other {
            let ghost before = out@;
            let m = messages[i].copy();
            out.push(m);
            assert(chat_message_views(out@) =~= chat_message_views(before).push(m@));
        }
        i += 1;
    }
    out
}

/// The messages of a branch at the message of a place.
pub fn build_fork_messages(messages: &[ChatMessage], anchor_idx: usize) -> (r: Vec<ChatMessage>)
    requires
        anchor_idx < messages@.len(),
    ensures
        chat_message_views(r@) == fork_messages(chat_message_views(messages@), anchor_idx as int),
{
    let count: usize = messages.len();
    assert(anchor_idx < count);
    let ghost all = chat_message_views(messages@);
    assert(all[anchor_idx as int] == messages@[anchor_idx as int]@);
    match &messages[anchor_idx].group_id {
        None => {
            let mut out: Vec<ChatMessage> = Vec::new();
            let mut i: usize = 0;
            while i < anchor_idx + 1
                invariant
                    anchor_idx < messages@.len() == count,
                    i <= anchor_idx + 1,
                    out@.len() == i,
                    forall|j: int| 0 <= j < i ==> (#[trigger] out@[j])@ == messages@[j]@,
                decreases anchor_idx + 1 - i,
            {
                out.push(messages[i].copy());
                i += 1;
            }
            assert(chat_message_views(out@) =~= all.take(anchor_idx + 1));
            out
        },
        Some(group) => {
            let anchor_id = messages[anchor_idx].id.as_str();
            let mut out = copy_without_siblings(
                messages,
                anchor_idx + 1,
                group.as_str(),
                anchor_id,
            );
            if let Some(i) = find_message(&out, anchor_id) {
                let ghost before = out@;
                assert(chat_message_views(out@)[i as int] == out@[i as int]@);
                let mut m = out[i].copy();
                m.group_id = None;
                out.set(i, m);
                assert(chat_message_views(out@) =~= chat_message_views(before).update(
                    i as int,
                    m@,
                ));
            }
            out
        },
    }
}

/// A branch ends with its anchor, and no other answer of the anchor's group is in
/// it; the messages of a branch from a plain message are those up to it.
pub proof fn law_branches_end_with_their_anchor(messages: Seq<ChatMessageView>, anchor_idx: int)
    requires
        0 <= anchor_idx < messages.len(),
        forall|i: int, j: int| 0 <= i < j < messages.len() ==> messages[i].id != messages[j].id,
    ensures
        fork_messages(messages, anchor_idx).len() > 0,
        fork_messages(messages, anchor_idx).last() == (ChatMessageView {
            group_id: None,
            ..messages[anchor_idx]
        }),
        messages[anchor_idx].group_id matches Some(g) ==> forall|i: int|
            0 <= i < fork_messages(messages, anchor_idx).len() ==> !sibling(
                #[trigger] fork_messages(messages, anchor_idx)[i],
                g,
                messages[anchor_idx].id,
            ),
{
    let anchor = messages[anchor_idx];
    let prefix = messages.take(anchor_idx + 1);
    if let Some(g) = anchor.group_id {
        lemma_without_siblings(prefix, g, anchor.id);
        let kept = without_siblings(prefix, g, anchor.id);
        assert(prefix.last() == anchor);
        assert(kept.last() == anchor);
        lemma_message_index(kept, anchor.id, 0);
        lemma_kept_ids(prefix, g, anchor.id, anchor.id);
    }
}

proof fn lemma_without_siblings(
    messages: Seq<ChatMessageView>,
    group: Seq<char>,
    anchor_id: Seq<char>,
)
    ensures
        forall|i: int|
            0 <= i < without_siblings(messages, group, anchor_id).len() ==> !sibling(
                #[trigger] without_siblings(messages, group, anchor_id)[i],
                group,
                anchor_id,
            ),
    decreases messages.len(),
{
    if messages.len() > 0 {
        lemma_without_siblings(messages.drop_last(), group, anchor_id);
        let before = without_siblings(messages.drop_last(), group, anchor_id);
        let kept = without_siblings(messages, group, anchor_id);
        assert forall|i: int| 0 <= i < kept.len() implies !sibling(
            #[trigger] kept[i],
            group,
            anchor_id,
        ) by {
            if i < before.len() {
                assert(kept[i] == before[i]);
            }
        }
    }
}

proof fn lemma_kept_ids(
    messages: Seq<ChatMessageView>,
    group: Seq<char>,
    anchor_id: Seq<char>,
    id: Seq<char>,
)
    requires
        messages.len() > 0,
        messages.last().id == id,
        !sibling(messages.last(), group, anchor_id),
        forall|i: int, j: int| 0 <= i < j < messages.len() ==> messages[i].id != messages[j].id,
    ensures
        ({
            let kept = without_siblings(messages, group, anchor_id);
            forall|i: int| 0 <= i < kept.len() - 1 ==> (#[trigger] kept[i]).id != id
        }),
{
    let start = messages.drop_last();
    lemma_kept_from(start, group, anchor_id);
    let before = without_siblings(start, group, anchor_id);
    assert forall|i: int| 0 <= i < before.len() implies (#[trigger] before[i]).id != id by {
        let j = choose|j: int| 0 <= j < start.len() && #[trigger] start[j] == before[i];
        assert(messages[j] == start[j]);
        assert(messages[messages.len() - 1].id == id);
    }
    let kept = without_siblings(messages, group, anchor_id);
    assert forall|i: int| 0 <= i < kept.len() - 1 implies (#[trigger] kept[i]).id != id by {
        assert(kept[i] == before[i]);
    }
}

proof fn lemma_kept_from(messages: Seq<ChatMessageView>, group: Seq<char>, anchor_id: Seq<char>)
    ensures
        ({
            let kept = without_siblings(messages, group, anchor_id);
            forall|i: int|
                0 <= i < kept.len() ==> exists|j: int|
                    0 <= j < messages.len() && #[trigger] messages[j] == #[trigger] kept[i]
        }),
    decreases messages.len(),
{
    if messages.len() > 0 {
        let start = messages.drop_last();
        lemma_kept_from(start, group, anchor_id);
        let before = without_siblings(start, group, anchor_id);
        let kept = without_siblings(messages, group, anchor_id);
        assert forall|i: int| 0 <= i < kept.len() implies exists|j: int|
            0 <= j < messages.len() && #[trigger] messages[j] == #[trigger] kept[i] by {
            if i < before.len() {
                assert(kept[i] == before[i]);
                let j = choose|j: int| 0 <= j < start.len() && #[trigger] start[j] == before[i];
                assert(messages[j] == kept[i]);
            } else {
                assert(messages[messages.len() - 1] == kept[i]);
            }
        }
    }
}

/// The group of the last message with the identifier that belongs to one.
pub open spec fn group_of(messages: Seq<ChatMessageView>, id: Seq<char>) -> Option<Seq<char>>
    decreases messages.len(),
{
    if messages.len() == 0 {
        None
    } else if messages.last().id == id && messages.last().group_id is Some {
        messages.last().group_id
    } else {
        group_of(messages.drop_last(), id)
    }
}

fn has_group(messages: &Vec<ChatMessage>, id: &str, group: &str) -> (r: bool)
    ensures
        r == (group_of(chat_message_views(messages@), id@) == Some(group@)),
{
    let ghost all = chat_message_views(messages@);
    let mut i: usize = messages.len();
    assert(all.take(i as int) =~= all);
    while i > 0
        invariant
            i <= messages@.len(),
            all == chat_message_views(messages@),
            group_of(all, id@) == group_of(all.take(i as int), id@),
        decreases i,
    {
        assert(all.take(i as int).drop_last() =~= all.take(i - 1));
        assert(all.take(i as int).last() == messages@[i - 1]@);
        if str_eq(messages[i - 1].id.as_str(), id) {
            if let Some(g) = &messages[i - 1].group_id {
                return str_eq(g.as_str(), group);
            }
        }
        i -= 1;
    }
    false
}

/// The selections of groups that are still groups in a branch.
pub open spec fn fork_selections(
    selections: Map<Seq<char>, Seq<char>>,
    messages: Seq<ChatMessageView>,
) -> Map<Seq<char>, Seq<char>> {
    Map::new(
        |g: Seq<char>|
            selections.dom().contains(g) && group_of(messages, selections[g]) == Some(g),
        |g: Seq<char>| selections[g],
    )
}

/// The selections of groups that are still groups in a branch.
pub fn keep_fork_selections(selections: &GroupSelections, messages: &Vec<ChatMessage>) -> (r:
    GroupSelections)
    ensures
        r@ == fork_selections(selections@, chat_message_views(messages@)),
{
    let ghost m = selections@;
    let ghost views = chat_message_views(messages@);
    let mut kept = GroupSelections::new();
    let mut i: usize = 0;
    proof {
        lemma_keys(selections.entries@);
    }
    while i < selections.entries.len()
        invariant
            i <= selections.entries@.len(),
            m == selections@,
            views == chat_message_views(messages@),
            forall|g: Seq<char>|
                #[trigger] kept@.dom().contains(g) ==> m.dom().contains(g) && group_of(
                    views,
                    m[g],
                ) == Some(g) && kept@[g] == m[g],
            forall|j: int|
                0 <= j < i ==> (group_of(views, m[(#[trigger] selections.entries@[j]).0@]) == Some(
                    selections.entries@[j].0@,
                ) ==> kept@.dom().contains(selections.entries@[j].0@)),
            forall|j: int|
                0 <= j < selections.entries@.len() ==> m.dom().contains(
                    (#[trigger] selections.entries@[j]).0@,
                ),
        decreases selections.entries@.len() - i,
    {
        let group = selections.entries[i].0.as_str();
        assert(m.dom().contains(selections.entries@[i as int].0@));
        if let Some(id) = selections.get(group) {
            if has_group(messages, id, group) {
                kept.insert(group, id);
            }
        }
        i += 1;
    }
    proof {
        let live = fork_selections(m, views);
        assert forall|g: Seq<char>| #[trigger] live.dom().contains(g) implies kept@.dom().contains(
            g,
        ) by {
            lemma_key_of(selections.entries@, g);
        }
        assert(kept@ =~= live);
    }
    kept
}

/// What the title of a branch ends in.
pub const FORK_SUFFIX: &'static str = "（分支）";

/// The title of a branch, of at most 40 characters.
pub fn fork_title(title: &str) -> (r: String)
    ensures
        r@ == first_chars(title@, 36) + FORK_SUFFIX@,
        r@.len() <= 40,
{
    proof {
        reveal_strlit("（分支）");
    }
    let base = truncate_chars(title, 36);
    concat2(base.as_str(), FORK_SUFFIX)
}

/// The plan of a new conversation.
pub open spec fn new_plan() -> PlanView {
    PlanView {
        mode: AgentPlanMode::Act,
        status: AgentPlanStatus::Empty,
        plan: None,
        updated_at: 0,
    }
}

/// The conversation that branches off at a message.
pub open spec fn forked(
    c: ConversationView,
    message_id: Seq<char>,
    new_id: Seq<char>,
    now: i64,
) -> Result<ConversationView, Seq<char>> {
    match message_index(c.messages, message_id, 0) {
        None => Err("消息不存在"@),
        Some(idx) => {
            let messages = fork_messages(c.messages, idx);
            Ok(
                ConversationView {
                    id: new_id,
                    title: first_chars(c.title, 36) + FORK_SUFFIX@,
                    messages,
                    created_at: now,
                    updated_at: now,
                    pinned: false,
                    context_state: empty_context(),
                    agent_todo_state: JsonView::Null,
                    agent_plan_state: new_plan(),
                    group_selections: fork_selections(c.group_selections, messages),
                    forked_from: Some(
                        ForkView {
                            conversation_id: c.id,
                            message_id: c.messages[idx].id,
                            title: c.title,
                        },
                    ),
                    ..c
                },
            )
        },
    }
}

/// The conversation that branches off at a message. Its settings are those of the
/// conversation that it comes from; its plan, tasks and context are new.
pub fn fork_conversation_with(
    source: &Conversation,
    message_id: &str,
    new_id: String,
    now: i64,
) -> (r: Result<Conversation, String>)
    ensures
        conversation_result(r) == forked(source@, message_id@, new_id@, now),
{
    let idx = match find_message_index(source, message_id) {
        Ok(i) => i,
        Err(e) => {
            return Err(e);
        },
    };
    let messages = build_fork_messages(source.messages.as_slice(), idx);
    let selections = keep_fork_selections(&source.group_selections, &messages);
    assert(source@.messages[idx as int] == source.messages@[idx as int]@);
    let mut c = source.copy();
    c.id = new_id;
    c.title = fork_title(source.title.as_str());
    c.messages = messages;
    c.created_at = now;
    c.updated_at = now;
    c.pinned = false;
    c.context_state = ConversationContextState::default();
    c.agent_todo_state = Json::Null;
    c.agent_plan_state = AgentPlanState::default();
    c.group_selections = selections;
    c.forked_from = Some(
        ForkOrigin {
            conversation_id: source.id.clone(),
            message_id: source.messages[idx].id.clone(),
            title: source.title.clone(),
        },
    );
    Ok(c)
}

/// The identifier of a conversation.
pub open spec fn conversation_id(unique: Seq<char>) -> Seq<char> {
    "conv_"@ + unique
}

/// The conversation that branches off at a message, now.
pub fn chat_fork_conversation(source: &Conversation, message_id: &str) -> (r: Result<
    Conversation,
    String,
>)
    ensures
        exists|unique: Seq<char>, now: i64|
            conversation_result(r) == #[trigger] forked(
                source@,
                message_id@,
                conversation_id(unique),
                now,
            ),
{
    let unique = new_uuid();
    let id = concat2("conv_", unique.as_str());
    let now = now_timestamp();
    let r = fork_conversation_with(source, message_id, id, now);
    assert(conversation_result(r) == forked(
        source@,
        message_id@,
        conversation_id(unique@),
        now,
    ));
    r
}

// ---------------------------------------------------------------------
// Files of a branch
// ---------------------------------------------------------------------

/// The path of an artifact that has one.
pub open spec fn artifact_path(a: ArtifactView) -> Option<Seq<char>> {
    match a.path {
        Some(p) => if p.len() > 0 {
            Some(p)
        } else {
            None
        },
        None => None,
    }
}

/// A path that is the bare name of a file.
pub open spec fn bare(path: Seq<char>) -> bool {
    !path.contains('/') && !path.contains('\\')
}

/// One of the artifacts is kept at the path.
pub open spec fn kept_by_artifacts(artifacts: Seq<ArtifactView>, path: Seq<char>) -> bool {
    exists|i: int| 0 <= i < artifacts.len() && artifact_path(#[trigger] artifacts[i]) == Some(path)
}

/// A message refers to the file at the path.
pub open spec fn refers_to(m: ChatMessageView, path: Seq<char>) -> bool {
    ||| has_attachment(m.attachments, path)
    ||| kept_by_artifacts(m.artifacts, path)
    ||| kept_by_calls(m.tool_calls, path)
}

/// One of the messages refers to the file at the path.
pub open spec fn referred_to(messages: Seq<ChatMessageView>, path: Seq<char>) -> bool {
    exists|i: int| 0 <= i < messages.len() && refers_to(#[trigger] messages[i], path)
}

/// A list of paths that holds exactly those with a property, and none twice.
pub open spec fn lists(names: Seq<Seq<char>>, p: spec_fn(Seq<char>) -> bool) -> bool {
    &&& forall|path: Seq<char>| #[trigger] names.contains(path) <==> p(path) && bare(path)
    &&& names.no_duplicates()
}

fn is_bare(path: &str) -> (r: bool)
    ensures
        r == bare(path@),
{
    !has_char(path, '/') && !has_char(path, '\\')
}

/// Adds a path where it is bare and not there yet.
fn add_name(names: &mut Vec<String>, path: &str)
    requires
        strings(old(names)@).no_duplicates(),
    ensures
        strings(final(names)@).no_duplicates(),
        forall|q: Seq<char>|
            #[trigger] strings(final(names)@).contains(q) <==> strings(old(names)@).contains(q) || (
            q == path@ && bare(path@)),
{
    let ghost before = strings(names@);
    if is_bare(path) && !list_contains(names, path) {
        let ghost kept = names@;
        let name = copy_str(path);
        names.push(name);
        proof {
            let all = strings(names@);
            assert(all =~= before.push(path@));
            assert(all[before.len() as int] == path@);
            assert forall|q: Seq<char>| #[trigger] all.contains(q) <==> before.contains(q) || (q
                == path@ && bare(path@)) by {
                if before.contains(q) {
                    let j = choose|j: int| 0 <= j < before.len() && before[j] == q;
                    assert(all[j] == q);
                }
                if all.contains(q) {
                    let j = choose|j: int| 0 <= j < all.len() && all[j] == q;
                    if j < before.len() {
                        assert(before[j] == q);
                    }
                }
            }
        }
    }
}

fn add_artifact_names(names: &mut Vec<String>, artifacts: &Vec<ChatToolArtifact>)
    requires
        strings(old(names)@).no_duplicates(),
    ensures
        strings(final(names)@).no_duplicates(),
        forall|q: Seq<char>|
            #[trigger] strings(final(names)@).contains(q) <==> strings(old(names)@).contains(q) || (
            kept_by_artifacts(artifact_views(artifacts@), q) && bare(q)),
{
    let ghost before = strings(names@);
    let ghost all = artifact_views(artifacts@);
    let mut i: usize = 0;
    assert(all.take(0) =~= Seq::<ArtifactView>::empty());
    while i < artifacts.len()
        invariant
            i <= artifacts@.len(),
            all == artifact_views(artifacts@),
            strings(names@).no_duplicates(),
            forall|q: Seq<char>|
                #[trigger] strings(names@).contains(q) <==> before.contains(q) || (
                kept_by_artifacts(all.take(i as int), q) && bare(q)),
        decreases artifacts@.len() - i,
    {
        let ghost middle = strings(names@);
        assert(all[i as int] == artifacts@[i as int]@);
        if let Some(path) = &artifacts[i].path {
            if !path.as_str().is_empty() {
                add_name(names, path.as_str());
            }
        }
        proof {
            assert forall|q: Seq<char>| #[trigger] kept_by_artifacts(all.take(i + 1), q) == (
            kept_by_artifacts(all.take(i as int), q) || artifact_path(all[i as int]) == Some(
                q,
            )) by {
                lemma_artifact_step(all, i as int, q);
            }
        }
        i += 1;
    }
    assert(all.take(all.len() as int) =~= all);
}

proof fn lemma_artifact_step(all: Seq<ArtifactView>, i: int, q: Seq<char>)
    requires
        0 <= i < all.len(),
    ensures
        kept_by_artifacts(all.take(i + 1), q) == (kept_by_artifacts(all.take(i), q)
            || artifact_path(all[i]) == Some(q)),
{
    let s = all.take(i);
    let t = all.take(i + 1);
    if kept_by_artifacts(t, q) {
        let j = choose|j: int| 0 <= j < t.len() && artifact_path(#[trigger] t[j]) == Some(q);
        if j < i {
            assert(s[j] == t[j]);
        }
    }
    if kept_by_artifacts(s, q) {
        let j = choose|j: int| 0 <= j < s.len() && artifact_path(#[trigger] s[j]) == Some(q);
        assert(t[j] == s[j]);
    }
    assert(t[i] == all[i]);
}

fn add_attachment_names(names: &mut Vec<String>, attachments: &Vec<Attachment>)
    requires
        strings(old(names)@).no_duplicates(),
    ensures
        strings(final(names)@).no_duplicates(),
        forall|q: Seq<char>|
            #[trigger] strings(final(names)@).contains(q) <==> strings(old(names)@).contains(q) || (
            has_attachment(attachment_views(attachments@), q) && bare(q)),
{
    let ghost before = strings(names@);
    let ghost all = attachment_views(attachments@);
    let mut i: usize = 0;
    assert(all.take(0) =~= Seq::<AttachmentView>::empty());
    while i < attachments.len()
        invariant
            i <= attachments@.len(),
            all == attachment_views(attachments@),
            strings(names@).no_duplicates(),
            forall|q: Seq<char>|
                #[trigger] strings(names@).contains(q) <==> before.contains(q) || (has_attachment(
                    all.take(i as int),
                    q,
                ) && bare(q)),
        decreases attachments@.len() - i,
    {
        assert(all[i as int] == attachments@[i as int]@);
        if !attachments[i].path.as_str().is_empty() {
            add_name(names, attachments[i].path.as_str());
        }
        proof {
            assert forall|q: Seq<char>| #[trigger] has_attachment(all.take(i + 1), q) == (has_attachment(
                all.take(i as int),
                q,
            ) || (all[i as int].path == q && q.len() > 0)) by {
                lemma_attachment_step(all, i as int, q);
            }
        }
        i += 1;
    }
    assert(all.take(all.len() as int) =~= all);
}

/// One of the attachments is kept at the path.
pub open spec fn has_attachment(attachments: Seq<AttachmentView>, path: Seq<char>) -> bool {
    exists|i: int|
        0 <= i < attachments.len() && (#[trigger] attachments[i]).path == path && path.len() > 0
}

proof fn lemma_attachment_step(all: Seq<AttachmentView>, i: int, q: Seq<char>)
    requires
        0 <= i < all.len(),
    ensures
        has_attachment(all.take(i + 1), q) == (has_attachment(all.take(i), q) || (all[i].path == q
            && q.len() > 0)),
{
    let s = all.take(i);
    let t = all.take(i + 1);
    if has_attachment(t, q) {
        let j = choose|j: int| 0 <= j < t.len() && (#[trigger] t[j]).path == q && q.len() > 0;
        if j < i {
            assert(s[j] == t[j]);
        }
    }
    if has_attachment(s, q) {
        let j = choose|j: int| 0 <= j < s.len() && (#[trigger] s[j]).path == q && q.len() > 0;
        assert(t[j] == s[j]);
    }
    assert(t[i] == all[i]);
}

/// One of the tool calls has an artifact that is kept at the path.
pub open spec fn kept_by_calls(calls: Seq<ToolRecordView>, path: Seq<char>) -> bool {
    exists|i: int|
        0 <= i < calls.len() && kept_by_artifacts((#[trigger] calls[i]).artifacts, path)
}

proof fn lemma_call_step(all: Seq<ToolRecordView>, i: int, q: Seq<char>)
    requires
        0 <= i < all.len(),
    ensures
        kept_by_calls(all.take(i + 1), q) == (kept_by_calls(all.take(i), q) || kept_by_artifacts(
            all[i].artifacts,
            q,
        )),
{
    let s = all.take(i);
    let t = all.take(i + 1);
    if kept_by_calls(t, q) {
        let j = choose|j: int|
            0 <= j < t.len() && kept_by_artifacts((#[trigger] t[j]).artifacts, q);
        if j < i {
            assert(s[j] == t[j]);
        }
    }
    if kept_by_calls(s, q) {
        let j = choose|j: int|
            0 <= j < s.len() && kept_by_artifacts((#[trigger] s[j]).artifacts, q);
        assert(t[j] == s[j]);
    }
    assert(t[i] == all[i]);
}

fn add_call_names(names: &mut Vec<String>, calls: &Vec<ToolCallRecord>)
    requires
        strings(old(names)@).no_duplicates(),
    ensures
        strings(final(names)@).no_duplicates(),
        forall|q: Seq<char>|
            #[trigger] strings(final(names)@).contains(q) <==> strings(old(names)@).contains(q) || (
            kept_by_calls(tool_record_views(calls@), q) && bare(q)),
{
    let ghost before = strings(names@);
    let ghost all = tool_record_views(calls@);
    let mut i: usize = 0;
    assert(all.take(0) =~= Seq::<ToolRecordView>::empty());
    while i < calls.len()
        invariant
            i <= calls@.len(),
            all == tool_record_views(calls@),
            strings(names@).no_duplicates(),
            forall|q: Seq<char>|
                #[trigger] strings(names@).contains(q) <==> before.contains(q) || (kept_by_calls(
                    all.take(i as int),
                    q,
                ) && bare(q)),
        decreases calls@.len() - i,
    {
        assert(all[i as int] == calls@[i as int]@);
        add_artifact_names(names, &calls[i].artifacts);
        proof {
            assert forall|q: Seq<char>| #[trigger] kept_by_calls(all.take(i + 1), q) == (kept_by_calls(
                all.take(i as int),
                q,
            ) || kept_by_artifacts(all[i as int].artifacts, q)) by {
                lemma_call_step(all, i as int, q);
            }
        }
        i += 1;
    }
    assert(all.take(all.len() as int) =~= all);
}

/// The files that a branch needs a copy of: every bare name that one of its
/// messages refers to, once.
pub fn forked_file_names(messages: &Vec<ChatMessage>) -> (r: Vec<String>)
    ensures
        lists(
            strings(r@),
            |path: Seq<char>| referred_to(chat_message_views(messages@), path),
        ),
{
    let ghost all = chat_message_views(messages@);
    let mut names: Vec<String> = Vec::new();
    let mut i: usize = 0;
    assert(all.take(0) =~= Seq::<ChatMessageView>::empty());
    while i < messages.len()
        invariant
            i <= messages@.len(),
            all == chat_message_views(messages@),
            strings(names@).no_duplicates(),
            forall|q: Seq<char>|
                #[trigger] strings(names@).contains(q) <==> referred_to(all.take(i as int), q)
                    && bare(q),
        decreases messages@.len() - i,
    {
        let m = &messages[i];
        assert(all[i as int] == m@);
        add_attachment_names(&mut names, &m.attachments);
        add_artifact_names(&mut names, &m.artifacts);
        add_call_names(&mut names, &m.tool_calls);
        proof {
            assert forall|q: Seq<char>| #[trigger] referred_to(all.take(i + 1), q) == (referred_to(
                all.take(i as int),
                q,
            ) || refers_to(all[i as int], q)) by {
                lemma_refer_step(all, i as int, q);
            }
        }
        i += 1;
    }
    assert(all.take(all.len() as int) =~= all);
    names
}

proof fn lemma_refer_step(all: Seq<ChatMessageView>, i: int, q: Seq<char>)
    requires
        0 <= i < all.len(),
    ensures
        referred_to(all.take(i + 1), q) == (referred_to(all.take(i), q) || refers_to(all[i], q)),
{
    let s = all.take(i);
    let t = all.take(i + 1);
    if referred_to(t, q) {
        let j = choose|j: int| 0 <= j < t.len() && refers_to(#[trigger] t[j], q);
        if j < i {
            assert(s[j] == t[j]);
        }
    }
    if referred_to(s, q) {
        let j = choose|j: int| 0 <= j < s.len() && refers_to(#[trigger] s[j], q);
        assert(t[j] == s[j]);
    }
    assert(t[i] == all[i]);
}

// ---------------------------------------------------------------------
// Settings of a conversation
// ---------------------------------------------------------------------

/// What is to change of a conversation; what is not given stays.
#[derive(Debug)]
pub struct ConversationChange {
    pub title: Option<String>,
    pub pinned: Option<bool>,
    pub folder: Option<String>,
    pub project_id: Option<String>,
    pub set_id: Option<String>,
    pub provider_id: Option<String>,
    pub model: Option<String>,
    pub active_skill_id: Option<String>,
    pub assistant_id: Option<String>,
    pub knowledge_base_ids: Option<Vec<String>>,
    pub force_knowledge_search: Option<bool>,
    pub thinking_level: Option<String>,
    pub reply_models: Option<Vec<ModelRef>>,
}

/// What was found of the things that a change names: the project of the folder's
/// name, the project with its name, the set, and the assistant with its snapshot.
#[derive(Debug)]
pub struct Found {
    pub folder_project: Result<Option<String>, String>,
    pub project: Result<(String, String), String>,
    pub set: Result<String, String>,
    pub assistant: Result<(String, Json), String>,
}

/// A text that is not blank, trimmed.
pub open spec fn filled(t: Option<Seq<char>>) -> Option<Seq<char>> {
    match t {
        Some(s) => if is_blank_text(s) {
            None
        } else {
            Some(trimmed(s))
        },
        None => None,
    }
}

/// A text that is not blank, trimmed.
pub fn fill(t: &Option<String>) -> (r: Option<String>)
    ensures
        opt_text(r) == filled(opt_text(*t)),
{
    match t {
        Some(s) => if is_blank(s.as_str()) {
            None
        } else {
            Some(trim(s.as_str()))
        },
        None => None,
    }
}

/// The title and whether the conversation is pinned.
pub open spec fn with_title(c: ConversationView, title: Option<Seq<char>>, pinned: Option<bool>) -> ConversationView {
    ConversationView {
        title: match title {
            Some(t) => t,
            None => c.title,
        },
        pinned: match pinned {
            Some(p) => p,
            None => c.pinned,
        },
        ..c
    }
}

/// The folder, and with it the project of its name.
pub open spec fn with_folder(
    c: ConversationView,
    folder: Option<Seq<char>>,
    found: Result<Option<Seq<char>>, Seq<char>>,
) -> Result<ConversationView, Seq<char>> {
    match folder {
        None => Ok(c),
        Some(_) => match filled(folder) {
            None => Ok(ConversationView { folder: None, project_id: None, ..c }),
            Some(name) => match found {
                Err(e) => Err(e),
                Ok(id) => Ok(ConversationView { folder: Some(name), project_id: id, ..c }),
            },
        },
    }
}

/// The project, and with it the folder of its name; a conversation of a project is
/// in no set.
pub open spec fn with_project(
    c: ConversationView,
    project_id: Option<Seq<char>>,
    found: Result<(Seq<char>, Seq<char>), Seq<char>>,
) -> Result<ConversationView, Seq<char>> {
    match project_id {
        None => Ok(c),
        Some(_) => match filled(project_id) {
            None => Ok(ConversationView { project_id: None, folder: None, ..c }),
            Some(_) => match found {
                Err(e) => Err(e),
                Ok((id, name)) => Ok(
                    ConversationView {
                        project_id: Some(id),
                        folder: Some(name),
                        set_id: None,
                        ..c
                    },
                ),
            },
        },
    }
}

/// The set; a conversation of a set is in no project and no folder.
pub open spec fn with_set(
    c: ConversationView,
    set_id: Option<Seq<char>>,
    found: Result<Seq<char>, Seq<char>>,
) -> Result<ConversationView, Seq<char>> {
    match set_id {
        None => Ok(c),
        Some(_) => match filled(set_id) {
            None => Ok(ConversationView { set_id: None, ..c }),
            Some(_) => match found {
                Err(e) => Err(e),
                Ok(id) => Ok(
                    ConversationView { set_id: Some(id), project_id: None, folder: None, ..c },
                ),
            },
        },
    }
}

/// The provider, the model and the skill.
pub open spec fn with_model(
    c: ConversationView,
    provider_id: Option<Seq<char>>,
    model: Option<Seq<char>>,
    skill_id: Option<Seq<char>>,
) -> ConversationView {
    ConversationView {
        provider_id: match provider_id {
            Some(p) => p,
            None => c.provider_id,
        },
        model: match model {
            Some(m) => m,
            None => c.model,
        },
        active_skill_id: match skill_id {
            Some(_) => filled(skill_id),
            None => c.active_skill_id,
        },
        ..c
    }
}

/// The assistant; with another assistant no skill is active.
pub open spec fn with_assistant(
    c: ConversationView,
    assistant_id: Option<Seq<char>>,
    found: Result<(Seq<char>, JsonView), Seq<char>>,
) -> Result<ConversationView, Seq<char>> {
    match assistant_id {
        None => Ok(c),
        Some(_) => match filled(assistant_id) {
            None => Ok(
                ConversationView {
                    assistant_id: None,
                    assistant_snapshot: None,
                    active_skill_id: None,
                    ..c
                },
            ),
            Some(_) => match found {
                Err(e) => Err(e),
                Ok((id, snapshot)) => Ok(
                    ConversationView {
                        assistant_id: Some(id),
                        assistant_snapshot: Some(snapshot),
                        active_skill_id: None,
                        ..c
                    },
                ),
            },
        },
    }
}

/// The texts, trimmed, without blank ones, each where it comes first.
pub open spec fn distinct_texts(texts: Seq<Seq<char>>) -> Seq<Seq<char>>
    decreases texts.len(),
{
    if texts.len() == 0 {
        Seq::empty()
    } else {
        let before = distinct_texts(texts.drop_last());
        let t = trimmed(texts.last());
        if t.len() == 0 || before.contains(t) {
            before
        } else {
            before.push(t)
        }
    }
}

fn list_distinct_texts(texts: &Vec<String>) -> (r: Vec<String>)
    ensures
        strings(r@) == distinct_texts(strings(texts@)),
{
    let ghost all = strings(texts@);
    let mut out: Vec<String> = Vec::new();
    let mut i: usize = 0;
    assert(all.take(0) =~= Seq::<Seq<char>>::empty());
    assert(strings(out@) =~= Seq::<Seq<char>>::empty());
    while i < texts.len()
        invariant
            i <= texts@.len(),
            all == strings(texts@),
            strings(out@) == distinct_texts(all.take(i as int)),
        decreases texts@.len() - i,
    {
        assert(all.take(i + 1).drop_last() =~= all.take(i as int));
        assert(all.take(i + 1).last() == texts@[i as int]@);
        let t = trim(texts[i].as_str());
        if !t.as_str().is_empty() && !list_contains(&out, t.as_str()) {
            let ghost before = out@;
            out.push(t);
            assert(strings(out@) =~= strings(before).push(t@));
        }
        i += 1;
    }
    assert(all.take(all.len() as int) =~= all);
    out
}

/// What tells models of providers apart.
pub open spec fn model_key(m: ModelRefView) -> Seq<char> {
    m.provider_id + "\u{0}"@ + m.model
}

/// One of the models has the key.
pub open spec fn has_key(models: Seq<ModelRefView>, key: Seq<char>) -> bool {
    exists|i: int| 0 <= i < models.len() && model_key(#[trigger] models[i]) == key
}

/// A model with its names trimmed.
pub open spec fn trimmed_model(m: ModelRefView) -> ModelRefView {
    ModelRefView { provider_id: trimmed(m.provider_id), model: trimmed(m.model) }
}

/// The models, trimmed, without those with a blank name, each where it comes
/// first.
pub open spec fn distinct_models(models: Seq<ModelRefView>) -> Seq<ModelRefView>
    decreases models.len(),
{
    if models.len() == 0 {
        Seq::empty()
    } else {
        let before = distinct_models(models.drop_last());
        let m = trimmed_model(models.last());
        if m.provider_id.len() == 0 || m.model.len() == 0 || has_key(before, model_key(m)) {
            before
        } else {
            before.push(m)
        }
    }
}

/// Whether one of the models has the key of a model.
pub fn holds_model(models: &Vec<ModelRef>, provider_id: &str, model: &str) -> (r: bool)
    ensures
        r == has_key(
            model_ref_views(models@),
            model_key(ModelRefView { provider_id: provider_id@, model: model@ }),
        ),
{
    let key = concat3(provider_id, "\u{0}", model);
    let ghost all = model_ref_views(models@);
    let mut i: usize = 0;
    while i < models.len()
        invariant
            i <= models@.len(),
            all == model_ref_views(models@),
            key@ == model_key(ModelRefView { provider_id: provider_id@, model: model@ }),
            forall|j: int| 0 <= j < i ==> model_key(#[trigger] all[j]) != key@,
        decreases models@.len() - i,
    {
        assert(all[i as int] == models@[i as int]@);
        let other = concat3(models[i].provider_id.as_str(), "\u{0}", models[i].model.as_str());
        if str_eq(other.as_str(), key.as_str()) {
            return true;
        }
        i += 1;
    }
    false
}

fn list_distinct_models(models: &Vec<ModelRef>) -> (r: Vec<ModelRef>)
    ensures
        model_ref_views(r@) == distinct_models(model_ref_views(models@)),
{
    let ghost all = model_ref_views(models@);
    let mut out: Vec<ModelRef> = Vec::new();
    let mut i: usize = 0;
    assert(all.take(0) =~= Seq::<ModelRefView>::empty());
    assert(model_ref_views(out@) =~= Seq::<ModelRefView>::empty());
    while i < models.len()
        invariant
            i <= models@.len(),
            all == model_ref_views(models@),
            model_ref_views(out@) == distinct_models(all.take(i as int)),
        decreases models@.len() - i,
    {
        assert(all.take(i + 1).drop_last() =~= all.take(i as int));
        assert(all.take(i + 1).last() == models@[i as int]@);
        let provider_id = trim(models[i].provider_id.as_str());
        let model = trim(models[i].model.as_str());
        if !provider_id.as_str().is_empty() && !model.as_str().is_empty() && !holds_model(
            &out,
            provider_id.as_str(),
            model.as_str(),
        ) {
            let ghost before = out@;
            let m = ModelRef { provider_id, model };
            out.push(m);
            assert(model_ref_views(out@) =~= model_ref_views(before).push(m@));
        }
        i += 1;
    }
    assert(all.take(all.len() as int) =~= all);
    out
}

/// The known levels of thinking.
pub open spec fn thinking_levels() -> Seq<&'static str> {
    seq!["off", "low", "medium", "high", "xhigh", "max"]
}

/// A known level of thinking.
pub open spec fn known_level(level: Seq<char>) -> Option<Seq<char>> {
    if is_one_of(trimmed(level), thinking_levels()) {
        Some(trimmed(level))
    } else {
        None
    }
}

/// The libraries, the search in them and the level of thinking.
pub open spec fn with_knowledge(
    c: ConversationView,
    ids: Option<Seq<Seq<char>>>,
    force: Option<bool>,
    level: Option<Seq<char>>,
) -> ConversationView {
    ConversationView {
        knowledge_base_ids: match ids {
            Some(v) => distinct_texts(v),
            None => c.knowledge_base_ids,
        },
        force_knowledge_search: match force {
            Some(f) => f,
            None => c.force_knowledge_search,
        },
        thinking_level: match level {
            Some(l) => known_level(l),
            None => c.thinking_level,
        },
        ..c
    }
}

/// The models that answer side by side.
pub open spec fn with_reply_models(c: ConversationView, models: Option<Seq<ModelRefView>>) -> Result<
    ConversationView,
    Seq<char>,
> {
    match models {
        None => Ok(c),
        Some(v) => if v.len() > MAX_REPLY_MODELS {
            Err("多模型并行回答最多同时选择 4 个模型。"@)
        } else {
            Ok(ConversationView { reply_models: distinct_models(v), ..c })
        },
    }
}

/// The texts of a list, where there is one.
pub open spec fn opt_strings(v: Option<Vec<String>>) -> Option<Seq<Seq<char>>> {
    match v {
        Some(s) => Some(strings(s@)),
        None => None,
    }
}

/// The models of a list, where there is one.
pub open spec fn opt_models(v: Option<Vec<ModelRef>>) -> Option<Seq<ModelRefView>> {
    match v {
        Some(m) => Some(model_ref_views(m@)),
        None => None,
    }
}

impl Found {
    /// The project of the folder's name, as a value.
    pub open spec fn folder_project_view(&self) -> Result<Option<Seq<char>>, Seq<char>> {
        match self.folder_project {
            Ok(id) => Ok(opt_text(id)),
            Err(e) => Err(e@),
        }
    }

    /// The project, as a value.
    pub open spec fn project_view(&self) -> Result<(Seq<char>, Seq<char>), Seq<char>> {
        match self.project {
            Ok(p) => Ok((p.0@, p.1@)),
            Err(e) => Err(e@),
        }
    }

    /// The set, as a value.
    pub open spec fn set_view(&self) -> Result<Seq<char>, Seq<char>> {
        match self.set {
            Ok(id) => Ok(id@),
            Err(e) => Err(e@),
        }
    }

    /// The assistant, as a value.
    pub open spec fn assistant_view(&self) -> Result<(Seq<char>, JsonView), Seq<char>> {
        match self.assistant {
            Ok(p) => Ok((p.0@, p.1@)),
            Err(e) => Err(e@),
        }
    }
}

/// The conversation with its place changed: title, folder, project and set.
pub open spec fn with_place(c: ConversationView, change: ConversationChange, found: Found) -> Result<
    ConversationView,
    Seq<char>,
> {
    match with_folder(
        with_title(c, opt_text(change.title), change.pinned),
        opt_text(change.folder),
        found.folder_project_view(),
    ) {
        Err(e) => Err(e),
        Ok(c1) => match with_project(c1, opt_text(change.project_id), found.project_view()) {
            Err(e) => Err(e),
            Ok(c2) => with_set(c2, opt_text(change.set_id), found.set_view()),
        },
    }
}

/// The conversation after a change; the first thing that cannot be found, or that
/// is not allowed, makes the whole change fail.
pub open spec fn updated(
    c: ConversationView,
    change: ConversationChange,
    found: Found,
    now: i64,
) -> Result<ConversationView, Seq<char>> {
    match with_place(c, change, found) {
        Err(e) => Err(e),
        Ok(c1) => match with_assistant(
            with_model(
                c1,
                opt_text(change.provider_id),
                opt_text(change.model),
                opt_text(change.active_skill_id),
            ),
            opt_text(change.assistant_id),
            found.assistant_view(),
        ) {
            Err(e) => Err(e),
            Ok(c2) => match with_reply_models(
                with_knowledge(
                    c2,
                    opt_strings(change.knowledge_base_ids),
                    change.force_knowledge_search,
                    opt_text(change.thinking_level),
                ),
                opt_models(change.reply_models),
            ) {
                Err(e) => Err(e),
                Ok(c3) => Ok(ConversationView { updated_at: now, ..c3 }),
            },
        },
    }
}

fn set_place(c: &mut Conversation, change: &ConversationChange, found: &Found) -> (r: Result<
    (),
    String,
>)
    ensures
        match with_place(old(c)@, *change, *found) {
            Ok(v) => r is Ok && final(c)@ == v,
            Err(e) => r is Err && r->Err_0@ == e,
        },
{
    if let Some(t) = &change.title {
        c.title = t.clone();
    }
    if let Some(p) = change.pinned {
        c.pinned = p;
    }
    if change.folder.is_some() {
        match fill(&change.folder) {
            None => {
                c.folder = None;
                c.project_id = None;
            },
            Some(name) => {
                match &found.folder_project {
                    Err(e) => {
                        return Err(e.clone());
                    },
                    Ok(id) => {
                        c.folder = Some(name);
                        c.project_id = copy_opt(id);
                    },
                }
            },
        }
    }
    if change.project_id.is_some() {
        match fill(&change.project_id) {
            None => {
                c.project_id = None;
                c.folder = None;
            },
            Some(_) => {
                match &found.project {
                    Err(e) => {
                        return Err(e.clone());
                    },
                    Ok(p) => {
                        c.project_id = Some(p.0.clone());
                        c.folder = Some(p.1.clone());
                        c.set_id = None;
                    },
                }
            },
        }
    }
    if change.set_id.is_some() {
        match fill(&change.set_id) {
            None => {
                c.set_id = None;
            },
            Some(_) => {
                match &found.set {
                    Err(e) => {
                        return Err(e.clone());
                    },
                    Ok(id) => {
                        c.set_id = Some(id.clone());
                        c.project_id = None;
                        c.folder = None;
                    },
                }
            },
        }
    }
    Ok(())
}

fn set_answerer(c: &mut Conversation, change: &ConversationChange, found: &Found) -> (r: Result<
    (),
    String,
>)
    ensures
        match with_assistant(
            with_model(
                old(c)@,
                opt_text(change.provider_id),
                opt_text(change.model),
                opt_text(change.active_skill_id),
            ),
            opt_text(change.assistant_id),
            found.assistant_view(),
        ) {
            Ok(v) => r is Ok && final(c)@ == v,
            Err(e) => r is Err && r->Err_0@ == e,
        },
{
    if let Some(p) = &change.provider_id {
        c.provider_id = p.clone();
    }
    if let Some(m) = &change.model {
        c.model = m.clone();
    }
    if change.active_skill_id.is_some() {
        c.active_skill_id = fill(&change.active_skill_id);
    }
    if change.assistant_id.is_some() {
        match fill(&change.assistant_id) {
            None => {
                c.assistant_id = None;
                c.assistant_snapshot = None;
                c.active_skill_id = None;
            },
            Some(_) => {
                match &found.assistant {
                    Err(e) => {
                        return Err(e.clone());
                    },
                    Ok(p) => {
                        c.assistant_id = Some(p.0.clone());
                        c.assistant_snapshot = Some(p.1.copy());
                        c.active_skill_id = None;
                    },
                }
            },
        }
    }
    Ok(())
}

/// The conversation after a change.
pub fn update_conversation_at(
    conversation: Conversation,
    change: &ConversationChange,
    found: &Found,
    now: i64,
) -> (r: Result<Conversation, String>)
    ensures
        conversation_result(r) == updated(conversation@, *change, *found, now),
{
    let mut c = conversation;
    match set_place(&mut c, change, found) {
        Ok(_) => {},
        Err(e) => {
            return Err(e);
        },
    }
    match set_answerer(&mut c, change, found) {
        Ok(_) => {},
        Err(e) => {
            return Err(e);
        },
    }
    if let Some(ids) = &change.knowledge_base_ids {
        c.knowledge_base_ids = list_distinct_texts(ids);
    }
    if let Some(force) = change.force_knowledge_search {
        c.force_knowledge_search = force;
    }
    if let Some(level) = &change.thinking_level {
        let known = ["off", "low", "medium", "high", "xhigh", "max"];
        assert(known@ =~= thinking_levels());
        let t = trim(level.as_str());
        c.thinking_level = if one_of(t.as_str(), &known) {
            Some(t)
        } else {
            None
        };
    }
    if let Some(models) = &change.reply_models {
        assert(model_ref_views(models@).len() == models@.len());
        if models.len() > MAX_REPLY_MODELS {
            return Err(copy_str("多模型并行回答最多同时选择 4 个模型。"));
        }
        c.reply_models = list_distinct_models(models);
    }
    c.updated_at = now;
    Ok(c)
}

/// The conversation after a change, now.
pub fn chat_update_conversation(
    conversation: Conversation,
    change: &ConversationChange,
    found: &Found,
) -> (r: Result<Conversation, String>)
    ensures
        exists|now: i64|
            conversation_result(r) == #[trigger] updated(conversation@, *change, *found, now),
{
    update_conversation_at(conversation, change, found, now_timestamp())
}

/// What a change asks to be looked for: the folder, project, set and assistant.
#[derive(Debug)]
pub struct Lookups {
    pub folder: Option<String>,
    pub project: Option<String>,
    pub set: Option<String>,
    pub assistant: Option<String>,
}

/// What a change asks to be looked for.
pub fn lookups_of(change: &ConversationChange) -> (r: Lookups)
    ensures
        opt_text(r.folder) == filled(opt_text(change.folder)),
        opt_text(r.project) == filled(opt_text(change.project_id)),
        opt_text(r.set) == filled(opt_text(change.set_id)),
        opt_text(r.assistant) == filled(opt_text(change.assistant_id)),
{
    Lookups {
        folder: fill(&change.folder),
        project: fill(&change.project_id),
        set: fill(&change.set_id),
        assistant: fill(&change.assistant_id),
    }
}

/// A conversation that was not in both a set and a project is not in both after a
/// change, unless all that the change says of its place is that a conversation of
/// a set goes into a folder.
pub proof fn law_sets_and_projects_exclude_each_other(
    c: ConversationView,
    change: ConversationChange,
    found: Found,
    now: i64,
)
    requires
        c.set_id is None || (c.project_id is None && c.folder is None),
        !(c.set_id is Some && filled(opt_text(change.folder)) is Some && change.project_id is None
            && change.set_id is None),
    ensures
        updated(c, change, found, now) matches Ok(r) ==> r.set_id is None || (r.project_id is None
            && r.folder is None),
{
}

/// Changing nothing but the time leaves a conversation as it is.
pub proof fn law_empty_changes_change_nothing(
    c: ConversationView,
    change: ConversationChange,
    found: Found,
    now: i64,
)
    requires
        change.title is None,
        change.pinned is None,
        change.folder is None,
        change.project_id is None,
        change.set_id is None,
        change.provider_id is None,
        change.model is None,
        change.active_skill_id is None,
        change.assistant_id is None,
        change.knowledge_base_ids is None,
        change.force_knowledge_search is None,
        change.thinking_level is None,
        change.reply_models is None,
    ensures
        updated(c, change, found, now) == Ok::<ConversationView, Seq<char>>(
            ConversationView { updated_at: now, ..c },
        ),
{
}

/// No model answers twice: the models that answer side by side differ, none has a
/// blank name, and there are no more of them than were given.
pub proof fn law_reply_models_differ(models: Seq<ModelRefView>)
    ensures
        ({
            let d = distinct_models(models);
            &&& d.len() <= models.len()
            &&& forall|i: int|
                0 <= i < d.len() ==> (#[trigger] d[i]).provider_id.len() > 0 && d[i].model.len() > 0
            &&& forall|i: int, j: int|
                0 <= i < j < d.len() ==> model_key(#[trigger] d[i]) != model_key(#[trigger] d[j])
        }),
    decreases models.len(),
{
    if models.len() > 0 {
        law_reply_models_differ(models.drop_last());
        let before = distinct_models(models.drop_last());
        let d = distinct_models(models);
        assert forall|i: int, j: int| 0 <= i < j < d.len() implies model_key(#[trigger] d[i])
            != model_key(#[trigger] d[j]) by {
            assert(d[i] == before[i]);
            if j < before.len() {
                assert(d[j] == before[j]);
            }
        }
        assert forall|i: int| 0 <= i < d.len() implies (#[trigger] d[i]).provider_id.len() > 0
            && d[i].model.len() > 0 by {
            if i < before.len() {
                assert(d[i] == before[i]);
            }
        }
    }
}

// ---------------------------------------------------------------------
// Selecting an answer
// ---------------------------------------------------------------------

/// One of the messages is an answer of the group with the identifier.
pub open spec fn has_answer(messages: Seq<ChatMessageView>, group: Seq<char>, id: Seq<char>) -> bool {
    exists|i: int|
        0 <= i < messages.len() && (#[trigger] messages[i]).id == id && messages[i].role
            == "assistant"@ && messages[i].group_id == Some(group)
}

/// The conversation with an answer of a group selected.
pub open spec fn selecting(c: ConversationView, group_id: Seq<char>, message_id: Seq<char>, now: i64) -> Result<
    ConversationView,
    Seq<char>,
> {
    let g = trimmed(group_id);
    let id = trimmed(message_id);
    if g.len() == 0 || id.len() == 0 {
        Err("group_id 与 message_id 不能为空"@)
    } else if !has_answer(c.messages, g, id) {
        Err("选中的回答不属于该多答组"@)
    } else {
        Ok(
            ConversationView {
                group_selections: c.group_selections.insert(g, id),
                updated_at: now,
                ..c
            },
        )
    }
}

/// Selects the answer of a group that counts.
pub fn set_group_selection_at(
    conversation: Conversation,
    group_id: &str,
    message_id: &str,
    now: i64,
) -> (r: Result<Conversation, String>)
    ensures
        conversation_result(r) == selecting(conversation@, group_id@, message_id@, now),
{
    let mut c = conversation;
    let g = trim(group_id);
    let id = trim(message_id);
    if g.as_str().is_empty() || id.as_str().is_empty() {
        return Err(copy_str("group_id 与 message_id 不能为空"));
    }
    let ghost all = c@.messages;
    let mut valid = false;
    let mut i: usize = 0;
    while i < c.messages.len()
        invariant
            i <= c.messages@.len(),
            all == chat_message_views(c.messages@),
            valid == (exists|j: int|
                0 <= j < i && (#[trigger] all[j]).id == id@ && all[j].role == "assistant"@
                    && all[j].group_id == Some(g@)),
        decreases c.messages@.len() - i,
    {
        assert(all[i as int] == c.messages@[i as int]@);
        if str_eq(c.messages[i].id.as_str(), id.as_str()) && str_eq(
            c.messages[i].role.as_str(),
            "assistant",
        ) && opt_is(&c.messages[i].group_id, g.as_str()) {
            valid = true;
        }
        i += 1;
    }
    if !valid {
        return Err(copy_str("选中的回答不属于该多答组"));
    }
    c.group_selections.insert(g.as_str(), id.as_str());
    c.updated_at = now;
    Ok(c)
}

/// Selects the answer of a group that counts, now.
pub fn chat_set_group_selection(conversation: Conversation, group_id: &str, message_id: &str) -> (r:
    Result<Conversation, String>)
    ensures
        exists|now: i64|
            conversation_result(r) == #[trigger] selecting(
                conversation@,
                group_id@,
                message_id@,
                now,
            ),
{
    set_group_selection_at(conversation, group_id, message_id, now_timestamp())
}

/// Without the other answers of a group, the messages stay in order.
pub proof fn law_branches_keep_the_order(a: Seq<ChatMessageView>, b: Seq<ChatMessageView>, group: Seq<char>, anchor_id: Seq<char>)
    ensures
        without_siblings(a + b, group, anchor_id) == without_siblings(a, group, anchor_id) + without_siblings(b, group, anchor_id),
    decreases b.len(),
{
    if b.len() == 0 {
        assert(a + b =~= a);
        assert(without_siblings(a, group, anchor_id) + without_siblings(b, group, anchor_id) =~= without_siblings(a, group, anchor_id));
    } else {
        law_branches_keep_the_order(a, b.drop_last(), group, anchor_id);
        assert((a + b).drop_last() =~= a + b.drop_last());
        assert((a + b).last() == b.last());
        assert(without_siblings(a + b, group, anchor_id) =~= without_siblings(a, group, anchor_id) + without_siblings(b, group, anchor_id));
    }
}

/// One message stays unless it is another answer of the group.
pub proof fn law_other_answers_are_left_out(
    m: ChatMessageView,
    group: Seq<char>,
    anchor_id: Seq<char>,
)
    ensures
        without_siblings(seq![m], group, anchor_id) == if m.role == "assistant"@ && m.group_id
            == Some(group) && m.id != anchor_id {
            Seq::<ChatMessageView>::empty()
        } else {
            seq![m]
        },
{
    reveal_with_fuel(without_siblings, 2);
    assert(seq![m].drop_last() =~= Seq::<ChatMessageView>::empty());
    assert(seq![m].last() == m);
    assert(without_siblings(seq![m], group, anchor_id) =~= if m.role == "assistant"@ && m.group_id
        == Some(group) && m.id != anchor_id {
        Seq::<ChatMessageView>::empty()
    } else {
        seq![m]
    });
}

/// `idx` is the place of the message with identifier `id`: the first that has it.
pub open spec fn is_place(messages: Seq<ChatMessageView>, id: Seq<char>, idx: int) -> bool {
    &&& 0 <= idx < messages.len()
    &&& messages[idx].id == id
    &&& forall|k: int| 0 <= k < idx ==> (#[trigger] messages[k]).id != id
}

proof fn lemma_roles()
    ensures
        "assistant"@ != "user"@,
{
    reveal_strlit("assistant");
    reveal_strlit("user");
    assert("assistant"@.len() == 9);
    assert("user"@.len() == 4);
}

/// Asking again for an answer keeps the messages before it, all of them and as they are;
/// asking again a question keeps that question too; and asking it with other words puts
/// these in its place. Nothing else of the conversation changes but its context, its
/// selections and the time.
pub proof fn law_regenerating_keeps_what_came_before(
    c: ConversationView,
    message_id: Seq<char>,
    new_content: Option<Seq<char>>,
    now: i64,
    idx: int,
)
    requires
        is_place(c.messages, message_id, idx),
    ensures
        ({
            let r = regenerating(c, message_id, new_content, now);
            let m = c.messages[idx];
            &&& m.role == "assistant"@ && new_content is Some ==> r is Err
            &&& m.role != "assistant"@ && m.role != "user"@ ==> r is Err
            &&& m.role == "assistant"@ && new_content is None ==> (r is Ok <==> idx > 0
                && c.messages[idx - 1].role == "user"@)
            &&& m.role == "assistant"@ && r is Ok ==> r->Ok_0.messages == c.messages.take(idx)
            &&& m.role == "user"@ && new_content is None ==> r is Ok && r->Ok_0.messages
                == c.messages.take(idx + 1)
            &&& m.role == "user"@ && new_content is Some ==> (r is Ok <==> !is_blank_text(
                new_content->0,
            ))
            &&& m.role == "user"@ && new_content is Some && r is Ok ==> r->Ok_0.messages.len()
                == idx + 1 && r->Ok_0.messages.take(idx) == c.messages.take(idx)
                && r->Ok_0.messages[idx] == (ChatMessageView {
                content: trimmed(new_content->0),
                timestamp: now,
                ..m
            })
            &&& r is Ok ==> r->Ok_0.updated_at == now && r->Ok_0 == (ConversationView {
                messages: r->Ok_0.messages,
                context_state: r->Ok_0.context_state,
                group_selections: r->Ok_0.group_selections,
                updated_at: now,
                ..c
            })
        }),
{
    lemma_roles();
    crate::conversation::law_messages_are_found_by_id(c.messages, message_id, 0, idx);
    let r = regenerating(c, message_id, new_content, now);
    let m = c.messages[idx];
    if idx > 0 {
        assert(c.messages.take(idx).last() == c.messages[idx - 1]);
    }
    assert(c.messages.take(idx + 1).last() == m);
    if r is Ok {
        if new_content is Some {
            assert(r->Ok_0.messages.take(idx) =~= c.messages.take(idx));
        }
        assert(r->Ok_0 =~= (ConversationView {
            messages: r->Ok_0.messages,
            context_state: r->Ok_0.context_state,
            group_selections: r->Ok_0.group_selections,
            updated_at: now,
            ..c
        }));
    }
}

/// A selection stays exactly where the answer that it names is still there.
pub proof fn law_live_selections_stay(
    selections: Map<Seq<char>, Seq<char>>,
    messages: Seq<ChatMessageView>,
    g: Seq<char>,
)
    ensures
        selected(live_selections(selections, messages), g) == if selections.dom().contains(g) && (
        exists|i: int| 0 <= i < messages.len() && (#[trigger] messages[i]).id == selections[g]) {
            Some(selections[g])
        } else {
            None
        },
{
    if selections.dom().contains(g) {
        lemma_message_index(messages, selections[g], 0);
    }
}

/// Deleting an answer takes out that message and no other, and only an answer can be
/// deleted; its group loses its selection where it was the one selected.
pub proof fn law_deleting_takes_out_one_answer(
    c: ConversationView,
    message_id: Seq<char>,
    idx: int,
    g: Seq<char>,
)
    requires
        is_place(c.messages, message_id, idx),
    ensures
        ({
            let r = without_answer(c, message_id);
            let m = c.messages[idx];
            &&& r is Ok <==> m.role == "assistant"@
            &&& r is Ok ==> r->Ok_0.messages == c.messages.take(idx) + c.messages.skip(idx + 1)
            &&& r is Ok ==> selected(r->Ok_0.group_selections, g) == if m.group_id == Some(g)
                && selected(c.group_selections, g) == Some(m.id) {
                None
            } else {
                selected(c.group_selections, g)
            }
            &&& r is Ok ==> r->Ok_0 == (ConversationView {
                messages: r->Ok_0.messages,
                context_state: r->Ok_0.context_state,
                group_selections: r->Ok_0.group_selections,
                ..c
            })
        }),
{
    crate::conversation::law_messages_are_found_by_id(c.messages, message_id, 0, idx);
    let r = without_answer(c, message_id);
    if r is Ok {
        assert(r->Ok_0.messages =~= c.messages.take(idx) + c.messages.skip(idx + 1));
        assert(r->Ok_0 =~= (ConversationView {
            messages: r->Ok_0.messages,
            context_state: r->Ok_0.context_state,
            group_selections: r->Ok_0.group_selections,
            ..c
        }));
    }
}

/// Editing an answer puts the edited message in its place and leaves the others; only an
/// answer can be edited, and not to nothing.
pub proof fn law_editing_changes_one_answer(
    c: ConversationView,
    message_id: Seq<char>,
    content: Seq<char>,
    message: ChatMessageView,
    edited_at: i64,
    idx: int,
    j: int,
)
    requires
        is_place(c.messages, message_id, idx),
        0 <= j < c.messages.len(),
    ensures
        ({
            let r = with_edited(c, message_id, content, message, edited_at);
            let begun = editing(c, message_id, content, edited_at);
            &&& r is Ok <==> !is_blank_text(content) && c.messages[idx].role == "assistant"@
            &&& r is Ok <==> begun is Ok
            &&& r is Ok ==> begun->Ok_0.1 == idx && begun->Ok_0.2 == trimmed(content)
            &&& r is Ok ==> r->Ok_0.messages.len() == c.messages.len()
            &&& r is Ok && j != idx ==> r->Ok_0.messages[j] == c.messages[j]
            &&& r is Ok ==> r->Ok_0.messages[idx] == (ChatMessageView {
                timestamp: edited_at,
                ..message
            })
            &&& r is Ok ==> r->Ok_0.title == c.title && r->Ok_0.id == c.id
                && r->Ok_0.group_selections == c.group_selections && r->Ok_0.model == c.model
        }),
{
    crate::conversation::law_messages_are_found_by_id(c.messages, message_id, 0, idx);
}

/// A change that is settled takes the context that was estimated, and the time; without
/// either there is an error.
pub proof fn law_settling_takes_the_context(
    changed: Result<ConversationView, Seq<char>>,
    context: Result<ContextView, Seq<char>>,
    now: i64,
)
    ensures
        settled(changed, context, now) is Ok <==> changed is Ok && context is Ok,
        changed is Err ==> settled(changed, context, now) == changed,
        settled(changed, context, now) is Ok ==> settled(changed, context, now)->Ok_0.context_state
            == context->Ok_0 && settled(changed, context, now)->Ok_0.updated_at == now && settled(
            changed,
            context,
            now,
        )->Ok_0.messages == changed->Ok_0.messages && settled(
            changed,
            context,
            now,
        )->Ok_0.group_selections == changed->Ok_0.group_selections && settled(
            changed,
            context,
            now,
        )->Ok_0.title == changed->Ok_0.title,
{
}

/// A branch off a message holds the messages up to it: all of them where it is in no
/// group, and else all but the other answers of its group. It is a new conversation that
/// knows where it comes from and keeps the settings of the old one.
pub proof fn law_branches_hold_what_led_to_them(
    c: ConversationView,
    message_id: Seq<char>,
    new_id: Seq<char>,
    now: i64,
    idx: int,
)
    requires
        is_place(c.messages, message_id, idx),
    ensures
        ({
            let r = forked(c, message_id, new_id, now);
            &&& r is Ok
            &&& c.messages[idx].group_id is None ==> r->Ok_0.messages == c.messages.take(idx + 1)
            &&& c.messages[idx].group_id is Some ==> r->Ok_0.messages.len() == without_siblings(
                c.messages.take(idx + 1),
                c.messages[idx].group_id->0,
                message_id,
            ).len()
            &&& r->Ok_0.id == new_id
            &&& r->Ok_0.created_at == now && r->Ok_0.updated_at == now && !r->Ok_0.pinned
            &&& r->Ok_0.forked_from is Some && (r->Ok_0.forked_from->0).conversation_id == c.id && (
            r->Ok_0.forked_from->0).message_id == message_id && (r->Ok_0.forked_from->0).title
                == c.title
            &&& r->Ok_0.title.take(first_chars(c.title, 36).len() as int) == first_chars(
                c.title,
                36,
            )
            &&& r->Ok_0.provider_id == c.provider_id && r->Ok_0.model == c.model
                && r->Ok_0.knowledge_base_ids == c.knowledge_base_ids && r->Ok_0.thinking_level
                == c.thinking_level && r->Ok_0.folder == c.folder && r->Ok_0.project_id
                == c.project_id && r->Ok_0.assistant_id == c.assistant_id
                && r->Ok_0.active_skill_id == c.active_skill_id
            &&& r->Ok_0.context_state == empty_context()
        }),
{
    crate::conversation::law_messages_are_found_by_id(c.messages, message_id, 0, idx);
    let r = forked(c, message_id, new_id, now);
    if let Some(g) = c.messages[idx].group_id {
        let kept = without_siblings(c.messages.take(idx + 1), g, message_id);
        lemma_message_index(kept, message_id, 0);
    }
    let head = first_chars(c.title, 36);
    assert((head + FORK_SUFFIX@).take(head.len() as int) =~= head);
}

/// A change sets what it names and leaves what it does not name.
pub proof fn law_changes_set_what_they_name(
    c: ConversationView,
    change: ConversationChange,
    found: Found,
    now: i64,
)
    requires
        updated(c, change, found, now) is Ok,
    ensures
        ({
            let r = updated(c, change, found, now)->Ok_0;
            &&& r.title == match change.title {
                Some(t) => t@,
                None => c.title,
            }
            &&& r.pinned == match change.pinned {
                Some(p) => p,
                None => c.pinned,
            }
            &&& r.provider_id == match change.provider_id {
                Some(t) => t@,
                None => c.provider_id,
            }
            &&& r.model == match change.model {
                Some(t) => t@,
                None => c.model,
            }
            &&& r.force_knowledge_search == match change.force_knowledge_search {
                Some(f) => f,
                None => c.force_knowledge_search,
            }
            &&& change.knowledge_base_ids is None ==> r.knowledge_base_ids == c.knowledge_base_ids
            &&& change.knowledge_base_ids is Some ==> r.knowledge_base_ids == distinct_texts(
                strings((change.knowledge_base_ids->0)@),
            )
            &&& change.reply_models is None ==> r.reply_models == c.reply_models
            &&& change.reply_models is Some ==> r.reply_models == distinct_models(
                model_ref_views((change.reply_models->0)@),
            ) && (change.reply_models->0)@.len() <= 4
            &&& change.thinking_level is None ==> r.thinking_level == c.thinking_level
            &&& change.thinking_level is Some ==> r.thinking_level == known_level(
                (change.thinking_level->0)@,
            )
            &&& change.assistant_id is None ==> r.assistant_id == c.assistant_id
                && r.assistant_snapshot == c.assistant_snapshot
            &&& change.assistant_id is Some && !is_blank_text((change.assistant_id->0)@)
                ==> found.assistant_view() is Ok && r.assistant_id == Some(
                found.assistant_view()->Ok_0.0,
            ) && r.assistant_snapshot == Some(found.assistant_view()->Ok_0.1)
                && r.active_skill_id is None
            &&& change.assistant_id is Some && is_blank_text((change.assistant_id->0)@)
                ==> r.assistant_id is None && r.assistant_snapshot is None
            &&& change.assistant_id is None && change.active_skill_id is None
                ==> r.active_skill_id == c.active_skill_id
            &&& change.assistant_id is None && change.active_skill_id is Some && !is_blank_text(
                (change.active_skill_id->0)@,
            ) ==> r.active_skill_id == Some(trimmed((change.active_skill_id->0)@))
            &&& change.set_id is Some && !is_blank_text((change.set_id->0)@) ==> found.set_view()
                is Ok && r.set_id == Some(found.set_view()->Ok_0) && r.project_id is None
                && r.folder is None
            &&& change.set_id is None && change.project_id is Some && !is_blank_text(
                (change.project_id->0)@,
            ) ==> found.project_view() is Ok && r.project_id == Some(found.project_view()->Ok_0.0)
                && r.folder == Some(found.project_view()->Ok_0.1) && r.set_id is None
            &&& change.set_id is None && change.project_id is None && change.folder is None
                ==> r.folder == c.folder && r.project_id == c.project_id && r.set_id == c.set_id
            &&& change.set_id is None && change.project_id is None && change.folder is Some
                && !is_blank_text((change.folder->0)@) ==> r.folder == Some(
                trimmed((change.folder->0)@),
            ) && found.folder_project_view() is Ok && r.project_id
                == found.folder_project_view()->Ok_0
            &&& r.updated_at == now
            &&& r.id == c.id && r.messages == c.messages && r.created_at == c.created_at
                && r.context_state == c.context_state && r.group_selections == c.group_selections
                && r.agent_plan_state == c.agent_plan_state && r.forked_from == c.forked_from
        }),
{
}

/// A level of thinking is kept where it is one of the known ones.
pub proof fn law_levels_are_known(level: Seq<char>)
    ensures
        known_level(level) is Some <==> trimmed(level) == "off"@ || trimmed(level) == "low"@
            || trimmed(level) == "medium"@ || trimmed(level) == "high"@ || trimmed(level)
            == "xhigh"@ || trimmed(level) == "max"@,
        known_level(level) is Some ==> known_level(level) == Some(trimmed(level)),
{
    let all = thinking_levels();
    let t = trimmed(level);
    assert(all[0]@ == "off"@ && all[1]@ == "low"@ && all[2]@ == "medium"@ && all[3]@ == "high"@
        && all[4]@ == "xhigh"@ && all[5]@ == "max"@);
    if is_one_of(t, all) {
        let i = choose|i: int| 0 <= i < all.len() && t == #[trigger] all[i]@;
        assert(i == 0 || i == 1 || i == 2 || i == 3 || i == 4 || i == 5);
    }
}

/// Distinct texts are the texts without white space around them, each once: every text
/// that is not blank is among them, nothing else is, and they are in the order in which
/// they first come.
pub proof fn law_distinct_texts_are_all_there(texts: Seq<Seq<char>>)
    ensures
        distinct_texts(texts).no_duplicates(),
        forall|i: int|
            0 <= i < texts.len() && !is_blank_text(#[trigger] texts[i]) ==> distinct_texts(
                texts,
            ).contains(trimmed(texts[i])),
        forall|k: int| 0 <= k < distinct_texts(texts).len() ==> comes_from(
            texts,
            #[trigger] distinct_texts(texts)[k],
        ),
        texts.len() > 0 ==> distinct_texts(texts.drop_last()) == distinct_texts(texts).take(
            distinct_texts(texts.drop_last()).len() as int,
        ) && distinct_texts(texts.drop_last()).len() <= distinct_texts(texts).len(),
    decreases texts.len(),
{
    if texts.len() > 0 {
        let front = texts.drop_last();
        law_distinct_texts_are_all_there(front);
        let before = distinct_texts(front);
        let all = distinct_texts(texts);
        let n = texts.len() - 1;
        assert(texts[n] == texts.last());
        assert(all.take(before.len() as int) =~= before);
        assert forall|i: int|
            0 <= i < texts.len() && !is_blank_text(#[trigger] texts[i]) implies all.contains(
            trimmed(texts[i]),
        ) by {
            if i < n {
                assert(front[i] == texts[i]);
                let k = choose|k: int| 0 <= k < before.len() && before[k] == trimmed(texts[i]);
                assert(all[k] == before[k]);
            } else if before.contains(trimmed(texts[i])) {
                assert(all == before);
            } else {
                assert(all.last() == trimmed(texts[i]));
            }
        }
        assert forall|k: int| 0 <= k < all.len() implies comes_from(texts, #[trigger] all[k]) by {
            if k < before.len() {
                assert(all[k] == before[k]);
                assert(comes_from(front, before[k]));
                let i = choose|i: int|
                    0 <= i < front.len() && trimmed(#[trigger] front[i]) == before[k];
                assert(texts[i] == front[i]);
            } else {
                assert(trimmed(texts[n]) == all[k]);
            }
        }
    }
}

/// `t` is one of the texts, without white space around it.
pub open spec fn comes_from(texts: Seq<Seq<char>>, t: Seq<char>) -> bool {
    exists|i: int| 0 <= i < texts.len() && trimmed(#[trigger] texts[i]) == t
}

/// Every model that was given, with a provider and a name, is among those that answer; and
/// models that differ all answer, in the order in which they were given.
pub proof fn law_every_given_model_answers(models: Seq<ModelRefView>)
    ensures
        forall|i: int|
            0 <= i < models.len() && trimmed((#[trigger] models[i]).provider_id).len() > 0
                && trimmed(models[i].model).len() > 0 ==> has_key(
                distinct_models(models),
                model_key(trimmed_model(models[i])),
            ),
        (forall|i: int|
            0 <= i < models.len() ==> trimmed((#[trigger] models[i]).provider_id).len() > 0
                && trimmed(models[i].model).len() > 0) && (forall|i: int, j: int|
            0 <= i < j < models.len() ==> model_key(trimmed_model(#[trigger] models[i]))
                != model_key(trimmed_model(#[trigger] models[j]))) ==> distinct_models(models)
            == Seq::new(models.len(), |i: int| trimmed_model(models[i])),
    decreases models.len(),
{
    if models.len() > 0 {
        let front = models.drop_last();
        law_every_given_model_answers(front);
        let before = distinct_models(front);
        let all = distinct_models(models);
        let n = models.len() - 1;
        assert(models[n] == models.last());
        let m = trimmed_model(models.last());
        assert forall|i: int|
            0 <= i < models.len() && trimmed((#[trigger] models[i]).provider_id).len() > 0
                && trimmed(models[i].model).len() > 0 implies has_key(
            all,
            model_key(trimmed_model(models[i])),
        ) by {
            if i < n {
                assert(front[i] == models[i]);
                let k = choose|k: int|
                    0 <= k < before.len() && model_key(#[trigger] before[k]) == model_key(
                        trimmed_model(models[i]),
                    );
                assert(all[k] == before[k]);
            } else if has_key(before, model_key(m)) {
                assert(all == before);
            } else {
                assert(model_key(all[all.len() - 1]) == model_key(m));
            }
        }
        if (forall|i: int|
            0 <= i < models.len() ==> trimmed((#[trigger] models[i]).provider_id).len() > 0
                && trimmed(models[i].model).len() > 0) && (forall|i: int, j: int|
            0 <= i < j < models.len() ==> model_key(trimmed_model(#[trigger] models[i]))
                != model_key(trimmed_model(#[trigger] models[j]))) {
            assert forall|i: int| 0 <= i < front.len() implies trimmed(
                (#[trigger] front[i]).provider_id,
            ).len() > 0 && trimmed(front[i].model).len() > 0 by {
                assert(front[i] == models[i]);
            }
            assert forall|i: int, j: int| 0 <= i < j < front.len() implies model_key(
                trimmed_model(#[trigger] front[i]),
            ) != model_key(trimmed_model(#[trigger] front[j])) by {
                assert(front[i] == models[i]);
                assert(front[j] == models[j]);
            }
            if has_key(before, model_key(m)) {
                let k = choose|k: int|
                    0 <= k < before.len() && model_key(#[trigger] before[k]) == model_key(m);
                assert(before[k] == trimmed_model(front[k]));
                assert(front[k] == models[k]);
                assert(model_key(trimmed_model(models[k])) != model_key(trimmed_model(models[n])));
            }
            assert(trimmed(models[n].provider_id).len() > 0);
            assert(all =~= Seq::new(models.len(), |i: int| trimmed_model(models[i])));
        }
    } else {
        assert(distinct_models(models) =~= Seq::new(
            models.len(),
            |i: int| trimmed_model(models[i]),
        ));
    }
}

/// An answer is selected for its group, and for no other; only an answer of the group can
/// be.
pub proof fn law_selecting_sets_one_group(
    c: ConversationView,
    group_id: Seq<char>,
    message_id: Seq<char>,
    now: i64,
    other: Seq<char>,
)
    ensures
        ({
            let r = selecting(c, group_id, message_id, now);
            &&& r is Ok <==> !is_blank_text(group_id) && !is_blank_text(message_id) && has_answer(
                c.messages,
                trimmed(group_id),
                trimmed(message_id),
            )
            &&& r is Ok ==> selected(r->Ok_0.group_selections, trimmed(group_id)) == Some(
                trimmed(message_id),
            )
            &&& r is Ok && other != trimmed(group_id) ==> selected(
                r->Ok_0.group_selections,
                other,
            ) == selected(c.group_selections, other)
            &&& r is Ok ==> r->Ok_0.messages == c.messages && r->Ok_0.title == c.title
                && r->Ok_0.updated_at == now
        }),
{
}

/// A selection goes into a branch exactly where the answer that it names is there, in its
/// group.
pub proof fn law_branches_keep_their_selections(
    selections: Map<Seq<char>, Seq<char>>,
    messages: Seq<ChatMessageView>,
    g: Seq<char>,
    i: int,
)
    requires
        0 <= i < messages.len(),
        selections.dom().contains(g),
        messages[i].id == selections[g],
        forall|j: int| 0 <= j < messages.len() && j != i ==> (#[trigger] messages[j]).id
            != selections[g],
    ensures
        selected(fork_selections(selections, messages), g) == if messages[i].group_id == Some(g) {
            Some(selections[g])
        } else {
            None
        },
{
    lemma_group_of(messages, selections[g], i);
}

proof fn lemma_group_of(messages: Seq<ChatMessageView>, id: Seq<char>, i: int)
    requires
        0 <= i < messages.len(),
        messages[i].id == id,
        forall|j: int| 0 <= j < messages.len() && j != i ==> (#[trigger] messages[j]).id != id,
    ensures
        group_of(messages, id) == messages[i].group_id,
    decreases messages.len(),
{
    let front = messages.drop_last();
    let n = messages.len() - 1;
    assert(messages[n] == messages.last());
    if i < n {
        assert(front[i] == messages[i]);
        assert forall|j: int| 0 <= j < front.len() && j != i implies (#[trigger] front[j]).id
            != id by {
            assert(front[j] == messages[j]);
        }
        lemma_group_of(front, id, i);
    } else if messages[i].group_id is None {
        assert forall|j: int| 0 <= j < front.len() implies (#[trigger] front[j]).id != id by {
            assert(front[j] == messages[j]);
        }
        lemma_no_group(front, id);
    }
}

proof fn lemma_no_group(messages: Seq<ChatMessageView>, id: Seq<char>)
    requires
        forall|j: int| 0 <= j < messages.len() ==> (#[trigger] messages[j]).id != id,
    ensures
        group_of(messages, id) is None,
    decreases messages.len(),
{
    if messages.len() > 0 {
        let front = messages.drop_last();
        assert(messages[messages.len() - 1] == messages.last());
        assert forall|j: int| 0 <= j < front.len() implies (#[trigger] front[j]).id != id by {
            assert(front[j] == messages[j]);
        }
        lemma_no_group(front, id);
    }
}

} // verus!
