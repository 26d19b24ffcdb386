//! Titles of conversations.

use vstd::prelude::*;

use crate::json::items_view;
use crate::json::{Json, JsonView};
use crate::model::messages::{object2, str_json};
use crate::model::messages::make_object2;
use crate::model_metadata::makes_images_directly;
use crate::model_metadata::{model_can_generate_images_directly, ModelDatabase};
use crate::settings::ModelProvider;
use crate::text::{
    chars_of, concat2, concat4, is_blank, lines, starts_with, strip_prefix, trim,
    trim_end_set, trim_start_set, truncate_chars,
};
use crate::text::{
    among, first_chars, has_prefix, is_blank_text, lines_of, opt_str, opt_text, strings, strip_back,
    strip_front, trimmed, without_prefix,
};

verus! {

/// A title of at most 30 characters, with dots where the text goes on.
pub open spec fn short_title(content: Seq<char>) -> Seq<char> {
    let t = trimmed(content);
    if t.len() > 30 {
        first_chars(t, 30) + "..."@
    } else {
        t
    }
}

/// A title of at most 30 characters, with dots where the text goes on.
pub fn generate_title(content: &str) -> (r: String)
    ensures
        r@ == short_title(content@),
        r@.len() <= 33,
{
    proof {
        reveal_strlit("...");
    }
    let t = trim(content);
    let n: usize = chars_of(t.as_str()).len();
    if n > 30 {
        let head = truncate_chars(t.as_str(), 30);
        concat2(head.as_str(), "...")
    } else {
        t
    }
}

/// What a model that finds titles is told to be.
pub fn title_summary_system_prompt(language: &str) -> (r: &'static str)
    ensures
        r@ == (if has_prefix(language@, "zh"@) {
            "你只负责为对话生成简洁标题。只输出标题本身，不要解释。"@
        } else {
            "You only generate concise conversation titles. Output only the title, with no explanation."@
        }),
{
    if starts_with(language, "zh") {
        "你只负责为对话生成简洁标题。只输出标题本身，不要解释。"
    } else {
        "You only generate concise conversation titles. Output only the title, with no explanation."
    }
}

/// What a model is asked for a title with: the first turn of the conversation.
pub open spec fn title_prompt(user: Seq<char>, assistant: Seq<char>, language: Seq<char>) -> Seq<char> {
    let u = first_chars(trimmed(user), 1200);
    let a = first_chars(trimmed(assistant), 1200);
    if has_prefix(language, "zh"@) {
        "请根据下面的首轮对话生成一个简洁中文标题。\n要求：只输出标题本身；不要引号；不要句号；不超过 14 个汉字，最多 20 个字符。\n\n用户："@
            + u + "\n\n助手："@ + a
    } else {
        "Create a concise English title for this first chat turn.\nRules: output only the title; no quotes; no period; 3-6 words.\n\nUser: "@
            + u + "\n\nAssistant: "@ + a
    }
}

/// What a model is asked for a title with: the first turn of the conversation.
pub fn build_title_summary_prompt(user_content: &str, assistant_content: &str, language: &str) -> (r:
    String)
    ensures
        r@ == title_prompt(user_content@, assistant_content@, language@),
{
    let user = truncate_chars(trim(user_content).as_str(), 1200);
    let assistant = truncate_chars(trim(assistant_content).as_str(), 1200);
    if starts_with(language, "zh") {
        concat4(
            "请根据下面的首轮对话生成一个简洁中文标题。\n要求：只输出标题本身；不要引号；不要句号；不超过 14 个汉字，最多 20 个字符。\n\n用户：",
            user.as_str(),
            "\n\n助手：",
            assistant.as_str(),
        )
    } else {
        concat4(
            "Create a concise English title for this first chat turn.\nRules: output only the title; no quotes; no period; 3-6 words.\n\nUser: ",
            user.as_str(),
            "\n\nAssistant: ",
            assistant.as_str(),
        )
    }
}

/// The messages that a model is asked for a title with.
pub open spec fn title_messages(user: Seq<char>, assistant: Seq<char>, language: Seq<char>) -> Seq<
    JsonView,
> {
    seq![
        object2(
            "role"@,
            str_json("system"@),
            "content"@,
            str_json(
                if has_prefix(language, "zh"@) {
                    "你只负责为对话生成简洁标题。只输出标题本身，不要解释。"@
                } else {
                    "You only generate concise conversation titles. Output only the title, with no explanation."@
                },
            ),
        ),
        object2(
            "role"@,
            str_json("user"@),
            "content"@,
            str_json(title_prompt(user, assistant, language)),
        ),
    ]
}

/// The messages that a model is asked for a title with; none where the model
/// cannot be asked: it has no key or no name, or makes images instead of texts.
pub fn title_request(
    database: &ModelDatabase,
    provider: &ModelProvider,
    model: &str,
    user_content: &str,
    assistant_content: &str,
    language: &str,
) -> (r: Option<Vec<Json>>)
    ensures
        match r {
            Some(messages) => provider.api_keys@.len() > 0 && !is_blank_text(model@)
                && !makes_images_directly(database@, *provider, model@) && items_view(messages@)
                == title_messages(user_content@, assistant_content@, language@),
            None => provider.api_keys@.len() == 0 || is_blank_text(model@)
                || makes_images_directly(database@, *provider, model@),
        },
{
    if provider.api_keys.len() == 0 || is_blank(model) {
        return None;
    }
    if model_can_generate_images_directly(database, provider, model) {
        return None;
    }
    let prompt = build_title_summary_prompt(user_content, assistant_content, language);
    let mut messages: Vec<Json> = Vec::new();
    messages.push(
        make_object2(
            "role",
            Json::string("system"),
            "content",
            Json::string(title_summary_system_prompt(language)),
        ),
    );
    messages.push(
        make_object2("role", Json::string("user"), "content", Json::string(prompt.as_str())),
    );
    assert(items_view(messages@) =~= title_messages(
        user_content@,
        assistant_content@,
        language@,
    ));
    Some(messages)
}

/// What list items begin with.
pub open spec fn list_marks() -> Seq<char> {
    seq!['-', '*', '•', ' ']
}

/// What surrounds a title: quotes, dots and spaces.
pub open spec fn title_wraps() -> Seq<char> {
    seq!['"', '\'', '`', '“', '”', '‘', '’', '。', '.', ' ']
}

/// A text without what surrounds a title.
pub open spec fn unwrapped(s: Seq<char>) -> Seq<char> {
    strip_back(strip_front(s, among(title_wraps())), among(title_wraps()))
}

fn unwrap_title(s: &str) -> (r: String)
    ensures
        r@ == unwrapped(s@),
{
    let wraps = ['"', '\'', '`', '“', '”', '‘', '’', '。', '.', ' '];
    assert(wraps@ =~= title_wraps());
    let front = trim_start_set(s, &wraps);
    trim_end_set(front.as_str(), &wraps)
}

/// A text without a word in front, then trimmed; the text where the word is not
/// there.
pub open spec fn without_word(s: Seq<char>, word: Seq<char>) -> Seq<char> {
    match without_prefix(s, word) {
        Some(rest) => trimmed(rest),
        None => s,
    }
}

fn drop_word(s: String, word: &str) -> (r: String)
    ensures
        r@ == without_word(s@, word@),
{
    match strip_prefix(s.as_str(), word) {
        Some(rest) => trim(rest.as_str()),
        None => s,
    }
}

/// A text without the words that say that it is a title.
pub open spec fn without_label(s: Seq<char>) -> Seq<char> {
    let s1 = without_word(s, "标题："@);
    let s2 = without_word(s1, "标题:"@);
    let s3 = without_word(s2, "Title:"@);
    let s4 = without_word(s3, "Title："@);
    let s5 = without_word(s4, "title:"@);
    without_word(s5, "title："@)
}

/// The first of the lines, from `from` on, that is not blank, trimmed.
pub open spec fn first_line(text_lines: Seq<Seq<char>>, from: int) -> Option<Seq<char>>
    decreases text_lines.len() - from,
{
    if from < 0 || from >= text_lines.len() {
        None
    } else if is_blank_text(text_lines[from]) {
        first_line(text_lines, from + 1)
    } else {
        Some(trimmed(text_lines[from]))
    }
}

/// The title in what a model wrote: its first line without list marks, quotes,
/// dots and the word for a title.
pub open spec fn title_in(raw: Seq<char>) -> Option<Seq<char>> {
    match first_line(lines_of(trimmed(raw)), 0) {
        None => None,
        Some(line) => {
            let t = unwrapped(without_label(unwrapped(strip_front(line, among(list_marks())))));
            if t.len() == 0 {
                None
            } else {
                Some(short_title(t))
            }
        },
    }
}

/// The title in what a model wrote.
pub fn sanitize_generated_title(raw: &str) -> (r: Option<String>)
    ensures
        opt_text(r) == title_in(raw@),
{
    let text = trim(raw);
    let all = lines(text.as_str());
    let ghost views = strings(all@);
    let mut i: usize = 0;
    while i < all.len()
        invariant
            i <= all@.len(),
            views == strings(all@),
            views == lines_of(trimmed(raw@)),
            first_line(views, 0) == first_line(views, i as int),
        decreases all@.len() - i,
    {
        assert(views[i as int] == all@[i as int]@);
        if !is_blank(all[i].as_str()) {
            let line = trim(all[i].as_str());
            let marks = ['-', '*', '•', ' '];
            assert(marks@ =~= list_marks());
            let bare = trim_start_set(line.as_str(), &marks);
            let t0 = unwrap_title(bare.as_str());
            let t1 = drop_word(t0, "标题：");
            let t2 = drop_word(t1, "标题:");
            let t3 = drop_word(t2, "Title:");
            let t4 = drop_word(t3, "Title：");
            let t5 = drop_word(t4, "title:");
            let t6 = drop_word(t5, "title：");
            let t = unwrap_title(t6.as_str());
            if t.as_str().is_empty() {
                return None;
            }
            return Some(generate_title(t.as_str()));
        }
        i += 1;
    }
    None
}

/// The title of a conversation: what the model found, or the beginning of the
/// first question.
pub fn resolve_conversation_title(reply: Option<&str>, user_content: &str) -> (r: String)
    ensures
        r@ == (match opt_str(reply) {
            Some(raw) => match title_in(raw) {
                Some(t) => t,
                None => short_title(user_content@),
            },
            None => short_title(user_content@),
        }),
{
    let found = match reply {
        Some(raw) => sanitize_generated_title(raw),
        None => None,
    };
    match found {
        Some(t) => t,
        None => generate_title(user_content),
    }
}

/// A title is taken from the first line that is not blank.
pub proof fn law_the_first_line_counts(text_lines: Seq<Seq<char>>, from: int, i: int)
    requires
        0 <= from <= i <= text_lines.len(),
        forall|j: int| from <= j < i ==> !(!is_blank_text(#[trigger] text_lines[j])),
    ensures
        i < text_lines.len() && !is_blank_text(text_lines[i]) ==> first_line(text_lines, from) == Some(trimmed(text_lines[i])),
        i == text_lines.len() ==> first_line(text_lines, from) == None::<Seq<char>>,
    decreases i - from,
{
    if from < i {
        assert(!(!is_blank_text(text_lines[from])));
        law_the_first_line_counts(text_lines, from + 1, i);
    }
}

/// A short title is the text without white space around it, cut after 30 characters; where
/// it is cut, dots say so.
pub proof fn law_short_titles_are_beginnings(content: Seq<char>)
    ensures
        trimmed(content).len() <= 30 ==> short_title(content) == trimmed(content),
        trimmed(content).len() > 30 ==> short_title(content).len() == 33 && short_title(
            content,
        ).take(30) == trimmed(content).take(30) && short_title(content).skip(30) == "..."@,
{
    reveal_strlit("...");
    let t = trimmed(content);
    if t.len() > 30 {
        assert(first_chars(t, 30) =~= t.take(30));
        assert(short_title(content).take(30) =~= t.take(30));
        assert(short_title(content).skip(30) =~= "..."@);
    }
}

/// The prompt for a title holds the beginning of the question and of the answer.
pub proof fn law_the_prompt_holds_both(
    user: Seq<char>,
    assistant: Seq<char>,
    language: Seq<char>,
)
    ensures
        crate::text::has_infix(
            title_prompt(user, assistant, language),
            first_chars(trimmed(user), 1200),
        ),
        crate::text::has_suffix(
            title_prompt(user, assistant, language),
            first_chars(trimmed(assistant), 1200),
        ),
        title_messages(user, assistant, language).len() == 2,
        title_messages(user, assistant, language)[0].field_text("role"@) == Some("system"@),
        title_messages(user, assistant, language)[1].field_text("role"@) == Some("user"@),
        title_messages(user, assistant, language)[1].field_text("content"@) == Some(
            title_prompt(user, assistant, language),
        ),
{
    reveal_strlit("role");
    reveal_strlit("content");
    assert("role"@.len() == 4);
    assert("content"@.len() == 7);
    let p = title_prompt(user, assistant, language);
    let u = first_chars(trimmed(user), 1200);
    let a = first_chars(trimmed(assistant), 1200);
    let n = p.len() - a.len();
    assert(p.subrange(n, p.len() as int) =~= a);
    let zh = has_prefix(language, "zh"@);
    let head = if zh {
        "请根据下面的首轮对话生成一个简洁中文标题。\n要求：只输出标题本身；不要引号；不要句号；不超过 14 个汉字，最多 20 个字符。\n\n用户："@
    } else {
        "Create a concise English title for this first chat turn.\nRules: output only the title; no quotes; no period; 3-6 words.\n\nUser: "@
    };
    let k = head.len() as int;
    assert(p.subrange(k, k + u.len()) =~= u);
    assert(crate::text::occurs_at(p, u, k));
}

/// A plain title is taken as it is: one line, without white space, quotes, marks or a
/// label at its ends.
pub proof fn law_plain_titles_are_taken(t: Seq<char>)
    requires
        0 < t.len() <= 30,
        trimmed(t) == t,
        !t.contains('\n'),
        !list_marks().contains(t[0]),
        !title_wraps().contains(t[0]),
        !title_wraps().contains(t.last()),
        !has_prefix(t, "标题："@),
        !has_prefix(t, "标题:"@),
        !has_prefix(t, "Title:"@),
        !has_prefix(t, "Title："@),
        !has_prefix(t, "title:"@),
        !has_prefix(t, "title："@),
    ensures
        title_in(t) == Some(t),
{
    crate::text::lemma_char_index(t, '\n');
    let i = crate::text::char_index(t, '\n');
    if i < t.len() {
        assert(t.contains(t[i]));
    }
    assert(crate::text::split_on(t, '\n') == seq![t]);
    let ls = lines_of(t);
    let ended = Seq::<Seq<char>>::empty();
    assert(seq![t].last() == t);
    assert(ls.len() == 1 && ls[0] == t) by {
        assert(ls =~= seq![t]);
    }
    law_the_first_line_counts(ls, 0, 0);
    assert(!is_blank_text(t));
    assert(strip_front(t, among(list_marks())) == t);
    assert(unwrapped(t) == t);
    assert(without_label(t) == t);
}

/// Quotes around a title are taken off, and a label before it.
pub proof fn law_labels_are_taken_off(t: Seq<char>)
    requires
        t.len() > 0,
        trimmed(t) == t,
        !title_wraps().contains(t[0]),
        !title_wraps().contains(t.last()),
        !has_prefix(t, "标题："@),
        !has_prefix(t, "标题:"@),
        !has_prefix(t, "Title:"@),
        !has_prefix(t, "Title："@),
        !has_prefix(t, "title:"@),
        !has_prefix(t, "title："@),
    ensures
        without_label("Title:"@ + t) == t,
        unwrapped(seq!['"'] + t + seq!['"']) == t,
{
    reveal_strlit("标题：");
    reveal_strlit("标题:");
    reveal_strlit("Title:");
    let s = "Title:"@ + t;
    assert(s.subrange(0, 6) =~= "Title:"@);
    assert(s.skip(6) =~= t);
    assert(!has_prefix(s, "标题："@)) by {
        if has_prefix(s, "标题："@) {
            assert(s.subrange(0, 3)[0] == '标');
        }
    }
    assert(!has_prefix(s, "标题:"@)) by {
        if has_prefix(s, "标题:"@) {
            assert(s.subrange(0, 3)[0] == '标');
        }
    }
    let q = seq!['"'] + t + seq!['"'];
    let p = among(title_wraps());
    assert(title_wraps()[0] == '"');
    assert(p('"'));
    assert(q.drop_first() =~= t.push('"'));
    assert(strip_front(t.push('"'), p) == t.push('"')) by {
        assert(t.push('"')[0] == t[0]);
    }
    assert(strip_front(q, p) == strip_front(t.push('"'), p));
    assert(t.push('"').drop_last() =~= t);
    assert(strip_back(t, p) == t);
    assert(strip_back(t.push('"'), p) == strip_back(t, p));
}

} // verus!
