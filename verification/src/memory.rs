//! Persistent memory across conversations.
//!
//! Memory has two layers, each one markdown file: L1 is short and goes into
//! every prompt, L2 is long and is read and searched by tools. The functions
//! here take the contents of the files and return what to write; reading and
//! writing the files is the caller's.

use vstd::prelude::*;

use crate::json::{items_view, JsonNumber};
use crate::json::{Json, JsonView, Object};
use crate::text::{
    count_from, decimal, find_back, find_from, fitting, has_any_infix, has_infix, has_prefix,
    has_suffix, is_blank_text, lemma_find_from, lines_of, lower, opt_str, replaced_first, strings,
    trimmed, trimmed_end, trimmed_start, utf8_len, words_of,
};
use crate::text::{
    law_cuts_keep_what_fits, law_lines_keep_what_is_seen, law_one_place_is_counted_once,
    law_trimming_keeps_what_is_seen, law_trimming_takes_white_space, lemma_find_back,
    lemma_visible_blank, lemma_visible_concat, lemma_visible_joined, occurs_at, visible,
    visible_all, white_space,
};
use crate::text::{
    blank_or_punctuation, byte_len, chars_of, concat2, concat3, concat4, concat5, contains,
    contains_any, copy_str, count_matches, decimal_of, ends_with, find_chars, fit_bytes, is_blank,
    lines, replace_first, rfind_chars, split_words, starts_with, str_eq, string_of_range, to_lower,
    trim, trim_end, trim_start,
};
use crate::types::{plain_result, plain_tool_result, McpToolCallResult, ToolResultView};

verus! {

pub const L1_MAX_BYTES: usize = 5_000;

pub const MEMORY_DIR: &'static str = "chat-memory";

pub const L1_FILE: &'static str = "L1.md";

pub const L2_FILE: &'static str = "L2.md";

pub const DEFAULT_L1: &'static str = "# L1 Online Memory\n\n";

pub const DEFAULT_L2: &'static str = "# L2 Long-Term Memory\n\n";

pub const DEFAULT_SEARCH_RESULTS: usize = 5;

pub const MAX_SEARCH_RESULTS: usize = 20;

pub const SNIPPET_MAX_BYTES: usize = 1_200;

pub const HEADING_HIT_WEIGHT: usize = 2;

/// A layer of memory.
#[derive(Debug, Clone, Copy, PartialEq, Eq, Structural)]
pub enum MemoryLayer {
    L1,
    L2,
}

/// The layer that a name stands for, whatever its case and surrounding space.
pub open spec fn layer_of(value: Seq<char>) -> Result<MemoryLayer, Seq<char>> {
    let name = lower(trimmed(value));
    if name == "l1"@ {
        Ok(MemoryLayer::L1)
    } else if name == "l2"@ {
        Ok(MemoryLayer::L2)
    } else {
        Err("Memory layer must be \"l1\" or \"l2\""@)
    }
}

/// A result over the characters of its error.
pub open spec fn text_error<T>(r: Result<T, String>) -> Result<T, Seq<char>> {
    match r {
        Ok(v) => Ok(v),
        Err(e) => Err(e@),
    }
}

impl MemoryLayer {
    /// The layer's name in messages.
    pub open spec fn spec_label(self) -> Seq<char> {
        match self {
            MemoryLayer::L1 => "L1"@,
            MemoryLayer::L2 => "L2"@,
        }
    }

    /// The layer's name in data.
    pub open spec fn spec_name(self) -> Seq<char> {
        lower(self.spec_label())
    }

    /// The layer that a name stands for.
    pub fn from_str(value: &str) -> (r: Result<MemoryLayer, String>)
        ensures
            text_error(r) == layer_of(value@),
    {
        let name = to_lower(trim(value).as_str());
        if str_eq(name.as_str(), "l1") {
            Ok(MemoryLayer::L1)
        } else if str_eq(name.as_str(), "l2") {
            Ok(MemoryLayer::L2)
        } else {
            Err(copy_str("Memory layer must be \"l1\" or \"l2\""))
        }
    }

    /// The name of the layer's file.
    pub fn file_name(self) -> (r: &'static str)
        ensures
            r@ == match self {
                MemoryLayer::L1 => L1_FILE@,
                MemoryLayer::L2 => L2_FILE@,
            },
    {
        match self {
            MemoryLayer::L1 => L1_FILE,
            MemoryLayer::L2 => L2_FILE,
        }
    }

    /// What a new file of the layer holds.
    pub fn default_content(self) -> (r: &'static str)
        ensures
            r@ == match self {
                MemoryLayer::L1 => DEFAULT_L1@,
                MemoryLayer::L2 => DEFAULT_L2@,
            },
    {
        match self {
            MemoryLayer::L1 => DEFAULT_L1,
            MemoryLayer::L2 => DEFAULT_L2,
        }
    }

    /// The layer's name in messages.
    pub fn label(self) -> (r: &'static str)
        ensures
            r@ == self.spec_label(),
    {
        match self {
            MemoryLayer::L1 => "L1",
            MemoryLayer::L2 => "L2",
        }
    }
}

/// A layer as it is shown and edited.
#[derive(Debug)]
pub struct MemoryLayerContent {
    pub layer: String,
    pub content: String,
    pub bytes: usize,
    pub max_bytes: Option<usize>,
}

/// The value of a layer as it is shown.
#[verifier::ext_equal]
pub struct LayerContentView {
    pub layer: Seq<char>,
    pub content: Seq<char>,
    pub bytes: nat,
    pub max_bytes: Option<usize>,
}

impl View for MemoryLayerContent {
    type V = LayerContentView;

    open spec fn view(&self) -> LayerContentView {
        LayerContentView {
            layer: self.layer@,
            content: self.content@,
            bytes: self.bytes as nat,
            max_bytes: self.max_bytes,
        }
    }
}

/// Both layers as they are shown, and where their files are.
#[derive(Debug)]
pub struct ChatMemoryState {
    pub success: bool,
    pub l1: MemoryLayerContent,
    pub l2: MemoryLayerContent,
    pub dir: String,
}

/// The arguments of the tool that changes memory.
#[derive(Debug)]
pub struct MemoryModifyArgs {
    pub layer: String,
    pub operation: String,
    pub content: Option<String>,
    pub old_text: Option<String>,
    pub heading: Option<String>,
    pub archive_mode: Option<String>,
}

/// A layer with the given content as it is shown; only L1 has a limit.
pub open spec fn layer_content(layer: MemoryLayer, content: Seq<char>) -> LayerContentView {
    LayerContentView {
        layer: layer.spec_name(),
        content,
        bytes: utf8_len(content),
        max_bytes: if layer == MemoryLayer::L1 {
            Some(L1_MAX_BYTES)
        } else {
            None
        },
    }
}

/// A layer as it is shown, from what its file holds.
pub fn read_layer(layer: MemoryLayer, content: &str) -> (r: MemoryLayerContent)
    ensures
        r@ == layer_content(layer, content@),
{
    MemoryLayerContent {
        layer: to_lower(layer.label()),
        content: copy_str(content),
        bytes: byte_len(content),
        max_bytes: if layer == MemoryLayer::L1 {
            Some(L1_MAX_BYTES)
        } else {
            None
        },
    }
}

/// Both layers as they are shown, from what their files hold.
pub fn read_all(l1: &str, l2: &str, dir: &str) -> (r: ChatMemoryState)
    ensures
        r.success,
        r.l1@ == layer_content(MemoryLayer::L1, l1@),
        r.l2@ == layer_content(MemoryLayer::L2, l2@),
        r.dir@ == dir@,
{
    ChatMemoryState {
        success: true,
        l1: read_layer(MemoryLayer::L1, l1),
        l2: read_layer(MemoryLayer::L2, l2),
        dir: copy_str(dir),
    }
}

// ---------------------------------------------------------------------
// What memory may hold
// ---------------------------------------------------------------------

/// Texts that point to a credential.
pub open spec fn secret_marks() -> Seq<&'static str> {
    seq![
        "api_key",
        "apikey",
        "secret_key",
        "private key",
        "-----begin",
        "bearer ",
        "password:",
        "passwd:",
        "sk-",
        "ghp_",
        "github_pat_",
    ]
}

/// Texts that point to instructions meant for the model.
pub open spec fn injection_marks() -> Seq<&'static str> {
    seq![
        "ignore previous instructions",
        "ignore all previous instructions",
        "disregard previous instructions",
        "system prompt",
    ]
}

/// Why a text may not enter memory, whatever the layer.
pub open spec fn content_fault(content: Seq<char>) -> Option<Seq<char>> {
    if has_any_infix(lower(content), secret_marks()) {
        Some(
            "Memory content looks like it may contain a secret or credential; save a redacted summary instead."@,
        )
    } else if has_any_infix(lower(content), injection_marks()) {
        Some(
            "Memory content looks like prompt-injection instructions; save neutral facts instead."@,
        )
    } else {
        None
    }
}

/// Why a text may not become the content of a layer.
pub open spec fn layer_fault(layer: MemoryLayer, content: Seq<char>) -> Option<Seq<char>> {
    match content_fault(content) {
        Some(e) => Some(e),
        None => if layer == MemoryLayer::L1 && utf8_len(content) > L1_MAX_BYTES {
            Some(
                "L1 memory is "@ + decimal(utf8_len(content)) + " bytes, over the "@ + decimal(
                    L1_MAX_BYTES as nat,
                ) + " byte limit. Move details to L2 and keep only short active facts in L1."@,
            )
        } else {
            None
        },
    }
}

/// The outcome of a check over the characters of its error.
pub open spec fn fault_of(r: Result<(), String>) -> Option<Seq<char>> {
    match r {
        Ok(_) => None,
        Err(e) => Some(e@),
    }
}

/// Refuses texts that look like a credential or like instructions to the model.
pub fn validate_secret_free(content: &str) -> (r: Result<(), String>)
    ensures
        fault_of(r) == content_fault(content@),
{
    let lowered = to_lower(content);
    let suspicious = [
        "api_key",
        "apikey",
        "secret_key",
        "private key",
        "-----begin",
        "bearer ",
        "password:",
        "passwd:",
        "sk-",
        "ghp_",
        "github_pat_",
    ];
    assert(suspicious@ == secret_marks());
    if contains_any(lowered.as_str(), &suspicious) {
        return Err(
            copy_str(
                "Memory content looks like it may contain a secret or credential; save a redacted summary instead.",
            ),
        );
    }
    let injection_like = [
        "ignore previous instructions",
        "ignore all previous instructions",
        "disregard previous instructions",
        "system prompt",
    ];
    assert(injection_like@ == injection_marks());
    if contains_any(lowered.as_str(), &injection_like) {
        return Err(
            copy_str(
                "Memory content looks like prompt-injection instructions; save neutral facts instead.",
            ),
        );
    }
    Ok(())
}

/// Refuses what may not become the content of a layer.
pub fn validate_memory_content(layer: MemoryLayer, content: &str) -> (r: Result<(), String>)
    ensures
        fault_of(r) == layer_fault(layer, content@),
{
    match validate_secret_free(content) {
        Err(e) => Err(e),
        Ok(_) => {
            let n: usize = byte_len(content);
            if layer == MemoryLayer::L1 && n > L1_MAX_BYTES {
                let size = decimal_of(n as u64);
                let limit = decimal_of(L1_MAX_BYTES as u64);
                Err(
                    concat5(
                        "L1 memory is ",
                        size.as_str(),
                        " bytes, over the ",
                        limit.as_str(),
                        " byte limit. Move details to L2 and keep only short active facts in L1.",
                    ),
                )
            } else {
                Ok(())
            }
        },
    }
}

/// A layer as shown, over the characters of its error.
pub open spec fn layer_result(r: Result<MemoryLayerContent, String>) -> Result<
    LayerContentView,
    Seq<char>,
> {
    match r {
        Ok(v) => Ok(v@),
        Err(e) => Err(e@),
    }
}

/// What saving a layer comes to.
pub open spec fn saved(layer: MemoryLayer, content: Seq<char>) -> Result<
    LayerContentView,
    Seq<char>,
> {
    match layer_fault(layer, content) {
        Some(e) => Err(e),
        None => Ok(layer_content(layer, content)),
    }
}

/// Checks what is to become the content of a layer. The caller writes the
/// returned `content` to the layer's file.
pub fn save_layer(layer: MemoryLayer, content: &str) -> (r: Result<MemoryLayerContent, String>)
    ensures
        layer_result(r) == saved(layer, content@),
{
    match validate_memory_content(layer, content) {
        Err(e) => Err(e),
        Ok(_) => Ok(read_layer(layer, content)),
    }
}

/// The block of the system prompt that holds L1.
pub open spec fn l1_block(content: Seq<char>) -> Result<Option<Seq<char>>, Seq<char>> {
    let body = trimmed(content);
    if body.len() == 0 || body == "# L1 Online Memory"@ {
        Ok(None)
    } else if utf8_len(content) > L1_MAX_BYTES {
        Err(
            "L1 memory is "@ + decimal(utf8_len(content)) + " bytes, over the "@ + decimal(
                L1_MAX_BYTES as nat,
            ) + " byte limit; it was not injected."@,
        )
    } else {
        Ok(
            Some(
                "Kivio Memory (L1 online memory; user-editable; persistent across chats):\n\n"@
                    + body,
            ),
        )
    }
}

/// The block of the system prompt that holds L1; none for an untouched file.
pub fn l1_prompt_block(content: &str) -> (r: Result<Option<String>, String>)
    ensures
        match r {
            Ok(b) => l1_block(content@) == Ok::<Option<Seq<char>>, Seq<char>>(
                crate::text::opt_text(b),
            ),
            Err(e) => l1_block(content@) == Err::<Option<Seq<char>>, Seq<char>>(e@),
        },
{
    let body = trim(content);
    if body.as_str().is_empty() || str_eq(body.as_str(), "# L1 Online Memory") {
        return Ok(None);
    }
    let n: usize = byte_len(content);
    if n > L1_MAX_BYTES {
        let size = decimal_of(n as u64);
        let limit = decimal_of(L1_MAX_BYTES as u64);
        return Err(
            concat5(
                "L1 memory is ",
                size.as_str(),
                " bytes, over the ",
                limit.as_str(),
                " byte limit; it was not injected.",
            ),
        );
    }
    Ok(
        Some(
            concat2(
                "Kivio Memory (L1 online memory; user-editable; persistent across chats):\n\n",
                body.as_str(),
            ),
        ),
    )
}

// ---------------------------------------------------------------------
// Reading
// ---------------------------------------------------------------------

/// `content` cut after the last whole character within `max` bytes, with a note.
pub open spec fn truncated(content: Seq<char>, max: nat) -> Seq<char> {
    if utf8_len(content) <= max {
        content
    } else {
        let shown = content.take(fitting(content, max, content.len() as int));
        shown + "\n\n[Memory output truncated: original "@ + decimal(utf8_len(content))
            + " bytes, showing first "@ + decimal(utf8_len(shown)) + " bytes.]"@
    }
}

/// `content` cut after the last whole character within `max_bytes` bytes.
pub fn truncate_bytes(content: &str, max_bytes: usize) -> (r: String)
    ensures
        r@ == truncated(content@, max_bytes as nat),
{
    let n: usize = byte_len(content);
    if n <= max_bytes {
        return copy_str(content);
    }
    let v = chars_of(content);
    let (k, end) = fit_bytes(v.as_slice(), max_bytes);
    assert(v@.subrange(0, k as int) == v@.take(k as int));
    let shown = string_of_range(v.as_slice(), 0, k);
    let total = decimal_of(n as u64);
    let part = decimal_of(end as u64);
    let mut out = shown;
    out.append("\n\n[Memory output truncated: original ");
    out.append(total.as_str());
    out.append(" bytes, showing first ");
    out.append(part.as_str());
    out.append(" bytes.]");
    out
}

/// The section of L2 around the first hit of `query`, or all of L2.
pub open spec fn l2_slice(content: Seq<char>, query: Option<Seq<char>>, max: nat) -> Seq<char> {
    match query {
        None => truncated(content, max),
        Some(q) => match find_from(lower(content), lower(q), 0) {
            None => "No exact text match for query: "@ + q,
            Some(i) => {
                let front = content.take(i);
                let start = match find_back(front, "\n#"@, i) {
                    Some(k) => k + 1,
                    None => 0,
                };
                let end = match find_from(content, "\n#"@, i) {
                    Some(k) => k,
                    None => content.len() as int,
                };
                truncated(content.subrange(start, end), max)
            },
        },
    }
}

/// The section of L2 around the first hit of `query`, or all of L2.
pub fn l2_read_slice(content: &str, query: Option<&str>, max_bytes: usize) -> (r: String)
    ensures
        r@ == l2_slice(content@, opt_str(query), max_bytes as nat),
{
    match query {
        None => truncate_bytes(content, max_bytes),
        Some(q) => {
            let low = chars_of(to_lower(content).as_str());
            let low_query = chars_of(to_lower(q).as_str());
            match find_chars(low.as_slice(), low_query.as_slice(), 0) {
                None => concat2("No exact text match for query: ", q),
                Some(i) => {
                    let v = chars_of(content);
                    let mark = chars_of("\n#");
                    let front = chars_of(string_of_range(v.as_slice(), 0, i).as_str());
                    let n: usize = v.len();
                    assert(front@ == v@.take(i as int));
                    proof {
                        reveal_strlit("\n#");
                    }
                    let start: usize = match rfind_chars(front.as_slice(), mark.as_slice()) {
                        Some(k) => k + 1,
                        None => 0,
                    };
                    let end: usize = match find_chars(v.as_slice(), mark.as_slice(), i) {
                        Some(k) => k,
                        None => n,
                    };
                    truncate_bytes(string_of_range(v.as_slice(), start, end).as_str(), max_bytes)
                },
            }
        },
    }
}

/// A text argument, trimmed; nothing where it is missing or blank.
pub open spec fn trimmed_arg(arguments: JsonView, key: Seq<char>) -> Option<Seq<char>> {
    match arguments.field_text(key) {
        Some(t) => if is_blank_text(t) {
            None
        } else {
            Some(trimmed(t))
        },
        None => None,
    }
}

/// A text argument, trimmed; nothing where it is missing or blank.
fn trimmed_argument(arguments: &Json, key: &str) -> (r: Option<String>)
    ensures
        crate::text::opt_text(r) == trimmed_arg(arguments@, key@),
{
    match arguments.get_str(key) {
        Some(t) => if is_blank(t) {
            None
        } else {
            Some(trim(t))
        },
        None => None,
    }
}

/// An integer argument under one of two names; the first name counts where both are there.
pub open spec fn number_arg(arguments: JsonView, key: Seq<char>, other: Seq<char>) -> Option<u64> {
    match arguments.field(key) {
        Some(v) => v.unsigned(),
        None => arguments.field_unsigned(other),
    }
}

fn number_argument(arguments: &Json, key: &str, other: &str) -> (r: Option<u64>)
    ensures
        r == number_arg(arguments@, key@, other@),
{
    match arguments.get(key) {
        Some(v) => v.as_u64(),
        None => arguments.get_u64(other),
    }
}

/// The layer that a request to read memory names.
pub open spec fn read_layer_arg(arguments: JsonView) -> Result<MemoryLayer, Seq<char>> {
    match arguments.field_text("layer"@) {
        Some(t) => layer_of(t),
        None => Err("memory_read requires layer"@),
    }
}

/// The layer that a request to read memory names.
pub fn requested_layer(arguments: &Json) -> (r: Result<MemoryLayer, String>)
    ensures
        text_error(r) == read_layer_arg(arguments@),
{
    match arguments.get_str("layer") {
        Some(t) => MemoryLayer::from_str(t),
        None => Err(copy_str("memory_read requires layer")),
    }
}

/// The limit on the bytes shown: what was asked for, from 200 to 50000.
pub open spec fn read_limit(arguments: JsonView, layer: MemoryLayer) -> nat {
    match number_arg(arguments, "maxBytes"@, "max_bytes"@) {
        Some(n) => if n < 200 {
            200
        } else if n > 50_000 {
            50_000
        } else {
            n as nat
        },
        None => match layer {
            MemoryLayer::L1 => L1_MAX_BYTES as nat,
            MemoryLayer::L2 => 8_000,
        },
    }
}

/// A layer as shown, as data.
pub open spec fn layer_json(v: LayerContentView) -> JsonView {
    JsonView::Object(
        Map::empty().insert("layer"@, JsonView::Str(v.layer)).insert(
            "content"@,
            JsonView::Str(v.content),
        ).insert("bytes"@, JsonView::Number(JsonNumber::Unsigned(v.bytes as u64))).insert(
            "maxBytes"@,
            match v.max_bytes {
                Some(n) => JsonView::Number(JsonNumber::Unsigned(n as u64)),
                None => JsonView::Null,
            },
        ),
    )
}

impl MemoryLayerContent {
    /// The layer as data.
    pub fn to_json(&self) -> (r: Json)
        ensures
            r@ == layer_json(self@),
    {
        let mut o = Object::new();
        o.set("layer", Json::string(self.layer.as_str()));
        o.set("content", Json::string(self.content.as_str()));
        o.set("bytes", Json::unsigned(self.bytes as u64));
        o.set(
            "maxBytes",
            match self.max_bytes {
                Some(n) => Json::unsigned(n as u64),
                None => Json::Null,
            },
        );
        Json::Object(o)
    }
}

/// What reading memory returns, from what the layer's file holds.
pub open spec fn read_outcome(arguments: JsonView, content: Seq<char>) -> Result<
    ToolResultView,
    Seq<char>,
> {
    match read_layer_arg(arguments) {
        Err(e) => Err(e),
        Ok(layer) => {
            let limit = read_limit(arguments, layer);
            let shown = match layer {
                MemoryLayer::L2 => l2_slice(content, trimmed_arg(arguments, "query"@), limit),
                MemoryLayer::L1 => truncated(content, limit),
            };
            Ok(
                plain_result(
                    layer.spec_label() + " memory ("@ + decimal(utf8_len(content))
                        + " bytes total):\n\n"@ + trimmed(shown),
                    layer_json(layer_content(layer, content)),
                    None,
                ),
            )
        },
    }
}

/// A tool result over the characters of its error.
pub open spec fn tool_outcome(r: Result<McpToolCallResult, String>) -> Result<
    ToolResultView,
    Seq<char>,
> {
    match r {
        Ok(v) => Ok(v@),
        Err(e) => Err(e@),
    }
}

/// Reads memory. `content` is what the file of the requested layer holds.
pub fn tool_read(arguments: &Json, content: &str) -> (r: Result<McpToolCallResult, String>)
    ensures
        tool_outcome(r) == read_outcome(arguments@, content@),
{
    let layer = match requested_layer(arguments) {
        Ok(l) => l,
        Err(e) => {
            return Err(e);
        },
    };
    let query = trimmed_argument(arguments, "query");
    let limit: usize = match number_argument(arguments, "maxBytes", "max_bytes") {
        Some(n) => if n < 200 {
            200
        } else if n > 50_000 {
            50_000
        } else {
            n as usize
        },
        None => match layer {
            MemoryLayer::L1 => L1_MAX_BYTES,
            MemoryLayer::L2 => 8_000,
        },
    };
    let memory = read_layer(layer, content);
    let shown = match layer {
        MemoryLayer::L2 => l2_read_slice(content, crate::text::as_opt_str(&query), limit),
        MemoryLayer::L1 => truncate_bytes(content, limit),
    };
    let size = decimal_of(memory.bytes as u64);
    let body = trim(shown.as_str());
    let text = concat5(
        layer.label(),
        " memory (",
        size.as_str(),
        " bytes total):\n\n",
        body.as_str(),
    );
    Ok(plain_tool_result(text, memory.to_json(), None))
}

// ---------------------------------------------------------------------
// Searching
// ---------------------------------------------------------------------

/// One section that a search found.
#[derive(Debug)]
pub struct MemorySearchMatch {
    pub heading: String,
    pub snippet: String,
    pub score: usize,
}

/// The value of a search match.
#[verifier::ext_equal]
pub struct MatchView {
    pub heading: Seq<char>,
    pub snippet: Seq<char>,
    pub score: nat,
}

impl View for MemorySearchMatch {
    type V = MatchView;

    open spec fn view(&self) -> MatchView {
        MatchView { heading: self.heading@, snippet: self.snippet@, score: self.score as nat }
    }
}

/// The values of the matches, in order.
pub open spec fn match_views(v: Seq<MemorySearchMatch>) -> Seq<MatchView> {
    Seq::new(v.len(), |i: int| v[i]@)
}

/// The words of a text in lower case.
pub open spec fn tokens_of(text: Seq<char>) -> Seq<Seq<char>> {
    words_of(lower(text), blank_or_punctuation())
}

/// The words of a text in lower case, without white space and punctuation.
pub fn tokenize(text: &str) -> (r: Vec<String>)
    ensures
        strings(r@) == tokens_of(text@),
{
    split_words(to_lower(text).as_str())
}

/// What splitting into sections has produced after some lines.
#[verifier::ext_equal]
pub struct SectionState {
    pub sections: Seq<(Seq<char>, Seq<char>)>,
    pub heading: Seq<char>,
    pub body: Seq<char>,
    pub started: bool,
}

/// The sections after the open one has ended; a blank lead-in is none.
pub open spec fn section_closed(st: SectionState) -> Seq<(Seq<char>, Seq<char>)> {
    if st.started || !is_blank_text(st.body) {
        st.sections.push((st.heading, trimmed_end(st.body)))
    } else {
        st.sections
    }
}

/// Line after line: one that begins with `#` opens a section, any other belongs
/// to the open one.
pub open spec fn section_lines(ls: Seq<Seq<char>>) -> SectionState
    decreases ls.len(),
{
    if ls.len() == 0 {
        SectionState {
            sections: Seq::empty(),
            heading: Seq::empty(),
            body: Seq::empty(),
            started: false,
        }
    } else {
        let st = section_lines(ls.drop_last());
        let line = ls.last();
        if has_prefix(trimmed_start(line), "#"@) {
            SectionState {
                sections: section_closed(st),
                heading: trimmed(line),
                body: Seq::empty(),
                started: true,
            }
        } else {
            SectionState {
                sections: st.sections,
                heading: st.heading,
                body: (st.body + line).push('\n'),
                started: st.started,
            }
        }
    }
}

/// The sections of a markdown text: heading line and body.
pub open spec fn sections_of(content: Seq<char>) -> Seq<(Seq<char>, Seq<char>)> {
    section_closed(section_lines(lines_of(content)))
}

/// The values of the sections.
pub open spec fn section_views(v: Seq<(String, String)>) -> Seq<(Seq<char>, Seq<char>)> {
    Seq::new(v.len(), |i: int| (v[i].0@, v[i].1@))
}

fn push_section(
    sections: &mut Vec<(String, String)>,
    heading: String,
    body: &str,
    started: bool,
)
    ensures
        section_views(final(sections)@) == section_closed(
            (SectionState {
                sections: section_views(old(sections)@),
                heading: heading@,
                body: body@,
                started,
            }),
        ),
{
    if started || !is_blank(body) {
        sections.push((heading, trim_end(body)));
        assert(section_views(sections@) == section_views(old(sections)@).push(
            (heading@, trimmed_end(body@)),
        ));
    }
}

/// The sections of a markdown text: heading line and body. What stands before
/// the first heading is a section with an empty heading.
pub fn split_sections(content: &str) -> (r: Vec<(String, String)>)
    ensures
        section_views(r@) == sections_of(content@),
{
    let ls = lines(content);
    let ghost all = strings(ls@);
    let mut sections: Vec<(String, String)> = Vec::new();
    let mut heading = String::new();
    let mut body = String::new();
    let mut started = false;
    let mut i: usize = 0;
    assert(section_views(sections@) == Seq::<(Seq<char>, Seq<char>)>::empty());
    while i < ls.len()
        invariant
            i <= ls@.len(),
            all == strings(ls@),
            section_lines(all.take(i as int)) == (SectionState {
                sections: section_views(sections@),
                heading: heading@,
                body: body@,
                started,
            }),
        decreases ls@.len() - i,
    {
        assert(all.take(i + 1).drop_last() == all.take(i as int));
        assert(all.take(i + 1).last() == ls@[i as int]@);
        let line = ls[i].as_str();
        if starts_with(trim_start(line).as_str(), "#") {
            push_section(&mut sections, heading, body.as_str(), started);
            heading = trim(line);
            body = String::new();
            started = true;
        } else {
            body.append(line);
            body.push('\n');
        }
        i += 1;
    }
    assert(all.take(all.len() as int) == all);
    push_section(&mut sections, heading, body.as_str(), started);
    sections
}

/// How well a section answers the words: a hit in the heading weighs more than
/// one in the body.
pub open spec fn section_score(
    words: Seq<Seq<char>>,
    heading: Seq<char>,
    body: Seq<char>,
) -> nat
    decreases words.len(),
{
    if words.len() == 0 {
        0
    } else {
        section_score(words.drop_last(), heading, body) + (if has_infix(
            lower(heading),
            words.last(),
        ) {
            HEADING_HIT_WEIGHT as nat
        } else {
            0
        }) + (if has_infix(lower(body), words.last()) {
            1nat
        } else {
            0
        })
    }
}

/// A score as it is held: it stops at the greatest `usize`.
pub open spec fn held_score(n: nat) -> nat {
    if n > usize::MAX {
        usize::MAX as nat
    } else {
        n
    }
}

/// How well a section answers the words.
pub fn score_section(words: &Vec<String>, heading: &str, body: &str) -> (r: usize)
    ensures
        r == held_score(section_score(strings(words@), heading@, body@)),
{
    let heading_lower = to_lower(heading);
    let body_lower = to_lower(body);
    let ghost all = strings(words@);
    let mut score: usize = 0;
    let mut i: usize = 0;
    while i < words.len()
        invariant
            i <= words@.len(),
            all == strings(words@),
            heading_lower@ == lower(heading@),
            body_lower@ == lower(body@),
            score == held_score(section_score(all.take(i as int), heading@, body@)),
        decreases words@.len() - i,
    {
        assert(all.take(i + 1).drop_last() == all.take(i as int));
        assert(all.take(i + 1).last() == words@[i as int]@);
        if contains(heading_lower.as_str(), words[i].as_str()) {
            score = score.saturating_add(HEADING_HIT_WEIGHT);
        }
        if contains(body_lower.as_str(), words[i].as_str()) {
            score = score.saturating_add(1);
        }
        i += 1;
    }
    assert(all.take(all.len() as int) == all);
    score
}

/// A section as a match.
pub open spec fn match_of(words: Seq<Seq<char>>, section: (Seq<char>, Seq<char>)) -> MatchView {
    MatchView {
        heading: if section.0.len() == 0 {
            "(untitled)"@
        } else {
            section.0
        },
        snippet: truncated(trimmed(section.1), SNIPPET_MAX_BYTES as nat),
        score: held_score(section_score(words, section.0, section.1)),
    }
}

/// `ms` with `m` after everything that scores at least as much.
pub open spec fn placed(ms: Seq<MatchView>, m: MatchView) -> Seq<MatchView>
    decreases ms.len(),
{
    if ms.len() == 0 || ms.last().score >= m.score {
        ms.push(m)
    } else {
        placed(ms.drop_last(), m).push(ms.last())
    }
}

/// The matching sections, the best first; among equals the earlier one first.
pub open spec fn ranking(
    words: Seq<Seq<char>>,
    sections: Seq<(Seq<char>, Seq<char>)>,
) -> Seq<MatchView>
    decreases sections.len(),
{
    if sections.len() == 0 {
        Seq::empty()
    } else {
        let before = ranking(words, sections.drop_last());
        if section_score(words, sections.last().0, sections.last().1) == 0 {
            before
        } else {
            placed(before, match_of(words, sections.last()))
        }
    }
}

/// What a search finds: the best `max` matching sections.
pub open spec fn search_hits(content: Seq<char>, words: Seq<Seq<char>>, max: nat) -> Seq<
    MatchView,
> {
    let ranked = ranking(words, sections_of(content));
    if words.len() == 0 {
        Seq::empty()
    } else if ranked.len() <= max {
        ranked
    } else {
        ranked.take(max as int)
    }
}

/// Inserts `m` after everything that scores at least as much.
fn place(ms: &mut Vec<MemorySearchMatch>, m: MemorySearchMatch)
    ensures
        match_views(final(ms)@) == placed(match_views(old(ms)@), m@),
{
    let ghost all = match_views(ms@);
    let mut i: usize = ms.len();
    assert(all.take(all.len() as int) == all);
    assert(all.skip(all.len() as int) == Seq::<MatchView>::empty());
    while i > 0 && ms[i - 1].score < m.score
        invariant
            i <= ms@.len(),
            ms@ == old(ms)@,
            all == match_views(ms@),
            placed(all, m@) == placed(all.take(i as int), m@) + all.skip(i as int),
        decreases i,
    {
        proof {
            assert(all[i - 1] == ms@[i - 1]@);
            assert(all.take(i as int).drop_last() == all.take(i - 1));
            assert(placed(all.take(i - 1), m@).push(all[i - 1]) + all.skip(i as int) == placed(
                all.take(i - 1),
                m@,
            ) + all.skip(i - 1));
        }
        i -= 1;
    }
    proof {
        if i > 0 {
            assert(all[i - 1] == ms@[i - 1]@);
            assert(all.take(i as int).last() == all[i - 1]);
        }
        assert(placed(all.take(i as int), m@) == all.take(i as int).push(m@));
    }
    ms.insert(i, m);
    assert(match_views(ms@) == all.take(i as int).push(m@) + all.skip(i as int));
}

/// The best `max_results` sections of `content` for the words.
pub fn search_sections(content: &str, tokens: &Vec<String>, max_results: usize) -> (r: Vec<
    MemorySearchMatch,
>)
    ensures
        match_views(r@) == search_hits(content@, strings(tokens@), max_results as nat),
{
    if tokens.len() == 0 {
        let none: Vec<MemorySearchMatch> = Vec::new();
        assert(match_views(none@) == Seq::<MatchView>::empty());
        return none;
    }
    let sections = split_sections(content);
    let ghost all = section_views(sections@);
    let ghost words = strings(tokens@);
    let mut out: Vec<MemorySearchMatch> = Vec::new();
    let mut i: usize = 0;
    assert(match_views(out@) == Seq::<MatchView>::empty());
    while i < sections.len()
        invariant
            i <= sections@.len(),
            all == section_views(sections@),
            words == strings(tokens@),
            match_views(out@) == ranking(words, all.take(i as int)),
        decreases sections@.len() - i,
    {
        assert(all.take(i + 1).drop_last() == all.take(i as int));
        assert(all.take(i + 1).last() == (sections@[i as int].0@, sections@[i as int].1@));
        let heading = sections[i].0.as_str();
        let body = sections[i].1.as_str();
        let score: usize = score_section(tokens, heading, body);
        if score > 0 {
            let found = MemorySearchMatch {
                heading: if heading.is_empty() {
                    copy_str("(untitled)")
                } else {
                    copy_str(heading)
                },
                snippet: truncate_bytes(trim(body).as_str(), SNIPPET_MAX_BYTES),
                score,
            };
            place(&mut out, found);
        }
        i += 1;
    }
    assert(all.take(all.len() as int) == all);
    let ghost ranked = match_views(out@);
    if out.len() > max_results {
        out.truncate(max_results);
        assert(match_views(out@) == ranked.take(max_results as int));
    }
    out
}

/// The layer to search: L2 where the request names none.
pub open spec fn search_layer_arg(arguments: JsonView) -> Result<MemoryLayer, Seq<char>> {
    match trimmed_arg(arguments, "layer"@) {
        Some(t) => layer_of(t),
        None => Ok(MemoryLayer::L2),
    }
}

/// What a request to search asks for: the query, how many results, the layer.
pub open spec fn search_request(arguments: JsonView) -> Result<
    (Seq<char>, nat, MemoryLayer),
    Seq<char>,
> {
    match trimmed_arg(arguments, "query"@) {
        None => Err("memory_search requires a non-empty query"@),
        Some(q) => match search_layer_arg(arguments) {
            Err(e) => Err(e),
            Ok(layer) => Ok(
                (
                    q,
                    match number_arg(arguments, "maxResults"@, "max_results"@) {
                        None => DEFAULT_SEARCH_RESULTS as nat,
                        Some(n) => if n < 1 {
                            1
                        } else if n > MAX_SEARCH_RESULTS {
                            MAX_SEARCH_RESULTS as nat
                        } else {
                            n as nat
                        },
                    },
                    layer,
                ),
            ),
        },
    }
}

/// What a request to search asks for.
pub struct SearchRequest {
    pub query: String,
    pub max_results: usize,
    pub layer: MemoryLayer,
}

/// Reads the arguments of a request to search memory.
pub fn parse_search_request(arguments: &Json) -> (r: Result<SearchRequest, String>)
    ensures
        match r {
            Ok(q) => search_request(arguments@) == Ok::<(Seq<char>, nat, MemoryLayer), Seq<char>>(
                (q.query@, q.max_results as nat, q.layer),
            ),
            Err(e) => search_request(arguments@) == Err::<
                (Seq<char>, nat, MemoryLayer),
                Seq<char>,
            >(e@),
        },
{
    let query = match trimmed_argument(arguments, "query") {
        Some(q) => q,
        None => {
            return Err(copy_str("memory_search requires a non-empty query"));
        },
    };
    let max_results: usize = match number_argument(arguments, "maxResults", "max_results") {
        None => DEFAULT_SEARCH_RESULTS,
        Some(n) => if n < 1 {
            1
        } else if n > MAX_SEARCH_RESULTS as u64 {
            MAX_SEARCH_RESULTS
        } else {
            n as usize
        },
    };
    let layer = match trimmed_argument(arguments, "layer") {
        Some(t) => match MemoryLayer::from_str(t.as_str()) {
            Ok(l) => l,
            Err(e) => {
                return Err(e);
            },
        },
        None => MemoryLayer::L2,
    };
    Ok(SearchRequest { query, max_results, layer })
}

/// A match as data.
pub open spec fn match_json(m: MatchView) -> JsonView {
    JsonView::Object(
        Map::empty().insert("heading"@, JsonView::Str(m.heading)).insert(
            "snippet"@,
            JsonView::Str(m.snippet),
        ).insert("score"@, JsonView::Number(JsonNumber::Unsigned(m.score as u64))),
    )
}

/// The matches as data.
pub open spec fn matches_json(query: Seq<char>, layer: MemoryLayer, ms: Seq<MatchView>) -> JsonView {
    JsonView::Object(
        Map::empty().insert("query"@, JsonView::Str(query)).insert(
            "layer"@,
            JsonView::Str(layer.spec_name()),
        ).insert("matches"@, JsonView::Array(Seq::new(ms.len(), |i: int| match_json(ms[i])))),
    )
}

/// The matches as a numbered list.
pub open spec fn numbered(ms: Seq<MatchView>) -> Seq<char>
    decreases ms.len(),
{
    if ms.len() == 0 {
        Seq::empty()
    } else {
        let before = numbered(ms.drop_last());
        let lead = if ms.len() == 1 {
            before
        } else {
            before + "\n\n"@
        };
        lead + decimal(ms.len()) + ". "@ + ms.last().heading + "\n"@ + ms.last().snippet
    }
}

/// What searching memory returns, from what the layer's file holds.
pub open spec fn search_outcome(arguments: JsonView, content: Seq<char>) -> Result<
    ToolResultView,
    Seq<char>,
> {
    match search_request(arguments) {
        Err(e) => Err(e),
        Ok((query, max, layer)) => {
            let ms = search_hits(content, tokens_of(query), max);
            let data = matches_json(query, layer, ms);
            if ms.len() == 0 {
                Ok(
                    plain_result(
                        "No "@ + layer.spec_label() + " memory entries matched: "@ + query,
                        JsonView::Null,
                        Some(data),
                    ),
                )
            } else {
                Ok(
                    plain_result(
                        layer.spec_label() + " memory search for \""@ + query + "\" ("@ + decimal(
                            ms.len(),
                        ) + " match(es)):\n\n"@ + trimmed(numbered(ms)),
                        data,
                        Some(data),
                    ),
                )
            }
        },
    }
}

fn matches_to_json(query: &str, layer: MemoryLayer, ms: &Vec<MemorySearchMatch>) -> (r: Json)
    ensures
        r@ == matches_json(query@, layer, match_views(ms@)),
{
    let ghost all = match_views(ms@);
    let mut list: Vec<Json> = Vec::new();
    let mut i: usize = 0;
    while i < ms.len()
        invariant
            i <= ms@.len(),
            all == match_views(ms@),
            items_view(list@) == Seq::new(i as nat, |k: int| match_json(all[k])),
        decreases ms@.len() - i,
    {
        let ghost before = list@;
        let mut o = Object::new();
        o.set("heading", Json::string(ms[i].heading.as_str()));
        o.set("snippet", Json::string(ms[i].snippet.as_str()));
        o.set("score", Json::unsigned(ms[i].score as u64));
        list.push(Json::Object(o));
        assert(items_view(list@) == items_view(before).push(match_json(all[i as int])));
        i += 1;
    }
    let mut o = Object::new();
    o.set("query", Json::string(query));
    o.set("layer", Json::string(to_lower(layer.label()).as_str()));
    o.set("matches", Json::Array(list));
    Json::Object(o)
}

fn numbered_list(ms: &Vec<MemorySearchMatch>) -> (r: String)
    ensures
        r@ == numbered(match_views(ms@)),
{
    let ghost all = match_views(ms@);
    let mut out = String::new();
    let mut i: usize = 0;
    while i < ms.len()
        invariant
            i <= ms@.len(),
            all == match_views(ms@),
            out@ == numbered(all.take(i as int)),
        decreases ms@.len() - i,
    {
        assert(all.take(i + 1).drop_last() == all.take(i as int));
        assert(all.take(i + 1).last() == ms@[i as int]@);
        if i > 0 {
            out.append("\n\n");
        }
        let number = decimal_of(i as u64 + 1);
        out.append(number.as_str());
        out.append(". ");
        out.append(ms[i].heading.as_str());
        out.append("\n");
        out.append(ms[i].snippet.as_str());
        i += 1;
    }
    assert(all.take(all.len() as int) == all);
    out
}

/// Searches memory. `content` is what the file of the requested layer holds.
pub fn tool_search(arguments: &Json, content: &str) -> (r: Result<McpToolCallResult, String>)
    ensures
        tool_outcome(r) == search_outcome(arguments@, content@),
{
    let request = match parse_search_request(arguments) {
        Ok(q) => q,
        Err(e) => {
            return Err(e);
        },
    };
    let words = tokenize(request.query.as_str());
    let found = search_sections(content, &words, request.max_results);
    let data = matches_to_json(request.query.as_str(), request.layer, &found);
    if found.len() == 0 {
        let text = concat4(
            "No ",
            request.layer.label(),
            " memory entries matched: ",
            request.query.as_str(),
        );
        return Ok(plain_tool_result(text, Json::Null, Some(data)));
    }
    let count = decimal_of(found.len() as u64);
    let listed = numbered_list(&found);
    let body = trim(listed.as_str());
    let mut text = concat4(
        request.layer.label(),
        " memory search for \"",
        request.query.as_str(),
        "\" (",
    );
    text.append(count.as_str());
    text.append(" match(es)):\n\n");
    text.append(body.as_str());
    let again = data.copy();
    Ok(plain_tool_result(text, data, Some(again)))
}

// ---------------------------------------------------------------------
// Changing
// ---------------------------------------------------------------------

/// A text argument of a change, trimmed, or why it cannot be used.
pub open spec fn needed(value: Option<Seq<char>>, complaint: Seq<char>) -> Result<
    Seq<char>,
    Seq<char>,
> {
    match value {
        Some(t) => if is_blank_text(t) {
            Err(complaint)
        } else {
            Ok(trimmed(t))
        },
        None => Err(complaint),
    }
}

/// The text to put into memory, or why it cannot be used.
pub open spec fn content_arg(content: Option<Seq<char>>) -> Result<Seq<char>, Seq<char>> {
    match needed(content, "memory_modify content cannot be empty"@) {
        Err(e) => Err(e),
        Ok(t) => match content_fault(t) {
            Some(e) => Err(e),
            None => Ok(t),
        },
    }
}

/// The text to look for in memory, or why it cannot be used.
pub open spec fn old_text_arg(old_text: Option<Seq<char>>) -> Result<Seq<char>, Seq<char>> {
    needed(old_text, "memory_modify oldText cannot be empty"@)
}

/// A text over the characters of both outcomes.
pub open spec fn string_result(r: Result<String, String>) -> Result<Seq<char>, Seq<char>> {
    match r {
        Ok(t) => Ok(t@),
        Err(e) => Err(e@),
    }
}

/// The text to put into memory, trimmed.
pub fn require_content(content: Option<&str>) -> (r: Result<String, String>)
    ensures
        string_result(r) == content_arg(opt_str(content)),
{
    match content {
        Some(t) => {
            if is_blank(t) {
                return Err(copy_str("memory_modify content cannot be empty"));
            }
            let body = trim(t);
            match validate_secret_free(body.as_str()) {
                Ok(_) => Ok(body),
                Err(e) => Err(e),
            }
        },
        None => Err(copy_str("memory_modify content cannot be empty")),
    }
}

/// The text to look for in memory, trimmed.
pub fn require_old_text(old_text: Option<&str>) -> (r: Result<String, String>)
    ensures
        string_result(r) == old_text_arg(opt_str(old_text)),
{
    match old_text {
        Some(t) => if is_blank(t) {
            Err(copy_str("memory_modify oldText cannot be empty"))
        } else {
            Ok(trim(t))
        },
        None => Err(copy_str("memory_modify oldText cannot be empty")),
    }
}

/// Why `needle` does not point to one place of `content`.
pub open spec fn match_fault(content: Seq<char>, needle: Seq<char>) -> Option<Seq<char>> {
    let n = count_from(content, needle, 0);
    if n == 1 {
        None
    } else if n == 0 {
        Some("oldText was not found in memory; provide an exact unique snippet"@)
    } else {
        Some(
            "oldText matched "@ + decimal(held_score(n))
                + " places in memory; provide a more specific snippet"@,
        )
    }
}

/// Refuses a `needle` that does not stand in `content` exactly once.
pub fn ensure_unique_match(content: &str, needle: &str) -> (r: Result<(), String>)
    ensures
        fault_of(r) == match_fault(content@, needle@),
{
    let n: usize = count_matches(content, needle);
    if n == 1 {
        Ok(())
    } else if n == 0 {
        Err(copy_str("oldText was not found in memory; provide an exact unique snippet"))
    } else {
        let count = decimal_of(n as u64);
        Err(
            concat3(
                "oldText matched ",
                count.as_str(),
                " places in memory; provide a more specific snippet",
            ),
        )
    }
}

/// What is left of a text, and the break before the next block.
pub open spec fn with_gap(text: Seq<char>) -> Seq<char> {
    if trimmed_end(text).len() == 0 {
        trimmed_end(text)
    } else {
        trimmed_end(text) + "\n\n"@
    }
}

/// `current` with `addition` as a block at its end.
pub open spec fn appended(current: Seq<char>, addition: Seq<char>) -> Seq<char> {
    (with_gap(current) + trimmed(addition)).push('\n')
}

fn open_gap(text: &str) -> (r: String)
    ensures
        r@ == with_gap(text@),
{
    let mut out = trim_end(text);
    if !out.as_str().is_empty() {
        out.append("\n\n");
    }
    out
}

/// `current` with `addition` as a block at its end.
pub fn append_block(current: &str, addition: &str) -> (r: String)
    ensures
        r@ == appended(current@, addition@),
{
    let mut next = open_gap(current);
    next.append(trim(addition).as_str());
    next.push('\n');
    next
}

/// `current` with `addition` at the end of the section that `heading` opens; the
/// section is made at the end where there is none, and without a heading the
/// addition goes to the end.
pub open spec fn appended_under(
    current: Seq<char>,
    addition: Seq<char>,
    heading: Option<Seq<char>>,
) -> Seq<char> {
    match heading {
        None => appended(current, addition),
        Some(h) => if is_blank_text(h) {
            appended(current, addition)
        } else {
            let title = trimmed(h);
            match find_from(current, title, 0) {
                None => (with_gap(current) + title + "\n\n"@ + trimmed(addition)).push('\n'),
                Some(start) => {
                    let end = match find_from(current, "\n#"@, start + title.len()) {
                        Some(i) => i,
                        None => current.len() as int,
                    };
                    let next = (trimmed_end(current.take(end)) + "\n\n"@ + trimmed(addition)).push(
                        '\n',
                    ) + current.skip(end);
                    if has_suffix(next, "\n"@) {
                        next
                    } else {
                        next.push('\n')
                    }
                },
            }
        },
    }
}

/// `current` with `addition` at the end of the section that `heading` opens.
pub fn append_to_heading_or_end(current: &str, addition: &str, heading: Option<&str>) -> (r:
    String)
    ensures
        r@ == appended_under(current@, addition@, opt_str(heading)),
{
    let title = match heading {
        None => {
            return append_block(current, addition);
        },
        Some(h) => {
            if is_blank(h) {
                return append_block(current, addition);
            }
            trim(h)
        },
    };
    let v = chars_of(current);
    let tv = chars_of(title.as_str());
    let n: usize = v.len();
    match find_chars(v.as_slice(), tv.as_slice(), 0) {
        None => {
            let mut next = open_gap(current);
            next.append(title.as_str());
            next.append("\n\n");
            next.append(trim(addition).as_str());
            next.push('\n');
            next
        },
        Some(start) => {
            let mark = chars_of("\n#");
            let end: usize = match find_chars(v.as_slice(), mark.as_slice(), start + tv.len()) {
                Some(i) => i,
                None => n,
            };
            assert(v@.subrange(0, end as int) == v@.take(end as int));
            assert(v@.subrange(end as int, n as int) == v@.skip(end as int));
            let mut next = trim_end(string_of_range(v.as_slice(), 0, end).as_str());
            next.append("\n\n");
            next.append(trim(addition).as_str());
            next.push('\n');
            next.append(string_of_range(v.as_slice(), end, n).as_str());
            if !ends_with(next.as_str(), "\n") {
                next.push('\n');
            }
            next
        },
    }
}

/// A layer and what its file is to hold.
#[derive(Debug)]
pub struct LayerWrite {
    pub layer: MemoryLayer,
    pub content: String,
}

/// What changing memory comes to: the files to write, in order, and the outcome
/// of the call. Files are written even where the outcome is an error.
#[derive(Debug)]
pub struct ModifyOutcome {
    pub writes: Vec<LayerWrite>,
    pub outcome: Result<McpToolCallResult, String>,
}

/// The value of a change before it is reported: the files to write, and the
/// layer as it is shown afterwards.
#[verifier::ext_equal]
pub struct ChangeView {
    pub writes: Seq<(MemoryLayer, Seq<char>)>,
    pub shown: Result<LayerContentView, Seq<char>>,
}

/// The values of the files to write.
pub open spec fn write_views(v: Seq<LayerWrite>) -> Seq<(MemoryLayer, Seq<char>)> {
    Seq::new(v.len(), |i: int| (v[i].layer, v[i].content@))
}

/// A change that fails before anything is written.
pub open spec fn no_change(e: Seq<char>) -> ChangeView {
    ChangeView { writes: Seq::empty(), shown: Err(e) }
}

/// A change that writes one layer after `before`, where it may.
pub open spec fn change_to(
    before: Seq<(MemoryLayer, Seq<char>)>,
    layer: MemoryLayer,
    content: Seq<char>,
) -> ChangeView {
    match saved(layer, content) {
        Ok(v) => ChangeView { writes: before.push((layer, content)), shown: Ok(v) },
        Err(e) => ChangeView { writes: before, shown: Err(e) },
    }
}

/// Adding a block to a layer.
pub open spec fn append_change(
    layer: MemoryLayer,
    current: Seq<char>,
    content: Option<Seq<char>>,
    heading: Option<Seq<char>>,
) -> ChangeView {
    match content_arg(content) {
        Err(e) => no_change(e),
        Ok(addition) => change_to(
            Seq::empty(),
            layer,
            match layer {
                MemoryLayer::L2 => appended_under(current, addition, heading),
                MemoryLayer::L1 => appended(current, addition),
            },
        ),
    }
}

/// Replacing the one place where a text stands.
pub open spec fn replace_change(
    layer: MemoryLayer,
    current: Seq<char>,
    old_text: Option<Seq<char>>,
    content: Option<Seq<char>>,
) -> ChangeView {
    match old_text_arg(old_text) {
        Err(e) => no_change(e),
        Ok(needle) => match content_arg(content) {
            Err(e) => no_change(e),
            Ok(by) => match match_fault(current, needle) {
                Some(e) => no_change(e),
                None => change_to(Seq::empty(), layer, replaced_first(current, needle, by)),
            },
        },
    }
}

/// Removing the one place where a text stands.
pub open spec fn remove_change(
    layer: MemoryLayer,
    current: Seq<char>,
    old_text: Option<Seq<char>>,
) -> ChangeView {
    match old_text_arg(old_text) {
        Err(e) => no_change(e),
        Ok(needle) => match match_fault(current, needle) {
            Some(e) => no_change(e),
            None => change_to(Seq::empty(), layer, replaced_first(current, needle, Seq::empty())),
        },
    }
}

/// Whether archiving leaves the text in L1.
pub open spec fn archives_a_copy(mode: Option<Seq<char>>) -> bool {
    match mode {
        Some(m) => lower(trimmed(m)) == "copy"@,
        None => false,
    }
}

/// Moving, or copying, a text from L1 to L2. L2 is written first, so a refusal
/// of what is left of L1 leaves the text in both.
pub open spec fn archive_change(
    l1: Seq<char>,
    l2: Seq<char>,
    old_text: Option<Seq<char>>,
    content: Option<Seq<char>>,
    heading: Option<Seq<char>>,
    mode: Option<Seq<char>>,
) -> ChangeView {
    match old_text_arg(old_text) {
        Err(e) => no_change(e),
        Ok(needle) => match match_fault(l1, needle) {
            Some(e) => no_change(e),
            None => {
                let archived = match content {
                    Some(c) => c,
                    None => needle,
                };
                match layer_fault(MemoryLayer::L2, archived) {
                    Some(e) => no_change(e),
                    None => {
                        let next = appended_under(l2, archived, heading);
                        let first = change_to(Seq::empty(), MemoryLayer::L2, next);
                        match first.shown {
                            Err(_) => first,
                            Ok(_) => if archives_a_copy(mode) {
                                ChangeView {
                                    writes: first.writes,
                                    shown: Ok(layer_content(MemoryLayer::L1, l1)),
                                }
                            } else {
                                change_to(
                                    first.writes,
                                    MemoryLayer::L1,
                                    replaced_first(l1, needle, Seq::empty()),
                                )
                            },
                        }
                    },
                }
            },
        },
    }
}

/// The value of the arguments of a change.
#[verifier::ext_equal]
pub struct ModifyArgsView {
    pub layer: Seq<char>,
    pub operation: Seq<char>,
    pub content: Option<Seq<char>>,
    pub old_text: Option<Seq<char>>,
    pub heading: Option<Seq<char>>,
    pub archive_mode: Option<Seq<char>>,
}

impl View for MemoryModifyArgs {
    type V = ModifyArgsView;

    open spec fn view(&self) -> ModifyArgsView {
        ModifyArgsView {
            layer: self.layer@,
            operation: self.operation@,
            content: crate::text::opt_text(self.content),
            old_text: crate::text::opt_text(self.old_text),
            heading: crate::text::opt_text(self.heading),
            archive_mode: crate::text::opt_text(self.archive_mode),
        }
    }
}

/// What the arguments ask of the two layers.
pub open spec fn change_of(args: ModifyArgsView, l1: Seq<char>, l2: Seq<char>) -> ChangeView {
    match layer_of(args.layer) {
        Err(e) => no_change(e),
        Ok(layer) => {
            let op = lower(trimmed(args.operation));
            let current = match layer {
                MemoryLayer::L1 => l1,
                MemoryLayer::L2 => l2,
            };
            if op == "append"@ {
                append_change(layer, current, args.content, args.heading)
            } else if op == "replace"@ {
                replace_change(layer, current, args.old_text, args.content)
            } else if op == "remove"@ {
                remove_change(layer, current, args.old_text)
            } else if op == "archive"@ {
                if layer != MemoryLayer::L1 {
                    no_change(
                        "memory_modify archive must use layer=\"l1\" because archive moves or copies L1 content into L2"@,
                    )
                } else {
                    archive_change(
                        l1,
                        l2,
                        args.old_text,
                        args.content,
                        args.heading,
                        args.archive_mode,
                    )
                }
            } else {
                no_change("memory_modify operation must be append, replace, remove, or archive"@)
            }
        },
    }
}

/// What the tool answers after a change.
pub open spec fn change_report(args: ModifyArgsView, change: ChangeView) -> Result<
    ToolResultView,
    Seq<char>,
> {
    match change.shown {
        Err(e) => Err(e),
        Ok(v) => Ok(
            plain_result(
                (layer_of(args.layer)->Ok_0).spec_label() + " memory updated by "@ + lower(
                    trimmed(args.operation),
                ) + ". Current size: "@ + decimal(v.bytes) + " bytes."@,
                layer_json(v),
                None,
            ),
        ),
    }
}

/// A change before it is reported.
struct Change {
    writes: Vec<LayerWrite>,
    shown: Result<MemoryLayerContent, String>,
}

impl View for Change {
    type V = ChangeView;

    closed spec fn view(&self) -> ChangeView {
        ChangeView { writes: write_views(self.writes@), shown: layer_result(self.shown) }
    }
}

fn refuse(e: String) -> (r: Change)
    ensures
        r@ == no_change(e@),
{
    let writes: Vec<LayerWrite> = Vec::new();
    assert(write_views(writes@) == Seq::<(MemoryLayer, Seq<char>)>::empty());
    Change { writes, shown: Err(e) }
}

fn write_after(before: Vec<LayerWrite>, layer: MemoryLayer, content: String) -> (r: Change)
    ensures
        r@ == change_to(write_views(before@), layer, content@),
{
    match save_layer(layer, content.as_str()) {
        Ok(v) => {
            let mut writes = before;
            writes.push(LayerWrite { layer, content });
            assert(write_views(writes@) == write_views(before@).push((layer, content@)));
            Change { writes, shown: Ok(v) }
        },
        Err(e) => Change { writes: before, shown: Err(e) },
    }
}

fn write_only(layer: MemoryLayer, content: String) -> (r: Change)
    ensures
        r@ == change_to(Seq::empty(), layer, content@),
{
    let none: Vec<LayerWrite> = Vec::new();
    assert(write_views(none@) == Seq::<(MemoryLayer, Seq<char>)>::empty());
    write_after(none, layer, content)
}

fn modify_append(
    layer: MemoryLayer,
    current: &str,
    content: Option<&str>,
    heading: Option<&str>,
) -> (r: Change)
    ensures
        r@ == append_change(layer, current@, opt_str(content), opt_str(heading)),
{
    match require_content(content) {
        Err(e) => refuse(e),
        Ok(addition) => {
            let next = match layer {
                MemoryLayer::L2 => append_to_heading_or_end(current, addition.as_str(), heading),
                MemoryLayer::L1 => append_block(current, addition.as_str()),
            };
            write_only(layer, next)
        },
    }
}

fn modify_replace(
    layer: MemoryLayer,
    current: &str,
    old_text: Option<&str>,
    content: Option<&str>,
) -> (r: Change)
    ensures
        r@ == replace_change(layer, current@, opt_str(old_text), opt_str(content)),
{
    match require_old_text(old_text) {
        Err(e) => refuse(e),
        Ok(needle) => match require_content(content) {
            Err(e) => refuse(e),
            Ok(by) => match ensure_unique_match(current, needle.as_str()) {
                Err(e) => refuse(e),
                Ok(_) => write_only(layer, replace_first(current, needle.as_str(), by.as_str())),
            },
        },
    }
}

fn modify_remove(layer: MemoryLayer, current: &str, old_text: Option<&str>) -> (r: Change)
    ensures
        r@ == remove_change(layer, current@, opt_str(old_text)),
{
    match require_old_text(old_text) {
        Err(e) => refuse(e),
        Ok(needle) => match ensure_unique_match(current, needle.as_str()) {
            Err(e) => refuse(e),
            Ok(_) => {
                let nothing = String::new();
                assert(nothing@ == Seq::<char>::empty());
                write_only(layer, replace_first(current, needle.as_str(), nothing.as_str()))
            },
        },
    }
}

fn modify_archive(l1: &str, l2: &str, args: &MemoryModifyArgs) -> (r: Change)
    ensures
        r@ == archive_change(
            l1@,
            l2@,
            args@.old_text,
            args@.content,
            args@.heading,
            args@.archive_mode,
        ),
{
    let needle = match require_old_text(crate::text::as_opt_str(&args.old_text)) {
        Err(e) => {
            return refuse(e);
        },
        Ok(t) => t,
    };
    match ensure_unique_match(l1, needle.as_str()) {
        Err(e) => {
            return refuse(e);
        },
        Ok(_) => {},
    }
    let archived = match &args.content {
        Some(c) => copy_str(c.as_str()),
        None => copy_str(needle.as_str()),
    };
    match validate_memory_content(MemoryLayer::L2, archived.as_str()) {
        Err(e) => {
            return refuse(e);
        },
        Ok(_) => {},
    }
    let next = append_to_heading_or_end(
        l2,
        archived.as_str(),
        crate::text::as_opt_str(&args.heading),
    );
    let first = write_only(MemoryLayer::L2, next);
    if first.shown.is_err() {
        return first;
    }
    let copy = match &args.archive_mode {
        Some(m) => str_eq(to_lower(trim(m.as_str()).as_str()).as_str(), "copy"),
        None => false,
    };
    if copy {
        Change { writes: first.writes, shown: Ok(read_layer(MemoryLayer::L1, l1)) }
    } else {
        let nothing = String::new();
        assert(nothing@ == Seq::<char>::empty());
        write_after(
            first.writes,
            MemoryLayer::L1,
            replace_first(l1, needle.as_str(), nothing.as_str()),
        )
    }
}

/// Changes memory. `l1` and `l2` are what the files of the layers hold; the
/// caller writes the files that the outcome lists.
pub fn tool_modify(args: &MemoryModifyArgs, l1: &str, l2: &str) -> (r: ModifyOutcome)
    ensures
        write_views(r.writes@) == change_of(args@, l1@, l2@).writes,
        tool_outcome(r.outcome) == change_report(args@, change_of(args@, l1@, l2@)),
{
    let operation = to_lower(trim(args.operation.as_str()).as_str());
    let layer = match MemoryLayer::from_str(args.layer.as_str()) {
        Err(e) => {
            let change = refuse(e);
            return ModifyOutcome {
                writes: change.writes,
                outcome: match change.shown {
                    Ok(_) => Err(String::new()),
                    Err(e) => Err(e),
                },
            };
        },
        Ok(l) => l,
    };
    let current = match layer {
        MemoryLayer::L1 => l1,
        MemoryLayer::L2 => l2,
    };
    let content = crate::text::as_opt_str(&args.content);
    let old_text = crate::text::as_opt_str(&args.old_text);
    let heading = crate::text::as_opt_str(&args.heading);
    let op = operation.as_str();
    let change = if str_eq(op, "append") {
        modify_append(layer, current, content, heading)
    } else if str_eq(op, "replace") {
        modify_replace(layer, current, old_text, content)
    } else if str_eq(op, "remove") {
        modify_remove(layer, current, old_text)
    } else if str_eq(op, "archive") {
        if layer != MemoryLayer::L1 {
            refuse(
                copy_str(
                    "memory_modify archive must use layer=\"l1\" because archive moves or copies L1 content into L2",
                ),
            )
        } else {
            modify_archive(l1, l2, args)
        }
    } else {
        refuse(
            copy_str("memory_modify operation must be append, replace, remove, or archive"),
        )
    };
    let outcome = match change.shown {
        Err(e) => Err(e),
        Ok(v) => {
            let size = decimal_of(v.bytes as u64);
            let mut text = concat4(
                layer.label(),
                " memory updated by ",
                op,
                ". Current size: ",
            );
            text.append(size.as_str());
            text.append(" bytes.");
            Ok(plain_tool_result(text, v.to_json(), None))
        },
    };
    ModifyOutcome { writes: change.writes, outcome }
}

// ---------------------------------------------------------------------
// Laws
// ---------------------------------------------------------------------

/// Whatever a request to change memory asks, every file it leads to holds
/// content that its layer admits: nothing that looks like a credential or like
/// instructions to the model, and an L1 within its limit.
pub proof fn law_writes_are_admitted(args: ModifyArgsView, l1: Seq<char>, l2: Seq<char>, i: int)
    requires
        0 <= i < change_of(args, l1, l2).writes.len(),
    ensures
        layer_fault(change_of(args, l1, l2).writes[i].0, change_of(args, l1, l2).writes[i].1) is None,
        change_of(args, l1, l2).writes[i].0 == MemoryLayer::L1 ==> utf8_len(
            change_of(args, l1, l2).writes[i].1,
        ) <= L1_MAX_BYTES,
{
}

/// A request that is refused before it reaches memory writes nothing, except
/// for an archiving whose remainder of L1 is refused: then L2 has been written.
pub proof fn law_refused_changes_write_nothing(
    args: ModifyArgsView,
    l1: Seq<char>,
    l2: Seq<char>,
)
    requires
        change_of(args, l1, l2).shown is Err,
        lower(trimmed(args.operation)) != "archive"@,
    ensures
        change_of(args, l1, l2).writes.len() == 0,
{
}

/// Removing a text from memory takes out that text and nothing else: what stood
/// before it and what stood after it stay.
pub proof fn law_remove_takes_out_only_the_text(
    layer: MemoryLayer,
    current: Seq<char>,
    old_text: Seq<char>,
)
    requires
        remove_change(layer, current, Some(old_text)).shown is Ok,
    ensures
        ({
            let needle = trimmed(old_text);
            let next = remove_change(layer, current, Some(old_text)).writes[0].1;
            exists|i: int|
                #[trigger] crate::text::occurs_at(current, needle, i) && next == current.take(i)
                    + current.skip(i + needle.len())
        }),
{
    let needle = trimmed(old_text);
    lemma_find_from(current, needle, 0);
    assert(find_from(current, needle, 0) is Some) by {
        assert(count_from(current, needle, 0) == 1);
    }
    let i = find_from(current, needle, 0)->0;
    let next = remove_change(layer, current, Some(old_text)).writes[0].1;
    assert(next == current.take(i) + current.skip(i + needle.len()));
    assert(crate::text::occurs_at(current, needle, i));
}

/// A search returns its matches best first.
pub proof fn law_ranking_is_sorted(
    words: Seq<Seq<char>>,
    sections: Seq<(Seq<char>, Seq<char>)>,
    i: int,
    j: int,
)
    requires
        0 <= i <= j < ranking(words, sections).len(),
    ensures
        ranking(words, sections)[i].score >= ranking(words, sections)[j].score,
    decreases sections.len(),
{
    if sections.len() > 0 {
        let before = ranking(words, sections.drop_last());
        assert forall|a: int, b: int| 0 <= a <= b < before.len() implies before[a].score
            >= before[b].score by {
            law_ranking_is_sorted(words, sections.drop_last(), a, b);
        }
        lemma_placed_sorted(before, match_of(words, sections.last()));
    }
}

proof fn lemma_placed_sorted(ms: Seq<MatchView>, m: MatchView)
    requires
        forall|a: int, b: int| 0 <= a <= b < ms.len() ==> ms[a].score >= ms[b].score,
    ensures
        placed(ms, m).len() == ms.len() + 1,
        forall|a: int, b: int|
            0 <= a <= b < placed(ms, m).len() ==> placed(ms, m)[a].score >= placed(ms, m)[b].score,
        placed(ms, m).to_multiset() == ms.to_multiset().insert(m),
        placed(ms, m).last().score <= m.score,
    decreases ms.len(),
{
    broadcast use vstd::seq_lib::group_to_multiset_ensures;

    if ms.len() == 0 || ms.last().score >= m.score {
    } else {
        lemma_placed_sorted(ms.drop_last(), m);
        assert(ms.drop_last().push(ms.last()) == ms);
        let p = placed(ms.drop_last(), m);
        assert(placed(ms, m) == p.push(ms.last()));
        assert(p.to_multiset().insert(ms.last()) =~= ms.to_multiset().insert(m));
        assert forall|a: int| 0 <= a < p.len() implies p[a].score >= ms.last().score by {
            assert(p.to_multiset().contains(p[a]));
            if p[a] != m {
                assert(ms.drop_last().to_multiset().contains(p[a]));
                assert(ms.drop_last().contains(p[a]));
            }
        }
    }
}

proof fn lemma_visible_breaks()
    ensures
        visible("\n\n"@) == Seq::<char>::empty(),
        visible(seq!['\n']) == Seq::<char>::empty(),
        "\n\n"@ == seq!['\n', '\n'],
        "\n"@ == seq!['\n'],
        "\n#"@ == seq!['\n', '#'],
        "#"@ == seq!['#'],
{
    reveal_strlit("\n\n");
    reveal_strlit("\n");
    reveal_strlit("\n#");
    reveal_strlit("#");
    assert("\n\n"@ =~= seq!['\n', '\n']);
    assert("\n"@ =~= seq!['\n']);
    assert("\n#"@ =~= seq!['\n', '#']);
    assert("#"@ =~= seq!['#']);
    lemma_visible_blank("\n\n"@);
    lemma_visible_blank(seq!['\n']);
}

/// Adding a block keeps what was there, up to white space at its end, as the beginning;
/// the block, without white space around it, and a line break are the end; and between
/// the two stands an empty line, where there was something. Nothing that is seen is lost.
pub proof fn law_a_block_goes_to_the_end(current: Seq<char>, addition: Seq<char>)
    ensures
        ({
            let next = appended(current, addition);
            let kept = trimmed_end(current);
            let block = trimmed(addition) + seq!['\n'];
            let gap: nat = if kept.len() == 0 {
                0
            } else {
                2
            };
            &&& next.len() == kept.len() + gap + block.len()
            &&& next.take(kept.len() as int) == kept
            &&& next.skip(next.len() - block.len()) == block
            &&& forall|i: int| kept.len() <= i < kept.len() + gap ==> #[trigger] next[i] == '\n'
            &&& visible(next) == visible(current) + visible(addition)
        }),
{
    let next = appended(current, addition);
    let kept = trimmed_end(current);
    lemma_visible_breaks();
    law_trimming_keeps_what_is_seen(current);
    law_trimming_keeps_what_is_seen(addition);
    assert(next =~= with_gap(current) + trimmed(addition) + seq!['\n']);
    lemma_visible_concat(with_gap(current) + trimmed(addition), seq!['\n']);
    lemma_visible_concat(with_gap(current), trimmed(addition));
    lemma_visible_concat(kept, "\n\n"@);
    assert(next.take(kept.len() as int) =~= kept);
    let block = trimmed(addition) + seq!['\n'];
    assert(next.skip(next.len() - block.len()) =~= block);
    assert(visible(with_gap(current)) =~= visible(current));
    assert(visible(next) =~= visible(current) + visible(addition));
}

/// `next` is `current` with `addition` put in at `end`, white space aside.
pub open spec fn is_put_in(
    current: Seq<char>,
    addition: Seq<char>,
    next: Seq<char>,
    end: int,
) -> bool {
    &&& 0 <= end <= current.len()
    &&& visible(next) == visible(current.take(end)) + visible(addition) + visible(
        current.skip(end),
    )
}

/// `heading` stands in `current` at `start`, and its section ends at `end`: at the next
/// line that begins with `#`, or at the end of the text.
pub open spec fn is_section(current: Seq<char>, heading: Seq<char>, start: int, end: int) -> bool {
    &&& occurs_at(current, heading, start)
    &&& forall|j: int| j < start ==> !occurs_at(current, heading, j)
    &&& start + heading.len() <= end
    &&& end == current.len() || occurs_at(current, seq!['\n', '#'], end)
    &&& forall|j: int|
        start + heading.len() <= j < end ==> !occurs_at(current, seq!['\n', '#'], j)
}

/// Under a heading that stands in the text, an addition goes to the end of that heading's
/// section; under one that does not, it goes with the heading to the end; and without a
/// heading it goes to the end. Nothing that is seen is lost.
pub proof fn law_additions_go_under_their_heading(
    current: Seq<char>,
    addition: Seq<char>,
    heading: Option<Seq<char>>,
)
    ensures
        heading is None || is_blank_text(heading->0) ==> appended_under(current, addition, heading)
            == appended(current, addition),
        heading is Some && !is_blank_text(heading->0) && !has_infix(current, trimmed(heading->0))
            ==> visible(appended_under(current, addition, heading)) == visible(current) + visible(
            heading->0,
        ) + visible(addition),
        heading is Some && !is_blank_text(heading->0) && has_infix(current, trimmed(heading->0))
            ==> exists|start: int, end: int| #[trigger]
            is_section(current, trimmed(heading->0), start, end) && is_put_in(
                current,
                addition,
                appended_under(current, addition, heading),
                end,
            ),
        appended_under(current, addition, heading).len() > 0 && appended_under(
            current,
            addition,
            heading,
        ).last() == '\n',
{
    lemma_visible_breaks();
    let next = appended_under(current, addition, heading);
    law_trimming_keeps_what_is_seen(addition);
    if heading is Some && !is_blank_text(heading->0) {
        let title = trimmed(heading->0);
        law_trimming_keeps_what_is_seen(heading->0);
        lemma_find_from(current, title, 0);
        match find_from(current, title, 0) {
            None => {
                assert(!has_infix(current, title));
                law_trimming_keeps_what_is_seen(current);
                let a = with_gap(current);
                lemma_visible_concat(trimmed_end(current), "\n\n"@);
                assert(visible(a) =~= visible(current));
                lemma_visible_concat(a, title);
                lemma_visible_concat(a + title, "\n\n"@);
                lemma_visible_concat(a + title + "\n\n"@, trimmed(addition));
                lemma_visible_concat(a + title + "\n\n"@ + trimmed(addition), seq!['\n']);
                assert(next =~= a + title + "\n\n"@ + trimmed(addition) + seq!['\n']);
                assert(visible(next) =~= visible(current) + visible(heading->0) + visible(
                    addition,
                ));
            },
            Some(start) => {
                assert(occurs_at(current, title, start));
                assert(has_infix(current, title));
                lemma_find_from(current, "\n#"@, start + title.len());
                let end = match find_from(current, "\n#"@, start + title.len()) {
                    Some(i) => i,
                    None => current.len() as int,
                };
                let a = trimmed_end(current.take(end));
                law_trimming_keeps_what_is_seen(current.take(end));
                let base = (a + "\n\n"@ + trimmed(addition)).push('\n') + current.skip(end);
                assert(base =~= a + "\n\n"@ + trimmed(addition) + seq!['\n'] + current.skip(end));
                lemma_visible_concat(a, "\n\n"@);
                lemma_visible_concat(a + "\n\n"@, trimmed(addition));
                lemma_visible_concat(a + "\n\n"@ + trimmed(addition), seq!['\n']);
                lemma_visible_concat(
                    a + "\n\n"@ + trimmed(addition) + seq!['\n'],
                    current.skip(end),
                );
                assert(visible(base) =~= visible(current.take(end)) + visible(addition) + visible(
                    current.skip(end),
                ));
                lemma_visible_concat(base, seq!['\n']);
                assert(base.push('\n') =~= base + seq!['\n']);
                assert(visible(base.push('\n')) =~= visible(base));
                assert(is_section(current, title, start, end));
                assert(is_put_in(current, addition, next, end));
                if has_suffix(base, "\n"@) {
                    let last = base.subrange(base.len() - 1, base.len() as int);
                    assert(last[0] == '\n');
                    assert(base.last() == '\n');
                }
            },
        }
    } else {
        law_a_block_goes_to_the_end(current, addition);
    }
}

/// The arguments name `layer` and `operation`, whatever the case and the white space.
pub open spec fn asks(args: ModifyArgsView, layer: MemoryLayer, operation: Seq<char>) -> bool {
    layer_of(args.layer) == Ok::<MemoryLayer, Seq<char>>(layer) && lower(trimmed(args.operation))
        == operation
}

/// What a layer holds.
pub open spec fn held(layer: MemoryLayer, l1: Seq<char>, l2: Seq<char>) -> Seq<char> {
    match layer {
        MemoryLayer::L1 => l1,
        MemoryLayer::L2 => l2,
    }
}

/// An append that is carried out writes one file, that of the layer it names. Without a
/// heading, what is written begins with what the layer holds, up to white space at its
/// end, and ends with the content and a line break.
pub proof fn law_appends_keep_what_is_there(
    args: ModifyArgsView,
    layer: MemoryLayer,
    l1: Seq<char>,
    l2: Seq<char>,
)
    requires
        asks(args, layer, "append"@),
        change_of(args, l1, l2).shown is Ok,
    ensures
        args.content is Some,
        change_of(args, l1, l2).writes.len() == 1,
        change_of(args, l1, l2).writes[0].0 == layer,
        layer == MemoryLayer::L1 || args.heading is None ==> ({
            let current = held(layer, l1, l2);
            let next = change_of(args, l1, l2).writes[0].1;
            let kept = trimmed_end(current);
            let block = trimmed(args.content->0) + seq!['\n'];
            &&& kept.len() + block.len() <= next.len()
            &&& next.take(kept.len() as int) == kept
            &&& next.skip(next.len() - block.len()) == block
            &&& visible(next) == visible(current) + visible(args.content->0)
        }),
        layer == MemoryLayer::L2 ==> change_of(args, l1, l2).writes[0].1 == appended_under(
            l2,
            args.content->0,
            args.heading,
        ),
        change_of(args, l1, l2).shown->Ok_0.content == change_of(args, l1, l2).writes[0].1,
{
    reveal_strlit("append");
    let current = held(layer, l1, l2);
    let c = args.content->0;
    crate::text::lemma_trim_fixed(c);
    law_a_block_goes_to_the_end(current, trimmed(c));
    law_trimming_keeps_what_is_seen(c);
    assert(trimmed(trimmed(c)) == trimmed(c));
}

/// A replacement that is carried out writes one file, that of the layer it names: what the
/// layer holds with the content in the one place where the old text stood.
pub proof fn law_replacements_change_one_place(
    args: ModifyArgsView,
    layer: MemoryLayer,
    l1: Seq<char>,
    l2: Seq<char>,
)
    requires
        asks(args, layer, "replace"@),
        change_of(args, l1, l2).shown is Ok,
    ensures
        args.content is Some && args.old_text is Some,
        change_of(args, l1, l2).writes.len() == 1,
        change_of(args, l1, l2).writes[0].0 == layer,
        ({
            let current = held(layer, l1, l2);
            let needle = trimmed(args.old_text->0);
            let next = change_of(args, l1, l2).writes[0].1;
            exists|i: int| #[trigger]
                is_only_place(current, needle, i) && next == current.take(i) + trimmed(
                    args.content->0,
                ) + current.skip(i + needle.len())
        }),
{
    lemma_operations();
    lemma_only_place(held(layer, l1, l2), trimmed(args.old_text->0));
}

/// `needle` stands in `s` at `i`, and nowhere before it or after it.
pub open spec fn is_only_place(s: Seq<char>, needle: Seq<char>, i: int) -> bool {
    &&& occurs_at(s, needle, i)
    &&& forall|j: int| j < i ==> !occurs_at(s, needle, j)
    &&& forall|j: int| i + needle.len() <= j ==> !occurs_at(s, needle, j)
}

proof fn lemma_operations()
    ensures
        "append"@ != "replace"@,
        "append"@ != "remove"@,
        "append"@ != "archive"@,
        "replace"@ != "remove"@,
        "replace"@ != "archive"@,
        "remove"@ != "archive"@,
{
    reveal_strlit("append");
    reveal_strlit("replace");
    reveal_strlit("remove");
    reveal_strlit("archive");
    assert("append"@[1] == 'p');
    assert("replace"@[1] == 'e');
    assert("remove"@[1] == 'e');
    assert("archive"@[1] == 'r');
    assert("replace"@.len() == 7);
    assert("remove"@.len() == 6);
}

proof fn lemma_only_place(s: Seq<char>, needle: Seq<char>)
    requires
        needle.len() > 0,
        match_fault(s, needle) is None,
    ensures
        find_from(s, needle, 0) is Some,
        is_only_place(s, needle, find_from(s, needle, 0)->0),
{
    law_one_place_is_counted_once(s, needle);
    lemma_find_from(s, needle, 0);
    let i = choose|i: int| #[trigger]
        occurs_at(s, needle, i) && (forall|j: int| j < i ==> !occurs_at(s, needle, j)) && (forall|
            j: int,
        | i + needle.len() <= j ==> !occurs_at(s, needle, j));
    assert(occurs_at(s, needle, i));
    let f = find_from(s, needle, 0)->0;
    assert(f == i);
}

/// A removal that is carried out writes one file, that of the layer it names: what the
/// layer holds without the one place where the text stood.
pub proof fn law_removals_take_out_one_place(
    args: ModifyArgsView,
    layer: MemoryLayer,
    l1: Seq<char>,
    l2: Seq<char>,
)
    requires
        asks(args, layer, "remove"@),
        change_of(args, l1, l2).shown is Ok,
    ensures
        args.old_text is Some,
        change_of(args, l1, l2).writes.len() == 1,
        change_of(args, l1, l2).writes[0].0 == layer,
        ({
            let current = held(layer, l1, l2);
            let needle = trimmed(args.old_text->0);
            let next = change_of(args, l1, l2).writes[0].1;
            exists|i: int| #[trigger]
                is_only_place(current, needle, i) && next == current.take(i) + current.skip(
                    i + needle.len(),
                )
        }),
{
    lemma_operations();
    let current = held(layer, l1, l2);
    let needle = trimmed(args.old_text->0);
    lemma_only_place(current, needle);
    let i = find_from(current, needle, 0)->0;
    let next = change_of(args, l1, l2).writes[0].1;
    assert(next =~= current.take(i) + current.skip(i + needle.len()));
    assert(is_only_place(current, needle, i));
}

/// Archiving writes L2, with the text added to it, and then L1 without the text; where a
/// copy is asked for, L1 is not written.
pub proof fn law_archiving_moves_the_text(args: ModifyArgsView, l1: Seq<char>, l2: Seq<char>)
    requires
        asks(args, MemoryLayer::L1, "archive"@),
        change_of(args, l1, l2).shown is Ok,
    ensures
        args.old_text is Some,
        ({
            let copied = args.archive_mode is Some && lower(trimmed(args.archive_mode->0))
                == "copy"@;
            let needle = trimmed(args.old_text->0);
            let writes = change_of(args, l1, l2).writes;
            let archived = match args.content {
                Some(c) => c,
                None => args.old_text->0,
            };
            &&& writes.len() == if copied {
                1nat
            } else {
                2
            }
            &&& writes[0].0 == MemoryLayer::L2
            &&& writes[0].1 == appended_under(l2, archived, args.heading)
            &&& args.heading is None ==> visible(writes[0].1) == visible(l2) + visible(archived)
            &&& exists|i: int| #[trigger]
                is_only_place(l1, needle, i) && (!copied ==> writes[1].0 == MemoryLayer::L1
                    && writes[1].1 == l1.take(i) + l1.skip(i + needle.len()))
        }),
{
    lemma_operations();
    let needle = trimmed(args.old_text->0);
    lemma_only_place(l1, needle);
    crate::text::lemma_trim_fixed(args.old_text->0);
    let i = find_from(l1, needle, 0)->0;
    assert(is_only_place(l1, needle, i));
    assert(replaced_first(l1, needle, Seq::empty()) =~= l1.take(i) + l1.skip(i + needle.len()));
    let archived = match args.content {
        Some(c) => c,
        None => args.old_text->0,
    };
    law_a_block_goes_to_the_end(l2, archived);
}

/// A change to a layer is carried out where what it asks can be done: the text is there
/// once, the content is admitted, and so is what would be written.
pub proof fn law_sound_changes_are_carried_out(
    args: ModifyArgsView,
    layer: MemoryLayer,
    l1: Seq<char>,
    l2: Seq<char>,
    i: int,
)
    ensures
        asks(args, layer, "append"@) && args.content is Some && !is_blank_text(args.content->0)
            && content_fault(trimmed(args.content->0)) is None && (args.heading is None || layer
            == MemoryLayer::L1) && layer_fault(
            layer,
            appended(held(layer, l1, l2), args.content->0),
        ) is None ==> change_of(args, l1, l2).shown is Ok,
        asks(args, layer, "remove"@) && args.old_text is Some && !is_blank_text(args.old_text->0)
            && is_only_place(held(layer, l1, l2), trimmed(args.old_text->0), i) && layer_fault(
            layer,
            held(layer, l1, l2).take(i) + held(layer, l1, l2).skip(
                i + trimmed(args.old_text->0).len(),
            ),
        ) is None ==> change_of(args, l1, l2).shown is Ok,
        asks(args, layer, "replace"@) && args.old_text is Some && !is_blank_text(args.old_text->0)
            && args.content is Some && !is_blank_text(args.content->0) && content_fault(
            trimmed(args.content->0),
        ) is None && is_only_place(held(layer, l1, l2), trimmed(args.old_text->0), i)
            && layer_fault(
            layer,
            held(layer, l1, l2).take(i) + trimmed(args.content->0) + held(layer, l1, l2).skip(
                i + trimmed(args.old_text->0).len(),
            ),
        ) is None ==> change_of(args, l1, l2).shown is Ok,
{
    lemma_operations();
    let current = held(layer, l1, l2);
    if args.content is Some {
        crate::text::lemma_trim_fixed(args.content->0);
    }
    if args.old_text is Some && !is_blank_text(args.old_text->0) && is_only_place(
        current,
        trimmed(args.old_text->0),
        i,
    ) {
        let needle = trimmed(args.old_text->0);
        law_one_place_is_counted_once(current, needle);
        assert(count_from(current, needle, 0) == 1);
        lemma_find_from(current, needle, 0);
        assert(find_from(current, needle, 0) == Some(i));
        assert(replaced_first(current, needle, Seq::empty()) =~= current.take(i) + current.skip(
            i + needle.len(),
        ));
    }
}

/// A text that is cut shows its beginning, as many characters as fit into `max` bytes and
/// none fewer, and then says how long it was; one that fits is shown whole.
pub proof fn law_cut_texts_show_their_beginning(content: Seq<char>, max: nat)
    ensures
        utf8_len(content) <= max ==> truncated(content, max) == content,
        utf8_len(content) > max ==> exists|k: int| #[trigger]
            is_longest_fit(content, max, k) && truncated(content, max).take(k) == content.take(k)
                && truncated(content, max).skip(k) == "\n\n[Memory output truncated: original "@
                + decimal(utf8_len(content)) + " bytes, showing first "@ + decimal(
                utf8_len(content.take(k)),
            ) + " bytes.]"@,
{
    if utf8_len(content) > max {
        law_cuts_keep_what_fits(content, max);
        let k = fitting(content, max, content.len() as int);
        assert(content.take(content.len() as int) =~= content);
        assert(is_longest_fit(content, max, k));
        let t = truncated(content, max);
        assert(t.take(k) =~= content.take(k));
        assert(t.skip(k) =~= "\n\n[Memory output truncated: original "@ + decimal(
            utf8_len(content),
        ) + " bytes, showing first "@ + decimal(utf8_len(content.take(k))) + " bytes.]"@);
    }
}

/// The first `k` characters fit into `max` bytes, and one more would not.
pub open spec fn is_longest_fit(content: Seq<char>, max: nat, k: int) -> bool {
    &&& 0 <= k < content.len()
    &&& utf8_len(content.take(k)) <= max
    &&& utf8_len(content.take(k + 1)) > max
}

/// What is seen in sections: headings and bodies in order.
pub open spec fn seen_in(sections: Seq<(Seq<char>, Seq<char>)>) -> Seq<char>
    decreases sections.len(),
{
    if sections.len() == 0 {
        Seq::empty()
    } else {
        seen_in(sections.drop_last()) + visible(sections.last().0) + visible(sections.last().1)
    }
}

proof fn lemma_section_closed(st: SectionState)
    requires
        !st.started ==> st.heading.len() == 0,
    ensures
        seen_in(section_closed(st)) == seen_in(st.sections) + visible(st.heading) + visible(
            st.body,
        ),
{
    law_trimming_keeps_what_is_seen(st.body);
    law_trimming_takes_white_space(st.body);
    if st.started || !is_blank_text(st.body) {
        let all = st.sections.push((st.heading, trimmed_end(st.body)));
        assert(all.drop_last() =~= st.sections);
    } else {
        lemma_visible_blank(st.body);
        assert(seen_in(st.sections) =~= seen_in(st.sections) + visible(st.heading) + visible(
            st.body,
        ));
    }
}

/// A line opens a section where it begins with `#`, white space aside.
pub open spec fn opens_section(line: Seq<char>) -> bool {
    trimmed_start(line).len() > 0 && trimmed_start(line)[0] == '#'
}

proof fn lemma_section_lines(ls: Seq<Seq<char>>)
    ensures
        ({
            let st = section_lines(ls);
            &&& seen_in(st.sections) + visible(st.heading) + visible(st.body) == visible_all(ls)
            &&& !st.started ==> st.heading.len() == 0 && st.sections.len() == 0
            &&& st.started ==> st.heading.len() > 0 && st.heading[0] == '#'
            &&& forall|i: int|
                0 < i < st.sections.len() ==> (#[trigger] st.sections[i]).0.len() > 0
                    && st.sections[i].0[0] == '#'
        }),
    decreases ls.len(),
{
    lemma_visible_breaks();
    if ls.len() > 0 {
        let st = section_lines(ls.drop_last());
        let line = ls.last();
        lemma_section_lines(ls.drop_last());
        let t = trimmed_start(line);
        assert(has_prefix(t, "#"@) <==> opens_section(line)) by {
            if has_prefix(t, "#"@) {
                assert(t.subrange(0, 1)[0] == '#');
            } else if t.len() > 0 && t[0] == '#' {
                assert(t.subrange(0, 1) =~= seq!['#']);
            }
        }
        let next = section_lines(ls);
        if has_prefix(t, "#"@) {
            lemma_section_closed(st);
            law_trimming_keeps_what_is_seen(line);
            assert(visible(next.body) =~= Seq::<char>::empty());
            assert(seen_in(next.sections) + visible(next.heading) + visible(next.body)
                =~= visible_all(ls));
            lemma_trimmed_first(line);
            assert(next.heading[0] == '#');
        } else {
            assert(next.body =~= st.body + line + seq!['\n']);
            lemma_visible_concat(st.body + line, seq!['\n']);
            lemma_visible_concat(st.body, line);
            assert(seen_in(next.sections) + visible(next.heading) + visible(next.body)
                =~= visible_all(ls));
        }
    } else {
        let st = section_lines(ls);
        assert(seen_in(st.sections) + visible(st.heading) + visible(st.body) =~= visible_all(ls));
    }
}

proof fn lemma_trimmed_first(line: Seq<char>)
    requires
        trimmed_start(line).len() > 0,
    ensures
        trimmed(line).len() > 0,
        trimmed(line)[0] == trimmed_start(line)[0],
{
    law_trimming_takes_white_space(line);
    law_trimming_takes_white_space(trimmed_start(line));
    let t = trimmed_start(line);
    assert(trimmed(line) == trimmed_end(t));
    if trimmed_end(t).len() == 0 {
        assert(white_space(t[0]));
    }
}

/// The sections of a text hold everything that is seen in it, in order; every section but
/// the first begins with a heading, which begins with `#`.
pub proof fn law_sections_hold_the_text(content: Seq<char>)
    ensures
        seen_in(sections_of(content)) == visible(content),
        forall|i: int|
            0 < i < sections_of(content).len() ==> (#[trigger] sections_of(content)[i]).0.len() > 0
                && sections_of(content)[i].0[0] == '#',
{
    let ls = lines_of(content);
    lemma_section_lines(ls);
    lemma_section_closed(section_lines(ls));
    law_lines_keep_what_is_seen(content);
    lemma_visible_joined(ls);
}

/// A line that begins with `#` opens a section of its own; any other belongs to the one
/// before it.
pub proof fn law_headings_open_sections(ls: Seq<Seq<char>>, line: Seq<char>)
    ensures
        ({
            let before = section_closed(section_lines(ls));
            let after = section_closed(section_lines(ls.push(line)));
            &&& opens_section(line) ==> after == before.push((trimmed(line), Seq::<char>::empty()))
            &&& !opens_section(line) && before.len() > 0 ==> after.len() == before.len()
                && after.drop_last() == before.drop_last() && after.last().0 == before.last().0
                && visible(after.last().1) == visible(before.last().1) + visible(line)
        }),
{
    lemma_visible_breaks();
    let st = section_lines(ls);
    let next = section_lines(ls.push(line));
    assert(ls.push(line).drop_last() =~= ls);
    lemma_section_lines(ls);
    let t = trimmed_start(line);
    assert(has_prefix(t, "#"@) <==> opens_section(line)) by {
        if has_prefix(t, "#"@) {
            assert(t.subrange(0, 1)[0] == '#');
        } else if t.len() > 0 && t[0] == '#' {
            assert(t.subrange(0, 1) =~= seq!['#']);
        }
    }
    let before = section_closed(st);
    let after = section_closed(next);
    if opens_section(line) {
        law_trimming_takes_white_space(Seq::<char>::empty());
        assert(trimmed_end(Seq::<char>::empty()) =~= Seq::<char>::empty());
    } else if before.len() > 0 {
        assert(next.body =~= st.body + line + seq!['\n']);
        lemma_visible_concat(st.body + line, seq!['\n']);
        lemma_visible_concat(st.body, line);
        law_trimming_keeps_what_is_seen(st.body);
        law_trimming_keeps_what_is_seen(next.body);
        law_trimming_takes_white_space(st.body);
        law_trimming_takes_white_space(next.body);
        if !st.started {
            let k = choose|k: int| 0 <= k < st.body.len() && !white_space(st.body[k]);
            assert(!is_blank_text(st.body));
            assert(next.body[k] == st.body[k]);
            assert(!is_blank_text(next.body));
        }
        assert(after.drop_last() =~= before.drop_last());
        assert(visible(after.last().1) =~= visible(before.last().1) + visible(line));
    }
}

/// A word counts twice where it stands in the heading and once where it stands in the
/// body, whatever the case of the letters there.
pub proof fn law_words_count(
    words: Seq<Seq<char>>,
    word: Seq<char>,
    heading: Seq<char>,
    body: Seq<char>,
)
    ensures
        section_score(words.push(word), heading, body) == section_score(words, heading, body) + (
        if has_infix(lower(heading), word) {
            2nat
        } else {
            0
        }) + (if has_infix(lower(body), word) {
            1nat
        } else {
            0
        }),
        section_score(Seq::<Seq<char>>::empty(), heading, body) == 0,
{
    assert(words.push(word).drop_last() =~= words);
}

/// The sections that a search matches, in order: those in which a word stands.
pub open spec fn matching(
    words: Seq<Seq<char>>,
    sections: Seq<(Seq<char>, Seq<char>)>,
) -> Seq<MatchView>
    decreases sections.len(),
{
    if sections.len() == 0 {
        Seq::empty()
    } else if section_score(words, sections.last().0, sections.last().1) > 0 {
        matching(words, sections.drop_last()).push(match_of(words, sections.last()))
    } else {
        matching(words, sections.drop_last())
    }
}

proof fn lemma_ranking_multiset(
    words: Seq<Seq<char>>,
    sections: Seq<(Seq<char>, Seq<char>)>,
)
    ensures
        ranking(words, sections).to_multiset() == matching(words, sections).to_multiset(),
        ranking(words, sections).len() == matching(words, sections).len(),
    decreases sections.len(),
{
    broadcast use vstd::seq_lib::group_to_multiset_ensures;

    if sections.len() > 0 {
        lemma_ranking_multiset(words, sections.drop_last());
        let before = ranking(words, sections.drop_last());
        assert forall|a: int, b: int| 0 <= a <= b < before.len() implies before[a].score
            >= before[b].score by {
            law_ranking_is_sorted(words, sections.drop_last(), a, b);
        }
        lemma_placed_sorted(before, match_of(words, sections.last()));
    }
}

/// A search gives as many sections as are asked for, or all that match where there are
/// fewer; each is a section that matches, none given twice; the best come first; and none
/// that is left out scores higher than one that is given.
pub proof fn law_search_gives_the_best_sections(
    content: Seq<char>,
    words: Seq<Seq<char>>,
    max: nat,
)
    requires
        words.len() > 0,
    ensures
        ({
            let given = search_hits(content, words, max);
            let all = matching(words, sections_of(content));
            let left = all.to_multiset().sub(given.to_multiset());
            &&& given.len() == if max < all.len() {
                max
            } else {
                all.len()
            }
            &&& given.to_multiset().subset_of(all.to_multiset())
            &&& forall|i: int, j: int| 0 <= i <= j < given.len() ==> given[i].score >= given[j].score
            &&& forall|x: MatchView, i: int|
                #![trigger left.contains(x), given[i]]
                left.contains(x) && 0 <= i < given.len() ==> x.score <= given[i].score
        }),
{
    broadcast use vstd::seq_lib::group_to_multiset_ensures;

    let sections = sections_of(content);
    let ranked = ranking(words, sections);
    let all = matching(words, sections);
    lemma_ranking_multiset(words, sections);
    assert forall|a: int, b: int| 0 <= a <= b < ranked.len() implies ranked[a].score
        >= ranked[b].score by {
        law_ranking_is_sorted(words, sections, a, b);
    }
    let given = search_hits(content, words, max);
    let rest = ranked.skip(given.len() as int);
    assert(given =~= ranked.take(given.len() as int));
    assert(given + rest =~= ranked);
    vstd::seq_lib::lemma_multiset_commutative(given, rest);
    assert(all.to_multiset() =~= given.to_multiset().add(rest.to_multiset()));
    let left = all.to_multiset().sub(given.to_multiset());
    assert(left =~= rest.to_multiset());
    assert forall|x: MatchView, i: int|
        #![trigger left.contains(x), given[i]]
        left.contains(x) && 0 <= i < given.len() implies x.score <= given[i].score by {
        assert(rest.contains(x));
        let k = choose|k: int| 0 <= k < rest.len() && rest[k] == x;
        assert(ranked[given.len() + k] == x);
        assert(ranked[i] == given[i]);
    }
}

/// A match shows the heading of its section, the beginning of its body and its score.
pub proof fn law_matches_show_their_section(
    words: Seq<Seq<char>>,
    section: (Seq<char>, Seq<char>),
)
    ensures
        ({
            let m = match_of(words, section);
            &&& section.0.len() > 0 ==> m.heading == section.0
            &&& section.0.len() == 0 ==> m.heading == "(untitled)"@
            &&& utf8_len(trimmed(section.1)) <= 1200 ==> m.snippet == trimmed(section.1)
            &&& utf8_len(trimmed(section.1)) > 1200 ==> exists|k: int| #[trigger]
                is_longest_fit(trimmed(section.1), 1200, k) && m.snippet.take(k) == trimmed(
                    section.1,
                ).take(k)
            &&& section_score(words, section.0, section.1) <= usize::MAX ==> m.score
                == section_score(words, section.0, section.1)
        }),
{
    law_cut_texts_show_their_beginning(trimmed(section.1), 1200);
}

/// Around the first hit of a query, the whole section is shown: from the line that begins
/// with `#` before it, or the beginning, up to the next such line, or the end. A query that
/// stands nowhere is answered by saying so, and without one all of the text is shown.
pub proof fn law_reading_shows_the_section(content: Seq<char>, query: Seq<char>, max: nat)
    ensures
        l2_slice(content, None, max) == truncated(content, max),
        !has_infix(lower(content), lower(query)) ==> l2_slice(content, Some(query), max)
            == "No exact text match for query: "@ + query,
        has_infix(lower(content), lower(query)) ==> exists|i: int, start: int, end: int| #[trigger]
            is_shown_section(content, query, i, start, end) && l2_slice(content, Some(query), max)
                == truncated(content.subrange(start, end), max),
{
    lemma_visible_breaks();
    lemma_find_from(lower(content), lower(query), 0);
    match find_from(lower(content), lower(query), 0) {
        None => {},
        Some(i) => {
            assert(occurs_at(lower(content), lower(query), i));
            let front = content.take(i);
            lemma_find_back(front, "\n#"@, i);
            lemma_find_from(content, "\n#"@, i);
            let start = match find_back(front, "\n#"@, i) {
                Some(k) => k + 1,
                None => 0,
            };
            let end = match find_from(content, "\n#"@, i) {
                Some(k) => k,
                None => content.len() as int,
            };
            assert forall|j: int| j + 2 <= i implies (occurs_at(content, seq!['\n', '#'], j)
                <==> occurs_at(front, seq!['\n', '#'], j)) by {
                if 0 <= j {
                    assert(content.subrange(j, j + 2) =~= front.subrange(j, j + 2));
                }
            }
            if start > 0 {
                assert(occurs_at(front, seq!['\n', '#'], start - 1));
                assert(occurs_at(content, seq!['\n', '#'], start - 1));
            }
            assert forall|j: int| start <= j && j + 2 <= i implies !occurs_at(
                content,
                seq!['\n', '#'],
                j,
            ) by {
                assert(!occurs_at(front, seq!['\n', '#'], j));
            }
            assert(is_shown_section(content, query, i, start, end));
        },
    }
}

/// `i` is the first hit of the query, and the section around it goes from `start` to `end`.
pub open spec fn is_shown_section(
    content: Seq<char>,
    query: Seq<char>,
    i: int,
    start: int,
    end: int,
) -> bool {
    &&& occurs_at(lower(content), lower(query), i)
    &&& forall|j: int| j < i ==> !occurs_at(lower(content), lower(query), j)
    &&& 0 <= start <= i <= end <= content.len()
    &&& start == 0 || occurs_at(content, seq!['\n', '#'], start - 1)
    &&& end == content.len() || occurs_at(content, seq!['\n', '#'], end)
    &&& forall|j: int| start <= j && j + 2 <= i ==> !occurs_at(content, seq!['\n', '#'], j)
    &&& forall|j: int| i <= j < end ==> !occurs_at(content, seq!['\n', '#'], j)
}

/// The block for L1 ends with the content, without white space around it; there is none
/// where the content is blank or the bare title, and an error where it is too long.
pub proof fn law_the_l1_block_holds_the_content(content: Seq<char>)
    ensures
        is_blank_text(content) ==> l1_block(content) == Ok::<Option<Seq<char>>, Seq<char>>(None),
        trimmed(content) == "# L1 Online Memory"@ ==> l1_block(content) == Ok::<
            Option<Seq<char>>,
            Seq<char>,
        >(None),
        !is_blank_text(content) && trimmed(content) != "# L1 Online Memory"@ ==> (match l1_block(
            content,
        ) {
            Ok(b) => {
                &&& utf8_len(content) <= 5000
                &&& b is Some
                &&& has_suffix(b->0, trimmed(content))
                &&& b->0 == "Kivio Memory (L1 online memory; user-editable; persistent across chats):\n\n"@
                    + trimmed(content)
            },
            Err(_) => utf8_len(content) > 5000,
        }),
{
    let t = trimmed(content);
    let lead =
        "Kivio Memory (L1 online memory; user-editable; persistent across chats):\n\n"@;
    let b = lead + t;
    assert(b.subrange(b.len() - t.len(), b.len() as int) =~= t);
}

/// Content is refused where it holds one of these texts, whatever the case, and only there.
pub proof fn law_credentials_and_instructions_are_refused(content: Seq<char>)
    ensures
        content_fault(content) is Some <==> {
            let s = lower(content);
            ||| has_infix(s, "api_key"@)
            ||| has_infix(s, "apikey"@)
            ||| has_infix(s, "secret_key"@)
            ||| has_infix(s, "private key"@)
            ||| has_infix(s, "-----begin"@)
            ||| has_infix(s, "bearer "@)
            ||| has_infix(s, "password:"@)
            ||| has_infix(s, "passwd:"@)
            ||| has_infix(s, "sk-"@)
            ||| has_infix(s, "ghp_"@)
            ||| has_infix(s, "github_pat_"@)
            ||| has_infix(s, "ignore previous instructions"@)
            ||| has_infix(s, "ignore all previous instructions"@)
            ||| has_infix(s, "disregard previous instructions"@)
            ||| has_infix(s, "system prompt"@)
        },
        forall|layer: MemoryLayer|
            #![trigger layer_fault(layer, content)]
            layer_fault(layer, content) is Some <==> content_fault(content) is Some || (layer
                == MemoryLayer::L1 && utf8_len(content) > 5000),
{
    let s = lower(content);
    let a = secret_marks();
    let b = injection_marks();
    assert(has_infix(s, a[0]@) || !has_infix(s, a[0]@));
    assert(has_infix(s, a[1]@) || !has_infix(s, a[1]@));
    assert(has_infix(s, a[2]@) || !has_infix(s, a[2]@));
    assert(has_infix(s, a[3]@) || !has_infix(s, a[3]@));
    assert(has_infix(s, a[4]@) || !has_infix(s, a[4]@));
    assert(has_infix(s, a[5]@) || !has_infix(s, a[5]@));
    assert(has_infix(s, a[6]@) || !has_infix(s, a[6]@));
    assert(has_infix(s, a[7]@) || !has_infix(s, a[7]@));
    assert(has_infix(s, a[8]@) || !has_infix(s, a[8]@));
    assert(has_infix(s, a[9]@) || !has_infix(s, a[9]@));
    assert(has_infix(s, a[10]@) || !has_infix(s, a[10]@));
    assert(has_infix(s, b[0]@) || !has_infix(s, b[0]@));
    assert(has_infix(s, b[1]@) || !has_infix(s, b[1]@));
    assert(has_infix(s, b[2]@) || !has_infix(s, b[2]@));
    assert(has_infix(s, b[3]@) || !has_infix(s, b[3]@));
}

/// A name stands for a layer whatever its case and the white space around it.
pub proof fn law_layers_have_names(value: Seq<char>)
    ensures
        layer_of(value) == layer_of(trimmed(value)),
        layer_of(value) == layer_of(lower(value)),
        layer_of(value) == Ok::<MemoryLayer, Seq<char>>(MemoryLayer::L1) <==> lower(trimmed(value))
            == seq!['l', '1'],
        layer_of(value) == Ok::<MemoryLayer, Seq<char>>(MemoryLayer::L2) <==> lower(trimmed(value))
            == seq!['l', '2'],
{
    reveal_strlit("l1");
    reveal_strlit("l2");
    assert("l1"@ =~= seq!['l', '1']);
    assert("l2"@ =~= seq!['l', '2']);
    assert("l1"@[1] != "l2"@[1]);
    crate::text::lemma_trim_fixed(value);
    crate::text::lemma_lower_trim(value);
    crate::text::law_lower_folds_ascii_letters(trimmed(value));
}

/// Reading a layer shows it: what is shown ends with the content, where it is within the
/// limit, and the data holds all of it with its length.
pub proof fn law_reading_shows_the_layer(arguments: JsonView, layer: MemoryLayer, content: Seq<char>)
    requires
        arguments.field_text("layer"@) is Some,
        layer_of(arguments.field_text("layer"@)->0) == Ok::<MemoryLayer, Seq<char>>(layer),
    ensures
        read_outcome(arguments, content) is Ok,
        ({
            let r = read_outcome(arguments, content)->Ok_0;
            let limit = read_limit(arguments, layer);
            &&& utf8_len(content) <= limit && (layer == MemoryLayer::L1 || trimmed_arg(
                arguments,
                "query"@,
            ) is None) ==> has_suffix(r.content, trimmed(content))
            &&& r.raw.field_text("content"@) == Some(content)
            &&& utf8_len(content) <= u64::MAX ==> r.raw.field_unsigned("bytes"@) is Some && (
            r.raw.field_unsigned("bytes"@)->0) == utf8_len(content)
            &&& !r.is_error
        }),
{
    lemma_layer_keys();
    let r = read_outcome(arguments, content)->Ok_0;
    let t = trimmed(content);
    let limit = read_limit(arguments, layer);
    if utf8_len(content) <= limit && (layer == MemoryLayer::L1 || trimmed_arg(
        arguments,
        "query"@,
    ) is None) {
        assert(r.content.subrange(r.content.len() - t.len(), r.content.len() as int) =~= t);
    }
}

proof fn lemma_layer_keys()
    ensures
        "layer"@ != "content"@,
        "layer"@ != "bytes"@,
        "layer"@ != "maxBytes"@,
        "content"@ != "bytes"@,
        "content"@ != "maxBytes"@,
        "bytes"@ != "maxBytes"@,
{
    reveal_strlit("layer");
    reveal_strlit("content");
    reveal_strlit("bytes");
    reveal_strlit("maxBytes");
    assert("layer"@.len() == 5);
    assert("content"@.len() == 7);
    assert("layer"@[0] == 'l');
    assert("bytes"@[0] == 'b');
    assert("maxBytes"@.len() == 8);
    assert("bytes"@.len() == 5);
}

/// The limit of a reading is what is asked for, within bounds, or the usual one of the
/// layer; the number of results likewise.
pub proof fn law_limits_are_as_asked(arguments: JsonView, layer: MemoryLayer, n: u64)
    ensures
        arguments.field_unsigned("maxBytes"@) == Some(n) && 200 <= n <= 50_000 ==> read_limit(
            arguments,
            layer,
        ) == n,
        arguments.field("maxBytes"@) is None && arguments.field_unsigned("max_bytes"@) == Some(n)
            && 200 <= n <= 50_000 ==> read_limit(arguments, layer) == n,
        arguments.field("maxBytes"@) is None && arguments.field("max_bytes"@) is None
            ==> read_limit(arguments, MemoryLayer::L1) == 5000 && read_limit(
            arguments,
            MemoryLayer::L2,
        ) == 8000,
        200 <= read_limit(arguments, layer) <= 50_000,
        search_request(arguments) is Ok ==> 1 <= search_request(arguments)->Ok_0.1 <= 20,
        search_request(arguments) is Ok && arguments.field_unsigned("maxResults"@) == Some(n) && 1
            <= n <= 20 ==> search_request(arguments)->Ok_0.1 == n,
        search_request(arguments) is Ok && arguments.field("maxResults"@) is None
            && arguments.field("max_results"@) is None ==> search_request(arguments)->Ok_0.1 == 5,
        arguments.field_text("query"@) is Some && !is_blank_text(
            arguments.field_text("query"@)->0,
        ) && arguments.field("layer"@) is None ==> search_request(arguments) is Ok
            && search_request(arguments)->Ok_0.0 == trimmed(arguments.field_text("query"@)->0)
            && search_request(arguments)->Ok_0.2 == MemoryLayer::L2,
        arguments.field("query"@) is None ==> search_request(arguments) is Err,
{
}

/// A search answers with its matches, one by one and in order, each with its heading, its
/// snippet and its score.
pub proof fn law_matches_are_answered(
    arguments: JsonView,
    content: Seq<char>,
    query: Seq<char>,
    max: nat,
    layer: MemoryLayer,
)
    requires
        search_request(arguments) == Ok::<(Seq<char>, nat, MemoryLayer), Seq<char>>(
            (query, max, layer),
        ),
    ensures
        search_outcome(arguments, content) is Ok,
        ({
            let r = search_outcome(arguments, content)->Ok_0;
            let ms = search_hits(content, tokens_of(query), max);
            &&& r.structured_content is Some
            &&& (r.structured_content->0).field_text("query"@) == Some(query)
            &&& (r.structured_content->0).field_items("matches"@) is Some
            &&& ((r.structured_content->0).field_items("matches"@)->0).len() == ms.len()
            &&& forall|i: int|
                0 <= i < ms.len() ==> (#[trigger] ((r.structured_content->0).field_items(
                    "matches"@,
                )->0)[i]).field_text("heading"@) == Some(ms[i].heading) && ((
                r.structured_content->0).field_items("matches"@)->0)[i].field_text("snippet"@)
                    == Some(ms[i].snippet)
            &&& !r.is_error
        }),
{
    lemma_match_keys();
}

proof fn lemma_match_keys()
    ensures
        "query"@ != "layer"@,
        "query"@ != "matches"@,
        "query"@ != "heading"@,
        "query"@ != "snippet"@,
        "query"@ != "score"@,
        "layer"@ != "matches"@,
        "layer"@ != "heading"@,
        "layer"@ != "snippet"@,
        "layer"@ != "score"@,
        "matches"@ != "heading"@,
        "matches"@ != "snippet"@,
        "matches"@ != "score"@,
        "heading"@ != "snippet"@,
        "heading"@ != "score"@,
        "snippet"@ != "score"@,
{
    reveal_strlit("query");
    reveal_strlit("layer");
    reveal_strlit("matches");
    reveal_strlit("heading");
    reveal_strlit("snippet");
    reveal_strlit("score");
    assert("query"@[0] == 'q');
    assert("layer"@[0] == 'l');
    assert("query"@.len() == 5);
    assert("matches"@.len() == 7);
    assert("heading"@.len() == 7);
    assert("snippet"@.len() == 7);
    assert("score"@[0] == 's');
    assert("layer"@.len() == 5);
    assert("matches"@[0] == 'm');
    assert("heading"@[0] == 'h');
    assert("snippet"@[0] == 's');
    assert("score"@.len() == 5);
}

/// The list of matches ends with the last match, under its number, and begins with the
/// list of those before it.
pub proof fn law_matches_are_numbered(ms: Seq<MatchView>, m: MatchView)
    ensures
        ({
            let before = numbered(ms);
            let after = numbered(ms.push(m));
            let line = decimal(ms.len() + 1) + seq!['.', ' '] + m.heading + seq!['\n'] + m.snippet;
            &&& after.take(before.len() as int) == before
            &&& has_suffix(after, line)
            &&& ms.len() == 0 ==> after == line
            &&& ms.len() > 0 ==> after == before + seq!['\n', '\n'] + line
        }),
{
    reveal_strlit("\n\n");
    reveal_strlit(". ");
    reveal_strlit("\n");
    assert("\n\n"@ =~= seq!['\n', '\n']);
    assert(". "@ =~= seq!['.', ' ']);
    assert("\n"@ =~= seq!['\n']);
    let all = ms.push(m);
    assert(all.drop_last() =~= ms);
    let before = numbered(ms);
    let after = numbered(all);
    let line = decimal(ms.len() + 1) + seq!['.', ' '] + m.heading + seq!['\n'] + m.snippet;
    assert(after.take(before.len() as int) =~= before);
    assert(after.subrange(after.len() - line.len(), after.len() as int) =~= line);
    if ms.len() == 0 {
        assert(after =~= line);
    } else {
        assert(after =~= before + seq!['\n', '\n'] + line);
    }
}

/// A request that cannot be carried out is refused, and nothing is written: without
/// content to add, without a text to look for, with a text that stands nowhere, and with a
/// layer or an operation that is not known.
pub proof fn law_unusable_requests_are_refused(args: ModifyArgsView, l1: Seq<char>, l2: Seq<char>)
    ensures
        ({
            let r = change_of(args, l1, l2);
            let op = lower(trimmed(args.operation));
            let no_content = args.content is None || is_blank_text(args.content->0);
            let no_text = args.old_text is None || is_blank_text(args.old_text->0);
            let refused = r.shown is Err && r.writes.len() == 0;
            &&& layer_of(args.layer) is Err ==> refused
            &&& op != "append"@ && op != "replace"@ && op != "remove"@ && op != "archive"@
                ==> refused
            &&& op == "append"@ && no_content ==> refused
            &&& op == "replace"@ && (no_content || no_text) ==> refused
            &&& op == "remove"@ && no_text ==> refused
            &&& op == "archive"@ && (no_text || layer_of(args.layer) != Ok::<MemoryLayer, Seq<char>>(
                MemoryLayer::L1,
            )) ==> refused
            &&& layer_of(args.layer) is Ok && !no_text && (op == "replace"@ || op == "remove"@)
                && !has_infix(
                held(layer_of(args.layer)->Ok_0, l1, l2),
                trimmed(args.old_text->0),
            ) ==> refused
            &&& op == "archive"@ && !no_text && !has_infix(l1, trimmed(args.old_text->0)) ==> refused
        }),
{
    lemma_operations();
    if layer_of(args.layer) is Ok && args.old_text is Some && !is_blank_text(args.old_text->0) {
        law_one_place_is_counted_once(
            held(layer_of(args.layer)->Ok_0, l1, l2),
            trimmed(args.old_text->0),
        );
        law_one_place_is_counted_once(l1, trimmed(args.old_text->0));
    }
}

/// After a change the tool answers with the layer as it then is, and how long; a change
/// that failed is answered with its error.
pub proof fn law_changes_are_reported(args: ModifyArgsView, l1: Seq<char>, l2: Seq<char>)
    ensures
        ({
            let change = change_of(args, l1, l2);
            let r = change_report(args, change);
            &&& change.shown is Err ==> r == Err::<ToolResultView, Seq<char>>(change.shown->Err_0)
            &&& change.shown is Ok ==> r is Ok && r->Ok_0.raw.field_text("content"@) == Some(
                change.shown->Ok_0.content,
            ) && !r->Ok_0.is_error && has_infix(
                r->Ok_0.content,
                decimal(change.shown->Ok_0.bytes),
            )
            &&& change.shown is Ok ==> change.shown->Ok_0.bytes == utf8_len(
                change.shown->Ok_0.content,
            )
            &&& change.shown is Ok && change.writes.len() > 0 && change.writes.last().0
                == layer_of(args.layer)->Ok_0 ==> change.shown->Ok_0.content
                == change.writes.last().1
        }),
{
    lemma_layer_keys();
    let change = change_of(args, l1, l2);
    if change.shown is Ok {
        let r = change_report(args, change)->Ok_0;
        let d = decimal(change.shown->Ok_0.bytes);
        let head = (layer_of(args.layer)->Ok_0).spec_label() + " memory updated by "@ + lower(
            trimmed(args.operation),
        ) + ". Current size: "@;
        let k = head.len() as int;
        assert(r.content.subrange(k, k + d.len()) =~= d);
        assert(occurs_at(r.content, d, k));
    }
}

} // verus!
