//! What is known of models: their limits, abilities and prices.
//!
//! What the user has set for a model counts first, then the entry of the model
//! database, then what the name suggests.

use vstd::prelude::*;

use crate::image_generation::has_known_direct_image_generation_route;
use crate::image_generation::known_route;
use crate::json::{fields_view, items_view, opt_json, parsed_json};
use crate::json::{Json, JsonView};
use crate::settings::{find_provider, ModelChoice, ModelInfo, ModelPricing, ModelProvider};
use crate::settings::{override_of, provider_index};
use crate::text::{
    byte_len, concat2, concat5, contains, contains_any, copy_str, is_before, is_blank, list_contains,
    one_of, split_char, starts_with, str_eq, to_lower, trim,
};
use crate::text::{
    has_any_infix, has_infix, has_prefix, is_blank_text, is_one_of, lemma_text_before_total,
    lemma_text_before_transitive, lower, split_on, strings, text_before, trimmed, utf8_len,
};

verus! {

pub const FALLBACK_CONTEXT_WINDOW_TOKENS: usize = 200_000;

// ---------------------------------------------------------------------
// The database
// ---------------------------------------------------------------------

/// What is known of models, by name. Where a name has two entries, the later one
/// counts. `large_families` are the families, in lower case, whose context window is
/// taken to be 200,000 tokens where nothing else is known.
#[derive(Debug)]
pub struct ModelDatabase {
    pub entries: Vec<(String, Json)>,
    pub large_families: Vec<String>,
}

impl View for ModelDatabase {
    type V = Seq<(Seq<char>, JsonView)>;

    open spec fn view(&self) -> Seq<(Seq<char>, JsonView)> {
        Seq::new(self.entries@.len(), |i: int| (self.entries@[i].0@, self.entries@[i].1@))
    }
}

/// The entry of a name.
pub open spec fn entry_named(entries: Seq<(Seq<char>, JsonView)>, name: Seq<char>) -> Option<JsonView>
    decreases entries.len(),
{
    if entries.len() == 0 {
        None
    } else if entries.last().0 == name {
        Some(entries.last().1)
    } else {
        entry_named(entries.drop_last(), name)
    }
}

/// The name of a model without the part that ends in the last slash.
pub open spec fn bare_name(name: Seq<char>) -> Seq<char> {
    split_on(name, '/').last()
}

/// A key that begins the name, and is shorter.
pub open spec fn begins(key: Seq<char>, name: Seq<char>) -> bool {
    has_prefix(name, key) && utf8_len(key) < utf8_len(name)
}

/// A key that the name holds, and is another text.
pub open spec fn within(key: Seq<char>, name: Seq<char>) -> bool {
    key != name && has_infix(name, key)
}

/// A key of the database that stands for a model of the name.
pub open spec fn stands_for(key: Seq<char>, name: Seq<char>, inside: bool) -> bool {
    key != "_meta"@ && if inside {
        within(key, name) || within(key, bare_name(name))
    } else {
        begins(key, name) || begins(key, bare_name(name))
    }
}

/// The place of the entry with the longest key that stands for the name; of keys
/// of one length, that of the last.
pub open spec fn longest(entries: Seq<(Seq<char>, JsonView)>, name: Seq<char>, inside: bool) -> Option<
    int,
>
    decreases entries.len(),
{
    if entries.len() == 0 {
        None
    } else {
        let before = longest(entries.drop_last(), name, inside);
        if !stands_for(entries.last().0, name, inside) {
            before
        } else {
            match before {
                Some(i) => if utf8_len(entries.last().0) >= utf8_len(entries[i].0) {
                    Some(entries.len() - 1)
                } else {
                    before
                },
                None => Some(entries.len() - 1),
            }
        }
    }
}

/// The entry of the database that stands for a model: that of its lower-case name,
/// else that of the name without its maker, else that with the longest key that
/// begins either, else that with the longest key that either holds.
pub open spec fn database_entry(entries: Seq<(Seq<char>, JsonView)>, model: Seq<char>) -> Option<JsonView> {
    let name = lower(trimmed(model));
    if is_blank_text(model) {
        None
    } else if entry_named(entries, name) is Some {
        entry_named(entries, name)
    } else if entry_named(entries, bare_name(name)) is Some {
        entry_named(entries, bare_name(name))
    } else {
        match longest(entries, name, false) {
            Some(i) => Some(entries[i].1),
            None => match longest(entries, name, true) {
                Some(i) => Some(entries[i].1),
                None => None,
            },
        }
    }
}

proof fn lemma_longest(entries: Seq<(Seq<char>, JsonView)>, name: Seq<char>, inside: bool)
    ensures
        longest(entries, name, inside) matches Some(i) ==> 0 <= i < entries.len() && stands_for(
            entries[i].0,
            name,
            inside,
        ),
    decreases entries.len(),
{
    if entries.len() > 0 {
        lemma_longest(entries.drop_last(), name, inside);
    }
}

/// The entry that is found by a part of its key has the longest such key; of keys of
/// one length it is the last.
pub proof fn law_longest_key_wins(
    entries: Seq<(Seq<char>, JsonView)>,
    name: Seq<char>,
    inside: bool,
    j: int,
)
    requires
        0 <= j < entries.len(),
        stands_for(entries[j].0, name, inside),
    ensures
        longest(entries, name, inside) is Some,
        0 <= longest(entries, name, inside)->0 < entries.len(),
        stands_for(entries[longest(entries, name, inside)->0].0, name, inside),
        utf8_len(entries[j].0) <= utf8_len(entries[longest(entries, name, inside)->0].0),
        utf8_len(entries[j].0) == utf8_len(entries[longest(entries, name, inside)->0].0) ==> j
            <= longest(entries, name, inside)->0,
    decreases entries.len(),
{
    lemma_longest(entries, name, inside);
    lemma_longest(entries.drop_last(), name, inside);
    if j < entries.len() - 1 {
        assert(entries.drop_last()[j] == entries[j]);
        law_longest_key_wins(entries.drop_last(), name, inside, j);
    }
}

/// The names stand in order, each once.
pub open spec fn in_name_order(entries: Seq<(String, Json)>) -> bool {
    forall|i: int, j: int|
        0 <= i < j < entries.len() ==> text_before(
            (#[trigger] entries[i]).0@,
            (#[trigger] entries[j]).0@,
        )
}

/// Where each name stands once, the map holds just the entries.
proof fn lemma_entries_map(entries: Seq<(String, Json)>)
    requires
        in_name_order(entries),
    ensures
        forall|i: int|
            0 <= i < entries.len() ==> fields_view(entries).contains_key(
                (#[trigger] entries[i]).0@,
            ) && fields_view(entries)[entries[i].0@] == entries[i].1@,
        forall|k: Seq<char>| #[trigger]
            fields_view(entries).contains_key(k) ==> exists|i: int|
                0 <= i < entries.len() && (#[trigger] entries[i]).0@ == k,
    decreases entries.len(),
{
    if entries.len() > 0 {
        let front = entries.drop_last();
        let last = entries.last();
        lemma_entries_map(front);
        assert forall|i: int| 0 <= i < entries.len() implies fields_view(entries).contains_key(
            (#[trigger] entries[i]).0@,
        ) && fields_view(entries)[entries[i].0@] == entries[i].1@ by {
            if i < front.len() {
                assert(front[i] == entries[i]);
                lemma_text_before_total(entries[i].0@, last.0@);
            }
        }
        assert forall|k: Seq<char>| #[trigger] fields_view(entries).contains_key(k) implies exists|
            i: int,
        | 0 <= i < entries.len() && (#[trigger] entries[i]).0@ == k by {
            if k == last.0@ {
                assert(entries[entries.len() - 1].0@ == k);
            } else {
                assert(fields_view(front).contains_key(k));
                let i = choose|i: int| 0 <= i < front.len() && (#[trigger] front[i]).0@ == k;
                assert(entries[i] == front[i]);
            }
        }
    }
}

/// Puts an entry in its place, instead of one of the same name.
fn place_entry(entries: &mut Vec<(String, Json)>, name: String, value: Json)
    requires
        in_name_order(old(entries)@),
    ensures
        in_name_order(final(entries)@),
        fields_view(final(entries)@) == fields_view(old(entries)@).insert(name@, value@),
{
    let ghost before = entries@;
    let ghost n = name@;
    let ghost v = value@;
    let mut i: usize = 0;
    while i < entries.len() && is_before(entries[i].0.as_str(), name.as_str())
        invariant
            entries@ == before,
            i <= before.len(),
            forall|j: int| 0 <= j < i ==> text_before((#[trigger] before[j]).0@, name@),
        decreases before.len() - i,
    {
        i += 1;
    }
    let here = i < entries.len() && str_eq(entries[i].0.as_str(), name.as_str());
    if here {
        entries.set(i, (name, value));
    } else {
        entries.insert(i, (name, value));
    }
    proof {
        let after = entries@;
        let step: int = if here {
            0
        } else {
            1
        };
        assert forall|j: int| i <= j < before.len() && (j > i || !here) implies text_before(
            n,
            (#[trigger] before[j]).0@,
        ) by {
            lemma_text_before_total(n, before[i as int].0@);
            if j > i && !here {
                lemma_text_before_transitive(n, before[i as int].0@, before[j].0@);
            }
        }
        assert forall|a: int| 0 <= a < after.len() && a != i implies #[trigger] after[a] == before[if a
            < i {
            a
        } else {
            a - step
        }] by {}
        assert(after[i as int].0@ == n && after[i as int].1@ == v);
        lemma_entries_map(before);
        lemma_entries_map(after);
        let m = fields_view(before).insert(n, v);
        assert forall|k: Seq<char>| fields_view(after).contains_key(k) == #[trigger] m.contains_key(
            k,
        ) && (m.contains_key(k) ==> fields_view(after)[k] == m[k]) by {
            if fields_view(after).contains_key(k) {
                let a = choose|a: int| 0 <= a < after.len() && (#[trigger] after[a]).0@ == k;
                if a != i {
                    let b = if a < i {
                        a
                    } else {
                        a - step
                    };
                    assert(after[a] == before[b]);
                    lemma_text_before_total(k, n);
                }
            }
            if m.contains_key(k) && k != n {
                let b = choose|b: int| 0 <= b < before.len() && (#[trigger] before[b]).0@ == k;
                let a = if b < i {
                    b
                } else {
                    b + step
                };
                assert(after[a] == before[b]);
            }
        }
        assert(fields_view(after) =~= m);
    }
}

impl ModelDatabase {
    /// The database that a JSON object is, its names in order, with the families whose
    /// window is large; without entries where the text is no object.
    pub fn parse(text: &str, large_families: Vec<String>) -> (r: ModelDatabase)
        ensures
            r.large_families@ == large_families@,
            in_name_order(r.entries@),
            match parsed_json(text@) {
                Ok(JsonView::Object(m)) => fields_view(r.entries@) == m,
                _ => r.entries@.len() == 0,
            },
    {
        let mut entries: Vec<(String, Json)> = Vec::new();
        if let Ok(Json::Object(o)) = Json::parse(text) {
            let mut i: usize = 0;
            while i < o.fields.len()
                invariant
                    i <= o.fields@.len(),
                    in_name_order(entries@),
                    fields_view(entries@) == fields_view(o.fields@.take(i as int)),
                decreases o.fields@.len() - i,
            {
                place_entry(&mut entries, o.fields[i].0.clone(), o.fields[i].1.copy());
                assert(o.fields@.take(i + 1).drop_last() =~= o.fields@.take(i as int));
                i += 1;
            }
            assert(o.fields@.take(o.fields@.len() as int) =~= o.fields@);
        }
        ModelDatabase { entries, large_families }
    }

    fn find_named(&self, name: &str) -> (r: Option<&Json>)
        ensures
            match r {
                Some(j) => entry_named(self@, name@) == Some(j@),
                None => entry_named(self@, name@) is None,
            },
    {
        let mut i: usize = self.entries.len();
        assert(self@.take(i as int) =~= self@);
        while i > 0
            invariant
                i <= self.entries@.len(),
                entry_named(self@.take(i as int), name@) == entry_named(self@, name@),
            decreases i,
        {
            assert(self@.take(i as int).drop_last() =~= self@.take(i - 1));
            assert(self@.take(i as int).last() == (
                self.entries@[i - 1].0@,
                self.entries@[i - 1].1@,
            ));
            if str_eq(self.entries[i - 1].0.as_str(), name) {
                return Some(&self.entries[i - 1].1);
            }
            i -= 1;
        }
        None
    }

    fn find_longest(&self, name: &str, bare: &str, inside: bool) -> (r: Option<usize>)
        requires
            bare@ == bare_name(name@),
        ensures
            match r {
                Some(i) => i < self.entries@.len() && longest(self@, name@, inside) == Some(
                    i as int,
                ),
                None => longest(self@, name@, inside) is None,
            },
    {
        let mut best: Option<usize> = None;
        let mut i: usize = 0;
        let ghost all = self@;
        assert(all.take(0) =~= Seq::<(Seq<char>, JsonView)>::empty());
        while i < self.entries.len()
            invariant
                i <= self.entries@.len(),
                all == self@,
                bare@ == bare_name(name@),
                match best {
                    Some(b) => b < i && longest(all.take(i as int), name@, inside) == Some(b as int),
                    None => longest(all.take(i as int), name@, inside) is None,
                },
            decreases self.entries@.len() - i,
        {
            let key = self.entries[i].0.as_str();
            assert(all.take(i + 1).drop_last() =~= all.take(i as int));
            assert(all.take(i + 1).last().0 == key@);
            let found = !str_eq(key, "_meta") && if inside {
                is_within(key, name) || is_within(key, bare)
            } else {
                does_begin(key, name) || does_begin(key, bare)
            };
            if found {
                best = match best {
                    Some(b) => {
                        assert(all.take(i + 1)[b as int].0 == self.entries@[b as int].0@);
                        if byte_len(key) >= byte_len(self.entries[b].0.as_str()) {
                            Some(i)
                        } else {
                            Some(b)
                        }
                    },
                    None => Some(i),
                };
            }
            i += 1;
        }
        assert(all.take(all.len() as int) =~= all);
        best
    }

    /// The entry that stands for a model.
    pub fn model_database_entry(&self, model: &str) -> (r: Option<&Json>)
        ensures
            match r {
                Some(j) => database_entry(self@, model@) == Some(j@),
                None => database_entry(self@, model@) is None,
            },
    {
        if is_blank(model) {
            return None;
        }
        let name = to_lower(trim(model).as_str());
        let parts = split_char(name.as_str(), '/');
        assert(strings(parts@).len() == parts@.len());
        let bare = parts[parts.len() - 1].as_str();
        assert(strings(parts@).last() == bare@);
        if let Some(entry) = self.find_named(name.as_str()) {
            return Some(entry);
        }
        if let Some(entry) = self.find_named(bare) {
            return Some(entry);
        }
        match self.find_longest(name.as_str(), bare, false) {
            Some(i) => {
                assert(self@[i as int].1 == self.entries@[i as int].1@);
                Some(&self.entries[i].1)
            },
            None => match self.find_longest(name.as_str(), bare, true) {
                Some(i) => {
                    assert(self@[i as int].1 == self.entries@[i as int].1@);
                    Some(&self.entries[i].1)
                },
                None => None,
            },
        }
    }
}

fn does_begin(key: &str, name: &str) -> (r: bool)
    ensures
        r == begins(key@, name@),
{
    starts_with(name, key) && byte_len(key) < byte_len(name)
}

fn is_within(key: &str, name: &str) -> (r: bool)
    ensures
        r == within(key@, name@),
{
    !str_eq(key, name) && contains(name, key)
}

// ---------------------------------------------------------------------
// Limits and abilities
// ---------------------------------------------------------------------

/// A count that is positive and not above a limit.
pub open spec fn usable(n: Option<u64>, limit: int) -> Option<int> {
    match n {
        Some(k) => if 0 < k <= limit {
            Some(k as int)
        } else {
            None
        },
        None => None,
    }
}

fn usable_usize(n: Option<u64>) -> (r: Option<usize>)
    ensures
        match r {
            Some(k) => usable(n, usize::MAX as int) == Some(k as int),
            None => usable(n, usize::MAX as int) is None,
        },
{
    match n {
        Some(k) => if k > 0 && k <= usize::MAX as u64 {
            Some(k as usize)
        } else {
            None
        },
        None => None,
    }
}

fn usable_u32(n: Option<u64>) -> (r: Option<u32>)
    ensures
        match r {
            Some(k) => usable(n, u32::MAX as int) == Some(k as int),
            None => usable(n, u32::MAX as int) is None,
        },
{
    match n {
        Some(k) => if k > 0 && k <= u32::MAX as u64 {
            Some(k as u32)
        } else {
            None
        },
        None => None,
    }
}

/// What the user has set for a model of a provider.
pub open spec fn user_info(provider: Option<&ModelProvider>, model: Seq<char>) -> Option<ModelInfo> {
    match provider {
        Some(p) => override_of(p.model_overrides@, model),
        None => None,
    }
}

fn get_user_info<'a>(provider: Option<&'a ModelProvider>, model: &str) -> (r: Option<&'a ModelInfo>)
    ensures
        match r {
            Some(info) => user_info(provider, model@) == Some(*info),
            None => user_info(provider, model@) is None,
        },
{
    match provider {
        Some(p) => p.model_override(model),
        None => None,
    }
}

/// A count of the entry of a model.
pub open spec fn entry_count(
    entries: Seq<(Seq<char>, JsonView)>,
    model: Seq<char>,
    key: Seq<char>,
) -> Option<u64> {
    match database_entry(entries, model) {
        Some(entry) => entry.field_unsigned(key),
        None => None,
    }
}

fn get_entry_count(database: &ModelDatabase, model: &str, key: &str) -> (r: Option<u64>)
    ensures
        r == entry_count(database@, model@, key@),
{
    match database.model_database_entry(model) {
        Some(entry) => entry.get_u64(key),
        None => None,
    }
}

/// The sizes that names of models end in, with what they mean.
pub open spec fn size_marks() -> Seq<(&'static str, usize)> {
    seq![
        ("1m", 1_000_000usize),
        ("200k", 200_000usize),
        ("128k", 128_000usize),
        ("100k", 100_000usize),
        ("64k", 64_000usize),
        ("32k", 32_000usize),
        ("16k", 16_000usize),
        ("8k", 8_000usize),
    ]
}

/// The first of the sizes, from `from` on, that the name holds.
pub open spec fn size_in_name(name: Seq<char>, marks: Seq<(&str, usize)>, from: int) -> Option<usize>
    decreases marks.len() - from,
{
    if from < 0 || from >= marks.len() {
        None
    } else if has_infix(name, marks[from].0@) {
        Some(marks[from].1)
    } else {
        size_in_name(name, marks, from + 1)
    }
}

/// The families whose context window is taken to be 128,000 tokens.
pub open spec fn medium_families() -> Seq<&'static str> {
    seq!["gpt-4o", "gpt-4.1", "gpt-5", "deepseek", "qwen", "gemini"]
}

/// One of the families is named.
pub open spec fn names_family(name: Seq<char>, families: Seq<Seq<char>>) -> bool {
    exists|i: int| 0 <= i < families.len() && has_infix(name, #[trigger] families[i])
}

fn find_family(name: &str, families: &Vec<String>) -> (r: bool)
    ensures
        r == names_family(name@, strings(families@)),
{
    let ghost all = strings(families@);
    let mut i: usize = 0;
    while i < families.len()
        invariant
            i <= families@.len(),
            all == strings(families@),
            forall|j: int| 0 <= j < i ==> !has_infix(name@, #[trigger] all[j]),
        decreases families@.len() - i,
    {
        assert(all[i as int] == families@[i as int]@);
        if contains(name, families[i].as_str()) {
            return true;
        }
        i += 1;
    }
    false
}

/// The context window that a name suggests, and whether it is a mere guess.
pub open spec fn window_by_name(model: Seq<char>, large: Seq<Seq<char>>) -> (int, bool) {
    let name = lower(model);
    match size_in_name(name, size_marks(), 0) {
        Some(tokens) => (tokens as int, false),
        None => if names_family(name, large) {
            (200_000, false)
        } else if has_any_infix(name, medium_families()) {
            (128_000, true)
        } else {
            (FALLBACK_CONTEXT_WINDOW_TOKENS as int, true)
        },
    }
}

fn get_window_by_name(model: &str, large: &Vec<String>) -> (r: (usize, bool))
    ensures
        (r.0 as int, r.1) == window_by_name(model@, strings(large@)),
{
    let name = to_lower(model);
    let marks: [(&str, usize); 8] = [
        ("1m", 1_000_000),
        ("200k", 200_000),
        ("128k", 128_000),
        ("100k", 100_000),
        ("64k", 64_000),
        ("32k", 32_000),
        ("16k", 16_000),
        ("8k", 8_000),
    ];
    assert(marks@ =~= size_marks());
    let mut i: usize = 0;
    while i < marks.len()
        invariant
            i <= 8,
            marks@ == size_marks(),
            marks@.len() == 8,
            name@ == lower(model@),
            size_in_name(name@, marks@, 0) == size_in_name(name@, marks@, i as int),
        decreases 8 - i,
    {
        if contains(name.as_str(), marks[i].0) {
            return (marks[i].1, false);
        }
        i += 1;
    }
    if find_family(name.as_str(), large) {
        return (200_000, false);
    }
    let families = ["gpt-4o", "gpt-4.1", "gpt-5", "deepseek", "qwen", "gemini"];
    assert(families@ =~= medium_families());
    if contains_any(name.as_str(), &families) {
        return (128_000, true);
    }
    (FALLBACK_CONTEXT_WINDOW_TOKENS, true)
}

/// The context window of a model, and whether it is a mere guess.
pub open spec fn context_window(
    entries: Seq<(Seq<char>, JsonView)>,
    large: Seq<Seq<char>>,
    provider: Option<&ModelProvider>,
    model: Seq<char>,
) -> (int, bool) {
    let set = match user_info(provider, model) {
        Some(info) => usable(info.context_window, usize::MAX as int),
        None => None,
    };
    match set {
        Some(tokens) => (tokens, false),
        None => match usable(entry_count(entries, model, "contextWindow"@), usize::MAX as int) {
            Some(tokens) => (tokens, false),
            None => window_by_name(model, large),
        },
    }
}

/// The context window of a model, and whether it is a mere guess.
pub fn context_window_for_model(
    database: &ModelDatabase,
    provider: Option<&ModelProvider>,
    model: &str,
) -> (r: (usize, bool))
    ensures
        (r.0 as int, r.1) == context_window(
            database@,
            strings(database.large_families@),
            provider,
            model@,
        ),
        r.0 > 0,
{
    let set = match get_user_info(provider, model) {
        Some(info) => usable_usize(info.context_window),
        None => None,
    };
    if let Some(tokens) = set {
        return (tokens, false);
    }
    if let Some(tokens) = usable_usize(get_entry_count(database, model, "contextWindow")) {
        return (tokens, false);
    }
    proof {
        lemma_sizes_positive(lower(model@), 0);
    }
    get_window_by_name(model, &database.large_families)
}

proof fn lemma_sizes_positive(name: Seq<char>, from: int)
    requires
        0 <= from <= 8,
    ensures
        size_in_name(name, size_marks(), from) matches Some(tokens) ==> tokens > 0,
    decreases 8 - from,
{
    if from < 8 {
        lemma_sizes_positive(name, from + 1);
    }
}

/// How many tokens a model may answer with.
pub open spec fn max_output(
    entries: Seq<(Seq<char>, JsonView)>,
    provider: Option<&ModelProvider>,
    model: Seq<char>,
    fallback: int,
) -> int {
    let set = match user_info(provider, model) {
        Some(info) => usable(info.max_output, u32::MAX as int),
        None => None,
    };
    match set {
        Some(tokens) => tokens,
        None => match usable(entry_count(entries, model, "maxOutput"@), u32::MAX as int) {
            Some(tokens) => tokens,
            None => fallback,
        },
    }
}

/// How many tokens a model may answer with.
pub fn chat_max_output_tokens_for_model(
    database: &ModelDatabase,
    provider: Option<&ModelProvider>,
    model: &str,
    fallback: u32,
) -> (r: u32)
    ensures
        r == max_output(database@, provider, model@, fallback as int),
{
    let set = match get_user_info(provider, model) {
        Some(info) => usable_u32(info.max_output),
        None => None,
    };
    if let Some(tokens) = set {
        return tokens;
    }
    match usable_u32(get_entry_count(database, model, "maxOutput")) {
        Some(tokens) => tokens,
        None => fallback,
    }
}

/// An ability that the entry of a model speaks of.
pub open spec fn entry_ability(
    entries: Seq<(Seq<char>, JsonView)>,
    model: Seq<char>,
    key: Seq<char>,
) -> Option<bool> {
    match database_entry(entries, model) {
        Some(entry) => match entry.path("capabilities"@, key) {
            Some(v) => v.truth(),
            None => None,
        },
        None => None,
    }
}

fn get_entry_ability(database: &ModelDatabase, model: &str, key: &str) -> (r: Option<bool>)
    ensures
        r == entry_ability(database@, model@, key@),
{
    match database.model_database_entry(model) {
        Some(entry) => match entry.get_path("capabilities", key) {
            Some(v) => v.as_bool(),
            None => None,
        },
        None => None,
    }
}

/// Whether a model sees images, where that is known.
pub open spec fn sees_images(
    entries: Seq<(Seq<char>, JsonView)>,
    provider: Option<&ModelProvider>,
    model: Seq<char>,
) -> Option<bool> {
    match provider {
        None => None,
        Some(p) => {
            let set = match override_of(p.model_overrides@, model) {
                Some(info) => match info.capabilities {
                    Some(c) => c.vision,
                    None => None,
                },
                None => None,
            };
            match set {
                Some(b) => Some(b),
                None => entry_ability(entries, model, "vision"@),
            }
        },
    }
}

/// Whether a model sees images, where that is known.
pub fn model_supports_vision(
    database: &ModelDatabase,
    provider: Option<&ModelProvider>,
    model: &str,
) -> (r: Option<bool>)
    ensures
        r == sees_images(database@, provider, model@),
{
    let p = match provider {
        Some(p) => p,
        None => {
            return None;
        },
    };
    let set = match p.model_override(model) {
        Some(info) => match info.capabilities {
            Some(c) => c.vision,
            None => None,
        },
        None => None,
    };
    match set {
        Some(b) => Some(b),
        None => get_entry_ability(database, model, "vision"),
    }
}

/// The marks of models that generate images.
pub open spec fn image_model_marks() -> Seq<&'static str> {
    seq![
        "gpt-image",
        "dall-e",
        "grok-imagine-image",
        "gemini-3.1-flash-image",
        "gemini-3-pro-image",
        "gemini-2.5-flash-image",
        "flux",
        "recraft",
        "riverflow",
        "stable-diffusion",
        "sdxl",
        "ideogram",
        "imagen",
        "image-generation",
        "image_generation",
    ]
}

/// Whether the names suggest that a model generates images: `true`, or unknown.
pub open spec fn suggests_images(provider: ModelProvider, model: Seq<char>) -> Option<bool> {
    let descriptor = lower(
        provider.name@ + " "@ + provider.base_url@ + " "@ + provider.api_format@ + (" "@ + model),
    );
    if has_any_infix(descriptor, image_model_marks()) {
        Some(true)
    } else {
        None
    }
}

/// Whether the names suggest that a model generates images.
pub fn image_generation_model_name_heuristic(provider: &ModelProvider, model: &str) -> (r: Option<
    bool,
>)
    ensures
        r == suggests_images(*provider, model@),
{
    let mut text = concat5(
        provider.name.as_str(),
        " ",
        provider.base_url.as_str(),
        " ",
        provider.api_format.as_str(),
    );
    let rest = concat2(" ", model);
    text.append(rest.as_str());
    let descriptor = to_lower(text.as_str());
    let marks = [
        "gpt-image",
        "dall-e",
        "grok-imagine-image",
        "gemini-3.1-flash-image",
        "gemini-3-pro-image",
        "gemini-2.5-flash-image",
        "flux",
        "recraft",
        "riverflow",
        "stable-diffusion",
        "sdxl",
        "ideogram",
        "imagen",
        "image-generation",
        "image_generation",
    ];
    assert(marks@ =~= image_model_marks());
    if contains_any(descriptor.as_str(), &marks) {
        Some(true)
    } else {
        None
    }
}

/// Whether a model generates images, where that is known.
pub open spec fn makes_images(
    entries: Seq<(Seq<char>, JsonView)>,
    provider: Option<&ModelProvider>,
    model: Seq<char>,
) -> Option<bool> {
    match provider {
        None => None,
        Some(p) => {
            let set = match override_of(p.model_overrides@, model) {
                Some(info) => match info.capabilities {
                    Some(c) => c.image_generation,
                    None => None,
                },
                None => None,
            };
            match set {
                Some(b) => Some(b),
                None => match entry_ability(entries, model, "imageGeneration"@) {
                    Some(b) => Some(b),
                    None => suggests_images(*p, model),
                },
            }
        },
    }
}

/// Whether a model generates images, where that is known.
pub fn model_supports_image_generation(
    database: &ModelDatabase,
    provider: Option<&ModelProvider>,
    model: &str,
) -> (r: Option<bool>)
    ensures
        r == makes_images(database@, provider, model@),
{
    let p = match provider {
        Some(p) => p,
        None => {
            return None;
        },
    };
    let set = match p.model_override(model) {
        Some(info) => match info.capabilities {
            Some(c) => c.image_generation,
            None => None,
        },
        None => None,
    };
    match set {
        Some(b) => Some(b),
        None => match get_entry_ability(database, model, "imageGeneration") {
            Some(b) => Some(b),
            None => image_generation_model_name_heuristic(p, model),
        },
    }
}

/// A model generates images and there is a way to ask it.
pub open spec fn makes_images_directly(
    entries: Seq<(Seq<char>, JsonView)>,
    provider: ModelProvider,
    model: Seq<char>,
) -> bool {
    makes_images(entries, Some(&provider), model) == Some(true) && known_route(provider, model)
}

/// Whether a model generates images and there is a way to ask it.
pub fn model_can_generate_images_directly(
    database: &ModelDatabase,
    provider: &ModelProvider,
    model: &str,
) -> (r: bool)
    ensures
        r == makes_images_directly(database@, *provider, model@),
{
    match model_supports_image_generation(database, Some(provider), model) {
        Some(true) => has_known_direct_image_generation_route(provider, model),
        _ => false,
    }
}

/// The provider and model that images are generated with: the one chosen for
/// that, else the one of the session where it generates images itself.
pub open spec fn image_model_of(
    entries: Seq<(Seq<char>, JsonView)>,
    chosen: ModelChoice,
    providers: Seq<ModelProvider>,
    session: Option<&ModelChoice>,
) -> Option<(Seq<char>, Seq<char>)> {
    if chosen.made() {
        Some((chosen.provider_id@, chosen.model@))
    } else {
        match session {
            None => None,
            Some(s) => if !s.made() {
                None
            } else {
                match provider_index(providers, s.provider_id@, 0) {
                    None => None,
                    Some(i) => if makes_images_directly(entries, providers[i], s.model@) {
                        Some((s.provider_id@, s.model@))
                    } else {
                        None
                    },
                }
            },
        }
    }
}

/// The provider and model that images are generated with.
pub fn image_generation_model_for_session(
    database: &ModelDatabase,
    chosen: &ModelChoice,
    providers: &Vec<ModelProvider>,
    session: Option<&ModelChoice>,
) -> (r: Option<(String, String)>)
    ensures
        match r {
            Some(pair) => image_model_of(database@, *chosen, providers@, session) == Some(
                (pair.0@, pair.1@),
            ),
            None => image_model_of(database@, *chosen, providers@, session) is None,
        },
{
    if chosen.is_set() {
        return Some((chosen.provider_id.clone(), chosen.model.clone()));
    }
    let s = match session {
        Some(s) => s,
        None => {
            return None;
        },
    };
    if !s.is_set() {
        return None;
    }
    match find_provider(providers, s.provider_id.as_str()) {
        None => None,
        Some(i) => if model_can_generate_images_directly(database, &providers[i], s.model.as_str()) {
            Some((s.provider_id.clone(), s.model.clone()))
        } else {
            None
        },
    }
}

// ---------------------------------------------------------------------
// Reasoning
// ---------------------------------------------------------------------

/// The levels of reasoning effort.
pub open spec fn known_efforts() -> Seq<&'static str> {
    seq!["low", "medium", "high", "xhigh", "max"]
}

/// The texts of the list that are known levels, each where it comes first.
pub open spec fn listed_efforts(list: Seq<JsonView>) -> Seq<Seq<char>>
    decreases list.len(),
{
    if list.len() == 0 {
        Seq::empty()
    } else {
        let before = listed_efforts(list.drop_last());
        match list.last().text() {
            Some(t) => if is_one_of(t, known_efforts()) && !before.contains(t) {
                before.push(t)
            } else {
                before
            },
            None => before,
        }
    }
}

/// The levels of reasoning effort that a model takes: those that the database
/// lists, else all for a model that is spoken to as Anthropic's are, else the
/// three lowest.
pub open spec fn efforts_of(
    entries: Seq<(Seq<char>, JsonView)>,
    model: Seq<char>,
    api_format: Seq<char>,
) -> Seq<Seq<char>> {
    let listed = match database_entry(entries, model) {
        Some(entry) => match entry.field_items("reasoningEfforts"@) {
            Some(list) => listed_efforts(list),
            None => Seq::empty(),
        },
        None => Seq::empty(),
    };
    if listed.len() > 0 {
        listed
    } else if api_format == "anthropic_messages"@ {
        seq!["low"@, "medium"@, "high"@, "xhigh"@, "max"@]
    } else {
        seq!["low"@, "medium"@, "high"@]
    }
}

fn list_efforts(list: &Vec<Json>) -> (r: Vec<String>)
    ensures
        strings(r@) == listed_efforts(items_view(list@)),
{
    let ghost all = items_view(list@);
    let mut out: Vec<String> = Vec::new();
    let mut i: usize = 0;
    assert(strings(out@) =~= Seq::<Seq<char>>::empty());
    assert(all.take(0) =~= Seq::<JsonView>::empty());
    assert(all.len() == list@.len());
    while i < list.len()
        invariant
            i <= list@.len(),
            all == items_view(list@),
            strings(out@) == listed_efforts(all.take(i as int)),
        decreases list@.len() - i,
    {
        assert(all.take(i + 1).drop_last() =~= all.take(i as int));
        assert(all.take(i + 1).last() == list@[i as int]@);
        let ghost before = out@;
        if let Some(t) = list[i].as_str() {
            let known = ["low", "medium", "high", "xhigh", "max"];
            assert(known@ =~= known_efforts());
            if one_of(t, &known) && !list_contains(&out, t) {
                out.push(copy_str(t));
                assert(strings(out@) =~= strings(before).push(t@));
            }
        }
        i += 1;
    }
    assert(all.take(all.len() as int) =~= all);
    out
}

/// The levels of reasoning effort that a model takes.
pub fn reasoning_efforts_for_model(database: &ModelDatabase, model: &str, api_format: &str) -> (r: Vec<
    String,
>)
    ensures
        strings(r@) == efforts_of(database@, model@, api_format@),
{
    let list = match database.model_database_entry(model) {
        Some(entry) => entry.get_array("reasoningEfforts"),
        None => None,
    };
    if let Some(items) = list {
        let out = list_efforts(items);
        assert(strings(out@).len() == out@.len());
        if out.len() > 0 {
            return out;
        }
    }
    let mut out: Vec<String> = Vec::new();
    out.push(copy_str("low"));
    out.push(copy_str("medium"));
    out.push(copy_str("high"));
    if str_eq(api_format, "anthropic_messages") {
        out.push(copy_str("xhigh"));
        out.push(copy_str("max"));
        assert(strings(out@) =~= seq!["low"@, "medium"@, "high"@, "xhigh"@, "max"@]);
    } else {
        assert(strings(out@) =~= seq!["low"@, "medium"@, "high"@]);
    }
    out
}

/// The levels of reasoning effort that a model takes are known ones, at least one
/// of them, and none occurs twice.
pub proof fn law_efforts_are_known(
    entries: Seq<(Seq<char>, JsonView)>,
    model: Seq<char>,
    api_format: Seq<char>,
)
    ensures
        ({
            let e = efforts_of(entries, model, api_format);
            &&& e.len() > 0
            &&& forall|i: int| 0 <= i < e.len() ==> is_one_of(#[trigger] e[i], known_efforts())
            &&& forall|i: int, j: int| 0 <= i < j < e.len() ==> e[i] != e[j]
        }),
{
    let listed = match database_entry(entries, model) {
        Some(entry) => match entry.field_items("reasoningEfforts"@) {
            Some(list) => {
                lemma_listed_efforts(list);
                listed_efforts(list)
            },
            None => Seq::empty(),
        },
        None => Seq::empty(),
    };
    if listed.len() == 0 {
        let e = efforts_of(entries, model, api_format);
        let known = known_efforts();
        reveal_strlit("low");
        reveal_strlit("medium");
        reveal_strlit("high");
        reveal_strlit("xhigh");
        reveal_strlit("max");
        assert("low"@.len() == 3 && "medium"@.len() == 6 && "high"@.len() == 4 && "xhigh"@.len() == 5
            && "max"@.len() == 3);
        assert("low"@[0] != "max"@[0]);
        assert(known[0]@ == "low"@ && known[1]@ == "medium"@ && known[2]@ == "high"@ && known[3]@
            == "xhigh"@ && known[4]@ == "max"@);
        assert forall|i: int| 0 <= i < e.len() implies is_one_of(#[trigger] e[i], known_efforts()) by {
            assert(known[i]@ == e[i]);
        }
    }
}

proof fn lemma_listed_efforts(list: Seq<JsonView>)
    ensures
        ({
            let e = listed_efforts(list);
            &&& forall|i: int| 0 <= i < e.len() ==> is_one_of(#[trigger] e[i], known_efforts())
            &&& forall|i: int, j: int| 0 <= i < j < e.len() ==> e[i] != e[j]
        }),
    decreases list.len(),
{
    if list.len() > 0 {
        lemma_listed_efforts(list.drop_last());
        let before = listed_efforts(list.drop_last());
        let e = listed_efforts(list);
        assert forall|i: int, j: int| 0 <= i < j < e.len() implies e[i] != e[j] by {
            assert(e[i] == before[i]);
            if j < before.len() {
                assert(e[j] == before[j]);
            }
        }
    }
}

// ---------------------------------------------------------------------
// Prices
// ---------------------------------------------------------------------

/// What a model costs, as values.
#[verifier::ext_equal]
pub struct PricingView {
    pub input: Option<JsonView>,
    pub output: Option<JsonView>,
    pub cached_input: Option<JsonView>,
}

impl View for ModelPricing {
    type V = PricingView;

    open spec fn view(&self) -> PricingView {
        PricingView {
            input: opt_json(self.input),
            output: opt_json(self.output),
            cached_input: opt_json(self.cached_input),
        }
    }
}

fn copy_price(p: &Option<Json>) -> (r: Option<Json>)
    ensures
        opt_json(r) == opt_json(*p),
{
    match p {
        Some(j) => Some(j.copy()),
        None => None,
    }
}

/// A field that is a number.
pub open spec fn number_field(value: JsonView, key: Seq<char>) -> Option<JsonView> {
    match value.field(key) {
        Some(JsonView::Number(n)) => Some(JsonView::Number(n)),
        _ => None,
    }
}

fn get_number(value: &Json, key: &str) -> (r: Option<Json>)
    ensures
        opt_json(r) == number_field(value@, key@),
{
    match value.get(key) {
        Some(j) => match j {
            Json::Number(_) => Some(j.copy()),
            _ => None,
        },
        None => None,
    }
}

/// What a model costs, and where that is known from.
pub open spec fn price_of(
    entries: Seq<(Seq<char>, JsonView)>,
    provider: Option<&ModelProvider>,
    model: Seq<char>,
) -> Option<(PricingView, Seq<char>)> {
    let set = match user_info(provider, model) {
        Some(info) => match info.pricing {
            Some(p) => Some(p@),
            None => None,
        },
        None => None,
    };
    match set {
        Some(p) => Some((p, "user_override"@)),
        None => match database_entry(entries, model) {
            Some(entry) => match entry.field("pricing"@) {
                Some(pricing) => Some(
                    (
                        PricingView {
                            input: number_field(pricing, "input"@),
                            output: number_field(pricing, "output"@),
                            cached_input: number_field(pricing, "cachedInput"@),
                        },
                        "model_pricing"@,
                    ),
                ),
                None => None,
            },
            None => None,
        },
    }
}

/// What a model costs, and where that is known from.
pub fn pricing_for_model(
    database: &ModelDatabase,
    provider: Option<&ModelProvider>,
    model: &str,
) -> (r: Option<(ModelPricing, String)>)
    ensures
        match r {
            Some(pair) => price_of(database@, provider, model@) == Some((pair.0@, pair.1@)),
            None => price_of(database@, provider, model@) is None,
        },
{
    if let Some(info) = get_user_info(provider, model) {
        if let Some(p) = &info.pricing {
            let pricing = ModelPricing {
                input: copy_price(&p.input),
                output: copy_price(&p.output),
                cached_input: copy_price(&p.cached_input),
            };
            return Some((pricing, copy_str("user_override")));
        }
    }
    match database.model_database_entry(model) {
        Some(entry) => match entry.get("pricing") {
            Some(pricing) => Some(
                (
                    ModelPricing {
                        input: get_number(pricing, "input"),
                        output: get_number(pricing, "output"),
                        cached_input: get_number(pricing, "cachedInput"),
                    },
                    copy_str("model_pricing"),
                ),
            ),
            None => None,
        },
        None => None,
    }
}

/// The size in a name is that of the first mark that stands in it.
pub proof fn law_the_first_mark_counts(name: Seq<char>, marks: Seq<(&str, usize)>, from: int, i: int)
    requires
        0 <= from <= i <= marks.len(),
        forall|j: int| from <= j < i ==> !(has_infix(name, (#[trigger] marks[j]).0@)),
    ensures
        i < marks.len() && has_infix(name, (marks[i]).0@) ==> size_in_name(name, marks, from) == Some(marks[i].1),
        i == marks.len() ==> size_in_name(name, marks, from) == None::<usize>,
    decreases i - from,
{
    if from < i {
        assert(!(has_infix(name, (marks[from]).0@)));
        law_the_first_mark_counts(name, marks, from + 1, i);
    }
}

/// An entry is found by its name: the last that has it; and none where none has.
pub proof fn law_entries_are_found_by_name(
    a: Seq<(Seq<char>, JsonView)>,
    entry: (Seq<char>, JsonView),
    b: Seq<(Seq<char>, JsonView)>,
)
    requires
        forall|i: int| 0 <= i < b.len() ==> (#[trigger] b[i]).0 != entry.0,
    ensures
        entry_named(a.push(entry) + b, entry.0) == Some(entry.1),
        entry_named(b, entry.0) is None,
    decreases b.len(),
{
    let s = a.push(entry) + b;
    if b.len() == 0 {
        assert(s =~= a.push(entry));
    } else {
        assert(b[b.len() - 1] == b.last());
        assert forall|i: int| 0 <= i < b.drop_last().len() implies (
        #[trigger] b.drop_last()[i]).0 != entry.0 by {
            assert(b.drop_last()[i] == b[i]);
        }
        law_entries_are_found_by_name(a, entry, b.drop_last());
        assert(s.drop_last() =~= a.push(entry) + b.drop_last());
        assert(s.last() == b.last());
    }
}

/// A model is looked up by its name, then by its name without what stands before a slash,
/// then by the longest key that its name begins with, then by the longest in its name;
/// case and white space do not count, and a blank name is not looked up.
pub proof fn law_models_are_looked_up(entries: Seq<(Seq<char>, JsonView)>, model: Seq<char>)
    ensures
        ({
            let name = lower(trimmed(model));
            let found = database_entry(entries, model);
            let exact = entry_named(entries, name);
            let bare = entry_named(entries, bare_name(name));
            &&& is_blank_text(model) ==> found is None
            &&& !is_blank_text(model) && exact is Some ==> found == exact
            &&& !is_blank_text(model) && exact is None && bare is Some ==> found == bare
            &&& !is_blank_text(model) && exact is None && bare is None && longest(
                entries,
                name,
                false,
            ) is Some ==> found == Some(entries[longest(entries, name, false)->0].1)
            &&& !is_blank_text(model) && exact is None && bare is None && longest(
                entries,
                name,
                false,
            ) is None && longest(entries, name, true) is Some ==> found == Some(
                entries[longest(entries, name, true)->0].1,
            )
        }),
{
}

/// What the user sets for a model comes first, then what the database says, then what the
/// name says; zero is no size.
pub proof fn law_settings_come_before_the_database(
    entries: Seq<(Seq<char>, JsonView)>,
    large: Seq<Seq<char>>,
    provider: ModelProvider,
    model: Seq<char>,
    fallback: int,
    n: u64,
)
    requires
        0 < n <= usize::MAX,
    ensures
        ({
            let set = override_of(provider.model_overrides@, model);
            let window = context_window(entries, large, Some(&provider), model);
            let most = max_output(entries, Some(&provider), model, fallback);
            &&& set is Some && (set->0).context_window == Some(n) ==> window == (n as int, false)
            &&& (set is None || (set->0).context_window is None) && entry_count(
                entries,
                model,
                "contextWindow"@,
            ) == Some(n) ==> window == (n as int, false)
            &&& (set is None || (set->0).context_window is None) && entry_count(
                entries,
                model,
                "contextWindow"@,
            ) is None ==> window == window_by_name(model, large)
            &&& set is Some && (set->0).max_output == Some(n) && n <= u32::MAX ==> most == n
            &&& (set is None || (set->0).max_output is None) && entry_count(
                entries,
                model,
                "maxOutput"@,
            ) == Some(n) && n <= u32::MAX ==> most == n
            &&& (set is None || (set->0).max_output is None) && entry_count(
                entries,
                model,
                "maxOutput"@,
            ) is None ==> most == fallback
        }),
{
}

/// An ability of a model is what the user sets, then what the database says; for making
/// images, last what the names suggest.
pub proof fn law_abilities_are_as_set(
    entries: Seq<(Seq<char>, JsonView)>,
    provider: ModelProvider,
    model: Seq<char>,
    b: bool,
)
    ensures
        ({
            let set = override_of(provider.model_overrides@, model);
            let known = set is Some && (set->0).capabilities is Some;
            let sees = sees_images(entries, Some(&provider), model);
            let makes = makes_images(entries, Some(&provider), model);
            &&& known && ((set->0).capabilities->0).vision == Some(b) ==> sees == Some(b)
            &&& !known || ((set->0).capabilities->0).vision is None ==> sees == entry_ability(
                entries,
                model,
                "vision"@,
            )
            &&& known && ((set->0).capabilities->0).image_generation == Some(b) ==> makes == Some(b)
            &&& (!known || ((set->0).capabilities->0).image_generation is None) && entry_ability(
                entries,
                model,
                "imageGeneration"@,
            ) == Some(b) ==> makes == Some(b)
            &&& (!known || ((set->0).capabilities->0).image_generation is None) && entry_ability(
                entries,
                model,
                "imageGeneration"@,
            ) is None ==> makes == suggests_images(provider, model)
            &&& sees_images(entries, None, model) is None && makes_images(
                entries,
                None,
                model,
            ) is None
        }),
{
}

/// The price of a model is what the user sets, then what the database says.
pub proof fn law_prices_are_as_set(
    entries: Seq<(Seq<char>, JsonView)>,
    provider: ModelProvider,
    model: Seq<char>,
    entry: JsonView,
    pricing: JsonView,
)
    ensures
        ({
            let set = override_of(provider.model_overrides@, model);
            let price = price_of(entries, Some(&provider), model);
            &&& set is Some && (set->0).pricing is Some ==> price == Some(
                (((set->0).pricing->0)@, "user_override"@),
            )
            &&& (set is None || (set->0).pricing is None) && database_entry(entries, model) == Some(
                entry,
            ) && entry.field("pricing"@) == Some(pricing) ==> price is Some && (price->0).1
                == "model_pricing"@ && (price->0).0.input == number_field(pricing, "input"@) && (
            price->0).0.output == number_field(pricing, "output"@) && (price->0).0.cached_input
                == number_field(pricing, "cachedInput"@)
            &&& (set is None || (set->0).pricing is None) && database_entry(entries, model) is None
                ==> price is None
        }),
{
}

/// An image model that is chosen is used; else that of the session, where it makes images.
pub proof fn law_chosen_image_models_are_used(
    entries: Seq<(Seq<char>, JsonView)>,
    chosen: ModelChoice,
    providers: Seq<ModelProvider>,
    session: ModelChoice,
)
    ensures
        !is_blank_text(chosen.provider_id@) && !is_blank_text(chosen.model@) ==> image_model_of(
            entries,
            chosen,
            providers,
            Some(&session),
        ) == Some((chosen.provider_id@, chosen.model@)),
        !chosen.made() ==> image_model_of(entries, chosen, providers, None) is None,
        !chosen.made() && session.made() && provider_index(providers, session.provider_id@, 0)
            is Some && makes_images_directly(
            entries,
            providers[provider_index(providers, session.provider_id@, 0)->0],
            session.model@,
        ) ==> image_model_of(entries, chosen, providers, Some(&session)) == Some(
            (session.provider_id@, session.model@),
        ),
        image_model_of(entries, chosen, providers, Some(&session)) is Some ==> chosen.made()
            || session.made(),
{
}

/// The efforts that are listed are the known ones in the list, each once and in order.
pub proof fn law_listed_efforts_are_all_there(list: Seq<JsonView>, i: int)
    requires
        0 <= i < list.len(),
        list[i].text() is Some,
        is_one_of(list[i].text()->0, known_efforts()),
    ensures
        listed_efforts(list).contains(list[i].text()->0),
    decreases list.len(),
{
    let front = list.drop_last();
    let before = listed_efforts(front);
    let all = listed_efforts(list);
    let t = list[i].text()->0;
    if i < front.len() {
        assert(front[i] == list[i]);
        law_listed_efforts_are_all_there(front, i);
        let k = choose|k: int| 0 <= k < before.len() && before[k] == t;
        assert(all[k] == before[k]);
    } else {
        assert(list.last() == list[i]);
        if !before.contains(t) {
            assert(all.last() == t);
        }
    }
}

/// Where a list gives efforts, these are offered; else those that the format has.
pub proof fn law_efforts_are_those_listed(
    entries: Seq<(Seq<char>, JsonView)>,
    model: Seq<char>,
    api_format: Seq<char>,
    entry: JsonView,
    list: Seq<JsonView>,
)
    ensures
        database_entry(entries, model) == Some(entry) && entry.field_items("reasoningEfforts"@)
            == Some(list) && listed_efforts(list).len() > 0 ==> efforts_of(
            entries,
            model,
            api_format,
        ) == listed_efforts(list),
        database_entry(entries, model) is None && api_format == "anthropic_messages"@ ==> efforts_of(
            entries,
            model,
            api_format,
        ) == seq!["low"@, "medium"@, "high"@, "xhigh"@, "max"@],
        database_entry(entries, model) is None && api_format != "anthropic_messages"@ ==> efforts_of(
            entries,
            model,
            api_format,
        ) == seq!["low"@, "medium"@, "high"@],
{
}

/// A name without a mark of size: the size is that of its family, and else the usual one.
pub proof fn law_families_have_sizes(model: Seq<char>, large: Seq<Seq<char>>)
    ensures
        size_in_name(lower(model), size_marks(), 0) is None && names_family(lower(model), large)
            ==> window_by_name(model, large) == (200_000int, false),
        size_in_name(lower(model), size_marks(), 0) is None && !names_family(lower(model), large)
            && (has_infix(lower(model), "gpt-4o"@) || has_infix(lower(model), "gpt-4.1"@)
            || has_infix(lower(model), "gpt-5"@) || has_infix(lower(model), "deepseek"@)
            || has_infix(lower(model), "qwen"@) || has_infix(lower(model), "gemini"@))
            ==> window_by_name(model, large) == (128_000int, true),
        size_in_name(lower(model), size_marks(), 0) is Some ==> window_by_name(model, large) == (
            size_in_name(lower(model), size_marks(), 0)->0 as int,
            false,
        ),
{
    let m = medium_families();
    let name = lower(model);
    assert(m[0]@ == "gpt-4o"@ && m[1]@ == "gpt-4.1"@ && m[2]@ == "gpt-5"@ && m[3]@ == "deepseek"@
        && m[4]@ == "qwen"@ && m[5]@ == "gemini"@);
    if has_infix(name, "gpt-4o"@) {
        assert(has_infix(name, m[0]@));
    }
    if has_infix(name, "gpt-4.1"@) {
        assert(has_infix(name, m[1]@));
    }
    if has_infix(name, "gpt-5"@) {
        assert(has_infix(name, m[2]@));
    }
    if has_infix(name, "deepseek"@) {
        assert(has_infix(name, m[3]@));
    }
    if has_infix(name, "qwen"@) {
        assert(has_infix(name, m[4]@));
    }
    if has_infix(name, "gemini"@) {
        assert(has_infix(name, m[5]@));
    }
}

/// A mark of size in a name says the size, where no larger mark comes before it.
pub proof fn law_marks_say_the_size(model: Seq<char>, large: Seq<Seq<char>>)
    ensures
        has_infix(lower(model), "1m"@) ==> window_by_name(model, large) == (1_000_000int, false),
        !has_infix(lower(model), "1m"@) && has_infix(lower(model), "200k"@) ==> window_by_name(
            model,
            large,
        ) == (200_000int, false),
        !has_infix(lower(model), "1m"@) && !has_infix(lower(model), "200k"@) && has_infix(
            lower(model),
            "128k"@,
        ) ==> window_by_name(model, large) == (128_000int, false),
{
    reveal_with_fuel(size_in_name, 4);
    let m = size_marks();
    assert(m[0].0@ == "1m"@ && m[1].0@ == "200k"@ && m[2].0@ == "128k"@);
    assert(m[0].1 == 1_000_000 && m[1].1 == 200_000 && m[2].1 == 128_000);
}

} // verus!
