//! What the user has configured.

use vstd::prelude::*;

use crate::json::Json;
use crate::text::is_blank_text;
use crate::text::{is_blank, str_eq};

verus! {

/// What a model can do, as the user has set it.
#[derive(Debug, Clone, Copy, PartialEq, Eq, Structural)]
pub struct ModelCapabilities {
    pub vision: Option<bool>,
    pub image_generation: Option<bool>,
}

/// What a model costs; each price is a JSON number.
#[derive(Debug)]
pub struct ModelPricing {
    pub input: Option<Json>,
    pub output: Option<Json>,
    pub cached_input: Option<Json>,
}

/// What the user has set for one model.
#[derive(Debug)]
pub struct ModelInfo {
    pub context_window: Option<u64>,
    pub max_output: Option<u64>,
    pub capabilities: Option<ModelCapabilities>,
    pub pricing: Option<ModelPricing>,
}

impl Default for ModelInfo {
    fn default() -> (r: ModelInfo)
        ensures
            r.context_window is None,
            r.max_output is None,
            r.capabilities is None,
            r.pricing is None,
    {
        ModelInfo { context_window: None, max_output: None, capabilities: None, pricing: None }
    }
}

/// How a service is spoken to.
#[derive(Debug, Clone, Copy, PartialEq, Eq, Structural)]
pub enum ProviderApiFormat {
    OpenAiChat,
    AnthropicMessages,
    OpenAiResponses,
    Gemini,
}

/// A model service. Where a model has two entries in `model_overrides`, the
/// later one counts.
#[derive(Debug)]
pub struct ModelProvider {
    pub id: String,
    pub name: String,
    pub api_keys: Vec<String>,
    pub base_url: String,
    pub available_models: Vec<String>,
    pub enabled_models: Vec<String>,
    pub supports_tools: bool,
    pub enabled: bool,
    pub api_format: String,
    pub model_overrides: Vec<(String, ModelInfo)>,
    pub compress_request_body: bool,
}

/// What the user has set for `model`.
pub open spec fn override_of(v: Seq<(String, ModelInfo)>, model: Seq<char>) -> Option<ModelInfo>
    decreases v.len(),
{
    if v.len() == 0 {
        None
    } else if v.last().0@ == model {
        Some(v.last().1)
    } else {
        override_of(v.drop_last(), model)
    }
}

/// The way of speaking that a name stands for: chat completions where it is not
/// one of the others.
pub open spec fn api_format_of(name: Seq<char>) -> ProviderApiFormat {
    if name == "anthropic_messages"@ {
        ProviderApiFormat::AnthropicMessages
    } else if name == "openai_responses"@ {
        ProviderApiFormat::OpenAiResponses
    } else if name == "gemini"@ {
        ProviderApiFormat::Gemini
    } else {
        ProviderApiFormat::OpenAiChat
    }
}

impl ModelProvider {
    /// What the user has set for `model`.
    pub fn model_override(&self, model: &str) -> (r: Option<&ModelInfo>)
        ensures
            match r {
                Some(info) => override_of(self.model_overrides@, model@) == Some(*info),
                None => override_of(self.model_overrides@, model@) is None,
            },
    {
        let ghost all = self.model_overrides@;
        let mut i: usize = self.model_overrides.len();
        assert(all.take(i as int) == all);
        while i > 0
            invariant
                i <= self.model_overrides@.len(),
                all == self.model_overrides@,
                override_of(all.take(i as int), model@) == override_of(all, model@),
            decreases i,
        {
            assert(all.take(i as int).drop_last() == all.take(i - 1));
            if str_eq(self.model_overrides[i - 1].0.as_str(), model) {
                return Some(&self.model_overrides[i - 1].1);
            }
            i -= 1;
        }
        None
    }

    /// How the service is spoken to.
    pub fn api_format_kind(&self) -> (r: ProviderApiFormat)
        ensures
            r == api_format_of(self.api_format@),
    {
        let name = self.api_format.as_str();
        if str_eq(name, "anthropic_messages") {
            ProviderApiFormat::AnthropicMessages
        } else if str_eq(name, "openai_responses") {
            ProviderApiFormat::OpenAiResponses
        } else if str_eq(name, "gemini") {
            ProviderApiFormat::Gemini
        } else {
            ProviderApiFormat::OpenAiChat
        }
    }
}

/// The first provider with the id, from `from` on.
pub open spec fn provider_index(providers: Seq<ModelProvider>, id: Seq<char>, from: int) -> Option<int>
    decreases providers.len() - from,
{
    if from < 0 || from >= providers.len() {
        None
    } else if providers[from].id@ == id {
        Some(from)
    } else {
        provider_index(providers, id, from + 1)
    }
}

/// The first provider with the id.
pub fn find_provider(providers: &Vec<ModelProvider>, id: &str) -> (r: Option<usize>)
    ensures
        match r {
            Some(i) => provider_index(providers@, id@, 0) == Some(i as int) && i < providers@.len()
                && providers@[i as int].id@ == id@,
            None => provider_index(providers@, id@, 0) is None,
        },
{
    let mut i: usize = 0;
    while i < providers.len()
        invariant
            i <= providers@.len(),
            provider_index(providers@, id@, 0) == provider_index(providers@, id@, i as int),
        decreases providers@.len() - i,
    {
        if str_eq(providers[i].id.as_str(), id) {
            return Some(i);
        }
        i += 1;
    }
    None
}

/// A provider and one of its models, as the user has chosen them.
#[derive(Debug)]
pub struct ModelChoice {
    pub provider_id: String,
    pub model: String,
}

impl ModelChoice {
    /// Neither the provider nor the model is blank.
    pub open spec fn made(&self) -> bool {
        !is_blank_text(self.provider_id@) && !is_blank_text(self.model@)
    }

    /// Whether neither the provider nor the model is blank.
    pub fn is_set(&self) -> (r: bool)
        ensures
            r == self.made(),
    {
        !is_blank(self.provider_id.as_str()) && !is_blank(self.model.as_str())
    }
}

/// A provider is found by its identifier: the first that has it.
pub proof fn law_providers_are_found_by_id(providers: Seq<ModelProvider>, id: Seq<char>, from: int, i: int)
    requires
        0 <= from <= i <= providers.len(),
        forall|j: int| from <= j < i ==> !((#[trigger] providers[j]).id@ == id),
    ensures
        i < providers.len() && (providers[i]).id@ == id ==> provider_index(providers, id, from) == Some(i),
        i == providers.len() ==> provider_index(providers, id, from) == None::<int>,
    decreases i - from,
{
    if from < i {
        assert(!((providers[from]).id@ == id));
        law_providers_are_found_by_id(providers, id, from + 1, i);
    }
}

/// What the user sets for a model counts, the last where it is set more than once; for a
/// model of which nothing is set there is none.
pub proof fn law_the_last_setting_counts(
    a: Seq<(String, ModelInfo)>,
    entry: (String, ModelInfo),
    b: Seq<(String, ModelInfo)>,
    model: Seq<char>,
)
    requires
        entry.0@ == model,
        forall|i: int| 0 <= i < b.len() ==> (#[trigger] b[i]).0@ != model,
    ensures
        override_of(a.push(entry) + b, model) == Some(entry.1),
        override_of(b, model) is None,
    decreases b.len(),
{
    let s = a.push(entry) + b;
    if b.len() == 0 {
        assert(s =~= a.push(entry));
    } else {
        assert(b[b.len() - 1] == b.last());
        assert forall|i: int| 0 <= i < b.drop_last().len() implies (
        #[trigger] b.drop_last()[i]).0@ != model by {
            assert(b.drop_last()[i] == b[i]);
        }
        law_the_last_setting_counts(a, entry, b.drop_last(), model);
        assert(s.drop_last() =~= a.push(entry) + b.drop_last());
        assert(s.last() == b.last());
    }
}

/// A format is known by its name; what has none of the names speaks chat completions.
pub proof fn law_formats_have_names(name: Seq<char>)
    ensures
        name == "anthropic_messages"@ <==> api_format_of(name)
            == ProviderApiFormat::AnthropicMessages,
        name == "openai_responses"@ <==> api_format_of(name) == ProviderApiFormat::OpenAiResponses,
        name == "gemini"@ <==> api_format_of(name) == ProviderApiFormat::Gemini,
{
    reveal_strlit("anthropic_messages");
    reveal_strlit("openai_responses");
    reveal_strlit("gemini");
    assert("anthropic_messages"@.len() == 18);
    assert("openai_responses"@.len() == 16);
    assert("gemini"@.len() == 6);
}

} // verus!
