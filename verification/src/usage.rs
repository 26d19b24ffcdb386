//! The tokens that services report.

use vstd::prelude::*;

use crate::json::{Json, JsonView};
use crate::model::types::ModelUsage;

verus! {

/// The first of two numbers that is there.
pub open spec fn first_of(a: Option<u64>, b: Option<u64>) -> Option<u64> {
    match a {
        Some(n) => Some(n),
        None => b,
    }
}

fn either(a: Option<u64>, b: Option<u64>) -> (r: Option<u64>)
    ensures
        r == first_of(a, b),
{
    match a {
        Some(n) => Some(n),
        None => b,
    }
}

/// The sum of two numbers, where there is one; it stops at the greatest `u64`.
pub open spec fn sum_of(a: Option<u64>, b: Option<u64>) -> Option<u64> {
    match (a, b) {
        (Some(x), Some(y)) => Some(
            if x + y > u64::MAX {
                u64::MAX
            } else {
                (x + y) as u64
            },
        ),
        _ => None,
    }
}

/// The sum of two numbers, where there is one.
pub fn sum_tokens(a: Option<u64>, b: Option<u64>) -> (r: Option<u64>)
    ensures
        r == sum_of(a, b),
{
    match (a, b) {
        (Some(x), Some(y)) => Some(x.saturating_add(y)),
        _ => None,
    }
}

/// A number in an object under `outer`.
pub open spec fn detail(usage: JsonView, outer: Seq<char>, inner: Seq<char>) -> Option<u64> {
    match usage.path(outer, inner) {
        Some(v) => v.unsigned(),
        None => None,
    }
}

fn get_detail(usage: &Json, outer: &str, inner: &str) -> (r: Option<u64>)
    ensures
        r == detail(usage@, outer@, inner@),
{
    match usage.get_path(outer, inner) {
        Some(v) => v.as_u64(),
        None => None,
    }
}

/// The tokens that an OpenAI service reports under `usage`. The total is the sum
/// where it is not reported.
pub open spec fn openai_usage(value: JsonView) -> Option<ModelUsage> {
    match value.field("usage"@) {
        Some(JsonView::Object(m)) => {
            let usage = JsonView::Object(m);
            let input = first_of(
                usage.field_unsigned("prompt_tokens"@),
                usage.field_unsigned("input_tokens"@),
            );
            let output = first_of(
                usage.field_unsigned("completion_tokens"@),
                usage.field_unsigned("output_tokens"@),
            );
            Some(
                ModelUsage {
                    input_tokens: input,
                    output_tokens: output,
                    total_tokens: first_of(
                        usage.field_unsigned("total_tokens"@),
                        sum_of(input, output),
                    ),
                    cached_input_tokens: first_of(
                        detail(usage, "prompt_tokens_details"@, "cached_tokens"@),
                        detail(usage, "input_tokens_details"@, "cached_tokens"@),
                    ),
                    cache_creation_input_tokens: None,
                    reasoning_tokens: first_of(
                        detail(usage, "completion_tokens_details"@, "reasoning_tokens"@),
                        detail(usage, "output_tokens_details"@, "reasoning_tokens"@),
                    ),
                },
            )
        },
        _ => None,
    }
}

/// The tokens that an OpenAI service reports.
pub fn model_usage_from_openai_value(value: &Json) -> (r: Option<ModelUsage>)
    ensures
        r == openai_usage(value@),
{
    let usage = match value.get("usage") {
        Some(u) => u,
        None => {
            return None;
        },
    };
    match usage {
        Json::Object(_) => {},
        _ => {
            return None;
        },
    }
    let input = either(usage.get_u64("prompt_tokens"), usage.get_u64("input_tokens"));
    let output = either(usage.get_u64("completion_tokens"), usage.get_u64("output_tokens"));
    Some(
        ModelUsage {
            input_tokens: input,
            output_tokens: output,
            total_tokens: either(usage.get_u64("total_tokens"), sum_tokens(input, output)),
            cached_input_tokens: either(
                get_detail(usage, "prompt_tokens_details", "cached_tokens"),
                get_detail(usage, "input_tokens_details", "cached_tokens"),
            ),
            cache_creation_input_tokens: None,
            reasoning_tokens: either(
                get_detail(usage, "completion_tokens_details", "reasoning_tokens"),
                get_detail(usage, "output_tokens_details", "reasoning_tokens"),
            ),
        },
    )
}

/// The tokens that the Anthropic service reports under `usage`. The total is the
/// sum of what went in and what came out.
pub open spec fn anthropic_usage(value: JsonView) -> Option<ModelUsage> {
    match value.field("usage"@) {
        Some(JsonView::Object(m)) => {
            let usage = JsonView::Object(m);
            let input = usage.field_unsigned("input_tokens"@);
            let output = usage.field_unsigned("output_tokens"@);
            Some(
                ModelUsage {
                    input_tokens: input,
                    output_tokens: output,
                    total_tokens: sum_of(input, output),
                    cached_input_tokens: usage.field_unsigned("cache_read_input_tokens"@),
                    cache_creation_input_tokens: usage.field_unsigned(
                        "cache_creation_input_tokens"@,
                    ),
                    reasoning_tokens: None,
                },
            )
        },
        _ => None,
    }
}

/// The tokens that the Anthropic service reports.
pub fn model_usage_from_anthropic_value(value: &Json) -> (r: Option<ModelUsage>)
    ensures
        r == anthropic_usage(value@),
{
    let usage = match value.get("usage") {
        Some(u) => u,
        None => {
            return None;
        },
    };
    match usage {
        Json::Object(_) => {},
        _ => {
            return None;
        },
    }
    let input = usage.get_u64("input_tokens");
    let output = usage.get_u64("output_tokens");
    Some(
        ModelUsage {
            input_tokens: input,
            output_tokens: output,
            total_tokens: sum_tokens(input, output),
            cached_input_tokens: usage.get_u64("cache_read_input_tokens"),
            cache_creation_input_tokens: usage.get_u64("cache_creation_input_tokens"),
            reasoning_tokens: None,
        },
    )
}

/// The tokens are those that the service counts, under either of their names; the total is
/// the one that it gives, or the sum. What it does not count is not known.
pub proof fn law_tokens_are_those_counted(value: JsonView, usage: JsonView)
    requires
        value.field("usage"@) == Some(usage),
        usage is Object,
    ensures
        openai_usage(value) is Some,
        ({
            let u = openai_usage(value)->0;
            let prompt = usage.field_unsigned("prompt_tokens"@);
            let completion = usage.field_unsigned("completion_tokens"@);
            let total = usage.field_unsigned("total_tokens"@);
            &&& prompt is Some ==> u.input_tokens == prompt
            &&& prompt is None ==> u.input_tokens == usage.field_unsigned("input_tokens"@)
            &&& completion is Some ==> u.output_tokens == completion
            &&& completion is None ==> u.output_tokens == usage.field_unsigned("output_tokens"@)
            &&& total is Some ==> u.total_tokens == total
            &&& total is None && u.input_tokens is Some && u.output_tokens is Some && (
            u.input_tokens->0) + (u.output_tokens->0) <= u64::MAX ==> u.total_tokens is Some && (
            u.total_tokens->0) == (u.input_tokens->0) + (u.output_tokens->0)
            &&& total is None && (u.input_tokens is None || u.output_tokens is None)
                ==> u.total_tokens is None
            &&& detail(usage, "prompt_tokens_details"@, "cached_tokens"@) is Some
                ==> u.cached_input_tokens == detail(
                usage,
                "prompt_tokens_details"@,
                "cached_tokens"@,
            )
            &&& detail(usage, "completion_tokens_details"@, "reasoning_tokens"@) is Some
                ==> u.reasoning_tokens == detail(
                usage,
                "completion_tokens_details"@,
                "reasoning_tokens"@,
            )
        }),
        anthropic_usage(value) is Some,
        ({
            let u = anthropic_usage(value)->0;
            &&& u.input_tokens == usage.field_unsigned("input_tokens"@)
            &&& u.output_tokens == usage.field_unsigned("output_tokens"@)
            &&& u.cached_input_tokens == usage.field_unsigned("cache_read_input_tokens"@)
            &&& u.cache_creation_input_tokens == usage.field_unsigned(
                "cache_creation_input_tokens"@,
            )
            &&& u.input_tokens is Some && u.output_tokens is Some && (u.input_tokens->0) + (
            u.output_tokens->0) <= u64::MAX ==> u.total_tokens is Some && (u.total_tokens->0) == (
            u.input_tokens->0) + (u.output_tokens->0)
        }),
{
}

/// Without an object of usage nothing is counted.
pub proof fn law_no_usage_is_none(value: JsonView)
    requires
        value.field("usage"@) is None,
    ensures
        openai_usage(value) is None,
        anthropic_usage(value) is None,
{
}

} // verus!
