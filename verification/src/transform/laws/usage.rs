//! What usage comes to, count by count.
use vstd::prelude::*;

use crate::json::JsonModel;
use crate::transform::usage;

verus! {

/// The counts of usage bear names of their own.
proof fn lemma_usage_keys()
    ensures
        "input_tokens"@ != "output_tokens"@,
        "input_tokens"@ != "cache_read_input_tokens"@,
        "input_tokens"@ != "cache_creation_input_tokens"@,
        "output_tokens"@ != "cache_read_input_tokens"@,
        "output_tokens"@ != "cache_creation_input_tokens"@,
        "cache_read_input_tokens"@ != "cache_creation_input_tokens"@,
{
    reveal_strlit("input_tokens");
    reveal_strlit("output_tokens");
    reveal_strlit("cache_read_input_tokens");
    reveal_strlit("cache_creation_input_tokens");
    assert("input_tokens"@.len() == 12);
    assert("output_tokens"@.len() == 13);
    assert("cache_read_input_tokens"@.len() == 23);
    assert("cache_creation_input_tokens"@.len() == 27);
}

/// The first of two counts that is there, or zero.
pub open spec fn first_count(one: Option<u64>, two: Option<u64>) -> u64 {
    if one is Some {
        one->0
    } else if two is Some {
        two->0
    } else {
        0
    }
}

/// Whether usage in the form of Anthropic says of a total of input tokens how many were
/// read from the cache and how many written to it, and how many tokens were put out.
/// The counts of the cache are there where they are not zero. The other input tokens
/// are what is left of the total, or none.
pub open spec fn tells(
    told: JsonModel,
    total: u64,
    output: u64,
    cached: u64,
    created: u64,
) -> bool {
    &&& told.u64_field("input_tokens"@) matches Some(fresh) && if cached + created <= total {
        fresh + cached + created == total
    } else {
        fresh == 0
    }
    &&& told.u64_field("output_tokens"@) == Some(output)
    &&& cached > 0 ==> told.u64_field("cache_read_input_tokens"@) == Some(cached)
    &&& cached == 0 ==> told.field("cache_read_input_tokens"@) is None
    &&& created > 0 ==> told.u64_field("cache_creation_input_tokens"@) == Some(created)
    &&& created == 0 ==> told.field("cache_creation_input_tokens"@) is None
    &&& forall|k: Seq<char>| #[trigger]
        told.field(k) is Some ==> k == "input_tokens"@ || k == "output_tokens"@ || k
            == "cache_read_input_tokens"@ || k == "cache_creation_input_tokens"@
}

/// Usage of the Chat protocol: the total is at `prompt_tokens`, what was put out at
/// `completion_tokens`; the counts of the cache are at their names of Anthropic, or
/// else at `cached_tokens` and `cache_write_tokens` of `prompt_tokens_details`.
pub proof fn law_chat_usage(value: JsonModel)
    ensures
        tells(
            usage::from_chat(Some(value)),
            first_count(value.u64_field("prompt_tokens"@), None),
            first_count(value.u64_field("completion_tokens"@), None),
            first_count(
                value.u64_field("cache_read_input_tokens"@),
                value.nested_u64("prompt_tokens_details"@, "cached_tokens"@),
            ),
            first_count(
                value.u64_field("cache_creation_input_tokens"@),
                value.nested_u64("prompt_tokens_details"@, "cache_write_tokens"@),
            ),
        ),
        tells(usage::from_chat(None), 0, 0, 0, 0),
{
    lemma_usage_keys();
}

/// Usage of the Responses protocol: the total is at `input_tokens`, what was put out at
/// `output_tokens`; the counts of the cache are at their names of Anthropic, or else at
/// `cached_tokens` and `cache_write_tokens` of `input_tokens_details`.
pub proof fn law_responses_usage(value: JsonModel)
    ensures
        tells(
            usage::from_responses(Some(value)),
            first_count(value.u64_field("input_tokens"@), None),
            first_count(value.u64_field("output_tokens"@), None),
            first_count(
                value.u64_field("cache_read_input_tokens"@),
                value.nested_u64("input_tokens_details"@, "cached_tokens"@),
            ),
            first_count(
                value.u64_field("cache_creation_input_tokens"@),
                value.nested_u64("input_tokens_details"@, "cache_write_tokens"@),
            ),
        ),
        tells(usage::from_responses(None), 0, 0, 0, 0),
{
    lemma_usage_keys();
}

}
