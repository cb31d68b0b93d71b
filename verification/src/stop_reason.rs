//! Why a reply ended.

use crate::text::same_text;
use vstd::prelude::*;

verus! {

/// The stop reason for a finish reason of the upstream endpoint.
pub open spec fn stop_reason(finish: Seq<char>) -> Seq<char> {
    if finish == "tool_calls"@ {
        "tool_use"@
    } else if finish == "length"@ {
        "max_tokens"@
    } else {
        "end_turn"@
    }
}

/// The stop reason for an optional finish reason; a reply without one ended by
/// itself.
pub open spec fn stop_reason_or_default(finish: Option<Seq<char>>) -> Seq<char> {
    match finish {
        Some(reason) => stop_reason(reason),
        None => stop_reason("stop"@),
    }
}

/// The stop reason for a finish reason of the upstream endpoint.
pub fn map_stop_reason(openai: &str) -> (reason: &'static str)
    ensures
        reason@ == stop_reason(openai@),
{
    if same_text(openai, "tool_calls") {
        "tool_use"
    } else if same_text(openai, "length") {
        "max_tokens"
    } else {
        "end_turn"
    }
}

/// The stop reason for an optional finish reason.
pub fn final_stop_reason(finish: &Option<String>) -> (reason: &'static str)
    ensures
        reason@ == stop_reason_or_default(crate::text::opt_view(*finish)),
{
    match finish {
        Some(reason) => map_stop_reason(reason.as_str()),
        None => map_stop_reason("stop"),
    }
}

/// A reply ends in one of three ways, whatever the upstream endpoint reports.
pub proof fn law_stop_reasons(finish: Option<Seq<char>>)
    ensures
        ({
            let reason = stop_reason_or_default(finish);
            ||| reason == "tool_use"@
            ||| reason == "max_tokens"@
            ||| reason == "end_turn"@
        }),
{
}

/// A reply that ended with tool calls ended to use a tool, one that was too long
/// ended at the token limit, and any other ended by itself, also where nothing is
/// reported.
pub proof fn law_finish_reasons(finish: Seq<char>)
    ensures
        finish == "tool_calls"@ ==> stop_reason_or_default(Some(finish)) == "tool_use"@,
        finish == "length"@ ==> stop_reason_or_default(Some(finish)) == "max_tokens"@,
        finish != "tool_calls"@ && finish != "length"@ ==> stop_reason_or_default(Some(finish))
            == "end_turn"@,
        stop_reason_or_default(None) == "end_turn"@,
{
    reveal_strlit("tool_calls");
    reveal_strlit("length");
    reveal_strlit("stop");
    assert("tool_calls"@.len() == 10 && "length"@.len() == 6 && "stop"@.len() == 4);
}

} // verus!
