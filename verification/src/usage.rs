//! Token accounting: the per-turn usage counters a provider reports, their
//! saturating accumulation over a conversation and their one-line summary.
use vstd::prelude::*;

use crate::text::{decimal, push_decimal, push_str};

verus! {

/// Token counters reported by a provider for one completion call; all zero
/// means that nothing was reported.
#[derive(Debug, Clone, Copy, PartialEq, Eq, Default)]
pub struct Usage {
    pub input_tokens: u64,
    pub output_tokens: u64,
    pub total_tokens: u64,
    pub cached_input_tokens: u64,
    pub cache_creation_input_tokens: u64,
    pub tool_use_prompt_tokens: u64,
    pub reasoning_tokens: u64,
}

/// `a + b`, or `u64::MAX` where the sum does not fit.
pub open spec fn sat_add(a: u64, b: u64) -> u64 {
    if a + b > u64::MAX {
        u64::MAX
    } else {
        (a + b) as u64
    }
}

/// The usage with every counter at zero.
pub open spec fn zero_usage() -> Usage {
    Usage {
        input_tokens: 0,
        output_tokens: 0,
        total_tokens: 0,
        cached_input_tokens: 0,
        cache_creation_input_tokens: 0,
        tool_use_prompt_tokens: 0,
        reasoning_tokens: 0,
    }
}

/// Whether any counter is non-zero.
pub open spec fn reported(u: Usage) -> bool {
    u != zero_usage()
}

/// The total that a report contributes: its own total where it gave one,
/// else its input plus its output.
pub open spec fn report_total(u: Usage) -> u64 {
    if u.total_tokens > 0 {
        u.total_tokens
    } else {
        sat_add(u.input_tokens, u.output_tokens)
    }
}

/// The accumulator after one more report.
pub open spec fn accumulate(acc: Usage, u: Usage) -> Usage {
    Usage {
        input_tokens: sat_add(acc.input_tokens, u.input_tokens),
        output_tokens: sat_add(acc.output_tokens, u.output_tokens),
        total_tokens: sat_add(acc.total_tokens, report_total(u)),
        cached_input_tokens: sat_add(acc.cached_input_tokens, u.cached_input_tokens),
        cache_creation_input_tokens: sat_add(
            acc.cache_creation_input_tokens,
            u.cache_creation_input_tokens,
        ),
        tool_use_prompt_tokens: sat_add(acc.tool_use_prompt_tokens, u.tool_use_prompt_tokens),
        reasoning_tokens: sat_add(acc.reasoning_tokens, u.reasoning_tokens),
    }
}

/// The one-line summary of a usage.
pub open spec fn usage_line(u: Usage) -> Seq<char> {
    if !reported(u) {
        "Sin tokens reportados todavía"@
    } else {
        "Tokens: "@ + decimal(u.input_tokens as nat) + " entrada / "@ + decimal(
            u.output_tokens as nat,
        ) + " salida / "@ + decimal(u.total_tokens as nat) + " total"@ + if u.reasoning_tokens
            > 0 {
            " / "@ + decimal(u.reasoning_tokens as nat) + " razonamiento"@
        } else {
            Seq::empty()
        }
    }
}

impl Usage {
    /// A usage with every counter at zero.
    pub fn new() -> (r: Usage)
        ensures
            r == zero_usage(),
    {
        Usage {
            input_tokens: 0,
            output_tokens: 0,
            total_tokens: 0,
            cached_input_tokens: 0,
            cache_creation_input_tokens: 0,
            tool_use_prompt_tokens: 0,
            reasoning_tokens: 0,
        }
    }

    /// Whether the provider reported any counter.
    pub fn has_values(&self) -> (r: bool)
        ensures
            r == reported(*self),
    {
        self.input_tokens != 0 || self.output_tokens != 0 || self.total_tokens != 0
            || self.cached_input_tokens != 0 || self.cache_creation_input_tokens != 0
            || self.tool_use_prompt_tokens != 0 || self.reasoning_tokens != 0
    }
}

/// Adds one report to an accumulator, counter by counter and saturating at
/// `u64::MAX`; the total grows by the report's total or, where the report
/// gave none, by its input plus its output.
pub fn add_usage(accumulator: &mut Usage, usage: &Usage)
    ensures
        *final(accumulator) == accumulate(*old(accumulator), *usage),
{
    accumulator.input_tokens = accumulator.input_tokens.saturating_add(usage.input_tokens);
    accumulator.output_tokens = accumulator.output_tokens.saturating_add(usage.output_tokens);
    accumulator.cached_input_tokens = accumulator.cached_input_tokens.saturating_add(
        usage.cached_input_tokens,
    );
    accumulator.cache_creation_input_tokens = accumulator.cache_creation_input_tokens.saturating_add(
        usage.cache_creation_input_tokens,
    );
    accumulator.tool_use_prompt_tokens = accumulator.tool_use_prompt_tokens.saturating_add(
        usage.tool_use_prompt_tokens,
    );
    accumulator.reasoning_tokens = accumulator.reasoning_tokens.saturating_add(
        usage.reasoning_tokens,
    );
    let total = if usage.total_tokens > 0 {
        usage.total_tokens
    } else {
        usage.input_tokens.saturating_add(usage.output_tokens)
    };
    accumulator.total_tokens = accumulator.total_tokens.saturating_add(total);
}

/// The summary of a conversation's token usage shown in the status line.
pub fn session_usage_text(usage: &Usage) -> (r: String)
    ensures
        r@ == usage_line(*usage),
{
    if !usage.has_values() {
        let mut s = String::new();
        push_str(&mut s, "Sin tokens reportados todavía");
        return s;
    }
    let mut s = String::new();
    push_str(&mut s, "Tokens: ");
    push_decimal(&mut s, usage.input_tokens);
    push_str(&mut s, " entrada / ");
    push_decimal(&mut s, usage.output_tokens);
    push_str(&mut s, " salida / ");
    push_decimal(&mut s, usage.total_tokens);
    push_str(&mut s, " total");
    if usage.reasoning_tokens > 0 {
        push_str(&mut s, " / ");
        push_decimal(&mut s, usage.reasoning_tokens);
        push_str(&mut s, " razonamiento");
    }
    proof {
        assert(s@ =~= usage_line(*usage));
    }
    s
}

/// Adding a report of all zeros leaves an accumulator unchanged.
pub proof fn law_zero_report_is_identity(acc: Usage)
    ensures
        accumulate(acc, zero_usage()) == acc,
{
}

/// Accumulating never lowers a counter, and the total grows by at least the
/// report's own total where the sum fits.
pub proof fn law_accumulate_monotone(acc: Usage, u: Usage)
    ensures
        accumulate(acc, u).input_tokens >= acc.input_tokens,
        accumulate(acc, u).output_tokens >= acc.output_tokens,
        accumulate(acc, u).total_tokens >= acc.total_tokens,
        accumulate(acc, u).cached_input_tokens >= acc.cached_input_tokens,
        accumulate(acc, u).cache_creation_input_tokens >= acc.cache_creation_input_tokens,
        accumulate(acc, u).tool_use_prompt_tokens >= acc.tool_use_prompt_tokens,
        accumulate(acc, u).reasoning_tokens >= acc.reasoning_tokens,
        acc.total_tokens + report_total(u) <= u64::MAX ==> accumulate(acc, u).total_tokens
            == acc.total_tokens + report_total(u),
{
}

/// Starting from zero, one report accumulates to itself, except that a report
/// without a total gets input plus output as its total.
pub proof fn law_first_report(u: Usage)
    ensures
        accumulate(zero_usage(), u) == (Usage { total_tokens: report_total(u), ..u }),
{
}

} // verus!
