//! Token usage of an executor.

use crate::json::Json;
use crate::json::JsonView;
use crate::json::as_natural;
use crate::json::member;
use vstd::prelude::*;

verus! {

/// The tokens that a task used.
#[derive(Debug, Clone, Copy, PartialEq, Eq, Structural)]
pub struct TokenUsage {
    pub input_tokens: u64,
    pub output_tokens: u64,
    pub cache_creation_input_tokens: u64,
    pub cache_read_input_tokens: u64,
}

impl Default for TokenUsage {
    fn default() -> (r: Self)
        ensures
            r == no_usage(),
    {
        TokenUsage {
            input_tokens: 0,
            output_tokens: 0,
            cache_creation_input_tokens: 0,
            cache_read_input_tokens: 0,
        }
    }
}

pub open spec fn no_usage() -> TokenUsage {
    TokenUsage {
        input_tokens: 0,
        output_tokens: 0,
        cache_creation_input_tokens: 0,
        cache_read_input_tokens: 0,
    }
}

/// Whether the sums fit.
pub open spec fn can_merge(a: TokenUsage, b: TokenUsage) -> bool {
    &&& a.input_tokens + b.input_tokens <= u64::MAX
    &&& a.output_tokens + b.output_tokens <= u64::MAX
    &&& a.cache_creation_input_tokens + b.cache_creation_input_tokens <= u64::MAX
    &&& a.cache_read_input_tokens + b.cache_read_input_tokens <= u64::MAX
}

/// The sum of two usages.
pub open spec fn merged(a: TokenUsage, b: TokenUsage) -> TokenUsage {
    TokenUsage {
        input_tokens: (a.input_tokens + b.input_tokens) as u64,
        output_tokens: (a.output_tokens + b.output_tokens) as u64,
        cache_creation_input_tokens: (a.cache_creation_input_tokens
            + b.cache_creation_input_tokens) as u64,
        cache_read_input_tokens: (a.cache_read_input_tokens + b.cache_read_input_tokens) as u64,
    }
}

/// The count under a name; none counts as zero.
pub open spec fn count_in(v: JsonView, name: Seq<char>) -> u64 {
    match as_natural(member(v, name)) {
        Some(n) => n,
        None => 0,
    }
}

/// The usage that a JSON object states.
pub open spec fn usage_in(v: JsonView) -> TokenUsage {
    TokenUsage {
        input_tokens: count_in(v, "input_tokens"@),
        output_tokens: count_in(v, "output_tokens"@),
        cache_creation_input_tokens: count_in(v, "cache_creation_input_tokens"@),
        cache_read_input_tokens: count_in(v, "cache_read_input_tokens"@),
    }
}

fn read_count(v: &Json, name: &str) -> (r: u64)
    ensures
        r == count_in(v@, name@),
{
    match v.u64_member(name) {
        Some(n) => n,
        None => 0,
    }
}

impl TokenUsage {
    /// Adds another usage.
    pub fn merge(&mut self, other: &TokenUsage)
        requires
            can_merge(*old(self), *other),
        ensures
            *final(self) == merged(*old(self), *other),
    {
        self.input_tokens = self.input_tokens + other.input_tokens;
        self.output_tokens = self.output_tokens + other.output_tokens;
        self.cache_creation_input_tokens = self.cache_creation_input_tokens
            + other.cache_creation_input_tokens;
        self.cache_read_input_tokens = self.cache_read_input_tokens + other.cache_read_input_tokens;
    }

    /// Adds the usage that an assistant message states.
    pub fn accumulate(&mut self, usage: &Json)
        requires
            can_merge(*old(self), usage_in(usage@)),
        ensures
            *final(self) == merged(*old(self), usage_in(usage@)),
    {
        let other = TokenUsage {
            input_tokens: read_count(usage, "input_tokens"),
            output_tokens: read_count(usage, "output_tokens"),
            cache_creation_input_tokens: read_count(usage, "cache_creation_input_tokens"),
            cache_read_input_tokens: read_count(usage, "cache_read_input_tokens"),
        };
        self.merge(&other);
    }
}

/// The order of merging does not matter.
pub proof fn law_merge_order(a: TokenUsage, b: TokenUsage, c: TokenUsage)
    requires
        can_merge(a, b),
        can_merge(b, c),
        can_merge(merged(a, b), c),
    ensures
        merged(a, b) == merged(b, a),
        can_merge(a, merged(b, c)),
        merged(merged(a, b), c) == merged(a, merged(b, c)),
        merged(a, no_usage()) == a,
{
}

/// A merge adds each kind of token to the same kind.
pub proof fn law_merge_adds_each_kind(usage: &mut TokenUsage, other: &TokenUsage)
    requires
        can_merge(*old(usage), *other),
        call_ensures(TokenUsage::merge, (usage, other), ()),
    ensures
        final(usage).input_tokens == old(usage).input_tokens + other.input_tokens,
        final(usage).output_tokens == old(usage).output_tokens + other.output_tokens,
        final(usage).cache_creation_input_tokens == old(usage).cache_creation_input_tokens
            + other.cache_creation_input_tokens,
        final(usage).cache_read_input_tokens == old(usage).cache_read_input_tokens
            + other.cache_read_input_tokens,
{
}

/// What an assistant message states is added by name; what it does not state adds nothing.
pub proof fn law_stated_usage_is_added(usage: &mut TokenUsage, v: &Json)
    requires
        can_merge(*old(usage), usage_in(v@)),
        call_ensures(TokenUsage::accumulate, (usage, v), ()),
    ensures
        match member(v@, "input_tokens"@) {
            Some(JsonView::Natural(n)) => final(usage).input_tokens == old(usage).input_tokens + n,
            _ => final(usage).input_tokens == old(usage).input_tokens,
        },
        match member(v@, "output_tokens"@) {
            Some(JsonView::Natural(n)) => final(usage).output_tokens == old(usage).output_tokens
                + n,
            _ => final(usage).output_tokens == old(usage).output_tokens,
        },
        match member(v@, "cache_creation_input_tokens"@) {
            Some(JsonView::Natural(n)) => final(usage).cache_creation_input_tokens
                == old(usage).cache_creation_input_tokens + n,
            _ => final(usage).cache_creation_input_tokens
                == old(usage).cache_creation_input_tokens,
        },
        match member(v@, "cache_read_input_tokens"@) {
            Some(JsonView::Natural(n)) => final(usage).cache_read_input_tokens
                == old(usage).cache_read_input_tokens + n,
            _ => final(usage).cache_read_input_tokens == old(usage).cache_read_input_tokens,
        },
{
}

} // verus!
