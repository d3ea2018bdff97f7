//! Selection of the rule that applies to a host and a repository path.
use vstd::prelude::*;

use crate::config::Rule;
use crate::text::str_eq;

verus! {

/// Whether the `glob_match` crate matches `path` against the glob `pattern`.
pub uninterp spec fn glob_matches(pattern: Seq<char>, path: Seq<char>) -> bool;

/// `glob_match::glob_match(pattern, path)`. Its result is named `glob_matches` and is taken as
/// a function of the two strings alone (the crate treats `/` as the path separator, as on the
/// Unix targets of this tool). The crate keeps path positions in `u32`, so paths are kept
/// below that size.
#[verifier::external_body]
fn glob_match(pattern: &str, path: &str) -> (r: bool)
    requires
        4 * path@.len() < u32::MAX,
    ensures
        r == glob_matches(pattern@, path@),
{
    glob_match::glob_match(pattern, path)
}

/// A rule applies to a host and path when its host is exactly the host and its pattern,
/// if it has one, matches the path.
pub open spec fn rule_matches(rule: Rule, host: Seq<char>, path: Seq<char>) -> bool {
    &&& rule.host@ == host
    &&& match rule.match_pattern {
        Some(p) => glob_matches(p@, path),
        None => true,
    }
}

/// The first rule (lowest index) that applies, if any.
pub open spec fn first_match(rules: Seq<Rule>, host: Seq<char>, path: Seq<char>) -> Option<int> {
    if exists|i: int| 0 <= i < rules.len() && rule_matches(#[trigger] rules[i], host, path) {
        Some(
            choose|i: int|
                0 <= i < rules.len() && rule_matches(#[trigger] rules[i], host, path) && forall|j: int|
                    0 <= j < i ==> !rule_matches(#[trigger] rules[j], host, path),
        )
    } else {
        None
    }
}

/// Match result from evaluating rules against an SSH invocation.
pub struct MatchResult<'a> {
    /// The rule that applies.
    pub rule: &'a Rule,
    /// Its position among the rules (0-based).
    pub rule_index: usize,
}

/// Find the first matching rule for the given host and path.
/// Rules are evaluated top-to-bottom, first match wins.
pub fn find_match<'a>(rules: &'a [Rule], host: &str, path: &str) -> (r: Option<MatchResult<'a>>)
    requires
        4 * path@.len() < u32::MAX,
    ensures
        match r {
            Some(m) => {
                &&& m.rule_index < rules@.len()
                &&& *m.rule == rules@[m.rule_index as int]
                &&& rule_matches(rules@[m.rule_index as int], host@, path@)
                &&& forall|j: int| 0 <= j < m.rule_index ==> !rule_matches(#[trigger] rules@[j], host@, path@)
            },
            None => forall|j: int| 0 <= j < rules@.len() ==> !rule_matches(#[trigger] rules@[j], host@, path@),
        },
        match r {
            Some(m) => first_match(rules@, host@, path@) == Some(m.rule_index as int),
            None => first_match(rules@, host@, path@) is None,
        },
{
    let mut i: usize = 0;
    while i < rules.len()
        invariant
            i <= rules@.len(),
            4 * path@.len() < u32::MAX,
            forall|j: int| 0 <= j < i ==> !rule_matches(#[trigger] rules@[j], host@, path@),
        decreases rules@.len() - i,
    {
        let rule = &rules[i];
        if str_eq(rule.host.as_str(), host) {
            let hit = match &rule.match_pattern {
                Some(pattern) => glob_match(pattern.as_str(), path),
                None => true,
            };
            if hit {
                assert(rule_matches(rules@[i as int], host@, path@));
                proof {
                    first_match_is(rules@, host@, path@, i as int);
                }
                return Some(MatchResult { rule, rule_index: i });
            }
        }
        i = i + 1;
    }
    None
}

/// The first index at which a rule applies is the one `first_match` names.
proof fn first_match_is(rules: Seq<Rule>, host: Seq<char>, path: Seq<char>, i: int)
    requires
        0 <= i < rules.len(),
        rule_matches(rules[i], host, path),
        forall|j: int| 0 <= j < i ==> !rule_matches(#[trigger] rules[j], host, path),
    ensures
        first_match(rules, host, path) == Some(i),
{
    let k = choose|k: int|
        0 <= k < rules.len() && rule_matches(#[trigger] rules[k], host, path) && forall|j: int|
            0 <= j < k ==> !rule_matches(#[trigger] rules[j], host, path);
    assert(0 <= k < rules.len() && rule_matches(rules[k], host, path));
    if k < i {
        assert(!rule_matches(rules[k], host, path));
    }
    if k > i {
        assert(!rule_matches(rules[i], host, path));
    }
}

} // verus!
