//! The configuration text that `pickey init` writes: rules rendered as TOML, and the
//! merge of freshly detected rules into an existing configuration.
use vstd::prelude::*;

use crate::config::Rule;
use crate::init::opt_view;
use crate::ssh::{decimal, u16_to_decimal};
use crate::suggest::{suggestion_view, suggestion_views, SuggestedRule, SuggestionView};
use crate::text::{append_str, join, join_strings, str_eq, string_of, views};

verus! {

/// A rule's characters: host, match pattern, key, port, email, name, `auto`.
pub type RuleView = (Seq<char>, Option<Seq<char>>, Seq<char>, Option<u16>, Option<Seq<char>>, Option<Seq<char>>, bool);

/// The characters of a configured rule.
pub open spec fn rule_view(r: Rule) -> RuleView {
    (r.host@, opt_view(r.match_pattern), r.key@, r.port, opt_view(r.email), opt_view(r.name), r.auto)
}

/// The characters of configured rules.
pub open spec fn rule_views(rs: Seq<Rule>) -> Seq<RuleView> {
    rs.map_values(|r: Rule| rule_view(r))
}

/// A suggestion as the rule it becomes: marked `auto`.
pub open spec fn as_auto(s: SuggestionView) -> RuleView {
    (s.0, s.1, s.2, s.5, s.3, s.4, true)
}

/// The suggestions as rules.
pub open spec fn autos_of(s: Seq<SuggestionView>) -> Seq<RuleView> {
    s.map_values(|v: SuggestionView| as_auto(v))
}

/// `name = "value"` and a newline.
pub open spec fn quoted_line(name: Seq<char>, value: Seq<char>) -> Seq<char> {
    name + " = \""@ + value + "\"\n"@
}

/// An optional `name = "value"` line.
pub open spec fn opt_line(name: Seq<char>, value: Option<Seq<char>>) -> Seq<char> {
    match value {
        Some(v) => quoted_line(name, v),
        None => Seq::empty(),
    }
}

/// One `[[rule]]` table: `auto = true` when set, then host, match, key, port, email, name.
/// Values are written between double quotes as they are.
pub open spec fn rule_toml(r: RuleView) -> Seq<char> {
    "[[rule]]\n"@ + (if r.6 {
        "auto = true\n"@
    } else {
        Seq::empty()
    }) + quoted_line("host"@, r.0) + opt_line("match"@, r.1) + quoted_line("key"@, r.2) + (match r.3 {
        Some(p) => "port = "@ + decimal(p as nat) + "\n"@,
        None => Seq::empty(),
    }) + opt_line("email"@, r.4) + opt_line("name"@, r.5)
}

/// The tables of `rs`.
pub open spec fn tomls(rs: Seq<RuleView>) -> Seq<Seq<char>> {
    rs.map_values(|r: RuleView| rule_toml(r))
}

/// A configuration file holding `rs`: their tables separated by blank lines.
pub open spec fn config_toml(rs: Seq<RuleView>) -> Seq<char> {
    join(tomls(rs), seq!['\n'])
}

/// The rules of `v` that are not marked `auto`, in order.
pub open spec fn keep_manual(v: Seq<RuleView>) -> Seq<RuleView>
    decreases v.len(),
{
    if v.len() == 0 {
        Seq::empty()
    } else {
        let b = keep_manual(v.drop_last());
        if !v.last().6 {
            b.push(v.last())
        } else {
            b
        }
    }
}

/// The rules of `v` marked `auto`, in order.
pub open spec fn keep_auto(v: Seq<RuleView>) -> Seq<RuleView>
    decreases v.len(),
{
    if v.len() == 0 {
        Seq::empty()
    } else {
        let b = keep_auto(v.drop_last());
        if v.last().6 {
            b.push(v.last())
        } else {
            b
        }
    }
}

/// The rules after a merge: the manual rules, in order, then the suggestions.
pub open spec fn merged_views(rs: Seq<Rule>, s: Seq<SuggestionView>) -> Seq<RuleView> {
    keep_manual(rule_views(rs)) + autos_of(s)
}

/// The existing configuration is left as it is: its `auto` rules are exactly the
/// suggestions, or nothing is suggested and it has `auto` rules (their sources may be gone
/// after an earlier `init`).
pub open spec fn merge_keeps(rs: Seq<Rule>, s: Seq<SuggestionView>) -> bool {
    let a = keep_auto(rule_views(rs));
    a == autos_of(s) || (s.len() == 0 && a.len() > 0)
}

/// What was found at the configuration path before a merge.
pub enum ExistingConfig<'a> {
    /// There is no configuration file yet.
    Missing,
    /// A file is there but could not be read or parsed as a configuration.
    Unreadable,
    /// The rules of the configuration that was read, in order.
    Rules(&'a [Rule]),
}

/// The outcome of merging suggestions into the configuration file.
pub enum ConfigMergeResult {
    /// Nothing to write; the configuration has this many rules.
    Unchanged(usize),
    /// The file could not be read: it is left as it is, so that no rule in it is lost.
    Unreadable,
    /// The new file, its number of rules, and how many `auto` rules came and went.
    Updated { toml: String, total: usize, added: usize, removed: usize },
}

/// A configured rule as TOML.
pub fn format_rule(rule: &Rule) -> (r: String)
    ensures
        r@ == rule_toml(rule_view(*rule)),
{
    let v = rule_toml_exec(rule.auto, &rule.host, &rule.match_pattern, &rule.key, rule.port, &rule.email, &rule.name);
    string_of(&v)
}

/// A suggested rule as TOML, marked `auto = true`.
pub fn format_suggested_rule_with_auto(rule: &SuggestedRule) -> (r: String)
    ensures
        r@ == rule_toml(as_auto(suggestion_view(*rule))),
{
    let v = rule_toml_exec(true, &rule.host, &rule.match_pattern, &rule.key_display, rule.port, &rule.email, &rule.name);
    string_of(&v)
}

fn push_quoted_line(out: &mut Vec<char>, name: &str, value: &String)
    ensures
        final(out)@ == old(out)@ + quoted_line(name@, value@),
{
    append_str(out, name);
    append_str(out, " = \"");
    append_str(out, value.as_str());
    append_str(out, "\"\n");
}

fn push_opt_line(out: &mut Vec<char>, name: &str, value: &Option<String>)
    ensures
        final(out)@ == old(out)@ + opt_line(name@, opt_view(*value)),
{
    match value {
        Some(v) => push_quoted_line(out, name, v),
        None => {
            assert(out@ =~= out@ + Seq::<char>::empty());
        },
    }
}

fn rule_toml_exec(
    auto: bool,
    host: &String,
    match_pattern: &Option<String>,
    key: &String,
    port: Option<u16>,
    email: &Option<String>,
    name: &Option<String>,
) -> (r: Vec<char>)
    ensures
        r@ == rule_toml((host@, opt_view(*match_pattern), key@, port, opt_view(*email), opt_view(*name), auto)),
{
    let mut out: Vec<char> = Vec::new();
    append_str(&mut out, "[[rule]]\n");
    let ghost a = out@;
    if auto {
        append_str(&mut out, "auto = true\n");
    }
    let ghost b = out@;
    push_quoted_line(&mut out, "host", host);
    push_opt_line(&mut out, "match", match_pattern);
    push_quoted_line(&mut out, "key", key);
    let ghost c = out@;
    match port {
        Some(p) => {
            append_str(&mut out, "port = ");
            let d = u16_to_decimal(p);
            append_str(&mut out, d.as_str());
            append_str(&mut out, "\n");
        },
        None => {},
    }
    push_opt_line(&mut out, "email", email);
    push_opt_line(&mut out, "name", name);
    assert(out@ =~= rule_toml((host@, opt_view(*match_pattern), key@, port, opt_view(*email), opt_view(*name), auto)));
    out
}

/// A configuration file holding the suggestions, all marked `auto = true`.
pub fn format_auto_config(suggestions: &[SuggestedRule]) -> (r: String)
    ensures
        r@ == config_toml(autos_of(suggestion_views(suggestions@))),
{
    let ghost sv = suggestion_views(suggestions@);
    let mut pieces: Vec<String> = Vec::new();
    let mut i: usize = 0;
    while i < suggestions.len()
        invariant
            sv == suggestion_views(suggestions@),
            i <= suggestions@.len(),
            views(pieces@) == tomls(autos_of(sv).take(i as int)),
        decreases suggestions@.len() - i,
    {
        let ghost before = views(pieces@);
        let t = format_suggested_rule_with_auto(&suggestions[i]);
        pieces.push(t);
        assert(sv[i as int] == suggestion_view(suggestions@[i as int]));
        assert(autos_of(sv)[i as int] == as_auto(sv[i as int]));
        assert(views(pieces@) =~= before.push(t@));
        assert(tomls(autos_of(sv).take(i + 1)) =~= tomls(autos_of(sv).take(i as int)).push(
            rule_toml(autos_of(sv)[i as int]),
        ));
        assert(views(pieces@) =~= tomls(autos_of(sv).take(i + 1)));
        i = i + 1;
    }
    assert(autos_of(sv).take(suggestions@.len() as int) =~= autos_of(sv));
    let j = join_strings(&pieces, '\n');
    string_of(&j)
}

fn opt_same(a: &Option<String>, b: &Option<String>) -> (r: bool)
    ensures
        r == (opt_view(*a) == opt_view(*b)),
{
    match (a, b) {
        (Some(x), Some(y)) => str_eq(x.as_str(), y.as_str()),
        (None, None) => true,
        _ => false,
    }
}

/// Whether an existing `auto` rule is exactly what a suggestion would write.
fn rule_is_suggestion(r: &Rule, s: &SuggestedRule) -> (b: bool)
    requires
        r.auto,
    ensures
        b == (rule_view(*r) == as_auto(suggestion_view(*s))),
{
    str_eq(r.host.as_str(), s.host.as_str()) && opt_same(&r.match_pattern, &s.match_pattern) && str_eq(
        r.key.as_str(),
        s.key_display.as_str(),
    ) && r.port == s.port && opt_same(&r.email, &s.email) && opt_same(&r.name, &s.name)
}

/// Whether the `auto` rules (at indices `autos` of `rs`) are exactly the suggestions.
fn autos_are_suggestions(rs: &[Rule], autos: &Vec<usize>, suggestions: &[SuggestedRule]) -> (b: bool)
    requires
        autos@.len() == keep_auto(rule_views(rs@)).len(),
        forall|j: int| 0 <= j < autos@.len() ==> (#[trigger] autos@[j]) < rs@.len() && rs@[autos@[j] as int].auto
            && rule_view(rs@[autos@[j] as int]) == keep_auto(rule_views(rs@))[j],
    ensures
        b == (keep_auto(rule_views(rs@)) == autos_of(suggestion_views(suggestions@))),
{
    let ghost sv = suggestion_views(suggestions@);
    let ghost a = keep_auto(rule_views(rs@));
    if autos.len() != suggestions.len() {
        assert(a != autos_of(sv)) by {
            if a == autos_of(sv) {
                assert(a.len() == sv.len());
            }
        }
        return false;
    }
    let mut j: usize = 0;
    while j < autos.len()
        invariant
            sv == suggestion_views(suggestions@),
            a == keep_auto(rule_views(rs@)),
            autos@.len() == suggestions@.len(),
            autos@.len() == a.len(),
            forall|k: int| 0 <= k < autos@.len() ==> (#[trigger] autos@[k]) < rs@.len() && rs@[autos@[k] as int].auto
                && rule_view(rs@[autos@[k] as int]) == a[k],
            j <= autos@.len(),
            forall|k: int| 0 <= k < j ==> #[trigger] a[k] == as_auto(sv[k]),
        decreases autos@.len() - j,
    {
        let ri = autos[j];
        assert(sv[j as int] == suggestion_view(suggestions@[j as int]));
        if !rule_is_suggestion(&rs[ri], &suggestions[j]) {
            assert(a != autos_of(sv)) by {
                if a == autos_of(sv) {
                    assert(a[j as int] == as_auto(sv[j as int]));
                }
            }
            return false;
        }
        j = j + 1;
    }
    assert(a =~= autos_of(sv));
    true
}

/// Merge auto-detected rules into the configuration found at the configuration path,
/// preserving the rules not marked `auto`: they come first, in order, followed by the
/// suggestions, which replace the old `auto` rules. A file that cannot be read is never
/// replaced; with no file yet, the suggestions make up the whole configuration.
pub fn merge_config(existing: &ExistingConfig, suggestions: &[SuggestedRule]) -> (r: ConfigMergeResult)
    ensures
        ({
            let sv = suggestion_views(suggestions@);
            match *existing {
                ExistingConfig::Missing => r matches ConfigMergeResult::Updated { toml, total, added, removed } && {
                    &&& toml@ == config_toml(autos_of(sv))
                    &&& total == sv.len() && added == sv.len() && removed == 0
                },
                ExistingConfig::Unreadable => r is Unreadable,
                ExistingConfig::Rules(rs) => if merge_keeps(rs@, sv) {
                    r == ConfigMergeResult::Unchanged(rs@.len() as usize)
                } else {
                    r matches ConfigMergeResult::Updated { toml, total, added, removed } && {
                        &&& toml@ == config_toml(merged_views(rs@, sv))
                        &&& total == merged_views(rs@, sv).len()
                        &&& added == sv.len()
                        &&& removed == keep_auto(rule_views(rs@)).len()
                    }
                },
            }
        }),
{
    let ghost sv = suggestion_views(suggestions@);
    let rs = match existing {
        ExistingConfig::Missing => {
            let toml = format_auto_config(suggestions);
            return ConfigMergeResult::Updated {
                toml,
                total: suggestions.len(),
                added: suggestions.len(),
                removed: 0,
            };
        },
        ExistingConfig::Unreadable => {
            return ConfigMergeResult::Unreadable;
        },
        ExistingConfig::Rules(rs) => *rs,
    };
    let ghost rv = rule_views(rs@);
    let mut pieces: Vec<String> = Vec::new();
    let mut autos: Vec<usize> = Vec::new();
    let mut i: usize = 0;
    while i < rs.len()
        invariant
            rv == rule_views(rs@),
            i <= rs@.len(),
            views(pieces@) == tomls(keep_manual(rv.take(i as int))),
            pieces@.len() == keep_manual(rv.take(i as int)).len(),
            autos@.len() == keep_auto(rv.take(i as int)).len(),
            forall|j: int| 0 <= j < autos@.len() ==> (#[trigger] autos@[j]) < rs@.len() && rs@[autos@[j] as int].auto
                && rule_view(rs@[autos@[j] as int]) == keep_auto(rv.take(i as int))[j],
        decreases rs@.len() - i,
    {
        assert(rv.take(i + 1).drop_last() =~= rv.take(i as int));
        assert(rv.take(i + 1).last() == rule_view(rs@[i as int]));
        let ghost before = views(pieces@);
        if !rs[i].auto {
            let t = format_rule(&rs[i]);
            pieces.push(t);
            assert(views(pieces@) =~= before.push(t@));
            assert(tomls(keep_manual(rv.take(i + 1))) =~= tomls(keep_manual(rv.take(i as int))).push(t@));
        } else {
            autos.push(i);
        }
        i = i + 1;
    }
    assert(rv.take(rs@.len() as int) =~= rv);
    let same = autos_are_suggestions(rs, &autos, suggestions);
    if same || (suggestions.len() == 0 && autos.len() > 0) {
        return ConfigMergeResult::Unchanged(rs.len());
    }
    let n_manual = pieces.len();
    let mut k: usize = 0;
    while k < suggestions.len()
        invariant
            sv == suggestion_views(suggestions@),
            k <= suggestions@.len(),
            n_manual == keep_manual(rv).len(),
            views(pieces@) == tomls(keep_manual(rv) + autos_of(sv).take(k as int)),
            pieces@.len() == n_manual + k,
        decreases suggestions@.len() - k,
    {
        let ghost before = views(pieces@);
        let t = format_suggested_rule_with_auto(&suggestions[k]);
        pieces.push(t);
        assert(sv[k as int] == suggestion_view(suggestions@[k as int]));
        assert(autos_of(sv)[k as int] == as_auto(sv[k as int]));
        assert(views(pieces@) =~= before.push(t@));
        assert(keep_manual(rv) + autos_of(sv).take(k + 1) =~= (keep_manual(rv) + autos_of(sv).take(k as int)).push(
            autos_of(sv)[k as int],
        ));
        assert(views(pieces@) =~= tomls(keep_manual(rv) + autos_of(sv).take(k + 1)));
        k = k + 1;
    }
    assert(autos_of(sv).take(suggestions@.len() as int) =~= autos_of(sv));
    let j = join_strings(&pieces, '\n');
    ConfigMergeResult::Updated {
        toml: string_of(&j),
        total: pieces.len(),
        added: suggestions.len(),
        removed: autos.len(),
    }
}

proof fn lemma_keep_manual_concat(a: Seq<RuleView>, b: Seq<RuleView>)
    ensures
        keep_manual(a + b) == keep_manual(a) + keep_manual(b),
    decreases b.len(),
{
    if b.len() == 0 {
        assert(a + b =~= a);
        assert(keep_manual(a) + keep_manual(b) =~= keep_manual(a));
    } else {
        assert((a + b).drop_last() =~= a + b.drop_last());
        lemma_keep_manual_concat(a, b.drop_last());
        if !b.last().6 {
            assert(keep_manual(a) + keep_manual(b) =~= (keep_manual(a) + keep_manual(b.drop_last())).push(b.last()));
        }
    }
}

proof fn lemma_keep_auto_concat(a: Seq<RuleView>, b: Seq<RuleView>)
    ensures
        keep_auto(a + b) == keep_auto(a) + keep_auto(b),
    decreases b.len(),
{
    if b.len() == 0 {
        assert(a + b =~= a);
        assert(keep_auto(a) + keep_auto(b) =~= keep_auto(a));
    } else {
        assert((a + b).drop_last() =~= a + b.drop_last());
        lemma_keep_auto_concat(a, b.drop_last());
        if b.last().6 {
            assert(keep_auto(a) + keep_auto(b) =~= (keep_auto(a) + keep_auto(b.drop_last())).push(b.last()));
        }
    }
}

proof fn lemma_keep_of_autos(s: Seq<SuggestionView>)
    ensures
        keep_manual(autos_of(s)) == Seq::<RuleView>::empty(),
        keep_auto(autos_of(s)) == autos_of(s),
    decreases s.len(),
{
    if s.len() > 0 {
        assert(autos_of(s).drop_last() =~= autos_of(s.drop_last()));
        lemma_keep_of_autos(s.drop_last());
        assert(autos_of(s) =~= autos_of(s.drop_last()).push(as_auto(s.last())));
    }
}

proof fn lemma_keep_manual_idem(v: Seq<RuleView>)
    ensures
        keep_manual(keep_manual(v)) == keep_manual(v),
        keep_auto(keep_manual(v)) == Seq::<RuleView>::empty(),
    decreases v.len(),
{
    if v.len() > 0 {
        lemma_keep_manual_idem(v.drop_last());
        let b = keep_manual(v.drop_last());
        if !v.last().6 {
            assert(b.push(v.last()).drop_last() =~= b);
        }
    }
}

/// Manual rules survive `pickey init`: the rules not marked `auto` after a merge are those
/// of the existing configuration, unchanged and in the same order.
pub proof fn lemma_merge_preserves_manual_rules(rs: Seq<Rule>, s: Seq<SuggestionView>)
    ensures
        keep_manual(merged_views(rs, s)) == keep_manual(rule_views(rs)),
{
    lemma_keep_manual_concat(keep_manual(rule_views(rs)), autos_of(s));
    lemma_keep_manual_idem(rule_views(rs));
    lemma_keep_of_autos(s);
    assert(keep_manual(rule_views(rs)) + Seq::<RuleView>::empty() =~= keep_manual(rule_views(rs)));
}

/// `auto` rules are replaced on re-run: the `auto` rules after a merge are exactly the
/// suggestions, in order.
pub proof fn lemma_merge_replaces_auto_rules(rs: Seq<Rule>, s: Seq<SuggestionView>)
    ensures
        keep_auto(merged_views(rs, s)) == autos_of(s),
{
    lemma_keep_auto_concat(keep_manual(rule_views(rs)), autos_of(s));
    lemma_keep_manual_idem(rule_views(rs));
    lemma_keep_of_autos(s);
    assert(Seq::<RuleView>::empty() + autos_of(s) =~= autos_of(s));
}

/// Re-running `pickey init` with the same findings changes nothing: a configuration that
/// holds the rules a merge produced is left as it is by the same merge.
pub proof fn lemma_merge_is_idempotent(rs: Seq<Rule>, s: Seq<SuggestionView>, rs2: Seq<Rule>)
    requires
        rule_views(rs2) == merged_views(rs, s),
    ensures
        merge_keeps(rs2, s),
{
    lemma_merge_replaces_auto_rules(rs, s);
}

} // verus!
