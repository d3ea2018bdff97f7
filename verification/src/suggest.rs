//! Rules that `pickey init` proposes from what it found: the owning organisation of each
//! repository, repositories grouped by host and organisation, and the suggested rules.
use vstd::prelude::*;

use crate::order::{lemma_pair_lt_transitive, lemma_pair_lt_trichotomy, pair_lt, str_lt};
use crate::remote::{after_first, before_first};
use crate::init::{opt_view, parse_ssh_command_for_key_and_port, ssh_command_key_port};
use crate::remote::{parse_remote_url, remote_parts};
use crate::text::{
    chars_of, contains_seq, find, find_char, has_infix, seq_eq, slice_of, str_eq, string_of,
};

verus! {

/// "dev.azure.com"
pub open spec fn azure_marker() -> Seq<char> {
    seq!['d', 'e', 'v', '.', 'a', 'z', 'u', 'r', 'e', '.', 'c', 'o', 'm']
}

/// The organisation that owns a repository path: its first component, or for Azure DevOps
/// hosts the first two (`v3/OrgName`).
pub open spec fn org_of(host: Seq<char>, path: Seq<char>) -> Seq<char> {
    let first = before_first(path, '/');
    if contains_seq(host, azure_marker()) && find(path, '/') is Some && first == seq!['v', '3'] {
        first + seq!['/'] + before_first(after_first(path, '/'), '/')
    } else {
        first
    }
}

/// A grouping key: host and organisation.
pub type GroupKey = (Seq<char>, Seq<char>);

/// The groups after counting one more repository with key `k`: its count goes up, or a new
/// group with count 1 takes its place in key order.
pub open spec fn insert_key(g: Seq<(GroupKey, nat)>, k: GroupKey) -> Seq<(GroupKey, nat)>
    decreases g.len(),
{
    if g.len() == 0 {
        seq![(k, 1nat)]
    } else if g[0].0 == k {
        g.update(0, (k, g[0].1 + 1))
    } else if pair_lt(k, g[0].0) {
        seq![(k, 1nat)] + g
    } else {
        seq![g[0]] + insert_key(g.drop_first(), k)
    }
}

/// The `(host, organisation)` groups of `repos` in key order, each with the number of
/// repositories in it.
pub open spec fn grouped(repos: Seq<(Seq<char>, Seq<char>)>) -> Seq<(GroupKey, nat)>
    decreases repos.len(),
{
    if repos.len() == 0 {
        Seq::empty()
    } else {
        let r = repos.last();
        insert_key(grouped(repos.drop_last()), (r.0, org_of(r.0, r.1)))
    }
}

/// The characters of pairs of strings.
pub open spec fn pair_views(v: Seq<(String, String)>) -> Seq<(Seq<char>, Seq<char>)> {
    v.map_values(|p: (String, String)| (p.0@, p.1@))
}

/// The characters and counts of groups.
pub open spec fn group_views(v: Seq<((String, String), usize)>) -> Seq<(GroupKey, nat)> {
    v.map_values(|e: ((String, String), usize)| ((e.0.0@, e.0.1@), e.1 as nat))
}

/// The organisation that owns `path` on `host` (see `org_of`).
pub fn extract_org(host: &str, path: &str) -> (r: String)
    ensures
        r@ == org_of(host@, path@),
{
    let h = chars_of(host);
    let p = chars_of(path);
    let az: Vec<char> = vec!['d', 'e', 'v', '.', 'a', 'z', 'u', 'r', 'e', '.', 'c', 'o', 'm'];
    assert(az@ =~= azure_marker());
    let v3: Vec<char> = vec!['v', '3'];
    assert(v3@ =~= seq!['v', '3']);
    match find_char(&p, '/') {
        Some(s) => {
            let first = slice_of(&p, 0, s);
            if has_infix(&h, &az) && seq_eq(&first, &v3) {
                let rest = slice_of(&p, s + 1, p.len());
                let second = match find_char(&rest, '/') {
                    Some(t) => slice_of(&rest, 0, t),
                    None => {
                        assert(rest@.subrange(0, rest@.len() as int) =~= rest@);
                        slice_of(&rest, 0, rest.len())
                    },
                };
                let mut out = first;
                out.push('/');
                let mut sec = second;
                out.append(&mut sec);
                string_of(&out)
            } else {
                string_of(&first)
            }
        },
        None => string_of(&p),
    }
}

/// Inserting at the first position whose key is not smaller is what `insert_key` does.
proof fn lemma_insert_at(g: Seq<(GroupKey, nat)>, k: GroupKey, p: int)
    requires
        0 <= p <= g.len(),
        forall|i: int| 0 <= i < p ==> pair_lt(#[trigger] g[i].0, k),
        p < g.len() ==> !pair_lt(g[p].0, k),
    ensures
        insert_key(g, k) == if p < g.len() && g[p].0 == k {
            g.update(p, (k, g[p].1 + 1))
        } else {
            g.subrange(0, p) + seq![(k, 1nat)] + g.subrange(p, g.len() as int)
        },
    decreases p,
{
    if g.len() == 0 {
        assert(g.subrange(0, p) + seq![(k, 1nat)] + g.subrange(p, g.len() as int) =~= seq![(k, 1nat)]);
    } else if p == 0 {
        lemma_pair_lt_trichotomy(g[0].0, k);
        if g[0].0 != k {
            assert(g.subrange(0, p) + seq![(k, 1nat)] + g.subrange(p, g.len() as int) =~= seq![(k, 1nat)]
                + g);
        }
    } else {
        lemma_pair_lt_trichotomy(g[0].0, k);
        assert(pair_lt(g[0].0, k));
        let t = g.drop_first();
        assert forall|i: int| 0 <= i < p - 1 implies pair_lt(#[trigger] t[i].0, k) by {
            assert(t[i] == g[i + 1]);
        }
        lemma_insert_at(t, k, p - 1);
        if p < g.len() && g[p].0 == k {
            assert(seq![g[0]] + t.update(p - 1, (k, t[p - 1].1 + 1)) =~= g.update(p, (k, g[p].1 + 1)));
        } else {
            assert(seq![g[0]] + (t.subrange(0, p - 1) + seq![(k, 1nat)] + t.subrange(p - 1, t.len() as int))
                =~= g.subrange(0, p) + seq![(k, 1nat)] + g.subrange(p, g.len() as int));
        }
    }
}

/// Group repositories `(host, path)` by host and owning organisation, in key order, with
/// the number of repositories in each group. The groups are a vector kept strictly sorted
/// by key: vstd's `BTreeMap` contracts hold only for keys that obey its ordering laws, which
/// vstd proves for integers and tuples of them but not for `String`.
pub fn group_repos_by_host_and_org(repos: &[(String, String)]) -> (r: Vec<((String, String), usize)>)
    ensures
        group_views(r@) == grouped(pair_views(repos@)),
{
    let ghost rv = pair_views(repos@);
    let mut g: Vec<((String, String), usize)> = Vec::new();
    let mut keys: Vec<(Vec<char>, Vec<char>)> = Vec::new();
    let mut i: usize = 0;
    while i < repos.len()
        invariant
            rv == pair_views(repos@),
            i <= repos@.len(),
            group_views(g@) == grouped(rv.take(i as int)),
            keys@.len() == g@.len(),
            forall|j: int| 0 <= j < g@.len() ==> (#[trigger] keys@[j]).0@ == g@[j].0.0@ && keys@[j].1@
                == g@[j].0.1@,
            forall|j: int| 0 <= j < g@.len() ==> #[trigger] g@[j].1 <= i,
        decreases repos@.len() - i,
    {
        let host = chars_of(repos[i].0.as_str());
        let org = extract_org(repos[i].0.as_str(), repos[i].1.as_str());
        let orgc = chars_of(org.as_str());
        let ghost k: GroupKey = (host@, orgc@);
        assert(rv.take(i + 1).drop_last() =~= rv.take(i as int));
        assert(rv.take(i + 1).last() == rv[i as int]);
        assert(rv[i as int] == (repos@[i as int].0@, repos@[i as int].1@));
        let ghost gv = group_views(g@);
        let mut p: usize = 0;
        while p < g.len() && (str_lt(&keys[p].0, &host) || (seq_eq(&keys[p].0, &host) && str_lt(
            &keys[p].1,
            &orgc,
        )))
            invariant
                p <= g@.len(),
                gv == group_views(g@),
                keys@.len() == g@.len(),
                forall|j: int| 0 <= j < g@.len() ==> (#[trigger] keys@[j]).0@ == g@[j].0.0@
                    && keys@[j].1@ == g@[j].0.1@,
                forall|j: int| 0 <= j < p ==> pair_lt(#[trigger] gv[j].0, k),
                k == (host@, orgc@),
            decreases g@.len() - p,
        {
            assert(gv[p as int].0 == (keys@[p as int].0@, keys@[p as int].1@));
            p = p + 1;
        }
        assert(p < g@.len() ==> gv[p as int].0 == (keys@[p as int].0@, keys@[p as int].1@));
        proof {
            lemma_insert_at(gv, k, p as int);
        }
        if p < g.len() && seq_eq(&keys[p].0, &host) && seq_eq(&keys[p].1, &orgc) {
            let c = g[p].1;
            let entry = ((g[p].0.0.clone(), g[p].0.1.clone()), c + 1);
            g.set(p, entry);
            assert(group_views(g@) =~= gv.update(p as int, (k, gv[p as int].1 + 1)));
        } else {
            g.insert(p, ((string_of(&host), org), 1));
            keys.insert(p, (host, orgc));
            assert(group_views(g@) =~= gv.subrange(0, p as int) + seq![(k, 1nat)] + gv.subrange(
                p as int,
                gv.len() as int,
            ));
        }
        i = i + 1;
    }
    assert(rv.take(repos@.len() as int) =~= rv);
    g
}

/// What `pickey init` learned from the global git configuration.
pub struct GitInfo {
    /// The global `core.sshCommand`, if set.
    pub global_ssh_command: Option<String>,
    /// The `includeIf "gitdir:..."` entries of the global configuration.
    pub include_ifs: Vec<IncludeIfRule>,
    /// The global `user.email`, if set.
    pub global_email: Option<String>,
    /// The global `user.name`, if set.
    pub global_name: Option<String>,
}

/// One `includeIf "gitdir:<pattern>"` entry and what its included file sets.
pub struct IncludeIfRule {
    /// The `gitdir` pattern.
    pub pattern: String,
    /// The included file, as written in the global configuration.
    pub config_path: String,
    /// Its `core.sshCommand`, if set.
    pub ssh_command: Option<String>,
    /// Its `user.email`, if set.
    pub email: Option<String>,
    /// Its `user.name`, if set.
    pub name: Option<String>,
}

/// A repository that sets its own `core.sshCommand`.
pub struct LocalSshOverride {
    /// The repository's directory.
    pub repo_dir: String,
    /// Its local `core.sshCommand`.
    pub ssh_command: String,
    /// The URL of its `origin` remote, if any.
    pub remote_url: Option<String>,
    /// Its local `user.email`, if set.
    pub email: Option<String>,
    /// Its local `user.name`, if set.
    pub name: Option<String>,
}

/// A rule that `pickey init` writes to the configuration (marked `auto = true`).
pub struct SuggestedRule {
    /// Host to match.
    pub host: String,
    /// Glob over the path (`<org>/**`), or `None` for any path.
    pub match_pattern: Option<String>,
    /// Key path as the user wrote it.
    pub key_display: String,
    /// `user.email` for the repositories.
    pub email: Option<String>,
    /// `user.name` for the repositories.
    pub name: Option<String>,
    /// Port override.
    pub port: Option<u16>,
}

/// An `includeIf` entry with a key whose hosts could not be inferred: the user has to write
/// the rule.
pub struct ManualRule {
    /// The `gitdir` pattern.
    pub pattern: String,
    /// Key path as the user wrote it.
    pub key_display: String,
    /// `user.email` of the entry.
    pub email: Option<String>,
    /// `user.name` of the entry.
    pub name: Option<String>,
    /// Port of the entry's `sshCommand`.
    pub port: Option<u16>,
}

/// The suggested rules and the entries left to the user.
pub struct SuggestionBuild {
    /// Rules to write, in order.
    pub rules: Vec<SuggestedRule>,
    /// Entries that need a rule written by hand.
    pub manual_rules: Vec<ManualRule>,
}

/// A suggested rule's characters: host, match pattern, key, email, name, port.
pub type SuggestionView = (Seq<char>, Option<Seq<char>>, Seq<char>, Option<Seq<char>>, Option<Seq<char>>, Option<u16>);

/// A manual entry's characters: pattern, key, email, name, port.
pub type ManualView = (Seq<char>, Seq<char>, Option<Seq<char>>, Option<Seq<char>>, Option<u16>);

/// The characters of a suggested rule.
pub open spec fn suggestion_view(r: SuggestedRule) -> SuggestionView {
    (r.host@, opt_view(r.match_pattern), r.key_display@, opt_view(r.email), opt_view(r.name), r.port)
}

/// The characters of suggested rules.
pub open spec fn suggestion_views(v: Seq<SuggestedRule>) -> Seq<SuggestionView> {
    v.map_values(|r: SuggestedRule| suggestion_view(r))
}

/// The characters of a manual entry.
pub open spec fn manual_view(r: ManualRule) -> ManualView {
    (r.pattern@, r.key_display@, opt_view(r.email), opt_view(r.name), r.port)
}

/// The characters of manual entries.
pub open spec fn manual_views(v: Seq<ManualRule>) -> Seq<ManualView> {
    v.map_values(|r: ManualRule| manual_view(r))
}

/// The match pattern for an organisation: `<org>/**`, or none for an empty organisation.
pub open spec fn match_for_org(org: Seq<char>) -> Option<Seq<char>> {
    if org.len() == 0 {
        None
    } else {
        Some(org + seq!['/', '*', '*'])
    }
}

/// A suggestion for `host` with match pattern `mp` is already among `s`.
pub open spec fn has_suggestion(s: Seq<SuggestionView>, host: Seq<char>, mp: Option<Seq<char>>) -> bool {
    exists|i: int| 0 <= i < s.len() && (#[trigger] s[i]).0 == host && s[i].1 == mp
}

/// `s` with `v` appended unless a suggestion for the same host and pattern is there.
pub open spec fn add_suggestion(s: Seq<SuggestionView>, v: SuggestionView) -> Seq<SuggestionView> {
    if has_suggestion(s, v.0, v.1) {
        s
    } else {
        s.push(v)
    }
}

/// `s` with a suggestion for each group, in group order.
pub open spec fn add_groups(
    s: Seq<SuggestionView>,
    groups: Seq<(GroupKey, nat)>,
    key: Seq<char>,
    email: Option<Seq<char>>,
    name: Option<Seq<char>>,
    port: Option<u16>,
) -> Seq<SuggestionView>
    decreases groups.len(),
{
    if groups.len() == 0 {
        s
    } else {
        let k = groups.last().0;
        add_suggestion(add_groups(s, groups.drop_last(), key, email, name, port), (k.0, match_for_org(k.1), key, email, name, port))
    }
}

/// After one `includeIf` entry with the repositories found under its pattern: an entry
/// whose `sshCommand` names a key yields a suggestion per `(host, organisation)` group of
/// the repositories, or a manual entry when there are none.
pub open spec fn include_step(
    acc: (Seq<SuggestionView>, Seq<ManualView>),
    inc: IncludeIfRule,
    repos: Seq<(Seq<char>, Seq<char>)>,
) -> (Seq<SuggestionView>, Seq<ManualView>) {
    match inc.ssh_command {
        None => acc,
        Some(cmd) => {
            let (key, port) = ssh_command_key_port(cmd@);
            match key {
                None => acc,
                Some(k) => {
                    let groups = grouped(repos);
                    if groups.len() == 0 {
                        (acc.0, acc.1.push((inc.pattern@, k, opt_view(inc.email), opt_view(inc.name), port)))
                    } else {
                        (add_groups(acc.0, groups, k, opt_view(inc.email), opt_view(inc.name), port), acc.1)
                    }
                },
            }
        },
    }
}

/// After all the `includeIf` entries, each with its repositories.
pub open spec fn includes_fold(incs: Seq<IncludeIfRule>, repos: Seq<Vec<(String, String)>>) -> (Seq<SuggestionView>, Seq<ManualView>)
    decreases incs.len(),
{
    if incs.len() == 0 || repos.len() < incs.len() {
        (Seq::empty(), Seq::empty())
    } else {
        let n = incs.len() - 1;
        include_step(includes_fold(incs.drop_last(), repos.subrange(0, n)), incs[n], pair_views(repos[n]@))
    }
}

/// After one repository with its own `sshCommand`: one suggestion for its remote's host
/// and organisation, with its own email and name, when the remote parses and the command
/// names a key.
pub open spec fn local_step(s: Seq<SuggestionView>, ov: LocalSshOverride) -> Seq<SuggestionView> {
    match ov.remote_url {
        None => s,
        Some(url) => match remote_parts(url@) {
            None => s,
            Some((host, path)) => {
                let (key, port) = ssh_command_key_port(ov.ssh_command@);
                match key {
                    None => s,
                    Some(k) => add_suggestion(
                        s,
                        (host, match_for_org(org_of(host, path)), k, opt_view(ov.email), opt_view(ov.name), port),
                    ),
                }
            },
        },
    }
}

/// After all the repositories with their own `sshCommand`.
pub open spec fn locals_fold(s: Seq<SuggestionView>, ovs: Seq<LocalSshOverride>) -> Seq<SuggestionView>
    decreases ovs.len(),
{
    if ovs.len() == 0 {
        s
    } else {
        local_step(locals_fold(s, ovs.drop_last()), ovs.last())
    }
}

fn clone_opt(o: &Option<String>) -> (r: Option<String>)
    ensures
        opt_view(r) == opt_view(*o),
{
    match o {
        Some(s) => Some(s.clone()),
        None => None,
    }
}

fn opt_str_eq(a: &Option<String>, b: &Option<String>) -> (r: bool)
    ensures
        r == (opt_view(*a) == opt_view(*b)),
{
    match (a, b) {
        (Some(x), Some(y)) => str_eq(x.as_str(), y.as_str()),
        (None, None) => true,
        _ => false,
    }
}

/// Whether a suggestion for `host` and `mp` is already in `s`.
fn has_suggestion_exec(s: &Vec<SuggestedRule>, host: &String, mp: &Option<String>) -> (r: bool)
    ensures
        r == has_suggestion(suggestion_views(s@), host@, opt_view(*mp)),
{
    let ghost sv = suggestion_views(s@);
    let mut i: usize = 0;
    while i < s.len()
        invariant
            sv == suggestion_views(s@),
            i <= s@.len(),
            forall|j: int| 0 <= j < i ==> !((#[trigger] sv[j]).0 == host@ && sv[j].1 == opt_view(*mp)),
        decreases s@.len() - i,
    {
        assert(sv[i as int] == suggestion_view(s@[i as int]));
        if str_eq(s[i].host.as_str(), host.as_str()) && opt_str_eq(&s[i].match_pattern, mp) {
            return true;
        }
        i = i + 1;
    }
    false
}

/// Appends `r` to `s` unless a suggestion for the same host and pattern is there.
fn add_suggestion_exec(s: &mut Vec<SuggestedRule>, r: SuggestedRule)
    ensures
        suggestion_views(final(s)@) == add_suggestion(suggestion_views(old(s)@), suggestion_view(r)),
{
    if !has_suggestion_exec(s, &r.host, &r.match_pattern) {
        let ghost before = suggestion_views(s@);
        s.push(r);
        assert(suggestion_views(s@) =~= before.push(suggestion_view(r)));
    }
}

/// The match pattern for an organisation.
fn match_for_org_exec(org: &String) -> (r: Option<String>)
    ensures
        opt_view(r) == match_for_org(org@),
{
    let mut v = chars_of(org.as_str());
    if v.len() == 0 {
        None
    } else {
        v.push('/');
        v.push('*');
        v.push('*');
        assert(v@ =~= org@ + seq!['/', '*', '*']);
        Some(string_of(&v))
    }
}

/// Build the rules `pickey init` suggests. `include_repos[i]` holds the `(host, path)` of
/// the repositories found under the pattern of `git_info.include_ifs[i]`.
pub fn build_suggestions(
    git_info: &GitInfo,
    include_repos: &[Vec<(String, String)>],
    local_overrides: &[LocalSshOverride],
) -> (r: SuggestionBuild)
    requires
        include_repos@.len() == git_info.include_ifs@.len(),
    ensures
        ({
            let (s, m) = includes_fold(git_info.include_ifs@, include_repos@);
            &&& suggestion_views(r.rules@) == locals_fold(s, local_overrides@)
            &&& manual_views(r.manual_rules@) == m
        }),
{
    let incs = &git_info.include_ifs;
    let mut rules: Vec<SuggestedRule> = Vec::new();
    let mut manual: Vec<ManualRule> = Vec::new();
    let mut i: usize = 0;
    while i < incs.len()
        invariant
            incs == &git_info.include_ifs,
            include_repos@.len() == incs@.len(),
            i <= incs@.len(),
            (suggestion_views(rules@), manual_views(manual@)) == includes_fold(
                incs@.subrange(0, i as int),
                include_repos@.subrange(0, i as int),
            ),
        decreases incs@.len() - i,
    {
        let inc = &incs[i];
        assert(incs@.subrange(0, i + 1).drop_last() =~= incs@.subrange(0, i as int));
        assert(include_repos@.subrange(0, i + 1).subrange(0, i as int) =~= include_repos@.subrange(0, i as int));
        let ghost acc = (suggestion_views(rules@), manual_views(manual@));
        if let Some(cmd) = &inc.ssh_command {
            let (key, port) = parse_ssh_command_for_key_and_port(cmd.as_str());
            if let Some(k) = key {
                let groups = group_repos_by_host_and_org(include_repos[i].as_slice());
                if groups.len() == 0 {
                    let ghost mb = manual_views(manual@);
                    let m = ManualRule {
                        pattern: inc.pattern.clone(),
                        key_display: k,
                        email: clone_opt(&inc.email),
                        name: clone_opt(&inc.name),
                        port,
                    };
                    manual.push(m);
                    assert(manual_views(manual@) =~= mb.push(manual_view(m)));
                } else {
                    let ghost gv = group_views(groups@);
                    let mut j: usize = 0;
                    while j < groups.len()
                        invariant
                            gv == group_views(groups@),
                            j <= groups@.len(),
                            suggestion_views(rules@) == add_groups(
                                acc.0,
                                gv.subrange(0, j as int),
                                k@,
                                opt_view(inc.email),
                                opt_view(inc.name),
                                port,
                            ),
                        decreases groups@.len() - j,
                    {
                        assert(gv.subrange(0, j + 1).drop_last() =~= gv.subrange(0, j as int));
                        let host = groups[j].0.0.clone();
                        let mp = match_for_org_exec(&groups[j].0.1);
                        let r = SuggestedRule {
                            host,
                            match_pattern: mp,
                            key_display: k.clone(),
                            email: clone_opt(&inc.email),
                            name: clone_opt(&inc.name),
                            port,
                        };
                        add_suggestion_exec(&mut rules, r);
                        j = j + 1;
                    }
                    assert(gv.subrange(0, groups@.len() as int) =~= gv);
                }
            }
        }
        i = i + 1;
    }
    assert(incs@.subrange(0, incs@.len() as int) =~= incs@);
    assert(include_repos@.subrange(0, incs@.len() as int) =~= include_repos@);
    let ghost s0 = suggestion_views(rules@);
    let mut k: usize = 0;
    while k < local_overrides.len()
        invariant
            k <= local_overrides@.len(),
            suggestion_views(rules@) == locals_fold(s0, local_overrides@.subrange(0, k as int)),
        decreases local_overrides@.len() - k,
    {
        let ov = &local_overrides[k];
        assert(local_overrides@.subrange(0, k + 1).drop_last() =~= local_overrides@.subrange(0, k as int));
        if let Some(url) = &ov.remote_url {
            if let Some((host, path)) = parse_remote_url(url.as_str()) {
                let (key, port) = parse_ssh_command_for_key_and_port(ov.ssh_command.as_str());
                if let Some(kd) = key {
                    let org = extract_org(host.as_str(), path.as_str());
                    let mp = match_for_org_exec(&org);
                    let r = SuggestedRule {
                        host,
                        match_pattern: mp,
                        key_display: kd,
                        email: clone_opt(&ov.email),
                        name: clone_opt(&ov.name),
                        port,
                    };
                    add_suggestion_exec(&mut rules, r);
                }
            }
        }
        k = k + 1;
    }
    assert(local_overrides@.subrange(0, local_overrides@.len() as int) =~= local_overrides@);
    SuggestionBuild { rules, manual_rules: manual }
}

/// The groups' keys strictly increase (so no key occurs twice).
pub open spec fn strictly_sorted(g: Seq<(GroupKey, nat)>) -> bool {
    forall|i: int, j: int| 0 <= i < j < g.len() ==> pair_lt(#[trigger] g[i].0, #[trigger] g[j].0)
}

proof fn lemma_insert_keys(g: Seq<(GroupKey, nat)>, k: GroupKey)
    ensures
        forall|i: int|
            0 <= i < insert_key(g, k).len() ==> (#[trigger] insert_key(g, k)[i]).0 == k || exists|j: int|
                0 <= j < g.len() && g[j].0 == insert_key(g, k)[i].0,
    decreases g.len(),
{
    let r = insert_key(g, k);
    if g.len() == 0 {
    } else if g[0].0 == k {
        assert forall|i: int| 0 <= i < r.len() implies (#[trigger] r[i]).0 == k || exists|j: int|
            0 <= j < g.len() && g[j].0 == r[i].0 by {
            if i != 0 {
                assert(g[i].0 == r[i].0);
            }
        }
    } else if pair_lt(k, g[0].0) {
        assert forall|i: int| 0 <= i < r.len() implies (#[trigger] r[i]).0 == k || exists|j: int|
            0 <= j < g.len() && g[j].0 == r[i].0 by {
            if i != 0 {
                assert(g[i - 1].0 == r[i].0);
            }
        }
    } else {
        let t = g.drop_first();
        lemma_insert_keys(t, k);
        assert forall|i: int| 0 <= i < r.len() implies (#[trigger] r[i]).0 == k || exists|j: int|
            0 <= j < g.len() && g[j].0 == r[i].0 by {
            if i == 0 {
                assert(g[0].0 == r[0].0);
            } else {
                assert(r[i] == insert_key(t, k)[i - 1]);
                if insert_key(t, k)[i - 1].0 != k {
                    let j = choose|j: int| 0 <= j < t.len() && t[j].0 == insert_key(t, k)[i - 1].0;
                    assert(g[j + 1].0 == r[i].0);
                }
            }
        }
    }
}

proof fn lemma_insert_sorted(g: Seq<(GroupKey, nat)>, k: GroupKey)
    requires
        strictly_sorted(g),
    ensures
        strictly_sorted(insert_key(g, k)),
    decreases g.len(),
{
    let r = insert_key(g, k);
    if g.len() == 0 {
    } else if g[0].0 == k {
        assert forall|i: int, j: int| 0 <= i < j < r.len() implies pair_lt(#[trigger] r[i].0, #[trigger] r[j].0) by {
            assert(r[i].0 == g[i].0 && r[j].0 == g[j].0);
        }
    } else if pair_lt(k, g[0].0) {
        assert forall|i: int, j: int| 0 <= i < j < r.len() implies pair_lt(#[trigger] r[i].0, #[trigger] r[j].0) by {
            if i == 0 {
                if j > 1 {
                    lemma_pair_lt_transitive(k, g[0].0, g[j - 1].0);
                }
            }
        }
    } else {
        lemma_pair_lt_trichotomy(k, g[0].0);
        let t = g.drop_first();
        assert(strictly_sorted(t)) by {
            assert forall|i: int, j: int| 0 <= i < j < t.len() implies pair_lt(#[trigger] t[i].0, #[trigger] t[j].0) by {
                assert(t[i] == g[i + 1] && t[j] == g[j + 1]);
            }
        }
        lemma_insert_sorted(t, k);
        lemma_insert_keys(t, k);
        let it = insert_key(t, k);
        assert forall|i: int, j: int| 0 <= i < j < r.len() implies pair_lt(#[trigger] r[i].0, #[trigger] r[j].0) by {
            if i == 0 {
                assert(r[j] == it[j - 1]);
                if it[j - 1].0 != k {
                    let m = choose|m: int| 0 <= m < t.len() && t[m].0 == it[j - 1].0;
                    assert(g[m + 1].0 == it[j - 1].0);
                }
            } else {
                assert(r[i] == it[i - 1] && r[j] == it[j - 1]);
            }
        }
    }
}

/// Grouped repositories come in strictly increasing `(host, organisation)` order, each
/// group once, the order `BTreeMap` keys are walked in.
pub proof fn lemma_grouped_sorted(repos: Seq<(Seq<char>, Seq<char>)>)
    ensures
        strictly_sorted(grouped(repos)),
    decreases repos.len(),
{
    if repos.len() > 0 {
        lemma_grouped_sorted(repos.drop_last());
        let r = repos.last();
        lemma_insert_sorted(grouped(repos.drop_last()), (r.0, org_of(r.0, r.1)));
    }
}

/// `b` begins with all of `a`.
pub open spec fn extends(a: Seq<SuggestionView>, b: Seq<SuggestionView>) -> bool {
    a.len() <= b.len() && forall|i: int| 0 <= i < a.len() ==> #[trigger] b[i] == a[i]
}

/// Some suggestion in `s` is for `host` with match pattern `mp`.
pub open spec fn covers(s: Seq<SuggestionView>, host: Seq<char>, mp: Option<Seq<char>>) -> bool {
    exists|i: int| 0 <= i < s.len() && (#[trigger] s[i]).0 == host && s[i].1 == mp
}

proof fn lemma_covers_extends(a: Seq<SuggestionView>, b: Seq<SuggestionView>, host: Seq<char>, mp: Option<Seq<char>>)
    requires
        extends(a, b),
        covers(a, host, mp),
    ensures
        covers(b, host, mp),
{
    let i = choose|i: int| 0 <= i < a.len() && (#[trigger] a[i]).0 == host && a[i].1 == mp;
    assert(b[i] == a[i]);
}

proof fn lemma_add_suggestion_covers(s: Seq<SuggestionView>, v: SuggestionView)
    ensures
        extends(s, add_suggestion(s, v)),
        covers(add_suggestion(s, v), v.0, v.1),
{
    if has_suggestion(s, v.0, v.1) {
        let i = choose|i: int| 0 <= i < s.len() && (#[trigger] s[i]).0 == v.0 && s[i].1 == v.1;
        assert(s[i].0 == v.0);
    } else {
        let t = s.push(v);
        assert(t[s.len() as int] == v);
    }
}

proof fn lemma_add_groups_covers(
    s: Seq<SuggestionView>,
    groups: Seq<(GroupKey, nat)>,
    key: Seq<char>,
    email: Option<Seq<char>>,
    name: Option<Seq<char>>,
    port: Option<u16>,
)
    ensures
        extends(s, add_groups(s, groups, key, email, name, port)),
        forall|j: int| 0 <= j < groups.len() ==> covers(
            add_groups(s, groups, key, email, name, port),
            (#[trigger] groups[j]).0.0,
            match_for_org(groups[j].0.1),
        ),
    decreases groups.len(),
{
    if groups.len() > 0 {
        let d = groups.drop_last();
        let prev = add_groups(s, d, key, email, name, port);
        lemma_add_groups_covers(s, d, key, email, name, port);
        let k = groups.last().0;
        let v = (k.0, match_for_org(k.1), key, email, name, port);
        lemma_add_suggestion_covers(prev, v);
        let r = add_suggestion(prev, v);
        assert forall|j: int| 0 <= j < groups.len() implies covers(r, (#[trigger] groups[j]).0.0, match_for_org(groups[j].0.1)) by {
            if j < groups.len() - 1 {
                assert(groups[j] == d[j]);
                lemma_covers_extends(prev, r, groups[j].0.0, match_for_org(groups[j].0.1));
            }
        }
    }
}

proof fn lemma_insert_key_keeps(g: Seq<(GroupKey, nat)>, k: GroupKey)
    ensures
        exists|j: int| 0 <= j < insert_key(g, k).len() && (#[trigger] insert_key(g, k)[j]).0 == k,
        forall|i: int| 0 <= i < g.len() ==> exists|j: int| 0 <= j < insert_key(g, k).len() && (#[trigger] insert_key(g, k)[j]).0 == (#[trigger] g[i]).0,
    decreases g.len(),
{
    let r = insert_key(g, k);
    if g.len() == 0 {
        assert(r[0].0 == k);
    } else if g[0].0 == k {
        assert(r[0].0 == k);
        assert forall|i: int| 0 <= i < g.len() implies exists|j: int| 0 <= j < r.len() && (#[trigger] r[j]).0 == (#[trigger] g[i]).0 by {
            assert(r[i].0 == g[i].0);
        }
    } else if pair_lt(k, g[0].0) {
        assert(r[0].0 == k);
        assert forall|i: int| 0 <= i < g.len() implies exists|j: int| 0 <= j < r.len() && (#[trigger] r[j]).0 == (#[trigger] g[i]).0 by {
            assert(r[i + 1] == g[i]);
        }
    } else {
        let t = g.drop_first();
        lemma_insert_key_keeps(t, k);
        let rt = insert_key(t, k);
        assert(r == seq![g[0]] + rt);
        let j0 = choose|j: int| 0 <= j < rt.len() && (#[trigger] rt[j]).0 == k;
        assert(r[j0 + 1] == rt[j0]);
        assert forall|i: int| 0 <= i < g.len() implies exists|j: int| 0 <= j < r.len() && (#[trigger] r[j]).0 == (#[trigger] g[i]).0 by {
            if i == 0 {
                assert(r[0] == g[0]);
            } else {
                assert(g[i] == t[i - 1]);
                let j1 = choose|j: int| 0 <= j < rt.len() && (#[trigger] rt[j]).0 == t[i - 1].0;
                assert(r[j1 + 1] == rt[j1]);
            }
        }
    }
}

/// Every repository's `(host, organisation)` is among its groups.
proof fn lemma_grouped_has_repo(repos: Seq<(Seq<char>, Seq<char>)>, m: int)
    requires
        0 <= m < repos.len(),
    ensures
        exists|j: int| 0 <= j < grouped(repos).len() && (#[trigger] grouped(repos)[j]).0 == (
            repos[m].0,
            org_of(repos[m].0, repos[m].1),
        ),
    decreases repos.len(),
{
    let d = repos.drop_last();
    let r = repos.last();
    let kr = (r.0, org_of(r.0, r.1));
    let g = grouped(d);
    assert(grouped(repos) == insert_key(g, kr));
    lemma_insert_key_keeps(g, kr);
    if m < repos.len() - 1 {
        lemma_grouped_has_repo(d, m);
        assert(d[m] == repos[m]);
        let j = choose|j: int| 0 <= j < g.len() && (#[trigger] g[j]).0 == (d[m].0, org_of(d[m].0, d[m].1));
        assert(g[j].0 == (repos[m].0, org_of(repos[m].0, repos[m].1)));
        let j2 = choose|j2: int| 0 <= j2 < insert_key(g, kr).len() && (#[trigger] insert_key(g, kr)[j2]).0 == g[j].0;
        assert(grouped(repos)[j2].0 == (repos[m].0, org_of(repos[m].0, repos[m].1)));
    } else {
        assert(repos[m] == r);
        let j2 = choose|j2: int| 0 <= j2 < insert_key(g, kr).len() && (#[trigger] insert_key(g, kr)[j2]).0 == kr;
        assert(grouped(repos)[j2].0 == kr);
    }
}

proof fn lemma_include_step_covers(
    acc: (Seq<SuggestionView>, Seq<ManualView>),
    inc: IncludeIfRule,
    repos: Seq<(Seq<char>, Seq<char>)>,
)
    ensures
        extends(acc.0, include_step(acc, inc, repos).0),
        inc.ssh_command matches Some(cmd) && ssh_command_key_port(cmd@).0 is Some ==> forall|m: int|
            0 <= m < repos.len() ==> covers(
                include_step(acc, inc, repos).0,
                (#[trigger] repos[m]).0,
                match_for_org(org_of(repos[m].0, repos[m].1)),
            ),
{
    match inc.ssh_command {
        None => {},
        Some(cmd) => {
            let (key, port) = ssh_command_key_port(cmd@);
            match key {
                None => {},
                Some(k) => {
                    let groups = grouped(repos);
                    if groups.len() == 0 {
                        if repos.len() > 0 {
                            lemma_grouped_has_repo(repos, 0);
                        }
                    } else {
                        lemma_add_groups_covers(acc.0, groups, k, opt_view(inc.email), opt_view(inc.name), port);
                        let r = include_step(acc, inc, repos).0;
                        assert forall|m: int| 0 <= m < repos.len() implies covers(
                            r,
                            (#[trigger] repos[m]).0,
                            match_for_org(org_of(repos[m].0, repos[m].1)),
                        ) by {
                            lemma_grouped_has_repo(repos, m);
                            let j = choose|j: int| 0 <= j < groups.len() && (#[trigger] groups[j]).0 == (
                                repos[m].0,
                                org_of(repos[m].0, repos[m].1),
                            );
                            assert(covers(r, groups[j].0.0, match_for_org(groups[j].0.1)));
                        }
                    }
                },
            }
        },
    }
}

proof fn lemma_includes_fold_covers(incs: Seq<IncludeIfRule>, repos: Seq<Vec<(String, String)>>, n: int, m: int)
    requires
        repos.len() == incs.len(),
        0 <= n < incs.len(),
        incs[n].ssh_command matches Some(cmd) && ssh_command_key_port(cmd@).0 is Some,
        0 <= m < repos[n]@.len(),
    ensures
        covers(
            includes_fold(incs, repos).0,
            repos[n]@[m].0@,
            match_for_org(org_of(repos[n]@[m].0@, repos[n]@[m].1@)),
        ),
    decreases incs.len(),
{
    let l = incs.len() - 1;
    let d = incs.drop_last();
    let rd = repos.subrange(0, l);
    let pv = pair_views(repos[l]@);
    lemma_include_step_covers(includes_fold(d, rd), incs[l], pv);
    if n == l {
        assert(pv[m] == (repos[n]@[m].0@, repos[n]@[m].1@));
    } else {
        assert(d[n] == incs[n]);
        assert(rd[n] == repos[n]);
        lemma_includes_fold_covers(d, rd, n, m);
        lemma_covers_extends(
            includes_fold(d, rd).0,
            includes_fold(incs, repos).0,
            repos[n]@[m].0@,
            match_for_org(org_of(repos[n]@[m].0@, repos[n]@[m].1@)),
        );
    }
}

proof fn lemma_locals_fold_extends(s: Seq<SuggestionView>, ovs: Seq<LocalSshOverride>)
    ensures
        extends(s, locals_fold(s, ovs)),
    decreases ovs.len(),
{
    if ovs.len() > 0 {
        lemma_locals_fold_extends(s, ovs.drop_last());
        let prev = locals_fold(s, ovs.drop_last());
        let ov = ovs.last();
        match ov.remote_url {
            None => {},
            Some(url) => match remote_parts(url@) {
                None => {},
                Some((host, path)) => {
                    let (key, port) = ssh_command_key_port(ov.ssh_command@);
                    match key {
                        None => {},
                        Some(k) => {
                            lemma_add_suggestion_covers(
                                prev,
                                (host, match_for_org(org_of(host, path)), k, opt_view(ov.email), opt_view(ov.name), port),
                            );
                        },
                    }
                },
            },
        }
        let r = locals_fold(s, ovs);
        assert forall|i: int| 0 <= i < s.len() implies #[trigger] r[i] == s[i] by {
            assert(prev[i] == s[i]);
        }
    }
}

/// Every repository found under an `includeIf` entry whose `sshCommand` names a key is
/// covered by a suggested rule for its host whose pattern is its organisation's
/// (`<org>/**`): repositories on different hosts get different rules, even for the same
/// organisation, and no later step takes a rule away.
pub proof fn lemma_every_repository_gets_a_rule(
    incs: Seq<IncludeIfRule>,
    repos: Seq<Vec<(String, String)>>,
    ovs: Seq<LocalSshOverride>,
    n: int,
    m: int,
)
    requires
        repos.len() == incs.len(),
        0 <= n < incs.len(),
        incs[n].ssh_command matches Some(cmd) && ssh_command_key_port(cmd@).0 is Some,
        0 <= m < repos[n]@.len(),
    ensures
        ({
            let rules = locals_fold(includes_fold(incs, repos).0, ovs);
            let (host, path) = (repos[n]@[m].0@, repos[n]@[m].1@);
            exists|i: int| 0 <= i < rules.len() && (#[trigger] rules[i]).0 == host && rules[i].1 == match_for_org(
                org_of(host, path),
            )
        }),
{
    lemma_includes_fold_covers(incs, repos, n, m);
    lemma_locals_fold_extends(includes_fold(incs, repos).0, ovs);
    lemma_covers_extends(
        includes_fold(incs, repos).0,
        locals_fold(includes_fold(incs, repos).0, ovs),
        repos[n]@[m].0@,
        match_for_org(org_of(repos[n]@[m].0@, repos[n]@[m].1@)),
    );
}

} // verus!
