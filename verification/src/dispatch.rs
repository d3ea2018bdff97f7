//! The decisions of a run: whether git invoked pickey as its `sshCommand`, and what to do
//! with the ssh arguments.
use vstd::prelude::*;

use crate::args::{
    clean_path, host_arg_from, host_arg_in_range, host_of, parse_ssh_args, path_in, pushes_after,
};
use crate::config::Rule;
use crate::matcher::{find_match, first_match};
use crate::text::{chars_of, find, find_char, find_from, has_prefix, starts_with, str_eq, views};

verus! {

/// The words that select a subcommand (or help and version) instead of an ssh invocation.
pub open spec fn known_subcommand(a: Seq<char>) -> bool {
    ||| a == "status"@
    ||| a == "check"@
    ||| a == "list"@
    ||| a == "test"@
    ||| a == "init"@
    ||| a == "help"@
    ||| a == "--help"@
    ||| a == "-h"@
    ||| a == "--version"@
    ||| a == "-V"@
}

/// The arguments look like git calling its `sshCommand`: the first is not a subcommand and
/// is an option, or holds an `@`, or the second starts with `git-`.
pub open spec fn looks_like_ssh(args: Seq<Seq<char>>) -> bool {
    &&& args.len() > 0
    &&& !known_subcommand(args[0])
    &&& {
        ||| starts_with(args[0], seq!['-'])
        ||| find(args[0], '@') is Some
        ||| (args.len() >= 2 && starts_with(args[1], seq!['g', 'i', 't', '-']))
    }
}

/// Detect if args look like an SSH invocation from git rather than a CLI subcommand.
pub fn is_ssh_invocation(args: &[String]) -> (r: bool)
    ensures
        r == looks_like_ssh(views(args@)),
{
    let ghost vs = views(args@);
    if args.len() == 0 {
        return false;
    }
    let first = args[0].as_str();
    assert(vs[0] == first@);
    if str_eq(first, "status") || str_eq(first, "check") || str_eq(first, "list") || str_eq(first, "test")
        || str_eq(first, "init") || str_eq(first, "help") || str_eq(first, "--help") || str_eq(first, "-h")
        || str_eq(first, "--version") || str_eq(first, "-V") {
        return false;
    }
    let f = chars_of(first);
    let dash: Vec<char> = vec!['-'];
    assert(dash@ =~= seq!['-']);
    if has_prefix(&f, &dash) {
        return true;
    }
    if find_char(&f, '@').is_some() {
        return true;
    }
    if args.len() >= 2 {
        let s = chars_of(args[1].as_str());
        assert(vs[1] == s@);
        let g: Vec<char> = vec!['g', 'i', 't', '-'];
        assert(g@ =~= seq!['g', 'i', 't', '-']);
        if has_prefix(&s, &g) {
            return true;
        }
    }
    false
}

/// What to do with the ssh arguments git passed.
pub enum SshPlan {
    /// The arguments name no host (or a path too long to match): run plain ssh with them.
    Passthrough,
    /// No rule applies to the host and path: run plain ssh with them.
    NoRule { host: String, path: String },
    /// Use the rule at `rule_index`; before a push, check the commits' author emails when
    /// `check_email` is set.
    UseRule { rule_index: usize, host: String, path: String, check_email: bool },
}

/// Decide what to do with git's ssh arguments under `rules`: the first rule that applies to
/// the host and path is used, and a push under a rule with an email is checked first.
pub fn plan_ssh(rules: &[Rule], args: &[String]) -> (r: SshPlan)
    ensures
        ({
            let vs = views(args@);
            match host_arg_from(vs, 0) {
                None => r is Passthrough,
                Some(h) => {
                    let host = host_of(vs[h]);
                    let path = clean_path(path_in(vs.subrange(h + 1, vs.len() as int)));
                    if 4 * path.len() >= u32::MAX {
                        r is Passthrough
                    } else {
                        match first_match(rules@, host, path) {
                            None => r matches SshPlan::NoRule { host: h2, path: p2 } && h2@ == host && p2@ == path,
                            Some(i) => r matches SshPlan::UseRule { rule_index, host: h2, path: p2, check_email } && {
                                &&& rule_index == i
                                &&& h2@ == host
                                &&& p2@ == path
                                &&& check_email == (pushes_after(vs, h) && rules@[i].email is Some)
                            },
                        }
                    }
                },
            }
        }),
{
    let ghost vs = views(args@);
    let inv = match parse_ssh_args(args) {
        Some(inv) => inv,
        None => {
            return SshPlan::Passthrough;
        },
    };
    proof {
        host_arg_in_range(vs, 0);
        let h = host_arg_from(vs, 0)->0;
        assert(vs[h] == args@[h]@);
    }
    let n = inv.path.as_str().unicode_len();
    if n > 1073741823 {
        return SshPlan::Passthrough;
    }
    let (index, check) = match find_match(rules, inv.host.as_str(), inv.path.as_str()) {
        Some(m) => (Some(m.rule_index), inv.is_push && m.rule.email.is_some()),
        None => (None, false),
    };
    match index {
        Some(i) => SshPlan::UseRule { rule_index: i, host: inv.host, path: inv.path, check_email: check },
        None => SshPlan::NoRule { host: inv.host, path: inv.path },
    }
}

/// pickey's own subcommands, `help`, and the help and version flags are never taken for
/// an ssh invocation, whatever follows them.
pub proof fn lemma_own_words_are_not_ssh(args: Seq<Seq<char>>)
    requires
        args.len() > 0,
        args[0] == "status"@ || args[0] == "check"@ || args[0] == "list"@ || args[0] == "test"@
            || args[0] == "init"@ || args[0] == "help"@ || args[0] == "--help"@ || args[0] == "-h"@
            || args[0] == "--version"@ || args[0] == "-V"@,
    ensures
        !looks_like_ssh(args),
{
}

/// Git's own calls are ssh invocations: a first argument `user@host` (no subcommand word
/// holds an `@`) is taken as one whatever follows.
pub proof fn lemma_user_at_host_is_ssh(args: Seq<Seq<char>>, user: Seq<char>, host: Seq<char>)
    requires
        args.len() > 0,
        args[0] == user + seq!['@'] + host,
    ensures
        looks_like_ssh(args),
{
    let a = args[0];
    assert(a[user.len() as int] == '@');
    crate::text::lemma_find_from_bounds(a, '@', 0);
    if find(a, '@') is None {
        lemma_find_reaches(a, '@', 0, user.len() as int);
    }
    reveal_strlit("status");
    reveal_strlit("check");
    reveal_strlit("list");
    reveal_strlit("test");
    reveal_strlit("init");
    reveal_strlit("help");
    reveal_strlit("--help");
    reveal_strlit("-h");
    reveal_strlit("--version");
    reveal_strlit("-V");
    assert(!known_subcommand(a)) by {
        assert(a.contains('@'));
        assert(!"status"@.contains('@'));
        assert(!"check"@.contains('@'));
        assert(!"list"@.contains('@'));
        assert(!"test"@.contains('@'));
        assert(!"init"@.contains('@'));
        assert(!"help"@.contains('@'));
        assert(!"--help"@.contains('@'));
        assert(!"-h"@.contains('@'));
        assert(!"--version"@.contains('@'));
        assert(!"-V"@.contains('@'));
    }
}

/// `find_from` from `i` finds a `c` that sits at `p >= i`.
proof fn lemma_find_reaches(s: Seq<char>, c: char, i: int, p: int)
    requires
        0 <= i <= p < s.len(),
        s[p] == c,
    ensures
        find_from(s, c, i) is Some,
    decreases p - i,
{
    if i < p && s[i] != c {
        lemma_find_reaches(s, c, i + 1, p);
    }
}

} // verus!
