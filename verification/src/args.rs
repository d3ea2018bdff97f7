//! Parsing of the command line that git hands to its `sshCommand`.
//!
//! git invokes the command as
//! `[ssh-options...] <user@host> <git-upload-pack|git-receive-pack> '<org/repo.git>'`;
//! the host and the repository path are what the rules are matched against.
use vstd::prelude::*;
use vstd::slice::slice_subrange;

use crate::text::{
    chars_of, contains_seq, find, find_char, has_infix, has_prefix, has_suffix, join, rfind,
    rfind_before, rfind_char_before, slice_of, string_of, trim_char, trim_char_vec, views,
    without_prefix, without_suffix,
};

verus! {

/// What git asked ssh to do.
pub struct SshInvocation {
    /// The SSH hostname (e.g. "github.com").
    pub host: String,
    /// The repository path after the host, without a trailing ".git" or a leading "/".
    pub path: String,
    /// True if this is a push (`git-receive-pack`).
    pub is_push: bool,
}

/// ssh's options that take a value: `-b -c -D -E -e -F -I -i -J -L -l -m -O -o -p -Q -R -S -W -w`.
pub open spec fn takes_value(c: char) -> bool {
    seq!['b', 'c', 'D', 'E', 'e', 'F', 'I', 'i', 'J', 'L', 'l', 'm', 'O', 'o', 'p', 'Q', 'R', 'S', 'W', 'w'].contains(c)
}

/// Index of the argument naming the host, scanning from `i`: options are skipped, and so is
/// the separate value of an option that takes one.
pub open spec fn host_arg_from(args: Seq<Seq<char>>, i: int) -> Option<int>
    decreases args.len() - i,
{
    if i < 0 || i >= args.len() {
        None
    } else if args[i].len() > 0 && args[i][0] == '-' {
        if args[i].len() == 2 && takes_value(args[i][1]) {
            if i + 2 > args.len() {
                None
            } else {
                host_arg_from(args, i + 2)
            }
        } else {
            host_arg_from(args, i + 1)
        }
    } else {
        Some(i)
    }
}

/// The host in a `user@host` (or bare `host`) argument: what follows the first `@`.
pub open spec fn host_of(arg: Seq<char>) -> Seq<char> {
    match find(arg, '@') {
        Some(p) => arg.subrange(p + 1, arg.len() as int),
        None => arg,
    }
}

/// The text between the last two `q` characters of `c`, if it has two.
pub open spec fn quoted_tail(c: Seq<char>, q: char) -> Option<Seq<char>> {
    match rfind(c, q) {
        Some(e) => match rfind_before(c, q, e) {
            Some(o) => Some(c.subrange(o + 1, e)),
            None => None,
        },
        None => None,
    }
}

/// The repository path in the arguments after the host: the last single-quoted run of their
/// space-joined text, else the last double-quoted run, else the last argument stripped of
/// quotes.
pub open spec fn path_in(args: Seq<Seq<char>>) -> Seq<char> {
    let combined = join(args, seq![' ']);
    match quoted_tail(combined, '\'') {
        Some(p) => p,
        None => match quoted_tail(combined, '"') {
            Some(p) => p,
            None => if args.len() == 0 {
                Seq::empty()
            } else {
                trim_char(trim_char(args.last(), '\''), '"')
            },
        },
    }
}

/// ".git"
pub open spec fn dot_git() -> Seq<char> {
    seq!['.', 'g', 'i', 't']
}

/// "git-receive-pack"
pub open spec fn receive_pack() -> Seq<char> {
    seq!['g', 'i', 't', '-', 'r', 'e', 'c', 'e', 'i', 'v', 'e', '-', 'p', 'a', 'c', 'k']
}

/// A repository path as the rules see it: one trailing ".git" and then one leading "/" removed.
pub open spec fn clean_path(p: Seq<char>) -> Seq<char> {
    without_prefix(without_suffix(p, dot_git()), seq!['/'])
}

/// Some argument after position `h` mentions `git-receive-pack`.
pub open spec fn pushes_after(args: Seq<Seq<char>>, h: int) -> bool {
    exists|k: int| h < k < args.len() && #[trigger] contains_seq(args[k], receive_pack())
}

fn takes_value_exec(c: char) -> (r: bool)
    ensures
        r == takes_value(c),
{
    let set: Vec<char> = vec![
        'b', 'c', 'D', 'E', 'e', 'F', 'I', 'i', 'J', 'L', 'l', 'm', 'O', 'o', 'p', 'Q', 'R', 'S', 'W', 'w',
    ];
    assert(set@ =~= seq!['b', 'c', 'D', 'E', 'e', 'F', 'I', 'i', 'J', 'L', 'l', 'm', 'O', 'o', 'p', 'Q', 'R', 'S', 'W', 'w']);
    let mut i: usize = 0;
    while i < set.len()
        invariant
            i <= set@.len(),
            set@ == seq!['b', 'c', 'D', 'E', 'e', 'F', 'I', 'i', 'J', 'L', 'l', 'm', 'O', 'o', 'p', 'Q', 'R', 'S', 'W', 'w'],
            forall|j: int| 0 <= j < i ==> set@[j] != c,
        decreases set@.len() - i,
    {
        if set[i] == c {
            assert(set@[i as int] == c);
            assert(set@.contains(c));
            return true;
        }
        i = i + 1;
    }
    assert(!set@.contains(c));
    false
}

/// The arguments' characters joined by single spaces.
pub fn join_args(args: &[String]) -> (r: Vec<char>)
    ensures
        r@ == join(views(args@), seq![' ']),
{
    let ghost vs = views(args@);
    let mut r: Vec<char> = Vec::new();
    let mut i: usize = 0;
    while i < args.len()
        invariant
            vs == views(args@),
            i <= args@.len(),
            r@ == join(vs.take(i as int), seq![' ']),
        decreases args@.len() - i,
    {
        let mut part = chars_of(args[i].as_str());
        assert(vs[i as int] == args@[i as int]@);
        if i == 0 {
            r = part;
            assert(vs.take(1)[0] == vs[0]);
        } else {
            let ghost before = r@;
            r.push(' ');
            r.append(&mut part);
            assert(vs.take(i + 1).drop_last() =~= vs.take(i as int));
            assert(vs.take(i + 1).last() == vs[i as int]);
            assert(r@ =~= before + seq![' '] + vs[i as int]);
        }
        i = i + 1;
    }
    assert(vs.take(args@.len() as int) =~= vs);
    r
}

fn quoted_tail_exec(c: &Vec<char>, q: char) -> (r: Option<Vec<char>>)
    ensures
        r is Some <==> quoted_tail(c@, q) is Some,
        r matches Some(v) ==> quoted_tail(c@, q) == Some(v@),
{
    match rfind_char_before(c, q, c.len()) {
        Some(e) => match rfind_char_before(c, q, e) {
            Some(o) => Some(slice_of(c, o + 1, e)),
            None => None,
        },
        None => None,
    }
}

/// Extract the repository path from the arguments after the host. Handles
/// `["git-upload-pack", "'org/repo.git'"]`, the combined `["git-upload-pack 'org/repo.git'"]`
/// and options placed before the command.
fn extract_path(args: &[String]) -> (r: Vec<char>)
    ensures
        r@ == path_in(views(args@)),
{
    let combined = join_args(args);
    if let Some(p) = quoted_tail_exec(&combined, '\'') {
        return p;
    }
    if let Some(p) = quoted_tail_exec(&combined, '"') {
        return p;
    }
    if args.len() == 0 {
        return Vec::new();
    }
    let last = chars_of(args[args.len() - 1].as_str());
    assert(views(args@).last() == args@[args@.len() - 1]@);
    let t = trim_char_vec(&last, '\'');
    trim_char_vec(&t, '"')
}

/// The characters of `s` after its first `@`, or all of them.
fn host_of_exec(a: &Vec<char>) -> (r: Vec<char>)
    ensures
        r@ == host_of(a@),
{
    match find_char(a, '@') {
        Some(p) => {
            assert(p < a.len());
            slice_of(a, p + 1, a.len())
        },
        None => slice_of(a, 0, a.len()),
    }
}

/// `p` with one trailing ".git" and then one leading "/" removed.
pub fn clean_path_exec(p: &Vec<char>) -> (r: Vec<char>)
    ensures
        r@ == clean_path(p@),
{
    let dg: Vec<char> = vec!['.', 'g', 'i', 't'];
    assert(dg@ =~= dot_git());
    let q = if has_suffix(p, &dg) {
        slice_of(p, 0, p.len() - 4)
    } else {
        slice_of(p, 0, p.len())
    };
    assert(p@.subrange(0, p@.len() as int) =~= p@);
    let slash: Vec<char> = vec!['/'];
    assert(slash@ =~= seq!['/']);
    if has_prefix(&q, &slash) {
        slice_of(&q, 1, q.len())
    } else {
        assert(q@.subrange(0, q@.len() as int) =~= q@);
        slice_of(&q, 0, q.len())
    }
}

/// Index of the argument naming the host.
fn host_index(args: &[String]) -> (r: Option<usize>)
    ensures
        r matches Some(h) ==> host_arg_from(views(args@), 0) == Some(h as int),
        r is None ==> host_arg_from(views(args@), 0) is None,
{
    let ghost vs = views(args@);
    let mut i: usize = 0;
    while i < args.len()
        invariant
            vs == views(args@),
            i <= args@.len(),
            host_arg_from(vs, 0) == host_arg_from(vs, i as int),
        decreases args@.len() - i,
    {
        let a = chars_of(args[i].as_str());
        assert(vs[i as int] == a@);
        if a.len() > 0 && a[0] == '-' {
            if a.len() == 2 && takes_value_exec(a[1]) {
                if i + 1 < args.len() {
                    i = i + 2;
                } else {
                    return None;
                }
            } else {
                i = i + 1;
            }
        } else {
            return Some(i);
        }
    }
    None
}

/// Whether an argument after position `h` mentions `git-receive-pack`.
fn pushes_after_exec(args: &[String], h: usize) -> (r: bool)
    requires
        h < args@.len(),
    ensures
        r == pushes_after(views(args@), h as int),
{
    let ghost vs = views(args@);
    let rp: Vec<char> = vec!['g', 'i', 't', '-', 'r', 'e', 'c', 'e', 'i', 'v', 'e', '-', 'p', 'a', 'c', 'k'];
    assert(rp@ =~= receive_pack());
    assert(h < args.len());
    let mut k: usize = h + 1;
    while k < args.len()
        invariant
            vs == views(args@),
            h < k <= args@.len(),
            rp@ == receive_pack(),
            forall|j: int| h < j < k ==> !#[trigger] contains_seq(vs[j], receive_pack()),
        decreases args@.len() - k,
    {
        let a = chars_of(args[k].as_str());
        assert(vs[k as int] == a@);
        if has_infix(&a, &rp) {
            return true;
        }
        k = k + 1;
    }
    false
}

/// Parse the arguments git passed to its `sshCommand`. `None` when no argument names a host.
pub fn parse_ssh_args(args: &[String]) -> (r: Option<SshInvocation>)
    ensures
        match host_arg_from(views(args@), 0) {
            None => r is None,
            Some(h) => r matches Some(inv) && {
                &&& inv.host@ == host_of(args@[h]@)
                &&& inv.path@ == clean_path(path_in(views(args@).subrange(h + 1, args@.len() as int)))
                &&& inv.is_push == pushes_after(views(args@), h)
            },
        },
{
    let ghost vs = views(args@);
    let h = match host_index(args) {
        Some(h) => h,
        None => {
            return None;
        },
    };
    proof {
        host_arg_in_range(vs, 0);
    }
    let harg = chars_of(args[h].as_str());
    let host = host_of_exec(&harg);
    let rest = slice_subrange(args, h + 1, args.len());
    assert(views(rest@) =~= vs.subrange(h + 1, args@.len() as int));
    let raw = extract_path(rest);
    let path = clean_path_exec(&raw);
    let is_push = pushes_after_exec(args, h);
    Some(SshInvocation { host: string_of(&host), path: string_of(&path), is_push })
}

/// The host argument's index lies within the arguments.
pub proof fn host_arg_in_range(args: Seq<Seq<char>>, i: int)
    ensures
        host_arg_from(args, i) matches Some(h) ==> i <= h < args.len(),
    decreases args.len() - i,
{
    if 0 <= i < args.len() && args[i].len() > 0 && args[i][0] == '-' {
        if args[i].len() == 2 && takes_value(args[i][1]) {
            if i + 2 <= args.len() {
                host_arg_in_range(args, i + 2);
            }
        } else {
            host_arg_in_range(args, i + 1);
        }
    }
}

} // verus!
