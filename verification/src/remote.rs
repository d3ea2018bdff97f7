//! Parsing of git remote URLs into a host and a repository path.
use vstd::prelude::*;

use crate::args::{clean_path, clean_path_exec, dot_git, host_arg_from, host_of, path_in, quoted_tail};
use crate::text::{
    chars_of, ends_with, find, find_char, find_from, has_prefix, has_suffix, join, rfind_before,
    slice_of, starts_with, string_of, strip_prefix, without_suffix,
};

verus! {

/// "ssh://"
pub open spec fn ssh_scheme() -> Seq<char> {
    seq!['s', 's', 'h', ':', '/', '/']
}

/// What follows the first `c` in `s`, or all of `s`.
pub open spec fn after_first(s: Seq<char>, c: char) -> Seq<char> {
    match find(s, c) {
        Some(p) => s.subrange(p + 1, s.len() as int),
        None => s,
    }
}

/// What precedes the first `c` in `s`, or all of `s`.
pub open spec fn before_first(s: Seq<char>, c: char) -> Seq<char> {
    match find(s, c) {
        Some(p) => s.subrange(0, p),
        None => s,
    }
}

/// `(host, path)` of a remote URL:
/// `ssh://[user@]host[:port]/path[.git]` or `user@host:[/]path[.git]`.
pub open spec fn remote_parts(url: Seq<char>) -> Option<(Seq<char>, Seq<char>)> {
    match strip_prefix(url, ssh_scheme()) {
        Some(rest0) => {
            let rest = after_first(rest0, '@');
            match find(rest, '/') {
                Some(s) => Some(
                    (
                        before_first(rest.subrange(0, s), ':'),
                        without_suffix(rest.subrange(s + 1, rest.len() as int), dot_git()),
                    ),
                ),
                None => None,
            }
        },
        None => match find(url, '@') {
            Some(a) => {
                let tail = url.subrange(a + 1, url.len() as int);
                match find(tail, ':') {
                    Some(c) => Some(
                        (tail.subrange(0, c), clean_path(tail.subrange(c + 1, tail.len() as int))),
                    ),
                    None => None,
                }
            },
            None => None,
        },
    }
}

/// `(host, path)` of the argument of `pickey check`: a remote URL, or else `host:path`
/// split at the first `:` with one trailing ".git" removed.
pub open spec fn check_parts(url: Seq<char>) -> Option<(Seq<char>, Seq<char>)> {
    match remote_parts(url) {
        Some(hp) => Some(hp),
        None => match find(url, ':') {
            Some(c) => Some(
                (url.subrange(0, c), without_suffix(url.subrange(c + 1, url.len() as int), dot_git())),
            ),
            None => None,
        },
    }
}

fn after_first_exec(s: &Vec<char>, c: char) -> (r: Vec<char>)
    ensures
        r@ == after_first(s@, c),
{
    match find_char(s, c) {
        Some(p) => {
            assert(p < s.len());
            slice_of(s, p + 1, s.len())
        },
        None => {
            assert(s@.subrange(0, s@.len() as int) =~= s@);
            slice_of(s, 0, s.len())
        },
    }
}

fn before_first_exec(s: &Vec<char>, c: char) -> (r: Vec<char>)
    ensures
        r@ == before_first(s@, c),
{
    match find_char(s, c) {
        Some(p) => slice_of(s, 0, p),
        None => {
            assert(s@.subrange(0, s@.len() as int) =~= s@);
            slice_of(s, 0, s.len())
        },
    }
}

fn without_dot_git(p: &Vec<char>) -> (r: Vec<char>)
    ensures
        r@ == without_suffix(p@, dot_git()),
{
    let dg: Vec<char> = vec!['.', 'g', 'i', 't'];
    assert(dg@ =~= dot_git());
    if has_suffix(p, &dg) {
        slice_of(p, 0, p.len() - 4)
    } else {
        assert(p@.subrange(0, p@.len() as int) =~= p@);
        slice_of(p, 0, p.len())
    }
}

fn remote_parts_exec(u: &Vec<char>) -> (r: Option<(Vec<char>, Vec<char>)>)
    ensures
        r is Some <==> remote_parts(u@) is Some,
        r matches Some((h, p)) ==> remote_parts(u@) == Some((h@, p@)),
{
    let scheme: Vec<char> = vec!['s', 's', 'h', ':', '/', '/'];
    assert(scheme@ =~= ssh_scheme());
    if has_prefix(u, &scheme) {
        let rest0 = slice_of(u, 6, u.len());
        let rest = after_first_exec(&rest0, '@');
        match find_char(&rest, '/') {
            Some(s) => {
                let hp = slice_of(&rest, 0, s);
                let host = before_first_exec(&hp, ':');
                let pp = slice_of(&rest, s + 1, rest.len());
                let path = without_dot_git(&pp);
                Some((host, path))
            },
            None => None,
        }
    } else {
        match find_char(u, '@') {
            Some(a) => {
                let tail = slice_of(u, a + 1, u.len());
                match find_char(&tail, ':') {
                    Some(c) => {
                        let host = slice_of(&tail, 0, c);
                        let pp = slice_of(&tail, c + 1, tail.len());
                        let path = clean_path_exec(&pp);
                        Some((host, path))
                    },
                    None => None,
                }
            },
            None => None,
        }
    }
}

/// Parse a git remote URL into `(host, path)`. Supports `git@github.com:Org/repo.git`,
/// `ssh://git@github.com/Org/repo.git` (with an optional port) and URLs without ".git".
pub fn parse_remote_url(url: &str) -> (r: Option<(String, String)>)
    ensures
        r is Some <==> remote_parts(url@) is Some,
        r matches Some((h, p)) ==> remote_parts(url@) == Some((h@, p@)),
{
    let u = chars_of(url);
    match remote_parts_exec(&u) {
        Some((h, p)) => Some((string_of(&h), string_of(&p))),
        None => None,
    }
}

/// The `(host, path)` that `pickey check` looks up for its argument: a remote URL, or
/// `host:path` shorthand. `None` when it is neither.
pub fn parse_check_target(url: &str) -> (r: Option<(String, String)>)
    ensures
        r is Some <==> check_parts(url@) is Some,
        r matches Some((h, p)) ==> check_parts(url@) == Some((h@, p@)),
{
    let u = chars_of(url);
    match remote_parts_exec(&u) {
        Some((h, p)) => Some((string_of(&h), string_of(&p))),
        None => match find_char(&u, ':') {
            Some(c) => {
                let h = slice_of(&u, 0, c);
                let pp = slice_of(&u, c + 1, u.len());
                let p = without_dot_git(&pp);
                Some((string_of(&h), string_of(&p)))
            },
            None => None,
        },
    }
}

/// The first `c` at or after `i` is at `p` when none comes between.
proof fn lemma_find_at(s: Seq<char>, c: char, i: int, p: int)
    requires
        0 <= i <= p < s.len(),
        s[p] == c,
        forall|j: int| i <= j < p ==> s[j] != c,
    ensures
        find_from(s, c, i) == Some(p),
    decreases p - i,
{
    if i < p {
        lemma_find_at(s, c, i + 1, p);
    }
}

/// The last `c` before `i` is at `p` when none comes between.
proof fn lemma_rfind_at(s: Seq<char>, c: char, i: int, p: int)
    requires
        0 <= p < i <= s.len(),
        s[p] == c,
        forall|j: int| p < j < i ==> s[j] != c,
    ensures
        rfind_before(s, c, i) == Some(p),
    decreases i - p,
{
    if p < i - 1 {
        lemma_rfind_at(s, c, i - 1, p);
    }
}

/// What `pickey check` shows for a remote is what pickey matches when git uses that
/// remote: for `user@host:path`, git calls its `sshCommand` with `user@host` and
/// `<command> '<path>'`, and both give the same host and the same path.
pub proof fn lemma_check_agrees_with_ssh_args(user: Seq<char>, host: Seq<char>, path: Seq<char>, cmd: Seq<char>)
    requires
        !user.contains('@'),
        !user.contains(':'),
        user.len() > 0 ==> user[0] != '-',
        !host.contains('@'),
        !host.contains(':'),
        !path.contains('\''),
        !cmd.contains('\''),
    ensures
        ({
            let url = user + seq!['@'] + host + seq![':'] + path;
            let args = seq![user + seq!['@'] + host, cmd + seq![' ', '\''] + path + seq!['\'']];
            &&& remote_parts(url) == Some((host, clean_path(path)))
            &&& host_arg_from(args, 0) == Some(0int)
            &&& host_of(args[0]) == host
            &&& clean_path(path_in(args.subrange(1, 2))) == clean_path(path)
        }),
{
    let url = user + seq!['@'] + host + seq![':'] + path;
    let a0 = user + seq!['@'] + host;
    let a1 = cmd + seq![' ', '\''] + path + seq!['\''];
    let args = seq![a0, a1];
    let u = user.len() as int;
    // The URL is not an ssh:// one.
    assert(!starts_with(url, ssh_scheme())) by {
        if starts_with(url, ssh_scheme()) {
            assert(url.subrange(0, 6)[0] == url[0]);
            if u < 3 {
                assert(url[u] == '@');
                assert(url.subrange(0, 6)[u] == ssh_scheme()[u]);
            } else if u == 3 {
                assert(url[3] == '@');
                assert(url.subrange(0, 6)[3] == ssh_scheme()[3]);
            } else {
                assert(url[3] == user[3]);
                assert(url.subrange(0, 6)[3] == ssh_scheme()[3]);
                assert(user.contains(':'));
            }
        }
    }
    // The first `@` ends the user.
    assert forall|j: int| 0 <= j < u implies url[j] != '@' by {
        assert(url[j] == user[j]);
        if url[j] == '@' {
            assert(user.contains('@'));
        }
    }
    lemma_find_at(url, '@', 0, u);
    let tail = url.subrange(u + 1, url.len() as int);
    assert(tail =~= host + seq![':'] + path);
    let hl = host.len() as int;
    assert forall|j: int| 0 <= j < hl implies tail[j] != ':' by {
        assert(tail[j] == host[j]);
        if tail[j] == ':' {
            assert(host.contains(':'));
        }
    }
    lemma_find_at(tail, ':', 0, hl);
    assert(tail.subrange(0, hl) =~= host);
    assert(tail.subrange(hl + 1, tail.len() as int) =~= path);
    // The host argument.
    assert(a0.len() > 0);
    assert(a0[0] != '-') by {
        if u > 0 {
            assert(a0[0] == user[0]);
        } else {
            assert(a0[0] == '@');
        }
    }
    assert(host_arg_from(args, 0) == Some(0int));
    assert forall|j: int| 0 <= j < u implies a0[j] != '@' by {
        assert(a0[j] == user[j]);
        if a0[j] == '@' {
            assert(user.contains('@'));
        }
    }
    lemma_find_at(a0, '@', 0, u);
    assert(a0.subrange(u + 1, a0.len() as int) =~= host);
    // The path argument.
    assert(args.subrange(1, 2) =~= seq![a1]);
    assert(join(seq![a1], seq![' ']) == a1);
    let c = cmd.len() as int;
    let e = a1.len() - 1;
    assert(a1[e] == '\'');
    lemma_rfind_at(a1, '\'', a1.len() as int, e);
    assert(a1[c + 1] == '\'');
    assert forall|j: int| c + 1 < j < e implies a1[j] != '\'' by {
        assert(a1[j] == path[j - c - 2]);
        if a1[j] == '\'' {
            assert(path.contains('\''));
        }
    }
    lemma_rfind_at(a1, '\'', e, c + 1);
    assert(a1.subrange(c + 2, e) =~= path);
    assert(quoted_tail(a1, '\'') == Some(path));
}

/// `c` does not occur in `s`.
proof fn lemma_find_absent(s: Seq<char>, c: char, i: int)
    requires
        0 <= i,
        forall|j: int| i <= j < s.len() ==> s[j] != c,
    ensures
        find_from(s, c, i) is None,
    decreases s.len() - i,
{
    if i < s.len() {
        lemma_find_absent(s, c, i + 1);
    }
}

/// An `ssh://user@host/path` URL names `host` and `path`, where one trailing `.git` is
/// dropped from the path and nothing else is: a path that does not end in `.git` comes
/// back whole, and `path.git` gives `path`.
pub proof fn lemma_ssh_url_host_and_path(user: Seq<char>, host: Seq<char>, path: Seq<char>)
    requires
        !user.contains('@'),
        !host.contains('@'),
        !host.contains(':'),
        !host.contains('/'),
    ensures
        !ends_with(path, seq!['.', 'g', 'i', 't']) ==> remote_parts(
            ssh_scheme() + user + seq!['@'] + host + seq!['/'] + path,
        ) == Some((host, path)),
        remote_parts(ssh_scheme() + user + seq!['@'] + host + seq!['/'] + path + seq!['.', 'g', 'i', 't'])
            == Some((host, path)),
{
    lemma_ssh_url_parts(user, host, path);
    let q = path + seq!['.', 'g', 'i', 't'];
    lemma_ssh_url_parts(user, host, q);
    assert(ssh_scheme() + user + seq!['@'] + host + seq!['/'] + path + seq!['.', 'g', 'i', 't'] =~= ssh_scheme() + user
        + seq!['@'] + host + seq!['/'] + q);
    assert(q.subrange(q.len() - 4, q.len() as int) =~= dot_git());
    assert(q.subrange(0, q.len() - 4) =~= path);
}

proof fn lemma_ssh_url_parts(user: Seq<char>, host: Seq<char>, path: Seq<char>)
    requires
        !user.contains('@'),
        !host.contains('@'),
        !host.contains(':'),
        !host.contains('/'),
    ensures
        remote_parts(ssh_scheme() + user + seq!['@'] + host + seq!['/'] + path) == Some(
            (host, without_suffix(path, dot_git())),
        ),
{
    let rest0 = user + seq!['@'] + host + seq!['/'] + path;
    let url = ssh_scheme() + user + seq!['@'] + host + seq!['/'] + path;
    assert(url =~= ssh_scheme() + rest0);
    assert(url.subrange(0, 6) =~= ssh_scheme());
    assert(url.subrange(6, url.len() as int) =~= rest0);
    let a = user.len() as int;
    assert(rest0[a] == '@');
    assert forall|j: int| 0 <= j < a implies rest0[j] != '@' by {
        assert(rest0[j] == user[j]);
        if user[j] == '@' {
            assert(user.contains('@'));
        }
    }
    lemma_find_at(rest0, '@', 0, a);
    let rest = rest0.subrange(a + 1, rest0.len() as int);
    assert(rest =~= host + seq!['/'] + path);
    let h = host.len() as int;
    assert(rest[h] == '/');
    assert forall|j: int| 0 <= j < h implies rest[j] != '/' by {
        assert(rest[j] == host[j]);
        if host[j] == '/' {
            assert(host.contains('/'));
        }
    }
    lemma_find_at(rest, '/', 0, h);
    assert(rest.subrange(0, h) =~= host);
    assert(rest.subrange(h + 1, rest.len() as int) =~= path);
    assert forall|j: int| 0 <= j < host.len() implies host[j] != ':' by {
        if host[j] == ':' {
            assert(host.contains(':'));
        }
    }
    lemma_find_absent(host, ':', 0);
}

} // verus!
