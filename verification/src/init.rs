//! What `pickey init` reads out of git and ssh configuration text: `includeIf` keys,
//! `sshCommand` values, `IdentityFile` lines, and the directories they point at.
use vstd::prelude::*;

use crate::config::path_join;
use crate::text::{
    append_str, chars_of, has_prefix, join, lines, non_ws_pred, skip_while, slice_of, split_lines,
    starts_with, string_of, trim, trim_end_char, trim_end_char_vec, trim_end_seq, trim_end_seq_vec,
    trim_vec, vviews, ws_pred, is_whitespace,
};

verus! {

/// `c` lowercased if it is an ASCII capital letter (`char::to_ascii_lowercase`).
pub open spec fn ascii_lower(c: char) -> char {
    if 'A' <= c && c <= 'Z' {
        ((c as int) + 32) as char
    } else {
        c
    }
}

/// `s` with ASCII capitals lowercased (`str::to_ascii_lowercase`).
pub open spec fn ascii_lower_seq(s: Seq<char>) -> Seq<char> {
    s.map_values(|c: char| ascii_lower(c))
}

/// "includeif."
pub open spec fn includeif_dot() -> Seq<char> {
    seq!['i', 'n', 'c', 'l', 'u', 'd', 'e', 'i', 'f', '.']
}

/// ".path"
pub open spec fn dot_path() -> Seq<char> {
    seq!['.', 'p', 'a', 't', 'h']
}

/// "gitdir/i:"
pub open spec fn gitdir_i() -> Seq<char> {
    seq!['g', 'i', 't', 'd', 'i', 'r', '/', 'i', ':']
}

/// "gitdir:"
pub open spec fn gitdir() -> Seq<char> {
    seq!['g', 'i', 't', 'd', 'i', 'r', ':']
}

/// The directory pattern of an `includeIf.gitdir:<pattern>.path` (or `gitdir/i:`) key, the
/// prefixes and suffix compared without regard to ASCII case.
pub open spec fn include_pattern(key: Seq<char>) -> Option<Seq<char>> {
    let lower = ascii_lower_seq(key);
    if starts_with(lower, includeif_dot()) && key.len() >= 15 && crate::text::ends_with(lower, dot_path()) {
        let cond = key.subrange(10, key.len() - 5);
        let cond_lower = lower.subrange(10, key.len() - 5);
        if starts_with(cond_lower, gitdir_i()) {
            Some(cond.subrange(9, cond.len() as int))
        } else if starts_with(cond_lower, gitdir()) {
            Some(cond.subrange(7, cond.len() as int))
        } else {
            None
        }
    } else {
        None
    }
}

/// A line of `git config --get-regexp` output split into key and value: the key ends at
/// the first whitespace, the value is the rest with leading whitespace dropped. `None` when
/// there is no whitespace or either part is empty.
pub open spec fn config_key_value(line: Seq<char>) -> Option<(Seq<char>, Seq<char>)> {
    let k = skip_while(line, non_ws_pred(), 0);
    if k >= line.len() {
        None
    } else {
        let v = skip_while(line, ws_pred(), k);
        if k == 0 || v >= line.len() {
            None
        } else {
            Some((line.subrange(0, k), line.subrange(v, line.len() as int)))
        }
    }
}

/// `path` with a leading `~/` resolved against `home` (joined as paths), else `path` itself.
pub open spec fn under_home(path: Seq<char>, home: Seq<char>) -> Seq<char> {
    if starts_with(path, seq!['~', '/']) {
        path_join(home, path.subrange(2, path.len() as int))
    } else {
        path
    }
}

/// "**"
pub open spec fn double_star() -> Seq<char> {
    seq!['*', '*']
}

/// A `gitdir` pattern with its trailing `**` runs and then its trailing `/`s removed.
pub open spec fn pattern_base(pattern: Seq<char>) -> Seq<char> {
    trim_end_char(trim_end_seq(pattern, double_star()), '/')
}

/// The directory that a `gitdir` pattern covers: its base, under `home` when it starts
/// with `~/`.
pub open spec fn pattern_dir(pattern: Seq<char>, home: Seq<char>) -> Seq<char> {
    if starts_with(pattern, seq!['~', '/']) {
        path_join(home, pattern_base(pattern.subrange(2, pattern.len() as int)))
    } else {
        pattern_base(pattern)
    }
}

/// "IdentityFile"
pub open spec fn identity_file_kw() -> Seq<char> {
    seq!['I', 'd', 'e', 'n', 't', 'i', 't', 'y', 'F', 'i', 'l', 'e']
}

/// The key path named by one line of an ssh config file, if it is an `IdentityFile`
/// directive (not a comment) with a nonempty value.
pub open spec fn identity_file_of_line(line: Seq<char>, home: Seq<char>) -> Option<Seq<char>> {
    let t = trim(line);
    if t.len() > 0 && t[0] == '#' {
        None
    } else if starts_with(t, identity_file_kw()) {
        let rest = trim(t.subrange(12, t.len() as int));
        if rest.len() == 0 {
            None
        } else {
            Some(under_home(rest, home))
        }
    } else {
        None
    }
}

/// The key paths named by the `IdentityFile` directives among `ls`, in order.
pub open spec fn identity_files_of_lines(ls: Seq<Seq<char>>, home: Seq<char>) -> Seq<Seq<char>>
    decreases ls.len(),
{
    if ls.len() == 0 {
        Seq::empty()
    } else {
        let before = identity_files_of_lines(ls.drop_last(), home);
        match identity_file_of_line(ls.last(), home) {
            Some(p) => before.push(p),
            None => before,
        }
    }
}

fn ascii_lower_exec(c: char) -> (r: char)
    ensures
        r == ascii_lower(c),
{
    if 'A' <= c && c <= 'Z' {
        ((c as u8) + 32) as char
    } else {
        c
    }
}

fn literal(s: &str) -> (r: Vec<char>)
    ensures
        r@ == s@,
{
    chars_of(s)
}

/// The `gitdir` pattern in an `includeIf` key: `includeif.gitdir:~/work/**.path` gives
/// `~/work/**`, and `gitdir/i:` is accepted too. Other conditions give `None`.
pub fn include_pattern_from_config_key(key: &str) -> (r: Option<String>)
    ensures
        r is Some <==> include_pattern(key@) is Some,
        r matches Some(p) ==> include_pattern(key@) == Some(p@),
{
    let k = chars_of(key);
    let mut lower: Vec<char> = Vec::new();
    let mut i: usize = 0;
    while i < k.len()
        invariant
            i <= k@.len(),
            lower@ == ascii_lower_seq(k@).subrange(0, i as int),
        decreases k@.len() - i,
    {
        lower.push(ascii_lower_exec(k[i]));
        i = i + 1;
    }
    assert(lower@ =~= ascii_lower_seq(k@));
    let pre: Vec<char> = vec!['i', 'n', 'c', 'l', 'u', 'd', 'e', 'i', 'f', '.'];
    let suf: Vec<char> = vec!['.', 'p', 'a', 't', 'h'];
    let gi: Vec<char> = vec!['g', 'i', 't', 'd', 'i', 'r', '/', 'i', ':'];
    let g: Vec<char> = vec!['g', 'i', 't', 'd', 'i', 'r', ':'];
    assert(pre@ =~= includeif_dot());
    assert(suf@ =~= dot_path());
    assert(gi@ =~= gitdir_i());
    assert(g@ =~= gitdir());
    if !(has_prefix(&lower, &pre) && k.len() >= 15 && crate::text::has_suffix(&lower, &suf)) {
        return None;
    }
    let cond = slice_of(&k, 10, k.len() - 5);
    let cond_lower = slice_of(&lower, 10, k.len() - 5);
    if has_prefix(&cond_lower, &gi) {
        let p = slice_of(&cond, 9, cond.len());
        Some(string_of(&p))
    } else if has_prefix(&cond_lower, &g) {
        let p = slice_of(&cond, 7, cond.len());
        Some(string_of(&p))
    } else {
        None
    }
}

/// Split a line of `git config --get-regexp` output into key and value; the value keeps
/// its inner spaces (`includeif.gitdir:~/w/**.path ~/Work Configs/git`).
pub fn parse_git_config_key_value<'a>(line: &'a str) -> (r: Option<(&'a str, &'a str)>)
    ensures
        r is Some <==> config_key_value(line@) is Some,
        r matches Some((k, v)) ==> config_key_value(line@) == Some((k@, v@)),
{
    let l = chars_of(line);
    let ghost nws = non_ws_pred();
    let ghost ws = ws_pred();
    let mut k: usize = 0;
    while k < l.len() && !is_whitespace(l[k])
        invariant
            k <= l@.len(),
            nws == non_ws_pred(),
            skip_while(l@, nws, 0) == skip_while(l@, nws, k as int),
        decreases l@.len() - k,
    {
        k = k + 1;
    }
    if k >= l.len() {
        return None;
    }
    let mut v: usize = k;
    while v < l.len() && is_whitespace(l[v])
        invariant
            k <= v <= l@.len(),
            ws == ws_pred(),
            skip_while(l@, ws, k as int) == skip_while(l@, ws, v as int),
        decreases l@.len() - v,
    {
        v = v + 1;
    }
    if k == 0 || v >= l.len() {
        return None;
    }
    let key = line.substring_char(0, k);
    let value = line.substring_char(v, l.len());
    Some((key, value))
}

/// `path` with a leading `~/` resolved against `home`.
pub fn resolve_under_home(path: &str, home: &str) -> (r: String)
    ensures
        r@ == under_home(path@, home@),
{
    let p = chars_of(path);
    let ts: Vec<char> = vec!['~', '/'];
    assert(ts@ =~= seq!['~', '/']);
    if has_prefix(&p, &ts) {
        let tail = slice_of(&p, 2, p.len());
        let h = chars_of(home);
        let j = crate::config::join_path(&h, &tail);
        string_of(&j)
    } else {
        string_of(&p)
    }
}

fn pattern_base_exec(p: &Vec<char>) -> (r: Vec<char>)
    ensures
        r@ == pattern_base(p@),
{
    let ds: Vec<char> = vec!['*', '*'];
    assert(ds@ =~= double_star());
    let a = trim_end_seq_vec(p, &ds);
    trim_end_char_vec(&a, '/')
}

/// A `gitdir` pattern without its trailing `**` and `/` (as listed under "Scope").
pub fn pattern_scope(pattern: &str) -> (r: String)
    ensures
        r@ == pattern_base(pattern@),
{
    let p = chars_of(pattern);
    let b = pattern_base_exec(&p);
    string_of(&b)
}

/// The directory a `gitdir` pattern covers, with `~/` resolved against `home`.
pub fn include_dir(pattern: &str, home: &str) -> (r: String)
    ensures
        r@ == pattern_dir(pattern@, home@),
{
    let p = chars_of(pattern);
    let ts: Vec<char> = vec!['~', '/'];
    assert(ts@ =~= seq!['~', '/']);
    if has_prefix(&p, &ts) {
        let tail = slice_of(&p, 2, p.len());
        let b = pattern_base_exec(&tail);
        let h = chars_of(home);
        let j = crate::config::join_path(&h, &b);
        string_of(&j)
    } else {
        let b = pattern_base_exec(&p);
        string_of(&b)
    }
}

/// The key path an ssh config line names, if it is an `IdentityFile` directive.
fn identity_file_of_line_exec(line: &Vec<char>, home: &Vec<char>) -> (r: Option<Vec<char>>)
    ensures
        r is Some <==> identity_file_of_line(line@, home@) is Some,
        r matches Some(p) ==> identity_file_of_line(line@, home@) == Some(p@),
{
    let t = trim_vec(line);
    if t.len() > 0 && t[0] == '#' {
        return None;
    }
    let kw = literal("IdentityFile");
    proof {
        reveal_strlit("IdentityFile");
    }
    assert(kw@ =~= identity_file_kw());
    if !has_prefix(&t, &kw) {
        return None;
    }
    let after = slice_of(&t, 12, t.len());
    let rest = trim_vec(&after);
    if rest.len() == 0 {
        return None;
    }
    let ts: Vec<char> = vec!['~', '/'];
    assert(ts@ =~= seq!['~', '/']);
    if has_prefix(&rest, &ts) {
        let tail = slice_of(&rest, 2, rest.len());
        Some(crate::config::join_path(home, &tail))
    } else {
        Some(rest)
    }
}

/// The key paths named by `IdentityFile` directives in the text of an ssh config file,
/// in order, with `~/` resolved against `home`. Comment lines are skipped.
pub fn identity_files_in_ssh_config(contents: &str, home: &str) -> (r: Vec<String>)
    ensures
        crate::text::views(r@) == identity_files_of_lines(lines(contents@), home@),
{
    let c = chars_of(contents);
    let h = chars_of(home);
    let ls = split_lines(&c);
    let ghost lv = vviews(ls@);
    let mut r: Vec<String> = Vec::new();
    let mut i: usize = 0;
    while i < ls.len()
        invariant
            lv == vviews(ls@),
            lv == lines(c@),
            c@ == contents@,
            h@ == home@,
            i <= ls@.len(),
            crate::text::views(r@) == identity_files_of_lines(lv.take(i as int), h@),
        decreases ls@.len() - i,
    {
        let ghost before = crate::text::views(r@);
        assert(lv.take(i + 1).drop_last() =~= lv.take(i as int));
        assert(lv.take(i + 1).last() == ls@[i as int]@);
        match identity_file_of_line_exec(&ls[i], &h) {
            Some(p) => {
                r.push(string_of(&p));
                assert(crate::text::views(r@) =~= before.push(p@));
            },
            None => {},
        }
        i = i + 1;
    }
    assert(lv.take(ls@.len() as int) =~= lv);
    r
}

/// The tokenizer's state: words so far, the word being read, the open quote, whether a
/// word is being read, and whether the previous character was an escaping backslash.
pub type TokState = (Seq<Seq<char>>, Seq<char>, Option<char>, bool, bool);

/// One character of shell-like splitting: whitespace separates words outside quotes;
/// `'...'` is literal; inside `"..."` a backslash escapes the next character; outside
/// quotes a backslash escapes the next character.
pub open spec fn tok_step(st: TokState, c: char) -> TokState {
    let (words, cur, quote, in_word, escaped) = st;
    if escaped {
        (words, cur.push(c), quote, true, false)
    } else {
        match quote {
            Some(q) => if q == '\'' {
                if c == '\'' {
                    (words, cur, None, in_word, false)
                } else {
                    (words, cur.push(c), quote, in_word, false)
                }
            } else {
                if c == '"' {
                    (words, cur, None, in_word, false)
                } else if c == '\\' {
                    (words, cur, quote, in_word, true)
                } else {
                    (words, cur.push(c), quote, in_word, false)
                }
            },
            None => if crate::text::is_ws(c) {
                if in_word {
                    (words.push(cur), Seq::empty(), None, false, false)
                } else {
                    st
                }
            } else if c == '\'' || c == '"' {
                (words, cur, Some(c), true, false)
            } else if c == '\\' {
                (words, cur, None, in_word, true)
            } else {
                (words, cur.push(c), None, true, false)
            },
        }
    }
}

/// The tokenizer's state after reading all of `s`.
pub open spec fn tok_run(s: Seq<char>) -> TokState
    decreases s.len(),
{
    if s.len() == 0 {
        (Seq::empty(), Seq::empty(), None, false, false)
    } else {
        tok_step(tok_run(s.drop_last()), s.last())
    }
}

/// The words of `s`: a dangling backslash is kept literally, and the last word is kept
/// even when a quote is left open.
pub open spec fn tokens(s: Seq<char>) -> Seq<Seq<char>> {
    let (words, cur, quote, in_word, escaped) = tok_run(s);
    let cur2 = if escaped {
        cur.push('\\')
    } else {
        cur
    };
    if in_word || escaped {
        words.push(cur2)
    } else {
        words
    }
}

/// No quote and no backslash: nothing the tokenizer treats specially besides whitespace.
pub open spec fn plain_command(s: Seq<char>) -> bool {
    forall|k: int| 0 <= k < s.len() ==> #[trigger] s[k] != '\'' && s[k] != '"' && s[k] != '\\'
}

/// On a plain command the tokenizer stays outside quotes and escapes, reads a word exactly
/// when the last character is not whitespace, and its words so far (with the current one)
/// are the whitespace-separated words.
proof fn lemma_tok_run_plain(s: Seq<char>)
    requires
        plain_command(s),
    ensures
        ({
            let (ws, cur, quote, in_word, escaped) = tok_run(s);
            &&& quote is None && !escaped
            &&& in_word == (s.len() > 0 && !crate::text::is_ws(s.last()))
            &&& in_word ==> crate::text::words(s) == ws.push(cur)
            &&& !in_word ==> crate::text::words(s) == ws && cur.len() == 0
        }),
    decreases s.len(),
{
    if s.len() == 0 {
        assert(crate::text::words(s) =~= Seq::<Seq<char>>::empty());
    } else {
        let p = s.drop_last();
        let c = s.last();
        assert(plain_command(p)) by {
            assert forall|k: int| 0 <= k < p.len() implies #[trigger] p[k] != '\'' && p[k] != '"' && p[k] != '\\' by {
                assert(p[k] == s[k]);
            }
        }
        assert(c == s[s.len() - 1]);
        lemma_tok_run_plain(p);
        assert(p.push(c) =~= s);
        crate::text::lemma_words_push(p, c);
        let (ws, cur, quote, in_word, escaped) = tok_run(p);
        if !crate::text::is_ws(c) && !in_word {
            assert(cur.push(c) =~= seq![c]);
        }
    }
}

/// Without quotes or backslashes, tokenizing an `sshCommand` is splitting it on whitespace.
pub proof fn lemma_plain_command_splits_on_whitespace(s: Seq<char>)
    requires
        plain_command(s),
    ensures
        tokens(s) == crate::text::words(s),
{
    lemma_tok_run_plain(s);
}

/// A decimal digit.
pub open spec fn is_digit(c: char) -> bool {
    '0' <= c && c <= '9'
}

/// The value of a run of decimal digits.
pub open spec fn digits_value(d: Seq<char>) -> int
    decreases d.len(),
{
    if d.len() == 0 {
        0
    } else {
        digits_value(d.drop_last()) * 10 + (d.last() as int - 48)
    }
}

/// `s` without one leading `+`.
pub open spec fn unsigned_part(s: Seq<char>) -> Seq<char> {
    if s.len() > 0 && s[0] == '+' {
        s.subrange(1, s.len() as int)
    } else {
        s
    }
}

/// A nonempty run of decimal digits whose value fits in a `u16`, read as that value.
pub open spec fn parse_digits(d: Seq<char>) -> Option<u16> {
    if d.len() > 0 && (forall|k: int| 0 <= k < d.len() ==> is_digit(#[trigger] d[k])) && digits_value(d)
        <= 65535 {
        Some(digits_value(d) as u16)
    } else {
        None
    }
}

/// `s` read as a `u16` the way `str::parse::<u16>` reads it: an optional `+`, then one or
/// more decimal digits, with a value that fits.
pub open spec fn parse_u16(s: Seq<char>) -> Option<u16> {
    parse_digits(unsigned_part(s))
}

/// End (exclusive) of the words that make up an option's value, from `e`: it runs up to
/// the next word that starts with `-`.
pub open spec fn value_end(parts: Seq<Seq<char>>, e: int) -> int
    decreases parts.len() - e,
{
    if 0 <= e < parts.len() && !starts_with(parts[e], seq!['-']) {
        value_end(parts, e + 1)
    } else {
        e
    }
}

/// "IdentityFile="
pub open spec fn identity_file_eq() -> Seq<char> {
    seq!['I', 'd', 'e', 'n', 't', 'i', 't', 'y', 'F', 'i', 'l', 'e', '=']
}

/// "Port="
pub open spec fn port_eq() -> Seq<char> {
    seq!['P', 'o', 'r', 't', '=']
}

/// The key and port after reading one `-o` option.
pub open spec fn apply_option(option: Seq<char>, key: Option<Seq<char>>, port: Option<u16>) -> (Option<Seq<char>>, Option<u16>) {
    (
        if starts_with(option, identity_file_eq()) {
            Some(option.subrange(13, option.len() as int))
        } else {
            key
        },
        if starts_with(option, port_eq()) {
            parse_u16(option.subrange(5, option.len() as int))
        } else {
            port
        },
    )
}

/// The key and port that the words of an `sshCommand` from position `i` on set, starting
/// from `key` and `port`: `-i <path words>` (the path runs up to the next word starting
/// with `-`), `-i<path>`, `-p <port>`, `-p<port>`, `-o <option>` and `-o<option>` with
/// `IdentityFile=` or `Port=`; later settings win.
pub open spec fn key_port_scan(parts: Seq<Seq<char>>, i: int, key: Option<Seq<char>>, port: Option<u16>) -> (Option<Seq<char>>, Option<u16>)
    decreases parts.len() - i,
{
    if i < 0 || i >= parts.len() {
        (key, port)
    } else {
        let a = parts[i];
        if a == seq!['-', 'i'] && i + 1 < parts.len() {
            let e = value_end(parts, i + 2);
            if e <= i || e > parts.len() {
                (key, port)
            } else {
                key_port_scan(parts, e, Some(join(parts.subrange(i + 1, e), seq![' '])), port)
            }
        } else if starts_with(a, seq!['-', 'i']) && a.len() > 2 {
            key_port_scan(parts, i + 1, Some(a.subrange(2, a.len() as int)), port)
        } else if a == seq!['-', 'p'] && i + 1 < parts.len() {
            key_port_scan(parts, i + 2, key, parse_u16(parts[i + 1]))
        } else if starts_with(a, seq!['-', 'p']) && a.len() > 2 {
            key_port_scan(parts, i + 1, key, parse_u16(a.subrange(2, a.len() as int)))
        } else if a == seq!['-', 'o'] && i + 1 < parts.len() {
            let (k, p) = apply_option(parts[i + 1], key, port);
            key_port_scan(parts, i + 2, k, p)
        } else if starts_with(a, seq!['-', 'o']) && a.len() > 2 {
            let (k, p) = apply_option(a.subrange(2, a.len() as int), key, port);
            key_port_scan(parts, i + 1, k, p)
        } else {
            key_port_scan(parts, i + 1, key, port)
        }
    }
}

/// The key path and port an `sshCommand` such as
/// `/usr/bin/ssh -o IdentitiesOnly=yes -i ~/.ssh/work -p 222` selects.
pub open spec fn ssh_command_key_port(cmd: Seq<char>) -> (Option<Seq<char>>, Option<u16>) {
    key_port_scan(tokens(cmd), 0, None, None)
}

/// Split an `sshCommand` into words, as a shell would: quotes group, backslashes escape.
pub fn tokenize_ssh_command(input: &str) -> (r: Vec<String>)
    ensures
        crate::text::views(r@) == tokens(input@),
{
    let s = chars_of(input);
    let mut words: Vec<String> = Vec::new();
    let mut current: Vec<char> = Vec::new();
    let mut quote: Option<char> = None;
    let mut in_word = false;
    let mut escaped = false;
    let mut i: usize = 0;
    while i < s.len()
        invariant
            s@ == input@,
            i <= s@.len(),
            tok_run(s@.take(i as int)) == (crate::text::views(words@), current@, quote, in_word, escaped),
        decreases s@.len() - i,
    {
        let c = s[i];
        assert(s@.take(i + 1).drop_last() =~= s@.take(i as int));
        assert(s@.take(i + 1).last() == c);
        let ghost wv = crate::text::views(words@);
        if escaped {
            current.push(c);
            in_word = true;
            escaped = false;
        } else {
            match quote {
                Some(q) => {
                    if q == '\'' {
                        if c == '\'' {
                            quote = None;
                        } else {
                            current.push(c);
                        }
                    } else {
                        if c == '"' {
                            quote = None;
                        } else if c == '\\' {
                            escaped = true;
                        } else {
                            current.push(c);
                        }
                    }
                },
                None => {
                    if is_whitespace(c) {
                        if in_word {
                            words.push(string_of(&current));
                            assert(crate::text::views(words@) =~= wv.push(current@));
                            current = Vec::new();
                            in_word = false;
                        }
                    } else if c == '\'' || c == '"' {
                        quote = Some(c);
                        in_word = true;
                    } else if c == '\\' {
                        escaped = true;
                    } else {
                        current.push(c);
                        in_word = true;
                    }
                },
            }
        }
        i = i + 1;
    }
    assert(s@.take(s@.len() as int) =~= s@);
    let ghost wv = crate::text::views(words@);
    if escaped {
        current.push('\\');
        in_word = true;
    }
    if in_word {
        words.push(string_of(&current));
        assert(crate::text::views(words@) =~= wv.push(current@));
    }
    words
}

/// A run of digits is worth at least any of its prefixes.
proof fn lemma_digits_prefix(d: Seq<char>, j: int)
    requires
        0 <= j <= d.len(),
        forall|k: int| 0 <= k < d.len() ==> is_digit(#[trigger] d[k]),
    ensures
        0 <= digits_value(d.subrange(0, j)) <= digits_value(d),
    decreases d.len() - j,
{
    if j < d.len() {
        lemma_digits_prefix(d, j + 1);
        let t = d.subrange(0, j + 1);
        assert(t.drop_last() =~= d.subrange(0, j));
        assert(is_digit(d[j]));
    } else {
        assert(d.subrange(0, j) =~= d);
        lemma_digits_nonneg(d);
    }
}

proof fn lemma_digits_nonneg(d: Seq<char>)
    requires
        forall|k: int| 0 <= k < d.len() ==> is_digit(#[trigger] d[k]),
    ensures
        digits_value(d) >= 0,
    decreases d.len(),
{
    if d.len() > 0 {
        assert(is_digit(d[d.len() - 1]));
        lemma_digits_nonneg(d.drop_last());
    }
}

/// `s` read as a `u16` (`str::parse::<u16>().ok()`).
pub fn parse_port(s: &Vec<char>) -> (r: Option<u16>)
    ensures
        r == parse_u16(s@),
{
    let start: usize = if s.len() > 0 && s[0] == '+' {
        1
    } else {
        0
    };
    let ghost d = if s@.len() > 0 && s@[0] == '+' {
        s@.subrange(1, s@.len() as int)
    } else {
        s@
    };
    assert(d =~= s@.subrange(start as int, s@.len() as int));
    if start >= s.len() {
        return None;
    }
    let mut acc: u32 = 0;
    let mut i: usize = start;
    while i < s.len()
        invariant
            start <= i <= s@.len(),
            d == s@.subrange(start as int, s@.len() as int),
            d == unsigned_part(s@),
            acc as int == digits_value(d.subrange(0, i - start)),
            acc <= 65535,
            forall|k: int| 0 <= k < i - start ==> is_digit(#[trigger] d[k]),
        decreases s@.len() - i,
    {
        let c = s[i];
        if !('0' <= c && c <= '9') {
            assert(!is_digit(d[i - start]));
            assert(parse_u16(s@) is None);
            return None;
        }
        let dv: u32 = ((c as u32) - 48) as u32;
        let ghost t = d.subrange(0, i + 1 - start);
        assert(t.drop_last() =~= d.subrange(0, i - start));
        assert(t.last() == c);
        let next: u32 = acc * 10 + dv;
        assert(next as int == digits_value(t));
        if next > 65535 {
            proof {
                if forall|k: int| 0 <= k < d.len() ==> is_digit(#[trigger] d[k]) {
                    lemma_digits_prefix(d, i + 1 - start);
                }
            }
            assert(parse_u16(s@) is None);
            return None;
        }
        acc = next;
        i = i + 1;
    }
    assert(d.subrange(0, s@.len() - start) =~= d);
    Some(acc as u16)
}

/// An optional string's characters.
pub open spec fn opt_view(o: Option<String>) -> Option<Seq<char>> {
    match o {
        Some(s) => Some(s@),
        None => None,
    }
}

proof fn lemma_value_end_bounds(parts: Seq<Seq<char>>, e: int)
    requires
        0 <= e <= parts.len(),
    ensures
        e <= value_end(parts, e) <= parts.len(),
    decreases parts.len() - e,
{
    if e < parts.len() && !starts_with(parts[e], seq!['-']) {
        lemma_value_end_bounds(parts, e + 1);
    }
}

/// The value of an option that starts at `parts[start]`: that word and the following ones
/// up to the next word starting with `-`, joined by spaces; and the index after them.
pub fn collect_ssh_option_value(parts: &[String], start: usize) -> (r: (String, usize))
    requires
        start < parts@.len(),
    ensures
        r.1 as int == value_end(crate::text::views(parts@), start + 1),
        start < r.1 <= parts@.len(),
        r.0@ == join(crate::text::views(parts@).subrange(start as int, r.1 as int), seq![' ']),
{
    let ghost vs = crate::text::views(parts@);
    let dash: Vec<char> = vec!['-'];
    assert(dash@ =~= seq!['-']);
    assert(start < parts.len());
    let mut end: usize = start + 1;
    loop
        invariant
            vs == crate::text::views(parts@),
            dash@ == seq!['-'],
            start < end <= parts@.len(),
            value_end(vs, start + 1) == value_end(vs, end as int),
        ensures
            value_end(vs, start + 1) == end as int,
            start < end <= parts@.len(),
        decreases parts@.len() - end,
    {
        if end >= parts.len() {
            assert(value_end(vs, end as int) == end);
            break;
        }
        let w = chars_of(parts[end].as_str());
        assert(vs[end as int] == w@);
        if has_prefix(&w, &dash) {
            assert(value_end(vs, end as int) == end);
            break;
        }
        end = end + 1;
    }
    let sub = vstd::slice::slice_subrange(parts, start, end);
    assert(crate::text::views(sub@) =~= vs.subrange(start as int, end as int));
    let j = crate::args::join_args(sub);
    (string_of(&j), end)
}

/// Apply one `-o` option: `IdentityFile=<path>` sets the key, `Port=<n>` the port
/// (`None` when `n` is not a valid port).
pub fn parse_ssh_option(option: &str, key: &mut Option<String>, port: &mut Option<u16>)
    ensures
        (opt_view(*final(key)), *final(port)) == apply_option(option@, opt_view(*old(key)), *old(port)),
{
    let o = chars_of(option);
    let idf = literal("IdentityFile=");
    let pe = literal("Port=");
    proof {
        reveal_strlit("IdentityFile=");
        reveal_strlit("Port=");
    }
    assert(idf@ =~= identity_file_eq());
    assert(pe@ =~= port_eq());
    if has_prefix(&o, &idf) {
        let v = slice_of(&o, 13, o.len());
        *key = Some(string_of(&v));
    }
    if has_prefix(&o, &pe) {
        let v = slice_of(&o, 5, o.len());
        *port = parse_port(&v);
    }
}

/// Parse an `sshCommand` like `/usr/bin/ssh -o IdentitiesOnly=yes -i ~/.ssh/key -p 222`
/// for the key path and the port it selects.
pub fn parse_ssh_command_for_key_and_port(cmd: &str) -> (r: (Option<String>, Option<u16>))
    ensures
        (opt_view(r.0), r.1) == ssh_command_key_port(cmd@),
{
    let parts = tokenize_ssh_command(cmd);
    let ghost vs = crate::text::views(parts@);
    let mut key: Option<String> = None;
    let mut port: Option<u16> = None;
    let mut i: usize = 0;
    let di: Vec<char> = vec!['-', 'i'];
    let dp: Vec<char> = vec!['-', 'p'];
    let dop: Vec<char> = vec!['-', 'o'];
    assert(di@ =~= seq!['-', 'i']);
    assert(dp@ =~= seq!['-', 'p']);
    assert(dop@ =~= seq!['-', 'o']);
    while i < parts.len()
        invariant
            vs == crate::text::views(parts@),
            vs == tokens(cmd@),
            di@ == seq!['-', 'i'],
            dp@ == seq!['-', 'p'],
            dop@ == seq!['-', 'o'],
            i <= parts@.len(),
            ssh_command_key_port(cmd@) == key_port_scan(vs, i as int, opt_view(key), port),
        decreases parts@.len() - i,
    {
        let a = chars_of(parts[i].as_str());
        assert(vs[i as int] == a@);
        if crate::text::seq_eq(&a, &di) && i + 1 < parts.len() {
            let (v, next) = collect_ssh_option_value(&parts, i + 1);
            proof {
                lemma_value_end_bounds(vs, i + 2);
            }
            key = Some(v);
            i = next;
        } else if has_prefix(&a, &di) && a.len() > 2 {
            let k = slice_of(&a, 2, a.len());
            key = Some(string_of(&k));
            i = i + 1;
        } else if crate::text::seq_eq(&a, &dp) && i + 1 < parts.len() {
            let w = chars_of(parts[i + 1].as_str());
            assert(vs[i + 1] == w@);
            port = parse_port(&w);
            i = i + 2;
        } else if has_prefix(&a, &dp) && a.len() > 2 {
            let w = slice_of(&a, 2, a.len());
            port = parse_port(&w);
            i = i + 1;
        } else if crate::text::seq_eq(&a, &dop) && i + 1 < parts.len() {
            parse_ssh_option(parts[i + 1].as_str(), &mut key, &mut port);
            assert(vs[i + 1] == parts@[i + 1]@);
            i = i + 2;
        } else if has_prefix(&a, &dop) && a.len() > 2 {
            let w = slice_of(&a, 2, a.len());
            let ws = string_of(&w);
            parse_ssh_option(ws.as_str(), &mut key, &mut port);
            i = i + 1;
        } else {
            i = i + 1;
        }
    }
    (key, port)
}

/// What `Path::strip_prefix` gives for `path` and `base`: the rest of `path` after the
/// components of `base`, or `None` when `base` is not a prefix of it component-wise.
pub uninterp spec fn path_strip_prefix(path: Seq<char>, base: Seq<char>) -> Option<Seq<char>>;

/// `std::path::Path::strip_prefix`, its result as text. Its result is named
/// `path_strip_prefix`, a function of the two paths alone.
#[verifier::external_body]
fn strip_path_prefix(path: &str, base: &str) -> (r: Option<String>)
    ensures
        opt_view(r) == path_strip_prefix(path@, base@),
{
    std::path::Path::new(path).strip_prefix(base).ok().map(|p| p.to_string_lossy().into_owned())
}

/// A path as shown to the user: under the home directory it reads `~/<rest>`.
pub open spec fn display_path(path: Seq<char>, home: Seq<char>) -> Seq<char> {
    match path_strip_prefix(path, home) {
        Some(rel) => seq!['~', '/'] + rel,
        None => path,
    }
}

/// Convert a path to a display-friendly string, using `~` for the home directory.
pub fn make_display_path(path: &str, home: &str) -> (r: String)
    ensures
        r@ == display_path(path@, home@),
{
    match strip_path_prefix(path, home) {
        Some(rel) => {
            let mut v: Vec<char> = vec!['~', '/'];
            append_str(&mut v, rel.as_str());
            string_of(&v)
        },
        None => crate::text::copy_str(path),
    }
}

/// Directories the repository scan does not enter: hidden ones, `node_modules` and `target`.
pub open spec fn skipped_dir(name: Seq<char>) -> bool {
    starts_with(name, seq!['.']) || name == "node_modules"@ || name == "target"@
}

/// Whether the repository scan skips a directory with this name.
pub fn is_skipped_dir(name: &str) -> (r: bool)
    ensures
        r == skipped_dir(name@),
{
    let n = chars_of(name);
    let dot: Vec<char> = vec!['.'];
    assert(dot@ =~= seq!['.']);
    has_prefix(&n, &dot) || crate::text::str_eq(name, "node_modules") || crate::text::str_eq(name, "target")
}

/// "pickey"
pub open spec fn pickey_word() -> Seq<char> {
    seq!['p', 'i', 'c', 'k', 'e', 'y']
}

/// Whether an `sshCommand` value runs pickey (it mentions `pickey`).
pub fn runs_pickey(cmd: &str) -> (r: bool)
    ensures
        r == crate::text::contains_seq(cmd@, pickey_word()),
{
    let c = chars_of(cmd);
    let w: Vec<char> = vec!['p', 'i', 'c', 'k', 'e', 'y'];
    assert(w@ =~= pickey_word());
    crate::text::has_infix(&c, &w)
}

/// `s` with `x` inserted before the first element that sorts after it.
pub open spec fn sorted_insert(s: Seq<Seq<char>>, x: Seq<char>) -> Seq<Seq<char>>
    decreases s.len(),
{
    if s.len() == 0 {
        seq![x]
    } else if crate::order::seq_lt(x, s[0]) {
        seq![x] + s
    } else {
        seq![s[0]] + sorted_insert(s.drop_first(), x)
    }
}

/// Key files grouped by the directory they are shown under: groups in order of first
/// appearance, the names in each group in sorted order.
pub open spec fn key_groups(entries: Seq<(Seq<char>, Seq<char>)>) -> Seq<(Seq<char>, Seq<Seq<char>>)>
    decreases entries.len(),
{
    if entries.len() == 0 {
        Seq::empty()
    } else {
        let g = key_groups(entries.drop_last());
        let (d, n) = entries.last();
        if exists|i: int| 0 <= i < g.len() && (#[trigger] g[i]).0 == d {
            let i = choose|i: int| 0 <= i < g.len() && (#[trigger] g[i]).0 == d;
            g.update(i, (d, sorted_insert(g[i].1, n)))
        } else {
            g.push((d, seq![n]))
        }
    }
}

/// The characters of groups of names.
pub open spec fn key_group_views(v: Seq<(String, Vec<String>)>) -> Seq<(Seq<char>, Seq<Seq<char>>)> {
    v.map_values(|e: (String, Vec<String>)| (e.0@, crate::text::views(e.1@)))
}

proof fn lemma_sorted_insert_at(s: Seq<Seq<char>>, x: Seq<char>, p: int)
    requires
        0 <= p <= s.len(),
        forall|i: int| 0 <= i < p ==> !crate::order::seq_lt(x, #[trigger] s[i]),
        p < s.len() ==> crate::order::seq_lt(x, s[p]),
    ensures
        sorted_insert(s, x) == s.subrange(0, p) + seq![x] + s.subrange(p, s.len() as int),
    decreases p,
{
    if s.len() == 0 {
        assert(s.subrange(0, p) + seq![x] + s.subrange(p, s.len() as int) =~= seq![x]);
    } else if p == 0 {
        assert(s.subrange(0, p) + seq![x] + s.subrange(p, s.len() as int) =~= seq![x] + s);
    } else {
        let t = s.drop_first();
        assert forall|i: int| 0 <= i < p - 1 implies !crate::order::seq_lt(x, #[trigger] t[i]) by {
            assert(t[i] == s[i + 1]);
        }
        lemma_sorted_insert_at(t, x, p - 1);
        assert(seq![s[0]] + (t.subrange(0, p - 1) + seq![x] + t.subrange(p - 1, t.len() as int))
            =~= s.subrange(0, p) + seq![x] + s.subrange(p, s.len() as int));
    }
}

/// Whether `x` sorts before the name at position `p`.
fn sorts_before(x: &Vec<char>, names: &Vec<String>, p: usize) -> (r: bool)
    requires
        p < names@.len(),
    ensures
        r == crate::order::seq_lt(x@, names@[p as int]@),
{
    let nc = chars_of(names[p].as_str());
    crate::order::str_lt(x, &nc)
}

/// `names` with `x` inserted in sorted position.
fn insert_sorted(names: &mut Vec<String>, x: String)
    ensures
        crate::text::views(final(names)@) == sorted_insert(crate::text::views(old(names)@), x@),
{
    let ghost v = crate::text::views(names@);
    let xc = chars_of(x.as_str());
    let mut p: usize = 0;
    while p < names.len() && !sorts_before(&xc, names, p)
        invariant
            v == crate::text::views(names@),
            p <= names@.len(),
            forall|i: int| 0 <= i < p ==> !crate::order::seq_lt(xc@, #[trigger] v[i]),
        decreases names@.len() - p,
    {
        assert(v[p as int] == names@[p as int]@);
        p = p + 1;
    }
    proof {
        if p < names@.len() {
            assert(v[p as int] == names@[p as int]@);
        }
        lemma_sorted_insert_at(v, x@, p as int);
    }
    names.insert(p, x);
    assert(crate::text::views(names@) =~= v.subrange(0, p as int) + seq![xc@] + v.subrange(p as int, v.len() as int));
}

/// Key files `(directory shown, file name)` grouped by directory, in order of first
/// appearance, each group's names sorted (as `pickey init --dry-run` lists them).
pub fn group_key_names(entries: &[(String, String)]) -> (r: Vec<(String, Vec<String>)>)
    ensures
        key_group_views(r@) == key_groups(crate::suggest::pair_views(entries@)),
{
    let ghost ev = crate::suggest::pair_views(entries@);
    let mut groups: Vec<(String, Vec<String>)> = Vec::new();
    let mut i: usize = 0;
    while i < entries.len()
        invariant
            ev == crate::suggest::pair_views(entries@),
            i <= entries@.len(),
            key_group_views(groups@) == key_groups(ev.take(i as int)),
            forall|a: int, b: int| 0 <= a < b < groups@.len() ==> (#[trigger] groups@[a]).0@ != (#[trigger] groups@[b]).0@,
        decreases entries@.len() - i,
    {
        let ghost g = key_group_views(groups@);
        assert(ev.take(i + 1).drop_last() =~= ev.take(i as int));
        assert(ev.take(i + 1).last() == ev[i as int]);
        assert(ev[i as int] == (entries@[i as int].0@, entries@[i as int].1@));
        let d = &entries[i].0;
        let mut k: usize = 0;
        while k < groups.len() && !crate::text::str_eq(groups[k].0.as_str(), d.as_str())
            invariant
                k <= groups@.len(),
                g == key_group_views(groups@),
                forall|j: int| 0 <= j < k ==> (#[trigger] g[j]).0 != d@,
            decreases groups@.len() - k,
        {
            assert(g[k as int].0 == groups@[k as int].0@);
            k = k + 1;
        }
        if k < groups.len() {
            assert(g[k as int].0 == d@);
            proof {
                let c = choose|j: int| 0 <= j < g.len() && (#[trigger] g[j]).0 == d@;
                assert(g[c].0 == groups@[c].0@);
                assert(c == k);
            }
            let ghost before = groups@;
            let mut entry = groups.remove(k);
            insert_sorted(&mut entry.1, entries[i].1.clone());
            groups.insert(k, entry);
            assert forall|j: int| 0 <= j < groups@.len() implies (#[trigger] groups@[j]).0 == before[j].0 by {
                if j != k as int {
                    assert(groups@[j] == before[j]);
                }
            }
            assert(key_group_views(groups@) =~= g.update(k as int, (d@, sorted_insert(g[k as int].1, entries@[i as int].1@))));
        } else {
            assert(!(exists|j: int| 0 <= j < g.len() && (#[trigger] g[j]).0 == d@));
            let mut names: Vec<String> = Vec::new();
            names.push(entries[i].1.clone());
            let ghost before = groups@;
            groups.push((d.clone(), names));
            assert forall|j: int| 0 <= j < before.len() implies (#[trigger] groups@[j]).0@ != d@ by {
                assert(groups@[j] == before[j]);
                assert(g[j].0 == before[j].0@);
            }
            assert(crate::text::views(names@) =~= seq![entries@[i as int].1@]);
            assert(key_group_views(groups@) =~= g.push((d@, seq![entries@[i as int].1@])));
        }
        i = i + 1;
    }
    assert(ev.take(entries@.len() as int) =~= ev);
    groups
}

} // verus!
