//! Character-sequence primitives shared by the parsers of this crate.
//!
//! Every operation works on the `Seq<char>` view of a string, so that the
//! contracts of the parsers can be written in terms of these definitions.
use vstd::prelude::*;

verus! {

/// `s` begins with `p`.
pub open spec fn starts_with(s: Seq<char>, p: Seq<char>) -> bool {
    p.len() <= s.len() && s.subrange(0, p.len() as int) == p
}

/// `s` ends with `p`.
pub open spec fn ends_with(s: Seq<char>, p: Seq<char>) -> bool {
    p.len() <= s.len() && s.subrange(s.len() - p.len(), s.len() as int) == p
}

/// `s` without the leading `p`, when `s` starts with `p`.
pub open spec fn strip_prefix(s: Seq<char>, p: Seq<char>) -> Option<Seq<char>> {
    if starts_with(s, p) {
        Some(s.subrange(p.len() as int, s.len() as int))
    } else {
        None
    }
}

/// `s` without the trailing `p`, when `s` ends with `p`.
pub open spec fn strip_suffix(s: Seq<char>, p: Seq<char>) -> Option<Seq<char>> {
    if ends_with(s, p) {
        Some(s.subrange(0, s.len() - p.len()))
    } else {
        None
    }
}

/// `s` with one leading `p` removed if present, else `s` itself.
pub open spec fn without_prefix(s: Seq<char>, p: Seq<char>) -> Seq<char> {
    match strip_prefix(s, p) {
        Some(r) => r,
        None => s,
    }
}

/// `s` with one trailing `p` removed if present, else `s` itself.
pub open spec fn without_suffix(s: Seq<char>, p: Seq<char>) -> Seq<char> {
    match strip_suffix(s, p) {
        Some(r) => r,
        None => s,
    }
}

/// Index of the first `c` at or after `i`.
pub open spec fn find_from(s: Seq<char>, c: char, i: int) -> Option<int>
    decreases s.len() - i,
{
    if i < 0 || i >= s.len() {
        None
    } else if s[i] == c {
        Some(i)
    } else {
        find_from(s, c, i + 1)
    }
}

/// Index of the first `c` in `s`.
pub open spec fn find(s: Seq<char>, c: char) -> Option<int> {
    find_from(s, c, 0)
}

/// Index of the last `c` strictly before position `i`.
pub open spec fn rfind_before(s: Seq<char>, c: char, i: int) -> Option<int>
    decreases i,
{
    if i <= 0 || i > s.len() {
        None
    } else if s[i - 1] == c {
        Some(i - 1)
    } else {
        rfind_before(s, c, i - 1)
    }
}

/// Index of the last `c` in `s`.
pub open spec fn rfind(s: Seq<char>, c: char) -> Option<int> {
    rfind_before(s, c, s.len() as int)
}

/// `p` occurs in `s` as a contiguous run.
pub open spec fn contains_seq(s: Seq<char>, p: Seq<char>) -> bool {
    exists|k: int| 0 <= k && k + p.len() <= s.len() && #[trigger] s.subrange(k, k + p.len()) == p
}

/// The White_Space property of Unicode, as `char::is_whitespace` decides it.
pub open spec fn is_ws(c: char) -> bool {
    ||| ('\u{9}' <= c && c <= '\u{d}')
    ||| c == ' '
    ||| c == '\u{85}'
    ||| c == '\u{a0}'
    ||| c == '\u{1680}'
    ||| ('\u{2000}' <= c && c <= '\u{200a}')
    ||| c == '\u{2028}'
    ||| c == '\u{2029}'
    ||| c == '\u{202f}'
    ||| c == '\u{205f}'
    ||| c == '\u{3000}'
}

/// Index of the first character at or after `i` that does not satisfy `p` (or the length).
pub open spec fn skip_while(s: Seq<char>, p: spec_fn(char) -> bool, i: int) -> int
    decreases s.len() - i,
{
    if 0 <= i < s.len() && p(s[i]) {
        skip_while(s, p, i + 1)
    } else {
        i
    }
}

/// Length left of `s.take(n)` once the trailing characters satisfying `p` are dropped.
pub open spec fn back_while(s: Seq<char>, p: spec_fn(char) -> bool, n: int) -> int
    decreases n,
{
    if 0 < n <= s.len() && p(s[n - 1]) {
        back_while(s, p, n - 1)
    } else {
        n
    }
}

/// `s` without its leading and trailing characters that satisfy `p`.
pub open spec fn trim_with(s: Seq<char>, p: spec_fn(char) -> bool) -> Seq<char> {
    let t = s.subrange(skip_while(s, p, 0), s.len() as int);
    t.subrange(0, back_while(t, p, t.len() as int))
}

/// The predicate "is whitespace".
pub open spec fn ws_pred() -> spec_fn(char) -> bool {
    |c: char| is_ws(c)
}

/// The predicate "equals `c`".
pub open spec fn eq_pred(c: char) -> spec_fn(char) -> bool {
    |x: char| x == c
}

/// `s` without leading whitespace.
pub open spec fn trim_start(s: Seq<char>) -> Seq<char> {
    s.subrange(skip_while(s, ws_pred(), 0), s.len() as int)
}

/// `s` without leading and trailing whitespace (`str::trim`).
pub open spec fn trim(s: Seq<char>) -> Seq<char> {
    trim_with(s, ws_pred())
}

/// `s` with every leading and trailing `c` removed (`str::trim_matches` with a `char`).
pub open spec fn trim_char(s: Seq<char>, c: char) -> Seq<char> {
    trim_with(s, eq_pred(c))
}

/// `s` with trailing copies of the nonempty run `p` removed, as many as there are.
pub open spec fn trim_end_seq(s: Seq<char>, p: Seq<char>) -> Seq<char>
    decreases s.len(),
{
    if p.len() > 0 && ends_with(s, p) {
        trim_end_seq(s.subrange(0, s.len() - p.len()), p)
    } else {
        s
    }
}

/// The strings of `parts` with `sep` between consecutive ones.
pub open spec fn join(parts: Seq<Seq<char>>, sep: Seq<char>) -> Seq<char>
    decreases parts.len(),
{
    if parts.len() == 0 {
        Seq::empty()
    } else if parts.len() == 1 {
        parts[0]
    } else {
        join(parts.drop_last(), sep) + sep + parts.last()
    }
}

/// The views of a sequence of strings.
pub open spec fn views(v: Seq<String>) -> Seq<Seq<char>> {
    v.map_values(|s: String| s@)
}

/// `String::push`, which std documents as appending `c` to the end of `s`; the contract
/// claims exactly that of the characters of `s`.
#[verifier::external_body]
pub(crate) fn push_char(s: &mut String, c: char)
    ensures
        final(s)@ == old(s)@.push(c),
{
    s.push(c);
}

/// The characters of `s`, in order.
pub fn chars_of(s: &str) -> (v: Vec<char>)
    ensures
        v@ == s@,
{
    let n = s.unicode_len();
    let mut v: Vec<char> = Vec::new();
    let mut i: usize = 0;
    while i < n
        invariant
            n == s@.len(),
            i <= n,
            v@ == s@.subrange(0, i as int),
        decreases n - i,
    {
        v.push(s.get_char(i));
        i = i + 1;
    }
    v
}

/// The string made of the characters `v[from..to]`.
pub fn string_of_range(v: &Vec<char>, from: usize, to: usize) -> (s: String)
    requires
        from <= to <= v@.len(),
    ensures
        s@ == v@.subrange(from as int, to as int),
{
    let mut s = String::new();
    let mut i: usize = from;
    while i < to
        invariant
            from <= i <= to <= v@.len(),
            s@ == v@.subrange(from as int, i as int),
        decreases to - i,
    {
        push_char(&mut s, v[i]);
        i = i + 1;
    }
    s
}

/// The string made of all the characters of `v`.
pub fn string_of(v: &Vec<char>) -> (s: String)
    ensures
        s@ == v@,
{
    string_of_range(v, 0, v.len())
}

/// A copy of `s`.
pub fn copy_str(s: &str) -> (r: String)
    ensures
        r@ == s@,
{
    let v = chars_of(s);
    string_of(&v)
}

/// Whether the runs `a` and `b` are equal.
pub fn seq_eq(a: &Vec<char>, b: &Vec<char>) -> (r: bool)
    ensures
        r == (a@ == b@),
{
    if a.len() != b.len() {
        return false;
    }
    let mut i: usize = 0;
    while i < a.len()
        invariant
            a@.len() == b@.len(),
            i <= a@.len(),
            forall|j: int| 0 <= j < i ==> a@[j] == b@[j],
        decreases a@.len() - i,
    {
        if a[i] != b[i] {
            return false;
        }
        i = i + 1;
    }
    assert(a@ =~= b@);
    true
}

/// Whether the strings `a` and `b` hold the same characters.
pub fn str_eq(a: &str, b: &str) -> (r: bool)
    ensures
        r == (a@ == b@),
{
    let va = chars_of(a);
    let vb = chars_of(b);
    seq_eq(&va, &vb)
}

/// Whether `s[at..]` begins with `p`.
pub fn matches_at(s: &Vec<char>, at: usize, p: &Vec<char>) -> (r: bool)
    requires
        at <= s@.len(),
    ensures
        r == starts_with(s@.subrange(at as int, s@.len() as int), p@),
{
    let ghost t = s@.subrange(at as int, s@.len() as int);
    if p.len() > s.len() - at {
        return false;
    }
    let mut i: usize = 0;
    while i < p.len()
        invariant
            at + p@.len() <= s@.len(),
            t == s@.subrange(at as int, s@.len() as int),
            i <= p@.len(),
            forall|j: int| 0 <= j < i ==> s@[at + j] == p@[j],
        decreases p@.len() - i,
    {
        assert(at + i < s.len());
        if s[at + i] != p[i] {
            assert(t.subrange(0, p@.len() as int)[i as int] != p@[i as int]);
            return false;
        }
        i = i + 1;
    }
    assert(t.subrange(0, p@.len() as int) =~= p@);
    true
}

/// Whether `s` begins with `p`.
pub fn has_prefix(s: &Vec<char>, p: &Vec<char>) -> (r: bool)
    ensures
        r == starts_with(s@, p@),
{
    let r = matches_at(s, 0, p);
    assert(s@.subrange(0, s@.len() as int) =~= s@);
    r
}

/// Whether `s` ends with `p`.
pub fn has_suffix(s: &Vec<char>, p: &Vec<char>) -> (r: bool)
    ensures
        r == ends_with(s@, p@),
{
    if p.len() > s.len() {
        return false;
    }
    let at = s.len() - p.len();
    let r = matches_at(s, at, p);
    assert(s@.subrange(at as int, s@.len() as int).subrange(0, p@.len() as int)
        =~= s@.subrange(s@.len() - p@.len(), s@.len() as int));
    r
}

/// Whether `p` occurs somewhere in `s`.
pub fn has_infix(s: &Vec<char>, p: &Vec<char>) -> (r: bool)
    ensures
        r == contains_seq(s@, p@),
{
    if p.len() > s.len() {
        return false;
    }
    let last = s.len() - p.len();
    let mut k: usize = 0;
    while k <= last
        invariant
            last + p@.len() == s@.len(),
            k <= last + 1,
            forall|j: int| 0 <= j < k ==> #[trigger] s@.subrange(j, j + p@.len()) != p@,
        decreases last + 1 - k,
    {
        let m = matches_at(s, k, p);
        assert(s@.subrange(k as int, s@.len() as int).subrange(0, p@.len() as int)
            =~= s@.subrange(k as int, k + p@.len()));
        if m {
            return true;
        }
        if k == last {
            return false;
        }
        k = k + 1;
    }
    false
}

/// The first index of `c` in `s`.
pub fn find_char(s: &Vec<char>, c: char) -> (r: Option<usize>)
    ensures
        r matches Some(i) ==> find(s@, c) == Some(i as int) && i < s.len() && s@[i as int] == c,
        r is None ==> find(s@, c) is None,
{
    let mut i: usize = 0;
    while i < s.len()
        invariant
            i <= s@.len(),
            find(s@, c) == find_from(s@, c, i as int),
        decreases s@.len() - i,
    {
        if s[i] == c {
            return Some(i);
        }
        i = i + 1;
    }
    None
}

/// The last index of `c` among the first `end` characters of `s`.
pub fn rfind_char_before(s: &Vec<char>, c: char, end: usize) -> (r: Option<usize>)
    requires
        end <= s@.len(),
    ensures
        r matches Some(i) ==> rfind_before(s@, c, end as int) == Some(i as int) && i < end
            && s@[i as int] == c,
        r is None ==> rfind_before(s@, c, end as int) is None,
{
    let mut i: usize = end;
    while i > 0
        invariant
            i <= end <= s@.len(),
            rfind_before(s@, c, end as int) == rfind_before(s@, c, i as int),
        decreases i,
    {
        if s[i - 1] == c {
            return Some(i - 1);
        }
        i = i - 1;
    }
    None
}

/// Whether `c` is whitespace (`char::is_whitespace`).
pub fn is_whitespace(c: char) -> (r: bool)
    ensures
        r == is_ws(c),
{
    ('\u{9}' <= c && c <= '\u{d}') || c == ' ' || c == '\u{85}' || c == '\u{a0}' || c == '\u{1680}'
        || ('\u{2000}' <= c && c <= '\u{200a}') || c == '\u{2028}' || c == '\u{2029}' || c
        == '\u{202f}' || c == '\u{205f}' || c == '\u{3000}'
}

/// The bounds `(start, end)` such that `s[start..end]` is `s` trimmed of whitespace.
pub fn trim_bounds(s: &Vec<char>) -> (r: (usize, usize))
    ensures
        r.0 <= r.1 <= s@.len(),
        s@.subrange(r.0 as int, r.1 as int) == trim(s@),
        r.0 as int == skip_while(s@, ws_pred(), 0),
{
    let ghost p = ws_pred();
    let mut a: usize = 0;
    while a < s.len() && is_whitespace(s[a])
        invariant
            a <= s@.len(),
            p == ws_pred(),
            skip_while(s@, p, 0) == skip_while(s@, p, a as int),
        decreases s@.len() - a,
    {
        a = a + 1;
    }
    let ghost t = s@.subrange(a as int, s@.len() as int);
    let mut b: usize = s.len();
    while b > a && is_whitespace(s[b - 1])
        invariant
            a <= b <= s@.len(),
            p == ws_pred(),
            t == s@.subrange(a as int, s@.len() as int),
            back_while(t, p, t.len() as int) == back_while(t, p, b - a),
        decreases b,
    {
        assert(t[b - a - 1] == s@[b - 1]);
        b = b - 1;
    }
    assert(t.subrange(0, b - a) =~= s@.subrange(a as int, b as int));
    (a, b)
}

/// The bounds `(start, end)` such that `s[start..end]` is `s` trimmed of `c` on both ends.
pub fn trim_char_bounds(s: &Vec<char>, c: char) -> (r: (usize, usize))
    ensures
        r.0 <= r.1 <= s@.len(),
        s@.subrange(r.0 as int, r.1 as int) == trim_char(s@, c),
{
    let ghost p = eq_pred(c);
    let mut a: usize = 0;
    while a < s.len() && s[a] == c
        invariant
            a <= s@.len(),
            p == eq_pred(c),
            skip_while(s@, p, 0) == skip_while(s@, p, a as int),
        decreases s@.len() - a,
    {
        a = a + 1;
    }
    let ghost t = s@.subrange(a as int, s@.len() as int);
    let mut b: usize = s.len();
    while b > a && s[b - 1] == c
        invariant
            a <= b <= s@.len(),
            p == eq_pred(c),
            t == s@.subrange(a as int, s@.len() as int),
            back_while(t, p, t.len() as int) == back_while(t, p, b - a),
        decreases b,
    {
        assert(t[b - a - 1] == s@[b - 1]);
        b = b - 1;
    }
    assert(t.subrange(0, b - a) =~= s@.subrange(a as int, b as int));
    (a, b)
}

/// `s` trimmed of `c` on both ends.
pub fn trim_char_vec(s: &Vec<char>, c: char) -> (r: Vec<char>)
    ensures
        r@ == trim_char(s@, c),
{
    let (a, b) = trim_char_bounds(s, c);
    slice_of(s, a, b)
}

/// The characters `s[from..to]`.
pub fn slice_of(s: &Vec<char>, from: usize, to: usize) -> (r: Vec<char>)
    requires
        from <= to <= s@.len(),
    ensures
        r@ == s@.subrange(from as int, to as int),
{
    let mut r: Vec<char> = Vec::new();
    let mut i: usize = from;
    while i < to
        invariant
            from <= i <= to <= s@.len(),
            r@ == s@.subrange(from as int, i as int),
        decreases to - i,
    {
        r.push(s[i]);
        i = i + 1;
    }
    r
}

/// The predicate "is not whitespace".
pub open spec fn non_ws_pred() -> spec_fn(char) -> bool {
    |c: char| !is_ws(c)
}

/// `s` with every trailing `c` removed (`str::trim_end_matches` with a `char`).
pub open spec fn trim_end_char(s: Seq<char>, c: char) -> Seq<char> {
    s.subrange(0, back_while(s, eq_pred(c), s.len() as int))
}

/// The views of a sequence of character vectors.
pub open spec fn vviews(v: Seq<Vec<char>>) -> Seq<Seq<char>> {
    v.map_values(|x: Vec<char>| x@)
}

/// The lines of `s[start..]` as `str::lines` yields them: split at each `\n`, with a `\r`
/// just before the `\n` dropped; a final line ending yields no empty line.
pub open spec fn lines_from(s: Seq<char>, start: int) -> Seq<Seq<char>>
    decreases s.len() - start,
{
    if start < 0 || start >= s.len() {
        Seq::empty()
    } else {
        match find_from(s, '\n', start) {
            Some(p) => if p < start || p >= s.len() {
                Seq::empty()
            } else {
                seq![without_suffix(s.subrange(start, p), seq!['\r'])] + lines_from(s, p + 1)
            },
            None => seq![s.subrange(start, s.len() as int)],
        }
    }
}

/// The lines of `s` (`str::lines`).
pub open spec fn lines(s: Seq<char>) -> Seq<Seq<char>> {
    lines_from(s, 0)
}

/// The whitespace-separated words of `s[i..]` (`str::split_whitespace`).
pub open spec fn words_from(s: Seq<char>, i: int) -> Seq<Seq<char>>
    decreases s.len() - i,
{
    let a = skip_while(s, ws_pred(), i);
    if i < 0 || a >= s.len() || a < i {
        Seq::empty()
    } else {
        let b = skip_while(s, non_ws_pred(), a);
        if b <= a || b > s.len() {
            Seq::empty()
        } else {
            seq![s.subrange(a, b)] + words_from(s, b)
        }
    }
}

/// The whitespace-separated words of `s` (`str::split_whitespace`).
pub open spec fn words(s: Seq<char>) -> Seq<Seq<char>> {
    words_from(s, 0)
}

/// `find_from` never goes back.
pub proof fn lemma_find_from_bounds(s: Seq<char>, c: char, i: int)
    ensures
        find_from(s, c, i) matches Some(p) ==> 0 <= i <= p < s.len() && s[p] == c,
    decreases s.len() - i,
{
    if 0 <= i < s.len() && s[i] != c {
        lemma_find_from_bounds(s, c, i + 1);
    }
}

/// `skip_while` stays within `[i, len]` when it starts inside.
pub proof fn lemma_skip_while_bounds(s: Seq<char>, p: spec_fn(char) -> bool, i: int)
    requires
        0 <= i <= s.len(),
    ensures
        i <= skip_while(s, p, i) <= s.len(),
    decreases s.len() - i,
{
    if i < s.len() && p(s[i]) {
        lemma_skip_while_bounds(s, p, i + 1);
    }
}

/// Every character that `skip_while` passes over satisfies the predicate, and the one it
/// stops at, if any, does not.
pub proof fn lemma_skip_while_passes(s: Seq<char>, p: spec_fn(char) -> bool, i: int)
    requires
        0 <= i <= s.len(),
    ensures
        forall|k: int| i <= k < skip_while(s, p, i) ==> #[trigger] p(s[k]),
        skip_while(s, p, i) < s.len() ==> !p(s[skip_while(s, p, i)]),
    decreases s.len() - i,
{
    if i < s.len() && p(s[i]) {
        lemma_skip_while_passes(s, p, i + 1);
    }
}

/// `skip_while` on `s` with one more character: it stops where it stopped on `s`, unless it
/// ran to the end of `s`, in which case it also passes the new character when that satisfies
/// the predicate.
proof fn lemma_skip_while_push(s: Seq<char>, c: char, p: spec_fn(char) -> bool, i: int)
    requires
        0 <= i <= s.len(),
    ensures
        skip_while(s, p, i) < s.len() ==> skip_while(s.push(c), p, i) == skip_while(s, p, i),
        skip_while(s, p, i) == s.len() ==> skip_while(s.push(c), p, i) == if p(c) {
            s.len() + 1int
        } else {
            s.len() as int
        },
    decreases s.len() - i,
{
    let t = s.push(c);
    if i < s.len() {
        assert(t[i] == s[i]);
        if p(s[i]) {
            lemma_skip_while_push(s, c, p, i + 1);
        }
    } else {
        assert(t[i] == c);
        if p(c) {
            assert(skip_while(t, p, i + 1) == i + 1);
        }
    }
}

/// How the words of `s` from `i` change when a character is appended: whitespace changes
/// nothing; otherwise the character extends the last word when `s` ends inside one (after
/// `i`), and starts a new word when it does not.
proof fn lemma_words_from_push(s: Seq<char>, c: char, i: int)
    requires
        0 <= i <= s.len(),
    ensures
        ({
            let w = words_from(s, i);
            let w2 = words_from(s.push(c), i);
            &&& is_ws(c) ==> w2 == w
            &&& !is_ws(c) && i < s.len() && !is_ws(s.last()) ==> w.len() > 0 && w2 == w.drop_last().push(
                w.last().push(c),
            )
            &&& !is_ws(c) && !(i < s.len() && !is_ws(s.last())) ==> w2 == w.push(seq![c])
        }),
    decreases s.len() - i,
{
    let t = s.push(c);
    let a = skip_while(s, ws_pred(), i);
    lemma_skip_while_bounds(s, ws_pred(), i);
    lemma_skip_while_passes(s, ws_pred(), i);
    lemma_skip_while_push(s, c, ws_pred(), i);
    assert(ws_pred()(c) == is_ws(c));
    if a < s.len() {
        let b = skip_while(s, non_ws_pred(), a);
        lemma_skip_while_bounds(s, non_ws_pred(), a);
        lemma_skip_while_passes(s, non_ws_pred(), a);
        lemma_skip_while_push(s, c, non_ws_pred(), a);
        assert(non_ws_pred()(c) == !is_ws(c));
        assert(non_ws_pred()(s[a]) == !is_ws(s[a]));
        assert(b > a);
        assert(t.subrange(a, b) =~= s.subrange(a, b));
        if b < s.len() {
            lemma_words_from_push(s, c, b);
            let wb = words_from(s, b);
            let wb2 = words_from(t, b);
            assert(words_from(s, i) == seq![s.subrange(a, b)] + wb);
            assert(words_from(t, i) == seq![s.subrange(a, b)] + wb2);
            if !is_ws(c) && i < s.len() && !is_ws(s.last()) {
                assert((seq![s.subrange(a, b)] + wb).drop_last() =~= seq![s.subrange(a, b)] + wb.drop_last());
                assert(seq![s.subrange(a, b)] + wb.drop_last().push(wb.last().push(c)) =~= (seq![
                    s.subrange(a, b),
                ] + wb).drop_last().push((seq![s.subrange(a, b)] + wb).last().push(c)));
            } else if !is_ws(c) {
                assert(!is_ws(s.last()) ==> !(b < s.len() && !is_ws(s.last())));
                assert(seq![s.subrange(a, b)] + wb.push(seq![c]) =~= (seq![s.subrange(a, b)] + wb).push(seq![c]));
            }
        } else {
            assert(b == s.len());
            assert(!is_ws(s[s.len() - 1])) by {
                assert(non_ws_pred()(s[s.len() - 1]));
            }
            assert(words_from(s, b) =~= Seq::<Seq<char>>::empty()) by {
                assert(skip_while(s, ws_pred(), b) == b);
            }
            assert(words_from(s, i) == seq![s.subrange(a, b)] + words_from(s, b));
            if is_ws(c) {
                assert(skip_while(t, ws_pred(), b) == t.len()) by {
                    assert(t[b] == c);
                    assert(skip_while(t, ws_pred(), b + 1) == b + 1);
                }
                assert(words_from(t, b) =~= Seq::<Seq<char>>::empty());
                assert(words_from(t, i) == seq![s.subrange(a, b)] + words_from(t, b));
                assert(words_from(t, i) =~= words_from(s, i));
            } else {
                assert(t.subrange(a, b + 1) =~= s.subrange(a, b).push(c));
                assert(words_from(t, b + 1) =~= Seq::<Seq<char>>::empty()) by {
                    assert(skip_while(t, ws_pred(), b + 1) == b + 1);
                }
                assert(words_from(t, i) == seq![t.subrange(a, b + 1)] + words_from(t, b + 1));
                assert(words_from(t, i) =~= words_from(s, i).drop_last().push(words_from(s, i).last().push(c)));
            }
        }
    } else {
        assert(a == s.len());
        assert(words_from(s, i) =~= Seq::<Seq<char>>::empty());
        if i < s.len() {
            assert(is_ws(s[s.len() - 1])) by {
                assert(ws_pred()(s[s.len() - 1]));
            }
        }
        if is_ws(c) {
            assert(words_from(t, i) =~= Seq::<Seq<char>>::empty());
        } else {
            lemma_skip_while_push(s, c, non_ws_pred(), a);
            assert(skip_while(s, non_ws_pred(), a) == a);
            assert(non_ws_pred()(c));
            assert(t.subrange(a, a + 1) =~= seq![c]);
            assert(words_from(t, a + 1) =~= Seq::<Seq<char>>::empty()) by {
                assert(skip_while(t, ws_pred(), a + 1) == a + 1);
            }
            assert(words_from(t, i) == seq![t.subrange(a, a + 1)] + words_from(t, a + 1));
            assert(words_from(t, i) =~= seq![seq![c]]);
            assert(Seq::<Seq<char>>::empty().push(seq![c]) =~= seq![seq![c]]);
        }
    }
}

/// The words of `s` with one more character appended (see `lemma_words_from_push`).
pub proof fn lemma_words_push(s: Seq<char>, c: char)
    ensures
        is_ws(c) ==> words(s.push(c)) == words(s),
        !is_ws(c) && s.len() > 0 && !is_ws(s.last()) ==> words(s).len() > 0 && words(s.push(c)) == words(
            s,
        ).drop_last().push(words(s).last().push(c)),
        !is_ws(c) && !(s.len() > 0 && !is_ws(s.last())) ==> words(s.push(c)) == words(s).push(seq![c]),
{
    lemma_words_from_push(s, c, 0);
}

/// The first index of `c` in `s` at or after `i`.
pub fn find_char_from(s: &Vec<char>, c: char, i: usize) -> (r: Option<usize>)
    requires
        i <= s@.len(),
    ensures
        r matches Some(k) ==> find_from(s@, c, i as int) == Some(k as int) && i <= k < s.len()
            && s@[k as int] == c,
        r is None ==> find_from(s@, c, i as int) is None,
{
    let mut k: usize = i;
    while k < s.len()
        invariant
            i <= k <= s@.len(),
            find_from(s@, c, i as int) == find_from(s@, c, k as int),
        decreases s@.len() - k,
    {
        if s[k] == c {
            return Some(k);
        }
        k = k + 1;
    }
    None
}

/// `s` without a trailing `\r`.
fn without_cr(s: &Vec<char>, from: usize, to: usize) -> (r: Vec<char>)
    requires
        from <= to <= s@.len(),
    ensures
        r@ == without_suffix(s@.subrange(from as int, to as int), seq!['\r']),
{
    let ghost t = s@.subrange(from as int, to as int);
    if to > from && s[to - 1] == '\r' {
        assert(t.subrange(t.len() - 1, t.len() as int) =~= seq!['\r']);
        assert(t.subrange(0, t.len() - 1) =~= s@.subrange(from as int, to - 1));
        slice_of(s, from, to - 1)
    } else {
        assert(!crate::text::ends_with(t, seq!['\r'])) by {
            if t.len() >= 1 {
                assert(t.subrange(t.len() - 1, t.len() as int)[0] == t[t.len() - 1]);
            }
        }
        slice_of(s, from, to)
    }
}

/// The lines of `s` (`str::lines`).
pub fn split_lines(s: &Vec<char>) -> (r: Vec<Vec<char>>)
    ensures
        vviews(r@) == lines(s@),
{
    let mut r: Vec<Vec<char>> = Vec::new();
    let mut start: usize = 0;
    while start < s.len()
        invariant
            start <= s@.len(),
            vviews(r@) + lines_from(s@, start as int) == lines(s@),
        decreases s@.len() - start,
    {
        let ghost before = vviews(r@);
        match find_char_from(s, '\n', start) {
            Some(p) => {
                let line = without_cr(s, start, p);
                r.push(line);
                assert(vviews(r@) =~= before.push(line@));
                assert(lines_from(s@, start as int) == seq![line@] + lines_from(s@, p + 1));
                assert(vviews(r@) + lines_from(s@, p + 1) =~= before + lines_from(s@, start as int));
                start = p + 1;
            },
            None => {
                let line = slice_of(s, start, s.len());
                r.push(line);
                assert(vviews(r@) =~= before.push(line@));
                assert(lines_from(s@, s@.len() as int) =~= Seq::<Seq<char>>::empty());
                assert(vviews(r@) + lines_from(s@, s@.len() as int) =~= before + lines_from(
                    s@,
                    start as int,
                ));
                start = s.len();
            },
        }
    }
    assert(vviews(r@) + lines_from(s@, start as int) =~= vviews(r@));
    r
}

/// The whitespace-separated words of `s` (`str::split_whitespace`).
pub fn split_words(s: &Vec<char>) -> (r: Vec<Vec<char>>)
    ensures
        vviews(r@) == words(s@),
{
    let ghost ws = ws_pred();
    let ghost nws = non_ws_pred();
    let mut r: Vec<Vec<char>> = Vec::new();
    let mut i: usize = 0;
    while i < s.len()
        invariant
            i <= s@.len(),
            ws == ws_pred(),
            nws == non_ws_pred(),
            vviews(r@) + words_from(s@, i as int) == words(s@),
        decreases s@.len() - i,
    {
        let ghost before = vviews(r@);
        let mut a: usize = i;
        while a < s.len() && is_whitespace(s[a])
            invariant
                i <= a <= s@.len(),
                ws == ws_pred(),
                skip_while(s@, ws, i as int) == skip_while(s@, ws, a as int),
            decreases s@.len() - a,
        {
            a = a + 1;
        }
        if a >= s.len() {
            assert(words_from(s@, i as int) =~= Seq::<Seq<char>>::empty());
            assert(vviews(r@) + words_from(s@, i as int) =~= vviews(r@));
            i = s.len();
            assert(words_from(s@, i as int) =~= Seq::<Seq<char>>::empty());
            assert(vviews(r@) + words_from(s@, i as int) =~= vviews(r@));
        } else {
            let mut b: usize = a;
            while b < s.len() && !is_whitespace(s[b])
                invariant
                    a <= b <= s@.len(),
                    nws == non_ws_pred(),
                    skip_while(s@, nws, a as int) == skip_while(s@, nws, b as int),
                decreases s@.len() - b,
            {
                b = b + 1;
            }
            assert(b > a);
            let w = slice_of(s, a, b);
            r.push(w);
            assert(vviews(r@) =~= before.push(w@));
            assert(words_from(s@, i as int) == seq![w@] + words_from(s@, b as int));
            assert(vviews(r@) + words_from(s@, b as int) =~= before + words_from(s@, i as int));
            i = b;
        }
    }
    assert(words_from(s@, i as int) =~= Seq::<Seq<char>>::empty());
    assert(vviews(r@) + words_from(s@, i as int) =~= vviews(r@));
    r
}

/// `s` trimmed of whitespace on both ends.
pub fn trim_vec(s: &Vec<char>) -> (r: Vec<char>)
    ensures
        r@ == trim(s@),
{
    let (a, b) = trim_bounds(s);
    slice_of(s, a, b)
}

/// `s` with every trailing `c` removed.
pub fn trim_end_char_vec(s: &Vec<char>, c: char) -> (r: Vec<char>)
    ensures
        r@ == trim_end_char(s@, c),
{
    let ghost p = eq_pred(c);
    let mut b: usize = s.len();
    while b > 0 && s[b - 1] == c
        invariant
            b <= s@.len(),
            p == eq_pred(c),
            back_while(s@, p, s@.len() as int) == back_while(s@, p, b as int),
        decreases b,
    {
        b = b - 1;
    }
    slice_of(s, 0, b)
}

/// `s` with trailing copies of the nonempty run `p` removed (`str::trim_end_matches`).
pub fn trim_end_seq_vec(s: &Vec<char>, p: &Vec<char>) -> (r: Vec<char>)
    ensures
        r@ == trim_end_seq(s@, p@),
{
    let mut cur = slice_of(s, 0, s.len());
    assert(s@.subrange(0, s@.len() as int) =~= s@);
    if p.len() == 0 {
        return cur;
    }
    while has_suffix(&cur, p)
        invariant
            p@.len() > 0,
            trim_end_seq(s@, p@) == trim_end_seq(cur@, p@),
        decreases cur@.len(),
    {
        cur = slice_of(&cur, 0, cur.len() - p.len());
    }
    cur
}

/// Appends the characters of `s` to `v`.
pub fn append_str(v: &mut Vec<char>, s: &str)
    ensures
        final(v)@ == old(v)@ + s@,
{
    let mut t = chars_of(s);
    v.append(&mut t);
}

/// The characters of `parts` with `sep` between consecutive ones.
pub fn join_strings(parts: &Vec<String>, sep: char) -> (r: Vec<char>)
    ensures
        r@ == join(views(parts@), seq![sep]),
{
    let ghost vs = views(parts@);
    let mut r: Vec<char> = Vec::new();
    let mut i: usize = 0;
    while i < parts.len()
        invariant
            vs == views(parts@),
            i <= parts@.len(),
            r@ == join(vs.take(i as int), seq![sep]),
        decreases parts@.len() - i,
    {
        let mut part = chars_of(parts[i].as_str());
        assert(vs[i as int] == parts@[i as int]@);
        if i == 0 {
            r = part;
            assert(vs.take(1)[0] == vs[0]);
        } else {
            let ghost before = r@;
            r.push(sep);
            r.append(&mut part);
            assert(vs.take(i + 1).drop_last() =~= vs.take(i as int));
            assert(vs.take(i + 1).last() == vs[i as int]);
            assert(r@ =~= before + seq![sep] + vs[i as int]);
        }
        i = i + 1;
    }
    assert(vs.take(parts@.len() as int) =~= vs);
    r
}

} // verus!
