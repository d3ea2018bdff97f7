//! Identity checks around a push: which author emails in `git log` output do not belong
//! to the rule, and which directory a clone lands in.
use vstd::prelude::*;

use crate::text::{chars_of, lines, rfind, slice_of, split_lines, string_of, views, vviews};

verus! {

/// What `str::to_lowercase` gives for `s` (full Unicode lowercase mapping).
pub uninterp spec fn lowercase(s: Seq<char>) -> Seq<char>;

/// `str::to_lowercase`: the Unicode lowercase of `s`, named `lowercase` and taken as a
/// function of `s` alone.
#[verifier::external_body]
fn to_lowercase(s: &str) -> (r: String)
    ensures
        r@ == lowercase(s@),
{
    s.to_lowercase()
}

/// The author emails of `log` lines, in order, that differ from `expected` ignoring case:
/// empty lines are skipped, and an email is listed once however it is capitalised (the
/// first spelling wins).
pub open spec fn mismatched(ls: Seq<Seq<char>>, expected: Seq<char>) -> Seq<Seq<char>>
    decreases ls.len(),
{
    if ls.len() == 0 {
        Seq::empty()
    } else {
        let b = mismatched(ls.drop_last(), expected);
        let e = ls.last();
        if e.len() > 0 && lowercase(e) != lowercase(expected) && !(exists|k: int|
            0 <= k < b.len() && #[trigger] lowercase(b[k]) == lowercase(e)) {
            b.push(e)
        } else {
            b
        }
    }
}

/// The last `/`-separated component of `s` (`s.rsplit('/').next()`).
pub open spec fn last_component(s: Seq<char>) -> Seq<char> {
    match rfind(s, '/') {
        Some(p) => s.subrange(p + 1, s.len() as int),
        None => s,
    }
}

/// The author emails in `git log --format=%ae` output that do not match `expected_email`
/// (ignoring case), each listed once. The lowercase forms already seen are kept in a
/// vector: vstd's `HashSet` contracts hold only for key types with a hash key model, which
/// vstd gives to integers and not to `String`, so a `HashSet<String>` would let nothing be
/// proved of what is seen.
pub fn mismatched_emails(log_output: &str, expected_email: &str) -> (r: Vec<String>)
    ensures
        views(r@) == mismatched(lines(log_output@), expected_email@),
{
    let out = chars_of(log_output);
    let ls = split_lines(&out);
    let ghost lv = vviews(ls@);
    let expected_lower = to_lowercase(expected_email);
    let el = chars_of(expected_lower.as_str());
    let mut kept: Vec<String> = Vec::new();
    let mut seen: Vec<Vec<char>> = Vec::new();
    let mut i: usize = 0;
    while i < ls.len()
        invariant
            lv == vviews(ls@),
            lv == lines(log_output@),
            el@ == lowercase(expected_email@),
            i <= ls@.len(),
            views(kept@) == mismatched(lv.take(i as int), expected_email@),
            seen@.len() == kept@.len(),
            forall|k: int| 0 <= k < seen@.len() ==> (#[trigger] seen@[k])@ == lowercase(kept@[k]@),
        decreases ls@.len() - i,
    {
        assert(lv.take(i + 1).drop_last() =~= lv.take(i as int));
        assert(lv.take(i + 1).last() == ls@[i as int]@);
        let ghost kv = views(kept@);
        let e = string_of(&ls[i]);
        if ls[i].len() > 0 {
            let lower = to_lowercase(e.as_str());
            let lc = chars_of(lower.as_str());
            if !crate::text::seq_eq(&lc, &el) {
                let found = contains_run(&seen, &lc);
                assert(found == exists|m: int| 0 <= m < kv.len() && #[trigger] lowercase(kv[m]) == lc@) by {
                    if found {
                        let m = choose|m: int| 0 <= m < seen@.len() && (#[trigger] seen@[m])@ == lc@;
                        assert(kv[m] == kept@[m]@);
                        assert(lowercase(kv[m]) == lc@);
                    } else {
                        assert forall|m: int| 0 <= m < kv.len() implies #[trigger] lowercase(kv[m]) != lc@ by {
                            assert(kv[m] == kept@[m]@);
                            assert(seen@[m]@ != lc@);
                        }
                    }
                }
                if !found {
                    kept.push(e);
                    seen.push(lc);
                    assert(views(kept@) =~= kv.push(ls@[i as int]@));
                }
            }
        }
        i = i + 1;
    }
    assert(lv.take(ls@.len() as int) =~= lv);
    kept
}

/// Whether one of `v` is the run `x`.
fn contains_run(v: &Vec<Vec<char>>, x: &Vec<char>) -> (r: bool)
    ensures
        r == exists|m: int| 0 <= m < v@.len() && (#[trigger] v@[m])@ == x@,
{
    let mut k: usize = 0;
    while k < v.len()
        invariant
            k <= v@.len(),
            forall|m: int| 0 <= m < k ==> (#[trigger] v@[m])@ != x@,
        decreases v@.len() - k,
    {
        if crate::text::seq_eq(&v[k], x) {
            return true;
        }
        k = k + 1;
    }
    false
}

/// The clone directory git creates for a repository path: its last component
/// (`WorkOrg/repo` gives `repo`). Also the file name of a key path.
pub fn last_path_component(s: &str) -> (r: String)
    ensures
        r@ == last_component(s@),
{
    let v = chars_of(s);
    match crate::text::rfind_char_before(&v, '/', v.len()) {
        Some(p) => {
            let t = slice_of(&v, p + 1, v.len());
            string_of(&t)
        },
        None => string_of(&v),
    }
}

/// Listed emails are distinct ignoring case, none of them is the expected one, and none
/// is empty.
pub proof fn lemma_mismatched_distinct(ls: Seq<Seq<char>>, expected: Seq<char>)
    ensures
        forall|i: int, j: int|
            0 <= i < j < mismatched(ls, expected).len() ==> lowercase(#[trigger] mismatched(ls, expected)[i])
                != lowercase(#[trigger] mismatched(ls, expected)[j]),
        forall|i: int|
            0 <= i < mismatched(ls, expected).len() ==> lowercase(#[trigger] mismatched(ls, expected)[i])
                != lowercase(expected) && mismatched(ls, expected)[i].len() > 0,
    decreases ls.len(),
{
    if ls.len() > 0 {
        lemma_mismatched_distinct(ls.drop_last(), expected);
        let b = mismatched(ls.drop_last(), expected);
        let m = mismatched(ls, expected);
        if m != b {
            assert forall|i: int, j: int| 0 <= i < j < m.len() implies lowercase(#[trigger] m[i]) != lowercase(
                #[trigger] m[j],
            ) by {
                if j == m.len() - 1 {
                    assert(m[i] == b[i]);
                }
            }
        }
    }
}

/// Nothing is missed and nothing is made up: every nonempty log line whose email differs
/// from the expected one ignoring case is listed (in some capitalisation), and every listed
/// email is one of the log lines.
pub proof fn lemma_mismatched_complete(ls: Seq<Seq<char>>, expected: Seq<char>)
    ensures
        forall|k: int|
            0 <= k < ls.len() && (#[trigger] ls[k]).len() > 0 && lowercase(ls[k]) != lowercase(expected)
                ==> exists|j: int| 0 <= j < mismatched(ls, expected).len() && #[trigger] lowercase(
                mismatched(ls, expected)[j],
            ) == lowercase(ls[k]),
        forall|j: int|
            #![trigger mismatched(ls, expected)[j]]
            0 <= j < mismatched(ls, expected).len() ==> exists|k: int|
                #![trigger ls[k]]
                0 <= k < ls.len() && ls[k] == mismatched(ls, expected)[j],
    decreases ls.len(),
{
    if ls.len() > 0 {
        let d = ls.drop_last();
        lemma_mismatched_complete(d, expected);
        let b = mismatched(d, expected);
        let m = mismatched(ls, expected);
        let e = ls.last();
        assert(m == b || m == b.push(e));
        assert forall|j: int| #![trigger m[j]] 0 <= j < m.len() implies exists|k: int| #![trigger ls[k]] 0 <= k < ls.len() && ls[k] == m[j] by {
            if j < b.len() {
                assert(m[j] == b[j]);
                let k = choose|k: int| #![trigger d[k]] 0 <= k < d.len() && d[k] == b[j];
                assert(ls[k] == d[k]);
            } else {
                assert(m[j] == e);
                assert(ls[ls.len() - 1] == e);
            }
        }
        assert forall|k: int|
            0 <= k < ls.len() && (#[trigger] ls[k]).len() > 0 && lowercase(ls[k]) != lowercase(expected)
                implies exists|j: int| 0 <= j < m.len() && #[trigger] lowercase(m[j]) == lowercase(ls[k]) by {
            if k < ls.len() - 1 {
                assert(ls[k] == d[k]);
                let j = choose|j: int| 0 <= j < b.len() && #[trigger] lowercase(b[j]) == lowercase(d[k]);
                assert(m[j] == b[j]);
            } else {
                assert(ls[k] == e);
                if exists|q: int| 0 <= q < b.len() && #[trigger] lowercase(b[q]) == lowercase(e) {
                    let q = choose|q: int| 0 <= q < b.len() && #[trigger] lowercase(b[q]) == lowercase(e);
                    assert(m[q] == b[q]);
                } else {
                    assert(m == b.push(e));
                    assert(m[b.len() as int] == e);
                }
            }
        }
    }
}

/// Where the identity of a rule is written after an ssh operation.
#[derive(PartialEq, Eq, Structural, Clone, Copy, Debug)]
pub enum ConfigTarget {
    /// The clone target `./<last component>`, which is a repository.
    CloneTarget,
    /// The current directory, which is inside a repository.
    WorkingDir,
    /// Neither: nothing is written.
    Nowhere,
}

/// The clone target is checked first, since during a clone the current directory may be an
/// unrelated repository; otherwise the current repository, if there is one.
pub fn choose_target(clone_is_repo: bool, cwd_in_repo: bool) -> (r: ConfigTarget)
    ensures
        r == if clone_is_repo {
            ConfigTarget::CloneTarget
        } else if cwd_in_repo {
            ConfigTarget::WorkingDir
        } else {
            ConfigTarget::Nowhere
        },
{
    if clone_is_repo {
        ConfigTarget::CloneTarget
    } else if cwd_in_repo {
        ConfigTarget::WorkingDir
    } else {
        ConfigTarget::Nowhere
    }
}

/// The email check before a push is bypassed when `PICKEY_ALLOW_EMAIL` is exactly `1`.
pub fn email_check_bypassed(value: Option<&str>) -> (r: bool)
    ensures
        r == (value matches Some(v) && v@ == seq!['1']),
{
    match value {
        Some(v) => {
            let one: Vec<char> = vec!['1'];
            assert(one@ =~= seq!['1']);
            let c = chars_of(v);
            crate::text::seq_eq(&c, &one)
        },
        None => false,
    }
}

/// A push is blocked when the unpushed commits could be checked (the branch has an
/// upstream) and some of them carry another author email.
pub fn push_blocked(mismatched: Option<&[String]>) -> (r: bool)
    ensures
        r == (mismatched matches Some(m) && m@.len() > 0),
{
    match mismatched {
        Some(m) => m.len() > 0,
        None => false,
    }
}

} // verus!
