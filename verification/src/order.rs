//! The order in which `String`s compare (`Ord for str`): lexicographic over characters,
//! which for UTF-8 text is the same as lexicographic over bytes.
use vstd::prelude::*;

verus! {

/// `a[i..]` sorts before `b[i..]`, given equal first `i` characters.
pub open spec fn lt_from(a: Seq<char>, b: Seq<char>, i: int) -> bool
    decreases a.len() - i,
{
    if i < 0 || i > a.len() || i > b.len() {
        false
    } else if i == a.len() {
        i < b.len()
    } else if i == b.len() {
        false
    } else if a[i] < b[i] {
        true
    } else if a[i] == b[i] {
        lt_from(a, b, i + 1)
    } else {
        false
    }
}

/// `a` sorts strictly before `b`.
pub open spec fn seq_lt(a: Seq<char>, b: Seq<char>) -> bool {
    lt_from(a, b, 0)
}

/// Pairs of strings sort by their first component, then by their second.
pub open spec fn pair_lt(a: (Seq<char>, Seq<char>), b: (Seq<char>, Seq<char>)) -> bool {
    seq_lt(a.0, b.0) || (a.0 == b.0 && seq_lt(a.1, b.1))
}

proof fn lemma_lt_from_trichotomy(a: Seq<char>, b: Seq<char>, i: int)
    requires
        0 <= i <= a.len(),
        i <= b.len(),
        a.subrange(0, i) == b.subrange(0, i),
    ensures
        lt_from(a, b, i) || a == b || lt_from(b, a, i),
        !(lt_from(a, b, i) && lt_from(b, a, i)),
        a == b ==> !lt_from(a, b, i),
    decreases a.len() - i,
{
    if i == a.len() || i == b.len() {
        if i == a.len() && i == b.len() {
            assert(a =~= a.subrange(0, i));
            assert(b =~= b.subrange(0, i));
        }
    } else if a[i] == b[i] {
        assert(a.subrange(0, i + 1) =~= a.subrange(0, i).push(a[i]));
        assert(b.subrange(0, i + 1) =~= b.subrange(0, i).push(b[i]));
        lemma_lt_from_trichotomy(a, b, i + 1);
    } else {
        assert(a != b) by {
            if a == b {
                assert(a[i] == b[i]);
            }
        }
    }
}

/// Exactly one of `a < b`, `a == b`, `b < a` holds.
pub proof fn lemma_seq_lt_trichotomy(a: Seq<char>, b: Seq<char>)
    ensures
        seq_lt(a, b) || a == b || seq_lt(b, a),
        !(seq_lt(a, b) && seq_lt(b, a)),
        !seq_lt(a, a),
{
    assert(a.subrange(0, 0) =~= b.subrange(0, 0));
    lemma_lt_from_trichotomy(a, b, 0);
    assert(a.subrange(0, 0) =~= a.subrange(0, 0));
    lemma_lt_from_trichotomy(a, a, 0);
}

/// Exactly one of `a < b`, `a == b`, `b < a` holds for pairs.
pub proof fn lemma_pair_lt_trichotomy(a: (Seq<char>, Seq<char>), b: (Seq<char>, Seq<char>))
    ensures
        pair_lt(a, b) || a == b || pair_lt(b, a),
        !(pair_lt(a, b) && pair_lt(b, a)),
        !pair_lt(a, a),
{
    lemma_seq_lt_trichotomy(a.0, b.0);
    lemma_seq_lt_trichotomy(a.1, b.1);
}

proof fn lemma_lt_from_transitive(a: Seq<char>, b: Seq<char>, c: Seq<char>, i: int)
    requires
        0 <= i,
        lt_from(a, b, i),
        lt_from(b, c, i),
    ensures
        lt_from(a, c, i),
    decreases a.len() - i,
{
    if i < a.len() && i < b.len() && i < c.len() && a[i] == b[i] && b[i] == c[i] {
        lemma_lt_from_transitive(a, b, c, i + 1);
    }
}

/// `<` on strings is transitive.
pub proof fn lemma_seq_lt_transitive(a: Seq<char>, b: Seq<char>, c: Seq<char>)
    requires
        seq_lt(a, b),
        seq_lt(b, c),
    ensures
        seq_lt(a, c),
{
    lemma_lt_from_transitive(a, b, c, 0);
}

/// `<` on pairs of strings is transitive.
pub proof fn lemma_pair_lt_transitive(
    a: (Seq<char>, Seq<char>),
    b: (Seq<char>, Seq<char>),
    c: (Seq<char>, Seq<char>),
)
    requires
        pair_lt(a, b),
        pair_lt(b, c),
    ensures
        pair_lt(a, c),
{
    if seq_lt(a.0, b.0) && seq_lt(b.0, c.0) {
        lemma_seq_lt_transitive(a.0, b.0, c.0);
    } else if seq_lt(a.1, b.1) && seq_lt(b.1, c.1) && a.0 == b.0 && b.0 == c.0 {
        lemma_seq_lt_transitive(a.1, b.1, c.1);
    }
}

/// Whether `a` sorts strictly before `b`.
pub fn str_lt(a: &Vec<char>, b: &Vec<char>) -> (r: bool)
    ensures
        r == seq_lt(a@, b@),
{
    let mut i: usize = 0;
    loop
        invariant
            i <= a@.len(),
            i <= b@.len(),
            seq_lt(a@, b@) == lt_from(a@, b@, i as int),
        decreases a@.len() - i,
    {
        if i == a.len() {
            return i < b.len();
        }
        if i == b.len() {
            return false;
        }
        if a[i] < b[i] {
            return true;
        }
        if a[i] != b[i] {
            return false;
        }
        i = i + 1;
    }
}

} // verus!
