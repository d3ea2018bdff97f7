//! What `ssh-add -l` says about the key ssh would fall back to.
use vstd::prelude::*;

use crate::text::{chars_of, lines, split_lines, split_words, string_of, words};

verus! {

/// The hint for the first line of an `ssh-add -l` listing
/// (`<bits> <fingerprint> <comment> (<type>)`): its third word and its last word, separated
/// by a space. `None` when the listing is empty or its first line has fewer than four words.
pub open spec fn key_hint(listing: Seq<char>) -> Option<Seq<char>> {
    let ls = lines(listing);
    if ls.len() == 0 {
        None
    } else {
        let parts = words(ls[0]);
        if parts.len() >= 4 {
            Some(parts[2] + seq![' '] + parts.last())
        } else {
            None
        }
    }
}

/// A short description of the first key an `ssh-add -l` listing shows, such as
/// `~/.ssh/id_rsa (RSA)`.
pub fn key_hint_from_listing(listing: &str) -> (r: Option<String>)
    ensures
        r is Some <==> key_hint(listing@) is Some,
        r matches Some(h) ==> key_hint(listing@) == Some(h@),
{
    let c = chars_of(listing);
    let ls = split_lines(&c);
    if ls.len() == 0 {
        return None;
    }
    assert(crate::text::vviews(ls@)[0] == ls@[0]@);
    let parts = split_words(&ls[0]);
    if parts.len() >= 4 {
        assert(crate::text::vviews(parts@)[2] == parts@[2]@);
        assert(crate::text::vviews(parts@).last() == parts@[parts@.len() - 1]@);
        let mut out = parts[2].clone();
        out.push(' ');
        let mut last = parts[parts.len() - 1].clone();
        out.append(&mut last);
        Some(string_of(&out))
    } else {
        None
    }
}

} // verus!
