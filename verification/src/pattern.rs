//! The parenthesized-value pattern: the shape test that tells a `(ip)`
//! token from everything else during probe classification.

use vstd::prelude::*;

verus! {

/// The token holds a `'('` followed, after at least one intervening
/// character none of which is a newline, by a `')'`.
pub open spec fn has_paren_value(t: Seq<char>) -> bool {
    exists|i: int, j: int|
        0 <= i && i + 1 < j && j < t.len() && #[trigger] t[i] == '(' && #[trigger] t[j] == ')'
            && (forall|k: int| i < k < j ==> t[k] != '\n')
}

/// Relies on `regex::Regex::is_match` with the fixed pattern `\(.+\)`:
/// it reports whether some part of the text matches, that is, whether a
/// `'('` is followed by one or more characters (each any character but
/// `'\n'`) and then a `')'`.  The pattern is a valid expression, so
/// compiling it cannot fail.
#[verifier::external_body]
pub(crate) fn paren_value_match(t: &str) -> (b: bool)
    ensures
        b == has_paren_value(t@),
{
    let re = regex::Regex::new("\\(.+\\)").unwrap();
    re.is_match(t)
}

/// A token of the parenthesized-value shape has at least three
/// characters.
pub proof fn lemma_paren_value_len(t: Seq<char>)
    requires
        has_paren_value(t),
    ensures
        t.len() >= 3,
{
    let (i, j) = choose|i: int, j: int|
        0 <= i && i + 1 < j && j < t.len() && #[trigger] t[i] == '(' && #[trigger] t[j] == ')'
            && (forall|k: int| i < k < j ==> t[k] != '\n');
    assert(0 <= i && i + 1 < j && j < t.len());
}

} // verus!
