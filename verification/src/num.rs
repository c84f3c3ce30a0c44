//! Numeric token grammars: the hop index (a base-10 unsigned integer in
//! [0, 255]) and the round-trip-time field (decimal text such as
//! `12.345`), with verified parsers for both.

use vstd::prelude::*;
use vstd::string::StrSliceExecFns;

verus! {

/// An ASCII decimal digit.
pub open spec fn is_digit(c: char) -> bool {
    0x30 <= (c as u32) && (c as u32) <= 0x39
}

/// Every character of `t` is a decimal digit.
pub open spec fn all_digits(t: Seq<char>) -> bool {
    forall|m: int| 0 <= m < t.len() ==> is_digit(#[trigger] t[m])
}

/// The value of a digit string read in base 10.
pub open spec fn digits_val(t: Seq<char>) -> int
    decreases t.len(),
{
    if t.len() == 0 {
        0
    } else {
        digits_val(t.drop_last()) * 10 + ((t.last() as u32) - 0x30)
    }
}

pub proof fn lemma_digits_val_nonneg(t: Seq<char>)
    requires
        all_digits(t),
    ensures
        digits_val(t) >= 0,
    decreases t.len(),
{
    if t.len() > 0 {
        assert(all_digits(t.drop_last()));
        lemma_digits_val_nonneg(t.drop_last());
    }
}

/// Reading further digits never shrinks the value: the value of a
/// prefix is a lower bound for the value of the whole digit string.
pub proof fn lemma_digits_val_prefix_le(t: Seq<char>, k: int)
    requires
        all_digits(t),
        0 <= k <= t.len(),
    ensures
        digits_val(t.take(k)) <= digits_val(t),
    decreases t.len() - k,
{
    if k == t.len() {
        assert(t.take(k) =~= t);
    } else {
        assert(t.take(k + 1).drop_last() =~= t.take(k));
        assert(all_digits(t.take(k)));
        lemma_digits_val_nonneg(t.take(k));
        assert(digits_val(t.take(k + 1)) == digits_val(t.take(k)) * 10 + ((t[k] as u32) - 0x30));
        lemma_digits_val_prefix_le(t, k + 1);
    }
}

/// A token that can serve as a hop index: all digits, non-empty, and of
/// value at most 255.
pub open spec fn is_hop_token(t: Seq<char>) -> bool {
    t.len() > 0 && all_digits(t) && digits_val(t) <= 255
}

/// Parses a hop index token.  Returns the index exactly when the token
/// is a base-10 unsigned integer no greater than 255, and nothing
/// otherwise.
pub fn parse_hop_id(t: &str) -> (r: Option<u8>)
    ensures
        match r {
            Some(v) => is_hop_token(t@) && v as int == digits_val(t@),
            None => !is_hop_token(t@),
        },
{
    let n = t.unicode_len();
    if n == 0 {
        return None;
    }
    let mut acc: u16 = 0;
    let mut i: usize = 0;
    proof {
        assert(t@.take(0) =~= Seq::<char>::empty());
    }
    while i < n
        invariant
            n == t@.len(),
            i <= n,
            acc <= 255,
            forall|m: int| 0 <= m < i ==> is_digit(#[trigger] t@[m]),
            acc as int == digits_val(t@.take(i as int)),
        decreases n - i,
    {
        let c = t.get_char(i);
        let u = c as u32;
        if u < 0x30 || u > 0x39 {
            assert(!is_digit(t@[i as int]));
            return None;
        }
        let d = (u - 0x30) as u16;
        acc = acc * 10 + d;
        proof {
            assert(t@.take(i + 1).drop_last() =~= t@.take(i as int));
            assert(t@.take(i + 1).last() == t@[i as int]);
        }
        if acc > 255 {
            proof {
                if all_digits(t@) {
                    lemma_digits_val_prefix_le(t@, i + 1);
                }
            }
            return None;
        }
        i = i + 1;
    }
    proof {
        assert(t@.take(n as int) =~= t@);
    }
    Some(acc as u8)
}

/// The round-trip-time grammar: one or more digits, optionally followed
/// by a decimal point and one or more further digits.
pub open spec fn is_rtt_token(t: Seq<char>) -> bool {
    (t.len() > 0 && all_digits(t)) || (exists|d: int|
        0 < d && d + 1 < t.len() && #[trigger] t[d] == '.' && all_digits(t.take(d)) && all_digits(
            t.skip(d + 1),
        ))
}

/// Decides [`is_rtt_token`]: whether a token is usable as a round-trip
/// time, which is what separates a numeric field from an annotation
/// such as `[open]` during probe classification.
pub fn is_rtt(t: &str) -> (b: bool)
    ensures
        b == is_rtt_token(t@),
{
    let n = t.unicode_len();
    if n == 0 {
        proof {
            lemma_not_rtt_when_bad_at(t@, 0);
        }
        return false;
    }
    // `dot == n` means no decimal point has been seen yet.
    let mut dot: usize = n;
    let mut i: usize = 0;
    while i < n
        invariant
            n == t@.len(),
            i <= n,
            dot == n || (dot < i && t@[dot as int] == '.'),
            forall|m: int| 0 <= m < i && m != dot ==> is_digit(#[trigger] t@[m]),
        decreases n - i,
    {
        let c = t.get_char(i);
        let u = c as u32;
        if u == 0x2E {
            if dot < n {
                proof {
                    lemma_not_rtt_two_dots(t@, dot as int, i as int);
                }
                return false;
            }
            dot = i;
        } else if u < 0x30 || u > 0x39 {
            proof {
                assert(t@[i as int] != '.' && !is_digit(t@[i as int]));
                lemma_not_rtt_when_bad_at(t@, i as int);
            }
            return false;
        }
        i = i + 1;
    }
    if dot == n {
        proof {
            assert(all_digits(t@));
        }
        true
    } else if dot > 0 && dot + 1 < n {
        proof {
            let d = dot as int;
            assert forall|m: int| 0 <= m < t@.take(d).len() implies is_digit(
                #[trigger] t@.take(d)[m],
            ) by {
                assert(t@.take(d)[m] == t@[m]);
            }
            assert forall|m: int| 0 <= m < t@.skip(d + 1).len() implies is_digit(
                #[trigger] t@.skip(d + 1)[m],
            ) by {
                assert(t@.skip(d + 1)[m] == t@[d + 1 + m]);
            }
            assert(is_rtt_token(t@));
        }
        true
    } else {
        proof {
            lemma_not_rtt_edge_dot(t@, dot as int);
        }
        false
    }
}

/// A character that is neither a digit nor a decimal point rules the
/// token out, wherever it stands; so does emptiness.
proof fn lemma_not_rtt_when_bad_at(t: Seq<char>, p: int)
    requires
        t.len() == 0 || (0 <= p < t.len() && t[p] != '.' && !is_digit(t[p])),
    ensures
        !is_rtt_token(t),
{
    if t.len() > 0 {
        assert(!all_digits(t));
        assert forall|d: int|
            !(0 < d && d + 1 < t.len() && #[trigger] t[d] == '.' && all_digits(t.take(d))
                && all_digits(t.skip(d + 1))) by {
            if 0 < d && d + 1 < t.len() && t[d] == '.' {
                if p < d {
                    assert(t.take(d)[p] == t[p]);
                } else if p > d {
                    assert(t.skip(d + 1)[p - d - 1] == t[p]);
                }
            }
        }
    }
}

/// Two decimal points rule the token out.
proof fn lemma_not_rtt_two_dots(t: Seq<char>, p1: int, p2: int)
    requires
        0 <= p1 < p2 < t.len(),
        t[p1] == '.',
        t[p2] == '.',
    ensures
        !is_rtt_token(t),
{
    assert(!is_digit(t[p1]));
    assert(!all_digits(t));
    assert forall|d: int|
        !(0 < d && d + 1 < t.len() && #[trigger] t[d] == '.' && all_digits(t.take(d)) && all_digits(
            t.skip(d + 1),
        )) by {
        if 0 < d && d + 1 < t.len() && t[d] == '.' {
            if d < p1 {
                assert(t.skip(d + 1)[p1 - d - 1] == t[p1]);
            } else if d == p1 {
                assert(t.skip(d + 1)[p2 - d - 1] == t[p2]);
            } else {
                assert(t.take(d)[p1] == t[p1]);
            }
        }
    }
}

/// A decimal point at the very start or very end rules the token out
/// when it is the only one.
proof fn lemma_not_rtt_edge_dot(t: Seq<char>, p: int)
    requires
        0 <= p < t.len(),
        t[p] == '.',
        p == 0 || p + 1 == t.len(),
    ensures
        !is_rtt_token(t),
{
    assert(!is_digit(t[p]));
    assert(!all_digits(t));
    assert forall|d: int|
        !(0 < d && d + 1 < t.len() && #[trigger] t[d] == '.' && all_digits(t.take(d)) && all_digits(
            t.skip(d + 1),
        )) by {
        if 0 < d && d + 1 < t.len() && t[d] == '.' {
            if p < d {
                assert(t.take(d)[p] == t[p]);
            } else if p > d {
                assert(t.skip(d + 1)[p - d - 1] == t[p]);
            }
        }
    }
}

} // verus!
