//! Text utilities: splitting raw output into lines and a line into
//! whitespace-delimited tokens, together with the specification-level
//! descriptions of both operations.

use vstd::prelude::*;
use vstd::string::StrSliceExecFns;
use vstd::string::StringExecFns;

verus! {

/// A whitespace character: the Unicode `White_Space` set, which is what
/// the tokenization of a hop line separates tokens on.
pub open spec fn is_space(c: char) -> bool {
    let u = c as u32;
    u == 0x09 || u == 0x0A || u == 0x0B || u == 0x0C || u == 0x0D || u == 0x20 || u == 0x85
        || u == 0xA0 || u == 0x1680 || (0x2000 <= u && u <= 0x200A) || u == 0x2028 || u == 0x2029
        || u == 0x202F || u == 0x205F || u == 0x3000
}

/// Runtime test for [`is_space`].
pub fn space_char(c: char) -> (b: bool)
    ensures
        b == is_space(c),
{
    let u = c as u32;
    u == 0x09 || u == 0x0A || u == 0x0B || u == 0x0C || u == 0x0D || u == 0x20 || u == 0x85
        || u == 0xA0 || u == 0x1680 || (0x2000 <= u && u <= 0x200A) || u == 0x2028 || u == 0x2029
        || u == 0x202F || u == 0x205F || u == 0x3000
}

/// Length of the maximal run of non-whitespace characters at the front
/// of `t`: the length of the leading token, zero if `t` starts with
/// whitespace or is empty.
pub open spec fn token_len(t: Seq<char>) -> nat
    decreases t.len(),
{
    if t.len() == 0 || is_space(t[0]) {
        0
    } else {
        token_len(t.skip(1)) + 1
    }
}

pub proof fn lemma_token_len_le(t: Seq<char>)
    ensures
        token_len(t) <= t.len(),
    decreases t.len(),
{
    if t.len() > 0 && !is_space(t[0]) {
        lemma_token_len_le(t.skip(1));
    }
}

/// `token_len` is pinned down by a character-wise description: `k`
/// non-whitespace characters followed by the end of the text or a
/// whitespace character.
pub proof fn lemma_token_len_at(t: Seq<char>, k: int)
    requires
        0 <= k <= t.len(),
        forall|m: int| 0 <= m < k ==> !is_space(#[trigger] t[m]),
        k == t.len() || is_space(t[k]),
    ensures
        token_len(t) == k,
    decreases k,
{
    if k > 0 {
        assert(!is_space(t[0]));
        assert forall|m: int| 0 <= m < k - 1 implies !is_space(#[trigger] t.skip(1)[m]) by {
            assert(t.skip(1)[m] == t[m + 1]);
        }
        if k - 1 < t.skip(1).len() {
            assert(t.skip(1)[k - 1] == t[k]);
        }
        lemma_token_len_at(t.skip(1), k - 1);
    }
}

/// The whitespace-delimited tokens of `t`, in order.  Leading, trailing
/// and repeated whitespace contribute no tokens.
pub open spec fn tokens_of(t: Seq<char>) -> Seq<Seq<char>>
    decreases t.len(),
    via tokens_of_decreases
{
    if t.len() == 0 {
        Seq::empty()
    } else if is_space(t[0]) {
        tokens_of(t.skip(1))
    } else {
        seq![t.take(token_len(t) as int)] + tokens_of(t.skip(token_len(t) as int))
    }
}

#[via_fn]
proof fn tokens_of_decreases(t: Seq<char>) {
    if t.len() > 0 && !is_space(t[0]) {
        lemma_token_len_le(t);
        assert(token_len(t) == token_len(t.skip(1)) + 1);
    }
}

/// Length of the first line of `s`: the number of characters before the
/// first `'\n'`, or all of `s` if it has none.
pub open spec fn line_len(s: Seq<char>) -> nat
    decreases s.len(),
{
    if s.len() == 0 || s[0] == '\n' {
        0
    } else {
        line_len(s.skip(1)) + 1
    }
}

pub proof fn lemma_line_len_le(s: Seq<char>)
    ensures
        line_len(s) <= s.len(),
    decreases s.len(),
{
    if s.len() > 0 && s[0] != '\n' {
        lemma_line_len_le(s.skip(1));
    }
}

/// `line_len` is pinned down by a character-wise description, as
/// [`lemma_token_len_at`] pins down `token_len`.
pub proof fn lemma_line_len_at(s: Seq<char>, k: int)
    requires
        0 <= k <= s.len(),
        forall|m: int| 0 <= m < k ==> #[trigger] s[m] != '\n',
        k == s.len() || s[k] == '\n',
    ensures
        line_len(s) == k,
    decreases k,
{
    if k > 0 {
        assert(s[0] != '\n');
        assert forall|m: int| 0 <= m < k - 1 implies #[trigger] s.skip(1)[m] != '\n' by {
            assert(s.skip(1)[m] == s[m + 1]);
        }
        if k - 1 < s.skip(1).len() {
            assert(s.skip(1)[k - 1] == s[k]);
        }
        lemma_line_len_at(s.skip(1), k - 1);
    }
}

/// The pieces of `s` between `'\n'` delimiters, in order, exactly as a
/// split on the delimiter yields them: empty pieces are kept, and the
/// empty text consists of one empty piece.
pub open spec fn lines_of(s: Seq<char>) -> Seq<Seq<char>>
    decreases s.len(),
    via lines_of_decreases
{
    if line_len(s) == s.len() {
        seq![s]
    } else {
        seq![s.take(line_len(s) as int)] + lines_of(s.skip(line_len(s) as int + 1))
    }
}

#[via_fn]
proof fn lines_of_decreases(s: Seq<char>) {
    lemma_line_len_le(s);
}

/// Character-wise equality of two pieces of text.
pub fn str_eq(a: &str, b: &str) -> (r: bool)
    ensures
        r == (a@ == b@),
{
    let n = a.unicode_len();
    if n != b.unicode_len() {
        proof {
            if a@ == b@ {
                assert(a@.len() == b@.len());
            }
        }
        return false;
    }
    let mut i: usize = 0;
    while i < n
        invariant
            n == a@.len() && n == b@.len(),
            i <= n,
            forall|m: int| 0 <= m < i ==> a@[m] == b@[m],
        decreases n - i,
    {
        if a.get_char(i) != b.get_char(i) {
            proof {
                if a@ == b@ {
                    assert(a@[i as int] == b@[i as int]);
                }
            }
            return false;
        }
        i = i + 1;
    }
    proof {
        assert(a@ =~= b@);
    }
    true
}

/// Splits a line into its whitespace-delimited tokens.
pub fn tokenize(s: &str) -> (toks: Vec<String>)
    ensures
        toks.deep_view() == tokens_of(s@),
{
    let n = s.unicode_len();
    let mut toks: Vec<String> = Vec::new();
    let mut i: usize = 0;
    proof {
        assert(s@.skip(0) =~= s@);
        assert(toks.deep_view() + tokens_of(s@) =~= tokens_of(s@));
    }
    while i < n
        invariant
            n == s@.len(),
            i <= n,
            tokens_of(s@) == toks.deep_view() + tokens_of(s@.skip(i as int)),
        decreases n - i,
    {
        let c = s.get_char(i);
        if space_char(c) {
            proof {
                assert(s@.skip(i as int)[0] == s@[i as int]);
                assert(s@.skip(i as int).skip(1) =~= s@.skip(i + 1));
            }
            i = i + 1;
        } else {
            let mut j: usize = i + 1;
            loop
                invariant
                    n == s@.len(),
                    i < j <= n,
                    forall|m: int| i <= m < j ==> !is_space(#[trigger] s@[m]),
                ensures
                    i < j <= n,
                    forall|m: int| i <= m < j ==> !is_space(#[trigger] s@[m]),
                    j == n || is_space(s@[j as int]),
                decreases n - j,
            {
                if j == n {
                    break;
                }
                if space_char(s.get_char(j)) {
                    break;
                }
                j = j + 1;
            }
            let piece = s.substring_char(i, j);
            let ghost rest = s@.skip(i as int);
            proof {
                assert forall|m: int| 0 <= m < j - i implies !is_space(#[trigger] rest[m]) by {
                    assert(rest[m] == s@[i + m]);
                }
                if j < n {
                    assert(rest[j - i] == s@[j as int]);
                }
                lemma_token_len_at(rest, j - i);
                assert(rest.take(j - i) =~= s@.subrange(i as int, j as int));
                assert(rest.skip(j - i) =~= s@.skip(j as int));
            }
            let ghost old_toks = toks.deep_view();
            toks.push(String::from_str(piece));
            proof {
                assert(toks.deep_view() =~= old_toks.push(piece@));
                assert(old_toks.push(piece@) =~= old_toks + seq![piece@]);
                assert(toks.deep_view() + tokens_of(s@.skip(j as int)) =~= old_toks + (seq![
                    piece@,
                ] + tokens_of(s@.skip(j as int))));
            }
            i = j;
        }
    }
    proof {
        assert(s@.skip(n as int) =~= Seq::<char>::empty());
        assert(tokens_of(s@.skip(n as int)) =~= Seq::<Seq<char>>::empty());
        assert(toks.deep_view() + Seq::<Seq<char>>::empty() =~= toks.deep_view());
    }
    toks
}

/// Splits raw output into its lines, delimited by `'\n'`; empty lines
/// are kept, and the empty text yields one empty line.
pub fn split_lines(s: &str) -> (lines: Vec<String>)
    ensures
        lines.deep_view() == lines_of(s@),
{
    let n = s.unicode_len();
    let mut lines: Vec<String> = Vec::new();
    let mut start: usize = 0;
    let mut i: usize = 0;
    proof {
        assert(s@.skip(0) =~= s@);
        assert(lines.deep_view() + lines_of(s@) =~= lines_of(s@));
    }
    while i < n
        invariant
            n == s@.len(),
            start <= i <= n,
            forall|m: int| start <= m < i ==> #[trigger] s@[m] != '\n',
            lines_of(s@) == lines.deep_view() + lines_of(s@.skip(start as int)),
        decreases n - i,
    {
        let c = s.get_char(i);
        if c == '\n' {
            let piece = s.substring_char(start, i);
            let ghost rest = s@.skip(start as int);
            proof {
                assert forall|m: int| 0 <= m < i - start implies #[trigger] rest[m] != '\n' by {
                    assert(rest[m] == s@[start + m]);
                }
                assert(rest[i - start] == s@[i as int]);
                lemma_line_len_at(rest, i - start);
                assert(rest.take(i - start) =~= s@.subrange(start as int, i as int));
                assert(rest.skip(i - start + 1) =~= s@.skip(i + 1));
            }
            let ghost old_lines = lines.deep_view();
            lines.push(String::from_str(piece));
            proof {
                assert(lines.deep_view() =~= old_lines.push(piece@));
                assert(old_lines.push(piece@) =~= old_lines + seq![piece@]);
                assert(lines.deep_view() + lines_of(s@.skip(i + 1)) =~= old_lines + (seq![piece@]
                    + lines_of(s@.skip(i + 1))));
            }
            start = i + 1;
            i = i + 1;
        } else {
            i = i + 1;
        }
    }
    let piece = s.substring_char(start, n);
    let ghost rest = s@.skip(start as int);
    proof {
        assert forall|m: int| 0 <= m < rest.len() implies #[trigger] rest[m] != '\n' by {
            assert(rest[m] == s@[start + m]);
        }
        lemma_line_len_at(rest, rest.len() as int);
        assert(rest.take(rest.len() as int) =~= s@.subrange(start as int, n as int));
        assert(lines_of(rest) =~= seq![s@.subrange(start as int, n as int)]);
    }
    let ghost old_lines = lines.deep_view();
    lines.push(String::from_str(piece));
    proof {
        assert(lines.deep_view() =~= old_lines.push(piece@));
        assert(old_lines.push(piece@) =~= old_lines + seq![piece@]);
    }
    lines
}

} // verus!
