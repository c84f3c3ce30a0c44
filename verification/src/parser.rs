//! The parser proper: the probe-stream state machine over a hop's
//! tokens, the per-line hop parser, and the whole-output parser.

use vstd::prelude::*;
use vstd::string::StrSliceExecFns;
use vstd::string::StringExecFns;

use crate::model::Hop;
use crate::model::HopV;
use crate::model::ParseError;
use crate::model::Probe;
use crate::model::ProbeV;
use crate::num::digits_val;
use crate::num::is_hop_token;
use crate::num::is_rtt;
use crate::num::is_rtt_token;
use crate::num::lemma_digits_val_nonneg;
use crate::num::parse_hop_id;
use crate::pattern::has_paren_value;
use crate::pattern::lemma_paren_value_len;
use crate::pattern::paren_value_match;
use crate::text::lines_of;
use crate::text::split_lines;
use crate::text::str_eq;
use crate::text::tokenize;
use crate::text::tokens_of;

verus! {

/// The timeout marker token.
pub open spec fn star_tok() -> Seq<char> {
    seq!['*']
}

/// The open-port annotation token.
pub open spec fn open_tok() -> Seq<char> {
    seq!['[', 'o', 'p', 'e', 'n', ']']
}

/// The unit marker token.
pub open spec fn ms_tok() -> Seq<char> {
    seq!['m', 's']
}

/// A token with its first and last characters removed: what is left of
/// a parenthesized value once the enclosing delimiters are stripped.
pub open spec fn inner_of(t: Seq<char>) -> Seq<char>
    recommends
        t.len() >= 2,
{
    t.subrange(1, t.len() - 1)
}

/// The probe-stream state machine, one classification step per
/// recursive call.  `toks` is what remains of the hop's token stream
/// and `acc` the probes already emitted for this hop, which the
/// same-host rules read back.  The rules are tried in order:
///
/// 1. a `*` token is a timed-out probe and is skipped;
/// 2. a second token of the parenthesized-value shape names a new host,
///    whose round-trip time is the next numeric token — or, when that
///    token is not numeric (an annotation such as `[open]`), the one
///    after it — followed by one unit token, present but not inspected;
/// 3. a leading `[open]` annotation repeats the previous probe's
///    identity with the second token as its round-trip time, followed
///    by one unit token;
/// 4. a second-token `[open]` annotation is a bare address probe whose
///    round-trip time follows the annotation, then one unit token;
/// 5. a second-token unit marker is a repeated sample for the previous
///    probe's identity, the first token being its round-trip time;
/// 6. otherwise the two tokens are a bare address and its round-trip
///    time, followed by one unit token.
///
/// Any stream these rules do not cover is malformed, as is a same-host
/// rule reached with no previous probe.
pub open spec fn probes_spec(toks: Seq<Seq<char>>, acc: Seq<ProbeV>) -> Result<
    Seq<ProbeV>,
    ParseError,
>
    decreases toks.len(),
{
    if toks.len() == 0 {
        Ok(acc)
    } else if toks[0] == star_tok() {
        probes_spec(toks.skip(1), acc)
    } else if toks.len() < 2 {
        Err(ParseError::MalformedProbeToken)
    } else if has_paren_value(toks[1]) {
        if toks.len() >= 4 && is_rtt_token(toks[2]) {
            probes_spec(
                toks.skip(4),
                acc.push(ProbeV { name: toks[0], ip: inner_of(toks[1]), rtt: toks[2] }),
            )
        } else if toks.len() >= 5 && !is_rtt_token(toks[2]) && is_rtt_token(toks[3]) {
            probes_spec(
                toks.skip(5),
                acc.push(ProbeV { name: toks[0], ip: inner_of(toks[1]), rtt: toks[3] }),
            )
        } else {
            Err(ParseError::MalformedProbeToken)
        }
    } else if toks[0] == open_tok() {
        if acc.len() > 0 && is_rtt_token(toks[1]) && toks.len() >= 3 {
            probes_spec(
                toks.skip(3),
                acc.push(ProbeV { name: acc.last().name, ip: acc.last().ip, rtt: toks[1] }),
            )
        } else {
            Err(ParseError::MalformedProbeToken)
        }
    } else if toks[1] == open_tok() {
        if toks.len() >= 4 && is_rtt_token(toks[2]) {
            probes_spec(toks.skip(4), acc.push(ProbeV { name: toks[0], ip: toks[0], rtt: toks[2] }))
        } else {
            Err(ParseError::MalformedProbeToken)
        }
    } else if toks[1] == ms_tok() {
        if acc.len() > 0 && is_rtt_token(toks[0]) {
            probes_spec(
                toks.skip(2),
                acc.push(ProbeV { name: acc.last().name, ip: acc.last().ip, rtt: toks[0] }),
            )
        } else {
            Err(ParseError::MalformedProbeToken)
        }
    } else {
        if is_rtt_token(toks[1]) && toks.len() >= 3 {
            probes_spec(toks.skip(3), acc.push(ProbeV { name: toks[0], ip: toks[0], rtt: toks[1] }))
        } else {
            Err(ParseError::MalformedProbeToken)
        }
    }
}

/// The probe records of a hop's token stream, starting with no
/// previously emitted probe.
pub open spec fn parse_probes_spec(toks: Seq<Seq<char>>) -> Result<Seq<ProbeV>, ParseError> {
    probes_spec(toks, Seq::empty())
}

/// The hop a single line describes: its leading token as the hop
/// index, the rest as the probe stream.
pub open spec fn parse_hop_spec(line: Seq<char>) -> Result<HopV, ParseError> {
    let toks = tokens_of(line);
    if toks.len() == 0 || !is_hop_token(toks[0]) {
        Err(ParseError::MalformedHopLine)
    } else {
        match parse_probes_spec(toks.skip(1)) {
            Ok(ps) => Ok(HopV { id: digits_val(toks[0]) as u8, probes: ps }),
            Err(e) => Err(e),
        }
    }
}

/// The hops of a sequence of lines, in order.  Empty lines contribute
/// nothing; the first malformed line aborts the whole parse.
pub open spec fn hops_of_lines(lines: Seq<Seq<char>>) -> Result<Seq<HopV>, ParseError>
    decreases lines.len(),
{
    if lines.len() == 0 {
        Ok(Seq::empty())
    } else if lines[0].len() == 0 {
        hops_of_lines(lines.skip(1))
    } else {
        match parse_hop_spec(lines[0]) {
            Ok(h) => match hops_of_lines(lines.skip(1)) {
                Ok(hs) => Ok(seq![h] + hs),
                Err(e) => Err(e),
            },
            Err(e) => Err(e),
        }
    }
}

/// The hops of the raw output: its lines, split on `'\n'`, parsed in
/// order.
pub open spec fn parse_spec(s: Seq<char>) -> Result<Seq<HopV>, ParseError> {
    hops_of_lines(lines_of(s))
}

/// The timeout marker.
fn is_star_str(t: &str) -> (b: bool)
    ensures
        b == (t@ == star_tok()),
{
    let r = str_eq(t, "*");
    proof {
        reveal_strlit("*");
        assert("*"@ =~= star_tok());
    }
    r
}

/// The open-port annotation.
fn is_open_str(t: &str) -> (b: bool)
    ensures
        b == (t@ == open_tok()),
{
    let r = str_eq(t, "[open]");
    proof {
        reveal_strlit("[open]");
        assert("[open]"@ =~= open_tok());
    }
    r
}

/// The unit marker.
fn is_ms_str(t: &str) -> (b: bool)
    ensures
        b == (t@ == ms_tok()),
{
    let r = str_eq(t, "ms");
    proof {
        reveal_strlit("ms");
        assert("ms"@ =~= ms_tok());
    }
    r
}

/// The text with its first and last characters removed.
fn strip_ends(t: &str) -> (r: String)
    requires
        t@.len() >= 2,
    ensures
        r@ == inner_of(t@),
{
    let n = t.unicode_len();
    String::from_str(t.substring_char(1, n - 1))
}

/// Runs the probe-stream state machine over a hop's token stream.
/// Returns the probes in source order, or the error on which the
/// parse of the stream aborts; no partial probe list is handed out.
pub fn parse_probes(toks: &Vec<String>) -> (r: Result<Vec<Probe>, ParseError>)
    ensures
        match r {
            Ok(ps) => parse_probes_spec(toks.deep_view()) == Ok::<Seq<ProbeV>, ParseError>(
                ps.deep_view(),
            ),
            Err(e) => parse_probes_spec(toks.deep_view()) == Err::<Seq<ProbeV>, ParseError>(e),
        },
{
    let ghost full = toks.deep_view();
    let n = toks.len();
    let mut probes: Vec<Probe> = Vec::new();
    let mut i: usize = 0;
    proof {
        assert(full.skip(0) =~= full);
        assert(probes.deep_view() =~= Seq::<ProbeV>::empty());
    }
    while i < n
        invariant
            n == toks@.len(),
            full == toks.deep_view(),
            i <= n,
            parse_probes_spec(full) == probes_spec(full.skip(i as int), probes.deep_view()),
        decreases n - i,
    {
        let ghost rest = full.skip(i as int);
        let ghost acc = probes.deep_view();
        proof {
            assert(rest[0] == full[i as int]);
        }
        let t1 = &toks[i];
        if is_star_str(t1.as_str()) {
            proof {
                assert(rest.skip(1) =~= full.skip(i + 1));
            }
            i = i + 1;
        } else if n - i < 2 {
            return Err(ParseError::MalformedProbeToken);
        } else {
            let t2 = &toks[i + 1];
            proof {
                assert(rest[1] == full[i + 1]);
            }
            if paren_value_match(t2.as_str()) {
                if n - i > 3 && is_rtt(toks[i + 2].as_str()) {
                    proof {
                        assert(rest[2] == full[i + 2]);
                        lemma_paren_value_len(t2@);
                        assert(rest.skip(4) =~= full.skip(i + 4));
                    }
                    let ip = strip_ends(t2.as_str());
                    let p = Probe::new(t1.clone(), ip, toks[i + 2].clone());
                    probes.push(p);
                    proof {
                        assert(probes.deep_view() =~= acc.push(
                            ProbeV { name: rest[0], ip: inner_of(rest[1]), rtt: rest[2] },
                        ));
                    }
                    i = i + 4;
                } else if n - i > 4 && is_rtt(toks[i + 3].as_str()) {
                    proof {
                        assert(rest[2] == full[i + 2]);
                        assert(rest[3] == full[i + 3]);
                        lemma_paren_value_len(t2@);
                        assert(rest.skip(5) =~= full.skip(i + 5));
                    }
                    let ip = strip_ends(t2.as_str());
                    let p = Probe::new(t1.clone(), ip, toks[i + 3].clone());
                    probes.push(p);
                    proof {
                        assert(probes.deep_view() =~= acc.push(
                            ProbeV { name: rest[0], ip: inner_of(rest[1]), rtt: rest[3] },
                        ));
                    }
                    i = i + 5;
                } else {
                    proof {
                        if rest.len() >= 4 {
                            assert(rest[2] == full[i + 2]);
                        }
                        if rest.len() >= 5 {
                            assert(rest[3] == full[i + 3]);
                        }
                    }
                    return Err(ParseError::MalformedProbeToken);
                }
            } else if is_open_str(t1.as_str()) {
                if probes.len() > 0 && is_rtt(t2.as_str()) && n - i > 2 {
                    let last = probes.len() - 1;
                    let pname = probes[last].name.clone();
                    let pip = probes[last].ip.clone();
                    let p = Probe::new(pname, pip, t2.clone());
                    probes.push(p);
                    proof {
                        assert(acc.last() == probes@[last as int]@);
                        assert(probes.deep_view() =~= acc.push(
                            ProbeV { name: acc.last().name, ip: acc.last().ip, rtt: rest[1] },
                        ));
                        assert(rest.skip(3) =~= full.skip(i + 3));
                    }
                    i = i + 3;
                } else {
                    return Err(ParseError::MalformedProbeToken);
                }
            } else if is_open_str(t2.as_str()) {
                if n - i > 3 && is_rtt(toks[i + 2].as_str()) {
                    proof {
                        assert(rest[2] == full[i + 2]);
                        assert(rest.skip(4) =~= full.skip(i + 4));
                    }
                    let p = Probe::new(t1.clone(), t1.clone(), toks[i + 2].clone());
                    probes.push(p);
                    proof {
                        assert(probes.deep_view() =~= acc.push(
                            ProbeV { name: rest[0], ip: rest[0], rtt: rest[2] },
                        ));
                    }
                    i = i + 4;
                } else {
                    proof {
                        if rest.len() >= 4 {
                            assert(rest[2] == full[i + 2]);
                        }
                    }
                    return Err(ParseError::MalformedProbeToken);
                }
            } else if is_ms_str(t2.as_str()) {
                if probes.len() > 0 && is_rtt(t1.as_str()) {
                    let last = probes.len() - 1;
                    let pname = probes[last].name.clone();
                    let pip = probes[last].ip.clone();
                    let p = Probe::new(pname, pip, t1.clone());
                    probes.push(p);
                    proof {
                        assert(acc.last() == probes@[last as int]@);
                        assert(probes.deep_view() =~= acc.push(
                            ProbeV { name: acc.last().name, ip: acc.last().ip, rtt: rest[0] },
                        ));
                        assert(rest.skip(2) =~= full.skip(i + 2));
                    }
                    i = i + 2;
                } else {
                    return Err(ParseError::MalformedProbeToken);
                }
            } else {
                if n - i > 2 && is_rtt(t2.as_str()) {
                    let p = Probe::new(t1.clone(), t1.clone(), t2.clone());
                    probes.push(p);
                    proof {
                        assert(probes.deep_view() =~= acc.push(
                            ProbeV { name: rest[0], ip: rest[0], rtt: rest[1] },
                        ));
                        assert(rest.skip(3) =~= full.skip(i + 3));
                    }
                    i = i + 3;
                } else {
                    return Err(ParseError::MalformedProbeToken);
                }
            }
        }
    }
    proof {
        assert(full.skip(n as int).len() == 0);
    }
    Ok(probes)
}

/// Parses one line into a hop: the leading token is the hop index, the
/// remaining tokens the probe stream.  Fails with `MalformedHopLine`
/// exactly when the line has no leading token or its leading token is
/// not an integer in [0, 255], and otherwise as the probe stream does.
pub fn parse_hop(line: &str) -> (r: Result<Hop, ParseError>)
    ensures
        match r {
            Ok(h) => parse_hop_spec(line@) == Ok::<HopV, ParseError>(h.deep_view()),
            Err(e) => parse_hop_spec(line@) == Err::<HopV, ParseError>(e),
        },
{
    let toks = tokenize(line);
    let ghost tv = toks.deep_view();
    if toks.len() == 0 {
        return Err(ParseError::MalformedHopLine);
    }
    match parse_hop_id(toks[0].as_str()) {
        None => Err(ParseError::MalformedHopLine),
        Some(id) => {
            let mut tail: Vec<String> = Vec::new();
            let mut k: usize = 1;
            proof {
                assert(tail.deep_view() =~= tv.subrange(1, 1));
            }
            while k < toks.len()
                invariant
                    1 <= k <= toks@.len(),
                    tv == toks.deep_view(),
                    tail.deep_view() == tv.subrange(1, k as int),
                decreases toks@.len() - k,
            {
                let ghost old_tail = tail.deep_view();
                tail.push(toks[k].clone());
                proof {
                    assert(tail.deep_view() =~= old_tail.push(tv[k as int]));
                    assert(tv.subrange(1, k + 1) =~= tv.subrange(1, k as int).push(tv[k as int]));
                }
                k = k + 1;
            }
            proof {
                assert(tail.deep_view() =~= tv.skip(1));
            }
            match parse_probes(&tail) {
                Ok(probes) => {
                    proof {
                        lemma_digits_val_nonneg(tv[0]);
                    }
                    let h = Hop { id, probes };
                    Ok(h)
                },
                Err(e) => Err(e),
            }
        },
    }
}

/// Parses the full output of the diagnostic command into its hops, one
/// per non-empty line, in line order.  The first malformed line aborts
/// the parse; empty input is no error and yields no hops.
pub fn parse(s: &str) -> (r: Result<Vec<Hop>, ParseError>)
    ensures
        match r {
            Ok(hs) => parse_spec(s@) == Ok::<Seq<HopV>, ParseError>(hs.deep_view()),
            Err(e) => parse_spec(s@) == Err::<Seq<HopV>, ParseError>(e),
        },
        s@.len() == 0 ==> (r matches Ok(hs) && hs@.len() == 0),
{
    let lines = split_lines(s);
    let ghost lv = lines.deep_view();
    let n = lines.len();
    let mut hops: Vec<Hop> = Vec::new();
    let mut i: usize = 0;
    proof {
        assert(lv.skip(0) =~= lv);
        assert(hops.deep_view() =~= Seq::<HopV>::empty());
        assert(match hops_of_lines(lv) {
            Ok(rest) => hops_of_lines(lv) == Ok::<Seq<HopV>, ParseError>(
                hops.deep_view() + rest,
            ) && (hops.deep_view() + rest =~= rest),
            Err(e) => true,
        });
    }
    while i < n
        invariant
            n == lines@.len(),
            lv == lines.deep_view(),
            lv == lines_of(s@),
            i <= n,
            hops_of_lines(lv) == (match hops_of_lines(lv.skip(i as int)) {
                Ok(rest) => Ok::<Seq<HopV>, ParseError>(hops.deep_view() + rest),
                Err(e) => Err::<Seq<HopV>, ParseError>(e),
            }),
        decreases n - i,
    {
        let ghost rest_lines = lv.skip(i as int);
        let ghost acc = hops.deep_view();
        proof {
            assert(rest_lines[0] == lv[i as int]);
            assert(rest_lines.skip(1) =~= lv.skip(i + 1));
        }
        let line = &lines[i];
        if line.as_str().is_empty() {
            i = i + 1;
        } else {
            match parse_hop(line.as_str()) {
                Ok(h) => {
                    let ghost hv = h.deep_view();
                    hops.push(h);
                    proof {
                        assert(hops.deep_view() =~= acc.push(hv));
                        if let Ok(hs) = hops_of_lines(lv.skip(i + 1)) {
                            assert(acc + (seq![hv] + hs) =~= acc.push(hv) + hs);
                        }
                    }
                    i = i + 1;
                },
                Err(e) => {
                    proof {
                        assert(rest_lines[0].len() != 0);
                        assert(hops_of_lines(rest_lines) == Err::<Seq<HopV>, ParseError>(e));
                        assert(hops_of_lines(lv) == Err::<Seq<HopV>, ParseError>(e));
                        assert(lines_of(s@) == lv);
                        assert(parse_spec(s@) == Err::<Seq<HopV>, ParseError>(e));
                        if s@.len() == 0 {
                            assert(crate::text::line_len(s@) == 0);
                            assert(lines_of(s@) =~= seq![s@]);
                            assert(lv.len() == 1);
                            assert(rest_lines[0] == lv[i as int]);
                            assert(lv[i as int] == s@);
                            assert(false);
                        }
                    }
                    return Err(e);
                },
            }
        }
    }
    proof {
        assert(lv.skip(n as int).len() == 0);
        assert(hops.deep_view() + Seq::<HopV>::empty() =~= hops.deep_view());
        if s@.len() == 0 {
            crate::text::lemma_line_len_le(s@);
            assert(lines_of(s@) =~= seq![s@]);
            assert(lines_of(s@)[0].len() == 0);
            assert(lines_of(s@).skip(1) =~= Seq::<Seq<char>>::empty());
        }
    }
    Ok(hops)
}

} // verus!
