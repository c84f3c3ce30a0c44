//! Properties of the parser that hold for every input, stated over the
//! specification functions and proved once and for all.

use vstd::prelude::*;

use crate::model::HopV;
use crate::model::ParseError;
use crate::model::ProbeV;
use crate::num::digits_val;
use crate::num::is_hop_token;
use crate::num::is_rtt_token;
use crate::num::lemma_digits_val_nonneg;
use crate::pattern::has_paren_value;
use crate::parser::inner_of;
use crate::parser::ms_tok;
use crate::parser::open_tok;
use crate::parser::parse_hop_spec;
use crate::parser::parse_spec;
use crate::parser::hops_of_lines;
use crate::parser::probes_spec;
use crate::parser::star_tok;
use crate::text::line_len;
use crate::text::lines_of;
use crate::text::tokens_of;

verus! {

/// A line whose leading token is an integer in [0, 255] is never
/// rejected as a malformed hop line, and when it parses, the hop
/// carries exactly that integer as its index.
pub proof fn lemma_hop_id_kept(line: Seq<char>)
    requires
        tokens_of(line).len() > 0,
        is_hop_token(tokens_of(line)[0]),
    ensures
        match parse_hop_spec(line) {
            Ok(h) => h.id as int == digits_val(tokens_of(line)[0]),
            Err(e) => e == ParseError::MalformedProbeToken,
        },
{
    lemma_digits_val_nonneg(tokens_of(line)[0]);
    lemma_probes_err_kind(tokens_of(line).skip(1), Seq::empty());
}

/// The probe-stream state machine never reports a malformed hop line:
/// its only error is the malformed probe token.
pub proof fn lemma_probes_err_kind(toks: Seq<Seq<char>>, acc: Seq<ProbeV>)
    ensures
        probes_spec(toks, acc) != Err::<Seq<ProbeV>, ParseError>(ParseError::MalformedHopLine),
    decreases toks.len(),
{
    if toks.len() == 0 {
    } else if toks[0] == star_tok() {
        lemma_probes_err_kind(toks.skip(1), acc);
    } else if toks.len() < 2 {
    } else if has_paren_value(toks[1]) {
        if toks.len() >= 4 && is_rtt_token(toks[2]) {
            lemma_probes_err_kind(
                toks.skip(4),
                acc.push(ProbeV { name: toks[0], ip: inner_of(toks[1]), rtt: toks[2] }),
            );
        } else if toks.len() >= 5 && !is_rtt_token(toks[2]) && is_rtt_token(toks[3]) {
            lemma_probes_err_kind(
                toks.skip(5),
                acc.push(ProbeV { name: toks[0], ip: inner_of(toks[1]), rtt: toks[3] }),
            );
        }
    } else if toks[0] == open_tok() {
        if acc.len() > 0 && is_rtt_token(toks[1]) && toks.len() >= 3 {
            lemma_probes_err_kind(
                toks.skip(3),
                acc.push(ProbeV { name: acc.last().name, ip: acc.last().ip, rtt: toks[1] }),
            );
        }
    } else if toks[1] == open_tok() {
        if toks.len() >= 4 && is_rtt_token(toks[2]) {
            lemma_probes_err_kind(
                toks.skip(4),
                acc.push(ProbeV { name: toks[0], ip: toks[0], rtt: toks[2] }),
            );
        }
    } else if toks[1] == ms_tok() {
        if acc.len() > 0 && is_rtt_token(toks[0]) {
            lemma_probes_err_kind(
                toks.skip(2),
                acc.push(ProbeV { name: acc.last().name, ip: acc.last().ip, rtt: toks[0] }),
            );
        }
    } else {
        if is_rtt_token(toks[1]) && toks.len() >= 3 {
            lemma_probes_err_kind(
                toks.skip(3),
                acc.push(ProbeV { name: toks[0], ip: toks[0], rtt: toks[1] }),
            );
        }
    }
}

/// A line with no leading token, or whose leading token is not an
/// integer in [0, 255], always fails as a malformed hop line.
pub proof fn lemma_bad_hop_index_rejected(line: Seq<char>)
    requires
        tokens_of(line).len() == 0 || !is_hop_token(tokens_of(line)[0]),
    ensures
        parse_hop_spec(line) == Err::<HopV, ParseError>(ParseError::MalformedHopLine),
{
}

/// A timeout marker at a classification point is skipped whole: it
/// emits no probe and leaves the parse of the surrounding tokens
/// unchanged.
pub proof fn lemma_star_consumes_nothing(toks: Seq<Seq<char>>, acc: Seq<ProbeV>)
    ensures
        probes_spec(seq![star_tok()] + toks, acc) == probes_spec(toks, acc),
{
    let full = seq![star_tok()] + toks;
    assert(full[0] == star_tok());
    assert(full.skip(1) =~= toks);
}

/// A token stream of nothing but timeout markers emits no probe at
/// all, and is no error.
pub proof fn lemma_all_stars_no_probe(toks: Seq<Seq<char>>, acc: Seq<ProbeV>)
    requires
        forall|k: int| 0 <= k < toks.len() ==> #[trigger] toks[k] == star_tok(),
    ensures
        probes_spec(toks, acc) == Ok::<Seq<ProbeV>, ParseError>(acc),
    decreases toks.len(),
{
    if toks.len() > 0 {
        assert(toks[0] == star_tok());
        assert forall|k: int| 0 <= k < toks.skip(1).len() implies #[trigger] toks.skip(1)[k]
            == star_tok() by {
            assert(toks.skip(1)[k] == toks[k + 1]);
        }
        lemma_all_stars_no_probe(toks.skip(1), acc);
    }
}

/// A line consisting of a valid hop index followed solely by timeout
/// markers yields a hop with that index and an empty probe list, not
/// an error.
pub proof fn lemma_star_only_line(line: Seq<char>)
    requires
        tokens_of(line).len() > 0,
        is_hop_token(tokens_of(line)[0]),
        forall|k: int| 1 <= k < tokens_of(line).len() ==> #[trigger] tokens_of(line)[k]
            == star_tok(),
    ensures
        parse_hop_spec(line) matches Ok(h) && h.probes.len() == 0 && h.id as int == digits_val(
            tokens_of(line)[0],
        ),
{
    let toks = tokens_of(line);
    let rest = toks.skip(1);
    assert forall|k: int| 0 <= k < rest.len() implies #[trigger] rest[k] == star_tok() by {
        assert(rest[k] == toks[k + 1]);
    }
    lemma_all_stars_no_probe(rest, Seq::empty());
    lemma_digits_val_nonneg(toks[0]);
}

/// Parsing keeps no state between calls: two parses of the same line
/// yield structurally equal results.
pub proof fn lemma_reparse_agrees(
    line: Seq<char>,
    r1: Result<HopV, ParseError>,
    r2: Result<HopV, ParseError>,
)
    requires
        r1 == parse_hop_spec(line),
        r2 == parse_hop_spec(line),
    ensures
        r1 == r2,
{
}

/// Empty input yields an empty hop sequence, and no error.
pub proof fn lemma_empty_input_no_hops()
    ensures
        parse_spec(Seq::<char>::empty()) == Ok::<Seq<HopV>, ParseError>(Seq::<HopV>::empty()),
{
    let s = Seq::<char>::empty();
    let ls = lines_of(s);
    assert(line_len(s) == 0);
    assert(ls =~= seq![s]);
    assert(ls[0].len() == 0);
    assert(ls.skip(1) =~= Seq::<Seq<char>>::empty());
    assert(hops_of_lines(Seq::<Seq<char>>::empty()) == Ok::<Seq<HopV>, ParseError>(
        Seq::<HopV>::empty(),
    ));
    assert(hops_of_lines(ls) == hops_of_lines(ls.skip(1)));
}

/// Every probe the state machine emits carries a round-trip field of
/// the decimal grammar: what the machine appends it always extracted
/// as a numeric token.
pub proof fn lemma_probe_rtts_valid(toks: Seq<Seq<char>>, acc: Seq<ProbeV>, ps: Seq<ProbeV>)
    requires
        probes_spec(toks, acc) == Ok::<Seq<ProbeV>, ParseError>(ps),
        forall|k: int| 0 <= k < acc.len() ==> is_rtt_token(#[trigger] acc[k].rtt),
    ensures
        forall|k: int| 0 <= k < ps.len() ==> is_rtt_token(#[trigger] ps[k].rtt),
    decreases toks.len(),
{
    if toks.len() == 0 {
    } else if toks[0] == star_tok() {
        lemma_probe_rtts_valid(toks.skip(1), acc, ps);
    } else if toks.len() < 2 {
    } else if has_paren_value(toks[1]) {
        if toks.len() >= 4 && is_rtt_token(toks[2]) {
            let p = ProbeV { name: toks[0], ip: inner_of(toks[1]), rtt: toks[2] };
            lemma_push_keeps_rtts_valid(acc, p);
            lemma_probe_rtts_valid(toks.skip(4), acc.push(p), ps);
        } else if toks.len() >= 5 && !is_rtt_token(toks[2]) && is_rtt_token(toks[3]) {
            let p = ProbeV { name: toks[0], ip: inner_of(toks[1]), rtt: toks[3] };
            lemma_push_keeps_rtts_valid(acc, p);
            lemma_probe_rtts_valid(toks.skip(5), acc.push(p), ps);
        }
    } else if toks[0] == open_tok() {
        if acc.len() > 0 && is_rtt_token(toks[1]) && toks.len() >= 3 {
            let p = ProbeV { name: acc.last().name, ip: acc.last().ip, rtt: toks[1] };
            lemma_push_keeps_rtts_valid(acc, p);
            lemma_probe_rtts_valid(toks.skip(3), acc.push(p), ps);
        }
    } else if toks[1] == open_tok() {
        if toks.len() >= 4 && is_rtt_token(toks[2]) {
            let p = ProbeV { name: toks[0], ip: toks[0], rtt: toks[2] };
            lemma_push_keeps_rtts_valid(acc, p);
            lemma_probe_rtts_valid(toks.skip(4), acc.push(p), ps);
        }
    } else if toks[1] == ms_tok() {
        if acc.len() > 0 && is_rtt_token(toks[0]) {
            let p = ProbeV { name: acc.last().name, ip: acc.last().ip, rtt: toks[0] };
            lemma_push_keeps_rtts_valid(acc, p);
            lemma_probe_rtts_valid(toks.skip(2), acc.push(p), ps);
        }
    } else {
        if is_rtt_token(toks[1]) && toks.len() >= 3 {
            let p = ProbeV { name: toks[0], ip: toks[0], rtt: toks[1] };
            lemma_push_keeps_rtts_valid(acc, p);
            lemma_probe_rtts_valid(toks.skip(3), acc.push(p), ps);
        }
    }
}

/// Appending one probe of valid round-trip text to a list of such
/// probes yields a list of such probes.
proof fn lemma_push_keeps_rtts_valid(acc: Seq<ProbeV>, p: ProbeV)
    requires
        forall|k: int| 0 <= k < acc.len() ==> is_rtt_token(#[trigger] acc[k].rtt),
        is_rtt_token(p.rtt),
    ensures
        forall|k: int| 0 <= k < acc.push(p).len() ==> is_rtt_token(#[trigger] acc.push(p)[k].rtt),
{
    assert forall|k: int| 0 <= k < acc.push(p).len() implies is_rtt_token(
        #[trigger] acc.push(p)[k].rtt,
    ) by {
        if k < acc.len() {
            assert(acc.push(p)[k] == acc[k]);
        } else {
            assert(acc.push(p)[k] == p);
        }
    }
}

} // verus!
