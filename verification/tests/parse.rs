use traceparse::model::Hop;
use traceparse::model::ParseError;
use traceparse::model::Probe;
use traceparse::num::is_rtt;
use traceparse::num::parse_hop_id;
use traceparse::parser::parse;
use traceparse::parser::parse_hop;
use traceparse::parser::parse_probes;
use traceparse::text::split_lines;
use traceparse::text::str_eq;
use traceparse::text::tokenize;

fn strings(words: &[&str]) -> Vec<String> {
    words.iter().map(|w| w.to_string()).collect()
}

#[test]
fn round_trip_synthetic_line() {
    let hop = parse_hop("3 bar.example.net (10.0.0.5)  12.345 ms").unwrap();
    assert_eq!(hop.id, 3);
    assert_eq!(hop.probes.len(), 1);
    assert_eq!(hop.probes[0].name, "bar.example.net");
    assert_eq!(hop.probes[0].ip, "10.0.0.5");
    assert_eq!(hop.probes[0].rtt, "12.345");
    assert_eq!(hop.probes[0].rtt.parse::<f64>().unwrap(), 12.345);
}

#[test]
fn repeated_sample_line() {
    let hop = parse_hop("4 * 10.0.0.9 [open]  5.000 ms  6.250 ms").unwrap();
    assert_eq!(hop.id, 4);
    assert_eq!(hop.probes.len(), 2);
    assert_eq!(hop.probes[0].name, "10.0.0.9");
    assert_eq!(hop.probes[0].ip, "10.0.0.9");
    assert_eq!(hop.probes[0].rtt, "5.000");
    assert_eq!(hop.probes[1].name, "10.0.0.9");
    assert_eq!(hop.probes[1].ip, "10.0.0.9");
    assert_eq!(hop.probes[1].rtt, "6.250");
}

#[test]
fn second_line_bad_index_fails_whole_parse() {
    let out = "3 bar.example.net (10.0.0.5)  12.345 ms\noops 10.0.0.7 1.0 ms";
    let r = parse(out);
    assert!(matches!(r, Err(ParseError::MalformedHopLine)));
}

#[test]
fn empty_input_yields_no_hops() {
    let r = parse("").unwrap();
    assert_eq!(r.len(), 0);
}

#[test]
fn two_well_formed_lines() {
    let out = "1 gw.local (192.168.0.1)  0.500 ms\n2 10.0.0.9 [open]  5.890 ms";
    let hops = parse(out).unwrap();
    assert_eq!(hops.len(), 2);
    assert_eq!(hops[0].id, 1);
    assert_eq!(hops[0].probes[0].name, "gw.local");
    assert_eq!(hops[0].probes[0].ip, "192.168.0.1");
    assert_eq!(hops[1].id, 2);
    assert_eq!(hops[1].probes[0].ip, "10.0.0.9");
}

#[test]
fn interior_empty_line_is_skipped() {
    let hops = parse("1 *\n\n2 *").unwrap();
    assert_eq!(hops.len(), 2);
    assert_eq!(hops[0].id, 1);
    assert_eq!(hops[1].id, 2);
}

#[test]
fn blank_but_nonempty_line_fails() {
    let r = parse("1 *\n \n2 *");
    assert!(matches!(r, Err(ParseError::MalformedHopLine)));
}

#[test]
fn hop_index_bounds() {
    assert_eq!(parse_hop("255 *").unwrap().id, 255);
    assert!(matches!(parse_hop("256 *"), Err(ParseError::MalformedHopLine)));
    assert!(matches!(parse_hop("abc 1.0 ms"), Err(ParseError::MalformedHopLine)));
    assert!(matches!(parse_hop("-1 1.0 ms"), Err(ParseError::MalformedHopLine)));
    assert!(matches!(parse_hop(""), Err(ParseError::MalformedHopLine)));
    assert!(matches!(parse_hop("   "), Err(ParseError::MalformedHopLine)));
}

#[test]
fn zero_probe_hop_from_timeouts_only() {
    let hop = parse_hop("7 * * *").unwrap();
    assert_eq!(hop.id, 7);
    assert!(hop.probes.is_empty());
}

#[test]
fn star_between_probe_groups() {
    let hop = parse_hop("5 10.0.0.1 [open]  1.000 ms * 10.0.0.1 [open]  2.000 ms").unwrap();
    assert_eq!(hop.probes.len(), 2);
    assert_eq!(hop.probes[0].rtt, "1.000");
    assert_eq!(hop.probes[1].rtt, "2.000");
}

#[test]
fn open_annotation_after_parenthesized_host() {
    let hop = parse_hop("11 kul09s16-in-f3.1e100.net (216.58.200.3) [open]  31.237 ms").unwrap();
    assert_eq!(hop.probes.len(), 1);
    assert_eq!(hop.probes[0].name, "kul09s16-in-f3.1e100.net");
    assert_eq!(hop.probes[0].ip, "216.58.200.3");
    assert_eq!(hop.probes[0].rtt, "31.237");
}

#[test]
fn leading_open_reuses_previous_identity() {
    let hop = parse_hop("9 a.example (10.0.0.1)  3.000 ms [open]  4.000 ms").unwrap();
    assert_eq!(hop.probes.len(), 2);
    assert_eq!(hop.probes[1].name, "a.example");
    assert_eq!(hop.probes[1].ip, "10.0.0.1");
    assert_eq!(hop.probes[1].rtt, "4.000");
}

#[test]
fn bare_address_pair() {
    let hop = parse_hop("6 10.1.1.1 4.5 ms").unwrap();
    assert_eq!(hop.probes.len(), 1);
    assert_eq!(hop.probes[0].name, "10.1.1.1");
    assert_eq!(hop.probes[0].ip, "10.1.1.1");
    assert_eq!(hop.probes[0].rtt, "4.5");
}

#[test]
fn repeat_without_previous_probe_fails() {
    assert!(matches!(parse_hop("2 5.0 ms"), Err(ParseError::MalformedProbeToken)));
    assert!(matches!(parse_hop("2 [open] 5.0 ms"), Err(ParseError::MalformedProbeToken)));
}

#[test]
fn missing_unit_token_fails() {
    assert!(matches!(parse_hop("2 host (1.2.3.4) 5.0"), Err(ParseError::MalformedProbeToken)));
}

#[test]
fn unparseable_numeric_field_fails() {
    assert!(matches!(parse_hop("2 a b"), Err(ParseError::MalformedProbeToken)));
    assert!(matches!(parse_hop("2 host (1.2.3.4) x y ms"), Err(ParseError::MalformedProbeToken)));
    assert!(matches!(parse_hop("2 * x"), Err(ParseError::MalformedProbeToken)));
}

#[test]
fn reparse_is_idempotent() {
    let line = "4 * 10.0.0.9 [open]  5.000 ms  6.250 ms";
    let a = parse_hop(line).unwrap();
    let b = parse_hop(line).unwrap();
    assert_eq!(a.id, b.id);
    assert_eq!(a.probes.len(), b.probes.len());
    for (pa, pb) in a.probes.iter().zip(b.probes.iter()) {
        assert_eq!(pa.name, pb.name);
        assert_eq!(pa.ip, pb.ip);
        assert_eq!(pa.rtt, pb.rtt);
    }
}

#[test]
fn probe_stream_parsed_directly() {
    let probes = parse_probes(&strings(&["*"])).unwrap();
    assert!(probes.is_empty());
    let probes = parse_probes(&strings(&["10.0.0.9", "[open]", "5.000", "ms"])).unwrap();
    assert_eq!(probes.len(), 1);
    assert_eq!(probes[0].ip, "10.0.0.9");
    assert_eq!(probes[0].rtt, "5.000");
    let r = parse_probes(&strings(&["10.0.0.9"]));
    assert!(matches!(r, Err(ParseError::MalformedProbeToken)));
}

#[test]
fn tokenizer_splits_on_whitespace_runs() {
    let toks = tokenize("  a\tbb  c ");
    assert_eq!(toks, vec!["a".to_string(), "bb".to_string(), "c".to_string()]);
    assert!(tokenize("").is_empty());
    assert!(tokenize(" \t ").is_empty());
}

#[test]
fn line_splitting_keeps_empty_pieces() {
    assert_eq!(split_lines("a\nb"), vec!["a".to_string(), "b".to_string()]);
    assert_eq!(split_lines("a\nb\n"), vec!["a".to_string(), "b".to_string(), "".to_string()]);
    assert_eq!(split_lines(""), vec!["".to_string()]);
}

#[test]
fn hop_index_token_grammar() {
    assert_eq!(parse_hop_id("17"), Some(17));
    assert_eq!(parse_hop_id("255"), Some(255));
    assert_eq!(parse_hop_id("007"), Some(7));
    assert_eq!(parse_hop_id("0"), Some(0));
    assert_eq!(parse_hop_id("256"), None);
    assert_eq!(parse_hop_id("999999999999999999999"), None);
    assert_eq!(parse_hop_id("+3"), None);
    assert_eq!(parse_hop_id("1a"), None);
    assert_eq!(parse_hop_id(""), None);
}

#[test]
fn rtt_token_grammar() {
    assert!(is_rtt("12.345"));
    assert!(is_rtt("5"));
    assert!(is_rtt("0.001"));
    assert!(!is_rtt("[open]"));
    assert!(!is_rtt("ms"));
    assert!(!is_rtt("5."));
    assert!(!is_rtt(".5"));
    assert!(!is_rtt("1.2.3"));
    assert!(!is_rtt(""));
    assert!(!is_rtt("-1.0"));
}

#[test]
fn text_equality_helper() {
    assert!(str_eq("ms", "ms"));
    assert!(!str_eq("ms", "m"));
    assert!(!str_eq("ms", "Ms"));
}

#[test]
fn record_constructors() {
    let h = Hop::new();
    assert_eq!(h.id, 0);
    assert!(h.probes.is_empty());
    let p = Probe::new("a".to_string(), "b".to_string(), "1.0".to_string());
    assert_eq!(p.name, "a");
    assert_eq!(p.ip, "b");
    assert_eq!(p.rtt, "1.0");
}
