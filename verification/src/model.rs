//! The data model: per-hop and per-probe records, their
//! specification-level views, and the parse error taxonomy.

use vstd::prelude::*;

verus! {

/// Why a parse was abandoned.  The whole parse aborts on the first
/// error; no partial results are handed out.
#[derive(Clone, Copy, Debug, PartialEq, Eq, Structural)]
pub enum ParseError {
    /// The leading token of a line is not a base-10 integer in [0, 255].
    MalformedHopLine,
    /// A probe token group matches no classification rule: a required
    /// numeric field fails every fallback, a trailing unit token is
    /// missing, or a rule that reuses the previous probe's identity ran
    /// with no previous probe in the hop.
    MalformedProbeToken,
}

/// One measured round-trip sample toward a hop.
///
/// `rtt` is kept as the numeric text of the round-trip time in
/// milliseconds, exactly as it stood in the source line; the parser
/// guarantees it matches the decimal grammar of
/// [`crate::num::is_rtt_token`], so a downstream exporter can convert
/// it to its floating-point type without failure.
pub struct Probe {
    /// Hostname, or the textual IP when the source line carries no
    /// separate hostname.
    pub name: String,
    /// The literal address, without surrounding delimiters.
    pub ip: String,
    /// Round-trip time in milliseconds, as numeric text.
    pub rtt: String,
}

/// Specification-level view of a [`Probe`].
pub struct ProbeV {
    pub name: Seq<char>,
    pub ip: Seq<char>,
    pub rtt: Seq<char>,
}

impl View for Probe {
    type V = ProbeV;

    open spec fn view(&self) -> ProbeV {
        ProbeV { name: self.name@, ip: self.ip@, rtt: self.rtt@ }
    }
}

impl DeepView for Probe {
    type V = ProbeV;

    open spec fn deep_view(&self) -> ProbeV {
        self@
    }
}

impl Probe {
    /// A probe record with the given identity and round-trip text.
    pub fn new(name: String, ip: String, rtt: String) -> (p: Probe)
        ensures
            p@ == (ProbeV { name: name@, ip: ip@, rtt: rtt@ }),
    {
        Probe { name, ip, rtt }
    }
}

/// One intermediate network point of a traced route, with the probe
/// samples reported for it, ordered as they stood in the source line.
pub struct Hop {
    /// The hop distance printed at the start of the line.
    pub id: u8,
    /// May be empty: a hop all of whose probes timed out.
    pub probes: Vec<Probe>,
}

/// Specification-level view of a [`Hop`].
pub struct HopV {
    pub id: u8,
    pub probes: Seq<ProbeV>,
}

impl View for Hop {
    type V = HopV;

    open spec fn view(&self) -> HopV {
        HopV { id: self.id, probes: self.probes.deep_view() }
    }
}

impl DeepView for Hop {
    type V = HopV;

    open spec fn deep_view(&self) -> HopV {
        self@
    }
}

impl Hop {
    /// A hop record before any line content is attached: distance zero
    /// and no probes.
    pub fn new() -> (h: Hop)
        ensures
            h@.id == 0,
            h@.probes == Seq::<ProbeV>::empty(),
    {
        let h = Hop { id: 0, probes: Vec::new() };
        proof {
            assert(h.probes.deep_view() =~= Seq::<ProbeV>::empty());
        }
        h
    }
}

} // verus!
