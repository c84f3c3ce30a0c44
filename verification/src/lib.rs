//! Verified parser for the textual output of a TCP route-tracing tool.
//!
//! The library turns the raw multi-line output of the diagnostic command
//! into structured per-hop, per-probe records.  Parsing is the only part
//! of the surrounding system with real logic, and all of it is verified;
//! invoking the command and exporting the records are left to the caller.

pub mod laws;
pub mod model;
pub mod num;
pub mod parser;
pub mod pattern;
pub mod text;
