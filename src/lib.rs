//! Decoding of the RMonitor timing protocol: a line-oriented ASCII feed of
//! heartbeats, competitor rosters, standings, passings and track topology.
//!
//! - [`fields`]: splitting a line on commas, quoted text and decimal integers.
//! - [`protocol`]: one line into a typed [`protocol::Record`], or the exact
//!   [`protocol::RecordError`] of the line.
//! - [`framing`]: how complete lines are taken from a byte buffer under a
//!   maximum line length, and why feeding a stream in pieces changes nothing.
//! - [`codec`]: the stream decoder, which takes lines from a caller-owned
//!   buffer and decodes them in wire order, skipping malformed lines.
//! - [`replay`]: pacing of a recorded feed played back to clients.
pub mod fields;
pub mod framing;
pub mod protocol;
pub mod codec;
pub mod replay;

pub use codec::RMonitorDecoder;
