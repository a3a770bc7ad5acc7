//! Correlates smart-account creation events with a list of expected account
//! addresses, to find the externally-owned account that deployed each one.
//!
//! The crate holds the decisions of a scan: how a block span is cut into
//! ranges and re-cut after a failed fetch, which log records name a target,
//! which of several matches wins, and what is written for each target. The
//! network and the file system stay with the caller, who performs the fetches
//! and writes the lines that these functions hand back.

pub mod address;
pub mod chunker;
pub mod correlator;
pub mod input;
pub mod registry;
pub mod scanner;
pub mod sink;
