//! A small TCP port-reachability toolkit: validated IPv4 addresses and port
//! ranges, aggregation of per-port probe verdicts into a scan report, and
//! plain-text rendering of that report.  A separate module decodes the
//! 16-byte identification block at the start of an ELF object file.
//!
//! All network and file I/O lives outside this crate: callers perform the
//! probes and hand the verdicts back as plain values.

pub mod addr;
pub mod args;
pub mod bytes;
pub mod digits;
pub mod elf;
pub mod errors;
pub mod ports;
pub mod render;
pub mod report;
