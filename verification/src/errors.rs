//! The validation failures a caller can be handed.  Every variant is fatal
//! to a scan: nothing is probed until the inputs are accepted.

use vstd::prelude::*;

verus! {

/// Why the command line was rejected before any probe was attempted.
#[derive(Clone, Copy, Debug, PartialEq, Eq, Structural)]
pub enum ValidationError {
    /// Help was asked for: a single `h` argument or no argument at all.
    Help,
    /// Some other number of arguments than an address and a port range.
    WrongArgCount,
    /// The address is not a dotted-quad IPv4 address.
    InvalidAddress,
    /// The port range is not two `u16` numbers joined by a single dash.
    InvalidPortRange,
    /// The port range is well formed but runs backwards (start above end).
    /// Such a range is rejected outright rather than silently read as an
    /// empty scan; the choice is deliberate and surfaced to the caller.
    ReversedRange,
}

} // verus!
