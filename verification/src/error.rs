//! What can go wrong on the way to a winner.

use vstd::prelude::*;

verus! {

/// The failures that end a giveaway run.
#[derive(Clone, Copy, Debug, PartialEq, Eq, Structural)]
pub enum GiveawayError {
    /// No bearer credentials could be had.
    Auth,
    /// A page request did not get through.
    Transport,
    /// A page arrived in a shape that could not be read.
    Decode,
    /// The platform answered with a status other than success.
    Upstream { status: u16 },
    /// No eligible participant is left to draw from.
    EmptyPool,
}

} // verus!
