use vstd::prelude::*;

verus! {

/// What can go wrong when building or advancing a network.
#[derive(Debug, Clone, Copy, PartialEq, Eq, Structural)]
pub enum RoutieError {
    /// An id does not resolve against the network.
    InvalidId,
    /// A segment offers no lane to board from its side.
    NoSuchLocation,
    /// No lane path leads to the destination.
    Unreachable,
    /// A route step whose transition is not defined (a lane change).
    UnsupportedStep,
    /// An actor in a junction lane has no route step left to leave it by.
    NullRoute,
    /// A position parameter lies outside the range its use allows.
    InvalidPosition,
}

} // verus!
