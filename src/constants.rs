use vstd::prelude::*;

verus! {

/// Position parameters are fixed-point numbers: this value stands for `1.0`.
pub const POS_PARAM_ONE: u64 = 1_000_000;

/// Length of one simulation tick, in time units.
pub const SIM_TIME_STEP: u64 = 2;

/// Speed of a new actor, in position units (millionths of a lane) per time unit.
pub const ACTOR_MAX_SPEED: u64 = 20_000;

} // verus!
