pub mod actor;
pub mod arena;
pub mod constants;
pub mod error;
pub mod flat;
pub mod occupancy;
pub mod road;
pub mod route;
pub mod simulate;
