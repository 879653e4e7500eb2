//! A counter that calls back into its host whenever its value reaches a
//! multiple of a configured trigger, and the table of opaque handles through
//! which a foreign caller owns such counters.
pub mod counter;
pub mod error;
pub mod handles;
pub mod bridge;
pub mod greeting;
pub mod laws;
