//! Lifecycle actions: programs a package asks to have run at a phase of a
//! run, under a controlled envelope, with their execution recorded.

pub mod encoding;
pub mod definition;
pub mod plan;
pub mod quoting;
pub mod running;
pub mod launch;
