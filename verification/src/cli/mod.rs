//! The commands: what each of them decides.
pub mod daemon;
pub mod launch;
pub mod model;
pub mod setup;
