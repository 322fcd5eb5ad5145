//! Configuration and the types that the parts of the program share.
pub mod config;
pub mod paths;
pub mod types;
