//! The configuration of the system: masks of packages and USE flags.
pub mod masks;
pub mod system;
