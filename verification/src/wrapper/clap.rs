//! The CLAP wrapper.

pub mod preset_discovery;
