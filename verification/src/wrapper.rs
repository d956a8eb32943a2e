//! The decisions of the plugin API wrappers.

pub mod clap;
pub mod standalone;
