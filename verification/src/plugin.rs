//! Plugin-facing definitions.

pub mod clap;
