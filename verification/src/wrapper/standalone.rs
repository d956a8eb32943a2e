//! The standalone wrapper.

pub mod backend;
