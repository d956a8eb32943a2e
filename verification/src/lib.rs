//! Editor sizing rules, CLAP preset discovery data and the decisions behind
//! preset metadata reporting, with their contracts proved by Verus.

pub mod editor;
pub mod plugin;
pub mod resize_laws;
pub mod wrapper;
