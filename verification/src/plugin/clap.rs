//! Data a plugin hands to the CLAP wrapper: preset discovery and polyphonic
//! modulation settings.

use vstd::prelude::*;

verus! {

/// Provides preset discovery to CLAP hosts. Implement this to enumerate the
/// plugin's presets at scan time, without a plugin instance.
pub trait ClapPresetDiscovery: Send + Sync {
    fn provider_id(&self) -> &str;

    fn provider_name(&self) -> &str;

    fn provider_vendor(&self) -> &str;

    fn enumerate_presets(&self) -> Vec<ClapPresetEntry>;
}

/// A single preset entry for CLAP preset discovery.
pub struct ClapPresetEntry {
    pub name: String,
    pub load_key: String,
    pub creator: Option<String>,
    pub description: Option<String>,
    pub flags: u32,
}

/// The plugin's polyphonic modulation options, if it supports them.
pub struct PolyModulationConfig {
    /// The maximum number of voices this plugin will ever use. Call the
    /// context's `set_current_voice_capacity()` method during initialization or
    /// audio processing to set the polyphony limit.
    pub max_voice_capacity: u32,
    /// If set to `true`, then the host may send note events for the same
    /// channel and key, but using different voice IDs. Bitwig Studio, for
    /// instance, can use this to do voice stacking. After enabling this, you
    /// should always prioritize using voice IDs to map note events to voices.
    pub supports_overlapping_voices: bool,
}

} // verus!
