//! Outcomes of running an audio and MIDI backend of the standalone wrapper.

use vstd::prelude::*;

verus! {

/// Why a backend's `run()` call returned.
#[derive(Debug, Clone, Copy, PartialEq, Eq, Structural)]
pub enum RunOutcome {
    /// The process callback returned `false` or a stop was requested through
    /// `should_stop`. The caller must not restart the backend.
    Stopped,
    /// The audio stream failed, e.g. because the audio device was disconnected.
    /// The caller may try `reinit()` followed by another `run()` call to
    /// recover.
    StreamFailed,
}

} // verus!
