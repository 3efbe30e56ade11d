use std::sync::Arc;
use std::sync::atomic::{AtomicBool, Ordering};
use vstd::prelude::*;
use vstd::string::*;

verus! {

/// The handle of a playing audio-graph sound: a stop flag shared with the
/// sound, which reads it while it plays.
#[derive(Debug, Clone)]
pub struct AudioContextSoundHandle {
    stopped: Arc<AtomicBool>,
}

impl AudioContextSoundHandle {
    /// A handle whose sound has not been stopped. The flag is an atomic
    /// shared with the sound; its value is not visible to contracts, so
    /// nothing is stated of the new handle.
    pub fn new() -> Self {
        AudioContextSoundHandle { stopped: Arc::new(AtomicBool::new(false)) }
    }

    /// Asks the sound to stop.
    pub fn stop(&self) {
        self.stopped.store(true, Ordering::Relaxed);
    }

    /// Whether the sound was asked to stop. The flag is shared with the
    /// sound's own thread, so nothing is stated of what is read.
    pub fn stopped(&self) -> bool {
        self.stopped.load(Ordering::Relaxed)
    }
}

/// The handle of a playing sequence: a stop flag shared with the sound.
#[derive(Debug, Clone)]
pub struct SequencerSoundHandle {
    stopped: Arc<AtomicBool>,
}

impl SequencerSoundHandle {
    /// A handle whose sequence has not been stopped. As for the graph
    /// handle, the flag's value is not visible to contracts, so nothing is
    /// stated of the new handle.
    pub fn new() -> Self {
        SequencerSoundHandle { stopped: Arc::new(AtomicBool::new(false)) }
    }

    /// Asks the sequence to stop.
    pub fn stop(&self) {
        self.stopped.store(true, Ordering::Relaxed);
    }

    /// Whether the sequence was asked to stop; as for the graph handle,
    /// nothing is stated of what is read.
    pub fn stopped(&self) -> bool {
        self.stopped.load(Ordering::Relaxed)
    }
}

/// A sequence could not be built into a sound.
#[derive(Debug, Clone, Copy, PartialEq, Eq)]
pub struct SequencerSoundError;

impl SequencerSoundError {
    /// The message the error displays.
    pub fn to_string(&self) -> (r: String)
        ensures
            r@ == "failed to build sequencer sound"@,
    {
        String::from_str("failed to build sequencer sound")
    }
}

} // verus!
