//! Music import and audio-graph bookkeeping: readers for MIDI, MOD and XM
//! song files, the integer core of note and pattern handling, and the
//! topology rules of a WebAudio-style node graph.

pub mod bytes;
pub mod import;
pub mod text;
pub mod midi;
pub mod midi_song;
pub mod graph;
pub mod tracker;
pub mod mod_file;
pub mod xm_file;
pub mod tracker_play;
pub mod tracker_import;
pub mod sequencer;
pub mod params;
pub mod webaudio;
pub mod handles;
pub mod gm;
pub mod lanes;
