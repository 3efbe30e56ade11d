use vstd::prelude::*;

use crate::webaudio::Waveform;

verus! {

/// The family of envelope a General MIDI program gets.
#[derive(Debug, Clone, Copy, PartialEq, Eq, Structural)]
pub enum GmEnvelope {
    /// Pianos and chromatic percussion (programs 0 to 15): a short decaying
    /// strike; the chromatic ones a little softer.
    Piano { soft: bool },
    /// Organs (16 to 23).
    Organ,
    /// Strings and ensembles (40 to 55).
    Strings,
    /// Brass (56 to 63).
    Brass,
    /// Every other program.
    Plain,
}

/// The family of low-pass filter a General MIDI program gets.
#[derive(Debug, Clone, Copy, PartialEq, Eq, Structural)]
pub enum GmFilter {
    /// Basses (32 to 39).
    Bass,
    /// Strings and ensembles (40 to 55).
    Strings,
    /// Brass (56 to 63).
    Brass,
    /// Every other program.
    Plain,
}

/// The pitch family of a General MIDI drum key.
#[derive(Debug, Clone, Copy, PartialEq, Eq, Structural)]
pub enum GmDrumPitch {
    /// Bass drums (35, 36).
    Kick,
    /// Snares (38, 40).
    Snare,
    /// Hi-hats (42, 44, 46).
    HiHat,
    /// Every other key.
    Other,
}

/// The synthesized voice of a General MIDI program: its oscillator shape and
/// its envelope and filter families.
#[derive(Debug, Clone, Copy, PartialEq, Eq)]
pub struct GmVoice {
    pub waveform: Waveform,
    pub envelope: GmEnvelope,
    pub filter: Option<GmFilter>,
}

/// The oscillator shape of a program.
pub open spec fn gm_waveform(program: u8) -> Waveform {
    if program <= 15 {
        if program >= 8 { Waveform::Triangle } else { Waveform::Sine }
    } else if program <= 23 {
        Waveform::Square
    } else if program <= 39 {
        Waveform::Sawtooth
    } else if program <= 55 {
        Waveform::Triangle
    } else if 80 <= program <= 103 {
        Waveform::Square
    } else {
        Waveform::Sine
    }
}

/// The voice of a program: pianos are a plain oscillator and envelope;
/// other programs also pass a filter.
pub open spec fn gm_voice_spec(program: u8) -> GmVoice {
    if program <= 15 {
        GmVoice { waveform: gm_waveform(program), envelope: GmEnvelope::Piano { soft: program >= 8 }, filter: None }
    } else {
        GmVoice {
            waveform: gm_waveform(program),
            envelope: if program <= 23 {
                GmEnvelope::Organ
            } else if 40 <= program <= 55 {
                GmEnvelope::Strings
            } else if 56 <= program <= 63 {
                GmEnvelope::Brass
            } else {
                GmEnvelope::Plain
            },
            filter: Some(if 32 <= program <= 39 {
                GmFilter::Bass
            } else if 40 <= program <= 55 {
                GmFilter::Strings
            } else if 56 <= program <= 63 {
                GmFilter::Brass
            } else {
                GmFilter::Plain
            }),
        }
    }
}

/// The voice that stands in for a General MIDI program.
pub fn gm_voice(program: u8) -> (r: GmVoice)
    ensures
        r == gm_voice_spec(program),
{
    let waveform = if program <= 15 {
        if program >= 8 { Waveform::Triangle } else { Waveform::Sine }
    } else if program <= 23 {
        Waveform::Square
    } else if program <= 39 {
        Waveform::Sawtooth
    } else if program <= 55 {
        Waveform::Triangle
    } else if 80 <= program && program <= 103 {
        Waveform::Square
    } else {
        Waveform::Sine
    };
    if program <= 15 {
        return GmVoice { waveform, envelope: GmEnvelope::Piano { soft: program >= 8 }, filter: None };
    }
    let envelope = if program <= 23 {
        GmEnvelope::Organ
    } else if 40 <= program && program <= 55 {
        GmEnvelope::Strings
    } else if 56 <= program && program <= 63 {
        GmEnvelope::Brass
    } else {
        GmEnvelope::Plain
    };
    let filter = if 32 <= program && program <= 39 {
        GmFilter::Bass
    } else if 40 <= program && program <= 55 {
        GmFilter::Strings
    } else if 56 <= program && program <= 63 {
        GmFilter::Brass
    } else {
        GmFilter::Plain
    };
    GmVoice { waveform, envelope, filter: Some(filter) }
}

/// The oscillator shape and pitch family of a General MIDI drum key: bass
/// drums and toms sine, snares triangle, hi-hats and cymbals square, the
/// rest sawtooth.
pub open spec fn gm_drum_spec(note: u8) -> (Waveform, GmDrumPitch) {
    let waveform = if note == 35 || note == 36 || note == 41 || note == 43 || note == 45 {
        Waveform::Sine
    } else if note == 38 || note == 40 {
        Waveform::Triangle
    } else if note == 42 || note == 44 || note == 46 || note == 49 || note == 51 || note == 57 {
        Waveform::Square
    } else {
        Waveform::Sawtooth
    };
    let pitch = if note == 35 || note == 36 {
        GmDrumPitch::Kick
    } else if note == 38 || note == 40 {
        GmDrumPitch::Snare
    } else if note == 42 || note == 44 || note == 46 {
        GmDrumPitch::HiHat
    } else {
        GmDrumPitch::Other
    };
    (waveform, pitch)
}

/// The voice that stands in for a General MIDI drum key.
pub fn gm_drum(note: u8) -> (r: (Waveform, GmDrumPitch))
    ensures
        r == gm_drum_spec(note),
{
    let waveform = if note == 35 || note == 36 || note == 41 || note == 43 || note == 45 {
        Waveform::Sine
    } else if note == 38 || note == 40 {
        Waveform::Triangle
    } else if note == 42 || note == 44 || note == 46 || note == 49 || note == 51 || note == 57 {
        Waveform::Square
    } else {
        Waveform::Sawtooth
    };
    let pitch = if note == 35 || note == 36 {
        GmDrumPitch::Kick
    } else if note == 38 || note == 40 {
        GmDrumPitch::Snare
    } else if note == 42 || note == 44 || note == 46 {
        GmDrumPitch::HiHat
    } else {
        GmDrumPitch::Other
    };
    (waveform, pitch)
}

/// The voices by General MIDI family: pianos (0-7) a sine strike and
/// chromatic percussion (8-15) a softer triangle one, both unfiltered;
/// organs (16-23) square; guitars (24-31) sawtooth; basses (32-39)
/// sawtooth through the bass filter; strings and ensembles (40-55)
/// triangle; brass (56-63) sine; synth leads, pads and effects (80-103)
/// square; the rest sine. Every program above the pianos is filtered.
pub proof fn law_gm_families(program: u8)
    ensures
        program <= 7 ==> gm_voice_spec(program) == (GmVoice {
            waveform: Waveform::Sine, envelope: GmEnvelope::Piano { soft: false }, filter: None }),
        8 <= program <= 15 ==> gm_voice_spec(program) == (GmVoice {
            waveform: Waveform::Triangle, envelope: GmEnvelope::Piano { soft: true }, filter: None }),
        16 <= program <= 23 ==> gm_voice_spec(program) == (GmVoice {
            waveform: Waveform::Square, envelope: GmEnvelope::Organ, filter: Some(GmFilter::Plain) }),
        24 <= program <= 31 ==> gm_voice_spec(program) == (GmVoice {
            waveform: Waveform::Sawtooth, envelope: GmEnvelope::Plain, filter: Some(GmFilter::Plain) }),
        32 <= program <= 39 ==> gm_voice_spec(program) == (GmVoice {
            waveform: Waveform::Sawtooth, envelope: GmEnvelope::Plain, filter: Some(GmFilter::Bass) }),
        40 <= program <= 55 ==> gm_voice_spec(program) == (GmVoice {
            waveform: Waveform::Triangle, envelope: GmEnvelope::Strings, filter: Some(GmFilter::Strings) }),
        56 <= program <= 63 ==> gm_voice_spec(program) == (GmVoice {
            waveform: Waveform::Sine, envelope: GmEnvelope::Brass, filter: Some(GmFilter::Brass) }),
        80 <= program <= 103 ==> gm_voice_spec(program) == (GmVoice {
            waveform: Waveform::Square, envelope: GmEnvelope::Plain, filter: Some(GmFilter::Plain) }),
        (64 <= program <= 79 || program >= 104) ==> gm_voice_spec(program) == (GmVoice {
            waveform: Waveform::Sine, envelope: GmEnvelope::Plain, filter: Some(GmFilter::Plain) }),
{
}

/// The drum voices by key: bass drums (35, 36) kicks and the toms (41, 43,
/// 45) on a sine; snares (38, 40) on a triangle; hi-hats (42, 44, 46) and
/// the cymbals (49, 51, 57) on a square; every other key a sawtooth.
pub proof fn law_gm_drum_keys(note: u8)
    ensures
        (note == 35 || note == 36) ==> gm_drum_spec(note) == (Waveform::Sine, GmDrumPitch::Kick),
        (note == 41 || note == 43 || note == 45) ==> gm_drum_spec(note) == (Waveform::Sine, GmDrumPitch::Other),
        (note == 38 || note == 40) ==> gm_drum_spec(note) == (Waveform::Triangle, GmDrumPitch::Snare),
        (note == 42 || note == 44 || note == 46) ==> gm_drum_spec(note) == (Waveform::Square, GmDrumPitch::HiHat),
        (note == 49 || note == 51 || note == 57) ==> gm_drum_spec(note) == (Waveform::Square, GmDrumPitch::Other),
        !(note == 35 || note == 36 || note == 38 || note == 40 || note == 41 || note == 42 || note == 43 || note == 44
            || note == 45 || note == 46 || note == 49 || note == 51 || note == 57)
            ==> gm_drum_spec(note) == (Waveform::Sawtooth, GmDrumPitch::Other),
{
}

} // verus!
