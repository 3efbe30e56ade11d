use melody_bay::gm::{gm_drum, gm_voice, GmDrumPitch, GmEnvelope, GmFilter, GmVoice};
use melody_bay::sequencer::tempo_at;
use melody_bay::webaudio::Waveform;

#[test]
fn general_midi_voices() {
    assert_eq!(gm_voice(0), GmVoice { waveform: Waveform::Sine, envelope: GmEnvelope::Piano { soft: false }, filter: None });
    assert_eq!(gm_voice(9), GmVoice { waveform: Waveform::Triangle, envelope: GmEnvelope::Piano { soft: true }, filter: None });
    assert_eq!(
        gm_voice(19),
        GmVoice { waveform: Waveform::Square, envelope: GmEnvelope::Organ, filter: Some(GmFilter::Plain) }
    );
    assert_eq!(
        gm_voice(33),
        GmVoice { waveform: Waveform::Sawtooth, envelope: GmEnvelope::Plain, filter: Some(GmFilter::Bass) }
    );
    assert_eq!(
        gm_voice(48),
        GmVoice { waveform: Waveform::Triangle, envelope: GmEnvelope::Strings, filter: Some(GmFilter::Strings) }
    );
    assert_eq!(
        gm_voice(57),
        GmVoice { waveform: Waveform::Sine, envelope: GmEnvelope::Brass, filter: Some(GmFilter::Brass) }
    );
    assert_eq!(gm_voice(81).waveform, Waveform::Square);
    assert_eq!(gm_voice(127).waveform, Waveform::Sine);
}

#[test]
fn general_midi_drums() {
    assert_eq!(gm_drum(36), (Waveform::Sine, GmDrumPitch::Kick));
    assert_eq!(gm_drum(38), (Waveform::Triangle, GmDrumPitch::Snare));
    assert_eq!(gm_drum(42), (Waveform::Square, GmDrumPitch::HiHat));
    assert_eq!(gm_drum(49), (Waveform::Square, GmDrumPitch::Other));
    assert_eq!(gm_drum(41), (Waveform::Sine, GmDrumPitch::Other));
    assert_eq!(gm_drum(60), (Waveform::Sawtooth, GmDrumPitch::Other));
}

#[test]
fn tempo_maps_keep_one_entry_per_index_in_order() {
    let mut events: Vec<(u64, u32)> = Vec::new();
    tempo_at(&mut events, 96, 140);
    tempo_at(&mut events, 0, 120);
    tempo_at(&mut events, 48, 100);
    tempo_at(&mut events, 96, 150);
    assert_eq!(events, vec![(0, 120), (48, 100), (96, 150)]);
}
