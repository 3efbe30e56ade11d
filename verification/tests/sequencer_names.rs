use melody_bay::params::{named_sequencer_param, sequencer_param_target, ParamKind};
use melody_bay::sequencer::{InstrumentId, Note, SequenceMetadata, TrackId};

#[test]
fn notes_clamp_to_the_midi_range() {
    assert_eq!(Note::from_midi(200).midi_number(), 127);
    assert_eq!(Note::from_midi(60).midi_number(), 60);
    let n = Note::from_midi(64);
    assert_eq!(Note::from_midi(n.midi_number()), n);
}

#[test]
fn note_names() {
    assert_eq!(Note::from_midi(60).name(), "C4");
    assert_eq!(Note::from_midi(61).name(), "C#4");
    assert_eq!(Note::from_midi(69).name(), "A4");
    assert_eq!(Note::from_midi(0).name(), "C-1");
    assert_eq!(Note::from_midi(11).name(), "B-1");
    assert_eq!(Note::from_midi(127).name(), "G9");
}

#[test]
fn ids_and_metadata() {
    assert_eq!(TrackId::named(String::from("lead")).as_str(), "lead");
    assert_eq!(InstrumentId::named(String::from("piano")).as_str(), "piano");
    let m = SequenceMetadata::new();
    assert_eq!(m.title, None);
    let m = m.title(String::from("Song")).composer(String::from("Me"));
    assert_eq!(m.title, Some(String::from("Song")));
    assert_eq!(m.composer, Some(String::from("Me")));
}

#[test]
fn parameter_names() {
    assert_eq!(named_sequencer_param("gain"), Some(ParamKind::Gain));
    assert_eq!(named_sequencer_param("playback_rate"), Some(ParamKind::PlaybackRate));
    assert_eq!(named_sequencer_param("playbackRate"), Some(ParamKind::PlaybackRate));
    assert_eq!(named_sequencer_param("Q"), Some(ParamKind::Q));
    assert_eq!(named_sequencer_param("volume"), None);
}

#[test]
fn parameter_targets() {
    let t = sequencer_param_target("lead.gain#2").unwrap();
    assert_eq!(t.label, Some("lead"));
    assert_eq!(t.param, ParamKind::Gain);
    assert_eq!(t.index, Some(2));
    assert!(t.matches_label(Some("lead")));
    assert!(!t.matches_label(Some("bass")));
    assert!(!t.matches_label(None));
    let plain = sequencer_param_target("pan").unwrap();
    assert_eq!(plain.label, None);
    assert_eq!(plain.index, None);
    assert!(plain.matches_label(None));
    assert!(plain.matches_label(Some("x")));
    assert_eq!(sequencer_param_target("gain#+3").unwrap().index, Some(3));
    assert!(sequencer_param_target("#1").is_none());
    assert!(sequencer_param_target("gain#x").is_none());
    assert!(sequencer_param_target("gain#").is_none());
    assert!(sequencer_param_target("a.").is_none());
    assert!(sequencer_param_target(".gain").is_none());
    assert!(sequencer_param_target("a.b.gain").is_none());
    assert!(sequencer_param_target("lead.volume").is_none());
    assert_eq!(sequencer_param_target("x.detune#7#9").map(|t| t.index), None);
}
