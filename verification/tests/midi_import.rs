use melody_bay::lanes::{midi_lanes, MidiLane};
use melody_bay::import::{ImportError, ImportWarningKind, ImportedFormat};
use melody_bay::midi::{parse_midi_track, read_midi_file, MidiEvent, MidiEventKind};
use melody_bay::midi_song::{MidiAutomation, MidiControl, MidiImport, MidiNote, MidiTempo};
use melody_bay::sequencer::midi_track_id;

fn midi_file(format: u16, division: u16, tracks: &[Vec<u8>]) -> Vec<u8> {
    let mut bytes = vec![0x4d, 0x54, 0x68, 0x64, 0, 0, 0, 6];
    bytes.extend_from_slice(&format.to_be_bytes());
    bytes.extend_from_slice(&(tracks.len() as u16).to_be_bytes());
    bytes.extend_from_slice(&division.to_be_bytes());
    for track in tracks {
        bytes.extend_from_slice(&[0x4d, 0x54, 0x72, 0x6b]);
        bytes.extend_from_slice(&(track.len() as u32).to_be_bytes());
        bytes.extend_from_slice(track);
    }
    bytes
}

#[test]
fn running_status_repeats_the_last_status() {
    let mut order = 0usize;
    let mut events: Vec<MidiEvent> = Vec::new();
    let result = parse_midi_track(&[0x00, 0x90, 0x3c, 0x64, 0x10, 0x3c, 0x00], &mut order, &mut events);
    assert_eq!(result, Ok(()));
    assert_eq!(order, 2);
    assert_eq!(
        events,
        vec![
            MidiEvent { tick: 0, order: 0, kind: MidiEventKind::NoteOn { ch: 0, note: 60, vel: 100 } },
            MidiEvent { tick: 16, order: 1, kind: MidiEventKind::NoteOn { ch: 0, note: 60, vel: 0 } },
        ]
    );
}

#[test]
fn running_status_needs_a_status() {
    let mut order = 0usize;
    let mut events: Vec<MidiEvent> = Vec::new();
    let result = parse_midi_track(&[0x00, 0x3c, 0x40], &mut order, &mut events);
    assert_eq!(result, Err(ImportError::InvalidFormat("MIDI running status without prior status")));
}

#[test]
fn meta_events_become_text_and_tempo() {
    let track = vec![
        0x00, 0xff, 0x51, 0x03, 0x07, 0xa1, 0x20, 0x00, 0xff, 0x58, 0x04, 0x04, 0x02, 0x18, 0x08, 0x00, 0xff, 0x2f, 0x00,
    ];
    let mut order = 0usize;
    let mut events: Vec<MidiEvent> = Vec::new();
    assert_eq!(parse_midi_track(&track, &mut order, &mut events), Ok(()));
    assert_eq!(events.len(), 2);
    assert_eq!(events[0].kind, MidiEventKind::Tempo { micros_per_quarter: 500_000 });
    assert_eq!(events[1].kind, MidiEventKind::Text { kind: "time-signature", text: String::from("04021808") });
}

#[test]
fn a_note_and_its_metadata() {
    let track = vec![
        0x00, 0xff, 0x03, 0x04, b'S', b'o', b'n', b'g', 0x00, 0xff, 0x51, 0x03, 0x07, 0xa1, 0x20, 0x00, 0x90, 0x3c, 0x64,
        0x60, 0x80, 0x3c, 0x40, 0x00, 0xb0, 0x07, 0x64, 0x00, 0xff, 0x2f, 0x00,
    ];
    let song = MidiImport::from_bytes(&midi_file(0, 96, &[track])).unwrap();
    assert_eq!(song.ppq, 96);
    assert_eq!(song.title, Some(String::from("Song")));
    assert_eq!(song.composer, None);
    assert_eq!(song.tempos, vec![MidiTempo { tick: 0, micros_per_quarter: 500_000 }]);
    assert_eq!(
        song.notes,
        vec![MidiNote { ch: 0, program: 0, drum: None, note: 60, start: 0, duration: 96, velocity: 100 }]
    );
    assert_eq!(
        song.automation,
        vec![MidiAutomation { ch: 0, program: 0, tick: 96, control: MidiControl::Gain(100) }]
    );
    assert!(song.warnings.is_empty());
}

#[test]
fn pedal_drums_and_dropped_controllers() {
    let track = vec![
        0x00, 0xb9, 0x40, 0x7f, 0x00, 0x99, 0x24, 0x50, 0x10, 0x89, 0x24, 0x00, 0x10, 0xb9, 0x40, 0x00, 0x00, 0xb0,
        0x14, 0x05, 0x00, 0xd0, 0x10, 0x00, 0xff, 0x01, 0x05, b'h', b'e', b'l', b'l', b'o', 0x00, 0x90, 0x3e, 0x40,
    ];
    let song = MidiImport::from_bytes(&midi_file(0, 96, &[track])).unwrap();
    assert_eq!(
        song.notes,
        vec![
            MidiNote { ch: 9, program: 0, drum: Some(36), note: 36, start: 0, duration: 32, velocity: 80 },
            MidiNote { ch: 0, program: 0, drum: None, note: 62, start: 32, duration: 1, velocity: 64 },
        ]
    );
    let messages: Vec<&str> = song.warnings.iter().map(|w| w.message.as_str()).collect();
    assert_eq!(
        messages,
        vec![
            "dropped Midi controller or automation 20",
            "dropped Midi controller or automation channel-pressure channel 1",
            "unsupported Midi event text: hello",
        ]
    );
    assert_eq!(
        song.warnings[0].kind,
        ImportWarningKind::DroppedControllerOrAutomation { format: ImportedFormat::Midi, controller: String::from("20") }
    );
}

#[test]
fn pitch_bend_uses_the_registered_range() {
    let track = vec![
        0x00, 0xb0, 0x65, 0x00, 0x00, 0xb0, 0x64, 0x00, 0x00, 0xb0, 0x06, 0x0c, 0x00, 0xe0, 0x00, 0x60,
    ];
    let song = MidiImport::from_bytes(&midi_file(0, 96, &[track])).unwrap();
    assert_eq!(
        song.automation,
        vec![MidiAutomation { ch: 0, program: 0, tick: 0, control: MidiControl::PitchBend { value: 4096, range: 12 } }]
    );
}

#[test]
fn zero_tempo_is_refused() {
    let track = vec![0x00, 0xff, 0x51, 0x03, 0x00, 0x00, 0x00];
    let result = MidiImport::from_bytes(&midi_file(0, 96, &[track]));
    assert_eq!(result.err(), Some(ImportError::MalformedTiming("zero MIDI tempo")));
}

#[test]
fn smpte_division_warns() {
    let file = read_midi_file(&midi_file(2, 0xe728, &[vec![]])).unwrap();
    assert_eq!(file.ppq, 40);
    let messages: Vec<&str> = file.warnings.iter().map(|w| w.message.as_str()).collect();
    assert_eq!(
        messages,
        vec![
            "SMPTE MIDI time division imported on a ticks-per-frame grid",
            "MIDI format 2 independent sequence boundaries were flattened",
        ]
    );
}

#[test]
fn header_errors() {
    assert_eq!(
        MidiImport::from_bytes(b"not a midi file at all").err(),
        Some(ImportError::InvalidFormat("missing MIDI header"))
    );
    assert_eq!(
        MidiImport::from_bytes(&midi_file(3, 96, &[])).err(),
        Some(ImportError::UnsupportedFormatFeature("only MIDI format 0, 1, and 2 are supported"))
    );
    let mut missing_track = midi_file(0, 96, &[]);
    missing_track[11] = 1;
    assert_eq!(
        MidiImport::from_bytes(&missing_track).err(),
        Some(ImportError::InvalidFormat("missing MIDI track chunk"))
    );
}

#[test]
fn events_come_in_tick_order_across_tracks() {
    let first = vec![0x20, 0x90, 0x40, 0x40];
    let second = vec![0x10, 0x91, 0x41, 0x40];
    let file = read_midi_file(&midi_file(1, 96, &[first, second])).unwrap();
    let ticks: Vec<u64> = file.events.iter().map(|e| e.tick).collect();
    assert_eq!(ticks, vec![16, 32]);
    assert_eq!(file.events[0].order, 1);
}

#[test]
fn midi_lane_names() {
    assert_eq!(midi_track_id(0, 5, None).as_str(), "midi-ch01-program005");
    assert_eq!(midi_track_id(9, 0, Some(36)).as_str(), "midi-ch10-drum036");
}

#[test]
fn drum_keys_keep_one_lane_whatever_program_plays_them() {
    let drum = |program: u8, start: u64| MidiNote { ch: 9, program, drum: Some(36), note: 36, start, duration: 1, velocity: 100 };
    let piano = MidiNote { ch: 0, program: 0, drum: None, note: 60, start: 0, duration: 4, velocity: 90 };
    let notes = vec![drum(0, 0), piano, drum(5, 8)];
    let automation = vec![MidiAutomation { ch: 0, program: 0, tick: 2, control: MidiControl::Gain(10) },
        MidiAutomation { ch: 1, program: 3, tick: 2, control: MidiControl::Pan(64) }];
    let layout = midi_lanes(&notes, &automation);
    assert_eq!(
        layout.lanes,
        vec![
            MidiLane { ch: 9, program: 0, drum: Some(36) },
            MidiLane { ch: 0, program: 0, drum: None },
            MidiLane { ch: 1, program: 3, drum: None },
        ]
    );
    assert_eq!(layout.note_lanes, vec![0, 1, 0]);
    assert_eq!(layout.automation_lanes, vec![1, 2]);
    assert_eq!(layout.ids[0].as_str(), "midi-ch10-drum036");
    assert_eq!(layout.ids[2].as_str(), "midi-ch02-program003");
}
