use melody_bay::lanes::tracker_sequence;
use melody_bay::import::{ImportError, ImportedFormat};
use melody_bay::sequencer::tracker_track_id;
use melody_bay::tracker::{
    handle_tracker_effects, mod_period_to_midi, parse_mod_cell, tracker_pattern_break_row, xm_note_to_midi,
    xm_volume_level, xm_volume_pan, TrackerCell, TrackerTiming,
};
use melody_bay::tracker_import::{ModImport, XmImport};
use melody_bay::tracker_play::{TrackKey, TrackerAutomation, TrackerControl, TrackerNote};
use melody_bay::xm_file::parse_xm_pattern;

fn cell(effect: u8, effect_param: u8) -> TrackerCell {
    TrackerCell {
        note: None,
        period: None,
        instrument: 0,
        volume: None,
        pan: None,
        effect,
        effect_param,
        key_off: false,
    }
}

fn mod_file(note_period: u16) -> Vec<u8> {
    let mut bytes = vec![0u8; 1628];
    bytes[0..4].copy_from_slice(b"Test");
    bytes[42] = 0;
    bytes[43] = 2;
    bytes[45] = 64;
    bytes[49] = 1;
    bytes[470] = 1;
    bytes[600] = (note_period >> 8) as u8;
    bytes[601] = (note_period & 0xff) as u8;
    bytes[602] = 0x10;
    bytes[1624..1628].copy_from_slice(&[0x00, 0x40, 0x80, 0xff]);
    bytes
}

fn xm_file(with_sample: bool) -> Vec<u8> {
    let mut bytes = Vec::new();
    bytes.extend_from_slice(b"Extended Module: ");
    let mut title = [0u8; 20];
    title[..7].copy_from_slice(b"XM Test");
    bytes.extend_from_slice(&title);
    bytes.push(0x1a);
    bytes.extend_from_slice(&[0u8; 20]);
    bytes.extend_from_slice(&[0x04, 0x01]);
    bytes.extend_from_slice(&276u32.to_le_bytes());
    for v in [1u16, 0, 1, 1, 1, 0, 6, 125] {
        bytes.extend_from_slice(&v.to_le_bytes());
    }
    bytes.extend_from_slice(&[0u8; 256]);
    assert_eq!(bytes.len(), 336);
    bytes.extend_from_slice(&9u32.to_le_bytes());
    bytes.push(0);
    bytes.extend_from_slice(&1u16.to_le_bytes());
    bytes.extend_from_slice(&5u16.to_le_bytes());
    bytes.extend_from_slice(&[49, 1, 0x50, 0, 0]);
    if with_sample {
        let start = bytes.len();
        bytes.extend_from_slice(&263u32.to_le_bytes());
        bytes.extend_from_slice(&[0u8; 23]);
        bytes.extend_from_slice(&1u16.to_le_bytes());
        bytes.extend_from_slice(&40u32.to_le_bytes());
        bytes.resize(start + 263, 0);
        bytes.extend_from_slice(&2u32.to_le_bytes());
        bytes.extend_from_slice(&0u32.to_le_bytes());
        bytes.extend_from_slice(&0u32.to_le_bytes());
        bytes.extend_from_slice(&[64, 0, 0, 128, 0, 0]);
        bytes.extend_from_slice(&[0u8; 22]);
        bytes.extend_from_slice(&[10, 5]);
    } else {
        let start = bytes.len();
        bytes.extend_from_slice(&29u32.to_le_bytes());
        bytes.resize(start + 29, 0);
    }
    bytes
}

#[test]
fn periods_map_to_the_closest_note() {
    assert_eq!(mod_period_to_midi(0), None);
    assert_eq!(mod_period_to_midi(428), Some(60));
    assert_eq!(mod_period_to_midi(1712), Some(36));
    assert_eq!(mod_period_to_midi(113), Some(83));
    assert_eq!(mod_period_to_midi(416), Some(60));
    assert_eq!(mod_period_to_midi(3000), Some(36));
}

#[test]
fn xm_note_and_volume_columns() {
    assert_eq!(xm_note_to_midi(0), None);
    assert_eq!(xm_note_to_midi(1), Some(12));
    assert_eq!(xm_note_to_midi(96), Some(107));
    assert_eq!(xm_note_to_midi(97), None);
    assert_eq!(xm_volume_level(0x50), Some(64));
    assert_eq!(xm_volume_level(0x60), None);
    assert_eq!(xm_volume_pan(0xcf), Some(15));
    assert_eq!(xm_volume_pan(0x50), None);
}

#[test]
fn pattern_breaks_read_decimal_digits() {
    assert_eq!(tracker_pattern_break_row(0x25), 25);
    assert_eq!(tracker_pattern_break_row(0xff), 99);
    assert_eq!(tracker_pattern_break_row(0x0a), 9);
}

#[test]
fn mod_cells_split_their_nibbles() {
    let c = parse_mod_cell(&[0x11, 0xac, 0x2c, 0x40]);
    assert_eq!(c.period, Some(428));
    assert_eq!(c.note, Some(60));
    assert_eq!(c.instrument, 18);
    assert_eq!(c.effect, 0x0c);
    assert_eq!(c.effect_param, 0x40);
    assert!(!c.key_off);
    let off = parse_mod_cell(&[0x00, 0x00, 0x0e, 0xc3]);
    assert_eq!(off.note, None);
    assert!(off.key_off);
}

#[test]
fn timing_effects_and_warnings() {
    let timing = TrackerTiming { speed: 6, bpm: 125 };
    let (t, changed, warning) = handle_tracker_effects(ImportedFormat::Mod, timing, cell(0x0f, 3));
    assert_eq!((t, changed), (TrackerTiming { speed: 3, bpm: 125 }, true));
    assert!(warning.is_none());
    let (t, changed, _) = handle_tracker_effects(ImportedFormat::Mod, timing, cell(0x0f, 140));
    assert_eq!((t, changed), (TrackerTiming { speed: 6, bpm: 140 }, true));
    let (_, changed, warning) = handle_tracker_effects(ImportedFormat::Mod, timing, cell(0x0e, 0x50));
    assert!(!changed);
    assert_eq!(warning.unwrap().message, "unsupported Mod effect e50");
    let (_, _, warning) = handle_tracker_effects(ImportedFormat::Xm, timing, cell(0x10, 0x00));
    assert_eq!(warning.unwrap().message, "unsupported Xm effect 1000");
    let (_, _, warning) = handle_tracker_effects(ImportedFormat::Xm, timing, cell(0x0e, 0x90));
    assert!(warning.is_none());
}

#[test]
fn xm_packed_cells() {
    let rows = parse_xm_pattern(&[0x83, 49, 2, 0x80, 0x61], 2, 1).unwrap();
    assert_eq!(rows.len(), 2);
    assert_eq!(rows[0][0].note, Some(60));
    assert_eq!(rows[0][0].instrument, 2);
    assert_eq!(rows[1][0].note, None);
    assert_eq!(rows[1][0].key_off, false);
    assert_eq!(
        parse_xm_pattern(&[0x83, 49], 1, 1).err(),
        Some(ImportError::InvalidFormat("unexpected end of data"))
    );
}

#[test]
fn a_mod_note_plays_to_the_end_of_the_song() {
    let song = ModImport::from_bytes(&mod_file(428)).unwrap();
    assert_eq!(song.layout.title, "Test");
    assert_eq!(song.layout.channels, 4);
    assert_eq!(song.layout.samples.len(), 15);
    assert_eq!(song.layout.samples[0].length, 4);
    assert_eq!(song.layout.samples[0].volume, 64);
    assert_eq!(song.layout.samples[0].loop_len, 0);
    assert_eq!(song.layout.samples[0].data, vec![0, 64, -128, -1]);
    assert_eq!(song.layout.song_len, 1);
    assert_eq!(song.layout.patterns.len(), 1);
    let key = TrackKey { channel: 0, instrument: 1, sample_slot: 0, sample_offset: 0 };
    assert_eq!(song.song.tempos, vec![(0, 125)]);
    assert_eq!(song.song.notes, vec![TrackerNote { key, start: 0, duration: 384, note: 60, velocity: 64 }]);
    assert_eq!(
        song.song.automation,
        vec![TrackerAutomation { key, index: 0, control: TrackerControl::RateCorrection { note: 60, period: 428 } }]
    );
    assert!(song.song.warnings.is_empty());
    assert_eq!(song.song.end_tick, 384);
}

#[test]
fn mod_errors() {
    assert_eq!(ModImport::from_bytes(&[0u8; 100]).err(), Some(ImportError::InvalidFormat("truncated MOD header")));
    let mut short = mod_file(428);
    short.truncate(1626);
    assert_eq!(
        ModImport::from_bytes(&short).err(),
        Some(ImportError::MalformedSampleData("truncated MOD sample data"))
    );
}

#[test]
fn an_xm_note_on_its_sample() {
    let song = XmImport::from_bytes(&xm_file(true)).unwrap();
    assert_eq!(song.layout.title, "XM Test");
    assert_eq!(song.layout.channels, 1);
    assert_eq!(song.layout.speed, 6);
    assert_eq!(song.layout.bpm, 125);
    assert_eq!(song.layout.instruments.len(), 1);
    let sample = &song.layout.instruments[0].samples[0];
    assert_eq!(sample.data, vec![10, 15]);
    assert_eq!(sample.pan, Some(128));
    assert_eq!(sample.volume, 64);
    let key = TrackKey { channel: 0, instrument: 1, sample_slot: 0, sample_offset: 0 };
    assert_eq!(song.song.notes, vec![TrackerNote { key, start: 0, duration: 6, note: 60, velocity: 64 }]);
    assert!(song.song.automation.is_empty());
    assert_eq!(song.song.end_tick, 6);
}

#[test]
fn xm_instrument_without_samples_is_refused() {
    assert_eq!(
        XmImport::from_bytes(&xm_file(false)).err(),
        Some(ImportError::MalformedSampleData("XM instrument has no sample data"))
    );
    let mut bad = xm_file(true);
    bad[37] = 0;
    assert_eq!(XmImport::from_bytes(&bad).err(), Some(ImportError::InvalidFormat("missing XM header")));
}

#[test]
fn tracker_track_names() {
    let key = TrackKey { channel: 1, instrument: 3, sample_slot: 2, sample_offset: 512 };
    assert_eq!(tracker_track_id(ImportedFormat::Mod, key).as_str(), "mod-ch02-inst03-off000512");
    assert_eq!(tracker_track_id(ImportedFormat::Xm, key).as_str(), "xm-ch02-inst03-samp03-off000512");
    let plain = TrackKey { channel: 0, instrument: 1, sample_slot: 0, sample_offset: 0 };
    assert_eq!(tracker_track_id(ImportedFormat::Xm, plain).as_str(), "xm-ch01-inst01");
}

#[test]
fn an_xm_order_table_cut_short_is_refused() {
    let mut bytes = xm_file(true);
    bytes.truncate(80);
    bytes[60..64].copy_from_slice(&20u32.to_le_bytes());
    assert_eq!(XmImport::from_bytes(&bytes).err(), Some(ImportError::InvalidFormat("truncated XM order table")));
    bytes.truncate(79);
    assert_eq!(XmImport::from_bytes(&bytes).err(), Some(ImportError::InvalidFormat("missing XM header")));
}

#[test]
fn an_xm_song_longer_than_its_order_table_is_refused_when_play_reaches_its_end() {
    let mut bytes = xm_file(true);
    bytes[64..66].copy_from_slice(&300u16.to_le_bytes());
    assert_eq!(
        XmImport::from_bytes(&bytes).err(),
        Some(ImportError::InvalidFormat("song position past the order table"))
    );
    bytes[64..66].copy_from_slice(&256u16.to_le_bytes());
    let song = XmImport::from_bytes(&bytes).unwrap();
    assert_eq!(song.song.end_tick, 256 * 6);
}

#[test]
fn a_mod_sequence_is_laid_out_on_24_steps_per_beat() {
    let song = ModImport::from_bytes(&mod_file(428)).unwrap();
    let layout = tracker_sequence(ImportedFormat::Mod, song.layout.title.clone(), &song.song.notes, &song.song.automation);
    assert_eq!(layout.source_format, ImportedFormat::Mod);
    assert_eq!(layout.steps_per_beat, 24);
    assert_eq!(layout.metadata.title, Some(song.layout.title.clone()));
    assert_eq!(layout.metadata.composer, None);
    assert_eq!(layout.keys.len(), 1);
    assert_eq!(layout.ids[0].as_str(), "mod-ch01-inst01");
    assert_eq!(layout.note_lanes, vec![0; song.song.notes.len()]);
    assert_eq!(layout.automation_lanes, vec![Some(0)]);
}
