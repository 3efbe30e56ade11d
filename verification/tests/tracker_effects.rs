use melody_bay::tracker_import::ModImport;
use melody_bay::tracker_play::{TrackKey, TrackerAutomation, TrackerControl, TrackerNote};

fn base_mod(song_len: u8) -> Vec<u8> {
    let mut bytes = vec![0u8; 1628];
    bytes[43] = 2;
    bytes[45] = 64;
    bytes[470] = song_len;
    bytes
}

fn set_cell(bytes: &mut [u8], row: usize, ch: usize, period: u16, instrument: u8, effect: u8, param: u8) {
    let at = 600 + (row * 4 + ch) * 4;
    bytes[at] = (instrument & 0xf0) | ((period >> 8) as u8 & 0x0f);
    bytes[at + 1] = (period & 0xff) as u8;
    bytes[at + 2] = ((instrument & 0x0f) << 4) | (effect & 0x0f);
    bytes[at + 3] = param;
}

fn key() -> TrackKey {
    TrackKey { channel: 0, instrument: 1, sample_slot: 0, sample_offset: 0 }
}

#[test]
fn volume_slide_curves_down_by_ticks() {
    let mut bytes = base_mod(1);
    set_cell(&mut bytes, 0, 0, 428, 1, 0x0a, 0x02);
    let song = ModImport::from_bytes(&bytes).unwrap();
    assert_eq!(
        song.song.automation,
        vec![
            TrackerAutomation { key: key(), index: 0, control: TrackerControl::RateCorrection { note: 60, period: 428 } },
            TrackerAutomation { key: key(), index: 0, control: TrackerControl::VolumeCurve(vec![64, 62, 60, 58, 56, 54]) },
        ]
    );
}

#[test]
fn retrigger_restarts_the_note() {
    let mut bytes = base_mod(1);
    set_cell(&mut bytes, 0, 0, 428, 1, 0x0e, 0x93);
    let song = ModImport::from_bytes(&bytes).unwrap();
    assert_eq!(
        song.song.notes,
        vec![
            TrackerNote { key: key(), start: 0, duration: 3, note: 60, velocity: 64 },
            TrackerNote { key: key(), start: 3, duration: 381, note: 60, velocity: 64 },
        ]
    );
}

#[test]
fn note_delay_starts_later() {
    let mut bytes = base_mod(1);
    set_cell(&mut bytes, 0, 0, 428, 1, 0x0e, 0xd2);
    let song = ModImport::from_bytes(&bytes).unwrap();
    assert_eq!(song.song.notes, vec![TrackerNote { key: key(), start: 2, duration: 382, note: 60, velocity: 64 }]);
    assert_eq!(song.song.automation[0].index, 2);
}

#[test]
fn pattern_break_skips_rows() {
    let mut bytes = base_mod(2);
    set_cell(&mut bytes, 0, 0, 428, 1, 0, 0);
    set_cell(&mut bytes, 0, 1, 0, 0, 0x0d, 0x10);
    let song = ModImport::from_bytes(&bytes).unwrap();
    assert_eq!(song.song.end_tick, 330);
    assert_eq!(song.song.notes, vec![TrackerNote { key: key(), start: 0, duration: 330, note: 60, velocity: 64 }]);
}

#[test]
fn position_jumps_stop_after_the_guard() {
    let mut bytes = base_mod(1);
    set_cell(&mut bytes, 0, 0, 428, 1, 0x0b, 0x00);
    let song = ModImport::from_bytes(&bytes).unwrap();
    assert_eq!(song.song.end_tick, 1536);
    assert_eq!(song.song.notes.len(), 256);
    assert_eq!(song.song.notes[255], TrackerNote { key: key(), start: 1530, duration: 6, note: 60, velocity: 64 });
}

#[test]
fn key_off_ends_the_note() {
    let mut bytes = base_mod(1);
    set_cell(&mut bytes, 0, 0, 428, 1, 0, 0);
    set_cell(&mut bytes, 1, 0, 0, 0, 0x0e, 0xc0);
    let song = ModImport::from_bytes(&bytes).unwrap();
    assert_eq!(song.song.notes, vec![TrackerNote { key: key(), start: 0, duration: 6, note: 60, velocity: 64 }]);
}

#[test]
fn period_slide_down_keeps_the_period() {
    let mut bytes = base_mod(1);
    set_cell(&mut bytes, 0, 0, 428, 1, 0x01, 0x10);
    let song = ModImport::from_bytes(&bytes).unwrap();
    assert_eq!(
        song.song.automation[1],
        TrackerAutomation {
            key: key(),
            index: 0,
            control: TrackerControl::PeriodCurve {
                base: 428,
                periods: vec![428, 412, 396, 380, 364, 348],
                correction: Some((60, 428)),
            },
        }
    );
}

#[test]
fn arpeggio_and_rate_reset() {
    let mut bytes = base_mod(1);
    set_cell(&mut bytes, 0, 0, 428, 1, 0x00, 0x37);
    let song = ModImport::from_bytes(&bytes).unwrap();
    assert_eq!(
        song.song.automation,
        vec![
            TrackerAutomation { key: key(), index: 0, control: TrackerControl::RateCorrection { note: 60, period: 428 } },
            TrackerAutomation {
                key: key(),
                index: 0,
                control: TrackerControl::Arpeggio { x: 3, y: 7, ticks: 6, correction: Some((60, 428)) },
            },
            TrackerAutomation { key: key(), index: 6, control: TrackerControl::RateReset { correction: Some((60, 428)) } },
        ]
    );
}

#[test]
fn note_without_instrument_warns() {
    let mut bytes = base_mod(1);
    set_cell(&mut bytes, 0, 0, 428, 0, 0, 0);
    let song = ModImport::from_bytes(&bytes).unwrap();
    assert!(song.song.notes.is_empty());
    assert_eq!(song.song.warnings.len(), 1);
    assert_eq!(song.song.warnings[0].message, "MOD note without valid instrument");
}
