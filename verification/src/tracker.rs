use vstd::prelude::*;
use vstd::string::*;

use crate::import::{effect_warning, ImportWarning, ImportedFormat, WarningView};
use crate::text::{hexadecimal, padded_hex, zero_padded};

verus! {

/// One cell of a tracker pattern, with its values as the file stores them.
/// `volume` is a note volume in 64ths (0 to 64) and `pan` a pan step from 0
/// (left) to 15 (right); both come only from XM volume columns.
#[derive(Debug, Clone, Copy, PartialEq, Eq)]
pub struct TrackerCell {
    pub note: Option<u8>,
    pub period: Option<u16>,
    pub instrument: usize,
    pub volume: Option<u8>,
    pub pan: Option<u8>,
    pub effect: u8,
    pub effect_param: u8,
    pub key_off: bool,
}

/// Ticks per row and beats per minute of a tracker song.
#[derive(Debug, Clone, Copy, PartialEq, Eq)]
pub struct TrackerTiming {
    pub speed: u32,
    pub bpm: u32,
}

/// The Amiga periods of the notes from MIDI note 36 up, one semitone apart.
pub open spec fn mod_periods() -> Seq<u16> {
    seq![
        1712u16, 1616, 1524, 1440, 1356, 1280, 1208, 1140, 1076, 1016, 960, 906,
        856, 808, 762, 720, 678, 640, 604, 570, 538, 508, 480, 453,
        428, 404, 381, 360, 339, 320, 302, 285, 269, 254, 240, 226,
        214, 202, 190, 180, 170, 160, 151, 143, 135, 127, 120, 113,
    ]
}

/// How far apart two periods are.
pub open spec fn period_distance(a: u16, b: u16) -> int {
    if a >= b { a - b } else { b - a }
}

/// Entry `j` of the period table is the first of those closest to `period`.
pub open spec fn first_closest(period: u16, j: int) -> bool {
    &&& 0 <= j < 48
    &&& forall|k: int| 0 <= k < 48 ==> period_distance(mod_periods()[j], period) <= #[trigger] period_distance(mod_periods()[k], period)
    &&& forall|k: int| 0 <= k < j ==> period_distance(mod_periods()[j], period) < #[trigger] period_distance(mod_periods()[k], period)
}

/// The MIDI note of an Amiga period: the note of the closest period in the
/// table, on a tie the first in the table (the lower-pitched note, since
/// periods fall as pitch rises); no note for period 0.
pub fn mod_period_to_midi(period: u16) -> (r: Option<u8>)
    ensures
        period == 0 ==> r is None,
        period > 0 ==> exists|j: int| #[trigger] first_closest(period, j) && r == Some((36 + j) as u8),
{
    if period == 0 {
        return None;
    }
    let table: [u16; 48] = [
        1712, 1616, 1524, 1440, 1356, 1280, 1208, 1140, 1076, 1016, 960, 906,
        856, 808, 762, 720, 678, 640, 604, 570, 538, 508, 480, 453,
        428, 404, 381, 360, 339, 320, 302, 285, 269, 254, 240, 226,
        214, 202, 190, 180, 170, 160, 151, 143, 135, 127, 120, 113,
    ];
    assert(table@ =~= mod_periods());
    let mut best: usize = 0;
    let mut best_distance: u16 = if table[0] >= period { table[0] - period } else { period - table[0] };
    let mut k: usize = 1;
    while k < 48
        invariant
            table@ == mod_periods(),
            1 <= k <= 48,
            best < k,
            best_distance == period_distance(mod_periods()[best as int], period),
            forall|i: int| 0 <= i < k ==> best_distance <= #[trigger] period_distance(mod_periods()[i], period),
            forall|i: int| 0 <= i < best ==> best_distance < #[trigger] period_distance(mod_periods()[i], period),
        decreases 48 - k,
    {
        let d: u16 = if table[k] >= period { table[k] - period } else { period - table[k] };
        if d < best_distance {
            best = k;
            best_distance = d;
        }
        k = k + 1;
    }
    assert(first_closest(period, best as int));
    Some(36 + best as u8)
}

/// The MIDI note of an XM note number: notes 1 to 96 lie eleven below.
pub fn xm_note_to_midi(note: u8) -> (r: Option<u8>)
    ensures
        r == (if 1 <= note <= 96 { Some((note + 11) as u8) } else { None::<u8> }),
{
    if 1 <= note && note <= 96 {
        Some(note + 11)
    } else {
        None
    }
}

/// The note volume of an XM volume-column byte, in 64ths: bytes 0x10 to
/// 0x50 set it.
pub fn xm_volume_level(volume: u8) -> (r: Option<u8>)
    ensures
        r == (if 0x10 <= volume <= 0x50 { Some((volume - 0x10) as u8) } else { None::<u8> }),
{
    if 0x10 <= volume && volume <= 0x50 {
        Some(volume - 0x10)
    } else {
        None
    }
}

/// The pan step of an XM volume-column byte: bytes 0xc0 to 0xcf set it.
pub fn xm_volume_pan(volume: u8) -> (r: Option<u8>)
    ensures
        r == (if 0xc0 <= volume <= 0xcf { Some((volume - 0xc0) as u8) } else { None::<u8> }),
{
    if 0xc0 <= volume && volume <= 0xcf {
        Some(volume - 0xc0)
    } else {
        None
    }
}

/// The row a pattern break jumps to: the parameter read as two decimal
/// digits, each at most 9.
pub fn tracker_pattern_break_row(param: u8) -> (r: usize)
    ensures
        r == (if param / 16 > 9 { 9 } else { param / 16 }) * 10 + (if param % 16 > 9 { 9 } else { param % 16 }),
        r <= 99,
{
    let high = param / 16;
    let low = param % 16;
    let tens: usize = if high > 9 { 9 } else { high as usize };
    let ones: usize = if low > 9 { 9 } else { low as usize };
    tens * 10 + ones
}

/// The cell that four bytes of a MOD pattern hold: a 12-bit period, an
/// instrument split over two nibbles, an effect and its parameter.
pub open spec fn mod_cell(b: Seq<u8>) -> TrackerCell {
    let period = ((b[0] % 16) * 256 + b[1]) as u16;
    TrackerCell {
        note: if period == 0 { None } else { Some((36 + choose|j: int| first_closest(period, j)) as u8) },
        period: if period > 0 { Some(period) } else { None },
        instrument: ((b[0] / 16) * 16 + b[2] / 16) as usize,
        volume: None,
        pan: None,
        effect: b[2] % 16,
        effect_param: b[3],
        key_off: b[2] % 16 == 0x0e && b[3] / 16 == 0x0c,
    }
}

proof fn lemma_first_closest_unique(period: u16, a: int, b: int)
    requires
        first_closest(period, a),
        first_closest(period, b),
    ensures
        a == b,
{
    if a < b {
        assert(period_distance(mod_periods()[a], period) >= period_distance(mod_periods()[b], period));
    } else if b < a {
        assert(period_distance(mod_periods()[b], period) >= period_distance(mod_periods()[a], period));
    }
}

/// Reads a MOD pattern cell from its four bytes.
pub fn parse_mod_cell(bytes: &[u8]) -> (r: TrackerCell)
    requires
        bytes@.len() >= 4,
    ensures
        r == mod_cell(bytes@),
{
    let b0 = bytes[0];
    let b1 = bytes[1];
    let b2 = bytes[2];
    let b3 = bytes[3];
    let period: u16 = (b0 % 16) as u16 * 256 + b1 as u16;
    let instrument: usize = (b0 / 16) as usize * 16 + (b2 / 16) as usize;
    let effect = b2 % 16;
    let note = mod_period_to_midi(period);
    proof {
        if period > 0 {
            let j = choose|j: int| #[trigger] first_closest(period, j) && note == Some((36 + j) as u8);
            lemma_first_closest_unique(period, j, choose|j: int| first_closest(period, j));
        }
    }
    TrackerCell {
        note,
        period: if period > 0 { Some(period) } else { None },
        instrument,
        volume: None,
        pan: None,
        effect,
        effect_param: b3,
        key_off: effect == 0x0e && b3 / 16 == 0x0c,
    }
}

/// The sub-command and value of an extended (0xE) effect.
pub fn mod_extended_effect(cell: TrackerCell) -> (r: Option<(u8, u8)>)
    ensures
        r == (if cell.effect == 0x0e { Some((cell.effect_param / 16, cell.effect_param % 16)) } else { None::<(u8, u8)> }),
{
    if cell.effect == 0x0e {
        Some((cell.effect_param / 16, cell.effect_param % 16))
    } else {
        None
    }
}

/// How many ticks a note delay (EDx) holds a note back: `x`, at most one
/// less than the speed.
pub fn mod_note_delay_ticks(cell: TrackerCell, timing: TrackerTiming) -> (r: u8)
    ensures
        r == (if cell.effect == 0x0e && cell.effect_param / 16 == 0x0d {
            let last = if timing.speed == 0 { 0 } else { timing.speed - 1 };
            if (cell.effect_param % 16) as int <= last { cell.effect_param % 16 } else { last as u8 }
        } else {
            0
        }),
{
    match mod_extended_effect(cell) {
        Some((0x0d, ticks)) => {
            let last: u32 = if timing.speed == 0 { 0 } else { timing.speed - 1 };
            if (ticks as u32) <= last { ticks } else { last as u8 }
        },
        _ => 0,
    }
}

/// Every how many ticks a retrigger (E9x) restarts the note, for `x` above
/// zero.
pub fn mod_retrigger_ticks(cell: TrackerCell) -> (r: Option<u8>)
    ensures
        r == (if cell.effect == 0x0e && cell.effect_param / 16 == 0x09 && cell.effect_param % 16 > 0 {
            Some(cell.effect_param % 16)
        } else {
            None::<u8>
        }),
{
    match mod_extended_effect(cell) {
        Some((0x09, ticks)) => if ticks > 0 { Some(ticks) } else { None },
        _ => None,
    }
}

/// The frame a sample offset effect (9xx) starts a note at: `xx` times 256
/// bytes, counted in frames of the sample, and at most its length.
pub fn tracker_sample_offset_frames(cell: TrackerCell, is_16_bit: bool, frames: usize) -> (r: usize)
    ensures
        r == (if cell.effect != 0x09 || cell.effect_param == 0 {
            0
        } else {
            let offset = if is_16_bit { cell.effect_param * 256 / 2 } else { cell.effect_param * 256 };
            if offset <= frames { offset } else { frames as int }
        }),
{
    if cell.effect != 0x09 || cell.effect_param == 0 {
        return 0;
    }
    let bytes: usize = cell.effect_param as usize * 256;
    let offset = if is_16_bit { bytes / 2 } else { bytes };
    if offset <= frames { offset } else { frames }
}

/// What an effect does to the timing: speed for Fxx up to 32, tempo above;
/// and whether it starts a new tempo.
pub open spec fn effect_timing(timing: TrackerTiming, cell: TrackerCell) -> (TrackerTiming, bool) {
    if cell.effect == 0x0f && cell.effect_param > 0 {
        if cell.effect_param <= 32 {
            (TrackerTiming { speed: cell.effect_param as u32, ..timing }, true)
        } else {
            (TrackerTiming { bpm: cell.effect_param as u32, ..timing }, true)
        }
    } else {
        (timing, false)
    }
}

/// Whether an effect command is one the import carries out or ignores on
/// purpose; the others are warned about.
pub open spec fn effect_supported(cell: TrackerCell) -> bool {
    ||| cell.effect <= 0x0d
    ||| cell.effect == 0x0f
    ||| (cell.effect == 0x0e && (cell.effect_param / 16 == 0x09 || cell.effect_param / 16 == 0x0c
        || cell.effect_param / 16 == 0x0d))
}

/// The warning for an unsupported effect: its command and parameter in
/// hexadecimal, as `{:x}{:02x}` writes them.
pub open spec fn effect_code(cell: TrackerCell) -> Seq<char> {
    hexadecimal(cell.effect as nat) + zero_padded(hexadecimal(cell.effect_param as nat), 2)
}

/// The warning an effect gives, if any.
pub open spec fn effect_warning_of(format: ImportedFormat, cell: TrackerCell) -> Option<WarningView> {
    if effect_supported(cell) { None } else { Some(effect_warning(format, effect_code(cell))) }
}

/// Reads the timing effects of a cell (Fxx sets the speed up to 32 and the
/// tempo above) and warns about effects the import does not carry out.
/// Returns the new timing, whether a tempo change starts at this row, and the
/// warning.
pub fn handle_tracker_effects(format: ImportedFormat, timing: TrackerTiming, cell: TrackerCell)
    -> (r: (TrackerTiming, bool, Option<ImportWarning>))
    ensures
        (r.0, r.1) == effect_timing(timing, cell),
        match effect_warning_of(format, cell) {
            Some(w) => r.2 matches Some(x) && x@ == w,
            None => r.2 is None,
        },
{
    if cell.effect == 0x0f && cell.effect_param > 0 {
        let timing = if cell.effect_param <= 32 {
            TrackerTiming { speed: cell.effect_param as u32, ..timing }
        } else {
            TrackerTiming { bpm: cell.effect_param as u32, ..timing }
        };
        return (timing, true, None);
    }
    let high = cell.effect_param / 16;
    if cell.effect <= 0x0d || cell.effect == 0x0f || (cell.effect == 0x0e && (high == 0x09 || high == 0x0c
        || high == 0x0d)) {
        return (timing, false, None);
    }
    let mut code = padded_hex(cell.effect as u64, 0);
    let param = padded_hex(cell.effect_param as u64, 2);
    code.append(param.as_str());
    (timing, false, Some(ImportWarning::unsupported_effect(format, code)))
}

/// The four bytes of a MOD cell: the high nibble of the first byte and of
/// the third make the instrument; the low nibble of the first byte and the
/// second byte make the 12-bit period; the low nibble of the third byte is
/// the effect and the fourth byte its parameter. Effect ECx cuts the note.
pub proof fn law_mod_cell_layout(b: Seq<u8>)
    requires
        b.len() >= 4,
    ensures
        mod_cell(b).instrument / 16 == b[0] / 16,
        mod_cell(b).instrument % 16 == b[2] / 16,
        mod_cell(b).instrument < 256,
        (b[0] % 16 == 0 && b[1] == 0) <==> mod_cell(b).period is None,
        mod_cell(b).period matches Some(p) ==> (p / 256 == b[0] % 16 && p % 256 == b[1]),
        mod_cell(b).effect == b[2] % 16,
        mod_cell(b).effect_param == b[3],
        mod_cell(b).key_off <==> (b[2] % 16 == 0x0e && b[3] / 16 == 0x0c),
        mod_cell(b).volume is None && mod_cell(b).pan is None,
{
    let p = (b[0] % 16) * 256 + b[1];
    assert(p / 256 == b[0] % 16 && p % 256 == b[1]) by (nonlinear_arith)
        requires p == (b[0] % 16) * 256 + b[1], 0 <= b[1] < 256, 0 <= b[0] % 16 < 16;
    let ins = (b[0] / 16) * 16 + b[2] / 16;
    assert(ins / 16 == b[0] / 16 && ins % 16 == b[2] / 16 && ins < 256) by (nonlinear_arith)
        requires ins == (b[0] / 16) * 16 + b[2] / 16, 0 <= b[0] < 256, 0 <= b[2] < 256;
}

/// Effect Fxx sets the speed in ticks per row for parameters 1 to 32 and
/// the tempo in beats per minute above 32, and starts a new tempo either
/// way; F00 and every other effect leave the timing alone.
pub proof fn law_speed_and_tempo(timing: TrackerTiming, cell: TrackerCell)
    ensures
        cell.effect == 0x0f && 1 <= cell.effect_param <= 32 ==> effect_timing(timing, cell).0.speed == cell.effect_param
            && effect_timing(timing, cell).0.bpm == timing.bpm && effect_timing(timing, cell).1,
        cell.effect == 0x0f && cell.effect_param > 32 ==> effect_timing(timing, cell).0.bpm == cell.effect_param
            && effect_timing(timing, cell).0.speed == timing.speed && effect_timing(timing, cell).1,
        !(cell.effect == 0x0f && cell.effect_param > 0) ==> effect_timing(timing, cell) == (timing, false),
{
}

} // verus!

verus! {

/// A sample of a tracker instrument, with its values as the file stores
/// them: `volume` in 64ths, `finetune` in eighths of a semitone for MOD and
/// 128ths for XM, frames as signed 8- or 16-bit values, `pan` as the XM pan
/// byte (none for MOD), and the points of an XM volume envelope as (tick,
/// level in 64ths).
pub struct TrackerSample {
    pub name: String,
    pub length: usize,
    pub is_16_bit: bool,
    pub volume: u8,
    pub finetune: i8,
    pub loop_start: usize,
    pub loop_len: usize,
    pub ping_pong_loop: bool,
    pub data: Vec<i16>,
    pub relative_note: i8,
    pub pan: Option<u8>,
    pub envelope: Option<Vec<(u16, u16)>>,
}

/// The frames of a ping-pong loop played forward and then backward, as a
/// plain loop: the frames up to the loop end, then the inner frames of the
/// loop in reverse.
pub open spec fn ping_pong_frames(data: Seq<i16>, start: int, end: int) -> Seq<i16> {
    data.take(end) + data.subrange(start + 1, end - 1).reverse()
}

/// Unrolls a ping-pong loop into its forward and backward passes, so that a
/// plain loop plays it. Samples without such a loop, with a loop of at most
/// two frames, or with a loop outside the data, stay as they are.
pub fn expand_ping_pong_loop(sample: &mut TrackerSample)
    ensures
        ({
            let s = *old(sample);
            let end = s.loop_start + s.loop_len;
            if !s.ping_pong_loop || s.loop_len <= 2 || s.loop_start >= s.data@.len() || end > s.data@.len() {
                *final(sample) == s
            } else {
                &&& final(sample).data@ == ping_pong_frames(s.data@, s.loop_start as int, end)
                &&& final(sample).loop_len == final(sample).data@.len() - s.loop_start
                &&& final(sample).length == final(sample).data@.len()
                &&& !final(sample).ping_pong_loop
                &&& final(sample).loop_start == s.loop_start
                &&& final(sample).name == s.name
                &&& final(sample).is_16_bit == s.is_16_bit
                &&& final(sample).volume == s.volume
                &&& final(sample).finetune == s.finetune
                &&& final(sample).relative_note == s.relative_note
                &&& final(sample).pan == s.pan
                &&& final(sample).envelope == s.envelope
            }
        }),
{
    if !sample.ping_pong_loop || sample.loop_len <= 2 || sample.loop_start >= sample.data.len()
        || sample.loop_len > sample.data.len() - sample.loop_start {
        return;
    }
    let start = sample.loop_start;
    let end = start + sample.loop_len;
    let ghost old_data = sample.data@;
    let mut data: Vec<i16> = Vec::new();
    let mut k: usize = 0;
    while k < end
        invariant
            end <= old_data.len(),
            old_data == sample.data@,
            k <= end,
            data@ == old_data.take(k as int),
        decreases end - k,
    {
        data.push(sample.data[k]);
        assert(old_data.take(k + 1) =~= old_data.take(k as int).push(old_data[k as int]));
        k = k + 1;
    }
    let mut j: usize = end - 1;
    while j > start + 1
        invariant
            start + 2 < end <= old_data.len(),
            old_data == sample.data@,
            start + 1 <= j <= end - 1,
            data@ == old_data.take(end as int) + old_data.subrange(j as int, end - 1).reverse(),
        decreases j,
    {
        j = j - 1;
        let v = sample.data[j];
        data.push(v);
        assert(old_data.subrange(j as int, end - 1).reverse() =~= old_data.subrange(j + 1, end - 1).reverse().push(v));
    }
    sample.loop_len = data.len() - start;
    sample.length = data.len();
    sample.ping_pong_loop = false;
    sample.data = data;
}

} // verus!
