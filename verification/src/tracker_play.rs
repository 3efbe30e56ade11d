use vstd::prelude::*;
use vstd::string::*;

use crate::import::{effect_warning, metadata_warning, ImportError, ImportWarning, ImportedFormat, WarningView};
use crate::tracker::{effect_timing, effect_warning_of, TrackerCell, TrackerTiming};

verus! {

/// The track a tracker note plays on: its channel, instrument, the sample
/// of the instrument, and the frame the sample starts at.
#[derive(Debug, Clone, Copy, PartialEq, Eq)]
pub struct TrackKey {
    pub channel: usize,
    pub instrument: usize,
    pub sample_slot: usize,
    pub sample_offset: usize,
}

/// A finished note of a tracker song: its track, start row tick, length in
/// ticks, MIDI note and volume in 64ths.
#[derive(Debug, Clone, Copy, PartialEq, Eq)]
pub struct TrackerNote {
    pub key: TrackKey,
    pub start: u64,
    pub duration: u64,
    pub note: u8,
    pub velocity: u8,
}

/// The note a channel is playing. `correction` names the MOD note and
/// period whose playback-rate correction applies to it; none means no
/// correction.
#[derive(Debug, Clone, Copy, PartialEq, Eq)]
pub struct ActiveTrackerNote {
    pub start: u64,
    pub key: TrackKey,
    pub period: Option<u16>,
    pub correction: Option<(u8, u16)>,
    pub note: u8,
    pub velocity: u8,
}

/// What a tracker automation point sets, with integer values; `correction`
/// is as in `ActiveTrackerNote`.
#[derive(Debug, Clone, PartialEq, Eq)]
pub enum TrackerControl {
    /// The playback rate that corrects a MOD note for the gap between its
    /// exact period and its MIDI note.
    RateCorrection { note: u8, period: u16 },
    /// An arpeggio over `ticks` ticks: the note, `x` and `y` semitones up, in
    /// turn.
    Arpeggio { x: u8, y: u8, ticks: u32, correction: Option<(u8, u16)> },
    /// The playback rate back at the correction after an arpeggio.
    RateReset { correction: Option<(u8, u16)> },
    /// Pan effect 8xx: 0 is left, 255 right.
    Pan(u8),
    /// Pan step of an XM volume column: 0 is left, 15 right.
    PanStep(u8),
    /// Channel volume in 64ths.
    Volume(u8),
    /// Channel volume at each tick of a row, in 64ths.
    VolumeCurve(Vec<u8>),
    /// The period at each tick of a row, for a note of period `base`.
    PeriodCurve { base: u16, periods: Vec<u64>, correction: Option<(u8, u16)> },
    /// Vibrato over `ticks` ticks at `rate` and `depth` sixteenths of a
    /// quarter semitone.
    Vibrato { rate: u8, depth: u8, ticks: u32, correction: Option<(u8, u16)> },
}

/// The mathematical content of a `TrackerControl`.
pub enum ControlView {
    RateCorrection { note: u8, period: u16 },
    Arpeggio { x: u8, y: u8, ticks: u32, correction: Option<(u8, u16)> },
    RateReset { correction: Option<(u8, u16)> },
    Pan(u8),
    PanStep(u8),
    Volume(u8),
    VolumeCurve(Seq<u8>),
    PeriodCurve { base: u16, periods: Seq<u64>, correction: Option<(u8, u16)> },
    Vibrato { rate: u8, depth: u8, ticks: u32, correction: Option<(u8, u16)> },
}

impl View for TrackerControl {
    type V = ControlView;

    open spec fn view(&self) -> ControlView {
        match self {
            TrackerControl::RateCorrection { note, period } => ControlView::RateCorrection { note: *note, period: *period },
            TrackerControl::Arpeggio { x, y, ticks, correction } =>
                ControlView::Arpeggio { x: *x, y: *y, ticks: *ticks, correction: *correction },
            TrackerControl::RateReset { correction } => ControlView::RateReset { correction: *correction },
            TrackerControl::Pan(v) => ControlView::Pan(*v),
            TrackerControl::PanStep(v) => ControlView::PanStep(*v),
            TrackerControl::Volume(v) => ControlView::Volume(*v),
            TrackerControl::VolumeCurve(v) => ControlView::VolumeCurve(v@),
            TrackerControl::PeriodCurve { base, periods, correction } =>
                ControlView::PeriodCurve { base: *base, periods: periods@, correction: *correction },
            TrackerControl::Vibrato { rate, depth, ticks, correction } =>
                ControlView::Vibrato { rate: *rate, depth: *depth, ticks: *ticks, correction: *correction },
        }
    }
}

/// An automation point on a track at a tick.
#[derive(Debug, Clone, PartialEq, Eq)]
pub struct TrackerAutomation {
    pub key: TrackKey,
    pub index: u64,
    pub control: TrackerControl,
}

/// The mathematical content of a `TrackerAutomation`.
pub struct AutomationView {
    pub key: TrackKey,
    pub index: u64,
    pub control: ControlView,
}

impl View for TrackerAutomation {
    type V = AutomationView;

    open spec fn view(&self) -> AutomationView {
        AutomationView { key: self.key, index: self.index, control: self.control@ }
    }
}

/// What playing a tracker song needs to know of a sample: its volume in
/// 64ths, whether it is 16-bit, and its length in frames.
#[derive(Debug, Clone, Copy, PartialEq, Eq)]
pub struct SampleInfo {
    pub volume: u8,
    pub is_16_bit: bool,
    pub frames: usize,
}

/// What playing needs to know of an instrument: its note-to-sample map (XM)
/// and its samples.
pub struct InstrumentInfo {
    pub keymap: Vec<u8>,
    pub samples: Vec<SampleInfo>,
}

/// The mathematical content of an `InstrumentInfo`.
pub struct InstrumentInfoView {
    pub keymap: Seq<u8>,
    pub samples: Seq<SampleInfo>,
}

impl View for InstrumentInfo {
    type V = InstrumentInfoView;

    open spec fn view(&self) -> InstrumentInfoView {
        InstrumentInfoView { keymap: self.keymap@, samples: self.samples@ }
    }
}

/// The state of a tracker import between two cells: per channel the note it
/// plays, its instrument, volume in 64ths and current period; the timing and
/// the tick the current row starts at; and what the song holds so far.
#[verifier::ext_equal]
pub struct TrackerPlay {
    pub active: Seq<Option<ActiveTrackerNote>>,
    pub instruments: Seq<usize>,
    pub volumes: Seq<u8>,
    pub periods: Seq<Option<u64>>,
    pub timing: TrackerTiming,
    pub tick: u64,
    pub tempos: Seq<(u64, u32)>,
    pub notes: Seq<TrackerNote>,
    pub automation: Seq<AutomationView>,
    pub warnings: Seq<WarningView>,
}

/// The speed, at least one tick per row.
pub open spec fn speed1(t: TrackerTiming) -> u32 {
    if t.speed == 0 { 1 } else { t.speed }
}

/// Adds without passing the largest `u64`.
pub open spec fn tick_add(a: u64, b: u64) -> u64 {
    if a + b > u64::MAX { u64::MAX } else { (a + b) as u64 }
}

/// The note that the note of a channel becomes when it ends at `end`: at
/// least one tick long.
pub open spec fn ended(a: ActiveTrackerNote, end: u64) -> TrackerNote {
    TrackerNote {
        key: a.key,
        start: a.start,
        duration: if end > a.start { (end - a.start) as u64 } else { 1 },
        note: a.note,
        velocity: a.velocity,
    }
}

/// Ends the note of a channel, if it plays one.
pub open spec fn close_channel(p: TrackerPlay, ch: int, end: u64) -> TrackerPlay {
    match p.active[ch] {
        None => p,
        Some(a) => TrackerPlay { active: p.active.update(ch, None), notes: p.notes.push(ended(a, end)), ..p },
    }
}

/// One more automation point.
pub open spec fn automate(p: TrackerPlay, key: TrackKey, index: u64, control: ControlView) -> TrackerPlay {
    TrackerPlay { automation: p.automation.push(AutomationView { key, index, control }), ..p }
}

/// One more warning.
pub open spec fn warn_play(p: TrackerPlay, w: WarningView) -> TrackerPlay {
    TrackerPlay { warnings: p.warnings.push(w), ..p }
}

/// A volume, at most 64.
pub open spec fn clamp64(v: int) -> u8 {
    if v < 0 { 0 } else if v > 64 { 64 } else { v as u8 }
}

/// The channel volume at each of `n` ticks of a volume slide by `slide`
/// 64ths per tick from `start`.
pub open spec fn volume_curve(start: u8, slide: int, n: nat) -> Seq<u8>
    decreases n,
{
    if n == 0 {
        Seq::empty()
    } else if n == 1 {
        seq![start]
    } else {
        let before = volume_curve(start, slide, (n - 1) as nat);
        before.push(clamp64(before.last() + slide))
    }
}

/// Volume effects: Cxx sets the channel volume, Axy slides it up by `x` or
/// down by `y` 64ths per tick after the first. The channel keeps the new
/// volume; its playing note gets the automation.
#[verifier::opaque]
pub open spec fn volume_effects(p: TrackerPlay, ch: int, row: u64, cell: TrackerCell) -> TrackerPlay {
    if cell.effect == 0x0c {
        let v = if cell.effect_param > 64 { 64u8 } else { cell.effect_param };
        let q = TrackerPlay { volumes: p.volumes.update(ch, v), ..p };
        match p.active[ch] {
            Some(a) => automate(q, a.key, row, ControlView::Volume(v)),
            None => q,
        }
    } else if cell.effect == 0x0a && cell.effect_param != 0 {
        let up = cell.effect_param / 16;
        let slide = if up > 0 { up as int } else { -((cell.effect_param % 16) as int) };
        let curve = volume_curve(p.volumes[ch], slide, speed1(p.timing) as nat);
        let q = TrackerPlay { volumes: p.volumes.update(ch, curve.last()), ..p };
        match p.active[ch] {
            Some(a) => automate(q, a.key, row, ControlView::VolumeCurve(curve)),
            None => q,
        }
    } else {
        p
    }
}

/// How a period moves each tick of a slide: down (1xx) to at least 1, up
/// (2xx), or toward a target (3xx, 5xx).
pub open spec fn next_period(effect: u8, v: u64, slide: u64, target: u64) -> u64 {
    if effect == 0x01 {
        if v > slide + 1 { (v - slide) as u64 } else { 1 }
    } else if effect == 0x02 {
        tick_add(v, slide)
    } else if v > target {
        if v - slide > target { (v - slide) as u64 } else { target }
    } else if v < target {
        if v + slide < target { (v + slide) as u64 } else { target }
    } else {
        v
    }
}

/// The period at each of `n` ticks of a slide from `start`.
pub open spec fn period_curve(effect: u8, start: u64, slide: u64, target: u64, n: nat) -> Seq<u64>
    decreases n,
{
    if n == 0 {
        Seq::empty()
    } else if n == 1 {
        seq![start]
    } else {
        let before = period_curve(effect, start, slide, target, (n - 1) as nat);
        before.push(next_period(effect, before.last(), slide, target))
    }
}

/// Pitch effects of MOD on the note a channel plays: period slides down
/// (1xx), up (2xx) and toward the cell's period (3xx, 5xx), which the
/// channel keeps; and vibrato (4xx, 6xx).
#[verifier::opaque]
pub open spec fn pitch_effects(p: TrackerPlay, ch: int, row: u64, cell: TrackerCell) -> TrackerPlay {
    match p.active[ch] {
        None => p,
        Some(a) => match a.period {
            None => p,
            Some(base) => if base == 0 {
                p
            } else {
                let current: u64 = match p.periods[ch] { Some(v) => v, None => base as u64 };
                let n = speed1(p.timing) as nat;
                let slide = cell.effect_param as u64;
                let target: u64 = match cell.period { Some(t) => if t == 0 { 1 } else { t as u64 }, None => 1 };
                if (cell.effect == 0x01 || cell.effect == 0x02 || ((cell.effect == 0x03 || cell.effect == 0x05)
                    && cell.period is Some)) && cell.effect_param > 0 {
                    let periods = period_curve(cell.effect, current, slide, target, n);
                    let q = TrackerPlay { periods: p.periods.update(ch, Some(periods.last())), ..p };
                    automate(q, a.key, row, ControlView::PeriodCurve { base, periods, correction: a.correction })
                } else if (cell.effect == 0x04 || cell.effect == 0x06) && cell.effect_param > 0 {
                    let rate = if cell.effect_param / 16 == 0 { 1u8 } else { cell.effect_param / 16 };
                    automate(p, a.key, row, ControlView::Vibrato {
                        rate,
                        depth: cell.effect_param % 16,
                        ticks: speed1(p.timing),
                        correction: a.correction,
                    })
                } else {
                    p
                }
            },
        },
    }
}

/// Adds without passing the largest `u32`.
pub open spec fn add32(a: u32, b: u32) -> u32 {
    if a + b > u32::MAX { u32::MAX } else { (a + b) as u32 }
}

/// Retriggers from tick `t` of the row on, every `interval` ticks: each
/// time the note so far ends and a new one starts.
pub open spec fn retrigger_from(p: TrackerPlay, ch: int, row: u64, interval: u32, t: u32, speed: u32) -> TrackerPlay
    decreases u32::MAX - t,
{
    if t >= speed || interval == 0 {
        p
    } else {
        match p.active[ch] {
            None => p,
            Some(a) => {
                let tick = tick_add(row, t as u64);
                let q = if tick > a.start {
                    TrackerPlay {
                        active: p.active.update(ch, Some(ActiveTrackerNote { start: tick, ..a })),
                        notes: p.notes.push(ended(a, tick)),
                        ..p
                    }
                } else {
                    p
                };
                retrigger_from(q, ch, row, interval, add32(t, interval), speed)
            },
        }
    }
}

/// The retrigger effect E9x of MOD.
#[verifier::opaque]
pub open spec fn retrigger(p: TrackerPlay, ch: int, row: u64, cell: TrackerCell) -> TrackerPlay {
    if cell.effect == 0x0e && cell.effect_param / 16 == 0x09 && cell.effect_param % 16 > 0 {
        let interval = (cell.effect_param % 16) as u32;
        retrigger_from(p, ch, row, interval, interval, speed1(p.timing))
    } else {
        p
    }
}

/// The automation a starting note's cell sets on its track: the rate
/// correction, an arpeggio (0xy) and the rate after it, pan effect 8xx and a
/// volume-column pan.
#[verifier::opaque]
pub open spec fn cell_automation(p: TrackerPlay, key: TrackKey, row: u64, cell: TrackerCell, correction: Option<(u8, u16)>)
    -> TrackerPlay
{
    let p1 = match correction {
        Some((note, period)) => automate(p, key, row, ControlView::RateCorrection { note, period }),
        None => p,
    };
    let n = speed1(p.timing);
    let p2 = if cell.effect == 0 && cell.effect_param != 0 {
        let arp = ControlView::Arpeggio { x: cell.effect_param / 16, y: cell.effect_param % 16, ticks: n, correction };
        automate(automate(p1, key, row, arp), key, tick_add(row, n as u64), ControlView::RateReset { correction })
    } else {
        p1
    };
    let p3 = if cell.effect == 0x08 { automate(p2, key, row, ControlView::Pan(cell.effect_param)) } else { p2 };
    match cell.pan {
        Some(v) => automate(p3, key, row, ControlView::PanStep(v)),
        None => p3,
    }
}

/// Timing effects and warnings about unsupported effects.
pub open spec fn play_effects(p: TrackerPlay, format: ImportedFormat, row: u64, cell: TrackerCell) -> TrackerPlay {
    let (timing, changed) = effect_timing(p.timing, cell);
    let tempos = if changed { p.tempos.push((row, timing.bpm)) } else { p.tempos };
    let warnings = match effect_warning_of(format, cell) {
        Some(w) => p.warnings.push(w),
        None => p.warnings,
    };
    TrackerPlay { timing, tempos, warnings, ..p }
}

/// The frame a sample offset effect starts a note at.
pub open spec fn offset_frames(cell: TrackerCell, s: SampleInfo) -> usize {
    if cell.effect != 0x09 || cell.effect_param == 0 {
        0
    } else {
        let offset = if s.is_16_bit { cell.effect_param * 256 / 2 } else { cell.effect_param * 256 };
        if offset <= s.frames { offset as usize } else { s.frames }
    }
}

/// The effects every cell has before its note: timing, key-off and the
/// channel's instrument.
#[verifier::opaque]
pub open spec fn cell_prelude(p: TrackerPlay, format: ImportedFormat, ch: int, row: u64, cell: TrackerCell) -> TrackerPlay {
    let p1 = play_effects(p, format, row, cell);
    let p2 = if cell.key_off { close_channel(p1, ch, row) } else { p1 };
    if cell.instrument > 0 { TrackerPlay { instruments: p2.instruments.update(ch, cell.instrument), ..p2 } } else { p2 }
}

/// The instrument a note plays: the cell's, or else the channel's last.
pub open spec fn note_instrument(p: TrackerPlay, ch: int, cell: TrackerCell) -> usize {
    if cell.instrument > 0 { cell.instrument } else { p.instruments[ch] }
}

/// A channel starts a note.
pub open spec fn start_note(p: TrackerPlay, ch: int, a: ActiveTrackerNote) -> TrackerPlay {
    TrackerPlay {
        active: p.active.update(ch, Some(a)),
        periods: match a.period { Some(per) => p.periods.update(ch, Some(per as u64)), None => p.periods },
        volumes: p.volumes.update(ch, a.velocity),
        ..p
    }
}

/// What a MOD cell does on channel `ch` of the row at tick `row`. A note
/// with tone portamento (3xx, 5xx) on a playing channel only slides; another
/// note ends the channel's note and starts its own, after a note delay
/// (EDx), with the rate correction of its period.
#[verifier::opaque]
pub open spec fn mod_cell_step(p: TrackerPlay, ch: int, row: u64, cell: TrackerCell, ins: Seq<InstrumentInfoView>) -> TrackerPlay {
    let p = cell_prelude(p, ImportedFormat::Mod, ch, row, cell);
    match cell.note {
        None => retrigger(pitch_effects(volume_effects(p, ch, row, cell), ch, row, cell), ch, row, cell),
        Some(note) => if (cell.effect == 0x03 || cell.effect == 0x05) && p.active[ch] is Some {
            retrigger(volume_effects(pitch_effects(p, ch, row, cell), ch, row, cell), ch, row, cell)
        } else {
            let delay = if cell.effect == 0x0e && cell.effect_param / 16 == 0x0d {
                let last = speed1(p.timing) - 1;
                if (cell.effect_param % 16) as int <= last { (cell.effect_param % 16) as u64 } else { last as u64 }
            } else {
                0
            };
            let start = tick_add(row, delay);
            let p = close_channel(p, ch, start);
            let inst = note_instrument(p, ch, cell);
            if inst == 0 || inst > ins.len() || ins[inst - 1].samples.len() == 0 {
                warn_play(p, metadata_warning("MOD note without valid instrument"@))
            } else {
                let s = ins[inst - 1].samples[0];
                let key = TrackKey { channel: ch as usize, instrument: inst, sample_slot: 0, sample_offset: offset_frames(cell, s) };
                let correction = match cell.period { Some(per) => Some((note, per)), None => None };
                let p = cell_automation(p, key, start, cell, correction);
                let velocity = match cell.volume { Some(v) => v, None => s.volume };
                let a = ActiveTrackerNote { start, key, period: cell.period, correction, note, velocity };
                let p = start_note(p, ch, a);
                retrigger(pitch_effects(volume_effects(p, ch, row, cell), ch, row, cell), ch, row, cell)
            }
        },
    }
}

/// The sample an XM instrument plays for a note: the note map's entry for
/// the note (notes below 12 and above 107 take the nearest entry), at most
/// the last sample; none for an instrument without samples.
pub open spec fn xm_sample_slot(keymap: Seq<u8>, count: int, note: u8) -> Option<int> {
    if count == 0 {
        None
    } else {
        let k = if note < 12 { 0 } else if note - 12 > 95 { 95 } else { note - 12 };
        let slot = keymap[k] as int;
        Some(if slot < count - 1 { slot } else { count - 1 })
    }
}

/// What an XM cell does on channel `ch` of the row at tick `row`: a note
/// ends the channel's note and starts its own on the sample its instrument
/// maps it to.
#[verifier::opaque]
pub open spec fn xm_cell_step(p: TrackerPlay, ch: int, row: u64, cell: TrackerCell, ins: Seq<InstrumentInfoView>)
    -> Result<TrackerPlay, ImportError>
{
    let p = cell_prelude(p, ImportedFormat::Xm, ch, row, cell);
    match cell.note {
        None => Ok(volume_effects(p, ch, row, cell)),
        Some(note) => {
            let p = close_channel(p, ch, row);
            let inst = note_instrument(p, ch, cell);
            if inst == 0 || inst > ins.len() {
                Ok(warn_play(p, metadata_warning("XM note without valid instrument"@)))
            } else {
                let i = ins[inst - 1];
                match xm_sample_slot(i.keymap, i.samples.len() as int, note) {
                    None => Err(ImportError::MalformedSampleData("XM instrument has no sample data")),
                    Some(slot) => {
                        let s = i.samples[slot];
                        let key = TrackKey { channel: ch as usize, instrument: inst, sample_slot: slot as usize, sample_offset: offset_frames(cell, s) };
                        let p = cell_automation(p, key, row, cell, None);
                        let velocity = match cell.volume { Some(v) => v, None => s.volume };
                        let a = ActiveTrackerNote { start: row, key, period: None, correction: None, note, velocity };
                        Ok(volume_effects(start_note(p, ch, a), ch, row, cell))
                    },
                }
            }
        },
    }
}

/// What a cell does, for the song's format.
pub open spec fn cell_step(format: ImportedFormat, p: TrackerPlay, ch: int, row: u64, cell: TrackerCell, ins: Seq<InstrumentInfoView>)
    -> Result<TrackerPlay, ImportError>
{
    if format == ImportedFormat::Mod { Ok(mod_cell_step(p, ch, row, cell, ins)) } else { xm_cell_step(p, ch, row, cell, ins) }
}

/// Where the song goes after the current pattern: the next song position,
/// the row it starts at, and whether a cell changed them.
pub struct Flow {
    pub next_order: int,
    pub next_row: int,
    pub changed: bool,
}

/// Position jumps (Bxx) go to position `xx` at row 0; pattern breaks (Dxy)
/// go to the next position at row `xy`.
pub open spec fn flow_of(cell: TrackerCell, order: int, f: Flow) -> Flow {
    if cell.effect == 0x0b {
        Flow { next_order: cell.effect_param as int, next_row: 0, changed: true }
    } else if cell.effect == 0x0d {
        let high = cell.effect_param / 16;
        let low = cell.effect_param % 16;
        let row = (if high > 9 { 9 } else { high }) * 10 + (if low > 9 { 9 } else { low });
        Flow { next_order: order + 1, next_row: row as int, changed: true }
    } else {
        f
    }
}

/// Plays the first `k` cells of a row, one per channel in order.
pub open spec fn play_cells(format: ImportedFormat, p: TrackerPlay, cells: Seq<TrackerCell>, row: u64, order: int,
    ins: Seq<InstrumentInfoView>, f: Flow, k: int) -> Result<(TrackerPlay, Flow), ImportError>
    decreases k,
{
    if k <= 0 {
        Ok((p, f))
    } else {
        match play_cells(format, p, cells, row, order, ins, f, k - 1) {
            Err(e) => Err(e),
            Ok((q, g)) => match cell_step(format, q, k - 1, row, cells[k - 1], ins) {
                Err(e) => Err(e),
                Ok(q2) => Ok((q2, flow_of(cells[k - 1], order, g))),
            },
        }
    }
}

/// Plays the rows of a pattern from `r` on; after each row the tick moves
/// on by the speed, and a row that changes the flow is the last.
pub open spec fn play_rows(format: ImportedFormat, p: TrackerPlay, rows: Seq<Seq<TrackerCell>>, r: int, order: int,
    ins: Seq<InstrumentInfoView>, f: Flow) -> Result<(TrackerPlay, Flow), ImportError>
    decreases rows.len() - r,
{
    if r < 0 || r >= rows.len() {
        Ok((p, f))
    } else {
        match play_cells(format, p, rows[r], p.tick, order, ins, f, rows[r].len() as int) {
            Err(e) => Err(e),
            Ok((q, g)) => {
                let q2 = TrackerPlay { tick: tick_add(q.tick, speed1(q.timing) as u64), ..q };
                if g.changed { Ok((q2, g)) } else { play_rows(format, q2, rows, r + 1, order, ins, g) }
            },
        }
    }
}

/// The song as a tracker plays it: its patterns, its order table and how
/// many positions it plays.
pub struct SongShape {
    pub patterns: Seq<Seq<Seq<TrackerCell>>>,
    pub orders: Seq<u8>,
    pub song_len: int,
    pub row_cap: int,
}

/// Plays the song from position `order` and row `row_start`, at most
/// `budget` more positions.
pub open spec fn walk(format: ImportedFormat, p: TrackerPlay, song: SongShape, ins: Seq<InstrumentInfoView>, order: int,
    row_start: int, budget: nat) -> Result<TrackerPlay, ImportError>
    decreases budget,
{
    if order < 0 || order >= song.song_len || budget == 0 {
        Ok(p)
    } else if order >= song.orders.len() {
        Err(ImportError::InvalidFormat("song position past the order table"))
    } else {
        let pattern = song.orders[order] as int;
        if pattern >= song.patterns.len() {
            walk(format, warn_play(p, metadata_warning("XM order references missing pattern"@)), song, ins, order + 1,
                row_start, (budget - 1) as nat)
        } else {
            match play_rows(format, p, song.patterns[pattern], row_start, order, ins,
                Flow { next_order: order + 1, next_row: 0, changed: false }) {
                Err(e) => Err(e),
                Ok((q, f)) => walk(format, q, song, ins, f.next_order,
                    if f.next_row > song.row_cap { song.row_cap } else { f.next_row }, (budget - 1) as nat),
            }
        }
    }
}

/// Ends the notes of the first `k` channels at the current tick, in order.
pub open spec fn close_all(p: TrackerPlay, k: int) -> TrackerPlay
    decreases k,
{
    if k <= 0 { p } else { close_channel(close_all(p, k - 1), k - 1, p.tick) }
}

/// The state before the first row: no notes, instrument 0, full volume
/// and no period on every channel, and the first tempo at tick 0.
pub open spec fn initial_tracker(channels: int, timing: TrackerTiming) -> TrackerPlay {
    TrackerPlay {
        active: Seq::new(channels as nat, |i: int| None::<ActiveTrackerNote>),
        instruments: Seq::new(channels as nat, |i: int| 0usize),
        volumes: Seq::new(channels as nat, |i: int| 64u8),
        periods: Seq::new(channels as nat, |i: int| None::<u64>),
        timing,
        tick: 0,
        tempos: seq![(0u64, timing.bpm)],
        notes: Seq::empty(),
        automation: Seq::empty(),
        warnings: Seq::empty(),
    }
}

/// The number of song positions a tracker plays at most: 256 per position,
/// and at least one.
pub open spec fn walk_budget(song_len: int) -> nat {
    if song_len * 256 < 1 { 1 } else { (song_len * 256) as nat }
}

/// A tracker song played from the start: the walk over its positions, then
/// the notes still playing end.
pub open spec fn tracker_song(format: ImportedFormat, song: SongShape, channels: int, timing: TrackerTiming,
    ins: Seq<InstrumentInfoView>) -> Result<TrackerPlay, ImportError>
{
    match walk(format, initial_tracker(channels, timing), song, ins, 0, 0, walk_budget(song.song_len)) {
        Err(e) => Err(e),
        Ok(p) => Ok(close_all(p, channels)),
    }
}

} // verus!

verus! {

/// The views of a list of automation points.
pub open spec fn automation_view(v: Seq<TrackerAutomation>) -> Seq<AutomationView> {
    v.map_values(|a: TrackerAutomation| a@)
}

/// The views of a list of instruments.
pub open spec fn infos_view(v: Seq<InstrumentInfo>) -> Seq<InstrumentInfoView> {
    v.map_values(|i: InstrumentInfo| i@)
}

/// The running state of a tracker import.
struct TrackerPlayer {
    active: Vec<Option<ActiveTrackerNote>>,
    instruments: Vec<usize>,
    volumes: Vec<u8>,
    periods: Vec<Option<u64>>,
    timing: TrackerTiming,
    tick: u64,
    tempos: Vec<(u64, u32)>,
    notes: Vec<TrackerNote>,
    automation: Vec<TrackerAutomation>,
    warnings: Vec<ImportWarning>,
}

impl View for TrackerPlayer {
    type V = TrackerPlay;

    closed spec fn view(&self) -> TrackerPlay {
        TrackerPlay {
            active: self.active@,
            instruments: self.instruments@,
            volumes: self.volumes@,
            periods: self.periods@,
            timing: self.timing,
            tick: self.tick,
            tempos: self.tempos@,
            notes: self.notes@,
            automation: automation_view(self.automation@),
            warnings: crate::import::warnings_view(self.warnings@),
        }
    }
}

/// Every channel has its state.
pub open spec fn play_wf(p: TrackerPlay, channels: int) -> bool {
    &&& p.active.len() == channels
    &&& p.instruments.len() == channels
    &&& p.volumes.len() == channels
    &&& p.periods.len() == channels
}

fn sat_add(a: u64, b: u64) -> (r: u64)
    ensures
        r == tick_add(a, b),
{
    if a > u64::MAX - b { u64::MAX } else { a + b }
}

fn sat_add32(a: u32, b: u32) -> (r: u32)
    ensures
        r == add32(a, b),
{
    if a > u32::MAX - b { u32::MAX } else { a + b }
}

fn speed_of(t: TrackerTiming) -> (r: u32)
    ensures
        r == speed1(t),
        r >= 1,
{
    if t.speed == 0 { 1 } else { t.speed }
}

fn volume_curve_exec(start: u8, slide: i16, n: u32) -> (r: Vec<u8>)
    requires
        n >= 1,
        -15 <= slide <= 15,
    ensures
        r@ == volume_curve(start, slide as int, n as nat),
        start <= 64 ==> r@.last() <= 64,
{
    let mut curve: Vec<u8> = Vec::new();
    curve.push(start);
    let mut v: u8 = start;
    let mut k: u32 = 1;
    while k < n
        invariant
            1 <= k <= n,
            -15 <= slide <= 15,
            curve@ == volume_curve(start, slide as int, k as nat),
            v == curve@.last(),
            start <= 64 ==> v <= 64,
        decreases n - k,
    {
        let next: i16 = v as i16 + slide;
        v = if next < 0 { 0 } else if next > 64 { 64 } else { next as u8 };
        curve.push(v);
        k = k + 1;
    }
    curve
}

fn next_period_exec(effect: u8, v: u64, slide: u64, target: u64) -> (r: u64)
    ensures
        r == next_period(effect, v, slide, target),
{
    if effect == 0x01 {
        if v > slide && v - slide > 1 { v - slide } else { 1 }
    } else if effect == 0x02 {
        sat_add(v, slide)
    } else if v > target {
        if v - target > slide { v - slide } else { target }
    } else if v < target {
        if target - v > slide { v + slide } else { target }
    } else {
        v
    }
}

fn period_curve_exec(effect: u8, start: u64, slide: u64, target: u64, n: u32) -> (r: Vec<u64>)
    requires
        n >= 1,
    ensures
        r@ == period_curve(effect, start, slide, target, n as nat),
{
    let mut curve: Vec<u64> = Vec::new();
    curve.push(start);
    let mut v: u64 = start;
    let mut k: u32 = 1;
    while k < n
        invariant
            1 <= k <= n,
            curve@ == period_curve(effect, start, slide, target, k as nat),
            v == curve@.last(),
        decreases n - k,
    {
        v = next_period_exec(effect, v, slide, target);
        curve.push(v);
        k = k + 1;
    }
    curve
}

impl TrackerPlayer {
    fn close_channel(&mut self, ch: usize, end: u64)
        requires
            play_wf(old(self)@, old(self)@.active.len() as int),
            ch < old(self)@.active.len(),
        ensures
            final(self)@ == close_channel(old(self)@, ch as int, end),
    {
        match self.active[ch] {
            None => {},
            Some(a) => {
                self.active.set(ch, None);
                let duration = if end > a.start { end - a.start } else { 1 };
                self.notes.push(TrackerNote { key: a.key, start: a.start, duration, note: a.note, velocity: a.velocity });
            },
        }
    }

    fn automate(&mut self, key: TrackKey, index: u64, control: TrackerControl)
        ensures
            final(self)@ == automate(old(self)@, key, index, control@),
    {
        let a = TrackerAutomation { key, index, control };
        proof {
            assert(automation_view(self.automation@.push(a)) =~= automation_view(self.automation@).push(a@));
        }
        self.automation.push(a);
    }

    fn warn(&mut self, w: ImportWarning)
        ensures
            final(self)@ == warn_play(old(self)@, w@),
    {
        proof {
            assert(crate::import::warnings_view(self.warnings@.push(w)) =~= crate::import::warnings_view(self.warnings@).push(w@));
        }
        self.warnings.push(w);
    }

    fn volume_effects(&mut self, ch: usize, row: u64, cell: TrackerCell)
        requires
            play_wf(old(self)@, old(self)@.active.len() as int),
            ch < old(self)@.active.len(),
        ensures
            final(self)@ == volume_effects(old(self)@, ch as int, row, cell),
            play_wf(final(self)@, old(self)@.active.len() as int),
    {
        proof { reveal(volume_effects); }
        if cell.effect == 0x0c {
            let v = if cell.effect_param > 64 { 64u8 } else { cell.effect_param };
            self.volumes.set(ch, v);
            match self.active[ch] {
                Some(a) => self.automate(a.key, row, TrackerControl::Volume(v)),
                None => {},
            }
        } else if cell.effect == 0x0a && cell.effect_param != 0 {
            let up = cell.effect_param / 16;
            let slide: i16 = if up > 0 { up as i16 } else { -((cell.effect_param % 16) as i16) };
            let curve = volume_curve_exec(self.volumes[ch], slide, speed_of(self.timing));
            let last = curve[curve.len() - 1];
            self.volumes.set(ch, last);
            match self.active[ch] {
                Some(a) => self.automate(a.key, row, TrackerControl::VolumeCurve(curve)),
                None => {},
            }
        }
    }

    fn pitch_effects(&mut self, ch: usize, row: u64, cell: TrackerCell)
        requires
            play_wf(old(self)@, old(self)@.active.len() as int),
            ch < old(self)@.active.len(),
        ensures
            final(self)@ == pitch_effects(old(self)@, ch as int, row, cell),
            play_wf(final(self)@, old(self)@.active.len() as int),
    {
        proof { reveal(pitch_effects); }
        let a = match self.active[ch] { None => { return; }, Some(a) => a };
        let base = match a.period { None => { return; }, Some(b) => b };
        if base == 0 {
            return;
        }
        let current: u64 = match self.periods[ch] { Some(v) => v, None => base as u64 };
        let n = speed_of(self.timing);
        let slide = cell.effect_param as u64;
        let target: u64 = match cell.period { Some(t) => if t == 0 { 1 } else { t as u64 }, None => 1 };
        if (cell.effect == 0x01 || cell.effect == 0x02 || ((cell.effect == 0x03 || cell.effect == 0x05)
            && cell.period.is_some())) && cell.effect_param > 0 {
            let periods = period_curve_exec(cell.effect, current, slide, target, n);
            let last = periods[periods.len() - 1];
            self.periods.set(ch, Some(last));
            self.automate(a.key, row, TrackerControl::PeriodCurve { base, periods, correction: a.correction });
        } else if (cell.effect == 0x04 || cell.effect == 0x06) && cell.effect_param > 0 {
            let rate = if cell.effect_param / 16 == 0 { 1u8 } else { cell.effect_param / 16 };
            self.automate(a.key, row, TrackerControl::Vibrato {
                rate,
                depth: cell.effect_param % 16,
                ticks: n,
                correction: a.correction,
            });
        }
    }

    fn retrigger(&mut self, ch: usize, row: u64, cell: TrackerCell)
        requires
            play_wf(old(self)@, old(self)@.active.len() as int),
            ch < old(self)@.active.len(),
        ensures
            final(self)@ == retrigger(old(self)@, ch as int, row, cell),
            play_wf(final(self)@, old(self)@.active.len() as int),
    {
        proof { reveal(retrigger); }
        let interval = match crate::tracker::mod_retrigger_ticks(cell) {
            Some(ticks) => ticks as u32,
            None => {
                return;
            },
        };
        let speed = speed_of(self.timing);
        let ghost goal = retrigger_from(self@, ch as int, row, interval, interval, speed);
        let ghost channels = self@.active.len() as int;
        let mut t = interval;
        while t < speed
            invariant
                play_wf(self@, channels),
                ch < channels,
                interval > 0,
                goal == retrigger_from(self@, ch as int, row, interval, t, speed),
                goal == retrigger(old(self)@, ch as int, row, cell),
                channels == old(self)@.active.len(),
            decreases u32::MAX - t,
        {
            let a = match self.active[ch] { None => { return; }, Some(a) => a };
            let tick = sat_add(row, t as u64);
            if tick > a.start {
                self.active.set(ch, Some(ActiveTrackerNote { start: tick, ..a }));
                self.notes.push(TrackerNote { key: a.key, start: a.start, duration: tick - a.start, note: a.note, velocity: a.velocity });
            }
            t = sat_add32(t, interval);
        }
    }

    fn cell_automation(&mut self, key: TrackKey, row: u64, cell: TrackerCell, correction: Option<(u8, u16)>)
        ensures
            final(self)@ == cell_automation(old(self)@, key, row, cell, correction),
            final(self)@ == (TrackerPlay { automation: final(self)@.automation, ..old(self)@ }),
    {
        proof { reveal(cell_automation); }
        match correction {
            Some((note, period)) => self.automate(key, row, TrackerControl::RateCorrection { note, period }),
            None => {},
        }
        let n = speed_of(self.timing);
        if cell.effect == 0 && cell.effect_param != 0 {
            self.automate(key, row, TrackerControl::Arpeggio {
                x: cell.effect_param / 16,
                y: cell.effect_param % 16,
                ticks: n,
                correction,
            });
            self.automate(key, sat_add(row, n as u64), TrackerControl::RateReset { correction });
        }
        if cell.effect == 0x08 {
            self.automate(key, row, TrackerControl::Pan(cell.effect_param));
        }
        match cell.pan {
            Some(v) => self.automate(key, row, TrackerControl::PanStep(v)),
            None => {},
        }
    }

    fn play_effects(&mut self, format: ImportedFormat, row: u64, cell: TrackerCell)
        ensures
            final(self)@ == play_effects(old(self)@, format, row, cell),
    {
        let (timing, changed, warning) = crate::tracker::handle_tracker_effects(format, self.timing, cell);
        self.timing = timing;
        if changed {
            self.tempos.push((row, timing.bpm));
        }
        match warning {
            Some(w) => self.warn(w),
            None => {},
        }
    }

    fn cell_prelude(&mut self, format: ImportedFormat, ch: usize, row: u64, cell: TrackerCell)
        requires
            play_wf(old(self)@, old(self)@.active.len() as int),
            ch < old(self)@.active.len(),
        ensures
            final(self)@ == cell_prelude(old(self)@, format, ch as int, row, cell),
            play_wf(final(self)@, old(self)@.active.len() as int),
    {
        proof { reveal(cell_prelude); }
        self.play_effects(format, row, cell);
        if cell.key_off {
            self.close_channel(ch, row);
        }
        if cell.instrument > 0 {
            self.instruments.set(ch, cell.instrument);
        }
    }

    fn start_note(&mut self, ch: usize, a: ActiveTrackerNote)
        requires
            play_wf(old(self)@, old(self)@.active.len() as int),
            ch < old(self)@.active.len(),
        ensures
            final(self)@ == start_note(old(self)@, ch as int, a),
    {
        self.active.set(ch, Some(a));
        match a.period {
            Some(per) => self.periods.set(ch, Some(per as u64)),
            None => {},
        }
        self.volumes.set(ch, a.velocity);
    }

    fn mod_cell_step(&mut self, ch: usize, row: u64, cell: TrackerCell, ins: &Vec<InstrumentInfo>)
        requires
            play_wf(old(self)@, old(self)@.active.len() as int),
            ch < old(self)@.active.len(),
        ensures
            final(self)@ == mod_cell_step(old(self)@, ch as int, row, cell, infos_view(ins@)),
            play_wf(final(self)@, old(self)@.active.len() as int),
    {
        proof { reveal(mod_cell_step); }
        let ghost iv = infos_view(ins@);
        self.cell_prelude(ImportedFormat::Mod, ch, row, cell);
        match cell.note {
            None => {
                self.volume_effects(ch, row, cell);
                self.pitch_effects(ch, row, cell);
                self.retrigger(ch, row, cell);
            },
            Some(note) => {
                if (cell.effect == 0x03 || cell.effect == 0x05) && self.active[ch].is_some() {
                    self.pitch_effects(ch, row, cell);
                    self.volume_effects(ch, row, cell);
                    self.retrigger(ch, row, cell);
                    return;
                }
                let delay = crate::tracker::mod_note_delay_ticks(cell, self.timing) as u64;
                let start = sat_add(row, delay);
                self.close_channel(ch, start);
                let inst = if cell.instrument > 0 { cell.instrument } else { self.instruments[ch] };
                if inst == 0 || inst > ins.len() || ins[inst - 1].samples.len() == 0 {
                    self.warn(ImportWarning::new(String::from_str("MOD note without valid instrument")));
                    return;
                }
                assert(iv[inst - 1] == ins@[inst - 1]@);
                let s = ins[inst - 1].samples[0];
                let offset = crate::tracker::tracker_sample_offset_frames(cell, s.is_16_bit, s.frames);
                let key = TrackKey { channel: ch, instrument: inst, sample_slot: 0, sample_offset: offset };
                let correction = match cell.period { Some(per) => Some((note, per)), None => None };
                self.cell_automation(key, start, cell, correction);
                let velocity = match cell.volume { Some(v) => v, None => s.volume };
                let a = ActiveTrackerNote { start, key, period: cell.period, correction, note, velocity };
                self.start_note(ch, a);
                self.volume_effects(ch, row, cell);
                self.pitch_effects(ch, row, cell);
                self.retrigger(ch, row, cell);
            },
        }
    }

    fn xm_cell_step(&mut self, ch: usize, row: u64, cell: TrackerCell, ins: &Vec<InstrumentInfo>) -> (r: Result<(), ImportError>)
        requires
            play_wf(old(self)@, old(self)@.active.len() as int),
            ch < old(self)@.active.len(),
            forall|i: int| 0 <= i < ins@.len() ==> (#[trigger] ins@[i]).keymap@.len() == 96,
        ensures
            match xm_cell_step(old(self)@, ch as int, row, cell, infos_view(ins@)) {
                Ok(q) => r is Ok && final(self)@ == q,
                Err(e) => r == Err::<(), ImportError>(e),
            },
            r is Ok ==> play_wf(final(self)@, old(self)@.active.len() as int),
    {
        proof { reveal(xm_cell_step); }
        let ghost iv = infos_view(ins@);
        self.cell_prelude(ImportedFormat::Xm, ch, row, cell);
        match cell.note {
            None => {
                self.volume_effects(ch, row, cell);
            },
            Some(note) => {
                self.close_channel(ch, row);
                let inst = if cell.instrument > 0 { cell.instrument } else { self.instruments[ch] };
                if inst == 0 || inst > ins.len() {
                    self.warn(ImportWarning::new(String::from_str("XM note without valid instrument")));
                    return Ok(());
                }
                let info = &ins[inst - 1];
                assert(iv[inst - 1] == info@);
                let count = info.samples.len();
                if count == 0 {
                    return Err(ImportError::MalformedSampleData("XM instrument has no sample data"));
                }
                let k: usize = if note < 12 { 0 } else if note - 12 > 95 { 95 } else { (note - 12) as usize };
                let mapped = info.keymap[k] as usize;
                let slot = if mapped < count - 1 { mapped } else { count - 1 };
                let s = info.samples[slot];
                let offset = crate::tracker::tracker_sample_offset_frames(cell, s.is_16_bit, s.frames);
                let key = TrackKey { channel: ch, instrument: inst, sample_slot: slot, sample_offset: offset };
                self.cell_automation(key, row, cell, None);
                let velocity = match cell.volume { Some(v) => v, None => s.volume };
                let a = ActiveTrackerNote { start: row, key, period: None, correction: None, note, velocity };
                self.start_note(ch, a);
                self.volume_effects(ch, row, cell);
            },
        }
        Ok(())
    }
}

} // verus!

verus! {

/// Where the song goes after the current pattern, as the player keeps it.
#[derive(Debug, Clone, Copy)]
pub struct FlowState {
    pub next_order: usize,
    pub next_row: usize,
    pub changed: bool,
}

/// The view of a `FlowState`.
pub open spec fn flow_view(f: FlowState) -> Flow {
    Flow { next_order: f.next_order as int, next_row: f.next_row as int, changed: f.changed }
}

fn flow_step(cell: TrackerCell, order: usize, f: FlowState) -> (r: FlowState)
    requires
        order < usize::MAX,
    ensures
        flow_view(r) == flow_of(cell, order as int, flow_view(f)),
        r.next_order <= 255 || r.next_order == order + 1 || r.next_order == f.next_order,
{
    if cell.effect == 0x0b {
        FlowState { next_order: cell.effect_param as usize, next_row: 0, changed: true }
    } else if cell.effect == 0x0d {
        FlowState { next_order: order + 1, next_row: crate::tracker::tracker_pattern_break_row(cell.effect_param), changed: true }
    } else {
        f
    }
}

proof fn lemma_cells_err(format: ImportedFormat, p: TrackerPlay, cells: Seq<TrackerCell>, row: u64, order: int,
    ins: Seq<InstrumentInfoView>, f: Flow, k: int, n: int, e: ImportError)
    requires
        0 <= k <= n,
        play_cells(format, p, cells, row, order, ins, f, k) == Err::<(TrackerPlay, Flow), ImportError>(e),
    ensures
        play_cells(format, p, cells, row, order, ins, f, n) == Err::<(TrackerPlay, Flow), ImportError>(e),
    decreases n - k,
{
    if k < n {
        lemma_cells_err(format, p, cells, row, order, ins, f, k + 1, n, e);
    }
}

/// Plays one row: each channel's cell in order.
fn play_row(player: &mut TrackerPlayer, format: ImportedFormat, cells: &Vec<TrackerCell>, order: usize,
    ins: &Vec<InstrumentInfo>, f: FlowState) -> (r: Result<FlowState, ImportError>)
    requires
        play_wf(old(player)@, old(player)@.active.len() as int),
        cells@.len() <= old(player)@.active.len(),
        order < usize::MAX,
        forall|i: int| 0 <= i < ins@.len() ==> (#[trigger] ins@[i]).keymap@.len() == 96,
    ensures
        match play_cells(format, old(player)@, cells@, old(player)@.tick, order as int, infos_view(ins@), flow_view(f),
            cells@.len() as int) {
            Ok((q, g)) => r matches Ok(x) && final(player)@ == q && flow_view(x) == g,
            Err(e) => r == Err::<FlowState, ImportError>(e),
        },
        r is Ok ==> play_wf(final(player)@, old(player)@.active.len() as int),
{
    let ghost p0 = player@;
    let ghost iv = infos_view(ins@);
    let ghost n = player@.active.len() as int;
    let row = player.tick;
    let mut flow = f;
    let mut k: usize = 0;
    while k < cells.len()
        invariant
            play_wf(player@, n),
            n == p0.active.len(),
            p0 == old(player)@,
            cells@.len() <= n,
            order < usize::MAX,
            forall|i: int| 0 <= i < ins@.len() ==> (#[trigger] ins@[i]).keymap@.len() == 96,
            iv == infos_view(ins@),
            row == p0.tick,
            k <= cells@.len(),
            play_cells(format, p0, cells@, row, order as int, iv, flow_view(f), k as int)
                == Ok::<(TrackerPlay, Flow), ImportError>((player@, flow_view(flow))),
        decreases cells@.len() - k,
    {
        let cell = cells[k];
        let ghost before = player@;
        if format == ImportedFormat::Mod {
            player.mod_cell_step(k, row, cell, ins);
        } else {
            match player.xm_cell_step(k, row, cell, ins) {
                Ok(()) => {},
                Err(e) => {
                    proof {
                        assert(cells@[k as int] == cell);
                        assert(cell_step(format, before, k as int, row, cell, iv) == Err::<TrackerPlay, ImportError>(e));
                        assert(play_cells(format, p0, cells@, row, order as int, iv, flow_view(f), k + 1)
                            == Err::<(TrackerPlay, Flow), ImportError>(e));
                        lemma_cells_err(format, p0, cells@, row, order as int, iv, flow_view(f), k + 1, cells@.len() as int, e);
                    }
                    return Err(e);
                },
            }
        }
        flow = flow_step(cell, order, flow);
        k = k + 1;
    }
    Ok(flow)
}

/// Plays the rows of a pattern from `row_start` on, until one changes the
/// flow.
fn play_pattern(player: &mut TrackerPlayer, format: ImportedFormat, rows: &Vec<Vec<TrackerCell>>, row_start: usize,
    order: usize, ins: &Vec<InstrumentInfo>, f: FlowState) -> (r: Result<FlowState, ImportError>)
    requires
        play_wf(old(player)@, old(player)@.active.len() as int),
        forall|i: int| 0 <= i < rows@.len() ==> (#[trigger] rows@[i])@.len() <= old(player)@.active.len(),
        order < usize::MAX,
        forall|i: int| 0 <= i < ins@.len() ==> (#[trigger] ins@[i]).keymap@.len() == 96,
    ensures
        match play_rows(format, old(player)@, crate::xm_file::rows_view(rows@), row_start as int, order as int,
            infos_view(ins@), flow_view(f)) {
            Ok((q, g)) => r matches Ok(x) && final(player)@ == q && flow_view(x) == g,
            Err(e) => r == Err::<FlowState, ImportError>(e),
        },
        r is Ok ==> play_wf(final(player)@, old(player)@.active.len() as int),
{
    let ghost rv = crate::xm_file::rows_view(rows@);
    let ghost iv = infos_view(ins@);
    let ghost n = player@.active.len() as int;
    let ghost goal = play_rows(format, player@, rv, row_start as int, order as int, iv, flow_view(f));
    let mut flow = f;
    let mut r = row_start;
    while r < rows.len()
        invariant
            play_wf(player@, n),
            forall|i: int| 0 <= i < rows@.len() ==> (#[trigger] rows@[i])@.len() <= n,
            order < usize::MAX,
            forall|i: int| 0 <= i < ins@.len() ==> (#[trigger] ins@[i]).keymap@.len() == 96,
            iv == infos_view(ins@),
            rv == crate::xm_file::rows_view(rows@),
            goal == play_rows(format, player@, rv, r as int, order as int, iv, flow_view(flow)),
            goal == play_rows(format, old(player)@, rv, row_start as int, order as int, iv, flow_view(f)),
            n == old(player)@.active.len(),
        decreases rows@.len() - r,
    {
        assert(rv[r as int] == rows@[r as int]@);
        assert(rows@[r as int]@.len() <= n);
        let g = match play_row(player, format, &rows[r], order, ins, flow) {
            Ok(g) => g,
            Err(e) => {
                return Err(e);
            },
        };
        player.tick = sat_add(player.tick, speed_of(player.timing) as u64);
        if g.changed {
            return Ok(g);
        }
        flow = g;
        r = r + 1;
    }
    Ok(flow)
}

} // verus!

verus! {

/// Every row of every pattern has at most one cell per channel.
pub open spec fn rows_fit(patterns: Seq<Seq<Seq<TrackerCell>>>, channels: int) -> bool {
    forall|p: int, r: int| 0 <= p < patterns.len() && 0 <= r < patterns[p].len() ==> #[trigger] patterns[p][r].len() <= channels
}

/// Every instrument has a full note map.
pub open spec fn keymaps_full(ins: Seq<InstrumentInfo>) -> bool {
    forall|i: int| 0 <= i < ins.len() ==> (#[trigger] ins[i]).keymap@.len() == 96
}

/// Plays the song from its first position and row.
fn walk_song(player: &mut TrackerPlayer, format: ImportedFormat, patterns: &Vec<Vec<Vec<TrackerCell>>>, orders: &Vec<u8>,
    song_len: usize, row_cap: usize, ins: &Vec<InstrumentInfo>) -> (r: Result<(), ImportError>)
    requires
        play_wf(old(player)@, old(player)@.active.len() as int),
        rows_fit(crate::xm_file::patterns_view(patterns@), old(player)@.active.len() as int),
        song_len <= 65535,
        row_cap <= 255,
        keymaps_full(ins@),
    ensures
        match walk(format, old(player)@, SongShape {
            patterns: crate::xm_file::patterns_view(patterns@),
            orders: orders@,
            song_len: song_len as int,
            row_cap: row_cap as int,
        }, infos_view(ins@), 0, 0, walk_budget(song_len as int)) {
            Ok(q) => r is Ok && final(player)@ == q,
            Err(e) => r == Err::<(), ImportError>(e),
        },
        r is Ok ==> play_wf(final(player)@, old(player)@.active.len() as int),
{
    let ghost pv = crate::xm_file::patterns_view(patterns@);
    let ghost song = SongShape { patterns: pv, orders: orders@, song_len: song_len as int, row_cap: row_cap as int };
    let ghost iv = infos_view(ins@);
    let ghost n = player@.active.len() as int;
    let ghost goal = walk(format, player@, song, iv, 0, 0, walk_budget(song_len as int));
    let mut budget: u64 = if song_len == 0 { 1 } else { song_len as u64 * 256 };
    let mut order: usize = 0;
    let mut row_start: usize = 0;
    while order < song_len && budget > 0
        invariant
            play_wf(player@, n),
            n == old(player)@.active.len(),
            pv == crate::xm_file::patterns_view(patterns@),
            rows_fit(pv, n),
            song == (SongShape { patterns: pv, orders: orders@, song_len: song_len as int, row_cap: row_cap as int }),
            song_len <= 65535,
            row_cap <= 255,
            keymaps_full(ins@),
            iv == infos_view(ins@),
            goal == walk(format, player@, song, iv, order as int, row_start as int, budget as nat),
            goal == walk(format, old(player)@, song, iv, 0, 0, walk_budget(song_len as int)),
        decreases budget,
    {
        if order >= orders.len() {
            return Err(ImportError::InvalidFormat("song position past the order table"));
        }
        let pattern = orders[order] as usize;
        if pattern >= patterns.len() {
            player.warn(ImportWarning::new(String::from_str("XM order references missing pattern")));
            order = order + 1;
            budget = budget - 1;
            continue;
        }
        proof {
            assert forall|i: int| 0 <= i < patterns@[pattern as int]@.len()
                implies (#[trigger] patterns@[pattern as int]@[i])@.len() <= n by {
                assert(pv[pattern as int] == crate::xm_file::rows_view(patterns@[pattern as int]@));
                assert(pv[pattern as int][i] == patterns@[pattern as int]@[i]@);
            }
            assert(pv[pattern as int] == crate::xm_file::rows_view(patterns@[pattern as int]@));
        }
        let start = FlowState { next_order: order + 1, next_row: 0, changed: false };
        let g = match play_pattern(player, format, &patterns[pattern], row_start, order, ins, start) {
            Ok(g) => g,
            Err(e) => {
                return Err(e);
            },
        };
        order = g.next_order;
        row_start = if g.next_row > row_cap { row_cap } else { g.next_row };
        budget = budget - 1;
    }
    Ok(())
}

/// A tracker song as played: its tempo changes as (tick, beats per
/// minute), its notes and automation in the order they were made, its
/// warnings, and the tick it ends at.
pub struct TrackerSong {
    pub tempos: Vec<(u64, u32)>,
    pub notes: Vec<TrackerNote>,
    pub automation: Vec<TrackerAutomation>,
    pub warnings: Vec<ImportWarning>,
    pub end_tick: u64,
}

/// A song holds what a play state has made.
pub open spec fn song_matches(t: TrackerSong, p: TrackerPlay) -> bool {
    &&& t.tempos@ == p.tempos
    &&& t.notes@ == p.notes
    &&& automation_view(t.automation@) == p.automation
    &&& crate::import::warnings_view(t.warnings@) == p.warnings
    &&& t.end_tick == p.tick
}

/// Plays a tracker song: its positions in order, following position jumps
/// and pattern breaks for at most 256 positions per song position, with
/// `row_cap` the last row a break can jump to; then the notes still playing
/// end at the last tick.
pub fn play_tracker(format: ImportedFormat, patterns: &Vec<Vec<Vec<TrackerCell>>>, orders: &Vec<u8>, song_len: usize,
    row_cap: usize, channels: usize, timing: TrackerTiming, ins: &Vec<InstrumentInfo>) -> (r: Result<TrackerSong, ImportError>)
    requires
        rows_fit(crate::xm_file::patterns_view(patterns@), channels as int),
        song_len <= 65535,
        row_cap <= 255,
        keymaps_full(ins@),
    ensures
        match tracker_song(format, SongShape {
            patterns: crate::xm_file::patterns_view(patterns@),
            orders: orders@,
            song_len: song_len as int,
            row_cap: row_cap as int,
        }, channels as int, timing, infos_view(ins@)) {
            Ok(p) => r matches Ok(t) && song_matches(t, p),
            Err(e) => r == Err::<TrackerSong, ImportError>(e),
        },
{
    let mut active: Vec<Option<ActiveTrackerNote>> = Vec::new();
    let mut instruments: Vec<usize> = Vec::new();
    let mut volumes: Vec<u8> = Vec::new();
    let mut periods: Vec<Option<u64>> = Vec::new();
    let mut k: usize = 0;
    while k < channels
        invariant
            k <= channels,
            active@ == Seq::new(k as nat, |i: int| None::<ActiveTrackerNote>),
            instruments@ == Seq::new(k as nat, |i: int| 0usize),
            volumes@ == Seq::new(k as nat, |i: int| 64u8),
            periods@ == Seq::new(k as nat, |i: int| None::<u64>),
        decreases channels - k,
    {
        active.push(None);
        instruments.push(0);
        volumes.push(64);
        periods.push(None);
        k = k + 1;
    }
    let mut tempos: Vec<(u64, u32)> = Vec::new();
    tempos.push((0, timing.bpm));
    let mut player = TrackerPlayer {
        active,
        instruments,
        volumes,
        periods,
        timing,
        tick: 0,
        tempos,
        notes: Vec::new(),
        automation: Vec::new(),
        warnings: Vec::new(),
    };
    assert(player@ =~= initial_tracker(channels as int, timing));
    match walk_song(&mut player, format, patterns, orders, song_len, row_cap, ins) {
        Ok(()) => {},
        Err(e) => {
            return Err(e);
        },
    }
    let ghost walked = player@;
    let end = player.tick;
    let mut c: usize = 0;
    while c < channels
        invariant
            play_wf(player@, channels as int),
            c <= channels,
            end == walked.tick,
            player@ == close_all(walked, c as int),
            player@.tick == walked.tick,
        decreases channels - c,
    {
        player.close_channel(c, end);
        c = c + 1;
    }
    Ok(TrackerSong {
        tempos: player.tempos,
        notes: player.notes,
        automation: player.automation,
        warnings: player.warnings,
        end_tick: player.tick,
    })
}

} // verus!

verus! {

proof fn lemma_mod_cells_ok(p: TrackerPlay, cells: Seq<TrackerCell>, row: u64, order: int, ins: Seq<InstrumentInfoView>,
    f: Flow, k: int)
    ensures
        play_cells(ImportedFormat::Mod, p, cells, row, order, ins, f, k) is Ok,
    decreases k,
{
    if k > 0 {
        lemma_mod_cells_ok(p, cells, row, order, ins, f, k - 1);
    }
}

proof fn lemma_mod_rows_ok(p: TrackerPlay, rows: Seq<Seq<TrackerCell>>, r: int, order: int, ins: Seq<InstrumentInfoView>, f: Flow)
    ensures
        play_rows(ImportedFormat::Mod, p, rows, r, order, ins, f) is Ok,
    decreases rows.len() - r,
{
    if 0 <= r < rows.len() {
        lemma_mod_cells_ok(p, rows[r], p.tick, order, ins, f, rows[r].len() as int);
        let (q, g) = play_cells(ImportedFormat::Mod, p, rows[r], p.tick, order, ins, f, rows[r].len() as int)->Ok_0;
        let q2 = TrackerPlay { tick: tick_add(q.tick, speed1(q.timing) as u64), ..q };
        lemma_mod_rows_ok(q2, rows, r + 1, order, ins, g);
    }
}

proof fn lemma_mod_walk_ok(p: TrackerPlay, song: SongShape, ins: Seq<InstrumentInfoView>, order: int, row_start: int, budget: nat)
    requires
        song.song_len <= song.orders.len(),
    ensures
        walk(ImportedFormat::Mod, p, song, ins, order, row_start, budget) is Ok,
    decreases budget,
{
    if 0 <= order < song.song_len && budget > 0 {
        let pattern = song.orders[order] as int;
        if pattern >= song.patterns.len() {
            lemma_mod_walk_ok(warn_play(p, metadata_warning("XM order references missing pattern"@)), song, ins, order + 1,
                row_start, (budget - 1) as nat);
        } else {
            let f0 = Flow { next_order: order + 1, next_row: 0, changed: false };
            lemma_mod_rows_ok(p, song.patterns[pattern], row_start, order, ins, f0);
            let (q, f) = play_rows(ImportedFormat::Mod, p, song.patterns[pattern], row_start, order, ins, f0)->Ok_0;
            lemma_mod_walk_ok(q, song, ins, f.next_order, if f.next_row > song.row_cap { song.row_cap } else { f.next_row },
                (budget - 1) as nat);
        }
    }
}

/// Playing a MOD song whose song length fits its order table never fails:
/// only XM files stop an import while playing.
pub proof fn lemma_mod_play_ok(song: SongShape, channels: int, timing: TrackerTiming, ins: Seq<InstrumentInfoView>)
    requires
        song.song_len <= song.orders.len(),
    ensures
        tracker_song(ImportedFormat::Mod, song, channels, timing, ins) is Ok,
{
    lemma_mod_walk_ok(initial_tracker(channels, timing), song, ins, 0, 0, walk_budget(song.song_len));
}

} // verus!

verus! {

proof fn lemma_period_curve_len(effect: u8, start: u64, slide: u64, target: u64, n: nat)
    ensures
        period_curve(effect, start, slide, target, n).len() == n,
    decreases n,
{
    if n > 1 {
        lemma_period_curve_len(effect, start, slide, target, (n - 1) as nat);
    }
}

/// How a slide may move the period from `v` at one tick to `w` at the
/// next: 1xx lowers it by the parameter but not below 1 (pitch up); 2xx
/// raises it by the parameter, up to the largest period (pitch down); 3xx
/// and 5xx move it by the parameter toward the target without passing it.
pub open spec fn slide_moves(effect: u8, v: u64, w: u64, slide: u64, target: u64) -> bool {
    &&& effect == 0x02 ==> w >= v && (w == v + slide || (w == u64::MAX && v + slide > u64::MAX))
    &&& effect == 0x01 ==> (v - slide >= 1 ==> w == v - slide) && (v - slide < 1 ==> w == 1)
    &&& effect != 0x01 && effect != 0x02 ==> {
        &&& v > target ==> target <= w <= v && (w == v - slide || (w == target && v - slide <= target))
        &&& v < target ==> v <= w <= target && (w == v + slide || (w == target && v + slide >= target))
        &&& v == target ==> w == v
    }
}

/// A slide's period curve starts at the channel's period, has one value
/// per tick, and moves from each tick to the next as `slide_moves` says.
pub proof fn law_period_slides(effect: u8, start: u64, slide: u64, target: u64, n: nat)
    ensures
        period_curve(effect, start, slide, target, n).len() == n,
        n > 0 ==> period_curve(effect, start, slide, target, n)[0] == start,
        forall|k: int| 0 <= k < n - 1 ==> slide_moves(effect, #[trigger] period_curve(effect, start, slide, target, n)[k],
            period_curve(effect, start, slide, target, n)[k + 1], slide, target),
    decreases n,
{
    lemma_period_curve_len(effect, start, slide, target, n);
    if n > 1 {
        law_period_slides(effect, start, slide, target, (n - 1) as nat);
        let before = period_curve(effect, start, slide, target, (n - 1) as nat);
        let c = period_curve(effect, start, slide, target, n);
        assert(c == before.push(next_period(effect, before.last(), slide, target)));
        assert forall|k: int| 0 <= k < n - 1 implies slide_moves(effect, #[trigger] c[k], c[k + 1], slide, target) by {
            if k < n - 2 {
                assert(c[k] == before[k] && c[k + 1] == before[k + 1]);
                assert(slide_moves(effect, before[k], before[k + 1], slide, target));
            } else {
                assert(c[k] == before.last());
            }
        }
    }
}

/// A volume slide starts at the channel's volume, has one value per tick,
/// and moves by the slide each tick after the first, held between 0 and
/// 64.
pub proof fn law_volume_slides(start: u8, slide: int, n: nat)
    ensures
        volume_curve(start, slide, n).len() == n,
        n > 0 ==> volume_curve(start, slide, n)[0] == start,
        forall|k: int| 0 <= k < n - 1 ==> {
            let (v, w) = (#[trigger] volume_curve(start, slide, n)[k], volume_curve(start, slide, n)[k + 1]);
            &&& v + slide > 64 ==> w == 64
            &&& v + slide < 0 ==> w == 0
            &&& 0 <= v + slide <= 64 ==> w == v + slide
        },
    decreases n,
{
    if n > 1 {
        law_volume_slides(start, slide, (n - 1) as nat);
        let before = volume_curve(start, slide, (n - 1) as nat);
        let c = volume_curve(start, slide, n);
        assert(c == before.push(clamp64(before.last() + slide)));
        assert forall|k: int| 0 <= k < n - 1 implies {
            let (v, w) = (#[trigger] c[k], c[k + 1]);
            &&& v + slide > 64 ==> w == 64
            &&& v + slide < 0 ==> w == 0
            &&& 0 <= v + slide <= 64 ==> w == v + slide
        } by {
            if k < n - 2 {
                assert(c[k] == before[k] && c[k + 1] == before[k + 1]);
            } else {
                assert(c[k] == before.last());
            }
        }
    }
}

/// Volume effects: Cxx sets the channel's volume to xx, at most 64; Axy
/// slides it up by x, or, with x zero, down by y, each tick after the
/// first; the channel keeps the last volume, the note it plays gets the
/// volume or the curve as one automation point at the row's tick, and
/// every other effect changes nothing.
pub proof fn law_volume_effects(p: TrackerPlay, ch: int, row: u64, cell: TrackerCell)
    requires
        0 <= ch < p.active.len(),
        p.volumes.len() == p.active.len(),
    ensures
        ({
            let q = volume_effects(p, ch, row, cell);
            let v: u8 = if cell.effect_param > 64 { 64 } else { cell.effect_param };
            let up = cell.effect_param / 16;
            let slide: int = if up > 0 { up as int } else { -((cell.effect_param % 16) as int) };
            let curve = volume_curve(p.volumes[ch], slide, speed1(p.timing) as nat);
            &&& cell.effect == 0x0c ==> q.volumes == p.volumes.update(ch, v) && match p.active[ch] {
                Some(a) => q.automation == p.automation.push(AutomationView { key: a.key, index: row, control: ControlView::Volume(v) }),
                None => q.automation == p.automation,
            }
            &&& cell.effect == 0x0a && cell.effect_param != 0 ==> q.volumes == p.volumes.update(ch, curve.last())
                && curve.len() == speed1(p.timing) && match p.active[ch] {
                Some(a) => q.automation == p.automation.push(AutomationView { key: a.key, index: row, control: ControlView::VolumeCurve(curve) }),
                None => q.automation == p.automation,
            }
            &&& !(cell.effect == 0x0c || (cell.effect == 0x0a && cell.effect_param != 0)) ==> q == p
            &&& q.notes == p.notes && q.active == p.active && q.periods == p.periods && q.tick == p.tick
        }),
{
    reveal(volume_effects);
    let up = cell.effect_param / 16;
    let slide: int = if up > 0 { up as int } else { -((cell.effect_param % 16) as int) };
    law_volume_slides(p.volumes[ch], slide, speed1(p.timing) as nat);
}

/// A MOD pitch effect adds at most one automation point, on the track of
/// the note the channel plays and at the row's tick; a period curve it adds
/// has one value for each tick of the row; the channel's period changes
/// only for the slides (1xx, 2xx, 3xx, 5xx), which add such a curve; and
/// nothing else of the play changes.
pub proof fn law_pitch_effect_adds_one_point(p: TrackerPlay, ch: int, row: u64, cell: TrackerCell)
    requires
        0 <= ch < p.active.len(),
        p.periods.len() == p.active.len(),
    ensures
        ({
            let q = pitch_effects(p, ch, row, cell);
            &&& q == (TrackerPlay { automation: q.automation, periods: q.periods, ..p })
            &&& q.automation == p.automation || (p.active[ch] matches Some(a)
                && q.automation == p.automation.push(q.automation.last())
                && q.automation.last().key == a.key && q.automation.last().index == row)
            &&& q.automation.len() == p.automation.len() + 1
                ==> (q.automation.last().control matches ControlView::PeriodCurve { periods, .. }
                ==> periods.len() == speed1(p.timing))
            &&& q.periods != p.periods ==> (cell.effect == 1 || cell.effect == 2 || cell.effect == 3 || cell.effect == 5)
                && q.automation.len() == p.automation.len() + 1
                && q.automation.last().control is PeriodCurve
                && q.periods == p.periods.update(ch, q.periods[ch])
        }),
{
    reveal(pitch_effects);
    if let Some(a) = p.active[ch] {
        if let Some(base) = a.period {
            if base != 0 {
                let current: u64 = match p.periods[ch] { Some(v) => v, None => base as u64 };
                let target: u64 = match cell.period { Some(t) => if t == 0 { 1 } else { t as u64 }, None => 1 };
                lemma_period_curve_len(cell.effect, current, cell.effect_param as u64, target, speed1(p.timing) as nat);
            }
        }
    }
    let q = pitch_effects(p, ch, row, cell);
    if q.automation != p.automation {
        assert(q.automation == p.automation.push(q.automation.last()));
    }
}

/// Every note lasts at least one tick.
pub open spec fn durations_positive(ns: Seq<TrackerNote>) -> bool {
    forall|i: int| 0 <= i < ns.len() ==> (#[trigger] ns[i]).duration >= 1
}

proof fn lemma_push_positive(ns: Seq<TrackerNote>, n: TrackerNote)
    requires
        durations_positive(ns),
        n.duration >= 1,
    ensures
        durations_positive(ns.push(n)),
{
    assert forall|i: int| 0 <= i < ns.len() + 1 implies (#[trigger] ns.push(n)[i]).duration >= 1 by {
        if i < ns.len() {
            assert(ns.push(n)[i] == ns[i]);
        }
    }
}

proof fn lemma_close_positive(p: TrackerPlay, ch: int, end: u64)
    requires
        durations_positive(p.notes),
    ensures
        durations_positive(close_channel(p, ch, end).notes),
{
    if let Some(a) = p.active[ch] {
        lemma_push_positive(p.notes, ended(a, end));
    }
}

proof fn lemma_retrigger_from_positive(p: TrackerPlay, ch: int, row: u64, interval: u32, t: u32, speed: u32)
    requires
        durations_positive(p.notes),
    ensures
        durations_positive(retrigger_from(p, ch, row, interval, t, speed).notes),
    decreases u32::MAX - t,
{
    if !(t >= speed || interval == 0) {
        if let Some(a) = p.active[ch] {
            let tick = tick_add(row, t as u64);
            let q = if tick > a.start {
                lemma_push_positive(p.notes, ended(a, tick));
                TrackerPlay {
                    active: p.active.update(ch, Some(ActiveTrackerNote { start: tick, ..a })),
                    notes: p.notes.push(ended(a, tick)),
                    ..p
                }
            } else {
                p
            };
            lemma_retrigger_from_positive(q, ch, row, interval, add32(t, interval), speed);
        }
    }
}

proof fn lemma_effects_keep_notes(p: TrackerPlay, ch: int, row: u64, cell: TrackerCell, key: TrackKey,
    correction: Option<(u8, u16)>, format: ImportedFormat)
    ensures
        volume_effects(p, ch, row, cell).notes == p.notes,
        pitch_effects(p, ch, row, cell).notes == p.notes,
        cell_automation(p, key, row, cell, correction).notes == p.notes,
        play_effects(p, format, row, cell).notes == p.notes,
        durations_positive(p.notes) ==> durations_positive(retrigger(p, ch, row, cell).notes),
        durations_positive(p.notes) ==> durations_positive(cell_prelude(p, format, ch, row, cell).notes),
{
    reveal(volume_effects);
    reveal(pitch_effects);
    reveal(cell_automation);
    reveal(retrigger);
    reveal(cell_prelude);
    if durations_positive(p.notes) {
        if cell.effect == 0x0e && cell.effect_param / 16 == 0x09 && cell.effect_param % 16 > 0 {
            let interval = (cell.effect_param % 16) as u32;
            lemma_retrigger_from_positive(p, ch, row, interval, interval, speed1(p.timing));
        }
        let p1 = play_effects(p, format, row, cell);
        lemma_close_positive(p1, ch, row);
    }
}

proof fn lemma_mod_step_positive(p: TrackerPlay, ch: int, row: u64, cell: TrackerCell, ins: Seq<InstrumentInfoView>)
    requires
        durations_positive(p.notes),
    ensures
        durations_positive(mod_cell_step(p, ch, row, cell, ins).notes),
{
    reveal(mod_cell_step);
    let format = ImportedFormat::Mod;
    let k = TrackKey { channel: 0, instrument: 0, sample_slot: 0, sample_offset: 0 };
    lemma_effects_keep_notes(p, ch, row, cell, k, None, format);
    let p1 = cell_prelude(p, format, ch, row, cell);
    assert(durations_positive(p1.notes));
    match cell.note {
        None => {
            lemma_effects_keep_notes(p1, ch, row, cell, k, None, format);
            let v1 = volume_effects(p1, ch, row, cell);
            lemma_effects_keep_notes(v1, ch, row, cell, k, None, format);
            let pv1 = pitch_effects(v1, ch, row, cell);
            lemma_effects_keep_notes(pv1, ch, row, cell, k, None, format);
        },
        Some(note) => {
            if (cell.effect == 0x03 || cell.effect == 0x05) && p1.active[ch] is Some {
                lemma_effects_keep_notes(p1, ch, row, cell, k, None, format);
                let pp1 = pitch_effects(p1, ch, row, cell);
                lemma_effects_keep_notes(pp1, ch, row, cell, k, None, format);
                let vp1 = volume_effects(pp1, ch, row, cell);
                lemma_effects_keep_notes(vp1, ch, row, cell, k, None, format);
            } else {
                let delay = if cell.effect == 0x0e && cell.effect_param / 16 == 0x0d {
                    let last = speed1(p1.timing) - 1;
                    if (cell.effect_param % 16) as int <= last { (cell.effect_param % 16) as u64 } else { last as u64 }
                } else {
                    0
                };
                let start = tick_add(row, delay);
                lemma_close_positive(p1, ch, start);
                let p2 = close_channel(p1, ch, start);
                let inst = note_instrument(p2, ch, cell);
                if !(inst == 0 || inst > ins.len() || ins[inst - 1].samples.len() == 0) {
                    let s = ins[inst - 1].samples[0];
                    let key = TrackKey { channel: ch as usize, instrument: inst, sample_slot: 0, sample_offset: offset_frames(cell, s) };
                    let correction = match cell.period { Some(per) => Some((note, per)), None => None };
                    lemma_effects_keep_notes(p2, ch, start, cell, key, correction, format);
                    let p3 = cell_automation(p2, key, start, cell, correction);
                    let velocity = match cell.volume { Some(v) => v, None => s.volume };
                    let a = ActiveTrackerNote { start, key, period: cell.period, correction, note, velocity };
                    let p4 = start_note(p3, ch, a);
                    assert(durations_positive(p4.notes));
                    lemma_effects_keep_notes(p4, ch, row, cell, k, None, format);
                    let v4 = volume_effects(p4, ch, row, cell);
                    lemma_effects_keep_notes(v4, ch, row, cell, k, None, format);
                    let pv4 = pitch_effects(v4, ch, row, cell);
                    lemma_effects_keep_notes(pv4, ch, row, cell, k, None, format);
                }
            }
        },
    }
}

proof fn lemma_xm_step_positive(p: TrackerPlay, ch: int, row: u64, cell: TrackerCell, ins: Seq<InstrumentInfoView>)
    requires
        durations_positive(p.notes),
    ensures
        xm_cell_step(p, ch, row, cell, ins) matches Ok(q) ==> durations_positive(q.notes),
{
    reveal(xm_cell_step);
    let format = ImportedFormat::Xm;
    let k = TrackKey { channel: 0, instrument: 0, sample_slot: 0, sample_offset: 0 };
    lemma_effects_keep_notes(p, ch, row, cell, k, None, format);
    let p1 = cell_prelude(p, format, ch, row, cell);
    lemma_effects_keep_notes(p1, ch, row, cell, k, None, format);
    if let Some(note) = cell.note {
        lemma_close_positive(p1, ch, row);
        let p2 = close_channel(p1, ch, row);
        let inst = note_instrument(p2, ch, cell);
        if !(inst == 0 || inst > ins.len()) {
            let i = ins[inst - 1];
            if let Some(slot) = xm_sample_slot(i.keymap, i.samples.len() as int, note) {
                let s = i.samples[slot];
                let key = TrackKey { channel: ch as usize, instrument: inst, sample_slot: slot as usize, sample_offset: offset_frames(cell, s) };
                lemma_effects_keep_notes(p2, ch, row, cell, key, None, format);
                let p3 = cell_automation(p2, key, row, cell, None);
                let velocity = match cell.volume { Some(v) => v, None => s.volume };
                let a = ActiveTrackerNote { start: row, key, period: None, correction: None, note, velocity };
                let p4 = start_note(p3, ch, a);
                lemma_effects_keep_notes(p4, ch, row, cell, k, None, format);
            }
        }
    }
}

proof fn lemma_cell_step_positive(format: ImportedFormat, p: TrackerPlay, ch: int, row: u64, cell: TrackerCell,
    ins: Seq<InstrumentInfoView>)
    requires
        durations_positive(p.notes),
    ensures
        cell_step(format, p, ch, row, cell, ins) matches Ok(q) ==> durations_positive(q.notes),
{
    if format == ImportedFormat::Mod {
        lemma_mod_step_positive(p, ch, row, cell, ins);
    } else {
        lemma_xm_step_positive(p, ch, row, cell, ins);
    }
}

proof fn lemma_cells_positive(format: ImportedFormat, p: TrackerPlay, cells: Seq<TrackerCell>, row: u64, order: int,
    ins: Seq<InstrumentInfoView>, f: Flow, k: int)
    requires
        durations_positive(p.notes),
    ensures
        play_cells(format, p, cells, row, order, ins, f, k) matches Ok((q, _)) ==> durations_positive(q.notes),
    decreases k,
{
    if k > 0 {
        lemma_cells_positive(format, p, cells, row, order, ins, f, k - 1);
        if let Ok((q, g)) = play_cells(format, p, cells, row, order, ins, f, k - 1) {
            lemma_cell_step_positive(format, q, k - 1, row, cells[k - 1], ins);
        }
    }
}

proof fn lemma_rows_positive(format: ImportedFormat, p: TrackerPlay, rows: Seq<Seq<TrackerCell>>, r: int, order: int,
    ins: Seq<InstrumentInfoView>, f: Flow)
    requires
        durations_positive(p.notes),
    ensures
        play_rows(format, p, rows, r, order, ins, f) matches Ok((q, _)) ==> durations_positive(q.notes),
    decreases rows.len() - r,
{
    if 0 <= r < rows.len() {
        lemma_cells_positive(format, p, rows[r], p.tick, order, ins, f, rows[r].len() as int);
        if let Ok((q, g)) = play_cells(format, p, rows[r], p.tick, order, ins, f, rows[r].len() as int) {
            let q2 = TrackerPlay { tick: tick_add(q.tick, speed1(q.timing) as u64), ..q };
            if !g.changed {
                lemma_rows_positive(format, q2, rows, r + 1, order, ins, g);
            }
        }
    }
}

proof fn lemma_walk_positive(format: ImportedFormat, p: TrackerPlay, song: SongShape, ins: Seq<InstrumentInfoView>,
    order: int, row_start: int, budget: nat)
    requires
        durations_positive(p.notes),
    ensures
        walk(format, p, song, ins, order, row_start, budget) matches Ok(q) ==> durations_positive(q.notes),
    decreases budget,
{
    if 0 <= order < song.song_len && budget > 0 {
        let pattern = song.orders[order] as int;
        if pattern >= song.patterns.len() {
            lemma_walk_positive(format, warn_play(p, metadata_warning("XM order references missing pattern"@)), song, ins,
                order + 1, row_start, (budget - 1) as nat);
        } else {
            let f0 = Flow { next_order: order + 1, next_row: 0, changed: false };
            lemma_rows_positive(format, p, song.patterns[pattern], row_start, order, ins, f0);
            if let Ok((q, f)) = play_rows(format, p, song.patterns[pattern], row_start, order, ins, f0) {
                lemma_walk_positive(format, q, song, ins, f.next_order,
                    if f.next_row > song.row_cap { song.row_cap } else { f.next_row }, (budget - 1) as nat);
            }
        }
    }
}

proof fn lemma_close_all_positive(p: TrackerPlay, k: int)
    requires
        durations_positive(p.notes),
    ensures
        durations_positive(close_all(p, k).notes),
    decreases k,
{
    if k > 0 {
        lemma_close_all_positive(p, k - 1);
        lemma_close_positive(close_all(p, k - 1), k - 1, p.tick);
    }
}

/// Every note of an imported tracker song, MOD or XM, lasts at least one
/// tick: notes cut by another note, a key-off, a retrigger or the end of the
/// song all keep their first tick.
pub proof fn law_tracker_notes_last(format: ImportedFormat, song: SongShape, channels: int, timing: TrackerTiming,
    ins: Seq<InstrumentInfoView>)
    requires
        tracker_song(format, song, channels, timing, ins) is Ok,
    ensures
        durations_positive(tracker_song(format, song, channels, timing, ins)->Ok_0.notes),
{
    let p0 = initial_tracker(channels, timing);
    lemma_walk_positive(format, p0, song, ins, 0, 0, walk_budget(song.song_len));
    let p = walk(format, p0, song, ins, 0, 0, walk_budget(song.song_len))->Ok_0;
    lemma_close_all_positive(p, channels);
}

} // verus!
