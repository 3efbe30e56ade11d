use vstd::prelude::*;
use vstd::string::*;

use crate::bytes::{be16, be32, be_u16, be_u32, end_of_data, read_u8, read_var_len, var_len_spec};
use crate::import::{timing_warning, warnings_view, ImportError, ImportWarning, ImportedFormat, WarningView};
use crate::text::{c_string_text, hex_bytes, hex_text, trim_c_string};

verus! {

/// What a MIDI track event says, as the importer keeps it.
#[derive(Debug, Clone, PartialEq, Eq)]
pub enum MidiEventKind {
    NoteOn { ch: u8, note: u8, vel: u8 },
    NoteOff { ch: u8, note: u8 },
    PolyPressure { ch: u8 },
    Program { ch: u8, program: u8 },
    Controller { ch: u8, controller: u8, value: u8 },
    ChannelPressure { ch: u8 },
    PitchBend { ch: u8, value: i16 },
    Tempo { micros_per_quarter: u32 },
    TrackName(String),
    Copyright(String),
    Text { kind: &'static str, text: String },
}

/// The mathematical content of a `MidiEventKind`: texts as character
/// sequences.
pub enum MidiKind {
    NoteOn { ch: u8, note: u8, vel: u8 },
    NoteOff { ch: u8, note: u8 },
    PolyPressure { ch: u8 },
    Program { ch: u8, program: u8 },
    Controller { ch: u8, controller: u8, value: u8 },
    ChannelPressure { ch: u8 },
    PitchBend { ch: u8, value: i16 },
    Tempo { micros_per_quarter: u32 },
    TrackName(Seq<char>),
    Copyright(Seq<char>),
    Text { kind: Seq<char>, text: Seq<char> },
}

impl View for MidiEventKind {
    type V = MidiKind;

    open spec fn view(&self) -> MidiKind {
        match self {
            MidiEventKind::NoteOn { ch, note, vel } => MidiKind::NoteOn { ch: *ch, note: *note, vel: *vel },
            MidiEventKind::NoteOff { ch, note } => MidiKind::NoteOff { ch: *ch, note: *note },
            MidiEventKind::PolyPressure { ch } => MidiKind::PolyPressure { ch: *ch },
            MidiEventKind::Program { ch, program } => MidiKind::Program { ch: *ch, program: *program },
            MidiEventKind::Controller { ch, controller, value } => MidiKind::Controller {
                ch: *ch,
                controller: *controller,
                value: *value,
            },
            MidiEventKind::ChannelPressure { ch } => MidiKind::ChannelPressure { ch: *ch },
            MidiEventKind::PitchBend { ch, value } => MidiKind::PitchBend { ch: *ch, value: *value },
            MidiEventKind::Tempo { micros_per_quarter } => MidiKind::Tempo {
                micros_per_quarter: *micros_per_quarter,
            },
            MidiEventKind::TrackName(name) => MidiKind::TrackName(name@),
            MidiEventKind::Copyright(text) => MidiKind::Copyright(text@),
            MidiEventKind::Text { kind, text } => MidiKind::Text { kind: kind@, text: text@ },
        }
    }
}

/// One event of a MIDI file, with its absolute tick and its position in the
/// order in which the file lists events.
#[derive(Debug, Clone, PartialEq, Eq)]
pub struct MidiEvent {
    pub tick: u64,
    pub order: usize,
    pub kind: MidiEventKind,
}

/// The mathematical content of a `MidiEvent`.
pub struct MidiEventView {
    pub tick: u64,
    pub order: usize,
    pub kind: MidiKind,
}

impl View for MidiEvent {
    type V = MidiEventView;

    open spec fn view(&self) -> MidiEventView {
        MidiEventView { tick: self.tick, order: self.order, kind: self.kind@ }
    }
}

/// The views of a list of events.
pub open spec fn events_view(events: Seq<MidiEvent>) -> Seq<MidiEventView> {
    events.map_values(|e: MidiEvent| e@)
}

/// Appends an event with the next order number.
pub fn push_midi_event(events: &mut Vec<MidiEvent>, order: &mut usize, tick: u64, kind: MidiEventKind)
    requires
        *old(order) < usize::MAX,
    ensures
        final(events)@ == old(events)@.push(MidiEvent { tick, order: *old(order), kind }),
        *final(order) == *old(order) + 1,
{
    events.push(MidiEvent { tick, order: *order, kind });
    *order = *order + 1;
}

/// The event that a meta event with the given type byte and data becomes,
/// if any: tempo, copyright, track name, and the text-like events.
pub open spec fn meta_kind(meta: u8, data: Seq<u8>) -> Option<MidiKind> {
    if meta == 0x51 && data.len() == 3 {
        Some(MidiKind::Tempo {
            micros_per_quarter: (data[0] as int * 65536 + data[1] as int * 256 + data[2] as int) as u32,
        })
    } else if meta == 0x02 {
        Some(MidiKind::Copyright(c_string_text(data)))
    } else if meta == 0x03 {
        Some(MidiKind::TrackName(c_string_text(data)))
    } else if meta == 0x01 {
        Some(MidiKind::Text { kind: "text"@, text: c_string_text(data) })
    } else if meta == 0x05 {
        Some(MidiKind::Text { kind: "lyric"@, text: c_string_text(data) })
    } else if meta == 0x06 {
        Some(MidiKind::Text { kind: "marker"@, text: c_string_text(data) })
    } else if meta == 0x07 {
        Some(MidiKind::Text { kind: "cue"@, text: c_string_text(data) })
    } else if meta == 0x58 {
        Some(MidiKind::Text { kind: "time-signature"@, text: hex_text(data) })
    } else if meta == 0x59 {
        Some(MidiKind::Text { kind: "key-signature"@, text: hex_text(data) })
    } else {
        None
    }
}

fn meta_event_kind(meta: u8, data: &[u8]) -> (r: Option<MidiEventKind>)
    ensures
        match r {
            Some(k) => meta_kind(meta, data@) == Some(k@),
            None => meta_kind(meta, data@) is None,
        },
{
    if meta == 0x51 && data.len() == 3 {
        let micros: u32 = (data[0] as u32) * 65536 + (data[1] as u32) * 256 + (data[2] as u32);
        Some(MidiEventKind::Tempo { micros_per_quarter: micros })
    } else if meta == 0x02 {
        Some(MidiEventKind::Copyright(trim_c_string(data)))
    } else if meta == 0x03 {
        Some(MidiEventKind::TrackName(trim_c_string(data)))
    } else if meta == 0x01 {
        Some(MidiEventKind::Text { kind: "text", text: trim_c_string(data) })
    } else if meta == 0x05 {
        Some(MidiEventKind::Text { kind: "lyric", text: trim_c_string(data) })
    } else if meta == 0x06 {
        Some(MidiEventKind::Text { kind: "marker", text: trim_c_string(data) })
    } else if meta == 0x07 {
        Some(MidiEventKind::Text { kind: "cue", text: trim_c_string(data) })
    } else if meta == 0x58 {
        Some(MidiEventKind::Text { kind: "time-signature", text: hex_bytes(data) })
    } else if meta == 0x59 {
        Some(MidiEventKind::Text { kind: "key-signature", text: hex_bytes(data) })
    } else {
        None
    }
}

/// Appends the event of a meta event, if it has one.
pub fn push_midi_meta_event(events: &mut Vec<MidiEvent>, order: &mut usize, tick: u64, meta: u8, data: &[u8])
    requires
        *old(order) < usize::MAX,
    ensures
        match meta_kind(meta, data@) {
            Some(k) => events_view(final(events)@) == events_view(old(events)@).push(
                MidiEventView { tick, order: *old(order), kind: k },
            ) && *final(order) == *old(order) + 1,
            None => final(events)@ == old(events)@ && *final(order) == *old(order),
        },
{
    if let Some(kind) = meta_event_kind(meta, data) {
        push_midi_event(events, order, tick, kind);
        assert(events_view(events@) =~= events_view(old(events)@).push(
            MidiEventView { tick, order: *old(order), kind: meta_kind(meta, data@)->0 },
        ));
    }
}

} // verus!

verus! {

/// `a + b`, or `u64::MAX` when that overflows.
pub open spec fn sat_add(a: u64, b: u64) -> u64 {
    if a + b > u64::MAX { u64::MAX } else { (a + b) as u64 }
}

/// What one event of a track leads to: a channel event, a meta event with
/// its type byte and the bounds of its data, or nothing (system exclusive).
pub enum MidiRead {
    Channel(MidiEventKind),
    Meta { meta: u8, start: usize, end: usize },
    Skip,
}

/// The mathematical content of a `MidiRead`.
pub enum MidiReadView {
    Channel(MidiKind),
    Meta { meta: u8, start: int, end: int },
    Skip,
}

impl View for MidiRead {
    type V = MidiReadView;

    open spec fn view(&self) -> MidiReadView {
        match self {
            MidiRead::Channel(k) => MidiReadView::Channel(k@),
            MidiRead::Meta { meta, start, end } => MidiReadView::Meta {
                meta: *meta,
                start: *start as int,
                end: *end as int,
            },
            MidiRead::Skip => MidiReadView::Skip,
        }
    }
}

/// The number of data bytes that a channel status byte takes.
pub open spec fn channel_data_len(status: u8) -> int {
    if 0xc0 <= status <= 0xdf { 1 } else { 2 }
}

/// The channel event of a status byte and its data bytes.
pub open spec fn channel_kind(status: u8, d0: u8, d1: u8) -> MidiKind {
    let ch = (status % 16) as u8;
    if status <= 0x8f {
        MidiKind::NoteOff { ch, note: d0 }
    } else if status <= 0x9f {
        MidiKind::NoteOn { ch, note: d0, vel: d1 }
    } else if status <= 0xaf {
        MidiKind::PolyPressure { ch }
    } else if status <= 0xbf {
        MidiKind::Controller { ch, controller: d0, value: d1 }
    } else if status <= 0xcf {
        MidiKind::Program { ch, program: d0 }
    } else if status <= 0xdf {
        MidiKind::ChannelPressure { ch }
    } else {
        MidiKind::PitchBend { ch, value: (((((d1 as u16) << 7u16) | (d0 as u16)) as int) - 8192) as i16 }
    }
}

/// What the body of an event with the given status does from `off`: the
/// error, or the offset after it and what it reads.
pub open spec fn event_body(s: Seq<u8>, off: int, status: u8) -> Result<(int, MidiReadView), ImportError> {
    if 0x80 <= status <= 0xef {
        if off + channel_data_len(status) > s.len() {
            Err(end_of_data())
        } else {
            let d1 = if channel_data_len(status) == 2 { s[off + 1] } else { 0 };
            Ok((off + channel_data_len(status), MidiReadView::Channel(channel_kind(status, s[off], d1))))
        }
    } else if status == 0xff {
        if off >= s.len() {
            Err(end_of_data())
        } else {
            let (len, data) = var_len_spec(s, off + 1, 4, 0);
            match len {
                Err(e) => Err(e),
                Ok(l) => if data + l > s.len() {
                    Err(ImportError::InvalidFormat("truncated MIDI meta event"))
                } else {
                    Ok((data + l, MidiReadView::Meta { meta: s[off], start: data, end: data + l }))
                },
            }
        }
    } else if status == 0xf0 || status == 0xf7 {
        let (len, data) = var_len_spec(s, off, 4, 0);
        match len {
            Err(e) => Err(e),
            Ok(l) => if data + l > s.len() {
                Err(ImportError::InvalidFormat("truncated MIDI sysex event"))
            } else {
                Ok((data + l, MidiReadView::Skip))
            },
        }
    } else {
        Err(ImportError::InvalidFormat("unknown MIDI event status"))
    }
}

/// What reading one event at `off` does, given the tick and the running
/// status before it: the error, or the offset after the event, the new tick,
/// the new running status, and what the event reads.
pub open spec fn event_step(s: Seq<u8>, off: int, tick: u64, running: Option<u8>)
    -> Result<(int, u64, Option<u8>, MidiReadView), ImportError>
{
    let (delta, pos) = var_len_spec(s, off, 4, 0);
    match delta {
        Err(e) => Err(e),
        Ok(d) => {
            let t = sat_add(tick, d);
            if pos >= s.len() {
                Err(ImportError::InvalidFormat("truncated MIDI event"))
            } else if s[pos] < 0x80 && running is None {
                Err(ImportError::InvalidFormat("MIDI running status without prior status"))
            } else {
                let status = if s[pos] < 0x80 { running->0 } else { s[pos] };
                let body = if s[pos] < 0x80 { pos } else { pos + 1 };
                let run = if s[pos] >= 0x80 && s[pos] < 0xf0 { Some(s[pos]) } else { running };
                match event_body(s, body, status) {
                    Err(e) => Err(e),
                    Ok((end, read)) => Ok((end, t, run, read)),
                }
            }
        }
    }
}

proof fn lemma_var_len_advances(s: Seq<u8>, off: int, remaining: nat, acc: int)
    requires
        0 <= off,
    ensures
        var_len_spec(s, off, remaining, acc).0 is Ok ==> off < var_len_spec(s, off, remaining, acc).1 <= s.len(),
        var_len_spec(s, off, remaining, acc).1 >= off,
    decreases remaining,
{
    if remaining > 0 && off < s.len() && s[off] >= 128 {
        lemma_var_len_advances(s, off + 1, (remaining - 1) as nat, acc * 128 + (s[off] % 128) as int);
    }
}

proof fn lemma_step_advances(s: Seq<u8>, off: int, tick: u64, running: Option<u8>)
    requires
        0 <= off,
    ensures
        event_step(s, off, tick, running) matches Ok((end, _, _, _)) ==> off < end <= s.len(),
{
    lemma_var_len_advances(s, off, 4, 0);
    let (delta, pos) = var_len_spec(s, off, 4, 0);
    if delta is Ok && pos < s.len() {
        let body = if s[pos] < 0x80 { pos } else { pos + 1 };
        lemma_var_len_advances(s, body + 1, 4, 0);
        lemma_var_len_advances(s, body, 4, 0);
    }
}

/// Reads one event of a track at `*offset`, moving the offset past it and
/// keeping the tick and the running status up to date.
pub fn read_midi_event(bytes: &[u8], offset: &mut usize, tick: &mut u64, running: &mut Option<u8>)
    -> (r: Result<MidiRead, ImportError>)
    ensures
        match event_step(bytes@, *old(offset) as int, *old(tick), *old(running)) {
            Err(e) => r == Err::<MidiRead, ImportError>(e),
            Ok((end, t, run, read)) => r matches Ok(x) && x@ == read && *final(offset) == end
                && *final(tick) == t && *final(running) == run,
        },
{
    let ghost off0 = *offset as int;
    let delta = read_var_len(bytes, offset)?;
    proof { crate::bytes::lemma_var_len_bound(bytes@, off0); }
    *tick = if *tick > u64::MAX - delta { u64::MAX } else { *tick + delta };
    if *offset >= bytes.len() {
        return Err(ImportError::InvalidFormat("truncated MIDI event"));
    }
    let first = bytes[*offset];
    let status = if first < 0x80 {
        match *running {
            Some(s) => s,
            None => {
                return Err(ImportError::InvalidFormat("MIDI running status without prior status"));
            },
        }
    } else {
        *offset = *offset + 1;
        if first < 0xf0 {
            *running = Some(first);
        }
        first
    };
    let ghost body = *offset as int;
    if 0x80 <= status && status <= 0xef {
        let d0 = read_u8(bytes, offset)?;
        let ch = status & 0x0f;
        assert(ch == status % 16) by (bit_vector) requires ch == status & 0x0f;
        let kind = if status <= 0x8f {
            let _velocity = read_u8(bytes, offset)?;
            MidiEventKind::NoteOff { ch, note: d0 }
        } else if status <= 0x9f {
            let vel = read_u8(bytes, offset)?;
            MidiEventKind::NoteOn { ch, note: d0, vel }
        } else if status <= 0xaf {
            let _pressure = read_u8(bytes, offset)?;
            MidiEventKind::PolyPressure { ch }
        } else if status <= 0xbf {
            let value = read_u8(bytes, offset)?;
            MidiEventKind::Controller { ch, controller: d0, value }
        } else if status <= 0xcf {
            MidiEventKind::Program { ch, program: d0 }
        } else if status <= 0xdf {
            MidiEventKind::ChannelPressure { ch }
        } else {
            let msb = read_u8(bytes, offset)?;
            let raw: u16 = ((msb as u16) << 7) | (d0 as u16);
            assert(raw <= 32767) by (bit_vector)
                requires raw == ((msb as u16) << 7) | (d0 as u16);
            MidiEventKind::PitchBend { ch, value: (raw as i16) - 8192 }
        };
        assert(event_body(bytes@, body, status) matches Ok((end, read)) && end == *offset && read == MidiReadView::Channel(kind@));
        Ok(MidiRead::Channel(kind))
    } else if status == 0xff {
        let meta = read_u8(bytes, offset)?;
        let ghost data = *offset as int;
        let len = read_var_len(bytes, offset)?;
        proof { crate::bytes::lemma_var_len_bound(bytes@, data); }
        let start = *offset;
        let len = len as usize;
        if len > bytes.len() - start {
            return Err(ImportError::InvalidFormat("truncated MIDI meta event"));
        }
        let end = start + len;
        *offset = end;
        Ok(MidiRead::Meta { meta, start, end })
    } else if status == 0xf0 || status == 0xf7 {
        let ghost data = *offset as int;
        let len = read_var_len(bytes, offset)?;
        proof { crate::bytes::lemma_var_len_bound(bytes@, data); }
        let start = *offset;
        let len = len as usize;
        if len > bytes.len() - start {
            return Err(ImportError::InvalidFormat("truncated MIDI sysex event"));
        }
        *offset = start + len;
        Ok(MidiRead::Skip)
    } else {
        Err(ImportError::InvalidFormat("unknown MIDI event status"))
    }
}

} // verus!

verus! {

/// The events that one read contributes: the channel event, the event of a
/// meta event if it has one, or none.
pub open spec fn read_events(s: Seq<u8>, t: u64, read: MidiReadView) -> Seq<(u64, MidiKind)> {
    match read {
        MidiReadView::Channel(k) => seq![(t, k)],
        MidiReadView::Meta { meta, start, end } => match meta_kind(meta, s.subrange(start, end)) {
            Some(k) => seq![(t, k)],
            None => Seq::empty(),
        },
        MidiReadView::Skip => Seq::empty(),
    }
}

/// The events of a track from `off` on, each with its tick, and the error
/// that ends the track early, if any.
pub open spec fn track_events(s: Seq<u8>, off: int, tick: u64, running: Option<u8>)
    -> (Seq<(u64, MidiKind)>, Option<ImportError>)
    decreases s.len() - off,
{
    if off < 0 || off >= s.len() {
        (Seq::empty(), None)
    } else {
        match event_step(s, off, tick, running) {
            Err(e) => (Seq::empty(), Some(e)),
            Ok((end, t, run, read)) => if end <= off || end > s.len() {
                (Seq::empty(), None)
            } else {
                let (rest, err) = track_events(s, end, t, run);
                (read_events(s, t, read) + rest, err)
            },
        }
    }
}

/// The events of a track numbered in file order from `first`.
pub open spec fn numbered(evs: Seq<(u64, MidiKind)>, first: int) -> Seq<MidiEventView> {
    Seq::new(evs.len(), |i: int| MidiEventView { tick: evs[i].0, order: (first + i) as usize, kind: evs[i].1 })
}

pub(crate) proof fn lemma_track_events_count(s: Seq<u8>, off: int, tick: u64, running: Option<u8>)
    requires
        0 <= off,
    ensures
        track_events(s, off, tick, running).0.len() <= s.len() - off || off >= s.len(),
    decreases s.len() - off,
{
    if off < s.len() {
        lemma_step_advances(s, off, tick, running);
        if let Ok((end, t, run, read)) = event_step(s, off, tick, running) {
            if off < end <= s.len() {
                lemma_track_events_count(s, end, t, run);
            }
        }
    }
}

proof fn lemma_track_ticks(s: Seq<u8>, off: int, tick: u64, running: Option<u8>)
    ensures
        forall|i: int| 0 <= i < track_events(s, off, tick, running).0.len()
            ==> #[trigger] track_events(s, off, tick, running).0[i].0 >= tick,
        forall|i: int, j: int| 0 <= i < j < track_events(s, off, tick, running).0.len()
            ==> #[trigger] track_events(s, off, tick, running).0[i].0 <= #[trigger] track_events(s, off, tick, running).0[j].0,
    decreases s.len() - off,
{
    if !(off < 0 || off >= s.len()) {
        if let Ok((end, t, run, read)) = event_step(s, off, tick, running) {
            if !(end <= off || end > s.len()) {
                lemma_track_ticks(s, end, t, run);
                let here = read_events(s, t, read);
                let rest = track_events(s, end, t, run).0;
                let all = here + rest;
                assert(t >= tick);
                assert forall|i: int| 0 <= i < here.len() implies #[trigger] here[i].0 == t by {}
                assert forall|i: int| 0 <= i < all.len() implies #[trigger] all[i].0 >= tick by {
                    if i < here.len() {
                        assert(all[i] == here[i]);
                    } else {
                        assert(all[i] == rest[i - here.len()]);
                    }
                }
                assert forall|i: int, j: int| 0 <= i < j < all.len() implies #[trigger] all[i].0 <= #[trigger] all[j].0 by {
                    if j < here.len() {
                        assert(all[i] == here[i] && all[j] == here[j]);
                    } else if i < here.len() {
                        assert(all[i] == here[i] && all[j] == rest[j - here.len()]);
                    } else {
                        assert(all[i] == rest[i - here.len()] && all[j] == rest[j - here.len()]);
                    }
                }
            }
        }
    }
}

/// What one track chunk appends is in file order: the events are numbered
/// one after another from the counter they start at, and their ticks never
/// fall.
pub proof fn law_track_events_in_order(bytes: Seq<u8>, first: int)
    requires
        0 <= first,
        first + bytes.len() <= usize::MAX,
    ensures
        ({
            let evs = numbered(track_events(bytes, 0, 0, None).0, first);
            &&& forall|i: int| 0 <= i < evs.len() ==> #[trigger] evs[i].order == first + i
            &&& forall|i: int, j: int| 0 <= i < j < evs.len() ==> #[trigger] evs[i].tick <= #[trigger] evs[j].tick
        }),
{
    let raw = track_events(bytes, 0, 0, None).0;
    lemma_track_events_count(bytes, 0, 0, None);
    lemma_track_ticks(bytes, 0, 0, None);
    let evs = numbered(raw, first);
    assert forall|i: int| 0 <= i < evs.len() implies #[trigger] evs[i].order == first + i by {
        assert(first + i <= usize::MAX);
    }
    assert forall|i: int, j: int| 0 <= i < j < evs.len() implies #[trigger] evs[i].tick <= #[trigger] evs[j].tick by {
        assert(raw[i].0 <= raw[j].0);
    }
}

/// Reads every event of one track chunk and appends them, numbered from
/// `*order` on in file order, with their absolute ticks.
pub fn parse_midi_track(bytes: &[u8], order: &mut usize, events: &mut Vec<MidiEvent>) -> (r: Result<(), ImportError>)
    requires
        *old(order) + bytes@.len() <= usize::MAX,
    ensures
        ({
            let (evs, err) = track_events(bytes@, 0, 0, None);
            &&& events_view(final(events)@) == events_view(old(events)@) + numbered(evs, *old(order) as int)
            &&& *final(order) == *old(order) + evs.len()
            &&& match err {
                None => r is Ok,
                Some(e) => r == Err::<(), ImportError>(e),
            }
        }),
{
    let mut offset: usize = 0;
    let mut tick: u64 = 0;
    let mut running: Option<u8> = None;
    let ghost o0 = *order as int;
    let ghost done: Seq<(u64, MidiKind)> = Seq::empty();
    let ghost total = track_events(bytes@, 0, 0, None);
    while offset < bytes.len()
        invariant
            offset <= bytes@.len(),
            o0 == *old(order) as int,
            total == track_events(bytes@, 0, 0, None),
            total.0 == done + track_events(bytes@, offset as int, tick, running).0,
            total.1 == track_events(bytes@, offset as int, tick, running).1,
            events_view(events@) == events_view(old(events)@) + numbered(done, o0),
            *order == o0 + done.len(),
            done.len() <= offset,
            o0 + bytes@.len() <= usize::MAX,
        decreases bytes@.len() - offset,
    {
        let ghost off = offset as int;
        let ghost t0 = tick;
        let ghost r0 = running;
        proof {
            lemma_step_advances(bytes@, off, t0, r0);
        }
        let read = read_midi_event(bytes, &mut offset, &mut tick, &mut running);
        let read = match read {
            Ok(x) => x,
            Err(e) => {
                assert(track_events(bytes@, off, t0, r0).0 =~= Seq::<(u64, MidiKind)>::empty());
                assert(done + Seq::<(u64, MidiKind)>::empty() =~= done);
                return Err(e);
            },
        };
        let ghost step = read_events(bytes@, tick, read@);
        let ghost before = events@;
        match read {
            MidiRead::Channel(kind) => {
                push_midi_event(events, order, tick, kind);
                assert(events_view(events@) =~= events_view(before).push(events@.last()@));
            },
            MidiRead::Meta { meta, start, end } => {
                push_midi_meta_event(events, order, tick, meta, &bytes[start..end]);
            },
            MidiRead::Skip => {},
        }
        proof {
            assert(events_view(events@) =~= events_view(old(events)@) + numbered(done + step, o0));
            assert(done + step + track_events(bytes@, offset as int, tick, running).0
                =~= done + (step + track_events(bytes@, offset as int, tick, running).0));
            done = done + step;
        }
    }
    assert(done + track_events(bytes@, offset as int, tick, running).0 =~= done);
    Ok(())
}

} // verus!

verus! {

/// The four tag bytes of a chunk at `off`.
pub open spec fn tag_at(s: Seq<u8>, off: int) -> Seq<u8> {
    s.subrange(off, off + 4)
}

/// "MThd"
pub open spec fn header_tag() -> Seq<u8> {
    seq![0x4du8, 0x54u8, 0x68u8, 0x64u8]
}

/// "MTrk"
pub open spec fn track_tag() -> Seq<u8> {
    seq![0x4du8, 0x54u8, 0x72u8, 0x6bu8]
}

fn tag_matches(bytes: &[u8], off: usize, tag: [u8; 4]) -> (r: bool)
    requires
        off + 4 <= bytes@.len(),
    ensures
        r == (tag_at(bytes@, off as int) == tag@),
{
    let r = bytes[off] == tag[0] && bytes[off + 1] == tag[1] && bytes[off + 2] == tag[2] && bytes[off + 3] == tag[3];
    assert(r ==> tag_at(bytes@, off as int) =~= tag@);
    assert(tag_at(bytes@, off as int) =~= tag@ ==> tag_at(bytes@, off as int)[0] == tag@[0]
        && tag_at(bytes@, off as int)[1] == tag@[1] && tag_at(bytes@, off as int)[2] == tag@[2]
        && tag_at(bytes@, off as int)[3] == tag@[3]);
    r
}

/// The header of a MIDI file: its format, its track count, its time
/// division and where the first track chunk starts; or why it is refused.
pub open spec fn midi_header(s: Seq<u8>) -> Result<(u16, u16, u16, int), ImportError> {
    if s.len() < 14 || tag_at(s, 0) != header_tag() {
        Err(ImportError::InvalidFormat("missing MIDI header"))
    } else if be32(s, 4) < 6 || s.len() < 8 + be32(s, 4) {
        Err(ImportError::InvalidFormat("truncated MIDI header"))
    } else if be16(s, 8) > 2 {
        Err(ImportError::UnsupportedFormatFeature("only MIDI format 0, 1, and 2 are supported"))
    } else {
        Ok((be16(s, 8), be16(s, 10), be16(s, 12), 8 + be32(s, 4)))
    }
}

/// The events of `remaining` track chunks from `off` on, numbered in file
/// order from `order`, and the error that stops reading, if any.
pub open spec fn chunk_events(s: Seq<u8>, off: int, remaining: nat, order: int)
    -> (Seq<MidiEventView>, Option<ImportError>)
    decreases remaining,
{
    if remaining == 0 {
        (Seq::empty(), None)
    } else if off + 8 > s.len() || tag_at(s, off) != track_tag() {
        (Seq::empty(), Some(ImportError::InvalidFormat("missing MIDI track chunk")))
    } else if off + 8 + be32(s, off + 4) > s.len() {
        (Seq::empty(), Some(ImportError::InvalidFormat("truncated MIDI track")))
    } else {
        let end = off + 8 + be32(s, off + 4);
        let (evs, err) = track_events(s.subrange(off + 8, end), 0, 0, None);
        let here = numbered(evs, order);
        match err {
            Some(e) => (here, Some(e)),
            None => {
                let (rest, e2) = chunk_events(s, end, (remaining - 1) as nat, order + evs.len());
                (here + rest, e2)
            },
        }
    }
}

/// The ticks per quarter note that a time division gives: the ticks per
/// frame of an SMPTE division, or the division itself, at least one.
pub open spec fn midi_ppq(division: u16) -> u32 {
    if division >= 0x8000 {
        if division % 256 == 0 { 1 } else { (division % 256) as u32 }
    } else if division == 0 {
        1
    } else {
        division as u32
    }
}

/// The warnings that a MIDI header alone gives, in full.
pub open spec fn header_warning_views(format: u16, division: u16) -> Seq<WarningView> {
    let smpte = if division >= 0x8000 {
        seq![timing_warning(ImportedFormat::Midi, "SMPTE MIDI time division imported on a ticks-per-frame grid"@)]
    } else {
        Seq::empty()
    };
    let flattened = if format == 2 {
        seq![timing_warning(ImportedFormat::Midi, "MIDI format 2 independent sequence boundaries were flattened"@)]
    } else {
        Seq::empty()
    };
    smpte + flattened
}


/// True when events are ordered by tick, and by file order within a tick.
pub open spec fn sorted_by_tick(events: Seq<MidiEventView>) -> bool {
    forall|i: int, j: int| 0 <= i < j < events.len() ==>
        (events[i].tick < events[j].tick || (events[i].tick == events[j].tick && events[i].order <= events[j].order))
}

/// The events of a MIDI file, read and put in playing order, with the
/// header's format and timing.
pub struct MidiFile {
    pub format: u16,
    pub division: u16,
    pub ppq: u32,
    pub events: Vec<MidiEvent>,
    pub warnings: Vec<ImportWarning>,
}

/// Puts events in order of tick, and of file order within a tick.
///
/// Trusted: calls `slice::sort_by_key` with the key `(tick, order)`, which
/// the documentation says sorts the slice by that key without losing or
/// adding an element.
#[verifier::external_body]
fn sort_events(events: &mut Vec<MidiEvent>)
    ensures
        final(events)@.to_multiset() == old(events)@.to_multiset(),
        events_view(final(events)@).to_multiset() == events_view(old(events)@).to_multiset(),
        forall|i: int, j: int| 0 <= i < j < final(events)@.len() ==>
            final(events)@[i].tick < final(events)@[j].tick || (final(events)@[i].tick == final(events)@[j].tick
                && final(events)@[i].order <= final(events)@[j].order),
{
    events.sort_by_key(|event| (event.tick, event.order));
}

} // verus!

verus! {

/// Reads the header and every track chunk of a Standard MIDI File and puts
/// all events in playing order.
pub fn read_midi_file(bytes: &[u8]) -> (r: Result<MidiFile, ImportError>)
    ensures
        match midi_header(bytes@) {
            Err(e) => r == Err::<MidiFile, ImportError>(e),
            Ok((format, tracks, division, first)) => {
                let (evs, err) = chunk_events(bytes@, first, tracks as nat, 0);
                match err {
                    Some(e) => r == Err::<MidiFile, ImportError>(e),
                    None => r matches Ok(f) && f.format == format && f.division == division
                        && f.ppq == midi_ppq(division)
                        && warnings_view(f.warnings@) == header_warning_views(format, division)
                        && events_view(f.events@).to_multiset() == evs.to_multiset()
                        && sorted_by_tick(events_view(f.events@)),
                }
            },
        },
{
    if bytes.len() < 14 || !tag_matches(bytes, 0, [0x4d, 0x54, 0x68, 0x64]) {
        return Err(ImportError::InvalidFormat("missing MIDI header"));
    }
    let header_len = be_u32(bytes, 4)? as usize;
    if header_len < 6 || header_len > bytes.len() - 8 {
        return Err(ImportError::InvalidFormat("truncated MIDI header"));
    }
    let format = be_u16(bytes, 8)?;
    let tracks = be_u16(bytes, 10)?;
    let division = be_u16(bytes, 12)?;
    if format > 2 {
        return Err(ImportError::UnsupportedFormatFeature("only MIDI format 0, 1, and 2 are supported"));
    }
    let mut warnings: Vec<ImportWarning> = Vec::new();
    let ppq: u32 = if division >= 0x8000 {
        let frame_ticks = (division % 256) as u32;
        warnings.push(ImportWarning::approximated_timing(
            ImportedFormat::Midi,
            String::from_str("SMPTE MIDI time division imported on a ticks-per-frame grid"),
        ));
        if frame_ticks == 0 { 1 } else { frame_ticks }
    } else if division == 0 {
        1
    } else {
        division as u32
    };
    if format == 2 {
        warnings.push(ImportWarning::approximated_timing(
            ImportedFormat::Midi,
            String::from_str("MIDI format 2 independent sequence boundaries were flattened"),
        ));
    }
    assert(warnings_view(warnings@) =~= header_warning_views(format, division));
    let ghost first = 8 + header_len as int;
    let mut offset: usize = 8 + header_len;
    let mut events: Vec<MidiEvent> = Vec::new();
    let mut order: usize = 0;
    let mut i: u16 = 0;
    let ghost total = chunk_events(bytes@, first, tracks as nat, 0);
    let ghost done: Seq<MidiEventView> = Seq::empty();
    while i < tracks
        invariant
            i <= tracks,
            offset <= bytes@.len(),
            midi_header(bytes@) == Ok::<(u16, u16, u16, int), ImportError>((format, tracks, division, first)),
            total == chunk_events(bytes@, first, tracks as nat, 0),
            total.0 == done + chunk_events(bytes@, offset as int, (tracks - i) as nat, order as int).0,
            total.1 == chunk_events(bytes@, offset as int, (tracks - i) as nat, order as int).1,
            events_view(events@) == done,
            order == done.len(),
            order <= offset,
        decreases tracks - i,
    {
        if offset > bytes.len() - 8 || !tag_matches(bytes, offset, [0x4d, 0x54, 0x72, 0x6b]) {
            assert(done + Seq::<MidiEventView>::empty() =~= done);
            return Err(ImportError::InvalidFormat("missing MIDI track chunk"));
        }
        let len = be_u32(bytes, offset + 4)? as usize;
        let start = offset + 8;
        if len > bytes.len() - start {
            assert(done + Seq::<MidiEventView>::empty() =~= done);
            return Err(ImportError::InvalidFormat("truncated MIDI track"));
        }
        let end = start + len;
        let chunk = &bytes[start..end];
        proof {
            lemma_track_events_count(chunk@, 0, 0, None);
        }
        let ghost old_events = events@;
        let ghost evs = track_events(chunk@, 0, 0, None).0;
        let parsed = parse_midi_track(chunk, &mut order, &mut events);
        proof {
            assert(events_view(events@) == done + numbered(evs, done.len() as int));
        }
        match parsed {
            Ok(()) => {},
            Err(e) => {
                return Err(e);
            },
        }
        proof {
            let rest = chunk_events(bytes@, end as int, (tracks - i - 1) as nat, order as int).0;
            assert(done + numbered(evs, done.len() as int) + rest =~= done + (numbered(evs, done.len() as int) + rest));
            done = done + numbered(evs, done.len() as int);
        }
        offset = end;
        i = i + 1;
    }
    assert(done + chunk_events(bytes@, offset as int, 0, order as int).0 =~= done);
    sort_events(&mut events);
    Ok(MidiFile { format, division, ppq, events, warnings })
}

/// A channel status byte names its event in its high nibble and its
/// channel in its low nibble: 8 note-off, 9 note-on (key and velocity), A
/// poly pressure, B controller (number and value), C program change, D
/// channel pressure, E pitch bend, whose two 7-bit data bytes, low first,
/// give a value centred on 0.
pub proof fn law_channel_status(status: u8, d0: u8, d1: u8)
    requires
        0x80 <= status <= 0xef,
        d0 < 128,
        d1 < 128,
    ensures
        crate::midi_song::channel_of(channel_kind(status, d0, d1)) == status % 16,
        status / 16 == 0x8 ==> (channel_kind(status, d0, d1) matches MidiKind::NoteOff { note, .. } && note == d0),
        status / 16 == 0x9 ==> (channel_kind(status, d0, d1) matches MidiKind::NoteOn { note, vel, .. } && note == d0
            && vel == d1),
        status / 16 == 0xa ==> channel_kind(status, d0, d1) is PolyPressure,
        status / 16 == 0xb ==> (channel_kind(status, d0, d1) matches MidiKind::Controller { controller, value, .. }
            && controller == d0 && value == d1),
        status / 16 == 0xc ==> (channel_kind(status, d0, d1) matches MidiKind::Program { program, .. } && program == d0),
        status / 16 == 0xd ==> channel_kind(status, d0, d1) is ChannelPressure,
        status / 16 == 0xe ==> (channel_kind(status, d0, d1) matches MidiKind::PitchBend { value, .. }
            && value == d1 * 128 + d0 - 8192),
        channel_data_len(status) == (if status / 16 == 0xc || status / 16 == 0xd { 1int } else { 2int }),
{
    if status / 16 == 0xe {
        assert((((d1 as u16) << 7u16) | (d0 as u16)) == d1 * 128 + d0) by (bit_vector)
            requires d0 < 128, d1 < 128;
    }
}

/// A tempo meta event holds the microseconds per quarter note in three
/// big-endian bytes.
pub proof fn law_tempo_meta(data: Seq<u8>)
    requires
        data.len() == 3,
    ensures
        meta_kind(0x51, data) matches Some(MidiKind::Tempo { micros_per_quarter })
            && micros_per_quarter / 65536 == data[0] && (micros_per_quarter / 256) % 256 == data[1]
            && micros_per_quarter % 256 == data[2],
{
    let (a, b, c) = (data[0] as int, data[1] as int, data[2] as int);
    assert({
        let v = a * 65536 + b * 256 + c;
        v / 65536 == a && (v / 256) % 256 == b && v % 256 == c
    }) by (nonlinear_arith)
        requires 0 <= a < 256, 0 <= b < 256, 0 <= c < 256;
}

} // verus!
