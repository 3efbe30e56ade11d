use vstd::prelude::*;
use vstd::string::*;
use vstd::multiset::Multiset;

use crate::import::{
    dropped_warning, event_warning, warnings_view, ImportError, ImportWarning, ImportedFormat, WarningView,
};
use crate::midi::{
    chunk_events, event_body, event_step, events_view, midi_header, midi_ppq, numbered, read_events, read_midi_file,
    sorted_by_tick, track_events, MidiEvent, MidiEventKind, MidiEventView, MidiFile, MidiKind, MidiReadView,
};
use crate::text::{decimal, padded_decimal, zero_padded};

verus! {

/// A note that has started and not yet ended: its channel and key, the tick
/// it started at, its velocity and the program of its channel then.
#[derive(Debug, Clone, Copy, PartialEq, Eq)]
pub struct HeldNote {
    pub ch: u8,
    pub note: u8,
    pub start: u64,
    pub velocity: u8,
    pub program: u8,
}

/// A finished note of an imported MIDI file. `drum` holds the key of a note
/// on the drum channel (channel 10, numbered 9 here), which gets a lane of
/// its own per key.
#[derive(Debug, Clone, Copy, PartialEq, Eq)]
pub struct MidiNote {
    pub ch: u8,
    pub program: u8,
    pub drum: Option<u8>,
    pub note: u8,
    pub start: u64,
    pub duration: u64,
    pub velocity: u8,
}

/// What a controller or a pitch bend automates, with its raw MIDI value.
#[derive(Debug, Clone, Copy, PartialEq, Eq)]
pub enum MidiControl {
    /// Channel volume or expression, 0 to 127.
    Gain(u8),
    /// Pan, 0 (left) to 127 (right).
    Pan(u8),
    /// A bend of `value` in -8192..8191, with the channel's bend range in
    /// semitones at that time.
    PitchBend { value: i16, range: u8 },
}

/// An automation point on the lane of a channel and program.
#[derive(Debug, Clone, Copy, PartialEq, Eq)]
pub struct MidiAutomation {
    pub ch: u8,
    pub program: u8,
    pub tick: u64,
    pub control: MidiControl,
}

/// A tempo change: microseconds per quarter note from a tick on.
#[derive(Debug, Clone, Copy, PartialEq, Eq)]
pub struct MidiTempo {
    pub tick: u64,
    pub micros_per_quarter: u32,
}

/// A MIDI file imported as notes, automation, tempo changes and metadata,
/// on a grid of `ppq` ticks per quarter note.
pub struct MidiSong {
    pub ppq: u32,
    pub tempos: Vec<MidiTempo>,
    pub notes: Vec<MidiNote>,
    pub automation: Vec<MidiAutomation>,
    pub title: Option<String>,
    pub composer: Option<String>,
    pub warnings: Vec<ImportWarning>,
}

/// The mathematical content of a `MidiSong`.
#[verifier::ext_equal]
pub struct SongView {
    pub ppq: u32,
    pub tempos: Seq<MidiTempo>,
    pub notes: Seq<MidiNote>,
    pub automation: Seq<MidiAutomation>,
    pub title: Option<Seq<char>>,
    pub composer: Option<Seq<char>>,
    pub warnings: Seq<WarningView>,
}

/// The characters of an optional text.
pub open spec fn opt_text(o: Option<String>) -> Option<Seq<char>> {
    match o {
        Some(s) => Some(s@),
        None => None,
    }
}

impl View for MidiSong {
    type V = SongView;

    open spec fn view(&self) -> SongView {
        SongView {
            ppq: self.ppq,
            tempos: self.tempos@,
            notes: self.notes@,
            automation: self.automation@,
            title: opt_text(self.title),
            composer: opt_text(self.composer),
            warnings: warnings_view(self.warnings@),
        }
    }
}

/// The state of a MIDI import between two events: per channel the program,
/// the sustain pedal, the registered parameter number being set and the
/// pitch bend range; the held and the sustained notes in the order they
/// started; and the song so far.
#[verifier::ext_equal]
pub struct PlayView {
    pub programs: Seq<u8>,
    pub sustain: Seq<bool>,
    pub rpn_msb: Seq<Option<u8>>,
    pub rpn_lsb: Seq<Option<u8>>,
    pub bend_range: Seq<u8>,
    pub held: Seq<HeldNote>,
    pub sustained: Seq<HeldNote>,
    pub song: SongView,
}

/// The channel an event belongs to; zero for events of no channel.
pub open spec fn channel_of(k: MidiKind) -> int {
    match k {
        MidiKind::NoteOn { ch, .. } => ch as int,
        MidiKind::NoteOff { ch, .. } => ch as int,
        MidiKind::PolyPressure { ch } => ch as int,
        MidiKind::Program { ch, .. } => ch as int,
        MidiKind::Controller { ch, .. } => ch as int,
        MidiKind::ChannelPressure { ch } => ch as int,
        MidiKind::PitchBend { ch, .. } => ch as int,
        _ => 0,
    }
}

/// Every event names one of the sixteen MIDI channels.
pub open spec fn channels_ok(evs: Seq<MidiEventView>) -> bool {
    forall|i: int| 0 <= i < evs.len() ==> #[trigger] channel_of(evs[i].kind) < 16
}

/// The note that a held note becomes when it ends at `end`: at least one
/// tick long.
pub open spec fn note_end(h: HeldNote, end: u64) -> MidiNote {
    MidiNote {
        ch: h.ch,
        program: h.program,
        drum: if h.ch == 9 { Some(h.note) } else { None },
        note: h.note,
        start: h.start,
        duration: if end > h.start { (end - h.start) as u64 } else { 1 },
        velocity: h.velocity,
    }
}

/// The index of the first held note of this channel and key at or after
/// `from`, or -1.
pub open spec fn held_from(s: Seq<HeldNote>, ch: u8, note: u8, from: int) -> int
    decreases s.len() - from,
{
    if from < 0 || from >= s.len() {
        -1
    } else if s[from].ch == ch && s[from].note == note {
        from
    } else {
        held_from(s, ch, note, from + 1)
    }
}

/// The notes of channel `ch` that the sustain pedal held, ended at `end`, in
/// the order they started.
pub open spec fn released(s: Seq<HeldNote>, ch: u8, end: u64) -> Seq<MidiNote>
    decreases s.len(),
{
    if s.len() == 0 {
        Seq::empty()
    } else if s.last().ch == ch {
        released(s.drop_last(), ch, end).push(note_end(s.last(), end))
    } else {
        released(s.drop_last(), ch, end)
    }
}

/// The sustained notes of the other channels.
pub open spec fn kept(s: Seq<HeldNote>, ch: u8) -> Seq<HeldNote>
    decreases s.len(),
{
    if s.len() == 0 {
        Seq::empty()
    } else if s.last().ch != ch {
        kept(s.drop_last(), ch).push(s.last())
    } else {
        kept(s.drop_last(), ch)
    }
}

/// A note-off (or a note-on of velocity zero): the first held note of the
/// key ends, or moves to the sustained notes while the pedal is down.
pub open spec fn end_note(p: PlayView, tick: u64, ch: u8, note: u8) -> PlayView {
    let i = held_from(p.held, ch, note, 0);
    if i < 0 {
        p
    } else if p.sustain[ch as int] {
        PlayView { held: p.held.remove(i), sustained: p.sustained.push(p.held[i]), ..p }
    } else {
        PlayView {
            held: p.held.remove(i),
            song: SongView { notes: p.song.notes.push(note_end(p.held[i], tick)), ..p.song },
            ..p
        }
    }
}

/// The sustain pedal (controller 64): down at 64 and above; letting it up
/// ends every sustained note of the channel.
pub open spec fn pedal(p: PlayView, tick: u64, ch: u8, value: u8) -> PlayView {
    let q = PlayView { sustain: p.sustain.update(ch as int, value >= 64), ..p };
    if p.sustain[ch as int] && value < 64 {
        PlayView {
            sustained: kept(p.sustained, ch),
            song: SongView { notes: p.song.notes + released(p.sustained, ch, tick), ..p.song },
            ..q
        }
    } else {
        q
    }
}

/// An automation point on the lane of the channel's current program.
pub open spec fn automate(p: PlayView, tick: u64, ch: u8, control: MidiControl) -> PlayView {
    let a = MidiAutomation { ch, program: p.programs[ch as int], tick, control };
    PlayView { song: SongView { automation: p.song.automation.push(a), ..p.song }, ..p }
}

/// One more warning.
pub open spec fn warn(p: PlayView, w: WarningView) -> PlayView {
    PlayView { song: SongView { warnings: p.song.warnings.push(w), ..p.song }, ..p }
}

/// A control change: the pedal, volume and expression, pan, the pitch bend
/// range through registered parameter 0, or a dropped controller.
pub open spec fn control_change(p: PlayView, tick: u64, ch: u8, controller: u8, value: u8) -> PlayView {
    if controller == 64 {
        pedal(p, tick, ch, value)
    } else if controller == 7 || controller == 11 {
        automate(p, tick, ch, MidiControl::Gain(value))
    } else if controller == 10 {
        automate(p, tick, ch, MidiControl::Pan(value))
    } else if controller == 100 {
        PlayView { rpn_lsb: p.rpn_lsb.update(ch as int, Some(value)), ..p }
    } else if controller == 101 {
        PlayView { rpn_msb: p.rpn_msb.update(ch as int, Some(value)), ..p }
    } else if controller == 6 && p.rpn_msb[ch as int] == Some(0u8) && p.rpn_lsb[ch as int] == Some(0u8) {
        PlayView { bend_range: p.bend_range.update(ch as int, value), ..p }
    } else {
        warn(p, dropped_warning(ImportedFormat::Midi, decimal(controller as nat)))
    }
}

/// What one event does to the import, or why it stops it.
pub open spec fn play_event(p: PlayView, tick: u64, k: MidiKind) -> Result<PlayView, ImportError> {
    match k {
        MidiKind::Tempo { micros_per_quarter } => if micros_per_quarter == 0 {
            Err(ImportError::MalformedTiming("zero MIDI tempo"))
        } else {
            let t = MidiTempo { tick, micros_per_quarter };
            Ok(PlayView { song: SongView { tempos: p.song.tempos.push(t), ..p.song }, ..p })
        },
        MidiKind::Program { ch, program } => Ok(PlayView { programs: p.programs.update(ch as int, program), ..p }),
        MidiKind::NoteOn { ch, note, vel } => if vel > 0 {
            let h = HeldNote { ch, note, start: tick, velocity: vel, program: p.programs[ch as int] };
            Ok(PlayView { held: p.held.push(h), ..p })
        } else {
            Ok(end_note(p, tick, ch, note))
        },
        MidiKind::NoteOff { ch, note } => Ok(end_note(p, tick, ch, note)),
        MidiKind::Controller { ch, controller, value } => Ok(control_change(p, tick, ch, controller, value)),
        MidiKind::PolyPressure { ch } => Ok(warn(p, dropped_warning(
            ImportedFormat::Midi,
            "poly-pressure channel "@ + decimal((ch + 1) as nat),
        ))),
        MidiKind::ChannelPressure { ch } => Ok(warn(p, dropped_warning(
            ImportedFormat::Midi,
            "channel-pressure channel "@ + decimal((ch + 1) as nat),
        ))),
        MidiKind::PitchBend { ch, value } => Ok(automate(
            p,
            tick,
            ch,
            MidiControl::PitchBend { value, range: p.bend_range[ch as int] },
        )),
        MidiKind::TrackName(name) => if p.song.title is None && name.len() > 0 {
            Ok(PlayView { song: SongView { title: Some(name), ..p.song }, ..p })
        } else {
            Ok(p)
        },
        MidiKind::Copyright(text) => if p.song.composer is None && text.len() > 0 {
            Ok(PlayView { song: SongView { composer: Some(text), ..p.song }, ..p })
        } else {
            Ok(p)
        },
        MidiKind::Text { kind, text } => Ok(warn(p, event_warning(ImportedFormat::Midi, kind + ": "@ + text))),
    }
}

/// The events played one after another.
pub open spec fn play_events(p: PlayView, evs: Seq<MidiEventView>) -> Result<PlayView, ImportError>
    decreases evs.len(),
{
    if evs.len() == 0 {
        Ok(p)
    } else {
        match play_events(p, evs.drop_last()) {
            Err(e) => Err(e),
            Ok(q) => play_event(q, evs.last().tick, evs.last().kind),
        }
    }
}

/// The state before the first event: program 0, pedal up, no parameter
/// number, a bend range of 2 semitones on every channel; the header's
/// warnings.
pub open spec fn initial_play(ppq: u32, warnings: Seq<WarningView>) -> PlayView {
    PlayView {
        programs: Seq::new(16, |i: int| 0u8),
        sustain: Seq::new(16, |i: int| false),
        rpn_msb: Seq::new(16, |i: int| None::<u8>),
        rpn_lsb: Seq::new(16, |i: int| None::<u8>),
        bend_range: Seq::new(16, |i: int| 2u8),
        held: Seq::empty(),
        sustained: Seq::empty(),
        song: SongView {
            ppq,
            tempos: Seq::empty(),
            notes: Seq::empty(),
            automation: Seq::empty(),
            title: None,
            composer: None,
            warnings,
        },
    }
}

/// A note still held, or sustained, at the end of the file: one tick long.
pub open spec fn cut_short(s: Seq<HeldNote>) -> Seq<MidiNote> {
    s.map_values(|h: HeldNote| note_end(h, h.start))
}

/// The song once every event is played: the notes still held and then the
/// notes still sustained are cut short.
pub open spec fn finished(p: PlayView) -> SongView {
    SongView { notes: p.song.notes + cut_short(p.held) + cut_short(p.sustained), ..p.song }
}

/// The song that a list of events in playing order makes, or the error.
pub open spec fn song_of(ppq: u32, warnings: Seq<WarningView>, evs: Seq<MidiEventView>) -> Result<SongView, ImportError> {
    match play_events(initial_play(ppq, warnings), evs) {
        Err(e) => Err(e),
        Ok(p) => Ok(finished(p)),
    }
}

} // verus!

verus! {

/// The running state of a MIDI import.
struct MidiPlayer {
    programs: Vec<u8>,
    sustain: Vec<bool>,
    rpn_msb: Vec<Option<u8>>,
    rpn_lsb: Vec<Option<u8>>,
    bend_range: Vec<u8>,
    held: Vec<HeldNote>,
    sustained: Vec<HeldNote>,
    song: MidiSong,
}

impl View for MidiPlayer {
    type V = PlayView;

    closed spec fn view(&self) -> PlayView {
        PlayView {
            programs: self.programs@,
            sustain: self.sustain@,
            rpn_msb: self.rpn_msb@,
            rpn_lsb: self.rpn_lsb@,
            bend_range: self.bend_range@,
            held: self.held@,
            sustained: self.sustained@,
            song: self.song@,
        }
    }
}

proof fn lemma_warnings_push(w: Seq<ImportWarning>, x: ImportWarning)
    ensures
        warnings_view(w.push(x)) == warnings_view(w).push(x@),
{
    assert(warnings_view(w.push(x)) =~= warnings_view(w).push(x@));
}

fn make_note(h: HeldNote, end: u64) -> (r: MidiNote)
    ensures
        r == note_end(h, end),
{
    MidiNote {
        ch: h.ch,
        program: h.program,
        drum: if h.ch == 9 { Some(h.note) } else { None },
        note: h.note,
        start: h.start,
        duration: if end > h.start { end - h.start } else { 1 },
        velocity: h.velocity,
    }
}

impl MidiPlayer {
    spec fn wf(&self) -> bool {
        &&& self.programs@.len() == 16
        &&& self.sustain@.len() == 16
        &&& self.rpn_msb@.len() == 16
        &&& self.rpn_lsb@.len() == 16
        &&& self.bend_range@.len() == 16
    }

    fn new(ppq: u32, warnings: Vec<ImportWarning>) -> (r: Self)
        ensures
            r.wf(),
            r@ == initial_play(ppq, warnings_view(warnings@)),
    {
        let mut programs: Vec<u8> = Vec::new();
        let mut sustain: Vec<bool> = Vec::new();
        let mut rpn_msb: Vec<Option<u8>> = Vec::new();
        let mut rpn_lsb: Vec<Option<u8>> = Vec::new();
        let mut bend_range: Vec<u8> = Vec::new();
        let mut i: usize = 0;
        while i < 16
            invariant
                i <= 16,
                programs@ == Seq::new(i as nat, |k: int| 0u8),
                sustain@ == Seq::new(i as nat, |k: int| false),
                rpn_msb@ == Seq::new(i as nat, |k: int| None::<u8>),
                rpn_lsb@ == Seq::new(i as nat, |k: int| None::<u8>),
                bend_range@ == Seq::new(i as nat, |k: int| 2u8),
            decreases 16 - i,
        {
            programs.push(0);
            sustain.push(false);
            rpn_msb.push(None);
            rpn_lsb.push(None);
            bend_range.push(2);
            i = i + 1;
        }
        let song = MidiSong {
            ppq,
            tempos: Vec::new(),
            notes: Vec::new(),
            automation: Vec::new(),
            title: None,
            composer: None,
            warnings,
        };
        MidiPlayer { programs, sustain, rpn_msb, rpn_lsb, bend_range, held: Vec::new(), sustained: Vec::new(), song }
    }

    fn find_held(&self, ch: u8, note: u8) -> (r: Option<usize>)
        ensures
            match r {
                Some(i) => i < self.held@.len() && i == held_from(self.held@, ch, note, 0),
                None => held_from(self.held@, ch, note, 0) == -1,
            },
    {
        let mut k: usize = 0;
        while k < self.held.len()
            invariant
                k <= self.held@.len(),
                held_from(self.held@, ch, note, 0) == held_from(self.held@, ch, note, k as int),
            decreases self.held@.len() - k,
        {
            if self.held[k].ch == ch && self.held[k].note == note {
                return Some(k);
            }
            k = k + 1;
        }
        None
    }

    fn warn(&mut self, w: ImportWarning)
        requires
            old(self).wf(),
        ensures
            final(self).wf(),
            final(self)@ == warn(old(self)@, w@),
    {
        proof { lemma_warnings_push(self.song.warnings@, w); }
        self.song.warnings.push(w);
    }

    fn end_note(&mut self, tick: u64, ch: u8, note: u8)
        requires
            old(self).wf(),
            ch < 16,
        ensures
            final(self).wf(),
            final(self)@ == end_note(old(self)@, tick, ch, note),
    {
        match self.find_held(ch, note) {
            None => {},
            Some(i) => {
                let h = self.held.remove(i);
                if self.sustain[ch as usize] {
                    self.sustained.push(h);
                } else {
                    let n = make_note(h, tick);
                    self.song.notes.push(n);
                }
            },
        }
    }

    fn pedal(&mut self, tick: u64, ch: u8, value: u8)
        requires
            old(self).wf(),
            ch < 16,
        ensures
            final(self).wf(),
            final(self)@ == pedal(old(self)@, tick, ch, value),
    {
        let was_down = self.sustain[ch as usize];
        self.sustain.set(ch as usize, value >= 64);
        if was_down && value < 64 {
            let ghost s = self.sustained@;
            let ghost base = self.song.notes@;
            let ghost mid = self@;
            let mut kept_notes: Vec<HeldNote> = Vec::new();
            let mut k: usize = 0;
            while k < self.sustained.len()
                invariant
                    self.wf(),
                    s == self.sustained@,
                    k <= s.len(),
                    kept_notes@ == kept(s.take(k as int), ch),
                    self.song.notes@ == base + released(s.take(k as int), ch, tick),
                    mid.song.notes == base,
                    self@ == (PlayView { song: SongView { notes: self.song.notes@, ..mid.song }, ..mid }),
                decreases s.len() - k,
            {
                let h = self.sustained[k];
                assert(s.take(k + 1).drop_last() =~= s.take(k as int));
                if h.ch == ch {
                    let n = make_note(h, tick);
                    self.song.notes.push(n);
                } else {
                    kept_notes.push(h);
                }
                k = k + 1;
            }
            assert(s.take(s.len() as int) =~= s);
            self.sustained = kept_notes;
        }
    }

    fn automate(&mut self, tick: u64, ch: u8, control: MidiControl)
        requires
            old(self).wf(),
            ch < 16,
        ensures
            final(self).wf(),
            final(self)@ == automate(old(self)@, tick, ch, control),
    {
        let a = MidiAutomation { ch, program: self.programs[ch as usize], tick, control };
        self.song.automation.push(a);
    }

    fn control_change(&mut self, tick: u64, ch: u8, controller: u8, value: u8)
        requires
            old(self).wf(),
            ch < 16,
        ensures
            final(self).wf(),
            final(self)@ == control_change(old(self)@, tick, ch, controller, value),
    {
        if controller == 64 {
            self.pedal(tick, ch, value);
        } else if controller == 7 || controller == 11 {
            self.automate(tick, ch, MidiControl::Gain(value));
        } else if controller == 10 {
            self.automate(tick, ch, MidiControl::Pan(value));
        } else if controller == 100 {
            self.rpn_lsb.set(ch as usize, Some(value));
        } else if controller == 101 {
            self.rpn_msb.set(ch as usize, Some(value));
        } else if controller == 6 && self.rpn_msb[ch as usize] == Some(0u8) && self.rpn_lsb[ch as usize] == Some(0u8) {
            self.bend_range.set(ch as usize, value);
        } else {
            let name = padded_decimal(controller as u64, 0);
            self.warn(ImportWarning::dropped_controller(ImportedFormat::Midi, name));
        }
    }

    fn play(&mut self, e: &MidiEvent) -> (r: Result<(), ImportError>)
        requires
            old(self).wf(),
            channel_of(e.kind@) < 16,
        ensures
            final(self).wf(),
            match play_event(old(self)@, e.tick, e.kind@) {
                Ok(q) => r is Ok && final(self)@ == q,
                Err(err) => r == Err::<(), ImportError>(err),
            },
    {
        let tick = e.tick;
        match &e.kind {
            MidiEventKind::Tempo { micros_per_quarter } => {
                if *micros_per_quarter == 0 {
                    return Err(ImportError::MalformedTiming("zero MIDI tempo"));
                }
                self.song.tempos.push(MidiTempo { tick, micros_per_quarter: *micros_per_quarter });
            },
            MidiEventKind::Program { ch, program } => {
                self.programs.set(*ch as usize, *program);
            },
            MidiEventKind::NoteOn { ch, note, vel } => {
                if *vel > 0 {
                    let h = HeldNote { ch: *ch, note: *note, start: tick, velocity: *vel, program: self.programs[*ch as usize] };
                    self.held.push(h);
                } else {
                    self.end_note(tick, *ch, *note);
                }
            },
            MidiEventKind::NoteOff { ch, note } => {
                self.end_note(tick, *ch, *note);
            },
            MidiEventKind::Controller { ch, controller, value } => {
                self.control_change(tick, *ch, *controller, *value);
            },
            MidiEventKind::PolyPressure { ch } => {
                let mut text = String::from_str("poly-pressure channel ");
                let number = padded_decimal(*ch as u64 + 1, 0);
                text.append(number.as_str());
                self.warn(ImportWarning::dropped_controller(ImportedFormat::Midi, text));
            },
            MidiEventKind::ChannelPressure { ch } => {
                let mut text = String::from_str("channel-pressure channel ");
                let number = padded_decimal(*ch as u64 + 1, 0);
                text.append(number.as_str());
                self.warn(ImportWarning::dropped_controller(ImportedFormat::Midi, text));
            },
            MidiEventKind::PitchBend { ch, value } => {
                let range = self.bend_range[*ch as usize];
                self.automate(tick, *ch, MidiControl::PitchBend { value: *value, range });
            },
            MidiEventKind::TrackName(name) => {
                if self.song.title.is_none() && name.as_str().unicode_len() > 0 {
                    self.song.title = Some(name.clone());
                }
            },
            MidiEventKind::Copyright(text) => {
                if self.song.composer.is_none() && text.as_str().unicode_len() > 0 {
                    self.song.composer = Some(text.clone());
                }
            },
            MidiEventKind::Text { kind, text } => {
                let mut event = String::from_str(*kind);
                event.append(": ");
                event.append(text.as_str());
                self.warn(ImportWarning::unsupported_event(ImportedFormat::Midi, event));
            },
        }
        Ok(())
    }

    fn cut_short_into(notes: &mut Vec<MidiNote>, s: &Vec<HeldNote>)
        ensures
            final(notes)@ == old(notes)@ + cut_short(s@),
    {
        let ghost base = notes@;
        let mut k: usize = 0;
        while k < s.len()
            invariant
                k <= s@.len(),
                notes@ == base + cut_short(s@.take(k as int)),
            decreases s@.len() - k,
        {
            let h = s[k];
            let n = make_note(h, h.start);
            notes.push(n);
            assert(cut_short(s@.take(k + 1)) =~= cut_short(s@.take(k as int)).push(note_end(h, h.start)));
            k = k + 1;
        }
        assert(s@.take(s@.len() as int) =~= s@);
    }

    fn finish(self) -> (r: MidiSong)
        ensures
            r@ == finished(self@),
    {
        let MidiPlayer { held, sustained, song, .. } = self;
        let mut song = song;
        Self::cut_short_into(&mut song.notes, &held);
        Self::cut_short_into(&mut song.notes, &sustained);
        song
    }
}

/// Plays the events of a MIDI file in order: notes are paired with their
/// ends (first started, first ended, per channel and key), the sustain pedal
/// holds notes back, controllers become automation or warnings, and notes
/// left over at the end are cut short. Stops at a tempo of zero.
pub fn midi_song(file: MidiFile) -> (r: Result<MidiSong, ImportError>)
    requires
        channels_ok(events_view(file.events@)),
    ensures
        match song_of(file.ppq, warnings_view(file.warnings@), events_view(file.events@)) {
            Ok(v) => r is Ok && r->Ok_0@ == v,
            Err(e) => r == Err::<MidiSong, ImportError>(e),
        },
{
    let MidiFile { ppq, events, warnings, .. } = file;
    let ghost evs = events_view(events@);
    let ghost start = initial_play(ppq, warnings_view(warnings@));
    let mut player = MidiPlayer::new(ppq, warnings);
    let mut i: usize = 0;
    while i < events.len()
        invariant
            player.wf(),
            i <= events@.len(),
            evs == events_view(events@),
            channels_ok(evs),
            play_events(start, evs.take(i as int)) == Ok::<PlayView, ImportError>(player@),
            start == initial_play(file.ppq, warnings_view(file.warnings@)),
            evs == events_view(file.events@),
        decreases events@.len() - i,
    {
        assert(evs.take(i + 1).drop_last() =~= evs.take(i as int));
        assert(evs.take(i + 1).last() == events@[i as int]@);
        assert(channel_of(evs[i as int].kind) < 16);
        let ghost before = player@;
        assert(play_events(start, evs.take(i + 1)) == play_event(before, evs[i as int].tick, evs[i as int].kind));
        match player.play(&events[i]) {
            Ok(()) => {},
            Err(e) => {
                proof {
                    lemma_play_events_err(start, evs, i as int + 1, e);
                    assert(song_of(file.ppq, warnings_view(file.warnings@), evs) == Err::<SongView, ImportError>(e));
                }
                return Err(e);
            },
        }
        i = i + 1;
    }
    assert(evs.take(events@.len() as int) =~= evs);
    Ok(player.finish())
}

/// Once the events up to `k` stop an import, every longer prefix stops it
/// with the same error.
proof fn lemma_play_events_err(p: PlayView, evs: Seq<MidiEventView>, k: int, e: ImportError)
    requires
        0 <= k <= evs.len(),
        play_events(p, evs.take(k)) == Err::<PlayView, ImportError>(e),
    ensures
        play_events(p, evs) == Err::<PlayView, ImportError>(e),
    decreases evs.len() - k,
{
    if k < evs.len() {
        assert(evs.take(k + 1).drop_last() =~= evs.take(k));
        lemma_play_events_err(p, evs, k + 1, e);
    } else {
        assert(evs.take(k) =~= evs);
    }
}

} // verus!

verus! {

/// The number of note-on events of nonzero velocity.
pub open spec fn note_ons(evs: Seq<MidiEventView>) -> nat
    decreases evs.len(),
{
    if evs.len() == 0 {
        0
    } else {
        note_ons(evs.drop_last()) + match evs.last().kind {
            MidiKind::NoteOn { vel, .. } => if vel > 0 { 1nat } else { 0nat },
            _ => 0nat,
        }
    }
}

/// A note at least one tick long, in the drum lane of its key exactly when
/// it is on the drum channel.
pub open spec fn well_formed_note(n: MidiNote) -> bool {
    n.duration >= 1 && n.drum == (if n.ch == 9 { Some(n.note) } else { None::<u8> })
}

/// The notes finished, held and sustained so far.
pub open spec fn note_total(p: PlayView) -> nat {
    p.song.notes.len() + p.held.len() + p.sustained.len()
}

/// Every finished note is well formed.
pub open spec fn notes_well_formed(notes: Seq<MidiNote>) -> bool {
    forall|i: int| 0 <= i < notes.len() ==> #[trigger] well_formed_note(notes[i])
}

proof fn lemma_split(s: Seq<HeldNote>, ch: u8, end: u64)
    ensures
        released(s, ch, end).len() + kept(s, ch).len() == s.len(),
        notes_well_formed(released(s, ch, end)),
    decreases s.len(),
{
    if s.len() > 0 {
        lemma_split(s.drop_last(), ch, end);
        let r = released(s.drop_last(), ch, end);
        if s.last().ch == ch {
            assert forall|i: int| 0 <= i < r.len() + 1 implies #[trigger] well_formed_note(r.push(note_end(s.last(), end))[i]) by {
                if i < r.len() {
                    assert(well_formed_note(r[i]));
                }
            }
        }
    }
}

proof fn lemma_held_from_range(s: Seq<HeldNote>, ch: u8, note: u8, from: int)
    requires
        0 <= from,
    ensures
        held_from(s, ch, note, from) == -1 || (from <= held_from(s, ch, note, from) < s.len()),
    decreases s.len() - from,
{
    if from < s.len() && !(s[from].ch == ch && s[from].note == note) {
        lemma_held_from_range(s, ch, note, from + 1);
    }
}

proof fn lemma_push_well_formed(notes: Seq<MidiNote>, n: MidiNote)
    requires
        notes_well_formed(notes),
        well_formed_note(n),
    ensures
        notes_well_formed(notes.push(n)),
{
    assert forall|i: int| 0 <= i < notes.len() + 1 implies #[trigger] well_formed_note(notes.push(n)[i]) by {
        if i < notes.len() {
            assert(well_formed_note(notes[i]));
        }
    }
}

proof fn lemma_concat_well_formed(a: Seq<MidiNote>, b: Seq<MidiNote>)
    requires
        notes_well_formed(a),
        notes_well_formed(b),
    ensures
        notes_well_formed(a + b),
{
    assert forall|i: int| 0 <= i < (a + b).len() implies #[trigger] well_formed_note((a + b)[i]) by {
        if i < a.len() {
            assert(well_formed_note(a[i]));
        } else {
            assert(well_formed_note(b[i - a.len()]));
        }
    }
}

proof fn lemma_event_counts(p: PlayView, tick: u64, k: MidiKind)
    requires
        notes_well_formed(p.song.notes),
        channel_of(k) < 16,
        p.sustain.len() == 16,
        play_event(p, tick, k) is Ok,
    ensures
        ({
            let q = play_event(p, tick, k)->Ok_0;
            &&& note_total(q) == note_total(p) + match k {
                MidiKind::NoteOn { vel, .. } => if vel > 0 { 1nat } else { 0nat },
                _ => 0nat,
            }
            &&& notes_well_formed(q.song.notes)
            &&& q.sustain.len() == 16
        }),
{
    let q = play_event(p, tick, k)->Ok_0;
    match k {
        MidiKind::NoteOn { ch, note, vel } => {
            if vel == 0 {
                lemma_held_from_range(p.held, ch, note, 0);
                let i = held_from(p.held, ch, note, 0);
                if i >= 0 && !p.sustain[ch as int] {
                    lemma_push_well_formed(p.song.notes, note_end(p.held[i], tick));
                }
            }
        },
        MidiKind::NoteOff { ch, note } => {
            lemma_held_from_range(p.held, ch, note, 0);
            let i = held_from(p.held, ch, note, 0);
            if i >= 0 && !p.sustain[ch as int] {
                lemma_push_well_formed(p.song.notes, note_end(p.held[i], tick));
            }
        },
        MidiKind::Controller { ch, controller, value } => {
            if controller == 64 && p.sustain[ch as int] && value < 64 {
                lemma_split(p.sustained, ch, tick);
                lemma_concat_well_formed(p.song.notes, released(p.sustained, ch, tick));
            }
        },
        _ => {},
    }
}

proof fn lemma_play_counts(p: PlayView, evs: Seq<MidiEventView>)
    requires
        notes_well_formed(p.song.notes),
        p.sustain.len() == 16,
        channels_ok(evs),
        play_events(p, evs) is Ok,
    ensures
        ({
            let q = play_events(p, evs)->Ok_0;
            &&& note_total(q) == note_total(p) + note_ons(evs)
            &&& notes_well_formed(q.song.notes)
            &&& q.sustain.len() == 16
        }),
    decreases evs.len(),
{
    if evs.len() > 0 {
        let front = evs.drop_last();
        assert(channels_ok(front)) by {
            assert forall|i: int| 0 <= i < front.len() implies #[trigger] channel_of(front[i].kind) < 16 by {
                assert(channel_of(evs[i].kind) < 16);
            }
        }
        lemma_play_counts(p, front);
        assert(channel_of(evs[evs.len() - 1].kind) < 16);
        lemma_event_counts(play_events(p, front)->Ok_0, evs.last().tick, evs.last().kind);
    }
}

/// The program that the last program change on channel `ch` among `evs`
/// set, or `init` where there is none.
pub open spec fn last_program(evs: Seq<MidiEventView>, ch: u8, init: u8) -> u8
    decreases evs.len(),
{
    if evs.len() == 0 {
        init
    } else {
        match evs.last().kind {
            MidiKind::Program { ch: c, program } => if c == ch {
                program
            } else {
                last_program(evs.drop_last(), ch, init)
            },
            _ => last_program(evs.drop_last(), ch, init),
        }
    }
}

/// A program change on a channel sets that channel's program and no
/// other, and changes nothing else of the import.
pub proof fn law_program_change_sets_the_program(p: PlayView, tick: u64, ch: u8, program: u8)
    requires
        p.programs.len() == 16,
        ch < 16,
    ensures
        play_event(p, tick, MidiKind::Program { ch, program }) is Ok,
        ({
            let q = play_event(p, tick, MidiKind::Program { ch, program })->Ok_0;
            &&& q.programs.len() == 16
            &&& q.programs[ch as int] == program
            &&& forall|c: int| 0 <= c < 16 && c != ch ==> q.programs[c] == p.programs[c]
            &&& q.held == p.held && q.sustained == p.sustained && q.song == p.song
        }),
{
}

/// Every event other than a program change leaves all programs as they
/// were.
pub proof fn law_other_events_keep_the_programs(p: PlayView, tick: u64, k: MidiKind)
    requires
        p.programs.len() == 16,
        channel_of(k) < 16,
        !(k is Program),
    ensures
        play_event(p, tick, k) is Ok ==> play_event(p, tick, k)->Ok_0.programs == p.programs,
{
}

/// A note-on of nonzero velocity holds a note of its channel and key from
/// its tick, playing the channel's current program.
pub proof fn law_notes_play_the_current_program(p: PlayView, tick: u64, ch: u8, note: u8, vel: u8)
    requires
        p.programs.len() == 16,
        ch < 16,
        vel > 0,
    ensures
        play_event(p, tick, MidiKind::NoteOn { ch, note, vel }) is Ok,
        ({
            let q = play_event(p, tick, MidiKind::NoteOn { ch, note, vel })->Ok_0;
            &&& q.held.len() == p.held.len() + 1
            &&& q.held.last().ch == ch && q.held.last().note == note && q.held.last().start == tick
            &&& q.held.last().program == p.programs[ch as int]
            &&& q.programs == p.programs
        }),
{
}

/// What a controller does: 7 (volume) and 11 (expression) automate the
/// gain, and 10 the pan, with the controller's value on the lane of the
/// channel's program; 64 puts the sustain pedal down at 64 and above and
/// up below; 101 and 100 choose a registered parameter, and 6 sets the
/// pitch-bend range when parameter 0/0 is chosen. A pitch bend automates
/// the bend with the channel's current range.
pub proof fn law_controllers(p: PlayView, tick: u64, ch: u8, controller: u8, value: u8, bend: i16)
    requires
        p.programs.len() == 16,
        p.sustain.len() == 16,
        p.rpn_msb.len() == 16,
        p.rpn_lsb.len() == 16,
        p.bend_range.len() == 16,
        ch < 16,
    ensures
        ({
            let q = play_event(p, tick, MidiKind::Controller { ch, controller, value })->Ok_0;
            &&& play_event(p, tick, MidiKind::Controller { ch, controller, value }) is Ok
            &&& (controller == 7 || controller == 11) ==> q.song.automation
                == p.song.automation.push(MidiAutomation { ch, program: p.programs[ch as int], tick, control: MidiControl::Gain(value) })
            &&& controller == 10 ==> q.song.automation
                == p.song.automation.push(MidiAutomation { ch, program: p.programs[ch as int], tick, control: MidiControl::Pan(value) })
            &&& controller == 64 ==> q.sustain[ch as int] == (value >= 64)
            &&& controller == 101 ==> q.rpn_msb[ch as int] == Some(value)
            &&& controller == 100 ==> q.rpn_lsb[ch as int] == Some(value)
            &&& controller == 6 && p.rpn_msb[ch as int] == Some(0u8) && p.rpn_lsb[ch as int] == Some(0u8)
                ==> q.bend_range[ch as int] == value
        }),
        ({
            let q = play_event(p, tick, MidiKind::PitchBend { ch, value: bend })->Ok_0;
            q.song.automation == p.song.automation.push(MidiAutomation {
                ch,
                program: p.programs[ch as int],
                tick,
                control: MidiControl::PitchBend { value: bend, range: p.bend_range[ch as int] },
            })
        }),
{
}

proof fn lemma_held_from_first(s: Seq<HeldNote>, ch: u8, note: u8, from: int)
    requires
        0 <= from,
    ensures
        held_from(s, ch, note, from) == -1 <==> forall|j: int| from <= j < s.len() ==> !(#[trigger] s[j].ch == ch && s[j].note == note),
        held_from(s, ch, note, from) != -1 ==> ({
            let i = held_from(s, ch, note, from);
            &&& from <= i < s.len() && s[i].ch == ch && s[i].note == note
            &&& forall|j: int| from <= j < i ==> !(#[trigger] s[j].ch == ch && s[j].note == note)
        }),
    decreases s.len() - from,
{
    if from < s.len() && !(s[from].ch == ch && s[from].note == note) {
        lemma_held_from_first(s, ch, note, from + 1);
    }
}

/// A note-off ends the earliest held note of its channel and key: that
/// note leaves the held notes and, with the pedal up, becomes a note of the
/// song that ends at the note-off's tick, or, with the pedal down, waits
/// among the sustained notes. With no such note held, nothing changes.
pub proof fn law_note_off_ends_the_earliest(p: PlayView, tick: u64, ch: u8, note: u8)
    requires
        p.sustain.len() == 16,
        ch < 16,
    ensures
        (forall|j: int| 0 <= j < p.held.len() ==> !(#[trigger] p.held[j].ch == ch && p.held[j].note == note))
            ==> play_event(p, tick, MidiKind::NoteOff { ch, note }) == Ok::<PlayView, ImportError>(p),
        forall|i: int| #![trigger p.held[i]]
            0 <= i < p.held.len() && p.held[i].ch == ch && p.held[i].note == note
            && (forall|j: int| 0 <= j < i ==> !(#[trigger] p.held[j].ch == ch && p.held[j].note == note))
            ==> ({
                let q = play_event(p, tick, MidiKind::NoteOff { ch, note })->Ok_0;
                &&& q.held == p.held.remove(i)
                &&& !p.sustain[ch as int] ==> q.song.notes == p.song.notes.push(note_end(p.held[i], tick))
                    && q.sustained == p.sustained
                &&& p.sustain[ch as int] ==> q.sustained == p.sustained.push(p.held[i]) && q.song.notes == p.song.notes
            }),
{
    lemma_held_from_first(p.held, ch, note, 0);
    assert forall|i: int| #![trigger p.held[i]]
        0 <= i < p.held.len() && p.held[i].ch == ch && p.held[i].note == note
        && (forall|j: int| 0 <= j < i ==> !(#[trigger] p.held[j].ch == ch && p.held[j].note == note))
        implies held_from(p.held, ch, note, 0) == i by {
        let k = held_from(p.held, ch, note, 0);
        assert(k != -1) by {
            assert(p.held[i].ch == ch && p.held[i].note == note);
        }
        if k < i {
            assert(!(p.held[k].ch == ch && p.held[k].note == note));
        }
        if k > i {
            assert(!(p.held[i].ch == ch && p.held[i].note == note));
        }
    }
}

/// After a run of events, each channel plays the program that the last
/// program change on it set, or its program before the run where none did.
pub proof fn law_programs_follow_the_last_change(p: PlayView, evs: Seq<MidiEventView>)
    requires
        p.programs.len() == 16,
        channels_ok(evs),
    ensures
        play_events(p, evs) matches Ok(q) ==> q.programs.len() == 16
            && forall|ch: int| 0 <= ch < 16 ==> #[trigger] q.programs[ch] == last_program(evs, ch as u8, p.programs[ch]),
    decreases evs.len(),
{
    if evs.len() > 0 {
        let front = evs.drop_last();
        assert(channels_ok(front)) by {
            assert forall|i: int| 0 <= i < front.len() implies #[trigger] channel_of(front[i].kind) < 16 by {
                assert(front[i] == evs[i]);
            }
        }
        law_programs_follow_the_last_change(p, front);
        if let Ok(q0) = play_events(p, front) {
            let e = evs.last();
            assert(channel_of(evs[evs.len() - 1].kind) < 16);
            if let MidiKind::Program { ch, program } = e.kind {
                law_program_change_sets_the_program(q0, e.tick, ch, program);
            } else {
                law_other_events_keep_the_programs(q0, e.tick, e.kind);
            }
            if let Ok(q) = play_event(q0, e.tick, e.kind) {
                assert forall|ch: int| 0 <= ch < 16 implies #[trigger] q.programs[ch] == last_program(evs, ch as u8, p.programs[ch]) by {
                    assert(q0.programs[ch] == last_program(front, ch as u8, p.programs[ch]));
                    assert((ch as u8) as int == ch);
                }
            }
        }
    }
}

/// A note of the song keeps what its note-on held: channel, key, start,
/// velocity and program; it lasts until it ends, at least one tick; and
/// it sits in a drum lane of its key exactly on channel 10.
pub proof fn law_finished_notes_keep_their_program(h: HeldNote, end: u64)
    ensures
        note_end(h, end).program == h.program,
        note_end(h, end).ch == h.ch,
        note_end(h, end).note == h.note,
        note_end(h, end).start == h.start,
        note_end(h, end).velocity == h.velocity,
        note_end(h, end).duration >= 1,
        end > h.start ==> note_end(h, end).start + note_end(h, end).duration == end,
        (note_end(h, end).drum is Some) <==> h.ch == 9,
        h.ch == 9 ==> note_end(h, end).drum == Some(h.note),
{
}

/// An import neither loses nor invents notes: each note-on of nonzero
/// velocity becomes exactly one note of the song, whether a note-off, the
/// pedal or the end of the file ends it. Every note lasts at least one tick,
/// and sits in a drum lane of its own key exactly when it is on channel 10.
pub proof fn law_every_note_on_becomes_one_note(ppq: u32, warnings: Seq<WarningView>, evs: Seq<MidiEventView>)
    requires
        channels_ok(evs),
        song_of(ppq, warnings, evs) is Ok,
    ensures
        song_of(ppq, warnings, evs)->Ok_0.notes.len() == note_ons(evs),
        notes_well_formed(song_of(ppq, warnings, evs)->Ok_0.notes),
{
    let p = initial_play(ppq, warnings);
    lemma_play_counts(p, evs);
    let q = play_events(p, evs)->Ok_0;
    let done = q.song.notes + cut_short(q.held) + cut_short(q.sustained);
    assert(notes_well_formed(cut_short(q.held)));
    assert(notes_well_formed(cut_short(q.sustained)));
    lemma_concat_well_formed(q.song.notes, cut_short(q.held));
    lemma_concat_well_formed(q.song.notes + cut_short(q.held), cut_short(q.sustained));
}

} // verus!

verus! {

proof fn lemma_body_channel(s: Seq<u8>, off: int, status: u8)
    ensures
        event_body(s, off, status) matches Ok((_, MidiReadView::Channel(k))) ==> channel_of(k) < 16,
{
}

#[verifier::spinoff_prover]
proof fn lemma_track_channels(s: Seq<u8>, off: int, tick: u64, running: Option<u8>)
    ensures
        forall|i: int| 0 <= i < track_events(s, off, tick, running).0.len()
            ==> #[trigger] channel_of(track_events(s, off, tick, running).0[i].1) < 16,
    decreases s.len() - off,
{
    if 0 <= off < s.len() {
        if let Ok((end, t, run, read)) = event_step(s, off, tick, running) {
            if off < end <= s.len() {
                lemma_track_channels(s, end, t, run);
                let (delta, pos) = crate::bytes::var_len_spec(s, off, 4, 0);
                let status = if s[pos] < 0x80 { running->0 } else { s[pos] };
                let body = if s[pos] < 0x80 { pos } else { pos + 1 };
                lemma_body_channel(s, body, status);
                assert(event_body(s, body, status) == Ok::<(int, MidiReadView), ImportError>((end, read)));
                let here = read_events(s, t, read);
                let rest = track_events(s, end, t, run).0;
                assert(track_events(s, off, tick, running).0 == here + rest);
                assert forall|i: int| 0 <= i < here.len() implies #[trigger] channel_of(here[i].1) < 16 by {
                    if read is Channel {
                        assert(here[i].1 == read->Channel_0);
                    }
                }
                assert forall|i: int| 0 <= i < (here + rest).len() implies #[trigger] channel_of((here + rest)[i].1) < 16 by {
                    if i >= here.len() {
                        assert(channel_of(rest[i - here.len()].1) < 16);
                    } else {
                        assert((here + rest)[i] == here[i]);
                    }
                }
            }
        }
    }
}

proof fn lemma_chunk_channels(s: Seq<u8>, off: int, remaining: nat, order: int)
    ensures
        channels_ok(chunk_events(s, off, remaining, order).0),
    decreases remaining,
{
    if remaining > 0 && !(off + 8 > s.len() || crate::midi::tag_at(s, off) != crate::midi::track_tag())
        && !(off + 8 + crate::bytes::be32(s, off + 4) > s.len()) {
        let end = off + 8 + crate::bytes::be32(s, off + 4);
        let chunk = s.subrange(off + 8, end);
        let (evs, err) = track_events(chunk, 0, 0, None);
        lemma_track_channels(chunk, 0, 0, None);
        let here = numbered(evs, order);
        assert(channels_ok(here)) by {
            assert forall|i: int| 0 <= i < here.len() implies #[trigger] channel_of(here[i].kind) < 16 by {
                assert(channel_of(evs[i].1) < 16);
            }
        }
        if err is None {
            lemma_chunk_channels(s, end, (remaining - 1) as nat, order + evs.len());
            let rest = chunk_events(s, end, (remaining - 1) as nat, order + evs.len()).0;
            assert forall|i: int| 0 <= i < (here + rest).len() implies #[trigger] channel_of((here + rest)[i].kind) < 16 by {
                if i < here.len() {
                    assert(channel_of(here[i].kind) < 16);
                } else {
                    assert(channel_of(rest[i - here.len()].kind) < 16);
                }
            }
        }
    }
}

proof fn lemma_same_events_channels(a: Seq<MidiEventView>, b: Seq<MidiEventView>)
    requires
        channels_ok(b),
        a.to_multiset() == b.to_multiset(),
    ensures
        channels_ok(a),
{
    broadcast use vstd::seq_lib::group_to_multiset_ensures;
    assert forall|i: int| 0 <= i < a.len() implies #[trigger] channel_of(a[i].kind) < 16 by {
        let x = a[i];
        assert(a.contains(x));
        assert(a.to_multiset().count(x) > 0);
        assert(b.to_multiset().count(x) > 0);
        assert(b.contains(x));
        let j = choose|j: int| 0 <= j < b.len() && b[j] == x;
        assert(channel_of(b[j].kind) < 16);
    }
}

/// `s` holds the events `evs` in playing order: sorted by tick and by file
/// order within a tick. Where file order numbers are all different, only
/// one list does (`lemma_playing_order_unique`).
pub open spec fn in_playing_order(s: Seq<MidiEventView>, evs: Seq<MidiEventView>) -> bool {
    sorted_by_tick(s) && s.to_multiset() == evs.to_multiset()
}

/// No two events of `evs` share a file order number.
pub open spec fn orders_distinct(evs: Seq<MidiEventView>) -> bool {
    forall|i: int, j: int| 0 <= i < j < evs.len() ==> #[trigger] evs[i].order != #[trigger] evs[j].order
}

/// Within `m`, an event is known by its file order number.
pub open spec fn known_by_order(m: Multiset<MidiEventView>) -> bool {
    forall|a: MidiEventView, b: MidiEventView|
        #[trigger] m.count(a) > 0 && #[trigger] m.count(b) > 0 && a.order == b.order ==> a == b
}

/// The events of `evs` in playing order, where there is such a list.
pub open spec fn playing_order(evs: Seq<MidiEventView>) -> Seq<MidiEventView> {
    choose|s: Seq<MidiEventView>| in_playing_order(s, evs)
}

proof fn lemma_sorted_unique(s1: Seq<MidiEventView>, s2: Seq<MidiEventView>)
    requires
        sorted_by_tick(s1),
        sorted_by_tick(s2),
        s1.to_multiset() == s2.to_multiset(),
        known_by_order(s1.to_multiset()),
    ensures
        s1 == s2,
    decreases s1.len(),
{
    broadcast use vstd::seq_lib::group_to_multiset_ensures;
    broadcast use vstd::multiset::group_multiset_axioms;
    if s1.len() == 0 {
        assert(s2.to_multiset().len() == 0);
        assert(s1 =~= s2);
    } else {
        assert(s1.to_multiset().len() == s1.len());
        assert(s2.to_multiset().len() == s2.len());
        assert(s2.len() == s1.len());
        let a = s1[0];
        let b = s2[0];
        assert(s1.contains(a));
        assert(s1.to_multiset().count(a) > 0);
        assert(s2.contains(a));
        let k = choose|k: int| 0 <= k < s2.len() && s2[k] == a;
        assert(s2.contains(b));
        assert(s2.to_multiset().count(b) > 0);
        assert(s1.contains(b));
        let m = choose|m: int| 0 <= m < s1.len() && s1[m] == b;
        if k > 0 {
            assert(s2[0].tick < s2[k].tick || (s2[0].tick == s2[k].tick && s2[0].order <= s2[k].order));
        }
        if m > 0 {
            assert(s1[0].tick < s1[m].tick || (s1[0].tick == s1[m].tick && s1[0].order <= s1[m].order));
        }
        assert(a.order == b.order);
        assert(a == b);
        let r1 = s1.drop_first();
        let r2 = s2.drop_first();
        assert(r1 =~= s1.remove(0));
        assert(r2 =~= s2.remove(0));
        assert(r1.to_multiset() == s1.to_multiset().remove(a));
        assert(r2.to_multiset() == s2.to_multiset().remove(b));
        assert forall|x: MidiEventView, y: MidiEventView|
            #[trigger] r1.to_multiset().count(x) > 0 && #[trigger] r1.to_multiset().count(y) > 0 && x.order == y.order
            implies x == y by {
            assert(s1.to_multiset().count(x) > 0);
            assert(s1.to_multiset().count(y) > 0);
        }
        assert(sorted_by_tick(r1)) by {
            assert forall|i: int, j: int| 0 <= i < j < r1.len() implies
                (r1[i].tick < r1[j].tick || (r1[i].tick == r1[j].tick && r1[i].order <= r1[j].order)) by {
                assert(r1[i] == s1[i + 1] && r1[j] == s1[j + 1]);
            }
        }
        assert(sorted_by_tick(r2)) by {
            assert forall|i: int, j: int| 0 <= i < j < r2.len() implies
                (r2[i].tick < r2[j].tick || (r2[i].tick == r2[j].tick && r2[i].order <= r2[j].order)) by {
                assert(r2[i] == s2[i + 1] && r2[j] == s2[j + 1]);
            }
        }
        lemma_sorted_unique(r1, r2);
        assert forall|i: int| 0 <= i < s1.len() implies s1[i] == s2[i] by {
            if i > 0 {
                assert(s1[i] == r1[i - 1] && s2[i] == r2[i - 1]);
            }
        }
        assert(s1 =~= s2);
    }
}

/// Where no two events share a file order number, there is only one way to
/// put them in playing order.
pub proof fn lemma_playing_order_unique(s1: Seq<MidiEventView>, s2: Seq<MidiEventView>, evs: Seq<MidiEventView>)
    requires
        in_playing_order(s1, evs),
        in_playing_order(s2, evs),
        orders_distinct(evs),
    ensures
        s1 == s2,
{
    broadcast use vstd::seq_lib::group_to_multiset_ensures;
    assert forall|a: MidiEventView, b: MidiEventView|
        #[trigger] s1.to_multiset().count(a) > 0 && #[trigger] s1.to_multiset().count(b) > 0 && a.order == b.order
        implies a == b by {
        assert(evs.to_multiset().count(a) > 0);
        assert(evs.to_multiset().count(b) > 0);
        assert(evs.contains(a));
        assert(evs.contains(b));
        let i = choose|i: int| 0 <= i < evs.len() && evs[i] == a;
        let j = choose|j: int| 0 <= j < evs.len() && evs[j] == b;
        if i < j {
            assert(evs[i].order != evs[j].order);
        } else if j < i {
            assert(evs[j].order != evs[i].order);
        }
    }
    lemma_sorted_unique(s1, s2);
}

proof fn lemma_chunk_orders(s: Seq<u8>, off: int, remaining: nat, order: int)
    requires
        0 <= off,
        0 <= order,
        off > s.len() || order + s.len() - off <= usize::MAX,
    ensures
        chunk_events(s, off, remaining, order).0.len() == 0
            || chunk_events(s, off, remaining, order).0.len() + off <= s.len(),
        forall|i: int| 0 <= i < chunk_events(s, off, remaining, order).0.len()
            ==> #[trigger] chunk_events(s, off, remaining, order).0[i].order == order + i,
    decreases remaining,
{
    if remaining > 0 && !(off + 8 > s.len() || crate::midi::tag_at(s, off) != crate::midi::track_tag())
        && !(off + 8 + crate::bytes::be32(s, off + 4) > s.len()) {
        let end = off + 8 + crate::bytes::be32(s, off + 4);
        let chunk = s.subrange(off + 8, end);
        let (evs, err) = track_events(chunk, 0, 0, None);
        crate::midi::lemma_track_events_count(chunk, 0, 0, None);
        assert(evs.len() <= chunk.len());
        let here = numbered(evs, order);
        assert forall|i: int| 0 <= i < here.len() implies #[trigger] here[i].order == order + i by {
            assert(order + i <= usize::MAX);
        }
        if err is None {
            lemma_chunk_orders(s, end, (remaining - 1) as nat, order + evs.len());
            let rest = chunk_events(s, end, (remaining - 1) as nat, order + evs.len()).0;
            assert forall|i: int| 0 <= i < (here + rest).len() implies #[trigger] (here + rest)[i].order == order + i by {
                if i < here.len() {
                    assert((here + rest)[i] == here[i]);
                } else {
                    assert((here + rest)[i] == rest[i - here.len()]);
                }
            }
        }
    }
}

/// The events of the track chunks of a file are numbered one after another,
/// so no two share a file order number.
proof fn lemma_chunk_orders_distinct(s: Seq<u8>, off: int, remaining: nat)
    requires
        0 <= off,
        s.len() <= usize::MAX,
    ensures
        orders_distinct(chunk_events(s, off, remaining, 0).0),
{
    lemma_chunk_orders(s, off, remaining, 0);
    let evs = chunk_events(s, off, remaining, 0).0;
    assert forall|i: int, j: int| 0 <= i < j < evs.len() implies #[trigger] evs[i].order != #[trigger] evs[j].order by {
        assert(evs[i].order == i);
        assert(evs[j].order == j);
    }
}

/// Importer of Standard MIDI Files.
pub struct MidiImport;

impl MidiImport {
    /// Reads a Standard MIDI File and plays its events into a song.
    pub fn from_bytes(bytes: &[u8]) -> (r: Result<MidiSong, ImportError>)
        ensures
            match midi_header(bytes@) {
                Err(e) => r == Err::<MidiSong, ImportError>(e),
                Ok((format, tracks, division, first)) => {
                    let (evs, err) = chunk_events(bytes@, first, tracks as nat, 0);
                    match err {
                        Some(e) => r == Err::<MidiSong, ImportError>(e),
                        None => match song_of(
                            midi_ppq(division),
                            crate::midi::header_warning_views(format, division),
                            playing_order(evs),
                        ) {
                            Ok(v) => r is Ok && r->Ok_0@ == v,
                            Err(e) => r == Err::<MidiSong, ImportError>(e),
                        },
                    }
                },
            },
    {
        // Reading the length tells the proof that it fits in `usize`.
        let _len: usize = bytes.len();
        let file = read_midi_file(bytes)?;
        proof {
            if let Ok((format, tracks, division, first)) = midi_header(bytes@) {
                let (evs, err) = chunk_events(bytes@, first, tracks as nat, 0);
                let s = events_view(file.events@);
                lemma_chunk_channels(bytes@, first, tracks as nat, 0);
                lemma_same_events_channels(s, evs);
                assert(in_playing_order(s, evs));
                lemma_chunk_orders_distinct(bytes@, first, tracks as nat);
                lemma_playing_order_unique(s, playing_order(evs), evs);
            }
        }
        midi_song(file)
    }
}

} // verus!
