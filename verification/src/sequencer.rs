use vstd::prelude::*;
use vstd::string::*;

use crate::import::ImportedFormat;
use crate::text::{decimal, padded_decimal, zero_padded};
use crate::tracker_play::TrackKey;

verus! {

/// A MIDI note number from 0 to 127.
#[derive(Debug, Clone, Copy, PartialEq, Eq, Hash)]
pub struct Note(u8);

impl View for Note {
    type V = u8;

    closed spec fn view(&self) -> u8 {
        self.0
    }
}

impl Note {
    /// A note's number is at most 127.
    #[verifier::type_invariant]
    spec fn in_range(self) -> bool {
        self.0 <= 127
    }
}

/// Two notes with the same number are the same note.
pub proof fn lemma_note_view_injective(a: Note, b: Note)
    requires
        a@ == b@,
    ensures
        a == b,
{
}

/// The name of a pitch class, with sharps.
pub open spec fn pitch_name(p: int) -> Seq<char> {
    if p == 0 { "C"@ } else if p == 1 { "C#"@ } else if p == 2 { "D"@ } else if p == 3 { "D#"@ }
    else if p == 4 { "E"@ } else if p == 5 { "F"@ } else if p == 6 { "F#"@ } else if p == 7 { "G"@ }
    else if p == 8 { "G#"@ } else if p == 9 { "A"@ } else if p == 10 { "A#"@ } else { "B"@ }
}

/// A note's name: its pitch class and its octave, where middle C (60) is
/// in octave 4 and the lowest notes in octave -1.
pub open spec fn note_name(n: u8) -> Seq<char> {
    let octave = n as int / 12 - 1;
    pitch_name(n as int % 12) + if octave < 0 { "-"@ + decimal((-octave) as nat) } else { decimal(octave as nat) }
}

fn pitch_str(p: u8) -> (r: &'static str)
    requires
        p < 12,
    ensures
        r@ == pitch_name(p as int),
{
    let r = if p == 0 { "C" } else if p == 1 { "C#" } else if p == 2 { "D" } else if p == 3 { "D#" }
        else if p == 4 { "E" } else if p == 5 { "F" } else if p == 6 { "F#" } else if p == 7 { "G" }
        else if p == 8 { "G#" } else if p == 9 { "A" } else if p == 10 { "A#" } else { "B" };
    r
}

proof fn lemma_pitch_name_shape(p: int)
    requires
        0 <= p < 12,
    ensures
        pitch_name(p).len() == 1 || pitch_name(p).len() == 2,
        pitch_name(p).len() == 2 ==> pitch_name(p)[1] == '#',
        pitch_name(p).len() == 2 <==> (p == 1 || p == 3 || p == 6 || p == 8 || p == 10),
        pitch_name(p)[0] == (if p <= 1 { 'C' } else if p <= 3 { 'D' } else if p == 4 { 'E' } else if p <= 6 { 'F' }
            else if p <= 8 { 'G' } else if p <= 10 { 'A' } else { 'B' }),
{
    reveal_strlit("C");
    reveal_strlit("C#");
    reveal_strlit("D");
    reveal_strlit("D#");
    reveal_strlit("E");
    reveal_strlit("F");
    reveal_strlit("F#");
    reveal_strlit("G");
    reveal_strlit("G#");
    reveal_strlit("A");
    reveal_strlit("A#");
    reveal_strlit("B");
}

/// The octave part of the name of a note numbered at most 127: one
/// character for octaves 0 to 9, and `-1` below.
proof fn lemma_octave_text(n: u8)
    requires
        n <= 127,
    ensures
        ({
            let octave = n as int / 12 - 1;
            let text = if octave < 0 { "-"@ + decimal((-octave) as nat) } else { decimal(octave as nat) };
            &&& -1 <= octave <= 9
            &&& text.len() >= 1
            &&& octave < 0 ==> text[0] == '-'
            &&& octave >= 0 ==> text == seq![crate::text::digit_char(octave)]
        }),
{
    reveal_strlit("-");
    let octave = n as int / 12 - 1;
    assert(decimal(1) == seq![crate::text::digit_char(1)]);
    if octave >= 0 {
        assert(decimal(octave as nat) == seq![crate::text::digit_char(octave)]);
    }
}

/// Different notes have different names.
pub proof fn law_note_names_differ(a: Note, b: Note)
    requires
        a@ <= 127,
        b@ <= 127,
        a != b,
    ensures
        note_name(a@) != note_name(b@),
{
    let (x, y) = (a@, b@);
    if x == y {
        lemma_note_view_injective(a, b);
    }
    assert(x != y);
    if note_name(x) == note_name(y) {
        let (px, py) = (x as int % 12, y as int % 12);
        let (ox, oy) = (x as int / 12 - 1, y as int / 12 - 1);
        let tx = if ox < 0 { "-"@ + decimal((-ox) as nat) } else { decimal(ox as nat) };
        let ty = if oy < 0 { "-"@ + decimal((-oy) as nat) } else { decimal(oy as nat) };
        lemma_pitch_name_shape(px);
        lemma_pitch_name_shape(py);
        lemma_octave_text(x);
        lemma_octave_text(y);
        let name = note_name(x);
        assert(name == pitch_name(px) + tx);
        assert(name == pitch_name(py) + ty);
        assert(tx[0] != '#');
        assert(ty[0] != '#');
        let lx = pitch_name(px).len();
        let ly = pitch_name(py).len();
        assert(name[0] == pitch_name(px)[0]);
        assert(name[0] == pitch_name(py)[0]);
        if lx == 1 {
            assert(name[1] == tx[0]);
        } else {
            assert(name[1] == pitch_name(px)[1]);
        }
        if ly == 1 {
            assert(name[1] == ty[0]);
        } else {
            assert(name[1] == pitch_name(py)[1]);
        }
        assert(lx == ly);
        assert(px == py);
        assert(name[lx as int] == tx[0]);
        assert(name[ly as int] == ty[0]);
        assert(ox == oy) by {
            if ox >= 0 && oy >= 0 {
                assert(tx[0] == crate::text::digit_char(ox));
                assert(ty[0] == crate::text::digit_char(oy));
            }
        }
        assert(x as int == 12 * (ox + 1) + px);
        assert(y as int == 12 * (oy + 1) + py);
    }
}

/// The note number a MIDI number gives: numbers above 127 become 127.
pub open spec fn clamp_note(n: u8) -> u8 {
    if n > 127 { 127 } else { n }
}

/// Turning a note's number into a note again gives the same note: numbers
/// from 0 to 127 are kept, and clamping twice clamps once.
pub proof fn law_note_number_round_trip(n: u8)
    ensures
        clamp_note(clamp_note(n)) == clamp_note(n),
        n <= 127 ==> clamp_note(n) == n,
{
}

/// The note made from a note's number is that note: for every note `x`
/// (whose number `midi_number` shows to be at most 127) and the note `y`
/// that `from_midi` makes of that number, `y == x`.
pub proof fn law_note_from_its_number(x: Note, y: Note)
    requires
        x@ <= 127,
        y@ == clamp_note(x@),
    ensures
        y == x,
{
    lemma_note_view_injective(x, y);
}

impl Note {
    /// The note of a MIDI number; numbers above 127 become 127.
    pub fn from_midi(number: u8) -> (r: Self)
        ensures
            r@ == clamp_note(number),
    {
        Note(if number > 127 { 127 } else { number })
    }

    /// The MIDI number of the note, at most 127.
    pub fn midi_number(self) -> (r: u8)
        ensures
            r == self@,
            r <= 127,
    {
        proof {
            use_type_invariant(&self);
        }
        self.0
    }

    /// The note's name, such as `C4` for middle C or `A#-1`.
    pub fn name(self) -> (r: String)
        ensures
            r@ == note_name(self@),
    {
        let mut r = String::from_str(pitch_str(self.0 % 12));
        let octave = self.0 / 12;
        if octave == 0 {
            r.append("-1");
            proof {
                reveal_strlit("-1");
                reveal_strlit("-");
            }
            assert(decimal(1) == seq!['1']);
            assert("-1"@ =~= "-"@ + decimal(1));
        } else {
            let digits = padded_decimal((octave - 1) as u64, 0);
            r.append(digits.as_str());
        }
        r
    }
}

/// The name of an instrument in a sequence.
#[derive(Debug, Clone, PartialEq, Eq, Hash)]
pub struct InstrumentId(String);

impl View for InstrumentId {
    type V = Seq<char>;

    closed spec fn view(&self) -> Seq<char> {
        self.0@
    }
}

impl InstrumentId {
    /// The instrument of the given name.
    pub fn named(name: String) -> (r: Self)
        ensures
            r@ == name@,
    {
        InstrumentId(name)
    }

    /// The instrument's name.
    pub fn as_str(&self) -> (r: &str)
        ensures
            r@ == self@,
    {
        self.0.as_str()
    }
}

/// The name of a track in a sequence.
#[derive(Debug, Clone, PartialEq, Eq, Hash)]
pub struct TrackId(String);

impl View for TrackId {
    type V = Seq<char>;

    closed spec fn view(&self) -> Seq<char> {
        self.0@
    }
}

impl TrackId {
    /// The track of the given name.
    pub fn named(name: String) -> (r: Self)
        ensures
            r@ == name@,
    {
        TrackId(name)
    }

    /// The track's name.
    pub fn as_str(&self) -> (r: &str)
        ensures
            r@ == self@,
    {
        self.0.as_str()
    }
}

/// Two track ids made by `named` are the same name exactly when the texts
/// they were named from are the same, and `as_str` gives that text back.
pub proof fn law_track_ids_are_their_names(a: TrackId, b: TrackId, x: Seq<char>, y: Seq<char>)
    requires
        a@ == x,
        b@ == y,
    ensures
        (a@ == b@) <==> (x == y),
{
}

/// The title and composer of a sequence, when known.
#[derive(Debug, Clone, PartialEq, Eq, Default)]
pub struct SequenceMetadata {
    pub title: Option<String>,
    pub composer: Option<String>,
}

impl SequenceMetadata {
    /// Metadata with neither title nor composer.
    pub fn new() -> (r: Self)
        ensures
            r.title is None,
            r.composer is None,
    {
        SequenceMetadata { title: None, composer: None }
    }

    /// The same metadata with the given title.
    pub fn title(self, title: String) -> (r: Self)
        ensures
            r.title matches Some(t) && t@ == title@,
            r.composer == self.composer,
    {
        SequenceMetadata { title: Some(title), ..self }
    }

    /// The same metadata with the given composer.
    pub fn composer(self, composer: String) -> (r: Self)
        ensures
            r.composer matches Some(c) && c@ == composer@,
            r.title == self.title,
    {
        SequenceMetadata { composer: Some(composer), ..self }
    }
}

/// Appends `n` in decimal with zeros in front up to `width` digits.
fn push_number(s: &mut String, n: u64, width: usize)
    ensures
        final(s)@ == old(s)@ + zero_padded(decimal(n as nat), width as nat),
{
    let digits = padded_decimal(n, width);
    s.append(digits.as_str());
}

/// The track of a MIDI lane: channels count from 1, with the drum key for
/// the drum channel and the program otherwise.
pub open spec fn midi_track_name(ch: u8, program: u8, drum_note: Option<u8>) -> Seq<char> {
    match drum_note {
        Some(note) => "midi-ch"@ + zero_padded(decimal((ch + 1) as nat), 2) + "-drum"@ + zero_padded(decimal(note as nat), 3),
        None => "midi-ch"@ + zero_padded(decimal((ch + 1) as nat), 2) + "-program"@ + zero_padded(decimal(program as nat), 3),
    }
}

/// Names the track of a MIDI lane, such as `midi-ch01-program000` or
/// `midi-ch10-drum036`.
pub fn midi_track_id(ch: u8, program: u8, drum_note: Option<u8>) -> (r: TrackId)
    ensures
        r@ == midi_track_name(ch, program, drum_note),
{
    let mut name = String::from_str("midi-ch");
    push_number(&mut name, ch as u64 + 1, 2);
    match drum_note {
        Some(note) => {
            name.append("-drum");
            push_number(&mut name, note as u64, 3);
        },
        None => {
            name.append("-program");
            push_number(&mut name, program as u64, 3);
        },
    }
    TrackId::named(name)
}

/// The track of a tracker note: channels count from 1; XM samples other
/// than the first, and sample offsets, get a suffix.
pub open spec fn tracker_track_name(format: ImportedFormat, key: TrackKey) -> Seq<char> {
    let prefix = if format == ImportedFormat::Mod { "mod-ch"@ } else { "xm-ch"@ };
    let base = prefix + zero_padded(decimal((key.channel + 1) as nat), 2) + "-inst"@
        + zero_padded(decimal(key.instrument as nat), 2);
    let sample = if format != ImportedFormat::Mod && key.sample_slot != 0 {
        "-samp"@ + zero_padded(decimal((key.sample_slot + 1) as nat), 2)
    } else {
        Seq::empty()
    };
    let offset = if key.sample_offset > 0 { "-off"@ + zero_padded(decimal(key.sample_offset as nat), 6) } else { Seq::empty() };
    base + sample + offset
}

/// Names the track of a tracker note, such as `mod-ch01-inst03`,
/// `mod-ch02-inst01-off000512` or `xm-ch04-inst02-samp03`.
pub fn tracker_track_id(format: ImportedFormat, key: TrackKey) -> (r: TrackId)
    requires
        key.channel < u64::MAX,
        key.sample_slot < u64::MAX,
    ensures
        r@ == tracker_track_name(format, key),
{
    let mut name = if format == ImportedFormat::Mod { String::from_str("mod-ch") } else { String::from_str("xm-ch") };
    push_number(&mut name, key.channel as u64 + 1, 2);
    name.append("-inst");
    push_number(&mut name, key.instrument as u64, 2);
    if format != ImportedFormat::Mod && key.sample_slot != 0 {
        name.append("-samp");
        push_number(&mut name, key.sample_slot as u64 + 1, 2);
    }
    if key.sample_offset > 0 {
        name.append("-off");
        push_number(&mut name, key.sample_offset as u64, 6);
    }
    proof {
        let prefix = if format == ImportedFormat::Mod { "mod-ch"@ } else { "xm-ch"@ };
        let base = prefix + zero_padded(decimal((key.channel + 1) as nat), 2) + "-inst"@
            + zero_padded(decimal(key.instrument as nat), 2);
        let sample = if format != ImportedFormat::Mod && key.sample_slot != 0 {
            "-samp"@ + zero_padded(decimal((key.sample_slot + 1) as nat), 2)
        } else {
            Seq::empty()
        };
        assert(base + Seq::<char>::empty() =~= base);
        assert(base + sample + Seq::<char>::empty() =~= base + sample);
    }
    TrackId::named(name)
}

} // verus!

verus! {

/// Entries ordered by index, at most one per index.
pub open spec fn strictly_indexed<V>(events: Seq<(u64, V)>) -> bool {
    forall|i: int, j: int| 0 <= i < j < events.len() ==> events[i].0 < events[j].0
}

/// The first position at or after `from` whose index is not below `index`.
pub open spec fn position_from<V>(events: Seq<(u64, V)>, index: u64, from: int) -> int
    decreases events.len() - from,
{
    if from < 0 || from >= events.len() {
        events.len() as int
    } else if events[from].0 >= index {
        from
    } else {
        position_from(events, index, from + 1)
    }
}

/// The entries with `value` set at `index`: the entry there takes the new
/// value, or a new entry goes in at its place in index order.
pub open spec fn with_entry<V>(events: Seq<(u64, V)>, index: u64, value: V) -> Seq<(u64, V)> {
    let k = position_from(events, index, 0);
    if k < events.len() && events[k].0 == index {
        events.update(k, (index, value))
    } else {
        events.insert(k, (index, value))
    }
}

proof fn lemma_position_from<V>(events: Seq<(u64, V)>, index: u64, from: int)
    requires
        0 <= from <= events.len(),
        strictly_indexed(events),
        forall|i: int| 0 <= i < from ==> events[i].0 < index,
    ensures
        from <= position_from(events, index, from) <= events.len(),
        forall|i: int| 0 <= i < position_from(events, index, from) ==> events[i].0 < index,
        position_from(events, index, from) < events.len() ==> events[position_from(events, index, from)].0 >= index,
    decreases events.len() - from,
{
    if from < events.len() && events[from].0 < index {
        lemma_position_from(events, index, from + 1);
    }
}

/// Sets the value at an index of an index-ordered map, as a tempo map sets
/// the tempo from a step on: an existing entry at the index is replaced,
/// otherwise the entry goes in at its place. The map stays ordered, with one
/// entry per index.
pub fn tempo_at<V: Copy>(events: &mut Vec<(u64, V)>, index: u64, value: V)
    requires
        strictly_indexed(old(events)@),
    ensures
        final(events)@ == with_entry(old(events)@, index, value),
        strictly_indexed(final(events)@),
{
    let ghost s = events@;
    proof { lemma_position_from(s, index, 0); }
    let mut k: usize = 0;
    while k < events.len() && events[k].0 < index
        invariant
            s == events@,
            strictly_indexed(s),
            k <= s.len(),
            position_from(s, index, 0) == position_from(s, index, k as int),
            forall|i: int| 0 <= i < k ==> s[i].0 < index,
        decreases s.len() - k,
    {
        k = k + 1;
    }
    assert(k < s.len() ==> s[k as int].0 >= index);
    assert(position_from(s, index, k as int) == k as int);
    assert(k == position_from(s, index, 0));
    if k < events.len() && events[k].0 == index {
        events.set(k, (index, value));
    } else {
        events.insert(k, (index, value));
        proof {
            let t = events@;
            assert forall|i: int, j: int| 0 <= i < j < t.len() implies t[i].0 < t[j].0 by {
                if j < k {
                    assert(t[i] == s[i] && t[j] == s[j]);
                } else if j == k {
                    assert(t[i] == s[i]);
                } else if i < k {
                    assert(t[i] == s[i] && t[j] == s[j - 1]);
                    assert(s[k as int].0 > index || k as int >= s.len());
                    if (k as int) < j - 1 {
                        assert(s[k as int].0 < s[j - 1].0);
                    }
                } else if i == k {
                    assert(t[j] == s[j - 1]);
                    if (k as int) < j - 1 {
                        assert(s[k as int].0 < s[j - 1].0);
                    }
                } else {
                    assert(t[i] == s[i - 1] && t[j] == s[j - 1]);
                }
            }
        }
    }
}

} // verus!
