use vstd::prelude::*;

use crate::bytes::{end_of_data, le16, le32, le_u16, le_u32, read_u8};
use crate::import::ImportError;
use crate::text::{c_string_text, trim_c_string};
use crate::tracker::{
    expand_ping_pong_loop, ping_pong_frames, xm_note_to_midi, xm_volume_level, xm_volume_pan, TrackerCell, TrackerSample,
};

verus! {

/// The mathematical content of a `TrackerSample`.
#[verifier::ext_equal]
pub struct SampleView {
    pub name: Seq<char>,
    pub length: int,
    pub is_16_bit: bool,
    pub volume: u8,
    pub finetune: i8,
    pub loop_start: int,
    pub loop_len: int,
    pub ping_pong_loop: bool,
    pub data: Seq<i16>,
    pub relative_note: i8,
    pub pan: Option<u8>,
    pub envelope: Option<Seq<(u16, u16)>>,
}

/// The points of an optional envelope.
pub open spec fn envelope_view(e: Option<Vec<(u16, u16)>>) -> Option<Seq<(u16, u16)>> {
    match e {
        Some(v) => Some(v@),
        None => None,
    }
}

/// The view of a sample.
pub open spec fn sample_view(x: TrackerSample) -> SampleView {
    SampleView {
        name: x.name@,
        length: x.length as int,
        is_16_bit: x.is_16_bit,
        volume: x.volume,
        finetune: x.finetune,
        loop_start: x.loop_start as int,
        loop_len: x.loop_len as int,
        ping_pong_loop: x.ping_pong_loop,
        data: x.data@,
        relative_note: x.relative_note,
        pan: x.pan,
        envelope: envelope_view(x.envelope),
    }
}

/// A sample after its ping-pong loop, if any, is unrolled.
pub open spec fn unrolled(v: SampleView) -> SampleView {
    let end = v.loop_start + v.loop_len;
    if !v.ping_pong_loop || v.loop_len <= 2 || v.loop_start >= v.data.len() || end > v.data.len() {
        v
    } else {
        let data = ping_pong_frames(v.data, v.loop_start, end);
        SampleView { data, loop_len: data.len() - v.loop_start, length: data.len() as int, ping_pong_loop: false, ..v }
    }
}

/// The signature at the start of every XM file.
pub open spec fn xm_magic() -> Seq<u8> {
    seq![0x45u8, 0x78, 0x74, 0x65, 0x6e, 0x64, 0x65, 0x64, 0x20, 0x4d, 0x6f, 0x64, 0x75, 0x6c, 0x65, 0x3a, 0x20]
}

/// Why the fixed part of an XM header is refused, if it is.
pub open spec fn xm_header_error(s: Seq<u8>) -> Option<ImportError> {
    if s.len() < 80 || s.subrange(0, 17) != xm_magic() || s[37] != 0x1a {
        Some(ImportError::InvalidFormat("missing XM header"))
    } else if le32(s, 60) < 20 || 60 + le32(s, 60) > s.len() {
        Some(ImportError::InvalidFormat("truncated XM song header"))
    } else if s.len() < 336 {
        Some(ImportError::InvalidFormat("truncated XM order table"))
    } else {
        None
    }
}

/// A value, at least one.
pub open spec fn at_least_one(v: u16) -> int {
    if v == 0 { 1 } else { v as int }
}

/// Bit `bit` (a power of two) of a flags byte.
pub open spec fn has_flag(first: u8, bit: int) -> bool {
    (first as int / bit) % 2 == 1
}

/// Reads the byte at `pos` when `present`, or takes zero without reading;
/// none when the byte lies past the end.
pub open spec fn opt_byte(s: Seq<u8>, pos: int, present: bool) -> Option<(u8, int)> {
    if !present {
        Some((0u8, pos))
    } else if 0 <= pos < s.len() {
        Some((s[pos], pos + 1))
    } else {
        None
    }
}

/// The cell of a note byte, an instrument, a volume-column byte, an effect
/// and its parameter. Note 97 and effect 0x14 are key-offs.
pub open spec fn xm_cell_of(note: u8, instrument: u8, volume: u8, effect: u8, param: u8) -> TrackerCell {
    TrackerCell {
        note: if 1 <= note <= 96 { Some((note + 11) as u8) } else { None },
        period: None,
        instrument: instrument as usize,
        volume: if 0x10 <= volume <= 0x50 { Some((volume - 0x10) as u8) } else { None },
        pan: if 0xc0 <= volume <= 0xcf { Some((volume - 0xc0) as u8) } else { None },
        effect,
        effect_param: param,
        key_off: note == 97 || effect == 0x14,
    }
}

/// Reads one packed cell at `off`: a first byte with the high bit set says
/// which of the five fields follow; otherwise it is the note and all four
/// others follow. None when the data ends inside the cell.
#[verifier::opaque]
pub open spec fn xm_cell_read(s: Seq<u8>, off: int) -> Option<(TrackerCell, int)> {
    if off < 0 || off >= s.len() {
        None
    } else {
        let first = s[off];
        let packed = first >= 0x80;
        let note = if packed { opt_byte(s, off + 1, has_flag(first, 1)) } else { Some((first, off + 1)) };
        match note {
            None => None,
            Some((n, p1)) => match opt_byte(s, p1, !packed || has_flag(first, 2)) {
                None => None,
                Some((i, p2)) => match opt_byte(s, p2, !packed || has_flag(first, 4)) {
                    None => None,
                    Some((v, p3)) => match opt_byte(s, p3, !packed || has_flag(first, 8)) {
                        None => None,
                        Some((e, p4)) => match opt_byte(s, p4, !packed || has_flag(first, 16)) {
                            None => None,
                            Some((x, p5)) => Some((xm_cell_of(n, i, v, e, x), p5)),
                        },
                    },
                },
            },
        }
    }
}

/// An unpacked XM cell is five bytes in a row: the note byte, the
/// instrument, the volume byte, the effect and its parameter. Note byte 97,
/// or effect 0x14, releases the channel's note; note bytes 1 to 96 are the
/// notes from MIDI 12 up; volume bytes 0x10 to 0x50 set the volume from 0
/// to 64 and 0xc0 to 0xcf the pan.
pub proof fn law_unpacked_xm_cell(s: Seq<u8>, off: int)
    requires
        0 <= off,
        off + 5 <= s.len(),
        s[off] < 0x80,
    ensures
        xm_cell_read(s, off) is Some,
        ({
            let (c, next) = xm_cell_read(s, off)->Some_0;
            &&& next == off + 5
            &&& c.key_off == (s[off] == 97 || s[off + 3] == 0x14)
            &&& c.note == (if 1 <= s[off] <= 96 { Some((s[off] + 11) as u8) } else { None::<u8> })
            &&& c.instrument == s[off + 1] as usize
            &&& c.volume == (if 0x10 <= s[off + 2] <= 0x50 { Some((s[off + 2] - 0x10) as u8) } else { None::<u8> })
            &&& c.pan == (if 0xc0 <= s[off + 2] <= 0xcf { Some((s[off + 2] - 0xc0) as u8) } else { None::<u8> })
            &&& c.effect == s[off + 3]
            &&& c.effect_param == s[off + 4]
            &&& c.period is None
        }),
{
    reveal(xm_cell_read);
}

/// A packed XM cell releases the channel's note exactly when its note byte
/// is present and 97, or its effect is 0x14; without a note byte it starts
/// no note.
pub proof fn law_packed_xm_cell_key_off(s: Seq<u8>, off: int)
    requires
        0 <= off < s.len(),
        s[off] >= 0x80,
        xm_cell_read(s, off) is Some,
    ensures
        ({
            let c = xm_cell_read(s, off)->Some_0.0;
            &&& c.key_off == ((has_flag(s[off], 1) && s[off + 1] == 97) || c.effect == 0x14)
            &&& !has_flag(s[off], 1) ==> c.note is None
            &&& has_flag(s[off], 1) ==> c.note == (if 1 <= s[off + 1] <= 96 { Some((s[off + 1] + 11) as u8) } else { None::<u8> })
        }),
{
    reveal(xm_cell_read);
}

/// Reads `k` cells one after another.
pub open spec fn xm_cells(s: Seq<u8>, off: int, k: nat) -> Option<(Seq<TrackerCell>, int)>
    decreases k,
{
    if k == 0 {
        Some((Seq::empty(), off))
    } else {
        match xm_cell_read(s, off) {
            None => None,
            Some((c, next)) => match xm_cells(s, next, (k - 1) as nat) {
                None => None,
                Some((rest, end)) => Some((seq![c] + rest, end)),
            },
        }
    }
}

/// Reads `rows` rows of `channels` cells.
pub open spec fn xm_rows(s: Seq<u8>, off: int, rows: nat, channels: nat) -> Option<(Seq<Seq<TrackerCell>>, int)>
    decreases rows,
{
    if rows == 0 {
        Some((Seq::empty(), off))
    } else {
        match xm_cells(s, off, channels) {
            None => None,
            Some((row, next)) => match xm_rows(s, next, (rows - 1) as nat, channels) {
                None => None,
                Some((rest, end)) => Some((seq![row] + rest, end)),
            },
        }
    }
}

/// Reads `k` patterns from `off`: each a header with its length, row count
/// and packed size, then the packed rows. Returns the patterns and where the
/// next part starts.
pub open spec fn xm_patterns(s: Seq<u8>, off: int, k: nat, channels: nat)
    -> Result<(Seq<Seq<Seq<TrackerCell>>>, int), ImportError>
    decreases k,
{
    if k == 0 {
        Ok((Seq::empty(), off))
    } else if off + 4 > s.len() {
        Err(end_of_data())
    } else if le32(s, off) < 9 || off + le32(s, off) > s.len() {
        Err(ImportError::InvalidFormat("truncated XM pattern header"))
    } else {
        let rows = at_least_one(le16(s, off + 5));
        let start = off + le32(s, off);
        let end = start + le16(s, off + 7);
        if end > s.len() {
            Err(ImportError::InvalidFormat("truncated XM pattern data"))
        } else {
            match xm_rows(s.subrange(start, end), 0, rows as nat, channels) {
                None => Err(end_of_data()),
                Some((pattern, _)) => match xm_patterns(s, end, (k - 1) as nat, channels) {
                    Err(e) => Err(e),
                    Ok((rest, next)) => Ok((seq![pattern] + rest, next)),
                },
            }
        }
    }
}

/// The byte at `pos`, or zero past the end.
pub open spec fn byte_or_zero(s: Seq<u8>, pos: int) -> u8 {
    if 0 <= pos < s.len() { s[pos] } else { 0 }
}

/// Up to twelve envelope points of (tick, level) pairs from `start`.
pub open spec fn xm_envelope(s: Seq<u8>, start: int, count: u8) -> Option<Seq<(u16, u16)>> {
    let n = if count > 12 { 12 } else { count as int };
    if n == 0 {
        None
    } else {
        Some(Seq::new(n as nat, |i: int| (le16(s, start + 4 * i), le16(s, start + 4 * i + 2))))
    }
}

/// The volume envelope of the instrument whose header starts at `off`, when
/// the header holds one and its type byte switches it on.
pub open spec fn xm_instrument_envelope(s: Seq<u8>, off: int, header_end: int, sample_count: int)
    -> Option<Seq<(u16, u16)>>
{
    if sample_count > 0 && off + 177 <= header_end && off + 225 < header_end && byte_or_zero(s, off + 233) % 2 == 1 {
        xm_envelope(s, off + 129, byte_or_zero(s, off + 225))
    } else {
        None
    }
}

/// The note-to-sample map of an instrument, when its header holds one.
pub open spec fn xm_keymap(s: Seq<u8>, off: int, header_end: int, sample_count: int) -> Seq<u8> {
    if sample_count > 0 && off + 129 <= header_end {
        s.subrange(off + 33, off + 129)
    } else {
        Seq::new(96, |i: int| 0u8)
    }
}

/// The sample header at `h`, before its data is read.
#[verifier::opaque]
pub open spec fn xm_sample_header(s: Seq<u8>, h: int, envelope: Option<Seq<(u16, u16)>>) -> SampleView {
    let kind = s[h + 14];
    SampleView {
        name: c_string_text(s.subrange(h + 18, h + 40)),
        length: le32(s, h) as int,
        is_16_bit: has_flag(kind, 16),
        volume: if s[h + 12] > 64 { 64 } else { s[h + 12] },
        finetune: s[h + 13] as i8,
        loop_start: le32(s, h + 4) as int,
        loop_len: if kind % 4 == 0 { 0 } else { le32(s, h + 8) as int },
        ping_pong_loop: kind % 4 == 2,
        data: Seq::empty(),
        relative_note: s[h + 16] as i8,
        pan: Some(s[h + 15]),
        envelope,
    }
}

/// The running sum, wrapping at eight bits, of the deltas of 8-bit sample
/// data.
pub open spec fn acc8(b: Seq<u8>) -> i8
    decreases b.len(),
{
    if b.len() == 0 { 0 } else { acc8(b.drop_last()).wrapping_add(b.last() as i8) }
}

/// The frames that 8-bit delta-coded data decodes to.
pub open spec fn delta8(b: Seq<u8>) -> Seq<i16>
    decreases b.len(),
{
    if b.len() == 0 { Seq::empty() } else { delta8(b.drop_last()).push(acc8(b) as i16) }
}

/// The little-endian 16-bit value at `i`, signed.
pub open spec fn le_i16(b: Seq<u8>, i: int) -> i16 {
    ((b[i] as int + b[i + 1] as int * 256) as u16) as i16
}

/// The running sum, wrapping at sixteen bits, of the first `k` deltas of
/// 16-bit sample data.
pub open spec fn acc16(b: Seq<u8>, k: int) -> i16
    decreases k,
{
    if k <= 0 { 0 } else { acc16(b, k - 1).wrapping_add(le_i16(b, 2 * (k - 1))) }
}

/// The first `k` frames that 16-bit delta-coded data decodes to.
pub open spec fn delta16(b: Seq<u8>, k: int) -> Seq<i16>
    decreases k,
{
    if k <= 0 { Seq::empty() } else { delta16(b, k - 1).push(acc16(b, k)) }
}

/// A sample with its data decoded from the bytes `b`: 16-bit samples count
/// their loop in frames, not bytes. Then its ping-pong loop is unrolled.
#[verifier::opaque]
pub open spec fn with_data(v: SampleView, b: Seq<u8>) -> SampleView {
    if v.is_16_bit {
        unrolled(SampleView { data: delta16(b, (b.len() / 2) as int), loop_start: v.loop_start / 2, loop_len: v.loop_len / 2, ..v })
    } else {
        unrolled(SampleView { data: delta8(b), ..v })
    }
}

/// Reads the data of the samples with the headers `hs` from `off` on, one
/// after another.
pub open spec fn xm_sample_data(s: Seq<u8>, off: int, hs: Seq<SampleView>) -> Result<(Seq<SampleView>, int), ImportError>
    decreases hs.len(),
{
    if hs.len() == 0 {
        Ok((Seq::empty(), off))
    } else {
        let h = hs[0];
        let end = off + h.length;
        if end > s.len() {
            Err(ImportError::MalformedSampleData("truncated XM sample data"))
        } else if h.is_16_bit && h.length % 2 != 0 {
            Err(ImportError::MalformedSampleData("odd XM 16-bit sample byte length"))
        } else {
            match xm_sample_data(s, end, hs.drop_first()) {
                Err(e) => Err(e),
                Ok((rest, next)) => Ok((seq![with_data(h, s.subrange(off, end))] + rest, next)),
            }
        }
    }
}

/// The mathematical content of an instrument: its note-to-sample map and its
/// samples.
pub struct InstrumentView {
    pub keymap: Seq<u8>,
    pub samples: Seq<SampleView>,
}

/// An instrument of the given note map and the samples read, or the error.
pub open spec fn with_keymap(keymap: Seq<u8>, x: Result<(Seq<SampleView>, int), ImportError>)
    -> Result<(InstrumentView, int), ImportError>
{
    match x {
        Err(e) => Err(e),
        Ok((samples, next)) => Ok((InstrumentView { keymap, samples }, next)),
    }
}

/// Reads one instrument at `off`: its header, its sample headers and then
/// the data of its samples. Returns it and where the next one starts.
pub open spec fn xm_instrument(s: Seq<u8>, off: int) -> Result<(InstrumentView, int), ImportError> {
    if off + 4 > s.len() {
        Err(end_of_data())
    } else if le32(s, off) < 29 || off + le32(s, off) > s.len() {
        Err(ImportError::InvalidFormat("truncated XM instrument header"))
    } else {
        let header_end = off + le32(s, off);
        let count = le16(s, off + 27) as int;
        if count > 0 && off + 33 > s.len() {
            Err(end_of_data())
        } else {
            let size = if count > 0 { le32(s, off + 29) as int } else { 0 };
            let envelope = xm_instrument_envelope(s, off, header_end, count);
            if count > 0 && (size < 40 || header_end + count * size > s.len()) {
                Err(ImportError::InvalidFormat("truncated XM sample header"))
            } else {
                let headers = Seq::new(count as nat, |j: int| xm_sample_header(s, header_end + j * size, envelope));
                with_keymap(xm_keymap(s, off, header_end, count), xm_sample_data(s, header_end + count * size, headers))
            }
        }
    }
}

/// Reads `k` instruments one after another.
pub open spec fn xm_instruments(s: Seq<u8>, off: int, k: nat) -> Result<Seq<InstrumentView>, ImportError>
    decreases k,
{
    if k == 0 {
        Ok(Seq::empty())
    } else {
        match xm_instrument(s, off) {
            Err(e) => Err(e),
            Ok((ins, next)) => match xm_instruments(s, next, (k - 1) as nat) {
                Err(e) => Err(e),
                Ok(rest) => Ok(seq![ins] + rest),
            },
        }
    }
}

/// The mathematical content of an XM file's layout.
pub struct XmView {
    pub title: Seq<char>,
    pub song_len: int,
    pub channels: int,
    pub speed: int,
    pub bpm: int,
    pub orders: Seq<u8>,
    pub patterns: Seq<Seq<Seq<TrackerCell>>>,
    pub instruments: Seq<InstrumentView>,
}

/// What reading an XM file gives: its layout, or why it is refused.
pub open spec fn xm_layout_spec(s: Seq<u8>) -> Result<XmView, ImportError> {
    match xm_header_error(s) {
        Some(e) => Err(e),
        None => {
            let channels = at_least_one(le16(s, 68));
            match xm_patterns(s, 60 + le32(s, 60), le16(s, 70) as nat, channels as nat) {
                Err(e) => Err(e),
                Ok((patterns, off)) => match xm_instruments(s, off, le16(s, 72) as nat) {
                    Err(e) => Err(e),
                    Ok(instruments) => Ok(XmView {
                        title: c_string_text(s.subrange(17, 37)),
                        song_len: at_least_one(le16(s, 64)),
                        channels,
                        speed: at_least_one(le16(s, 76)),
                        bpm: at_least_one(le16(s, 78)),
                        orders: s.subrange(80, 336),
                        patterns,
                        instruments,
                    }),
                },
            }
        },
    }
}

} // verus!

verus! {

/// Reads one packed pattern cell at `*offset` and moves past it.
pub fn read_xm_cell(bytes: &[u8], offset: &mut usize) -> (r: Result<TrackerCell, ImportError>)
    ensures
        match xm_cell_read(bytes@, *old(offset) as int) {
            Some((c, next)) => r == Ok::<TrackerCell, ImportError>(c) && *final(offset) == next,
            None => r == Err::<TrackerCell, ImportError>(end_of_data()),
        },
{
    reveal(xm_cell_read);
    let ghost s = bytes@;
    let ghost off = *offset as int;
    let first = read_u8(bytes, offset)?;
    let packed = first >= 0x80;
    let note = if packed {
        if first % 2 == 1 { read_u8(bytes, offset)? } else { 0 }
    } else {
        first
    };
    assert(has_flag(first, 1) == (first % 2 == 1));
    let instrument = if !packed || (first / 2) % 2 == 1 { read_u8(bytes, offset)? } else { 0 };
    let volume = if !packed || (first / 4) % 2 == 1 { read_u8(bytes, offset)? } else { 0 };
    let effect = if !packed || (first / 8) % 2 == 1 { read_u8(bytes, offset)? } else { 0 };
    let param = if !packed || (first / 16) % 2 == 1 { read_u8(bytes, offset)? } else { 0 };
    Ok(TrackerCell {
        note: xm_note_to_midi(note),
        period: None,
        instrument: instrument as usize,
        volume: xm_volume_level(volume),
        pan: xm_volume_pan(volume),
        effect,
        effect_param: param,
        key_off: note == 97 || effect == 0x14,
    })
}

/// Cells read so far, in front of what reading the rest gives.
pub open spec fn after_cells(done: Seq<TrackerCell>, x: Option<(Seq<TrackerCell>, int)>) -> Option<(Seq<TrackerCell>, int)> {
    match x {
        None => None,
        Some((rest, end)) => Some((done + rest, end)),
    }
}

/// Rows read so far, in front of what reading the rest gives.
pub open spec fn after_rows(done: Seq<Seq<TrackerCell>>, x: Option<(Seq<Seq<TrackerCell>>, int)>)
    -> Option<(Seq<Seq<TrackerCell>>, int)>
{
    match x {
        None => None,
        Some((rest, end)) => Some((done + rest, end)),
    }
}

proof fn lemma_cells_step(s: Seq<u8>, off: int, k: nat, done: Seq<TrackerCell>)
    requires
        k > 0,
    ensures
        xm_cell_read(s, off) matches Some((c, next)) ==> after_cells(done, xm_cells(s, off, k))
            == after_cells(done.push(c), xm_cells(s, next, (k - 1) as nat)),
        xm_cell_read(s, off) is None ==> after_cells(done, xm_cells(s, off, k)) is None,
{
    if let Some((c, next)) = xm_cell_read(s, off) {
        if let Some((t, e)) = xm_cells(s, next, (k - 1) as nat) {
            assert(done + (seq![c] + t) =~= done.push(c) + t);
        }
    }
}

/// The cells of each row of a pattern.
pub open spec fn rows_view(v: Seq<Vec<TrackerCell>>) -> Seq<Seq<TrackerCell>> {
    v.map_values(|r: Vec<TrackerCell>| r@)
}

/// Reads `rows` rows of `channels` packed cells each.
pub fn parse_xm_pattern(bytes: &[u8], rows: usize, channels: usize) -> (r: Result<Vec<Vec<TrackerCell>>, ImportError>)
    ensures
        match xm_rows(bytes@, 0, rows as nat, channels as nat) {
            Some((p, _)) => r matches Ok(v) && rows_view(v@) == p,
            None => r == Err::<Vec<Vec<TrackerCell>>, ImportError>(end_of_data()),
        },
{
    let ghost s = bytes@;
    let mut offset: usize = 0;
    let mut parsed: Vec<Vec<TrackerCell>> = Vec::new();
    let mut r: usize = 0;
    assert(rows_view(parsed@) + xm_rows(s, 0, rows as nat, channels as nat)->Some_0.0 =~= xm_rows(s, 0, rows as nat, channels as nat)->Some_0.0);
    while r < rows
        invariant
            s == bytes@,
            r <= rows,
            xm_rows(s, 0, rows as nat, channels as nat)
                == after_rows(rows_view(parsed@), xm_rows(s, offset as int, (rows - r) as nat, channels as nat)),
        decreases rows - r,
    {
        let ghost row_start = offset as int;
        let mut row: Vec<TrackerCell> = Vec::new();
        let mut c: usize = 0;
        assert(row@ + xm_cells(s, row_start, channels as nat)->Some_0.0 =~= xm_cells(s, row_start, channels as nat)->Some_0.0);
        while c < channels
            invariant
                s == bytes@,
                c <= channels,
                r < rows,
                xm_cells(s, row_start, channels as nat)
                    == after_cells(row@, xm_cells(s, offset as int, (channels - c) as nat)),
                xm_rows(s, 0, rows as nat, channels as nat)
                    == after_rows(rows_view(parsed@), xm_rows(s, row_start, (rows - r) as nat, channels as nat)),
            decreases channels - c,
        {
            proof { lemma_cells_step(s, offset as int, (channels - c) as nat, row@); }
            match read_xm_cell(bytes, &mut offset) {
                Ok(cell) => {
                    row.push(cell);
                },
                Err(e) => {
                    proof {
                        assert(xm_cells(s, row_start, channels as nat) is None);
                        assert(xm_rows(s, row_start, (rows - r) as nat, channels as nat) is None);
                    }
                    return Err(e);
                },
            }
            c = c + 1;
        }
        proof {
            let rest = xm_rows(s, offset as int, (rows - r - 1) as nat, channels as nat);
            assert(xm_cells(s, offset as int, 0) == Some::<(Seq<TrackerCell>, int)>((Seq::empty(), offset as int)));
            assert(row@ + Seq::<TrackerCell>::empty() =~= row@);
            if let Some((t, e)) = rest {
                assert(rows_view(parsed@) + (seq![row@] + t) =~= rows_view(parsed@).push(row@) + t);
            }
            assert(rows_view(parsed@.push(row)) =~= rows_view(parsed@).push(row@));
        }
        parsed.push(row);
        r = r + 1;
    }
    proof {
        assert(rows_view(parsed@) + Seq::<Seq<TrackerCell>>::empty() =~= rows_view(parsed@));
    }
    Ok(parsed)
}

} // verus!

verus! {

/// Decodes 8-bit delta-coded frames from `bytes[start..end]`.
fn decode_delta8(bytes: &[u8], start: usize, end: usize) -> (r: Vec<i16>)
    requires
        start <= end <= bytes@.len(),
    ensures
        r@ == delta8(bytes@.subrange(start as int, end as int)),
{
    let ghost b = bytes@.subrange(start as int, end as int);
    let mut data: Vec<i16> = Vec::new();
    let mut acc: i8 = 0;
    let mut k: usize = start;
    while k < end
        invariant
            start <= k <= end <= bytes@.len(),
            b == bytes@.subrange(start as int, end as int),
            data@ == delta8(b.take(k - start)),
            acc == acc8(b.take(k - start)),
        decreases end - k,
    {
        let d = #[verifier::truncate] (bytes[k] as i8);
        acc = acc.wrapping_add(d);
        data.push(acc as i16);
        assert(b.take(k + 1 - start).drop_last() =~= b.take(k - start));
        assert(b.take(k + 1 - start).last() == bytes@[k as int]);
        k = k + 1;
    }
    assert(b.take(end - start) =~= b);
    data
}

/// Decodes 16-bit little-endian delta-coded frames from `bytes[start..end]`.
fn decode_delta16(bytes: &[u8], start: usize, end: usize) -> (r: Vec<i16>)
    requires
        start <= end <= bytes@.len(),
        (end - start) % 2 == 0,
    ensures
        r@ == delta16(bytes@.subrange(start as int, end as int), (end - start) / 2),
{
    let ghost b = bytes@.subrange(start as int, end as int);
    let pairs = (end - start) / 2;
    let mut data: Vec<i16> = Vec::new();
    let mut acc: i16 = 0;
    let mut k: usize = 0;
    while k < pairs
        invariant
            start <= end <= bytes@.len(),
            pairs == (end - start) / 2,
            b == bytes@.subrange(start as int, end as int),
            k <= pairs,
            data@ == delta16(b, k as int),
            acc == acc16(b, k as int),
        decreases pairs - k,
    {
        let lo = bytes[start + 2 * k];
        let hi = bytes[start + 2 * k + 1];
        let word: u16 = lo as u16 + hi as u16 * 256;
        let d = #[verifier::truncate] (word as i16);
        assert(d == le_i16(b, 2 * k));
        acc = acc.wrapping_add(d);
        data.push(acc);
        k = k + 1;
    }
    data
}

/// Reads up to twelve envelope points from `start`.
fn read_xm_envelope(bytes: &[u8], start: usize, count: u8) -> (r: Option<Vec<(u16, u16)>>)
    requires
        start + 48 <= bytes@.len(),
    ensures
        envelope_view(r) == xm_envelope(bytes@, start as int, count),
{
    let n: usize = if count > 12 { 12 } else { count as usize };
    if n == 0 {
        return None;
    }
    let blen = bytes.len();
    let mut points: Vec<(u16, u16)> = Vec::new();
    let mut i: usize = 0;
    while i < n
        invariant
            start + 48 <= bytes@.len(),
            blen == bytes@.len(),
            n <= 12,
            i <= n,
            points@ == Seq::new(i as nat, |j: int| (le16(bytes@, start + 4 * j), le16(bytes@, start + 4 * j + 2))),
        decreases n - i,
    {
        let x = match le_u16(bytes, start + 4 * i) { Ok(v) => v, Err(_) => 0 };
        let y = match le_u16(bytes, start + 4 * i + 2) { Ok(v) => v, Err(_) => 0 };
        points.push((x, y));
        proof {
            assert(points@ =~= Seq::new((i + 1) as nat, |j: int| (le16(bytes@, start + 4 * j), le16(bytes@, start + 4 * j + 2))));
        }
        i = i + 1;
    }
    Some(points)
}

fn copy_envelope(e: &Option<Vec<(u16, u16)>>) -> (r: Option<Vec<(u16, u16)>>)
    ensures
        envelope_view(r) == envelope_view(*e),
{
    match e {
        None => None,
        Some(points) => {
            let mut copy: Vec<(u16, u16)> = Vec::new();
            let mut i: usize = 0;
            while i < points.len()
                invariant
                    i <= points@.len(),
                    copy@ == points@.take(i as int),
                decreases points@.len() - i,
            {
                copy.push(points[i]);
                assert(points@.take(i + 1) =~= points@.take(i as int).push(points@[i as int]));
                i = i + 1;
            }
            assert(points@.take(points@.len() as int) =~= points@);
            Some(copy)
        },
    }
}

/// Reads the sample header at `h`.
fn read_xm_sample_header(bytes: &[u8], h: usize, envelope: &Option<Vec<(u16, u16)>>) -> (r: TrackerSample)
    requires
        h + 40 <= bytes@.len(),
    ensures
        sample_view(r) == xm_sample_header(bytes@, h as int, envelope_view(*envelope)),
{
    let blen = bytes.len();
    let length = match le_u32(bytes, h) { Ok(v) => v as usize, Err(_) => 0 };
    let loop_start = match le_u32(bytes, h + 4) { Ok(v) => v as usize, Err(_) => 0 };
    let raw_loop = match le_u32(bytes, h + 8) { Ok(v) => v as usize, Err(_) => 0 };
    let kind = bytes[h + 14];
    let name = trim_c_string(&bytes[h + 18..h + 40]);
    let volume = if bytes[h + 12] > 64 { 64 } else { bytes[h + 12] };
    let r = TrackerSample {
        name,
        length,
        is_16_bit: (kind / 16) % 2 == 1,
        volume,
        finetune: #[verifier::truncate] (bytes[h + 13] as i8),
        loop_start,
        loop_len: if kind % 4 == 0 { 0 } else { raw_loop },
        ping_pong_loop: kind % 4 == 2,
        data: Vec::new(),
        relative_note: #[verifier::truncate] (bytes[h + 16] as i8),
        pan: Some(bytes[h + 15]),
        envelope: copy_envelope(envelope),
    };
    reveal(xm_sample_header);
    assert(sample_view(r) =~= xm_sample_header(bytes@, h as int, envelope_view(*envelope)));
    r
}

/// An instrument of an XM file: its note-to-sample map over 96 notes and
/// its samples.
pub struct XmInstrument {
    pub keymap: Vec<u8>,
    pub samples: Vec<TrackerSample>,
}

/// The views of a list of samples.
pub open spec fn samples_view(v: Seq<TrackerSample>) -> Seq<SampleView> {
    v.map_values(|t: TrackerSample| sample_view(t))
}

/// The view of an instrument.
pub open spec fn instrument_view(x: XmInstrument) -> InstrumentView {
    InstrumentView { keymap: x.keymap@, samples: samples_view(x.samples@) }
}

/// Samples read so far, in front of what reading the rest gives.
pub open spec fn after_samples(done: Seq<SampleView>, x: Result<(Seq<SampleView>, int), ImportError>)
    -> Result<(Seq<SampleView>, int), ImportError>
{
    match x {
        Err(e) => Err(e),
        Ok((rest, end)) => Ok((done + rest, end)),
    }
}

/// Decodes the data of a sample from `bytes[start..end]` into it and unrolls
/// its ping-pong loop.
fn fill_sample(sample: &mut TrackerSample, bytes: &[u8], start: usize, end: usize)
    requires
        start <= end <= bytes@.len(),
        old(sample).is_16_bit ==> (end - start) % 2 == 0,
    ensures
        sample_view(*final(sample)) == with_data(sample_view(*old(sample)), bytes@.subrange(start as int, end as int)),
{
    reveal(with_data);
    let ghost v = sample_view(*sample);
    let ghost b = bytes@.subrange(start as int, end as int);
    if sample.is_16_bit {
        sample.data = decode_delta16(bytes, start, end);
        sample.loop_start = sample.loop_start / 2;
        sample.loop_len = sample.loop_len / 2;
        assert(sample_view(*sample) =~= SampleView {
            data: delta16(b, (b.len() / 2) as int),
            loop_start: v.loop_start / 2,
            loop_len: v.loop_len / 2,
            ..v
        });
    } else {
        sample.data = decode_delta8(bytes, start, end);
        assert(sample_view(*sample) =~= SampleView { data: delta8(b), ..v });
    }
    let ghost mid = sample_view(*sample);
    expand_ping_pong_loop(sample);
    assert(sample_view(*sample) =~= unrolled(mid));
}

} // verus!

verus! {

fn byte_after(bytes: &[u8], base: usize, delta: usize) -> (r: u8)
    requires
        base <= bytes@.len(),
    ensures
        r == byte_or_zero(bytes@, base + delta),
{
    if delta < bytes.len() - base { bytes[base + delta] } else { 0 }
}

proof fn lemma_samples_step(s: Seq<u8>, cursor: int, hs: Seq<SampleView>, j: int, done: Seq<SampleView>)
    requires
        0 <= j < hs.len(),
    ensures
        ({
            let end = cursor + hs[j].length;
            let here = xm_sample_data(s, cursor, hs.subrange(j, hs.len() as int));
            &&& end > s.len() ==> here == Err::<(Seq<SampleView>, int), ImportError>(
                ImportError::MalformedSampleData("truncated XM sample data"))
            &&& end <= s.len() && hs[j].is_16_bit && hs[j].length % 2 != 0 ==> here == Err::<(Seq<SampleView>, int), ImportError>(
                ImportError::MalformedSampleData("odd XM 16-bit sample byte length"))
            &&& end <= s.len() && !(hs[j].is_16_bit && hs[j].length % 2 != 0) ==> after_samples(done, here)
                == after_samples(done.push(with_data(hs[j], s.subrange(cursor, end))),
                    xm_sample_data(s, end, hs.subrange(j + 1, hs.len() as int)))
        }),
{
    let rest = hs.subrange(j, hs.len() as int);
    assert(rest[0] == hs[j]);
    assert(rest.drop_first() =~= hs.subrange(j + 1, hs.len() as int));
    let end = cursor + hs[j].length;
    if end <= s.len() && !(hs[j].is_16_bit && hs[j].length % 2 != 0) {
        if let Ok((t, e)) = xm_sample_data(s, end, hs.subrange(j + 1, hs.len() as int)) {
            assert(done + (seq![with_data(hs[j], s.subrange(cursor, end))] + t)
                =~= done.push(with_data(hs[j], s.subrange(cursor, end))) + t);
        }
    }
}

proof fn lemma_header_in_range(j: int, count: int, size: int)
    requires
        0 <= j < count,
        0 <= size,
    ensures
        0 <= j * size,
        j * size + size <= count * size,
{
    assert(0 <= j * size) by (nonlinear_arith) requires 0 <= j, 0 <= size;
    assert((j + 1) * size <= count * size) by (nonlinear_arith) requires j + 1 <= count, 0 <= size;
    assert((j + 1) * size == j * size + size) by (nonlinear_arith);
}

/// Reads the instrument at `off`: its header, note map and volume envelope,
/// its sample headers and its sample data. Returns it and where the next
/// instrument starts.
fn read_xm_instrument(bytes: &[u8], off: usize) -> (r: Result<(XmInstrument, usize), ImportError>)
    requires
        off <= bytes@.len(),
    ensures
        match xm_instrument(bytes@, off as int) {
            Ok((v, next)) => r matches Ok((x, n)) && instrument_view(x) == v && n == next,
            Err(e) => r == Err::<(XmInstrument, usize), ImportError>(e),
        },
{
    let ghost s = bytes@;
    let blen = bytes.len();
    if blen - off < 4 {
        return Err(ImportError::InvalidFormat("unexpected end of data"));
    }
    let h: usize = match le_u32(bytes, off) { Ok(v) => v as usize, Err(_) => 0 };
    if h < 29 || h > blen - off {
        return Err(ImportError::InvalidFormat("truncated XM instrument header"));
    }
    let header_end = off + h;
    let count: usize = match le_u16(bytes, off + 27) { Ok(v) => v as usize, Err(_) => 0 };
    let size: usize = if count > 0 {
        if blen - off < 33 {
            return Err(ImportError::InvalidFormat("unexpected end of data"));
        }
        match le_u32(bytes, off + 29) { Ok(v) => v as usize, Err(_) => 0 }
    } else {
        0
    };
    let envelope = if count > 0 && h >= 177 && h > 225 && byte_after(bytes, off, 233) % 2 == 1 {
        read_xm_envelope(bytes, off + 129, byte_after(bytes, off, 225))
    } else {
        None
    };
    assert(envelope_view(envelope) == xm_instrument_envelope(s, off as int, header_end as int, count as int));
    let mut keymap: Vec<u8> = Vec::new();
    let mut k: usize = 0;
    let from_file = count > 0 && h >= 129;
    while k < 96
        invariant
            s == bytes@,
            header_end == off + h,
            header_end <= s.len(),
            from_file == (count > 0 && h >= 129),
            k <= 96,
            keymap@ == xm_keymap(s, off as int, header_end as int, count as int).take(k as int),
        decreases 96 - k,
    {
        let v = if from_file { bytes[off + 33 + k] } else { 0 };
        keymap.push(v);
        assert(keymap@ =~= xm_keymap(s, off as int, header_end as int, count as int).take(k + 1));
        k = k + 1;
    }
    assert(keymap@ =~= xm_keymap(s, off as int, header_end as int, count as int));
    assert((count as u64) * (size as u64) <= 65535 * 0xffff_ffffu64) by (nonlinear_arith)
        requires count <= 65535, size <= 0xffff_ffff;
    if count > 0 && (size < 40 || (count as u64) * (size as u64) > (blen - header_end) as u64) {
        return Err(ImportError::InvalidFormat("truncated XM sample header"));
    }
    let ghost env = envelope_view(envelope);
    let ghost hs = Seq::new(count as nat, |j: int| xm_sample_header(s, header_end + j * size, env));
    let data_start = header_end + count * size;
    let mut cursor = data_start;
    let mut samples: Vec<TrackerSample> = Vec::new();
    let mut j: usize = 0;
    proof {
        assert(hs.subrange(0, count as int) =~= hs);
        assert(samples_view(samples@) + xm_sample_data(s, data_start as int, hs)->Ok_0.0
            =~= xm_sample_data(s, data_start as int, hs)->Ok_0.0);
    }
    while j < count
        invariant
            s == bytes@,
            blen == s.len(),
            header_end + count * size <= s.len(),
            count > 0 ==> size >= 40,
            env == envelope_view(envelope),
            hs == Seq::new(count as nat, |j: int| xm_sample_header(s, header_end + j * size, env)),
            j <= count,
            cursor <= s.len(),
            xm_sample_data(s, data_start as int, hs)
                == after_samples(samples_view(samples@), xm_sample_data(s, cursor as int, hs.subrange(j as int, count as int))),
            xm_instrument(s, off as int) == with_keymap(keymap@, xm_sample_data(s, data_start as int, hs)),
        decreases count - j,
    {
        proof {
            lemma_header_in_range(j as int, count as int, size as int);
            lemma_samples_step(s, cursor as int, hs, j as int, samples_view(samples@));
        }
        let mut sample = read_xm_sample_header(bytes, header_end + j * size, &envelope);
        assert(sample_view(sample) == hs[j as int]);
        if sample.length > blen - cursor {
            return Err(ImportError::MalformedSampleData("truncated XM sample data"));
        }
        let end = cursor + sample.length;
        if sample.is_16_bit && sample.length % 2 != 0 {
            return Err(ImportError::MalformedSampleData("odd XM 16-bit sample byte length"));
        }
        fill_sample(&mut sample, bytes, cursor, end);
        proof {
            assert(samples_view(samples@.push(sample)) =~= samples_view(samples@).push(sample_view(sample)));
        }
        samples.push(sample);
        cursor = end;
        j = j + 1;
    }
    proof {
        assert(hs.subrange(count as int, count as int) =~= Seq::<SampleView>::empty());
        assert(samples_view(samples@) + Seq::<SampleView>::empty() =~= samples_view(samples@));
    }
    Ok((XmInstrument { keymap, samples }, cursor))
}

} // verus!

verus! {

/// Patterns read so far, in front of what reading the rest gives.
pub open spec fn after_patterns(done: Seq<Seq<Seq<TrackerCell>>>, x: Result<(Seq<Seq<Seq<TrackerCell>>>, int), ImportError>)
    -> Result<(Seq<Seq<Seq<TrackerCell>>>, int), ImportError>
{
    match x {
        Err(e) => Err(e),
        Ok((rest, end)) => Ok((done + rest, end)),
    }
}

/// Instruments read so far, in front of what reading the rest gives.
pub open spec fn after_instruments(done: Seq<InstrumentView>, x: Result<Seq<InstrumentView>, ImportError>)
    -> Result<Seq<InstrumentView>, ImportError>
{
    match x {
        Err(e) => Err(e),
        Ok(rest) => Ok(done + rest),
    }
}

/// The patterns of a file, each a list of rows of cells.
pub open spec fn patterns_view(v: Seq<Vec<Vec<TrackerCell>>>) -> Seq<Seq<Seq<TrackerCell>>> {
    v.map_values(|p: Vec<Vec<TrackerCell>>| rows_view(p@))
}

/// The views of a list of instruments.
pub open spec fn instruments_view(v: Seq<XmInstrument>) -> Seq<InstrumentView> {
    v.map_values(|x: XmInstrument| instrument_view(x))
}

/// The contents of an XM file: its title, song length, channels, initial
/// speed and tempo, order table, patterns and instruments.
pub struct XmLayout {
    pub title: String,
    pub song_len: usize,
    pub channels: usize,
    pub speed: u32,
    pub bpm: u32,
    pub orders: Vec<u8>,
    pub patterns: Vec<Vec<Vec<TrackerCell>>>,
    pub instruments: Vec<XmInstrument>,
}

/// The view of an XM layout.
pub open spec fn xm_layout_view(l: XmLayout) -> XmView {
    XmView {
        title: l.title@,
        song_len: l.song_len as int,
        channels: l.channels as int,
        speed: l.speed as int,
        bpm: l.bpm as int,
        orders: l.orders@,
        patterns: patterns_view(l.patterns@),
        instruments: instruments_view(l.instruments@),
    }
}

pub(crate) fn xm_magic_matches(bytes: &[u8]) -> (r: bool)
    requires
        bytes@.len() >= 17,
    ensures
        r == (bytes@.subrange(0, 17) == xm_magic()),
{
    let magic: [u8; 17] = [0x45, 0x78, 0x74, 0x65, 0x6e, 0x64, 0x65, 0x64, 0x20, 0x4d, 0x6f, 0x64, 0x75, 0x6c, 0x65, 0x3a, 0x20];
    assert(magic@ =~= xm_magic());
    let mut i: usize = 0;
    while i < 17
        invariant
            bytes@.len() >= 17,
            magic@ == xm_magic(),
            i <= 17,
            bytes@.subrange(0, i as int) == magic@.take(i as int),
        decreases 17 - i,
    {
        if bytes[i] != magic[i] {
            assert(bytes@.subrange(0, 17)[i as int] != xm_magic()[i as int]);
            return false;
        }
        assert(bytes@.subrange(0, i + 1) =~= magic@.take(i + 1));
        i = i + 1;
    }
    assert(magic@.take(17) =~= magic@);
    true
}

fn le16_at(bytes: &[u8], off: usize) -> (r: u16)
    requires
        off + 2 <= bytes@.len(),
    ensures
        r == le16(bytes@, off as int),
{
    let blen = bytes.len();
    match le_u16(bytes, off) { Ok(v) => v, Err(_) => 0 }
}

/// Reads the header, patterns and instruments of an XM file.
pub fn read_xm_layout(bytes: &[u8]) -> (r: Result<XmLayout, ImportError>)
    ensures
        match xm_layout_spec(bytes@) {
            Ok(v) => r matches Ok(l) && xm_layout_view(l) == v,
            Err(e) => r == Err::<XmLayout, ImportError>(e),
        },
{
    let ghost s = bytes@;
    let blen = bytes.len();
    if blen < 80 || !xm_magic_matches(bytes) || bytes[37] != 0x1a {
        return Err(ImportError::InvalidFormat("missing XM header"));
    }
    let title = trim_c_string(&bytes[17..37]);
    let header_size: usize = match le_u32(bytes, 60) { Ok(v) => v as usize, Err(_) => 0 };
    if header_size < 20 || header_size > blen - 60 {
        return Err(ImportError::InvalidFormat("truncated XM song header"));
    }
    if blen < 336 {
        return Err(ImportError::InvalidFormat("truncated XM order table"));
    }
    let song_len: usize = { let v = le16_at(bytes, 64); if v == 0 { 1 } else { v as usize } };
    let channels: usize = { let v = le16_at(bytes, 68); if v == 0 { 1 } else { v as usize } };
    let pattern_count = le16_at(bytes, 70) as usize;
    let instrument_count = le16_at(bytes, 72) as usize;
    let speed: u32 = { let v = le16_at(bytes, 76); if v == 0 { 1 } else { v as u32 } };
    let bpm: u32 = { let v = le16_at(bytes, 78); if v == 0 { 1 } else { v as u32 } };
    let mut orders: Vec<u8> = Vec::new();
    let mut k: usize = 80;
    while k < 336
        invariant
            s == bytes@,
            s.len() >= 336,
            80 <= k <= 336,
            orders@ == s.subrange(80, k as int),
        decreases 336 - k,
    {
        orders.push(bytes[k]);
        assert(orders@ =~= s.subrange(80, k + 1));
        k = k + 1;
    }
    let ghost total_patterns = xm_patterns(s, 60 + header_size as int, pattern_count as nat, channels as nat);
    let mut offset: usize = 60 + header_size;
    let mut patterns: Vec<Vec<Vec<TrackerCell>>> = Vec::new();
    let mut i: usize = 0;
    proof {
        if let Ok((t, e)) = total_patterns {
            assert(patterns_view(patterns@) + t =~= t);
        }
    }
    while i < pattern_count
        invariant
            s == bytes@,
            blen == s.len(),
            offset <= s.len(),
            i <= pattern_count,
            total_patterns == xm_patterns(s, 60 + header_size as int, pattern_count as nat, channels as nat),
            xm_header_error(s) is None,
            header_size == le32(s, 60),
            channels == at_least_one(le16(s, 68)),
            pattern_count == le16(s, 70),
            total_patterns == after_patterns(patterns_view(patterns@),
                xm_patterns(s, offset as int, (pattern_count - i) as nat, channels as nat)),
        decreases pattern_count - i,
    {
        if blen - offset < 4 {
            return Err(ImportError::InvalidFormat("unexpected end of data"));
        }
        let h: usize = match le_u32(bytes, offset) { Ok(v) => v as usize, Err(_) => 0 };
        if h < 9 || h > blen - offset {
            return Err(ImportError::InvalidFormat("truncated XM pattern header"));
        }
        let rows: usize = { let v = le16_at(bytes, offset + 5); if v == 0 { 1 } else { v as usize } };
        let packed = le16_at(bytes, offset + 7) as usize;
        let start = offset + h;
        if packed > blen - start {
            return Err(ImportError::InvalidFormat("truncated XM pattern data"));
        }
        let end = start + packed;
        let pattern = match parse_xm_pattern(&bytes[start..end], rows, channels) {
            Ok(p) => p,
            Err(e) => {
                return Err(e);
            },
        };
        proof {
            let rest = xm_patterns(s, end as int, (pattern_count - i - 1) as nat, channels as nat);
            if let Ok((t, e)) = rest {
                assert(patterns_view(patterns@) + (seq![rows_view(pattern@)] + t)
                    =~= patterns_view(patterns@).push(rows_view(pattern@)) + t);
            }
            assert(patterns_view(patterns@.push(pattern)) =~= patterns_view(patterns@).push(rows_view(pattern@)));
        }
        patterns.push(pattern);
        offset = end;
        i = i + 1;
    }
    let ghost pattern_end = offset as int;
    proof {
        assert(patterns_view(patterns@) + Seq::<Seq<Seq<TrackerCell>>>::empty() =~= patterns_view(patterns@));
    }
    let ghost total_instruments = xm_instruments(s, pattern_end, instrument_count as nat);
    let mut instruments: Vec<XmInstrument> = Vec::new();
    let mut i: usize = 0;
    proof {
        if let Ok(t) = total_instruments {
            assert(instruments_view(instruments@) + t =~= t);
        }
    }
    while i < instrument_count
        invariant
            s == bytes@,
            offset <= s.len(),
            i <= instrument_count,
            total_instruments == xm_instruments(s, pattern_end, instrument_count as nat),
            xm_header_error(s) is None,
            header_size == le32(s, 60),
            channels == at_least_one(le16(s, 68)),
            pattern_count == le16(s, 70),
            instrument_count == le16(s, 72),
            xm_patterns(s, 60 + header_size as int, pattern_count as nat, channels as nat)
                == Ok::<(Seq<Seq<Seq<TrackerCell>>>, int), ImportError>((patterns_view(patterns@), pattern_end)),
            total_instruments == after_instruments(instruments_view(instruments@),
                xm_instruments(s, offset as int, (instrument_count - i) as nat)),
        decreases instrument_count - i,
    {
        let (instrument, next) = match read_xm_instrument(bytes, offset) {
            Ok(x) => x,
            Err(e) => {
                return Err(e);
            },
        };
        proof {
            let rest = xm_instruments(s, next as int, (instrument_count - i - 1) as nat);
            if let Ok(t) = rest {
                assert(instruments_view(instruments@) + (seq![instrument_view(instrument)] + t)
                    =~= instruments_view(instruments@).push(instrument_view(instrument)) + t);
            }
            assert(instruments_view(instruments@.push(instrument)) =~= instruments_view(instruments@).push(instrument_view(instrument)));
            lemma_instrument_end(s, offset as int);
        }
        instruments.push(instrument);
        offset = next;
        i = i + 1;
    }
    proof {
        assert(instruments_view(instruments@) + Seq::<InstrumentView>::empty() =~= instruments_view(instruments@));
    }
    let layout = XmLayout { title, song_len, channels, speed, bpm, orders, patterns, instruments };
    assert(xm_layout_view(layout) =~= xm_layout_spec(s)->Ok_0);
    Ok(layout)
}


proof fn lemma_sample_data_end(s: Seq<u8>, off: int, hs: Seq<SampleView>)
    requires
        off <= s.len(),
    ensures
        xm_sample_data(s, off, hs) matches Ok((_, e)) ==> e <= s.len(),
    decreases hs.len(),
{
    if hs.len() > 0 {
        let end = off + hs[0].length;
        if end <= s.len() {
            lemma_sample_data_end(s, end, hs.drop_first());
        }
    }
}

proof fn lemma_instrument_end(s: Seq<u8>, off: int)
    ensures
        xm_instrument(s, off) matches Ok((_, n)) ==> n <= s.len(),
{
    if off + 4 <= s.len() && !(le32(s, off) < 29 || off + le32(s, off) > s.len()) {
        let header_end = off + le32(s, off);
        let count = le16(s, off + 27) as int;
        let size = if count > 0 { le32(s, off + 29) as int } else { 0 };
        let envelope = xm_instrument_envelope(s, off, header_end, count);
        let headers = Seq::new(count as nat, |j: int| xm_sample_header(s, header_end + j * size, envelope));
        if !(count > 0 && (size < 40 || header_end + count * size > s.len())) {
            assert(header_end + count * size <= s.len()) by {
                if count == 0 {
                    assert(count * size == 0);
                }
            }
            lemma_sample_data_end(s, header_end + count * size, headers);
        }
    }
}


pub(crate) proof fn lemma_patterns_end(s: Seq<u8>, off: int, k: nat, channels: nat)
    requires
        off >= 0,
    ensures
        xm_patterns(s, off, k, channels) matches Ok((_, e)) ==> e >= off,
    decreases k,
{
    if k > 0 && off + 4 <= s.len() && !(le32(s, off) < 9 || off + le32(s, off) > s.len()) {
        let start = off + le32(s, off);
        let end = start + le16(s, off + 7);
        if end <= s.len() {
            lemma_patterns_end(s, end, (k - 1) as nat, channels);
        }
    }
}

} // verus!
