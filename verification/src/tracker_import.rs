use vstd::prelude::*;

use crate::bytes::le16;
use crate::import::{ImportError, ImportedFormat};
use crate::mod_file::{
    mod_error, mod_layout_ok, mod_orders, mod_pattern_cell, mod_pattern_count, mod_sample_header, mod_sample_length,
    mod_shape, mod_song_len, read_mod_layout, ModLayout,
};
use crate::tracker::TrackerTiming;
use crate::tracker_play::{
    keymaps_full, lemma_mod_play_ok, play_tracker, rows_fit, song_matches, tracker_song, InstrumentInfo,
    InstrumentInfoView, SampleInfo, SongShape, TrackerSong,
};
use crate::xm_file::{
    at_least_one, patterns_view, read_xm_layout, xm_header_error, xm_layout_spec, xm_layout_view,
    InstrumentView, XmLayout, XmView,
};

verus! {

/// The song a MOD file plays: its patterns of 64 rows, its order table and
/// song length; a break jumps to row 63 at most.
pub open spec fn mod_song_shape(s: Seq<u8>) -> SongShape {
    SongShape {
        patterns: Seq::new(mod_pattern_count(s) as nat, |p: int| Seq::new(64, |r: int|
            Seq::new(mod_shape(s).1 as nat, |c: int| mod_pattern_cell(s, p, r, c)))),
        orders: mod_orders(s),
        song_len: mod_song_len(s),
        row_cap: 63,
    }
}

/// What playing needs of the samples of a MOD file: each is an instrument of
/// one 8-bit sample.
pub open spec fn mod_infos(s: Seq<u8>) -> Seq<InstrumentInfoView> {
    Seq::new(mod_shape(s).0 as nat, |i: int| InstrumentInfoView {
        keymap: Seq::new(96, |k: int| 0u8),
        samples: seq![SampleInfo {
            volume: if s[mod_sample_header(i) + 25] > 64 { 64 } else { s[mod_sample_header(i) + 25] },
            is_16_bit: false,
            frames: mod_sample_length(s, i) as usize,
        }],
    })
}

/// The speed and tempo every MOD song starts at.
pub open spec fn mod_start_timing() -> TrackerTiming {
    TrackerTiming { speed: 6, bpm: 125 }
}

/// A MOD file imported: its layout and the song it plays.
pub struct ModSong {
    pub layout: ModLayout,
    pub song: TrackerSong,
}

/// Importer of ProTracker MOD files.
pub struct ModImport;

impl ModImport {
    /// Reads a MOD file and plays its song.
    pub fn from_bytes(bytes: &[u8]) -> (r: Result<ModSong, ImportError>)
        ensures
            match mod_error(bytes@) {
                Some(e) => r == Err::<ModSong, ImportError>(e),
                None => r matches Ok(m) && mod_layout_ok(m.layout, bytes@) && song_matches(m.song,
                    tracker_song(ImportedFormat::Mod, mod_song_shape(bytes@), mod_shape(bytes@).1, mod_start_timing(),
                        mod_infos(bytes@))->Ok_0),
            },
    {
        let layout = read_mod_layout(bytes)?;
        let ghost s = bytes@;
        let mut infos: Vec<InstrumentInfo> = Vec::new();
        let mut i: usize = 0;
        while i < layout.samples.len()
            invariant
                mod_layout_ok(layout, s),
                i <= layout.samples@.len(),
                infos@.len() == i,
                forall|j: int| 0 <= j < i ==> (#[trigger] infos@[j])@ == mod_infos(s)[j],
                keymaps_full(infos@),
            decreases layout.samples@.len() - i,
        {
            let sample = &layout.samples[i];
            assert(crate::mod_file::mod_sample_ok(layout.samples@[i as int], s, i as int));
            let mut keymap: Vec<u8> = Vec::new();
            let mut k: usize = 0;
            while k < 96
                invariant
                    k <= 96,
                    keymap@ == Seq::new(k as nat, |x: int| 0u8),
                decreases 96 - k,
            {
                keymap.push(0);
                k = k + 1;
            }
            let mut samples: Vec<SampleInfo> = Vec::new();
            samples.push(SampleInfo { volume: sample.volume, is_16_bit: false, frames: sample.data.len() });
            let info = InstrumentInfo { keymap, samples };
            assert(info@.samples =~= mod_infos(s)[i as int].samples);
            assert(info@.keymap =~= mod_infos(s)[i as int].keymap);
            infos.push(info);
            i = i + 1;
        }
        proof {
            assert(crate::tracker_play::infos_view(infos@) =~= mod_infos(s));
            assert(patterns_view(layout.patterns@) =~= mod_song_shape(s).patterns) by {
                assert forall|p: int| 0 <= p < layout.patterns@.len()
                    implies #[trigger] patterns_view(layout.patterns@)[p] =~= mod_song_shape(s).patterns[p] by {
                    assert forall|r: int| 0 <= r < 64
                        implies #[trigger] patterns_view(layout.patterns@)[p][r] =~= mod_song_shape(s).patterns[p][r] by {
                        assert(layout.patterns@[p]@[r]@.len() == layout.channels);
                    }
                }
            }
            assert(rows_fit(patterns_view(layout.patterns@), layout.channels as int)) by {
                assert forall|p: int, r: int| 0 <= p < patterns_view(layout.patterns@).len()
                    && 0 <= r < patterns_view(layout.patterns@)[p].len()
                    implies #[trigger] patterns_view(layout.patterns@)[p][r].len() <= layout.channels by {
                    assert(layout.patterns@[p]@[r]@.len() == layout.channels);
                }
            }
            lemma_mod_play_ok(mod_song_shape(s), mod_shape(s).1, mod_start_timing(), mod_infos(s));
        }
        let song = match play_tracker(ImportedFormat::Mod, &layout.patterns, &layout.orders, layout.song_len, 63,
            layout.channels, TrackerTiming { speed: 6, bpm: 125 }, &infos) {
            Ok(song) => song,
            Err(e) => {
                return Err(e);
            },
        };
        Ok(ModSong { layout, song })
    }
}

} // verus!

verus! {

proof fn lemma_cells_len(s: Seq<u8>, off: int, k: nat)
    ensures
        crate::xm_file::xm_cells(s, off, k) matches Some((c, _)) ==> c.len() == k,
    decreases k,
{
    if k > 0 {
        if let Some((c, next)) = crate::xm_file::xm_cell_read(s, off) {
            lemma_cells_len(s, next, (k - 1) as nat);
        }
    }
}

proof fn lemma_rows_len(s: Seq<u8>, off: int, rows: nat, channels: nat)
    ensures
        crate::xm_file::xm_rows(s, off, rows, channels) matches Some((r, _)) ==>
            forall|i: int| 0 <= i < r.len() ==> #[trigger] r[i].len() == channels,
    decreases rows,
{
    if rows > 0 {
        lemma_cells_len(s, off, channels);
        if let Some((row, next)) = crate::xm_file::xm_cells(s, off, channels) {
            lemma_rows_len(s, next, (rows - 1) as nat, channels);
            if let Some((rest, end)) = crate::xm_file::xm_rows(s, next, (rows - 1) as nat, channels) {
                assert forall|i: int| 0 <= i < (seq![row] + rest).len() implies #[trigger] (seq![row] + rest)[i].len() == channels by {
                    if i > 0 {
                        assert((seq![row] + rest)[i] == rest[i - 1]);
                    }
                }
            }
        }
    }
}

proof fn lemma_patterns_fit(s: Seq<u8>, off: int, k: nat, channels: nat)
    ensures
        crate::xm_file::xm_patterns(s, off, k, channels) matches Ok((ps, _)) ==> rows_fit(ps, channels as int),
    decreases k,
{
    if k > 0 && off + 4 <= s.len() && !(crate::bytes::le32(s, off) < 9 || off + crate::bytes::le32(s, off) > s.len()) {
        let rows = at_least_one(le16(s, off + 5));
        let start = off + crate::bytes::le32(s, off);
        let end = start + le16(s, off + 7);
        if end <= s.len() {
            lemma_rows_len(s.subrange(start, end), 0, rows as nat, channels);
            lemma_patterns_fit(s, end, (k - 1) as nat, channels);
            if let Some((pattern, _)) = crate::xm_file::xm_rows(s.subrange(start, end), 0, rows as nat, channels) {
                if let Ok((rest, next)) = crate::xm_file::xm_patterns(s, end, (k - 1) as nat, channels) {
                    let ps = seq![pattern] + rest;
                    assert forall|p: int, r: int| 0 <= p < ps.len() && 0 <= r < ps[p].len()
                        implies #[trigger] ps[p][r].len() <= channels by {
                        if p == 0 {
                            assert(ps[0] == pattern);
                            assert(pattern[r].len() == channels);
                        } else {
                            assert(ps[p] == rest[p - 1]);
                            assert(rest[p - 1][r].len() <= channels);
                        }
                    }
                }
            }
        }
    }
}

proof fn lemma_sample_data_grows(s: Seq<u8>, off: int, hs: Seq<crate::xm_file::SampleView>)
    requires
        forall|j: int| 0 <= j < hs.len() ==> (#[trigger] hs[j]).length >= 0,
    ensures
        crate::xm_file::xm_sample_data(s, off, hs) matches Ok((_, e)) ==> e >= off,
    decreases hs.len(),
{
    if hs.len() > 0 {
        let rest = hs.drop_first();
        assert forall|j: int| 0 <= j < rest.len() implies (#[trigger] rest[j]).length >= 0 by {
            assert(rest[j] == hs[j + 1]);
        }
        lemma_sample_data_grows(s, off + hs[0].length, rest);
        assert(hs[0].length >= 0);
    }
}

proof fn lemma_instrument_keymap(s: Seq<u8>, off: int)
    requires
        0 <= off,
    ensures
        crate::xm_file::xm_instrument(s, off) matches Ok((ins, next)) ==> ins.keymap.len() == 96 && next >= off,
{
    reveal(crate::xm_file::xm_sample_header);
    if off + 4 <= s.len() && !(crate::bytes::le32(s, off) < 29 || off + crate::bytes::le32(s, off) > s.len()) {
        let header_end = off + crate::bytes::le32(s, off);
        let count = le16(s, off + 27) as int;
        let size = if count > 0 { crate::bytes::le32(s, off + 29) as int } else { 0 };
        let envelope = crate::xm_file::xm_instrument_envelope(s, off, header_end, count);
        let headers = Seq::new(count as nat, |j: int| crate::xm_file::xm_sample_header(s, header_end + j * size, envelope));
        lemma_sample_data_grows(s, header_end + count * size, headers);
        assert(count * size >= 0) by (nonlinear_arith) requires count >= 0, size >= 0;
    }
}

proof fn lemma_instruments_keymaps(s: Seq<u8>, off: int, k: nat)
    requires
        0 <= off,
    ensures
        crate::xm_file::xm_instruments(s, off, k) matches Ok(is) ==>
            forall|i: int| 0 <= i < is.len() ==> (#[trigger] is[i]).keymap.len() == 96,
    decreases k,
{
    if k > 0 {
        lemma_instrument_keymap(s, off);
        if let Ok((ins, next)) = crate::xm_file::xm_instrument(s, off) {
            lemma_instruments_keymaps(s, next, (k - 1) as nat);
            if let Ok(rest) = crate::xm_file::xm_instruments(s, next, (k - 1) as nat) {
                assert forall|i: int| 0 <= i < (seq![ins] + rest).len() implies #[trigger] (seq![ins] + rest)[i].keymap.len() == 96 by {
                    if i > 0 {
                        assert((seq![ins] + rest)[i] == rest[i - 1]);
                    }
                }
            }
        }
    }
}

/// The song an XM file plays: its patterns, its order table and song
/// length; a break jumps to row 255 at most.
pub open spec fn xm_song_shape(v: XmView) -> SongShape {
    SongShape { patterns: v.patterns, orders: v.orders, song_len: v.song_len, row_cap: 255 }
}

/// What playing needs of an XM instrument.
pub open spec fn xm_info(i: InstrumentView) -> InstrumentInfoView {
    InstrumentInfoView {
        keymap: i.keymap,
        samples: i.samples.map_values(|x: crate::xm_file::SampleView| SampleInfo {
            volume: x.volume,
            is_16_bit: x.is_16_bit,
            frames: x.data.len() as usize,
        }),
    }
}

/// What playing needs of the instruments of an XM file.
pub open spec fn xm_infos(v: XmView) -> Seq<InstrumentInfoView> {
    v.instruments.map_values(|i: InstrumentView| xm_info(i))
}

/// The speed and tempo an XM song starts at.
pub open spec fn xm_start_timing(v: XmView) -> TrackerTiming {
    TrackerTiming { speed: v.speed as u32, bpm: v.bpm as u32 }
}

/// An XM file imported: its layout and the song it plays.
pub struct XmSong {
    pub layout: XmLayout,
    pub song: TrackerSong,
}

/// Importer of FastTracker 2 XM files.
pub struct XmImport;

impl XmImport {
    /// Reads an XM file and plays its song.
    pub fn from_bytes(bytes: &[u8]) -> (r: Result<XmSong, ImportError>)
        ensures
            match xm_layout_spec(bytes@) {
                Err(e) => r == Err::<XmSong, ImportError>(e),
                Ok(v) => match tracker_song(ImportedFormat::Xm, xm_song_shape(v), v.channels, xm_start_timing(v), xm_infos(v)) {
                    Ok(p) => r matches Ok(x) && xm_layout_view(x.layout) == v && song_matches(x.song, p),
                    Err(e) => r == Err::<XmSong, ImportError>(e),
                },
            },
    {
        let layout = read_xm_layout(bytes)?;
        let ghost s = bytes@;
        let ghost v = xm_layout_view(layout);
        proof {
            let header = 60 + crate::bytes::le32(s, 60);
            let channels = at_least_one(le16(s, 68));
            lemma_patterns_fit(s, header, le16(s, 70) as nat, channels as nat);
            let off = crate::xm_file::xm_patterns(s, header, le16(s, 70) as nat, channels as nat)->Ok_0.1;
            crate::xm_file::lemma_patterns_end(s, header, le16(s, 70) as nat, channels as nat);
            lemma_instruments_keymaps(s, off, le16(s, 72) as nat);
        }
        let mut infos: Vec<InstrumentInfo> = Vec::new();
        let mut i: usize = 0;
        while i < layout.instruments.len()
            invariant
                v == xm_layout_view(layout),
                forall|j: int| 0 <= j < v.instruments.len() ==> (#[trigger] v.instruments[j]).keymap.len() == 96,
                i <= layout.instruments@.len(),
                infos@.len() == i,
                forall|j: int| 0 <= j < i ==> (#[trigger] infos@[j])@ == xm_info(v.instruments[j]),
                keymaps_full(infos@),
            decreases layout.instruments@.len() - i,
        {
            let ins = &layout.instruments[i];
            assert(v.instruments[i as int] == crate::xm_file::instrument_view(*ins));
            let mut keymap: Vec<u8> = Vec::new();
            let mut k: usize = 0;
            while k < ins.keymap.len()
                invariant
                    k <= ins.keymap@.len(),
                    keymap@ == ins.keymap@.take(k as int),
                decreases ins.keymap@.len() - k,
            {
                keymap.push(ins.keymap[k]);
                assert(ins.keymap@.take(k + 1) =~= ins.keymap@.take(k as int).push(ins.keymap@[k as int]));
                k = k + 1;
            }
            assert(ins.keymap@.take(ins.keymap@.len() as int) =~= ins.keymap@);
            let mut samples: Vec<SampleInfo> = Vec::new();
            let mut k: usize = 0;
            while k < ins.samples.len()
                invariant
                    k <= ins.samples@.len(),
                    samples@.len() == k,
                    forall|j: int| 0 <= j < k ==> #[trigger] samples@[j] == (SampleInfo {
                        volume: ins.samples@[j].volume,
                        is_16_bit: ins.samples@[j].is_16_bit,
                        frames: ins.samples@[j].data@.len() as usize,
                    }),
                decreases ins.samples@.len() - k,
            {
                let x = &ins.samples[k];
                samples.push(SampleInfo { volume: x.volume, is_16_bit: x.is_16_bit, frames: x.data.len() });
                k = k + 1;
            }
            let info = InstrumentInfo { keymap, samples };
            assert(info@.samples =~= xm_info(v.instruments[i as int]).samples);
            infos.push(info);
            i = i + 1;
        }
        proof {
            assert(crate::tracker_play::infos_view(infos@) =~= xm_infos(v));
        }
        let timing = TrackerTiming { speed: layout.speed, bpm: layout.bpm };
        let song = match play_tracker(ImportedFormat::Xm, &layout.patterns, &layout.orders, layout.song_len, 255,
            layout.channels, timing, &infos) {
            Ok(song) => song,
            Err(e) => {
                return Err(e);
            },
        };
        Ok(XmSong { layout, song })
    }
}

} // verus!

