use vstd::prelude::*;

use crate::bytes::{be16, be_u16};
use crate::import::ImportError;
use crate::text::{c_string_text, trim_c_string};
use crate::tracker::{mod_cell, parse_mod_cell, TrackerCell, TrackerSample};

verus! {

/// An ASCII digit.
pub open spec fn is_digit(b: u8) -> bool {
    0x30 <= b <= 0x39
}

/// What the four signature bytes at 1080 say about a MOD file: its number of
/// samples, of channels, where the order table starts and how long the
/// signature is. Files without a known signature are the old 15-sample kind.
pub open spec fn mod_shape(s: Seq<u8>) -> (int, int, int, int) {
    if s.len() >= 1084 {
        let t = s.subrange(1080, 1084);
        if t == seq![0x4du8, 0x2e, 0x4b, 0x2e] || t == seq![0x4du8, 0x21, 0x4b, 0x21]
            || t == seq![0x34u8, 0x43, 0x48, 0x4e] || t == seq![0x46u8, 0x4c, 0x54, 0x34] {
            (31, 4, 950, 4)
        } else if is_digit(t[0]) && t[1] == 0x43 && t[2] == 0x48 && t[3] == 0x4e {
            (31, t[0] - 0x30, 950, 4)
        } else if is_digit(t[0]) && is_digit(t[1]) && t[2] == 0x43 && t[3] == 0x48 {
            let n = (t[0] - 0x30) * 10 + (t[1] - 0x30);
            (31, if n == 0 { 1 } else { n }, 950, 4)
        } else {
            (15, 4, 470, 0)
        }
    } else {
        (15, 4, 470, 0)
    }
}

/// Where the header of sample `i` starts.
pub open spec fn mod_sample_header(i: int) -> int {
    20 + 30 * i
}

/// The byte length of sample `i`: its stored length in words, doubled.
pub open spec fn mod_sample_length(s: Seq<u8>, i: int) -> int {
    be16(s, mod_sample_header(i) + 22) * 2
}

/// The number of song positions: the first order byte, from 1 to 128.
pub open spec fn mod_song_len(s: Seq<u8>) -> int {
    let n = s[mod_shape(s).2] as int;
    if n < 1 { 1 } else if n > 128 { 128 } else { n }
}

/// The highest pattern number among the first `k` song positions, plus one;
/// zero for none.
pub open spec fn max_order(orders: Seq<u8>, k: int) -> int
    decreases k,
{
    if k <= 0 {
        0
    } else {
        let rest = max_order(orders, k - 1);
        if orders[k - 1] as int + 1 > rest { orders[k - 1] as int + 1 } else { rest }
    }
}

/// The order table: 128 pattern numbers after the song length and the
/// restart byte.
pub open spec fn mod_orders(s: Seq<u8>) -> Seq<u8> {
    s.subrange(mod_shape(s).2 + 2, mod_shape(s).2 + 130)
}

/// The number of patterns stored: one more than the highest that the song
/// plays.
pub open spec fn mod_pattern_count(s: Seq<u8>) -> int {
    max_order(mod_orders(s), mod_song_len(s))
}

/// Where the patterns start: after the order table and the signature.
pub open spec fn mod_patterns_start(s: Seq<u8>) -> int {
    mod_shape(s).2 + 130 + mod_shape(s).3
}

/// The bytes of one pattern: 64 rows of four bytes per channel.
pub open spec fn mod_pattern_bytes(s: Seq<u8>) -> int {
    64 * mod_shape(s).1 * 4
}

/// Where the sample data of sample `i` starts: after the patterns and the
/// data of the samples before it.
pub open spec fn mod_data_start(s: Seq<u8>, i: int) -> int
    decreases i,
{
    if i <= 0 {
        mod_patterns_start(s) + mod_pattern_count(s) * mod_pattern_bytes(s)
    } else {
        mod_data_start(s, i - 1) + mod_sample_length(s, i - 1)
    }
}

/// The first sample whose data runs past the end of the file, if any.
pub open spec fn mod_short_sample(s: Seq<u8>, k: int) -> bool {
    exists|i: int| 0 <= i < k && #[trigger] mod_data_start(s, i + 1) > s.len()
}

/// Why a MOD file is refused, if it is.
pub open spec fn mod_error(s: Seq<u8>) -> Option<ImportError> {
    if s.len() < 600 {
        Some(ImportError::InvalidFormat("truncated MOD header"))
    } else if mod_shape(s).2 + 130 > s.len() {
        Some(ImportError::InvalidFormat("truncated MOD order table"))
    } else if mod_data_start(s, 0) > s.len() {
        Some(ImportError::InvalidFormat("truncated MOD pattern data"))
    } else if mod_short_sample(s, mod_shape(s).0) {
        Some(ImportError::MalformedSampleData("truncated MOD sample data"))
    } else {
        None
    }
}

/// Sample `i` of a MOD file as read: its name, its length, its finetune
/// nibble as a signed value, its volume up to 64, its loop (none when at
/// most two bytes long) and its 8-bit frames.
pub open spec fn mod_sample_ok(x: TrackerSample, s: Seq<u8>, i: int) -> bool {
    let c = mod_sample_header(i);
    let nibble = s[c + 24] % 16;
    let raw_loop = be16(s, c + 28) * 2;
    let start = mod_data_start(s, i);
    &&& x.name@ == c_string_text(s.subrange(c, c + 22))
    &&& x.length == mod_sample_length(s, i)
    &&& !x.is_16_bit
    &&& x.volume == (if s[c + 25] > 64 { 64 } else { s[c + 25] })
    &&& x.finetune == (if nibble >= 8 { nibble - 16 } else { nibble as int })
    &&& x.loop_start == be16(s, c + 26) * 2
    &&& x.loop_len == (if raw_loop > 2 { raw_loop } else { 0 })
    &&& !x.ping_pong_loop
    &&& x.data@ == s.subrange(start, start + x.length).map_values(|b: u8| (b as i8) as i16)
    &&& x.data@.len() == x.length
    &&& x.relative_note == 0
    &&& x.pan is None
    &&& x.envelope is None
}

/// A cell of a MOD pattern: the four bytes of the channel in the row.
pub open spec fn mod_pattern_cell(s: Seq<u8>, p: int, row: int, ch: int) -> TrackerCell {
    let off = mod_patterns_start(s) + p * mod_pattern_bytes(s) + (row * mod_shape(s).1 + ch) * 4;
    mod_cell(s.subrange(off, off + 4))
}

/// The contents of a MOD file: its title, channels, samples, song positions
/// and patterns of 64 rows, each row one cell per channel.
pub struct ModLayout {
    pub title: String,
    pub channels: usize,
    pub samples: Vec<TrackerSample>,
    pub song_len: usize,
    pub orders: Vec<u8>,
    pub patterns: Vec<Vec<Vec<TrackerCell>>>,
}

/// The layout read from a file that `mod_error` accepts.
pub open spec fn mod_layout_ok(l: ModLayout, s: Seq<u8>) -> bool {
    &&& l.title@ == c_string_text(s.subrange(0, 20))
    &&& l.channels == mod_shape(s).1
    &&& l.samples@.len() == mod_shape(s).0
    &&& forall|i: int| 0 <= i < l.samples@.len() ==> #[trigger] mod_sample_ok(l.samples@[i], s, i)
    &&& l.song_len == mod_song_len(s)
    &&& l.orders@ == mod_orders(s)
    &&& l.patterns@.len() == mod_pattern_count(s)
    &&& forall|p: int| 0 <= p < l.patterns@.len() ==> (#[trigger] l.patterns@[p])@.len() == 64
    &&& forall|p: int, row: int| 0 <= p < l.patterns@.len() && 0 <= row < 64
        ==> (#[trigger] l.patterns@[p]@[row])@.len() == l.channels
    &&& forall|p: int, row: int, ch: int| 0 <= p < l.patterns@.len() && 0 <= row < 64 && 0 <= ch < l.channels
        ==> #[trigger] l.patterns@[p]@[row]@[ch] == mod_pattern_cell(s, p, row, ch)
}

/// The signature at byte 1080 decides a MOD file's shape: `M.K.`, `M!K!`,
/// `4CHN` and `FLT4` are four-channel files of 31 samples; a digit and
/// `CHN` give that many channels; two digits and `CH` that many (at least
/// one; `0CHN` gives none); 31-sample files keep their order table at 950. Anything else,
/// and a file too short for a signature, is the old kind: 15 samples, four
/// channels, orders at 470, no signature.
pub proof fn law_mod_signatures(s: Seq<u8>)
    ensures
        mod_shape(s).1 >= 0,
        mod_shape(s).0 == 31 ==> mod_shape(s).2 == 950 && mod_shape(s).3 == 4,
        mod_shape(s).0 != 31 ==> mod_shape(s) == (15int, 4int, 470int, 0int),
        s.len() < 1084 ==> mod_shape(s).0 == 15,
        s.len() >= 1084 && s[1080] == 0x4d && s[1081] == 0x2e && s[1082] == 0x4b && s[1083] == 0x2e
            ==> mod_shape(s) == (31int, 4int, 950int, 4int),
        s.len() >= 1084 && is_digit(s[1080]) && s[1081] == 0x43 && s[1082] == 0x48 && s[1083] == 0x4e
            ==> mod_shape(s).0 == 31 && mod_shape(s).1 == s[1080] - 0x30,
        s.len() >= 1084 && is_digit(s[1080]) && is_digit(s[1081]) && s[1082] == 0x43 && s[1083] == 0x48
            && (s[1080] - 0x30) * 10 + (s[1081] - 0x30) > 0
            ==> mod_shape(s).0 == 31 && mod_shape(s).1 == (s[1080] - 0x30) * 10 + (s[1081] - 0x30),
{
    if s.len() >= 1084 {
        let t = s.subrange(1080, 1084);
        assert(t[0] == s[1080] && t[1] == s[1081] && t[2] == s[1082] && t[3] == s[1083]);
        if s[1080] == 0x4d && s[1081] == 0x2e && s[1082] == 0x4b && s[1083] == 0x2e {
            assert(t =~= seq![0x4du8, 0x2e, 0x4b, 0x2e]);
        }
        if is_digit(s[1080]) {
            assert(t != seq![0x4du8, 0x2e, 0x4b, 0x2e]);
            assert(t != seq![0x4du8, 0x21, 0x4b, 0x21]);
            assert(t != seq![0x46u8, 0x4c, 0x54, 0x34]);
            if s[1081] == 0x43 && s[1082] == 0x48 && s[1083] == 0x4e && s[1080] == 0x34 {
                assert(t =~= seq![0x34u8, 0x43, 0x48, 0x4e]);
            }
            if is_digit(s[1081]) {
                assert(t != seq![0x34u8, 0x43, 0x48, 0x4e]);
            }
        }
    }
}

} // verus!

verus! {

fn mod_shape_of(bytes: &[u8]) -> (r: (usize, usize, usize, usize))
    ensures
        (r.0 as int, r.1 as int, r.2 as int, r.3 as int) == mod_shape(bytes@),
{
    if bytes.len() < 1084 {
        return (15, 4, 470, 0);
    }
    let t0 = bytes[1080];
    let t1 = bytes[1081];
    let t2 = bytes[1082];
    let t3 = bytes[1083];
    let ghost t = bytes@.subrange(1080, 1084);
    assert(t[0] == t0 && t[1] == t1 && t[2] == t2 && t[3] == t3);
    let mk = t0 == 0x4d && t1 == 0x2e && t2 == 0x4b && t3 == 0x2e;
    let mk2 = t0 == 0x4d && t1 == 0x21 && t2 == 0x4b && t3 == 0x21;
    let chn4 = t0 == 0x34 && t1 == 0x43 && t2 == 0x48 && t3 == 0x4e;
    let flt4 = t0 == 0x46 && t1 == 0x4c && t2 == 0x54 && t3 == 0x34;
    proof {
        assert(mk <==> t == seq![0x4du8, 0x2e, 0x4b, 0x2e]) by {
            if mk { assert(t =~= seq![0x4du8, 0x2e, 0x4b, 0x2e]); }
        }
        assert(mk2 <==> t == seq![0x4du8, 0x21, 0x4b, 0x21]) by {
            if mk2 { assert(t =~= seq![0x4du8, 0x21, 0x4b, 0x21]); }
        }
        assert(chn4 <==> t == seq![0x34u8, 0x43, 0x48, 0x4e]) by {
            if chn4 { assert(t =~= seq![0x34u8, 0x43, 0x48, 0x4e]); }
        }
        assert(flt4 <==> t == seq![0x46u8, 0x4c, 0x54, 0x34]) by {
            if flt4 { assert(t =~= seq![0x46u8, 0x4c, 0x54, 0x34]); }
        }
    }
    if mk || mk2 || chn4 || flt4 {
        (31, 4, 950, 4)
    } else if 0x30 <= t0 && t0 <= 0x39 && t1 == 0x43 && t2 == 0x48 && t3 == 0x4e {
        (31, (t0 - 0x30) as usize, 950, 4)
    } else if 0x30 <= t0 && t0 <= 0x39 && 0x30 <= t1 && t1 <= 0x39 && t2 == 0x43 && t3 == 0x48 {
        let n: usize = (t0 - 0x30) as usize * 10 + (t1 - 0x30) as usize;
        (31, if n == 0 { 1 } else { n }, 950, 4)
    } else {
        (15, 4, 470, 0)
    }
}

proof fn lemma_max_order_bound(orders: Seq<u8>, k: int)
    ensures
        0 <= max_order(orders, k) <= 256,
    decreases k,
{
    if k > 0 {
        lemma_max_order_bound(orders, k - 1);
    }
}

/// Reads one MOD sample: its header at `20 + 30 * i` and its data at
/// `start`.
fn read_mod_sample(bytes: &[u8], i: usize, start: usize) -> (r: TrackerSample)
    requires
        i < 31,
        mod_sample_header(i as int) + 30 <= bytes@.len(),
        start == mod_data_start(bytes@, i as int),
        start + mod_sample_length(bytes@, i as int) <= bytes@.len(),
    ensures
        mod_sample_ok(r, bytes@, i as int),
{
    let c = 20 + 30 * i;
    let name = trim_c_string(&bytes[c..c + 22]);
    let words = be_u16(bytes, c + 22);
    let length: usize = match words {
        Ok(w) => w as usize * 2,
        Err(_) => 0,
    };
    let nibble = bytes[c + 24] % 16;
    let finetune: i8 = if nibble >= 8 { nibble as i8 - 16 } else { nibble as i8 };
    let volume = if bytes[c + 25] > 64 { 64 } else { bytes[c + 25] };
    let loop_start: usize = match be_u16(bytes, c + 26) {
        Ok(w) => w as usize * 2,
        Err(_) => 0,
    };
    let raw_loop: usize = match be_u16(bytes, c + 28) {
        Ok(w) => w as usize * 2,
        Err(_) => 0,
    };
    let ghost s = bytes@;
    assert(length == mod_sample_length(s, i as int));
    let n = bytes.len();
    let mut data: Vec<i16> = Vec::new();
    let mut k: usize = 0;
    while k < length
        invariant
            s == bytes@,
            n == s.len(),
            start + length <= s.len(),
            k <= length,
            data@ == s.subrange(start as int, start + k).map_values(|b: u8| (b as i8) as i16),
        decreases length - k,
    {
        let b = bytes[start + k];
        data.push(#[verifier::truncate] (b as i8) as i16);
        assert(s.subrange(start as int, start + k + 1).map_values(|b: u8| (b as i8) as i16)
            =~= s.subrange(start as int, start + k).map_values(|b: u8| (b as i8) as i16).push((b as i8) as i16));
        k = k + 1;
    }
    assert(bytes@.subrange(c as int, c + 22) =~= bytes@.subrange(c as int, c + 22));
    TrackerSample {
        name,
        length,
        is_16_bit: false,
        volume,
        finetune,
        loop_start,
        loop_len: if raw_loop > 2 { raw_loop } else { 0 },
        ping_pong_loop: false,
        data,
        relative_note: 0,
        pan: None,
        envelope: None,
    }
}


proof fn lemma_cell_in_pattern(p: int, row: int, ch: int, channels: int, count: int)
    requires
        0 <= p < count,
        0 <= row < 64,
        0 <= ch < channels,
    ensures
        0 <= p * (256 * channels) + (row * channels + ch) * 4,
        p * (256 * channels) + (row * channels + ch) * 4 + 4 <= count * (256 * channels),
        0 <= row * channels < 64 * channels,
        0 <= p * (256 * channels) <= count * (256 * channels),
{
    assert(row * channels + ch + 1 <= 64 * channels) by (nonlinear_arith)
        requires 0 <= row < 64, 0 <= ch < channels;
    assert(0 <= row * channels) by (nonlinear_arith) requires 0 <= row, 0 <= channels;
    assert(0 <= p * (256 * channels)) by (nonlinear_arith) requires 0 <= p, 0 <= channels;
    assert((p + 1) * (256 * channels) <= count * (256 * channels)) by (nonlinear_arith)
        requires p + 1 <= count, 0 <= channels;
    assert((p + 1) * (256 * channels) == p * (256 * channels) + 256 * channels) by (nonlinear_arith);
}

/// Reads every pattern of a MOD file: 64 rows of one cell per channel.
fn read_mod_patterns(bytes: &[u8], start: usize, count: usize, channels: usize) -> (r: Vec<Vec<Vec<TrackerCell>>>)
    requires
        start == mod_patterns_start(bytes@),
        channels == mod_shape(bytes@).1,
        channels <= 99,
        count <= 256,
        start + count * (256 * channels) <= bytes@.len(),
    ensures
        r@.len() == count,
        forall|p: int| 0 <= p < count ==> (#[trigger] r@[p])@.len() == 64,
        forall|p: int, row: int| 0 <= p < count && 0 <= row < 64 ==> (#[trigger] r@[p]@[row])@.len() == channels,
        forall|p: int, row: int, ch: int| 0 <= p < count && 0 <= row < 64 && 0 <= ch < channels
            ==> #[trigger] r@[p]@[row]@[ch] == mod_pattern_cell(bytes@, p, row, ch),
{
    let pattern_bytes: usize = 256 * channels;
    let n = bytes.len();
    let mut patterns: Vec<Vec<Vec<TrackerCell>>> = Vec::new();
    let mut p: usize = 0;
    while p < count
        invariant
            start == mod_patterns_start(bytes@),
            channels == mod_shape(bytes@).1,
            channels <= 99,
            count <= 256,
            pattern_bytes == 256 * channels,
            start + count * (256 * channels) <= bytes@.len(),
            n == bytes@.len(),
            p <= count,
            patterns@.len() == p,
            forall|q: int| 0 <= q < p ==> (#[trigger] patterns@[q])@.len() == 64,
            forall|q: int, row: int| 0 <= q < p && 0 <= row < 64 ==> (#[trigger] patterns@[q]@[row])@.len() == channels,
            forall|q: int, row: int, ch: int| 0 <= q < p && 0 <= row < 64 && 0 <= ch < channels
                ==> #[trigger] patterns@[q]@[row]@[ch] == mod_pattern_cell(bytes@, q, row, ch),
        decreases count - p,
    {
        let mut rows: Vec<Vec<TrackerCell>> = Vec::new();
        let mut row: usize = 0;
        while row < 64
            invariant
                start == mod_patterns_start(bytes@),
                channels == mod_shape(bytes@).1,
                channels <= 99,
                count <= 256,
                pattern_bytes == 256 * channels,
                start + count * (256 * channels) <= bytes@.len(),
                n == bytes@.len(),
                p < count,
                row <= 64,
                rows@.len() == row,
                forall|r: int| 0 <= r < row ==> (#[trigger] rows@[r])@.len() == channels,
                forall|r: int, ch: int| 0 <= r < row && 0 <= ch < channels
                    ==> #[trigger] rows@[r]@[ch] == mod_pattern_cell(bytes@, p as int, r, ch),
            decreases 64 - row,
        {
            let mut cells: Vec<TrackerCell> = Vec::new();
            let mut ch: usize = 0;
            while ch < channels
                invariant
                    start == mod_patterns_start(bytes@),
                    channels == mod_shape(bytes@).1,
                    channels <= 99,
                    count <= 256,
                    pattern_bytes == 256 * channels,
                    start + count * (256 * channels) <= bytes@.len(),
                    n == bytes@.len(),
                    p < count,
                    row < 64,
                    ch <= channels,
                    cells@.len() == ch,
                    forall|c: int| 0 <= c < ch ==> #[trigger] cells@[c] == mod_pattern_cell(bytes@, p as int, row as int, c),
                decreases channels - ch,
            {
                proof {
                    lemma_cell_in_pattern(p as int, row as int, ch as int, channels as int, count as int);
                    assert(bytes@.len() <= usize::MAX);
                }
                let off = start + p * pattern_bytes + (row * channels + ch) * 4;
                let cell = parse_mod_cell(&bytes[off..off + 4]);
                assert(bytes@.subrange(off as int, off + 4) =~= bytes@.subrange(off as int, off + 4));
                cells.push(cell);
                ch = ch + 1;
            }
            rows.push(cells);
            row = row + 1;
        }
        patterns.push(rows);
        p = p + 1;
    }
    patterns
}


fn mod_length_of(bytes: &[u8], i: usize) -> (r: usize)
    requires
        i < 31,
        mod_sample_header(i as int) + 30 <= bytes@.len(),
    ensures
        r == mod_sample_length(bytes@, i as int),
        r <= 131070,
{
    match be_u16(bytes, 20 + 30 * i + 22) {
        Ok(w) => w as usize * 2,
        Err(_) => 0,
    }
}

/// Reads the header, order table, patterns and samples of a MOD file.
pub fn read_mod_layout(bytes: &[u8]) -> (r: Result<ModLayout, ImportError>)
    ensures
        match mod_error(bytes@) {
            Some(e) => r == Err::<ModLayout, ImportError>(e),
            None => r matches Ok(l) && mod_layout_ok(l, bytes@),
        },
{
    if bytes.len() < 600 {
        return Err(ImportError::InvalidFormat("truncated MOD header"));
    }
    let ghost s = bytes@;
    let (sample_count, channels, order_offset, signature_len) = mod_shape_of(bytes);
    let title = trim_c_string(&bytes[0..20]);
    let song_byte = bytes[order_offset];
    let song_len: usize = if song_byte < 1 { 1 } else if song_byte > 128 { 128 } else { song_byte as usize };
    if order_offset + 130 > bytes.len() {
        return Err(ImportError::InvalidFormat("truncated MOD order table"));
    }
    let n = bytes.len();
    let mut orders: Vec<u8> = Vec::new();
    let mut k: usize = 0;
    while k < 128
        invariant
            s == bytes@,
            n == s.len(),
            order_offset + 130 <= s.len(),
            k <= 128,
            orders@ == s.subrange(order_offset + 2, order_offset + 2 + k),
        decreases 128 - k,
    {
        orders.push(bytes[order_offset + 2 + k]);
        assert(s.subrange(order_offset + 2, order_offset + 2 + k + 1)
            =~= s.subrange(order_offset + 2, order_offset + 2 + k).push(s[order_offset + 2 + k]));
        k = k + 1;
    }
    assert(orders@ == mod_orders(s));
    let mut pattern_count: usize = 0;
    let mut k: usize = 0;
    while k < song_len
        invariant
            orders@.len() == 128,
            song_len <= 128,
            k <= song_len,
            pattern_count == max_order(orders@, k as int),
            pattern_count <= 256,
        decreases song_len - k,
    {
        let next: usize = orders[k] as usize + 1;
        if next > pattern_count {
            pattern_count = next;
        }
        k = k + 1;
    }
    assert(pattern_count == mod_pattern_count(s));
    let pattern_bytes: usize = 256 * channels;
    let patterns_start = order_offset + 130 + signature_len;
    assert(pattern_count * pattern_bytes <= 256 * (256 * 99)) by (nonlinear_arith)
        requires pattern_count <= 256, pattern_bytes <= 256 * 99;
    let samples_start = patterns_start + pattern_count * pattern_bytes;
    assert(samples_start == mod_data_start(s, 0));
    if samples_start > bytes.len() {
        return Err(ImportError::InvalidFormat("truncated MOD pattern data"));
    }
    let mut samples: Vec<TrackerSample> = Vec::new();
    let mut cursor = samples_start;
    let mut i: usize = 0;
    while i < sample_count
        invariant
            s == bytes@,
            s.len() >= 600,
            (sample_count as int, channels as int, order_offset as int, signature_len as int) == mod_shape(s),
            i <= sample_count,
            cursor == mod_data_start(s, i as int),
            cursor <= s.len(),
            order_offset + 130 <= s.len(),
            mod_data_start(s, 0) <= s.len(),
            !mod_short_sample(s, i as int),
            samples@.len() == i,
            forall|j: int| 0 <= j < i ==> #[trigger] mod_sample_ok(samples@[j], s, j),
        decreases sample_count - i,
    {
        let length = mod_length_of(bytes, i);
        if length > bytes.len() - cursor {
            assert(mod_data_start(s, i + 1) > s.len());
            assert(mod_short_sample(s, sample_count as int));
            return Err(ImportError::MalformedSampleData("truncated MOD sample data"));
        }
        let sample = read_mod_sample(bytes, i, cursor);
        samples.push(sample);
        cursor = cursor + length;
        assert(!mod_short_sample(s, i + 1)) by {
            assert forall|j: int| 0 <= j < i + 1 implies !(#[trigger] mod_data_start(s, j + 1) > s.len()) by {
                if j < i {
                    assert(!(mod_data_start(s, j + 1) > s.len()));
                }
            }
        }
        i = i + 1;
    }
    let patterns = read_mod_patterns(bytes, patterns_start, pattern_count, channels);
    Ok(ModLayout { title, channels, samples, song_len, orders, patterns })
}

} // verus!
