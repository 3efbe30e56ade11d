use vstd::prelude::*;

use crate::import::ImportError;

verus! {

/// The error every reader gives when the data ends too early.
pub open spec fn end_of_data() -> ImportError {
    ImportError::InvalidFormat("unexpected end of data")
}

/// Reads one byte at `*offset` and moves the offset past it.
pub fn read_u8(bytes: &[u8], offset: &mut usize) -> (r: Result<u8, ImportError>)
    ensures
        *old(offset) < bytes@.len() ==> r == Ok::<u8, ImportError>(bytes@[*old(offset) as int])
            && *final(offset) == *old(offset) + 1,
        *old(offset) >= bytes@.len() ==> r == Err::<u8, ImportError>(end_of_data())
            && *final(offset) == *old(offset),
{
    if *offset < bytes.len() {
        let value = bytes[*offset];
        *offset = *offset + 1;
        Ok(value)
    } else {
        Err(ImportError::InvalidFormat("unexpected end of data"))
    }
}

} // verus!

verus! {

/// The outcome of reading a MIDI variable-length quantity of at most
/// `remaining` more bytes from `off`, having accumulated `acc` so far: the
/// value or the error, and the offset where reading stopped.  Each byte adds
/// its low seven bits; a byte with the high bit clear ends the quantity.
pub open spec fn var_len_spec(s: Seq<u8>, off: int, remaining: nat, acc: int) -> (Result<u64, ImportError>, int)
    decreases remaining,
{
    if remaining == 0 {
        (Err(ImportError::MalformedTiming("invalid variable length value")), off)
    } else if off < 0 || off >= s.len() {
        (Err(end_of_data()), off)
    } else {
        let b = s[off];
        let next = acc * 128 + (b % 128) as int;
        if b < 128 {
            (Ok(next as u64), off + 1)
        } else {
            var_len_spec(s, off + 1, (remaining - 1) as nat, next)
        }
    }
}

/// A variable-length quantity that reads successfully is below 2^28, and
/// reading stops at or after where it started.
pub proof fn lemma_var_len_bound(s: Seq<u8>, off: int)
    ensures
        var_len_spec(s, off, 4, 0).0 matches Ok(v) ==> v < 0x1000_0000,
        0 <= off ==> off <= var_len_spec(s, off, 4, 0).1 <= s.len() || var_len_spec(s, off, 4, 0).0 is Err,
{
    lemma_var_len_acc_bound(s, off, 4, 0);
    lemma_var_len_end(s, off, 4, 0);
}

proof fn lemma_var_len_end(s: Seq<u8>, off: int, remaining: nat, acc: int)
    ensures
        0 <= off ==> off <= var_len_spec(s, off, remaining, acc).1,
        0 <= off && var_len_spec(s, off, remaining, acc).0 is Ok ==> var_len_spec(s, off, remaining, acc).1 <= s.len(),
    decreases remaining,
{
    if remaining > 0 && 0 <= off < s.len() && s[off] >= 128 {
        lemma_var_len_end(s, off + 1, (remaining - 1) as nat, acc * 128 + (s[off] % 128) as int);
    }
}

proof fn lemma_var_len_acc_bound(s: Seq<u8>, off: int, remaining: nat, acc: int)
    requires
        0 <= acc,
        acc < pow128(4 - remaining),
        remaining <= 4,
    ensures
        var_len_spec(s, off, remaining, acc).0 matches Ok(v) ==> v < 0x1000_0000,
    decreases remaining,
{
    if remaining > 0 && 0 <= off < s.len() {
        let b = s[off];
        let next = acc * 128 + (b % 128) as int;
        assert(next < pow128(4 - remaining) * 128);
        if b >= 128 {
            lemma_var_len_acc_bound(s, off + 1, (remaining - 1) as nat, next);
        }
    }
}

/// 128 raised to `n`, for `n` at most four.
pub open spec fn pow128(n: int) -> int {
    if n <= 0 { 1 } else if n == 1 { 128 } else if n == 2 { 16384 } else if n == 3 { 2097152 } else { 268435456 }
}

/// Reads a MIDI variable-length quantity of at most four bytes.
pub fn read_var_len(bytes: &[u8], offset: &mut usize) -> (r: Result<u64, ImportError>)
    ensures
        ({
            let (res, end) = var_len_spec(bytes@, *old(offset) as int, 4, 0);
            r == res && *final(offset) == end
        }),
{
    let ghost start = *offset as int;
    let mut value: u64 = 0;
    let mut i: usize = 0;
    while i < 4
        invariant
            i <= 4,
            start == *old(offset) as int,
            value < pow128(i as int),
            var_len_spec(bytes@, start, 4, 0) == var_len_spec(bytes@, *offset as int, (4 - i) as nat, value as int),
        decreases 4 - i,
    {
        let ghost o = *offset as int;
        let byte = match read_u8(bytes, offset) {
            Ok(b) => b,
            Err(e) => {
                assert(var_len_spec(bytes@, o, (4 - i) as nat, value as int) == (Err::<u64, ImportError>(end_of_data()), o));
                return Err(e);
            },
        };
        assert(byte == bytes@[o]);
        let low: u64 = (byte & 0x7f) as u64;
        assert(low == (byte % 128) as u64) by (bit_vector)
            requires low == (byte & 0x7f) as u64;
        assert(value * 128 + low < pow128(i as int + 1));
        let ghost v0 = value;
        assert((v0 << 7) | low == v0 * 128 + low) by (bit_vector)
            requires v0 < 0x1000_0000, low < 128;
        value = (value << 7) | low;
        if byte & 0x80 == 0 {
            assert(byte < 128) by (bit_vector) requires byte & 0x80 == 0;
            assert(var_len_spec(bytes@, o, (4 - i) as nat, v0 as int) == (Ok::<u64, ImportError>(value), o + 1));
            return Ok(value);
        }
        assert(byte >= 128) by (bit_vector) requires byte & 0x80 != 0;
        i = i + 1;
    }
    Err(ImportError::MalformedTiming("invalid variable length value"))
}

/// A big-endian 16-bit value from two bytes.
pub open spec fn be16(s: Seq<u8>, off: int) -> u16 {
    (s[off] as int * 256 + s[off + 1] as int) as u16
}

/// A big-endian 32-bit value from four bytes.
pub open spec fn be32(s: Seq<u8>, off: int) -> u32 {
    (s[off] as int * 16777216 + s[off + 1] as int * 65536 + s[off + 2] as int * 256 + s[off + 3] as int) as u32
}

/// A little-endian 16-bit value from two bytes.
pub open spec fn le16(s: Seq<u8>, off: int) -> u16 {
    (s[off] as int + s[off + 1] as int * 256) as u16
}

/// A little-endian 32-bit value from four bytes.
pub open spec fn le32(s: Seq<u8>, off: int) -> u32 {
    (s[off] as int + s[off + 1] as int * 256 + s[off + 2] as int * 65536 + s[off + 3] as int * 16777216) as u32
}

/// Reads a big-endian `u16` at `offset`.
pub fn be_u16(bytes: &[u8], offset: usize) -> (r: Result<u16, ImportError>)
    requires
        offset <= usize::MAX - 2,
    ensures
        offset + 2 <= bytes@.len() ==> r == Ok::<u16, ImportError>(be16(bytes@, offset as int)),
        offset + 2 > bytes@.len() ==> r == Err::<u16, ImportError>(end_of_data()),
{
    if offset + 2 > bytes.len() {
        return Err(ImportError::InvalidFormat("unexpected end of data"));
    }
    let b0 = bytes[offset] as u16;
    let b1 = bytes[offset + 1] as u16;
    Ok(b0 * 256 + b1)
}

/// Reads a big-endian `u32` at `offset`.
pub fn be_u32(bytes: &[u8], offset: usize) -> (r: Result<u32, ImportError>)
    requires
        offset <= usize::MAX - 4,
    ensures
        offset + 4 <= bytes@.len() ==> r == Ok::<u32, ImportError>(be32(bytes@, offset as int)),
        offset + 4 > bytes@.len() ==> r == Err::<u32, ImportError>(end_of_data()),
{
    if offset + 4 > bytes.len() {
        return Err(ImportError::InvalidFormat("unexpected end of data"));
    }
    let b0 = bytes[offset] as u32;
    let b1 = bytes[offset + 1] as u32;
    let b2 = bytes[offset + 2] as u32;
    let b3 = bytes[offset + 3] as u32;
    Ok(b0 * 16777216 + b1 * 65536 + b2 * 256 + b3)
}

/// Reads a little-endian `u16` at `offset`.
pub fn le_u16(bytes: &[u8], offset: usize) -> (r: Result<u16, ImportError>)
    requires
        offset <= usize::MAX - 2,
    ensures
        offset + 2 <= bytes@.len() ==> r == Ok::<u16, ImportError>(le16(bytes@, offset as int)),
        offset + 2 > bytes@.len() ==> r == Err::<u16, ImportError>(end_of_data()),
{
    if offset + 2 > bytes.len() {
        return Err(ImportError::InvalidFormat("unexpected end of data"));
    }
    let b0 = bytes[offset] as u16;
    let b1 = bytes[offset + 1] as u16;
    Ok(b0 + b1 * 256)
}

/// Reads a little-endian `u32` at `offset`.
pub fn le_u32(bytes: &[u8], offset: usize) -> (r: Result<u32, ImportError>)
    requires
        offset <= usize::MAX - 4,
    ensures
        offset + 4 <= bytes@.len() ==> r == Ok::<u32, ImportError>(le32(bytes@, offset as int)),
        offset + 4 > bytes@.len() ==> r == Err::<u32, ImportError>(end_of_data()),
{
    if offset + 4 > bytes.len() {
        return Err(ImportError::InvalidFormat("unexpected end of data"));
    }
    let b0 = bytes[offset] as u32;
    let b1 = bytes[offset + 1] as u32;
    let b2 = bytes[offset + 2] as u32;
    let b3 = bytes[offset + 3] as u32;
    Ok(b0 + b1 * 256 + b2 * 65536 + b3 * 16777216)
}

/// The multi-byte readers give each byte its place: in a big-endian value
/// the first byte is the most significant, in a little-endian value the
/// least.
pub proof fn law_byte_order(s: Seq<u8>, off: int)
    requires
        0 <= off,
        off + 4 <= s.len(),
    ensures
        be16(s, off) / 256 == s[off] && be16(s, off) % 256 == s[off + 1],
        le16(s, off) % 256 == s[off] && le16(s, off) / 256 == s[off + 1],
        be32(s, off) / 16777216 == s[off] && (be32(s, off) / 65536) % 256 == s[off + 1]
            && (be32(s, off) / 256) % 256 == s[off + 2] && be32(s, off) % 256 == s[off + 3],
        le32(s, off) % 256 == s[off] && (le32(s, off) / 256) % 256 == s[off + 1]
            && (le32(s, off) / 65536) % 256 == s[off + 2] && le32(s, off) / 16777216 == s[off + 3],
{
    let (a, b, c, d) = (s[off] as int, s[off + 1] as int, s[off + 2] as int, s[off + 3] as int);
    assert(0 <= a < 256 && 0 <= b < 256 && 0 <= c < 256 && 0 <= d < 256);
    assert(be16(s, off) == a * 256 + b);
    assert(le16(s, off) == a + b * 256);
    assert(be32(s, off) == a * 16777216 + b * 65536 + c * 256 + d);
    assert(le32(s, off) == a + b * 256 + c * 65536 + d * 16777216);
    assert((a * 256 + b) / 256 == a && (a * 256 + b) % 256 == b) by (nonlinear_arith)
        requires 0 <= a < 256, 0 <= b < 256;
    assert((a + b * 256) % 256 == a && (a + b * 256) / 256 == b) by (nonlinear_arith)
        requires 0 <= a < 256, 0 <= b < 256;
    assert({
        let v = a * 16777216 + b * 65536 + c * 256 + d;
        v / 16777216 == a && (v / 65536) % 256 == b && (v / 256) % 256 == c && v % 256 == d
    }) by (nonlinear_arith)
        requires 0 <= a < 256, 0 <= b < 256, 0 <= c < 256, 0 <= d < 256;
    assert({
        let v = a + b * 256 + c * 65536 + d * 16777216;
        v % 256 == a && (v / 256) % 256 == b && (v / 65536) % 256 == c && v / 16777216 == d
    }) by (nonlinear_arith)
        requires 0 <= a < 256, 0 <= b < 256, 0 <= c < 256, 0 <= d < 256;
}

} // verus!
