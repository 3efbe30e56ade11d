use vstd::prelude::*;
use vstd::string::*;

verus! {

/// Appends one character to a string.
///
/// Trusted: `String::push` appends `c` to the end of the string and changes
/// nothing else.
#[verifier::external_body]
pub(crate) fn push_char(s: &mut String, c: char)
    ensures
        final(s)@ == old(s)@.push(c),
{
    s.push(c);
}

/// What `String::from_utf8_lossy` decodes from the given bytes.
pub uninterp spec fn lossy_utf8(bytes: Seq<u8>) -> Seq<char>;

/// A character with the Unicode `White_Space` property: tab through
/// carriage return, space, next line, no-break space, ogham space mark, the
/// spaces from en quad to hair space, line and paragraph separators, narrow
/// no-break space, medium mathematical space and ideographic space.
pub open spec fn is_white_space(c: char) -> bool {
    let u = c as u32;
    ||| 0x09 <= u <= 0x0d
    ||| u == 0x20
    ||| u == 0x85
    ||| u == 0xa0
    ||| u == 0x1680
    ||| 0x2000 <= u <= 0x200a
    ||| u == 0x2028
    ||| u == 0x2029
    ||| u == 0x202f
    ||| u == 0x205f
    ||| u == 0x3000
}

/// The text without its leading white space.
pub open spec fn trim_start(text: Seq<char>) -> Seq<char>
    decreases text.len(),
{
    if text.len() > 0 && is_white_space(text[0]) { trim_start(text.drop_first()) } else { text }
}

/// The text without its trailing white space.
pub open spec fn trim_end(text: Seq<char>) -> Seq<char>
    decreases text.len(),
{
    if text.len() > 0 && is_white_space(text.last()) { trim_end(text.drop_last()) } else { text }
}

/// The text without its leading and trailing white space.
pub open spec fn trimmed(text: Seq<char>) -> Seq<char> {
    trim_end(trim_start(text))
}

/// True when every byte is an ASCII byte.
pub open spec fn all_ascii(bytes: Seq<u8>) -> bool {
    forall|i: int| 0 <= i < bytes.len() ==> #[trigger] bytes[i] < 128
}

/// The characters of ASCII bytes, one for each byte.
pub open spec fn ascii_chars(bytes: Seq<u8>) -> Seq<char> {
    bytes.map_values(|b: u8| b as char)
}

/// A printable ASCII character other than space: `str::trim` never removes it.
pub open spec fn is_graphic(c: char) -> bool {
    '!' <= c <= '~'
}

/// Decodes bytes as UTF-8, replacing invalid sequences.
///
/// Trusted: calls `String::from_utf8_lossy`.  The result is named
/// `lossy_utf8` of the bytes; the documentation states that valid UTF-8, and
/// so any ASCII text, decodes to exactly its characters.  Which replacement
/// characters invalid input yields is left unsaid.
#[verifier::external_body]
fn decode_lossy(bytes: &[u8]) -> (r: String)
    ensures
        r@ == lossy_utf8(bytes@),
        all_ascii(bytes@) ==> r@ == ascii_chars(bytes@),
{
    String::from_utf8_lossy(bytes).into_owned()
}

/// Whether a character has the Unicode `White_Space` property.
fn white_space(c: char) -> (r: bool)
    ensures
        r == is_white_space(c),
{
    let u = c as u32;
    (0x09 <= u && u <= 0x0d) || u == 0x20 || u == 0x85 || u == 0xa0 || u == 0x1680 || (0x2000 <= u && u <= 0x200a)
        || u == 0x2028 || u == 0x2029 || u == 0x202f || u == 0x205f || u == 0x3000
}

/// Removes leading and trailing white space, as `str::trim` does.
fn trim_text(text: &str) -> (r: String)
    ensures
        r@ == trimmed(text@),
{
    let ghost t = text@;
    let n = text.unicode_len();
    let mut start: usize = 0;
    assert(t.subrange(0, n as int) =~= t);
    while start < n && white_space(text.get_char(start))
        invariant
            t == text@,
            n == t.len(),
            start <= n,
            trim_start(t) == trim_start(t.subrange(start as int, n as int)),
        decreases n - start,
    {
        assert(t.subrange(start as int, n as int).drop_first() =~= t.subrange(start + 1, n as int));
        start = start + 1;
    }
    assert(trim_start(t) == t.subrange(start as int, n as int));
    let mut end: usize = n;
    while end > start && white_space(text.get_char(end - 1))
        invariant
            t == text@,
            n == t.len(),
            start <= end <= n,
            trim_end(t.subrange(start as int, n as int)) == trim_end(t.subrange(start as int, end as int)),
        decreases end - start,
    {
        assert(t.subrange(start as int, end as int).drop_last() =~= t.subrange(start as int, end - 1));
        end = end - 1;
    }
    assert(trim_end(t.subrange(start as int, end as int)) == t.subrange(start as int, end as int));
    String::from_str(text.substring_char(start, end))
}

/// Index of the first zero byte, or the length when there is none.
pub open spec fn nul_position(bytes: Seq<u8>) -> int
    decreases bytes.len(),
{
    if bytes.len() == 0 {
        0
    } else if bytes[0] == 0 {
        0
    } else {
        1 + nul_position(bytes.drop_first())
    }
}

proof fn lemma_nul_position(bytes: Seq<u8>)
    ensures
        0 <= nul_position(bytes) <= bytes.len(),
        forall|i: int| 0 <= i < nul_position(bytes) ==> bytes[i] != 0,
        nul_position(bytes) < bytes.len() ==> bytes[nul_position(bytes)] == 0,
    decreases bytes.len(),
{
    if bytes.len() > 0 && bytes[0] != 0 {
        lemma_nul_position(bytes.drop_first());
        assert forall|i: int| 0 <= i < nul_position(bytes) implies bytes[i] != 0 by {
            if i > 0 {
                assert(bytes[i] == bytes.drop_first()[i - 1]);
            }
        }
    }
}

/// The text of a NUL-terminated byte field: the bytes up to the first zero,
/// decoded and trimmed.
pub open spec fn c_string_text(bytes: Seq<u8>) -> Seq<char> {
    trimmed(lossy_utf8(bytes.take(nul_position(bytes))))
}

/// Reads a NUL-terminated, possibly space-padded text field.  Where the
/// bytes before the first zero are ASCII, the result is their characters
/// without leading and trailing white space; where moreover the first and
/// last of them are visible characters, it is exactly those characters.
pub fn trim_c_string(bytes: &[u8]) -> (r: String)
    ensures
        r@ == c_string_text(bytes@),
        all_ascii(bytes@.take(nul_position(bytes@)))
            ==> r@ == trimmed(ascii_chars(bytes@.take(nul_position(bytes@)))),
        all_ascii(bytes@.take(nul_position(bytes@))) && nul_position(bytes@) > 0
            && is_graphic(bytes@[0] as char) && is_graphic(bytes@[nul_position(bytes@) - 1] as char)
            ==> r@ == ascii_chars(bytes@.take(nul_position(bytes@))),
{
    let mut end: usize = 0;
    while end < bytes.len() && bytes[end] != 0
        invariant
            end <= bytes@.len(),
            forall|i: int| 0 <= i < end ==> bytes@[i] != 0,
        decreases bytes@.len() - end,
    {
        end = end + 1;
    }
    proof {
        lemma_nul_position(bytes@);
        if nul_position(bytes@) < end {
            assert(bytes@[nul_position(bytes@)] == 0);
        }
        if (end as int) < nul_position(bytes@) {
            assert(bytes@[end as int] != 0);
        }
    }
    let decoded = decode_lossy(&bytes[0..end]);
    assert(bytes@.subrange(0, end as int) =~= bytes@.take(nul_position(bytes@)));
    proof {
        let t = ascii_chars(bytes@.take(nul_position(bytes@)));
        if t.len() > 0 && is_graphic(t[0]) && is_graphic(t.last()) {
            lemma_graphic_ends_untrimmed(t);
        }
    }
    trim_text(decoded.as_str())
}

/// Text that begins and ends with a visible ASCII character has no white
/// space to trim.
proof fn lemma_graphic_ends_untrimmed(t: Seq<char>)
    requires
        t.len() > 0,
        is_graphic(t[0]),
        is_graphic(t.last()),
    ensures
        trimmed(t) == t,
{
    assert(!is_white_space(t[0]));
    assert(trim_start(t) == t);
    assert(!is_white_space(t.last()));
    assert(trim_end(t) == t);
}

/// The character of a decimal digit.
pub open spec fn digit_char(d: int) -> char {
    if d == 0 { '0' } else if d == 1 { '1' } else if d == 2 { '2' } else if d == 3 { '3' } else if d == 4 { '4' }
    else if d == 5 { '5' } else if d == 6 { '6' } else if d == 7 { '7' } else if d == 8 { '8' } else { '9' }
}

/// The character of a hexadecimal digit, lower case.
pub open spec fn hex_char(d: int) -> char {
    if d < 10 { digit_char(d) } else if d == 10 { 'a' } else if d == 11 { 'b' } else if d == 12 { 'c' }
    else if d == 13 { 'd' } else if d == 14 { 'e' } else { 'f' }
}

/// The decimal digits of `n`, most significant first, without leading zeros.
pub open spec fn decimal(n: nat) -> Seq<char>
    decreases n,
{
    if n < 10 {
        seq![digit_char(n as int)]
    } else {
        decimal(n / 10).push(digit_char((n % 10) as int))
    }
}

/// The lower-case hexadecimal digits of `n`, without leading zeros.
pub open spec fn hexadecimal(n: nat) -> Seq<char>
    decreases n,
{
    if n < 16 {
        seq![hex_char(n as int)]
    } else {
        hexadecimal(n / 16).push(hex_char((n % 16) as int))
    }
}

/// `digits` with zeros in front up to `width` characters.
pub open spec fn zero_padded(digits: Seq<char>, width: nat) -> Seq<char> {
    if digits.len() >= width {
        digits
    } else {
        Seq::new((width - digits.len()) as nat, |i: int| '0') + digits
    }
}

fn digit(d: u64) -> (c: char)
    requires
        d < 16,
    ensures
        c == hex_char(d as int),
{
    if d == 0 { '0' } else if d == 1 { '1' } else if d == 2 { '2' } else if d == 3 { '3' } else if d == 4 { '4' }
    else if d == 5 { '5' } else if d == 6 { '6' } else if d == 7 { '7' } else if d == 8 { '8' } else if d == 9 { '9' }
    else if d == 10 { 'a' } else if d == 11 { 'b' } else if d == 12 { 'c' } else if d == 13 { 'd' } else if d == 14 { 'e' }
    else { 'f' }
}

/// The digits of `n` in base 10 or 16.
pub open spec fn in_base(n: nat, base: nat) -> Seq<char> {
    if base == 16 { hexadecimal(n) } else { decimal(n) }
}

fn push_in_base(s: &mut String, n: u64, base: u64)
    requires
        base == 10 || base == 16,
    ensures
        final(s)@ == old(s)@ + in_base(n as nat, base as nat),
    decreases n,
{
    if n >= base {
        push_in_base(s, n / base, base);
    }
    push_char(s, digit(n % base));
    proof {
        if base == 10 {
            assert(in_base(n as nat, 10) == decimal(n as nat));
        }
    }
    assert(final(s)@ =~= old(s)@ + in_base(n as nat, base as nat)) by {
        if n >= base {
            assert(in_base(n as nat, base as nat) == in_base((n / base) as nat, base as nat).push(hex_char((n % base) as int)));
        }
    }
}

/// Writes `n` in base 10 or 16 with zeros in front up to `width` digits.
fn padded_in_base(n: u64, width: usize, base: u64) -> (r: String)
    requires
        base == 10 || base == 16,
    ensures
        r@ == zero_padded(in_base(n as nat, base as nat), width as nat),
{
    let mut digits = String::new();
    push_in_base(&mut digits, n, base);
    assert(digits@ =~= in_base(n as nat, base as nat));
    let mut r = String::new();
    let len = digits.as_str().unicode_len();
    let mut i = len;
    while i < width
        invariant
            len == in_base(n as nat, base as nat).len(),
            len <= i <= width || (i == len && len >= width),
            r@ =~= Seq::new((i - len) as nat, |k: int| '0'),
        decreases width - i,
    {
        push_char(&mut r, '0');
        i = i + 1;
    }
    r.append(digits.as_str());
    r
}

/// Writes `n` in decimal with zeros in front up to `width` digits, as
/// `format!("{n:0width$}")` does.
pub fn padded_decimal(n: u64, width: usize) -> (r: String)
    ensures
        r@ == zero_padded(decimal(n as nat), width as nat),
{
    padded_in_base(n, width, 10)
}

/// Writes `n` in lower-case hexadecimal with zeros in front up to `width`
/// digits, as `format!("{n:0width$x}")` does.
pub fn padded_hex(n: u64, width: usize) -> (r: String)
    ensures
        r@ == zero_padded(hexadecimal(n as nat), width as nat),
{
    padded_in_base(n, width, 16)
}

/// Two lower-case hexadecimal digits for each byte.
pub open spec fn hex_text(bytes: Seq<u8>) -> Seq<char>
    decreases bytes.len(),
{
    if bytes.len() == 0 {
        Seq::empty()
    } else {
        hex_text(bytes.drop_last()) + zero_padded(hexadecimal(bytes.last() as nat), 2)
    }
}

/// Writes every byte as two lower-case hexadecimal digits.
pub fn hex_bytes(bytes: &[u8]) -> (r: String)
    ensures
        r@ == hex_text(bytes@),
{
    let mut text = String::new();
    let mut i: usize = 0;
    while i < bytes.len()
        invariant
            i <= bytes@.len(),
            text@ == hex_text(bytes@.take(i as int)),
        decreases bytes@.len() - i,
    {
        let pair = padded_hex(bytes[i] as u64, 2);
        text.append(pair.as_str());
        assert(bytes@.take(i + 1).drop_last() =~= bytes@.take(i as int));
        i = i + 1;
    }
    assert(bytes@.take(bytes@.len() as int) =~= bytes@);
    text
}

} // verus!
