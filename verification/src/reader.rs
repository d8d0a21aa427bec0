//! Bounds-checked little-endian readers and string decoders over raw bytes.
//!
//! Every reader is total: a range that falls outside the buffer yields `0`
//! (or an empty string / `None`), never a panic.

use vstd::prelude::*;

verus! {

/// Whether `width` bytes starting at `off` lie inside `data`.
pub open spec fn in_bounds(data: Seq<u8>, off: int, width: int) -> bool {
    0 <= off && off + width <= data.len()
}

/// The little-endian `u16` at `off`, or `0` when out of range.
pub open spec fn spec_le_u16(data: Seq<u8>, off: int) -> u16 {
    if in_bounds(data, off, 2) {
        (data[off] + data[off + 1] * 0x100) as u16
    } else {
        0
    }
}

/// The little-endian `u32` at `off`, or `0` when out of range.
pub open spec fn spec_le_u32(data: Seq<u8>, off: int) -> u32 {
    if in_bounds(data, off, 4) {
        (data[off] + data[off + 1] * 0x100 + data[off + 2] * 0x1_0000 + data[off + 3]
            * 0x100_0000) as u32
    } else {
        0
    }
}

/// The little-endian 48-bit unsigned integer at `off`, or `0` when out of range.
pub open spec fn spec_le_u48(data: Seq<u8>, off: int) -> u64 {
    if in_bounds(data, off, 6) {
        (data[off] + data[off + 1] * 0x100 + data[off + 2] * 0x1_0000 + data[off + 3]
            * 0x100_0000 + data[off + 4] * 0x1_0000_0000 + data[off + 5] * 0x100_0000_0000) as u64
    } else {
        0
    }
}

/// Read a little-endian `u16` at `off`, or `0` if out of range.
pub fn le_u16(data: &[u8], off: usize) -> (r: u16)
    ensures
        r == spec_le_u16(data@, off as int),
{
    if off <= data.len() && data.len() - off >= 2 {
        data[off] as u16 + (data[off + 1] as u16) * 0x100
    } else {
        0
    }
}

/// Read a little-endian `u32` at `off`, or `0` if out of range.
pub fn le_u32(data: &[u8], off: usize) -> (r: u32)
    ensures
        r == spec_le_u32(data@, off as int),
{
    if off <= data.len() && data.len() - off >= 4 {
        data[off] as u32 + (data[off + 1] as u32) * 0x100 + (data[off + 2] as u32) * 0x1_0000
            + (data[off + 3] as u32) * 0x100_0000
    } else {
        0
    }
}

/// Read a 48-bit little-endian unsigned integer at `off`, or `0` if out of
/// range (the NTFS MFT entry index of a file reference).
pub fn le_u48(data: &[u8], off: usize) -> (r: u64)
    ensures
        r == spec_le_u48(data@, off as int),
{
    if off <= data.len() && data.len() - off >= 6 {
        data[off] as u64 + (data[off + 1] as u64) * 0x100 + (data[off + 2] as u64) * 0x1_0000
            + (data[off + 3] as u64) * 0x100_0000 + (data[off + 4] as u64) * 0x1_0000_0000
            + (data[off + 5] as u64) * 0x100_0000_0000
    } else {
        0
    }
}

/// Appends `c` to `s` (`String::push`).
#[verifier::external_body]
fn push_char(s: &mut String, c: char)
    ensures
        final(s)@ == old(s)@.push(c),
{
    s.push(c);
}

/// The NUL-terminated single-byte string at `off`, each byte mapped to the
/// `char` with the same code point.
pub open spec fn spec_ascii_z(data: Seq<u8>, off: int) -> Seq<char>
    decreases data.len() - off,
{
    if off < 0 || off >= data.len() || data[off] == 0 {
        seq![]
    } else {
        seq![data[off] as char] + spec_ascii_z(data, off + 1)
    }
}

/// Decode a NUL-terminated single-byte string starting at `off`, stopping at
/// the first NUL or the end of the buffer. Each byte becomes the `char` of
/// the same code point (Latin-1 style), so no byte is dropped.
pub fn ascii_z(data: &[u8], off: usize) -> (s: String)
    ensures
        s@ == spec_ascii_z(data@, off as int),
{
    let mut out = String::new();
    if off > data.len() {
        return out;
    }
    let mut i = off;
    while i < data.len()
        invariant_except_break
            off <= i <= data.len(),
            spec_ascii_z(data@, off as int) == out@ + spec_ascii_z(data@, i as int),
        ensures
            spec_ascii_z(data@, off as int) == out@,
        decreases data.len() - i,
    {
        let byte = data[i];
        if byte == 0 {
            assert(out@ + spec_ascii_z(data@, i as int) == out@);
            break;
        }
        let ghost before = out@;
        push_char(&mut out, byte as char);
        i = i + 1;
        assert(before + spec_ascii_z(data@, i - 1) =~= out@ + spec_ascii_z(data@, i as int));
    }
    out
}


/// The UTF-16 code units read from `off`: little-endian `u16`s while two bytes
/// remain, stopping before the first `0` unit.
pub open spec fn spec_utf16_units(data: Seq<u8>, off: int) -> Seq<u16>
    decreases data.len() - off,
{
    if !in_bounds(data, off, 2) || spec_le_u16(data, off) == 0 {
        seq![]
    } else {
        seq![spec_le_u16(data, off)] + spec_utf16_units(data, off + 2)
    }
}

/// Whether `u` is a UTF-16 surrogate code unit.
pub open spec fn is_surrogate(u: u16) -> bool {
    0xD800 <= u <= 0xDFFF
}

/// Whether `u` is a leading (high) surrogate.
pub open spec fn is_high_surrogate(u: u16) -> bool {
    0xD800 <= u <= 0xDBFF
}

/// Whether `u` is a trailing (low) surrogate.
pub open spec fn is_low_surrogate(u: u16) -> bool {
    0xDC00 <= u <= 0xDFFF
}

/// The code point that a surrogate pair encodes.
pub open spec fn surrogate_pair_value(hi: u16, lo: u16) -> int {
    0x1_0000 + (hi - 0xD800) * 0x400 + (lo - 0xDC00)
}

/// Lossy UTF-16 decoding: a non-surrogate unit is its own code point, a high
/// surrogate followed by a low one is a supplementary code point, and every
/// other surrogate becomes U+FFFD.
pub open spec fn utf16_decode_lossy(units: Seq<u16>) -> Seq<char>
    decreases units.len(),
{
    if units.len() == 0 {
        seq![]
    } else if !is_surrogate(units[0]) {
        seq![units[0] as char] + utf16_decode_lossy(units.drop_first())
    } else if is_high_surrogate(units[0]) && units.len() >= 2 && is_low_surrogate(units[1]) {
        seq![surrogate_pair_value(units[0], units[1]) as char] + utf16_decode_lossy(
            units.subrange(2, units.len() as int),
        )
    } else {
        seq!['\u{FFFD}'] + utf16_decode_lossy(units.drop_first())
    }
}

/// The number of UTF-16 code units that encode `s`.
pub open spec fn utf16_len(s: Seq<char>) -> nat
    decreases s.len(),
{
    if s.len() == 0 {
        0
    } else {
        (if s[0] as u32 >= 0x1_0000 { 2nat } else { 1nat }) + utf16_len(s.drop_first())
    }
}

/// `utf16_len` of a concatenation is the sum of the parts.
pub proof fn lemma_utf16_len_append(a: Seq<char>, b: Seq<char>)
    ensures
        utf16_len(a + b) == utf16_len(a) + utf16_len(b),
    decreases a.len(),
{
    if a.len() > 0 {
        assert((a + b).drop_first() =~= a.drop_first() + b);
        lemma_utf16_len_append(a.drop_first(), b);
    } else {
        assert(a + b =~= b);
    }
}

/// Re-encoding the lossy decoding of `units` takes exactly as many code units:
/// each kept unit and each U+FFFD takes one, each surrogate pair two.
pub proof fn lemma_utf16_decode_len(units: Seq<u16>)
    ensures
        utf16_len(utf16_decode_lossy(units)) == units.len(),
    decreases units.len(),
{
    if units.len() > 0 {
        if !is_surrogate(units[0]) {
            let c = units[0] as char;
            lemma_utf16_decode_len(units.drop_first());
            lemma_utf16_len_append(seq![c], utf16_decode_lossy(units.drop_first()));
            assert(utf16_len(seq![c]) == 1) by {
                assert(c as u32 == units[0] as u32);
                assert(seq![c].drop_first() =~= Seq::<char>::empty());
                assert(utf16_len(Seq::<char>::empty()) == 0);
            }
        } else if is_high_surrogate(units[0]) && units.len() >= 2 && is_low_surrogate(units[1]) {
            let c = surrogate_pair_value(units[0], units[1]) as char;
            let rest = units.subrange(2, units.len() as int);
            lemma_utf16_decode_len(rest);
            lemma_utf16_len_append(seq![c], utf16_decode_lossy(rest));
            assert(utf16_len(seq![c]) == 2) by {
                let v = surrogate_pair_value(units[0], units[1]);
                assert(0x1_0000 <= v <= 0x10_FFFF);
                assert(c as u32 == v);
                assert(seq![c].drop_first() =~= Seq::<char>::empty());
                assert(utf16_len(Seq::<char>::empty()) == 0);
            }
        } else {
            let c = '\u{FFFD}';
            lemma_utf16_decode_len(units.drop_first());
            lemma_utf16_len_append(seq![c], utf16_decode_lossy(units.drop_first()));
            assert(utf16_len(seq![c]) == 1) by {
                assert(c as u32 == 0xFFFD);
                assert(seq![c].drop_first() =~= Seq::<char>::empty());
                assert(utf16_len(Seq::<char>::empty()) == 0);
            }
        }
    }
}

/// `String::from_utf16_lossy`: decodes `units` as UTF-16, replacing each
/// unpaired surrogate with U+FFFD (as its documentation states).
#[verifier::external_body]
fn string_from_utf16_lossy(units: &[u16]) -> (s: String)
    ensures
        s@ == utf16_decode_lossy(units@),
{
    String::from_utf16_lossy(units)
}

/// Collect the UTF-16 code units of the NUL-terminated string at `off`.
fn utf16_units(data: &[u8], off: usize) -> (units: Vec<u16>)
    ensures
        units@ == spec_utf16_units(data@, off as int),
{
    let mut units: Vec<u16> = Vec::new();
    if off > data.len() {
        return units;
    }
    let mut i = off;
    while i <= data.len() && data.len() - i >= 2
        invariant_except_break
            off <= i,
            spec_utf16_units(data@, off as int) == units@ + spec_utf16_units(data@, i as int),
        ensures
            spec_utf16_units(data@, off as int) == units@,
        decreases data.len() - i,
    {
        let unit = le_u16(data, i);
        if unit == 0 {
            assert(units@ + spec_utf16_units(data@, i as int) =~= units@);
            break;
        }
        let ghost before = units@;
        units.push(unit);
        i = i + 2;
        assert(before + spec_utf16_units(data@, i - 2) =~= units@ + spec_utf16_units(data@, i as int));
    }
    proof {
        if !(i <= data.len() && data.len() - i >= 2) {
            assert(units@ + spec_utf16_units(data@, i as int) =~= units@);
        }
    }
    units
}

/// The single-byte string at `off` is exactly the bytes from `off` up to the
/// first NUL (or the end of the buffer), each as the `char` of that code
/// point: every character is one non-zero byte, and the string stops only at
/// a NUL or at the end.
pub proof fn lemma_ascii_z_is_bytes_to_nul(data: Seq<u8>, off: int)
    requires
        0 <= off,
    ensures
        ({
            let t = spec_ascii_z(data, off);
            &&& off + t.len() <= data.len() || t.len() == 0
            &&& forall|i: int|
                0 <= i < t.len() ==> #[trigger] t[i] as u32 == data[off + i] && data[off + i] != 0
            &&& off + t.len() == data.len() || off + t.len() > data.len() || data[off + t.len()] == 0
        }),
    decreases data.len() - off,
{
    if !(off < 0 || off >= data.len() || data[off] == 0) {
        lemma_ascii_z_is_bytes_to_nul(data, off + 1);
        let t = spec_ascii_z(data, off);
        let r = spec_ascii_z(data, off + 1);
        assert forall|i: int| 0 <= i < t.len() implies #[trigger] t[i] as u32 == data[off + i]
            && data[off + i] != 0 by {
            if i > 0 {
                assert(t[i] == r[i - 1]);
            }
        }
    }
}

/// The UTF-16 code units read at `off` are exactly the non-zero
/// little-endian `u16`s from `off` on, up to the first zero unit or the last
/// whole unit of the buffer.
pub proof fn lemma_utf16_units_are_units_to_nul(data: Seq<u8>, off: int)
    requires
        0 <= off,
    ensures
        ({
            let u = spec_utf16_units(data, off);
            &&& off + 2 * u.len() <= data.len() || u.len() == 0
            &&& forall|i: int|
                0 <= i < u.len() ==> #[trigger] u[i] == data[off + 2 * i] + data[off + 2 * i + 1]
                    * 0x100 && u[i] != 0
            &&& off + 2 * u.len() + 2 > data.len() || spec_le_u16(data, off + 2 * u.len()) == 0
        }),
    decreases data.len() - off,
{
    if !(!in_bounds(data, off, 2) || spec_le_u16(data, off) == 0) {
        lemma_utf16_units_are_units_to_nul(data, off + 2);
        let u = spec_utf16_units(data, off);
        let r = spec_utf16_units(data, off + 2);
        assert forall|i: int| 0 <= i < u.len() implies #[trigger] u[i] == data[off + 2 * i]
            + data[off + 2 * i + 1] * 0x100 && u[i] != 0 by {
            if i > 0 {
                assert(u[i] == r[i - 1]);
            }
        }
    }
}

/// The NUL-terminated UTF-16LE string at `off`, decoded lossily.
pub open spec fn spec_utf16_z(data: Seq<u8>, off: int) -> Seq<char> {
    utf16_decode_lossy(spec_utf16_units(data, off))
}

/// Decode a NUL-terminated UTF-16 little-endian string at `off`, together
/// with the number of code units it was decoded from.
pub(crate) fn utf16_z_counted(data: &[u8], off: usize) -> (res: (String, usize))
    ensures
        res.0@ == spec_utf16_z(data@, off as int),
        res.1 == spec_utf16_units(data@, off as int).len(),
        res.1 == utf16_len(res.0@),
{
    let units = utf16_units(data, off);
    let s = string_from_utf16_lossy(units.as_slice());
    proof {
        lemma_utf16_decode_len(units@);
    }
    (s, units.len())
}

/// Decode a NUL-terminated UTF-16 little-endian string starting at `off`,
/// stopping at the first U+0000 code unit or the end of the buffer.
/// Unpaired surrogates are decoded lossily to U+FFFD rather than dropped.
pub fn utf16_z(data: &[u8], off: usize) -> (s: String)
    ensures
        s@ == spec_utf16_z(data@, off as int),
{
    utf16_z_counted(data, off).0
}


/// The view of an optional `String`.
pub open spec fn opt_string_view(o: Option<String>) -> Option<Seq<char>> {
    match o {
        Some(s) => Some(s@),
        None => None,
    }
}

/// The upper-case hexadecimal digit for `n` (`0 <= n < 16`).
pub open spec fn hex_digit(n: int) -> char {
    if n < 10 {
        (0x30 + n) as char
    } else {
        (0x41 + n - 10) as char
    }
}

/// The two upper-case hexadecimal digits of `b`.
pub open spec fn hex_byte(b: u8) -> Seq<char> {
    seq![hex_digit((b / 16) as int), hex_digit((b % 16) as int)]
}

/// The canonical `XXXXXXXX-XXXX-XXXX-XXXX-XXXXXXXXXXXX` text of the 16 GUID
/// bytes `g`: the first three groups little-endian, the last two big-endian.
pub open spec fn spec_guid_text(g: Seq<u8>) -> Seq<char> {
    hex_byte(g[3]) + hex_byte(g[2]) + hex_byte(g[1]) + hex_byte(g[0]) + seq!['-'] + hex_byte(g[5])
        + hex_byte(g[4]) + seq!['-'] + hex_byte(g[7]) + hex_byte(g[6]) + seq!['-'] + hex_byte(g[8])
        + hex_byte(g[9]) + seq!['-'] + hex_byte(g[10]) + hex_byte(g[11]) + hex_byte(g[12])
        + hex_byte(g[13]) + hex_byte(g[14]) + hex_byte(g[15])
}

/// The GUID text of the 16 bytes at `off`, or `None` when they are not all there.
pub open spec fn spec_guid(data: Seq<u8>, off: int) -> Option<Seq<char>> {
    if in_bounds(data, off, 16) {
        Some(spec_guid_text(data.subrange(off, off + 16)))
    } else {
        None
    }
}

/// The value of an upper-case hexadecimal digit, or 16 for any other `char`.
pub open spec fn upper_hex_value(c: char) -> int {
    if 0x30 <= c as u32 <= 0x39 {
        c as u32 - 0x30
    } else if 0x41 <= c as u32 <= 0x46 {
        c as u32 - 0x41 + 10
    } else {
        16
    }
}

/// Where the two digits of GUID byte `j` stand in the canonical text: the
/// first three groups (bytes 0–3, 4–5, 6–7) are little-endian numbers, the
/// last two groups (bytes 8–9, 10–15) are the bytes in order.
pub open spec fn guid_byte_position(j: int) -> int {
    if j < 4 {
        6 - 2 * j
    } else if j < 6 {
        9 + 2 * (5 - j)
    } else if j < 8 {
        14 + 2 * (7 - j)
    } else if j < 10 {
        19 + 2 * (j - 8)
    } else {
        24 + 2 * (j - 10)
    }
}

proof fn lemma_hex_digit_value(n: int)
    requires
        0 <= n < 16,
    ensures
        upper_hex_value(hex_digit(n)) == n,
{
}

/// The GUID text is the canonical Windows form of the 16 bytes: 36
/// characters with `-` at 8, 13, 18 and 23, and at the position of each byte
/// two upper-case hexadecimal digits that read back as that byte. So no byte
/// is lost, moved or case-changed, and distinct GUIDs have distinct texts.
pub proof fn lemma_guid_text_reads_back(g: Seq<u8>)
    requires
        g.len() == 16,
    ensures
        ({
            let t = spec_guid_text(g);
            &&& t.len() == 36
            &&& t[8] == '-' && t[13] == '-' && t[18] == '-' && t[23] == '-'
            &&& forall|j: int|
                0 <= j < 16 ==> {
                    let p = #[trigger] guid_byte_position(j);
                    &&& upper_hex_value(t[p]) < 16
                    &&& upper_hex_value(t[p + 1]) < 16
                    &&& upper_hex_value(t[p]) * 16 + upper_hex_value(t[p + 1]) == g[j]
                }
        }),
{
    let t = spec_guid_text(g);
    assert(t =~= seq![
        hex_digit((g[3] / 16) as int), hex_digit((g[3] % 16) as int),
        hex_digit((g[2] / 16) as int), hex_digit((g[2] % 16) as int),
        hex_digit((g[1] / 16) as int), hex_digit((g[1] % 16) as int),
        hex_digit((g[0] / 16) as int), hex_digit((g[0] % 16) as int),
        '-',
        hex_digit((g[5] / 16) as int), hex_digit((g[5] % 16) as int),
        hex_digit((g[4] / 16) as int), hex_digit((g[4] % 16) as int),
        '-',
        hex_digit((g[7] / 16) as int), hex_digit((g[7] % 16) as int),
        hex_digit((g[6] / 16) as int), hex_digit((g[6] % 16) as int),
        '-',
        hex_digit((g[8] / 16) as int), hex_digit((g[8] % 16) as int),
        hex_digit((g[9] / 16) as int), hex_digit((g[9] % 16) as int),
        '-',
        hex_digit((g[10] / 16) as int), hex_digit((g[10] % 16) as int),
        hex_digit((g[11] / 16) as int), hex_digit((g[11] % 16) as int),
        hex_digit((g[12] / 16) as int), hex_digit((g[12] % 16) as int),
        hex_digit((g[13] / 16) as int), hex_digit((g[13] % 16) as int),
        hex_digit((g[14] / 16) as int), hex_digit((g[14] % 16) as int),
        hex_digit((g[15] / 16) as int), hex_digit((g[15] % 16) as int)
    ]);
    assert forall|j: int| 0 <= j < 16 implies {
        let p = #[trigger] guid_byte_position(j);
        &&& upper_hex_value(t[p]) < 16
        &&& upper_hex_value(t[p + 1]) < 16
        &&& upper_hex_value(t[p]) * 16 + upper_hex_value(t[p + 1]) == g[j]
    } by {
        lemma_hex_digit_value((g[j] / 16) as int);
        lemma_hex_digit_value((g[j] % 16) as int);
    }
}

fn hex_digit_char(n: u8) -> (c: char)
    requires
        n < 16,
    ensures
        c == hex_digit(n as int),
{
    if n < 10 {
        (0x30u8 + n) as char
    } else {
        (0x41u8 + n - 10) as char
    }
}

fn push_hex_byte(s: &mut String, b: u8)
    ensures
        final(s)@ == old(s)@ + hex_byte(b),
{
    push_char(s, hex_digit_char(b / 16));
    push_char(s, hex_digit_char(b % 16));
    assert(final(s)@ =~= old(s)@ + hex_byte(b));
}

fn push_dash(s: &mut String)
    ensures
        final(s)@ == old(s)@ + seq!['-'],
{
    push_char(s, '-');
    assert(final(s)@ =~= old(s)@ + seq!['-']);
}

/// Format the 16-byte Microsoft GUID at `off` into its canonical upper-case
/// string (first three groups little-endian, last two big-endian), or `None`
/// if 16 bytes are not available at `off`.
pub fn guid(data: &[u8], off: usize) -> (r: Option<String>)
    ensures
        opt_string_view(r) == spec_guid(data@, off as int),
{
    if !(off <= data.len() && data.len() - off >= 16) {
        return None;
    }
    let ghost g = data@.subrange(off as int, off + 16);
    let mut s = String::new();
    push_hex_byte(&mut s, data[off + 3]);
    push_hex_byte(&mut s, data[off + 2]);
    push_hex_byte(&mut s, data[off + 1]);
    push_hex_byte(&mut s, data[off]);
    push_dash(&mut s);
    push_hex_byte(&mut s, data[off + 5]);
    push_hex_byte(&mut s, data[off + 4]);
    push_dash(&mut s);
    push_hex_byte(&mut s, data[off + 7]);
    push_hex_byte(&mut s, data[off + 6]);
    push_dash(&mut s);
    push_hex_byte(&mut s, data[off + 8]);
    push_hex_byte(&mut s, data[off + 9]);
    push_dash(&mut s);
    push_hex_byte(&mut s, data[off + 10]);
    push_hex_byte(&mut s, data[off + 11]);
    push_hex_byte(&mut s, data[off + 12]);
    push_hex_byte(&mut s, data[off + 13]);
    push_hex_byte(&mut s, data[off + 14]);
    push_hex_byte(&mut s, data[off + 15]);
    assert(s@ =~= spec_guid_text(g));
    Some(s)
}

} // verus!
