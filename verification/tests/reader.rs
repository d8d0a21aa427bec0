//! The bounds-checked string readers.

use shellitem::reader::utf16_z;

#[test]
fn utf16_z_offset_past_end_returns_empty() {
    // `off` beyond the buffer must degrade to an empty string, never panic.
    assert_eq!(utf16_z(&[0x41, 0x00], 8), "");
}

#[test]
fn utf16_z_decodes_until_nul_and_ignores_trailing_bytes() {
    // "Hi" then a UTF-16 NUL; trailing bytes after the NUL are ignored.
    let data = [0x48, 0x00, 0x69, 0x00, 0x00, 0x00, 0x5A, 0x00];
    assert_eq!(utf16_z(&data, 0), "Hi");
}
