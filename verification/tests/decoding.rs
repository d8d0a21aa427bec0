//! Further scenarios: timestamps, readers, class kinds, paths and the
//! lenient-framing properties.

use shellitem::dosdate::{fat_to_epoch, is_leap};
use shellitem::reader::{ascii_z, guid, le_u16, le_u32, le_u48, utf16_z};
use shellitem::{parse_idlist, reconstruct_path, ShellItemKind};

fn fat_value(year: u16, month: u8, day: u8, hour: u8, minute: u8, second: u8) -> u32 {
    let date: u16 = ((year - 1980) << 9) | (u16::from(month) << 5) | u16::from(day);
    let time: u16 = (u16::from(hour) << 11) | (u16::from(minute) << 5) | u16::from(second / 2);
    (u32::from(date) << 16) | u32::from(time)
}

fn framed(class: u8, data: &[u8]) -> Vec<u8> {
    let cb = (3 + data.len()) as u16;
    let mut v = cb.to_le_bytes().to_vec();
    v.push(class);
    v.extend_from_slice(data);
    v
}

const MY_COMPUTER_BYTES: [u8; 16] = [
    0xE0, 0x4F, 0xD0, 0x20, 0xEA, 0x3A, 0x69, 0x10, 0xA2, 0xD8, 0x08, 0x00, 0x2B, 0x30, 0x30,
    0x9D,
];

fn root(guid: &[u8; 16]) -> Vec<u8> {
    let mut data = vec![0u8];
    data.extend_from_slice(guid);
    framed(0x1F, &data)
}

fn drive(name: &str) -> Vec<u8> {
    let mut field = [0u8; 20];
    for (i, b) in name.bytes().enumerate().take(19) {
        field[i] = b;
    }
    framed(0x2F, &field)
}

fn directory(short: &str) -> Vec<u8> {
    let mut data = vec![0u8];
    data.extend_from_slice(&0u32.to_le_bytes());
    data.extend_from_slice(&0u32.to_le_bytes());
    data.extend_from_slice(&0x10u16.to_le_bytes());
    data.extend_from_slice(short.as_bytes());
    data.push(0);
    framed(0x31, &data)
}

/// A file entry whose short name is followed by a version-3 `0xbeef0004`
/// block carrying `long`; `pad` extra bytes are put before the block so that
/// it no longer starts where the short name ends.
fn file_with_long_name(short: &str, long: &str, pad: usize) -> Vec<u8> {
    let mut body = vec![0u8];
    body.extend_from_slice(&7u32.to_le_bytes());
    body.extend_from_slice(&0u32.to_le_bytes());
    body.extend_from_slice(&0u16.to_le_bytes());
    body.extend_from_slice(short.as_bytes());
    body.push(0);
    if (body.len() + 3) % 2 != 0 {
        body.push(0);
    }
    body.extend(std::iter::repeat(0x11u8).take(pad));
    let mut block = vec![0u8, 0u8];
    block.extend_from_slice(&3u16.to_le_bytes());
    block.extend_from_slice(&0xBEEF_0004u32.to_le_bytes());
    block.extend_from_slice(&0u32.to_le_bytes());
    block.extend_from_slice(&0u32.to_le_bytes());
    let lno_pos = block.len();
    block.extend_from_slice(&[0u8, 0u8]);
    let lno = block.len() as u16;
    for u in long.encode_utf16() {
        block.extend_from_slice(&u.to_le_bytes());
    }
    block.extend_from_slice(&[0u8, 0u8]);
    let bs = block.len() as u16;
    block[0..2].copy_from_slice(&bs.to_le_bytes());
    block[lno_pos..lno_pos + 2].copy_from_slice(&lno.to_le_bytes());
    body.extend_from_slice(&block);
    framed(0x32, &body)
}

fn terminated(items: &[Vec<u8>]) -> Vec<u8> {
    let mut v = Vec::new();
    for it in items {
        v.extend_from_slice(it);
    }
    v.extend_from_slice(&[0u8, 0u8]);
    v
}

#[test]
fn fat_epoch_exact_values() {
    assert_eq!(fat_to_epoch(fat_value(1980, 1, 1, 0, 0, 0)), Some(315_532_800));
    assert_eq!(fat_to_epoch(fat_value(2024, 3, 14, 9, 26, 30)), Some(1_710_408_390));
    assert_eq!(fat_to_epoch(fat_value(2000, 2, 29, 12, 0, 0)), Some(951_825_600));
    assert_eq!(fat_to_epoch(fat_value(2107, 12, 31, 23, 59, 58)), Some(4_354_819_198));
}

#[test]
fn fat_epoch_rejects_zero_and_bad_fields() {
    assert_eq!(fat_to_epoch(0), None);
    // month 0, month 13, day 0
    assert_eq!(fat_to_epoch(fat_value(2020, 1, 1, 0, 0, 0) & !(0xF << 21)), None);
    assert_eq!(fat_to_epoch((fat_value(2020, 1, 1, 0, 0, 0) & !(0xF << 21)) | (13 << 21)), None);
    assert_eq!(fat_to_epoch(fat_value(2020, 1, 1, 0, 0, 0) & !(0x1F << 16)), None);
    // A time with a zero date field is still a zero day.
    assert_eq!(fat_to_epoch(0x0000_1234), None);
}

#[test]
fn leap_years() {
    assert!(is_leap(2000));
    assert!(is_leap(2024));
    assert!(!is_leap(1900));
    assert!(!is_leap(2023));
}

#[test]
fn little_endian_readers_and_bounds() {
    let d = [0x01, 0x02, 0x03, 0x04, 0x05, 0x06, 0x07];
    assert_eq!(le_u16(&d, 0), 0x0201);
    assert_eq!(le_u16(&d, 5), 0x0706);
    assert_eq!(le_u16(&d, 6), 0);
    assert_eq!(le_u16(&d, usize::MAX), 0);
    assert_eq!(le_u32(&d, 1), 0x0504_0302);
    assert_eq!(le_u32(&d, 4), 0);
    assert_eq!(le_u48(&d, 1), 0x0706_0504_0302);
    assert_eq!(le_u48(&d, 2), 0);
}

#[test]
fn ascii_z_maps_high_bytes_and_stops_at_nul() {
    assert_eq!(ascii_z(b"AB\xE9C\0DE", 0), "AB\u{e9}C");
    assert_eq!(ascii_z(b"ABC", 1), "BC");
    assert_eq!(ascii_z(b"ABC", 3), "");
    assert_eq!(ascii_z(b"ABC", 9), "");
}

#[test]
fn utf16_z_pairs_and_lone_surrogates() {
    // U+1F600 as a surrogate pair, then a lone high surrogate, then 'A'.
    let data = [0x3D, 0xD8, 0x00, 0xDE, 0x3D, 0xD8, 0x41, 0x00, 0x00, 0x00];
    assert_eq!(utf16_z(&data, 0), "\u{1F600}\u{FFFD}A");
    // An odd trailing byte is not a code unit.
    assert_eq!(utf16_z(&[0x41, 0x00, 0x42], 0), "A");
}

#[test]
fn guid_is_mixed_endian_upper_case() {
    let mut data = vec![0xFFu8];
    data.extend_from_slice(&MY_COMPUTER_BYTES);
    assert_eq!(
        guid(&data, 1).as_deref(),
        Some("20D04FE0-3AEA-1069-A2D8-08002B30309D")
    );
    assert_eq!(guid(&data, 2), None);
}

#[test]
fn class_kinds_follow_the_class_byte() {
    let blob = terminated(&[
        framed(0xC3, &[0, 0, 0]),
        framed(0x61, &[0, 0]),
        framed(0x71, &[0, 0]),
        framed(0x00, &[0]),
        framed(0x2E, &[0u8; 16]),
        framed(0xB1, &[0u8; 12]),
        framed(0x1E, &[0u8; 17]),
    ]);
    let items = parse_idlist(&blob);
    let kinds: Vec<ShellItemKind> = items.iter().map(|i| i.kind).collect();
    assert_eq!(
        kinds,
        vec![
            ShellItemKind::Network,
            ShellItemKind::Uri,
            ShellItemKind::ControlPanel,
            ShellItemKind::Unknown,
            ShellItemKind::Volume,
            ShellItemKind::FileEntry,
            ShellItemKind::Unknown,
        ]
    );
    assert_eq!(items[3].raw, vec![4, 0, 0x00, 0]);
}

#[test]
fn unicode_file_entry_short_name() {
    let mut body = vec![0u8];
    body.extend_from_slice(&9u32.to_le_bytes());
    body.extend_from_slice(&0u32.to_le_bytes());
    body.extend_from_slice(&0u16.to_le_bytes());
    for u in "\u{e9}t\u{e9}.txt".encode_utf16() {
        body.extend_from_slice(&u.to_le_bytes());
    }
    body.extend_from_slice(&[0, 0]);
    let items = parse_idlist(&terminated(&[framed(0xB1, &body)]));
    assert_eq!(items[0].kind, ShellItemKind::FileEntry);
    assert_eq!(items[0].name.as_deref(), Some("\u{e9}t\u{e9}.txt"));
    assert_eq!(items[0].file_size, Some(9));
    assert!(items[0].long_name.is_none());
}

#[test]
fn beef0004_found_by_scanning_when_misplaced() {
    let items = parse_idlist(&terminated(&[file_with_long_name("A~1.TXT", "a long.txt", 6)]));
    assert_eq!(items[0].name.as_deref(), Some("A~1.TXT"));
    assert_eq!(items[0].long_name.as_deref(), Some("a long.txt"));
    assert_eq!(items[0].display_name(), Some("a long.txt"));
}

#[test]
fn path_joins_display_names_without_doubling_separators() {
    let blob = terminated(&[
        root(&MY_COMPUTER_BYTES),
        drive("C:\\"),
        directory("USERS"),
        file_with_long_name("SECRET~1.DOC", "secret.docx", 0),
    ]);
    let items = parse_idlist(&blob);
    assert_eq!(items.len(), 4);
    assert_eq!(reconstruct_path(&items), "My Computer\\C:\\USERS\\secret.docx");
}

#[test]
fn path_skips_unlabelled_items_and_empty_list() {
    assert_eq!(reconstruct_path(&[]), "");
    let blob = terminated(&[framed(0x00, &[1, 2]), directory("A"), framed(0x61, &[]), directory("B")]);
    let items = parse_idlist(&blob);
    assert_eq!(items.len(), 4);
    assert_eq!(reconstruct_path(&items), "A\\B");
}

#[test]
fn unknown_guid_root_path_uses_guid() {
    let items = parse_idlist(&terminated(&[root(&[0x11u8; 16]), directory("X")]));
    assert_eq!(
        reconstruct_path(&items),
        "11111111-1111-1111-1111-111111111111\\X"
    );
}

#[test]
fn appending_bytes_keeps_decoded_prefix() {
    let full = terminated(&[root(&MY_COMPUTER_BYTES), drive("D:\\"), directory("DATA")]);
    let whole = parse_idlist(&full);
    for cut in 0..full.len() {
        let part = parse_idlist(&full[..cut]);
        assert!(part.len() <= whole.len());
        assert_eq!(&whole[..part.len()], &part[..]);
    }
}

#[test]
fn raw_bytes_tile_the_input_prefix() {
    let mut blob = terminated(&[root(&MY_COMPUTER_BYTES), drive("C:\\"), directory("X")]);
    blob.extend_from_slice(&[9, 9, 9]);
    let items = parse_idlist(&blob);
    let joined: Vec<u8> = items.iter().flat_map(|i| i.raw.iter().copied()).collect();
    assert_eq!(&blob[..joined.len()], &joined[..]);
    assert_eq!(joined.len(), blob.len() - 5);
    for it in &items {
        assert_eq!(usize::from(le_u16(&it.raw, 0)), it.raw.len());
        assert_eq!(it.raw[2], it.class);
    }
}

#[test]
fn terminator_first_yields_nothing() {
    assert!(parse_idlist(&[0, 0, 5, 0, 0x31, 0, 0]).is_empty());
    assert!(parse_idlist(&[7]).is_empty());
}

#[test]
fn display_name_prefers_long_then_name_then_guid() {
    let items = parse_idlist(&terminated(&[
        file_with_long_name("S~1", "long", 0),
        directory("SHORT"),
        root(&[0x22u8; 16]),
        framed(0x00, &[]),
    ]));
    assert_eq!(items[0].display_name(), Some("long"));
    assert_eq!(items[1].display_name(), Some("SHORT"));
    assert_eq!(
        items[2].display_name(),
        Some("22222222-2222-2222-2222-222222222222")
    );
    assert_eq!(items[3].display_name(), None);
}

#[test]
fn drive_name_stays_within_its_field() {
    let mut field = Vec::new();
    field.extend_from_slice(b"ABCDEFGHIJKLMNOPQRSTUV");
    let items = parse_idlist(&terminated(&[framed(0x2F, &field)]));
    assert_eq!(items[0].kind, ShellItemKind::Volume);
    assert_eq!(items[0].name.as_deref(), Some("ABCDEFGHIJKLMNOPQRST"));
    // A short item: the name runs to the end of the item.
    let items = parse_idlist(&terminated(&[framed(0x2F, b"D:")]));
    assert_eq!(items[0].name.as_deref(), Some("D:"));
}

#[test]
fn truncated_file_entry_fields_are_none() {
    let items = parse_idlist(&[0x05, 0x00, 0x32, 0x00, 0x01, 0x00, 0x00]);
    assert_eq!(items.len(), 1);
    assert_eq!(items[0].kind, ShellItemKind::FileEntry);
    assert_eq!(items[0].file_size, None);
    assert_eq!(items[0].modified, None);
    assert_eq!(items[0].name, None);
    // Exactly the four size bytes present: the size is read.
    let items = parse_idlist(&terminated(&[framed(0x32, &[0x00, 0x2A, 0x00, 0x00, 0x00])]));
    assert_eq!(items[0].file_size, Some(42));
}

#[test]
fn beef0004_scan_passes_over_signature_in_header() {
    // The signature bytes 04 00 EF BE start at offset 3, inside the item
    // header, where no block can begin; a real block follows later.
    let mut body = vec![0x04u8, 0x00, 0xEF, 0xBE, 0x00];
    body.extend_from_slice(&0u32.to_le_bytes());
    body.extend_from_slice(&0u16.to_le_bytes());
    body.extend_from_slice(b"A.TXT\0");
    body.extend_from_slice(&[0x11, 0x11]);
    let mut block = vec![0u8, 0u8];
    block.extend_from_slice(&3u16.to_le_bytes());
    block.extend_from_slice(&0xBEEF_0004u32.to_le_bytes());
    block.extend_from_slice(&0u32.to_le_bytes());
    block.extend_from_slice(&0u32.to_le_bytes());
    block.extend_from_slice(&18u16.to_le_bytes());
    for u in "abc".encode_utf16() {
        block.extend_from_slice(&u.to_le_bytes());
    }
    block.extend_from_slice(&[0u8, 0u8]);
    body.extend_from_slice(&block);
    let items = parse_idlist(&terminated(&[framed(0x32, &body)]));
    assert_eq!(items[0].name.as_deref(), Some("A.TXT"));
    assert_eq!(items[0].long_name.as_deref(), Some("abc"));
}

#[test]
fn fat_epoch_increases_with_the_packed_value() {
    let instants = [
        fat_value(1980, 1, 1, 0, 0, 0),
        fat_value(1980, 1, 1, 0, 0, 2),
        fat_value(1980, 1, 1, 0, 1, 0),
        fat_value(1999, 12, 31, 23, 59, 58),
        fat_value(2000, 1, 1, 0, 0, 0),
        fat_value(2000, 2, 29, 0, 0, 0),
        fat_value(2000, 3, 1, 0, 0, 0),
        fat_value(2107, 12, 31, 23, 59, 58),
    ];
    for pair in instants.windows(2) {
        assert!(pair[0] < pair[1]);
        assert!(fat_to_epoch(pair[0]).unwrap() < fat_to_epoch(pair[1]).unwrap());
    }
}

#[test]
fn whole_item_lists_concatenate() {
    let first: Vec<u8> = [root(&MY_COMPUTER_BYTES), drive("C:\\")].concat();
    let second = terminated(&[directory("A"), directory("B")]);
    let joined: Vec<u8> = [first.clone(), second.clone()].concat();
    let mut expected = parse_idlist(&first);
    expected.extend(parse_idlist(&second));
    assert_eq!(parse_idlist(&joined), expected);
    assert_eq!(reconstruct_path(&expected), "My Computer\\C:\\A\\B");
}
