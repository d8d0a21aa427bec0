//! `ITEMIDLIST` framing and per-class shell-item decoding.

use crate::dosdate::{fat_to_epoch, spec_fat_to_epoch};
use crate::knowledge;
use crate::knowledge::{my_computer_guid_text, spec_major_class};
use crate::reader;
use crate::reader::{
    in_bounds, spec_ascii_z, spec_guid, spec_le_u16, spec_le_u32, spec_le_u48, spec_utf16_z,
    utf16_len,
};
use crate::{ShellItem, ShellItemKind, ShellItemView};
use vstd::prelude::*;
use vstd::utf8::encode_utf8;

verus! {

// ───────────────────────────── specification ─────────────────────────────

/// A shell item with the given class, kind and raw bytes and every optional
/// field empty.
pub open spec fn blank_view(class: u8, kind: ShellItemKind, raw: Seq<u8>) -> ShellItemView {
    ShellItemView {
        class,
        kind,
        name: None,
        long_name: None,
        file_size: None,
        modified: None,
        created: None,
        accessed: None,
        mft_entry: None,
        mft_sequence: None,
        guid: None,
        raw,
    }
}

/// The kind that a class-type indicator byte decodes to.
pub open spec fn spec_kind(class: u8) -> ShellItemKind {
    if spec_major_class(class) == 0x30 {
        ShellItemKind::FileEntry
    } else if class == 0x1F {
        ShellItemKind::Root
    } else if class == 0x2E || class == 0x2F {
        ShellItemKind::Volume
    } else if class == 0xC3 {
        ShellItemKind::Network
    } else if spec_major_class(class) == 0x60 {
        ShellItemKind::Uri
    } else if spec_major_class(class) == 0x70 {
        ShellItemKind::ControlPanel
    } else {
        ShellItemKind::Unknown
    }
}

/// ASCII case folding of a character, as a code point.
pub open spec fn ascii_fold(c: char) -> u32 {
    if 0x41 <= c as u32 <= 0x5A {
        (c as u32 + 32) as u32
    } else {
        c as u32
    }
}

/// Whether `a` and `b` are equal up to ASCII case.
pub open spec fn spec_eq_ignore_ascii_case(a: Seq<char>, b: Seq<char>) -> bool {
    &&& a.len() == b.len()
    &&& forall|i: int| 0 <= i < a.len() ==> ascii_fold(#[trigger] a[i]) == ascii_fold(b[i])
}

/// The display name of a well-known shell-folder GUID: only the My-Computer
/// GUID is named.
pub open spec fn spec_known_folder_name(guid: Seq<char>) -> Option<Seq<char>> {
    if spec_eq_ignore_ascii_case(guid, my_computer_guid_text()) {
        Some("My Computer"@)
    } else {
        None
    }
}

/// `Some(s)` for a non-empty `s`, `None` for an empty one.
pub open spec fn non_empty(s: Seq<char>) -> Option<Seq<char>> {
    if s.len() > 0 {
        Some(s)
    } else {
        None
    }
}

/// A root item: the GUID at offset 4, and its known-folder display name.
#[verifier::opaque]
pub open spec fn spec_decode_root(class: u8, raw: Seq<u8>) -> ShellItemView {
    let base = blank_view(class, ShellItemKind::Root, raw);
    match spec_guid(raw, 4) {
        Some(g) => ShellItemView { name: spec_known_folder_name(g), guid: Some(g), ..base },
        None => base,
    }
}

/// The smaller of `a` and `b`.
pub open spec fn min_int(a: int, b: int) -> int {
    if a <= b {
        a
    } else {
        b
    }
}

/// A volume item: for class `0x2F`, the drive string in the 20-byte ASCII
/// field at offset 3 (up to its first NUL, and never past the field).
#[verifier::opaque]
pub open spec fn spec_decode_volume(class: u8, raw: Seq<u8>) -> ShellItemView {
    let base = blank_view(class, ShellItemKind::Volume, raw);
    if class == 0x2F {
        ShellItemView { name: non_empty(spec_ascii_z(raw.take(min_int(raw.len() as int, 23)), 3)), ..base }
    } else {
        base
    }
}

/// The primary (short) name of a file entry, at offset 14: UTF-16 for class
/// `0xB1`, single-byte otherwise.
pub open spec fn spec_short_name(class: u8, raw: Seq<u8>) -> Seq<char> {
    if class == 0xB1 {
        spec_utf16_z(raw, 14)
    } else {
        spec_ascii_z(raw, 14)
    }
}

/// The offset just past the primary name and its terminator: for UTF-16, the
/// name's code units plus the NUL unit; otherwise the name's UTF-8 length plus
/// the NUL, rounded up to an even offset.
pub open spec fn spec_short_name_end(class: u8, raw: Seq<u8>) -> int {
    let short = spec_short_name(class, raw);
    if class == 0xB1 {
        (14 + (utf16_len(short) + 1) * 2) as int
    } else {
        let end = 14 + encode_utf8(short).len() as int + 1;
        if end % 2 != 0 {
            end + 1
        } else {
            end
        }
    }
}

/// Whether the `0xbeef0004` signature is at `p`.
pub open spec fn signature_at(raw: Seq<u8>, p: int) -> bool {
    in_bounds(raw, p, 4) && spec_le_u32(raw, p) == 0xBEEF_0004
}

/// The first position at or after `from` that holds the `0xbeef0004` signature.
pub open spec fn first_signature(raw: Seq<u8>, from: int) -> Option<int>
    decreases raw.len() - from,
{
    if from < 0 || from + 4 > raw.len() {
        None
    } else if signature_at(raw, from) {
        Some(from)
    } else {
        first_signature(raw, from + 1)
    }
}

/// Where the `0xbeef0004` block starts: at `hint` when its signature is at
/// `hint + 4`, else four bytes before the first signature that has a whole
/// block header (four bytes) in front of it; `None` only when the item holds
/// no such signature.
pub open spec fn spec_locate_beef0004(raw: Seq<u8>, hint: int) -> Option<int> {
    if spec_le_u32(raw, hint + 4) == 0xBEEF_0004 {
        Some(hint)
    } else {
        match first_signature(raw, 4) {
            Some(p) => Some(p - 4),
            None => None,
        }
    }
}

/// The item after reading its `0xbeef0004` extension block, if one is found:
/// creation and access times at block offsets 8 and 12, the long name at the
/// block-relative offset stored at 16, and (from version 7) the MFT entry and
/// sequence at 20 and 26 unless both are zero.
#[verifier::opaque]
pub open spec fn spec_beef0004(item: ShellItemView, block_start: int) -> ShellItemView {
    let raw = item.raw;
    match spec_locate_beef0004(raw, block_start) {
        None => item,
        Some(b) => {
            let version = spec_le_u16(raw, b + 2);
            let lno = spec_le_u16(raw, b + 16);
            let long = spec_utf16_z(raw, b + lno);
            let entry = spec_le_u48(raw, b + 20);
            let seq = spec_le_u16(raw, b + 26);
            let has_ref = version >= 7 && (entry != 0 || seq != 0);
            ShellItemView {
                created: spec_fat_to_epoch(spec_le_u32(raw, b + 8)),
                accessed: spec_fat_to_epoch(spec_le_u32(raw, b + 12)),
                long_name: if lno != 0 && long.len() > 0 {
                    Some(long)
                } else {
                    item.long_name
                },
                mft_entry: if has_ref {
                    Some(entry)
                } else {
                    item.mft_entry
                },
                mft_sequence: if has_ref {
                    Some(seq)
                } else {
                    item.mft_sequence
                },
                ..item
            }
        },
    }
}

/// A file-entry item: size at 4 (`None` when those four bytes are cut off),
/// modification time at 8, the primary name at 14, then the `0xbeef0004`
/// extension block.
#[verifier::opaque]
pub open spec fn spec_decode_file_entry(class: u8, raw: Seq<u8>) -> ShellItemView {
    let base = ShellItemView {
        file_size: if in_bounds(raw, 4, 4) {
            Some(spec_le_u32(raw, 4))
        } else {
            None
        },
        modified: spec_fat_to_epoch(spec_le_u32(raw, 8)),
        ..blank_view(class, ShellItemKind::FileEntry, raw)
    };
    let short = spec_short_name(class, raw);
    let named = ShellItemView {
        name: if short.len() > 0 {
            Some(short)
        } else {
            base.name
        },
        ..base
    };
    spec_beef0004(named, spec_short_name_end(class, raw))
}

/// The decoding of one framed item (its raw bytes, `cb` prefix included).
#[verifier::opaque]
pub open spec fn spec_decode_item(raw: Seq<u8>) -> ShellItemView {
    let class = raw[2];
    if spec_major_class(class) == 0x30 {
        spec_decode_file_entry(class, raw)
    } else if class == 0x1F {
        spec_decode_root(class, raw)
    } else if class == 0x2E || class == 0x2F {
        spec_decode_volume(class, raw)
    } else {
        blank_view(class, spec_kind(class), raw)
    }
}

/// The raw bytes of the items framed from `pos` on: each `ItemID` is a
/// little-endian `u16` size `cb` (itself included) and `cb - 2` bytes;
/// framing stops at a `cb` below 3 (the `0` terminator among them), at a `cb`
/// that runs past the buffer, or when fewer than two bytes remain.
pub open spec fn spec_frames(data: Seq<u8>, pos: int) -> Seq<Seq<u8>>
    decreases data.len() - pos,
{
    if !in_bounds(data, pos, 2) {
        seq![]
    } else {
        let cb = spec_le_u16(data, pos) as int;
        if cb < 3 || pos + cb > data.len() {
            seq![]
        } else {
            seq![data.subrange(pos, pos + cb)] + spec_frames(data, pos + cb)
        }
    }
}

/// The shell items of an `ITEMIDLIST` blob.
pub open spec fn spec_parse_idlist(data: Seq<u8>) -> Seq<ShellItemView> {
    spec_frames(data, 0).map_values(|raw: Seq<u8>| spec_decode_item(raw))
}

/// `p` with the component `n` appended: a `\` goes between them unless `p`
/// is empty or already ends with one.
pub open spec fn join_component(p: Seq<char>, n: Seq<char>) -> Seq<char> {
    if p.len() == 0 || p.last() == '\\' {
        p + n
    } else {
        p + seq!['\\'] + n
    }
}

/// The path that the items' display labels form; items without a label are
/// skipped.
pub open spec fn spec_path(items: Seq<ShellItemView>) -> Seq<char>
    decreases items.len(),
{
    if items.len() == 0 {
        seq![]
    } else {
        let p = spec_path(items.drop_last());
        match items.last().display_label() {
            Some(n) => join_component(p, n),
            None => p,
        }
    }
}

// ───────────────────────────── lemmas ─────────────────────────────

proof fn lemma_ascii_z_len(data: Seq<u8>, off: int)
    requires
        0 <= off,
    ensures
        spec_ascii_z(data, off).len() <= if off <= data.len() {
            data.len() - off
        } else {
            0
        },
    decreases data.len() - off,
{
    if !(off < 0 || off >= data.len() || data[off] == 0) {
        lemma_ascii_z_len(data, off + 1);
    }
}

proof fn lemma_utf16_units_len(data: Seq<u8>, off: int)
    requires
        0 <= off,
    ensures
        2 * reader::spec_utf16_units(data, off).len() <= if off <= data.len() {
            data.len() - off
        } else {
            0
        },
    decreases data.len() - off,
{
    if !(!in_bounds(data, off, 2) || spec_le_u16(data, off) == 0) {
        lemma_utf16_units_len(data, off + 2);
    }
}

proof fn lemma_encode_utf8_len(s: Seq<char>)
    ensures
        encode_utf8(s).len() <= 4 * s.len(),
    decreases s.len(),
{
    if s.len() > 0 {
        lemma_encode_utf8_len(s.drop_first());
    }
}

// ───────────────────────────── laws ─────────────────────────────

/// Decoding an item keeps its bytes: the raw bytes are the framed bytes, the
/// class is the byte at offset 2, and the kind is the one that class names.
pub proof fn lemma_decode_item_keeps_frame(raw: Seq<u8>)
    requires
        raw.len() >= 3,
    ensures
        spec_decode_item(raw).raw == raw,
        spec_decode_item(raw).class == raw[2],
        spec_decode_item(raw).kind == spec_kind(raw[2]),
{
    reveal(spec_decode_item);
    reveal(spec_decode_file_entry);
    reveal(spec_beef0004);
    reveal(spec_decode_root);
    reveal(spec_decode_volume);
}

/// Every framed item is at least 3 bytes long, starts with its own length as
/// a little-endian `u16`, and lies inside the buffer.
proof fn lemma_frames_shape(data: Seq<u8>, pos: int)
    requires
        0 <= pos,
    ensures
        forall|i: int|
            0 <= i < spec_frames(data, pos).len() ==> {
                let f = #[trigger] spec_frames(data, pos)[i];
                &&& 3 <= f.len() <= 0xFFFF
                &&& spec_le_u16(f, 0) == f.len()
            },
    decreases data.len() - pos,
{
    if in_bounds(data, pos, 2) {
        let cb = spec_le_u16(data, pos) as int;
        if !(cb < 3 || pos + cb > data.len()) {
            lemma_frames_shape(data, pos + cb);
            let f = data.subrange(pos, pos + cb);
            assert(spec_le_u16(f, 0) == cb);
            assert forall|i: int| 0 <= i < spec_frames(data, pos).len() implies {
                let g = #[trigger] spec_frames(data, pos)[i];
                &&& 3 <= g.len() <= 0xFFFF
                &&& spec_le_u16(g, 0) == g.len()
            } by {
                if i > 0 {
                    assert(spec_frames(data, pos)[i] == spec_frames(data, pos + cb)[i - 1]);
                }
            }
        }
    }
}

/// Each item that `parse_idlist` yields is a well-framed shell item: at
/// least 3 raw bytes, beginning with their own count as the `cb` field, the
/// class byte at offset 2, and the kind that class names.
pub proof fn lemma_items_are_framed(data: Seq<u8>)
    ensures
        forall|i: int|
            0 <= i < spec_parse_idlist(data).len() ==> {
                let v = #[trigger] spec_parse_idlist(data)[i];
                &&& 3 <= v.raw.len() <= 0xFFFF
                &&& spec_le_u16(v.raw, 0) == v.raw.len()
                &&& v.class == v.raw[2]
                &&& v.kind == spec_kind(v.class)
            },
{
    lemma_frames_shape(data, 0);
    assert forall|i: int| 0 <= i < spec_parse_idlist(data).len() implies {
        let v = #[trigger] spec_parse_idlist(data)[i];
        &&& 3 <= v.raw.len() <= 0xFFFF
        &&& spec_le_u16(v.raw, 0) == v.raw.len()
        &&& v.class == v.raw[2]
        &&& v.kind == spec_kind(v.class)
    } by {
        let f = spec_frames(data, 0)[i];
        lemma_decode_item_keeps_frame(f);
    }
}

/// The frames from `pos`, concatenated, are the bytes of `data` that follow
/// `pos`, up to where framing stopped.
proof fn lemma_frames_tile(data: Seq<u8>, pos: int)
    requires
        0 <= pos,
    ensures
        pos + spec_frames(data, pos).flatten().len() <= data.len() || spec_frames(data, pos).len()
            == 0,
        spec_frames(data, pos).flatten() == data.subrange(
            pos,
            pos + spec_frames(data, pos).flatten().len(),
        ) || spec_frames(data, pos).len() == 0,
    decreases data.len() - pos,
{
    if in_bounds(data, pos, 2) {
        let cb = spec_le_u16(data, pos) as int;
        if !(cb < 3 || pos + cb > data.len()) {
            let fs = spec_frames(data, pos);
            let rest = spec_frames(data, pos + cb);
            lemma_frames_tile(data, pos + cb);
            assert(fs.first() == data.subrange(pos, pos + cb));
            assert(fs.drop_first() =~= rest);
            if rest.len() == 0 {
                assert(rest.flatten() =~= Seq::<u8>::empty());
            }
            assert(fs.flatten() =~= data.subrange(pos, pos + fs.flatten().len()));
        }
    }
}

/// Nothing is silently dropped or reordered: the raw bytes of the items,
/// concatenated in order, are exactly the first bytes of the input.
pub proof fn lemma_raw_bytes_tile_input(data: Seq<u8>)
    ensures
        ({
            let raws = spec_parse_idlist(data).map_values(|v: ShellItemView| v.raw);
            &&& raws.flatten().len() <= data.len()
            &&& raws.flatten() == data.subrange(0, raws.flatten().len() as int)
        }),
{
    let fs = spec_frames(data, 0);
    let raws = spec_parse_idlist(data).map_values(|v: ShellItemView| v.raw);
    lemma_frames_shape(data, 0);
    assert forall|i: int| 0 <= i < fs.len() implies #[trigger] raws[i] == fs[i] by {
        lemma_decode_item_keeps_frame(fs[i]);
    }
    assert(raws =~= fs);
    lemma_frames_tile(data, 0);
    if fs.len() == 0 {
        assert(fs.flatten() =~= Seq::<u8>::empty());
        assert(data.subrange(0, 0) =~= Seq::<u8>::empty());
    }
}

/// Framing of a prefix is a prefix of the framing of the whole.
proof fn lemma_frames_extend(data: Seq<u8>, more: Seq<u8>, pos: int)
    requires
        0 <= pos,
    ensures
        spec_frames(data, pos).len() <= spec_frames(data + more, pos).len(),
        forall|i: int|
            0 <= i < spec_frames(data, pos).len() ==> #[trigger] spec_frames(data, pos)[i]
                == spec_frames(data + more, pos)[i],
    decreases data.len() - pos,
{
    let whole = data + more;
    if in_bounds(data, pos, 2) {
        assert(spec_le_u16(whole, pos) == spec_le_u16(data, pos));
        let cb = spec_le_u16(data, pos) as int;
        if !(cb < 3 || pos + cb > data.len()) {
            lemma_frames_extend(data, more, pos + cb);
            assert(whole.subrange(pos, pos + cb) =~= data.subrange(pos, pos + cb));
            assert forall|i: int| 0 <= i < spec_frames(data, pos).len() implies #[trigger] spec_frames(
                data,
                pos,
            )[i] == spec_frames(whole, pos)[i] by {
                if i > 0 {
                    assert(spec_frames(data, pos)[i] == spec_frames(data, pos + cb)[i - 1]);
                    assert(spec_frames(whole, pos)[i] == spec_frames(whole, pos + cb)[i - 1]);
                }
            }
        }
    }
}

/// Lenient, prefix-preserving parsing: appending bytes to a blob never
/// changes or removes the items already decoded from it; a truncated list
/// yields a prefix of the items of the complete one.
pub proof fn lemma_parse_prefix_stable(data: Seq<u8>, more: Seq<u8>)
    ensures
        spec_parse_idlist(data).len() <= spec_parse_idlist(data + more).len(),
        forall|i: int|
            0 <= i < spec_parse_idlist(data).len() ==> #[trigger] spec_parse_idlist(data)[i]
                == spec_parse_idlist(data + more)[i],
{
    lemma_frames_extend(data, more, 0);
}

proof fn lemma_frames_count(data: Seq<u8>, pos: int)
    requires
        0 <= pos <= data.len(),
    ensures
        spec_frames(data, pos).len() * 3 <= data.len() - pos,
    decreases data.len() - pos,
{
    if in_bounds(data, pos, 2) {
        let cb = spec_le_u16(data, pos) as int;
        if !(cb < 3 || pos + cb > data.len()) {
            lemma_frames_count(data, pos + cb);
        }
    }
}

/// Every item consumes at least three bytes, so a blob of `n` bytes yields
/// at most `n / 3` items: framing always makes progress.
pub proof fn lemma_item_count_bound(data: Seq<u8>)
    ensures
        spec_parse_idlist(data).len() * 3 <= data.len(),
{
    lemma_frames_count(data, 0);
}

/// Framing only looks at the bytes from `pos` on: the frames of `a + b` from
/// `a.len() + q` are those of `b` from `q`.
proof fn lemma_frames_shift(a: Seq<u8>, b: Seq<u8>, q: int)
    requires
        0 <= q,
    ensures
        spec_frames(a + b, a.len() + q) == spec_frames(b, q),
    decreases b.len() - q,
{
    let w = a + b;
    let p = a.len() + q;
    if in_bounds(b, q, 2) {
        assert(spec_le_u16(w, p) == spec_le_u16(b, q));
        let cb = spec_le_u16(b, q) as int;
        if !(cb < 3 || q + cb > b.len()) {
            lemma_frames_shift(a, b, q + cb);
            assert(w.subrange(p, p + cb) =~= b.subrange(q, q + cb));
        }
    }
}

/// When the frames from `pos` cover `data` exactly, framing `data + more`
/// from `pos` continues straight into `more`.
proof fn lemma_frames_concat(data: Seq<u8>, more: Seq<u8>, pos: int)
    requires
        0 <= pos <= data.len(),
        pos + spec_frames(data, pos).flatten().len() == data.len(),
    ensures
        spec_frames(data + more, pos) == spec_frames(data, pos) + spec_frames(more, 0),
    decreases data.len() - pos,
{
    let w = data + more;
    let fs = spec_frames(data, pos);
    if fs.len() == 0 {
        assert(fs.flatten() =~= Seq::<u8>::empty());
        assert(pos == data.len());
        lemma_frames_shift(data, more, 0);
        assert(fs + spec_frames(more, 0) =~= spec_frames(more, 0));
    } else {
        let cb = spec_le_u16(data, pos) as int;
        assert(in_bounds(data, pos, 2) && !(cb < 3 || pos + cb > data.len()));
        assert(spec_le_u16(w, pos) == cb);
        assert(fs.drop_first() =~= spec_frames(data, pos + cb));
        assert(fs.first() == data.subrange(pos, pos + cb));
        lemma_frames_concat(data, more, pos + cb);
        assert(w.subrange(pos, pos + cb) =~= data.subrange(pos, pos + cb));
        assert(spec_frames(w, pos) =~= fs + spec_frames(more, 0));
    }
}

/// Item lists concatenate: when the items of `data` account for every one of
/// its bytes (no terminator, no damage), the items of `data + more` are the
/// items of `data` followed by the items of `more`.
pub proof fn lemma_parse_concat(data: Seq<u8>, more: Seq<u8>)
    requires
        spec_parse_idlist(data).map_values(|v: ShellItemView| v.raw).flatten().len() == data.len(),
    ensures
        spec_parse_idlist(data + more) == spec_parse_idlist(data) + spec_parse_idlist(more),
{
    let fs = spec_frames(data, 0);
    let raws = spec_parse_idlist(data).map_values(|v: ShellItemView| v.raw);
    lemma_frames_shape(data, 0);
    assert forall|i: int| 0 <= i < fs.len() implies #[trigger] raws[i] == fs[i] by {
        lemma_decode_item_keeps_frame(fs[i]);
    }
    assert(raws =~= fs);
    lemma_frames_concat(data, more, 0);
    assert(spec_parse_idlist(data + more) =~= spec_parse_idlist(data) + spec_parse_idlist(more));
}

/// Decoded fields are never made up: a class only fills the fields its
/// layout has, a decoded name is never empty, and the MFT entry and
/// sequence number are present together or not at all.
pub proof fn lemma_decoded_fields_are_consistent(raw: Seq<u8>)
    requires
        raw.len() >= 3,
    ensures
        ({
            let v = spec_decode_item(raw);
            &&& v.kind != ShellItemKind::FileEntry ==> {
                &&& v.file_size is None
                &&& v.modified is None
                &&& v.created is None
                &&& v.accessed is None
                &&& v.long_name is None
                &&& v.mft_entry is None
                &&& v.mft_sequence is None
            }
            &&& v.kind != ShellItemKind::Root ==> v.guid is None
            &&& (v.kind != ShellItemKind::FileEntry && v.kind != ShellItemKind::Root && v.kind
                != ShellItemKind::Volume) ==> v.name is None
            &&& v.name matches Some(n) ==> n.len() > 0
            &&& v.long_name matches Some(n) ==> n.len() > 0
            &&& v.guid matches Some(g) ==> g.len() == 36
            &&& (v.mft_entry is Some <==> v.mft_sequence is Some)
        }),
{
    reveal(spec_decode_item);
    reveal(spec_decode_file_entry);
    reveal(spec_beef0004);
    reveal(spec_decode_root);
    reveal(spec_decode_volume);
    reveal_strlit("My Computer");
}

/// The fixed fields of every file entry, whatever its class byte: the kind
/// is `FileEntry`, the modification time is the FAT value at offset 8, and
/// the size is the little-endian `u32` at offset 4 when those bytes are
/// present (`None` when they are cut off). The short name at offset 14 is
/// UTF-16 for class `0xB1` and single-byte otherwise, and absent when empty.
#[verifier::rlimit(40)]
pub proof fn lemma_file_entry_fixed_fields(raw: Seq<u8>)
    requires
        raw.len() >= 3,
        raw[2] & 0x70u8 == 0x30u8,
    ensures
        ({
            let v = spec_decode_item(raw);
            &&& v.kind == ShellItemKind::FileEntry
            &&& v.class == raw[2]
            &&& raw.len() >= 12 ==> v.modified == spec_fat_to_epoch(
                (raw[8] + raw[9] * 0x100 + raw[10] * 0x1_0000 + raw[11] * 0x100_0000) as u32,
            )
            &&& raw.len() < 12 ==> v.modified is None
            &&& raw.len() >= 8 ==> v.file_size == Some(
                (raw[4] + raw[5] * 0x100 + raw[6] * 0x1_0000 + raw[7] * 0x100_0000) as u32,
            )
            &&& raw.len() < 8 ==> v.file_size is None
            &&& raw[2] == 0xB1 ==> v.name == non_empty(spec_utf16_z(raw, 14))
            &&& raw[2] != 0xB1 ==> v.name == non_empty(spec_ascii_z(raw, 14))
        }),
{
    reveal(spec_decode_item);
    reveal(spec_decode_file_entry);
    reveal(spec_beef0004);
}

/// The `0xbeef0004` block of a file entry decides the extension fields: when
/// a block is found at `b`, the creation and access times are the FAT values
/// at `b + 8` and `b + 12`, and the NTFS file reference (the 48-bit entry at
/// `b + 20`, the sequence at `b + 26`) is present exactly when the block's
/// version is 7 or more, and the long name is the UTF-16 string at the
/// block-relative offset stored at `b + 16` (when that offset and the name
/// are not empty). The file reference is read for a block — any such version — and the reference is not zero;
/// when no block is found, all of these fields are absent.
#[verifier::rlimit(40)]
pub proof fn lemma_file_entry_extension_fields(raw: Seq<u8>)
    requires
        raw.len() >= 3,
        raw[2] & 0x70u8 == 0x30u8,
    ensures
        ({
            let v = spec_decode_item(raw);
            match spec_locate_beef0004(raw, spec_short_name_end(raw[2], raw)) {
                Some(b) => {
                    let version = spec_le_u16(raw, b + 2);
                    let entry = spec_le_u48(raw, b + 20);
                    let seq = spec_le_u16(raw, b + 26);
                    let lno = spec_le_u16(raw, b + 16);
                    let long = spec_utf16_z(raw, b + lno);
                    &&& v.long_name == (if lno != 0 && long.len() > 0 {
                        Some(long)
                    } else {
                        None
                    })
                    &&& v.created == spec_fat_to_epoch(spec_le_u32(raw, b + 8))
                    &&& v.accessed == spec_fat_to_epoch(spec_le_u32(raw, b + 12))
                    &&& (v.mft_entry is Some <==> (version >= 7 && (entry != 0 || seq != 0)))
                    &&& (v.mft_sequence is Some <==> v.mft_entry is Some)
                    &&& v.mft_entry is Some ==> v.mft_entry == Some(entry) && v.mft_sequence
                        == Some(seq)
                },
                None => {
                    &&& v.created is None
                    &&& v.accessed is None
                    &&& v.long_name is None
                    &&& v.mft_entry is None
                    &&& v.mft_sequence is None
                },
            }
        }),
{
    reveal(spec_decode_item);
    reveal(spec_decode_file_entry);
    reveal(spec_beef0004);
}

/// Every item contributes its label to the path: appending an item with a
/// label keeps the old path as a prefix and ends the new path with the label,
/// adding at most one `\` between them (only where the old path does not
/// already end in one); appending an item without a label leaves the path
/// unchanged. This holds for lists of every length.
pub proof fn lemma_path_appends_each_label(items: Seq<ShellItemView>, x: ShellItemView)
    ensures
        ({
            let p = spec_path(items);
            let q = spec_path(items.push(x));
            match x.display_label() {
                None => q == p,
                Some(n) => {
                    &&& p.len() + n.len() <= q.len() <= p.len() + n.len() + 1
                    &&& q.subrange(0, p.len() as int) == p
                    &&& q.subrange(q.len() - n.len(), q.len() as int) == n
                    &&& q.len() == p.len() + n.len() + 1 ==> (q[p.len() as int] == '\\'
                        && p.len() > 0 && p.last() != '\\')
                    &&& q.len() == p.len() + n.len() ==> (p.len() == 0 || p.last() == '\\')
                },
            }
        }),
{
    assert(items.push(x).drop_last() =~= items);
    let p = spec_path(items);
    let q = spec_path(items.push(x));
    if let Some(n) = x.display_label() {
        if p.len() == 0 || p.last() == '\\' {
            assert(q =~= p + n);
            assert(q.subrange(0, p.len() as int) =~= p);
            assert(q.subrange(q.len() - n.len(), q.len() as int) =~= n);
        } else {
            assert(q =~= p + seq!['\\'] + n);
            assert(q.subrange(0, p.len() as int) =~= p);
            assert(q.subrange(q.len() - n.len(), q.len() as int) =~= n);
        }
    }
}

/// The path is at least as long as all the labels together.
pub proof fn lemma_path_holds_every_label(items: Seq<ShellItemView>)
    ensures
        spec_path(items).len() >= label_total(items),
    decreases items.len(),
{
    if items.len() > 0 {
        lemma_path_holds_every_label(items.drop_last());
        lemma_path_appends_each_label(items.drop_last(), items.last());
        assert(items.drop_last().push(items.last()) =~= items);
    }
}

/// The total length of the items' display labels.
pub open spec fn label_total(items: Seq<ShellItemView>) -> int
    decreases items.len(),
{
    if items.len() == 0 {
        0
    } else {
        label_total(items.drop_last()) + match items.last().display_label() {
            Some(n) => n.len() as int,
            None => 0,
        }
    }
}

proof fn lemma_first_signature(raw: Seq<u8>, from: int)
    requires
        0 <= from,
    ensures
        match first_signature(raw, from) {
            Some(p) => {
                &&& from <= p
                &&& spec_le_u32(raw, p) == 0xBEEF_0004
                &&& forall|q: int| from <= q < p ==> spec_le_u32(raw, q) != 0xBEEF_0004
            },
            None => forall|q: int| from <= q ==> spec_le_u32(raw, q) != 0xBEEF_0004,
        },
    decreases raw.len() - from,
{
    if !(from < 0 || from + 4 > raw.len()) && !signature_at(raw, from) {
        lemma_first_signature(raw, from + 1);
    }
}

/// The extension block is found wherever one is signed, and only there: a
/// located block `b` has the `0xbeef0004` signature at `b + 4` and is either
/// the hinted offset or the earliest signed block from offset 0 on; no block
/// is located only when neither the hinted offset nor any offset of the item
/// carries the signature (a block starts four bytes before its signature,
/// so signatures from offset 4 on count).
pub proof fn lemma_locate_finds_signed_block(raw: Seq<u8>, hint: int)
    requires
        0 <= hint,
    ensures
        match spec_locate_beef0004(raw, hint) {
            Some(b) => {
                &&& 0 <= b
                &&& spec_le_u32(raw, b + 4) == 0xBEEF_0004
                &&& b == hint || forall|q: int|
                    4 <= q < b + 4 ==> #[trigger] spec_le_u32(raw, q) != 0xBEEF_0004
            },
            None => {
                &&& spec_le_u32(raw, hint + 4) != 0xBEEF_0004
                &&& forall|q: int| 4 <= q ==> #[trigger] spec_le_u32(raw, q) != 0xBEEF_0004
            },
        },
{
    lemma_first_signature(raw, 4);
}

/// A drive-letter volume item (`0x2F`) is named by its 20-byte field at
/// offset 3: the name is the bytes of that field up to its first NUL, at
/// most 20 of them, each a non-zero byte taken as its code point; there is no
/// name when the field is empty or starts with NUL.
pub proof fn lemma_volume_name_is_drive_field(raw: Seq<u8>)
    requires
        raw.len() >= 3,
        raw[2] == 0x2F,
    ensures
        ({
            let v = spec_decode_item(raw);
            let end = min_int(raw.len() as int, 23);
            &&& v.kind == ShellItemKind::Volume
            &&& match v.name {
                Some(n) => {
                    &&& 1 <= n.len() <= 20
                    &&& forall|i: int|
                        0 <= i < n.len() ==> #[trigger] n[i] as u32 == raw[3 + i] && raw[3 + i]
                            != 0
                    &&& 3 + n.len() == end || raw[3 + n.len() as int] == 0
                },
                None => raw.len() == 3 || raw[3] == 0,
            }
        }),
{
    reveal(spec_decode_item);
    reveal(spec_decode_volume);
    assert(0x2Fu8 & 0x70u8 == 0x20u8) by (bit_vector);
    let end = min_int(raw.len() as int, 23);
    let field = raw.take(end);
    reader::lemma_ascii_z_is_bytes_to_nul(field, 3);
    let t = spec_ascii_z(field, 3);
    assert forall|i: int| 0 <= i < t.len() implies #[trigger] t[i] as u32 == raw[3 + i] && raw[3
        + i] != 0 by {
        assert(field[3 + i] == raw[3 + i]);
    }
    if t.len() == 0 && raw.len() > 3 {
        assert(field[3] == raw[3]);
    }
    if t.len() > 0 && 3 + t.len() != end {
        assert(field[3 + t.len() as int] == raw[3 + t.len() as int]);
    }
}

proof fn lemma_frames_stop(data: Seq<u8>, pos: int)
    requires
        0 <= pos,
    ensures
        ({
            let c = pos + spec_frames(data, pos).flatten().len();
            !in_bounds(data, c, 2) || spec_le_u16(data, c) < 3 || c + spec_le_u16(data, c)
                > data.len()
        }),
    decreases data.len() - pos,
{
    let fs = spec_frames(data, pos);
    if fs.len() == 0 {
        assert(fs.flatten() =~= Seq::<u8>::empty());
    } else {
        let cb = spec_le_u16(data, pos) as int;
        assert(fs.drop_first() =~= spec_frames(data, pos + cb));
        assert(fs.first() == data.subrange(pos, pos + cb));
        lemma_frames_stop(data, pos + cb);
    }
}

/// Parsing stops only at the end of the list or at damage: right after the
/// last item's bytes, either fewer than two bytes remain, or the next `cb` is
/// below 3 (the `0` terminator among them), or it runs past the buffer.
pub proof fn lemma_parse_stops_only_at_end_or_damage(data: Seq<u8>)
    ensures
        ({
            let c = spec_parse_idlist(data).map_values(|v: ShellItemView| v.raw).flatten().len();
            c + 2 > data.len() || spec_le_u16(data, c as int) < 3 || c + spec_le_u16(
                data,
                c as int,
            ) > data.len()
        }),
{
    let fs = spec_frames(data, 0);
    let raws = spec_parse_idlist(data).map_values(|v: ShellItemView| v.raw);
    lemma_frames_shape(data, 0);
    assert forall|i: int| 0 <= i < fs.len() implies #[trigger] raws[i] == fs[i] by {
        lemma_decode_item_keeps_frame(fs[i]);
    }
    assert(raws =~= fs);
    lemma_frames_stop(data, 0);
}

/// A list that begins with the `cb == 0` terminator, or has fewer than two
/// bytes, holds no items, whatever follows.
pub proof fn lemma_terminator_ends_list(data: Seq<u8>)
    requires
        data.len() < 2 || spec_le_u16(data, 0) == 0,
    ensures
        spec_parse_idlist(data).len() == 0,
{
}

// ───────────────────────────── decoding ─────────────────────────────

/// Parse a Windows `ITEMIDLIST` (PIDL) blob into its sequence of shell items.
///
/// The list is a run of `ItemID { u16 cb; data[cb-2] }` records terminated by
/// a `cb == 0` item. Parsing is lenient: it stops at the terminator, at a
/// `cb` that would run past the end of the buffer, or at a `cb < 3` (which
/// cannot hold a class byte), returning whatever items were decoded so far.
#[must_use]
pub fn parse_idlist(data: &[u8]) -> (items: Vec<ShellItem>)
    ensures
        items@.len() == spec_parse_idlist(data@).len(),
        forall|i: int| 0 <= i < items@.len() ==> #[trigger] items@[i]@ == spec_parse_idlist(data@)[i],
{
    let mut items: Vec<ShellItem> = Vec::new();
    let mut pos: usize = 0;
    let ghost mut done: Seq<Seq<u8>> = seq![];
    while pos <= data.len() && data.len() - pos >= 2
        invariant_except_break
            pos <= data.len(),
            spec_frames(data@, 0) == done + spec_frames(data@, pos as int),
            items@.len() == done.len(),
            forall|i: int| 0 <= i < items@.len() ==> #[trigger] items@[i]@ == spec_decode_item(done[i]),
        ensures
            spec_frames(data@, 0) == done,
            items@.len() == done.len(),
            forall|i: int| 0 <= i < items@.len() ==> #[trigger] items@[i]@ == spec_decode_item(done[i]),
        decreases data.len() - pos,
    {
        let cb = reader::le_u16(data, pos) as usize;
        if cb == 0 {
            assert(done + spec_frames(data@, pos as int) =~= done);
            break;
        }
        if cb < 3 {
            assert(done + spec_frames(data@, pos as int) =~= done);
            break;
        }
        let end = match pos.checked_add(cb) {
            Some(e) if e <= data.len() => e,
            _ => {
                assert(done + spec_frames(data@, pos as int) =~= done);
                break;
            },
        };
        let raw = vstd::slice::slice_to_vec(vstd::slice::slice_subrange(data, pos, end));
        let class = raw[2];
        let ghost piece = data@.subrange(pos as int, end as int);
        assert(raw@ == piece);
        items.push(decode_item(class, raw));
        proof {
            assert(done + spec_frames(data@, pos as int) =~= done.push(piece) + spec_frames(
                data@,
                end as int,
            ));
            done = done.push(piece);
        }
        pos = end;
    }
    proof {
        if !(pos <= data.len() && data.len() - pos >= 2) {
            assert(done + spec_frames(data@, pos as int) =~= done);
        }
    }
    items
}

/// A freshly-constructed `ShellItem` with the given class/kind and the raw
/// bytes attached; every optional field starts empty.
fn blank(class: u8, kind: ShellItemKind, raw: Vec<u8>) -> (item: ShellItem)
    ensures
        item@ == blank_view(class, kind, raw@),
{
    ShellItem {
        class,
        kind,
        name: None,
        long_name: None,
        file_size: None,
        modified: None,
        created: None,
        accessed: None,
        mft_entry: None,
        mft_sequence: None,
        guid: None,
        raw,
    }
}

/// Whether `a` and `b` are equal up to ASCII case.
fn eq_ignore_ascii_case(a: &str, b: &str) -> (r: bool)
    ensures
        r == spec_eq_ignore_ascii_case(a@, b@),
{
    let n = a.unicode_len();
    if n != b.unicode_len() {
        return false;
    }
    let mut i: usize = 0;
    while i < n
        invariant
            n == a@.len() == b@.len(),
            i <= n,
            forall|j: int| 0 <= j < i ==> ascii_fold(#[trigger] a@[j]) == ascii_fold(b@[j]),
        decreases n - i,
    {
        let ca = a.get_char(i) as u32;
        let cb = b.get_char(i) as u32;
        let fa = if 0x41 <= ca && ca <= 0x5A {
            ca + 32
        } else {
            ca
        };
        let fb = if 0x41 <= cb && cb <= 0x5A {
            cb + 32
        } else {
            cb
        };
        if fa != fb {
            return false;
        }
        i = i + 1;
    }
    true
}

/// Map a well-known shell-folder GUID to its canonical display name. Only the
/// universally-stable My-Computer GUID is named here; every other GUID is
/// surfaced verbatim for the consumer to resolve.
fn known_folder_name(guid: &str) -> (r: Option<&'static str>)
    ensures
        crate::opt_str_view(r) == spec_known_folder_name(guid@),
{
    if eq_ignore_ascii_case(guid, knowledge::my_computer_guid()) {
        Some("My Computer")
    } else {
        None
    }
}

fn decode_item(class: u8, raw: Vec<u8>) -> (item: ShellItem)
    requires
        3 <= raw@.len() <= 0xFFFF,
        raw@[2] == class,
    ensures
        item@ == spec_decode_item(raw@),
{
    proof {
        reveal(spec_decode_item);
    }
    if forensicnomicon::shellbags::is_file_entry(class) {
        return decode_file_entry(class, raw);
    }
    if class == knowledge::class_root_folder() {
        decode_root(class, raw)
    } else if class == knowledge::class_volume_2e() || class == knowledge::class_volume_2f() {
        decode_volume(class, raw)
    } else if class == knowledge::class_network_location() {
        blank(class, ShellItemKind::Network, raw)
    } else if forensicnomicon::shellbags::major_class(class) == knowledge::major_class_uri() {
        blank(class, ShellItemKind::Uri, raw)
    } else if forensicnomicon::shellbags::major_class(class)
        == knowledge::major_class_control_panel() {
        blank(class, ShellItemKind::ControlPanel, raw)
    } else {
        blank(class, ShellItemKind::Unknown, raw)
    }
}

/// Decode a file-entry item (major class `0x30`). Reads the size, the FAT
/// modification time and the short name, then the trailing `0xbeef0004`
/// extension block (long name, create/access times, NTFS MFT reference).
fn decode_file_entry(class: u8, raw: Vec<u8>) -> (item: ShellItem)
    requires
        raw@.len() <= 0xFFFF,
    ensures
        item@ == spec_decode_file_entry(class, raw@),
{
    reveal(spec_decode_file_entry);
    // The size field (offsets 4..8) is absent from a truncated item.
    let file_size = if raw.len() >= 8 {
        Some(reader::le_u32(raw.as_slice(), 4))
    } else {
        None
    };
    let modified = fat_to_epoch(reader::le_u32(raw.as_slice(), 8));

    // Primary (short) name at offset 14: UTF-16 for the 0xb1 Unicode class,
    // single-byte for the classic classes.
    let (short, short_end) = if class == knowledge::class_file_entry_unicode() {
        let (s, units) = reader::utf16_z_counted(raw.as_slice(), 14);
        proof {
            lemma_utf16_units_len(raw@, 14);
        }
        let consumed = (units + 1) * 2;
        (s, 14 + consumed)
    } else {
        let s = reader::ascii_z(raw.as_slice(), 14);
        proof {
            lemma_ascii_z_len(raw@, 14);
            lemma_encode_utf8_len(s@);
        }
        // The name and its NUL, then 16-bit aligned.
        let mut end = 14 + s.as_str().len() + 1;
        if end % 2 != 0 {
            end = end + 1;
        }
        (s, end)
    };
    let mut item = blank(class, ShellItemKind::FileEntry, raw);
    item.file_size = file_size;
    item.modified = modified;
    if !short.as_str().is_empty() {
        item.name = Some(short);
    }
    parse_beef0004(&mut item, short_end);
    item
}

/// Parse the `0xbeef0004` file-entry extension block, if present, starting at
/// or near `block_start`: fills the long name, create/access timestamps and
/// the NTFS MFT reference.
fn parse_beef0004(item: &mut ShellItem, block_start: usize)
    requires
        old(item).raw@.len() <= 0xFFFF,
        block_start <= 0x10_0000,
    ensures
        final(item)@ == spec_beef0004(old(item)@, block_start as int),
{
    reveal(spec_beef0004);
    let block_off = match locate_beef0004(item.raw.as_slice(), block_start) {
        Some(b) => b,
        None => return ,
    };
    let version = reader::le_u16(item.raw.as_slice(), block_off + 2);
    let created = fat_to_epoch(reader::le_u32(item.raw.as_slice(), block_off + 8));
    let accessed = fat_to_epoch(reader::le_u32(item.raw.as_slice(), block_off + 12));

    // The long name's offset is relative to the start of the block.
    let long_name_offset = reader::le_u16(item.raw.as_slice(), block_off + 16) as usize;
    let mut long_name: Option<String> = None;
    if long_name_offset != 0 {
        if let Some(abs) = block_off.checked_add(long_name_offset) {
            let long = reader::utf16_z(item.raw.as_slice(), abs);
            if !long.as_str().is_empty() {
                long_name = Some(long);
            }
        }
    }
    // Version >= 7 carries 2 unknown bytes then the 8-byte NTFS file reference
    // (6-byte MFT entry index + 2-byte sequence number) at block+20.
    let mut file_ref: Option<(u64, u16)> = None;
    if version >= 7 {
        let entry = reader::le_u48(item.raw.as_slice(), block_off + 20);
        let seq = reader::le_u16(item.raw.as_slice(), block_off + 26);
        // A zero file reference is the "absent" sentinel.
        if entry != 0 || seq != 0 {
            file_ref = Some((entry, seq));
        }
    }
    item.created = created;
    item.accessed = accessed;
    if let Some(long) = long_name {
        item.long_name = Some(long);
    }
    if let Some((entry, seq)) = file_ref {
        item.mft_entry = Some(entry);
        item.mft_sequence = Some(seq);
    }
}

/// Locate the `0xbeef0004` extension block within a file-entry item. Tries the
/// computed `hint` offset first (verifying the signature at `hint + 4`), then
/// falls back to scanning for the signature; the block starts 4 bytes before
/// it. Returns `None` only when no valid block is found.
fn locate_beef0004(data: &[u8], hint: usize) -> (r: Option<usize>)
    requires
        data@.len() <= 0xFFFF,
        hint <= 0x10_0000,
    ensures
        match spec_locate_beef0004(data@, hint as int) {
            Some(b) => r == Some(b as usize) && 0 <= b < data@.len(),
            None => r is None,
        },
{
    let sig = knowledge::extension_block_beef0004();
    if reader::le_u32(data, hint + 4) == sig {
        return Some(hint);
    }
    // Fallback: scan for the signature; the block starts 4 bytes before it,
    // so a signature can only mark a block from offset 4 on.
    let mut p: usize = 4;
    while p <= data.len() && data.len() - p >= 4
        invariant
            4 <= p,
            first_signature(data@, 4) == first_signature(data@, p as int),
            data@.len() <= 0xFFFF,
            sig == 0xBEEF_0004,
            spec_le_u32(data@, hint + 4) != 0xBEEF_0004,
        decreases data.len() - p,
    {
        if reader::le_u32(data, p) == sig {
            return Some(p - 4);
        }
        p = p + 1;
    }
    None
}

/// Decode a volume item (`0x2e`/`0x2f`). For the drive-letter form (`0x2f`)
/// the 20-byte ASCII volume name starts at offset 3; the name is read up to
/// its first NUL and never past that field. The `0x2e` GUID form is
/// classified but not name-decoded.
fn decode_volume(class: u8, raw: Vec<u8>) -> (item: ShellItem)
    ensures
        item@ == spec_decode_volume(class, raw@),
{
    reveal(spec_decode_volume);
    let name = if class == knowledge::class_volume_2f() {
        let field_end = if raw.len() < 23 {
            raw.len()
        } else {
            23
        };
        let n = reader::ascii_z(vstd::slice::slice_subrange(raw.as_slice(), 0, field_end), 3);
        assert(raw@.subrange(0, field_end as int) =~= raw@.take(
            min_int(raw@.len() as int, 23),
        ));
        if !n.as_str().is_empty() {
            Some(n)
        } else {
            None
        }
    } else {
        None
    };
    let mut item = blank(class, ShellItemKind::Volume, raw);
    item.name = name;
    item
}

/// Decode a root / known-folder item (`0x1f`): a 1-byte sort index followed
/// by a 16-byte shell-folder GUID at offset 4.
fn decode_root(class: u8, raw: Vec<u8>) -> (item: ShellItem)
    ensures
        item@ == spec_decode_root(class, raw@),
{
    reveal(spec_decode_root);
    let g = reader::guid(raw.as_slice(), 4);
    let mut item = blank(class, ShellItemKind::Root, raw);
    if let Some(guid) = g {
        item.name = match known_folder_name(guid.as_str()) {
            Some(n) => Some(n.to_string()),
            None => None,
        };
        item.guid = Some(guid);
    }
    item
}

/// Reconstruct a human-readable path from a parsed item list by joining each
/// item's best display name with `\` (no separator is doubled: a name such as
/// `C:\` already ends with one). Items without a display name are skipped.
#[must_use]
pub fn reconstruct_path(items: &[ShellItem]) -> (path: String)
    ensures
        path@ == spec_path(items@.map_values(|it: ShellItem| it@)),
{
    let mut out = String::new();
    let mut last: Option<char> = None;
    let ghost views = items@.map_values(|it: ShellItem| it@);
    let mut i: usize = 0;
    while i < items.len()
        invariant
            i <= items.len(),
            views == items@.map_values(|it: ShellItem| it@),
            out@ == spec_path(views.take(i as int)),
            last == (if out@.len() == 0 {
                None::<char>
            } else {
                Some(out@.last())
            }),
        decreases items.len() - i,
    {
        proof {
            assert(views.take(i + 1).drop_last() =~= views.take(i as int));
        }
        proof {
            reveal_strlit("\\");
        }
        if let Some(name) = items[i].display_name() {
            let needs_sep = match last {
                Some(c) => c != '\\',
                None => false,
            };
            if needs_sep {
                out.append("\\");
                last = Some('\\');
            }
            out.append(name);
            let n = name.unicode_len();
            if n > 0 {
                last = Some(name.get_char(n - 1));
            }
        }
        i = i + 1;
    }
    proof {
        assert(views.take(items.len() as int) =~= views);
    }
    out
}

} // verus!
