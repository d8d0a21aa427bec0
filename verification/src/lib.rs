//! `shellitem` — a Windows Shell Item / `ITEMIDLIST` (PIDL) parser primitive.
//!
//! A Windows **`ITEMIDLIST`** (also "PIDL") is the binary form of a shell
//! path: a sequence of variable-length **shell items**, each one component of
//! the path, terminated by an empty item. The same structure appears inside a
//! `.lnk` file's `LinkTargetIDList`, registry ShellBags (`BagMRU`) values,
//! jump lists and elsewhere. This crate turns those bytes into typed
//! [`ShellItem`]s and, via [`reconstruct_path`], into a human-readable path
//! such as `My Computer\C:\Users\bob\secret.docx`.
//!
//! Parsing is total and bounds-checked: every function here is verified to
//! terminate without panicking on any input, and its result is stated
//! exactly by the spec functions it names (see [`parse::spec_parse_idlist`]).
//!
//! The byte layouts follow libyal `libfwsi`, *Windows Shell Item format*;
//! the class-type bytes, the major-class mask, the My-Computer GUID and the
//! `0xbeef0004` signature come from `forensicnomicon::shellbags`.

pub mod dosdate;
pub mod knowledge;
pub mod parse;
pub mod reader;

pub use parse::{parse_idlist, reconstruct_path};

use vstd::prelude::*;

verus! {

/// The decoded *kind* of a [`ShellItem`], naming the shell-item class family
/// the bytes belong to. Coarser than the raw `class` byte: several raw bytes
/// collapse into one kind (`0x31`/`0x32`/`0x35`/`0x36`/`0xb1` are all
/// [`ShellItemKind::FileEntry`]).
#[non_exhaustive]
#[derive(Debug, Clone, Copy, PartialEq, Eq, Structural)]
pub enum ShellItemKind {
    /// Root / known-folder item (`0x1f`) — carries a shell-folder GUID.
    Root,
    /// Volume / drive item (`0x2e`/`0x2f`) — carries a drive string (`C:\`).
    Volume,
    /// File or directory entry (major class `0x30`) — carries the short/long
    /// names, size, timestamps and (when present) the NTFS MFT reference.
    FileEntry,
    /// Network location / UNC share (`0xc3`).
    Network,
    /// URI / internet-shortcut item (major class `0x60`).
    Uri,
    /// Control-panel item (major class `0x70`).
    ControlPanel,
    /// A class whose layout is not decoded, or an unrecognised class byte.
    /// The raw bytes are preserved on the [`ShellItem`].
    Unknown,
}

/// One decoded shell item — a single component of an `ITEMIDLIST`.
///
/// Fields are populated on a best-effort, per-class basis; a field that does
/// not apply to the item's class, or that was absent/truncated in the bytes,
/// is `None`. The raw item bytes (including the `cb` size prefix) are always
/// retained in [`ShellItem::raw`].
#[non_exhaustive]
#[derive(Debug, Clone, PartialEq, Eq)]
pub struct ShellItem {
    /// The raw class-type indicator byte (offset 2 of the item).
    pub class: u8,
    /// The decoded class family.
    pub kind: ShellItemKind,
    /// The item's short / display name (DOS short name for a file entry, drive
    /// string for a volume, display label for a known root GUID).
    pub name: Option<String>,
    /// The long (Unicode) name from the `0xbeef0004` extension block.
    pub long_name: Option<String>,
    /// The file size for a file-entry item.
    pub file_size: Option<u32>,
    /// Last-modified timestamp (Unix epoch seconds, UTC).
    pub modified: Option<i64>,
    /// Creation timestamp (Unix epoch seconds, UTC) from the `0xbeef0004` block.
    pub created: Option<i64>,
    /// Last-access timestamp (Unix epoch seconds, UTC) from the `0xbeef0004` block.
    pub accessed: Option<i64>,
    /// NTFS MFT entry index (48-bit) from the `0xbeef0004` file reference.
    pub mft_entry: Option<u64>,
    /// NTFS MFT sequence number from the `0xbeef0004` file reference.
    pub mft_sequence: Option<u16>,
    /// Shell-folder GUID for a root item, in canonical upper-case form.
    pub guid: Option<String>,
    /// The full raw bytes of this item, including the 2-byte `cb` size prefix.
    pub raw: Vec<u8>,
}

/// The mathematical value of a [`ShellItem`]: strings as `char` sequences,
/// the raw bytes as a byte sequence.
pub struct ShellItemView {
    pub class: u8,
    pub kind: ShellItemKind,
    pub name: Option<Seq<char>>,
    pub long_name: Option<Seq<char>>,
    pub file_size: Option<u32>,
    pub modified: Option<i64>,
    pub created: Option<i64>,
    pub accessed: Option<i64>,
    pub mft_entry: Option<u64>,
    pub mft_sequence: Option<u16>,
    pub guid: Option<Seq<char>>,
    pub raw: Seq<u8>,
}

impl ShellItemView {
    /// The most specific label: long name, else short/display name, else GUID.
    pub open spec fn display_label(self) -> Option<Seq<char>> {
        if self.long_name is Some {
            self.long_name
        } else if self.name is Some {
            self.name
        } else {
            self.guid
        }
    }
}

impl View for ShellItem {
    type V = ShellItemView;

    open spec fn view(&self) -> ShellItemView {
        ShellItemView {
            class: self.class,
            kind: self.kind,
            name: reader::opt_string_view(self.name),
            long_name: reader::opt_string_view(self.long_name),
            file_size: self.file_size,
            modified: self.modified,
            created: self.created,
            accessed: self.accessed,
            mft_entry: self.mft_entry,
            mft_sequence: self.mft_sequence,
            guid: reader::opt_string_view(self.guid),
            raw: self.raw@,
        }
    }
}

/// The view of an optional string slice.
pub open spec fn opt_str_view(o: Option<&str>) -> Option<Seq<char>> {
    match o {
        Some(s) => Some(s@),
        None => None,
    }
}

impl ShellItem {
    /// The best available display name for this item, preferring the most
    /// specific: long name → short/display name → GUID. Returns `None` only
    /// when the item carries no usable label at all.
    #[must_use]
    pub fn display_name(&self) -> (r: Option<&str>)
        ensures
            opt_str_view(r) == self@.display_label(),
    {
        match &self.long_name {
            Some(s) => Some(s.as_str()),
            None => match &self.name {
                Some(s) => Some(s.as_str()),
                None => match &self.guid {
                    Some(s) => Some(s.as_str()),
                    None => None,
                },
            },
        }
    }
}

} // verus!
