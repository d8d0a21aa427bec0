//! Shell-item format constants and class predicates, read from
//! `forensicnomicon::shellbags`.

use vstd::prelude::*;

verus! {

/// The major-class mask `0x70` applied to a class-type indicator byte.
pub open spec fn spec_major_class(class: u8) -> u8 {
    class & 0x70u8
}

/// `forensicnomicon::shellbags::major_class` masks the class-type indicator
/// byte with `CLASS_TYPE_MASK` (`0x70`).
pub assume_specification[forensicnomicon::shellbags::major_class](class_type_indicator: u8) -> (r: u8)
    ensures
        r == spec_major_class(class_type_indicator),
;

/// `forensicnomicon::shellbags::is_file_entry` holds exactly when the major
/// class of the byte is `MAJOR_CLASS_FILE_ENTRY` (`0x30`).
pub assume_specification[forensicnomicon::shellbags::is_file_entry](class_type_indicator: u8) -> (r: bool)
    ensures
        r == (spec_major_class(class_type_indicator) == 0x30u8),
;

/// Reads `forensicnomicon::shellbags::CLASS_ROOT_FOLDER`, the root-folder
/// class byte `0x1F`.
#[verifier::external_body]
pub(crate) fn class_root_folder() -> (c: u8)
    ensures
        c == 0x1F,
{
    forensicnomicon::shellbags::CLASS_ROOT_FOLDER
}

/// Reads `forensicnomicon::shellbags::CLASS_VOLUME_2E`, the volume class byte
/// `0x2E`.
#[verifier::external_body]
pub(crate) fn class_volume_2e() -> (c: u8)
    ensures
        c == 0x2E,
{
    forensicnomicon::shellbags::CLASS_VOLUME_2E
}

/// Reads `forensicnomicon::shellbags::CLASS_VOLUME_2F`, the drive-letter
/// volume class byte `0x2F`.
#[verifier::external_body]
pub(crate) fn class_volume_2f() -> (c: u8)
    ensures
        c == 0x2F,
{
    forensicnomicon::shellbags::CLASS_VOLUME_2F
}

/// Reads `forensicnomicon::shellbags::CLASS_FILE_ENTRY_UNICODE`, the file-entry
/// class byte `0xB1` whose primary name is UTF-16.
#[verifier::external_body]
pub(crate) fn class_file_entry_unicode() -> (c: u8)
    ensures
        c == 0xB1,
{
    forensicnomicon::shellbags::CLASS_FILE_ENTRY_UNICODE
}

/// Reads `forensicnomicon::shellbags::CLASS_NETWORK_LOCATION`, the network
/// location class byte `0xC3`.
#[verifier::external_body]
pub(crate) fn class_network_location() -> (c: u8)
    ensures
        c == 0xC3,
{
    forensicnomicon::shellbags::CLASS_NETWORK_LOCATION
}

/// Reads `forensicnomicon::shellbags::MAJOR_CLASS_URI`, the URI major class
/// `0x60`.
#[verifier::external_body]
pub(crate) fn major_class_uri() -> (c: u8)
    ensures
        c == 0x60,
{
    forensicnomicon::shellbags::MAJOR_CLASS_URI
}

/// Reads `forensicnomicon::shellbags::MAJOR_CLASS_CONTROL_PANEL`, the
/// control-panel major class `0x70`.
#[verifier::external_body]
pub(crate) fn major_class_control_panel() -> (c: u8)
    ensures
        c == 0x70,
{
    forensicnomicon::shellbags::MAJOR_CLASS_CONTROL_PANEL
}

/// Reads `forensicnomicon::shellbags::EXTENSION_BLOCK_0XBEEF0004`, the
/// file-entry extension block signature `0xBEEF0004`.
#[verifier::external_body]
pub(crate) fn extension_block_beef0004() -> (c: u32)
    ensures
        c == 0xBEEF_0004,
{
    forensicnomicon::shellbags::EXTENSION_BLOCK_0XBEEF0004
}

/// The text of the My-Computer shell-folder GUID.
pub open spec fn my_computer_guid_text() -> Seq<char> {
    "20D04FE0-3AEA-1069-A2D8-08002B30309D"@
}

/// Reads `forensicnomicon::shellbags::MY_COMPUTER_GUID`, the My-Computer
/// GUID `20D04FE0-3AEA-1069-A2D8-08002B30309D`.
#[verifier::external_body]
pub(crate) fn my_computer_guid() -> (g: &'static str)
    ensures
        g@ == my_computer_guid_text(),
{
    forensicnomicon::shellbags::MY_COMPUTER_GUID
}

} // verus!
