//! Archive families, their version variants, and header sniffing.

use vstd::prelude::*;
use vstd::string::*;

use crate::error::{ArchiveError, Result};

verus! {

/// Supported Bethesda archive families.
#[derive(Debug, Clone, Copy, PartialEq, Eq, Structural)]
pub enum ArchiveFormat {
    /// Morrowind-era BSA archives.
    Tes3,
    /// Oblivion/Fallout 3/Skyrim-era BSA archives.
    Tes4,
    /// Fallout 4/Starfield BA2 archives.
    Fo4,
}

/// TES4-family BSA header versions, one per version number the format defines.
#[derive(Debug, Clone, Copy, PartialEq, Eq, Structural)]
pub enum Tes4FormatVersion {
    V103,
    V104,
    V105,
}

/// BA2 header versions, one per version number the format defines.
#[derive(Debug, Clone, Copy, PartialEq, Eq, Structural)]
pub enum Ba2FormatVersion {
    V1,
    V2,
    V3,
    V7,
    V8,
}

/// BA2 payload tables: general files, DirectX textures, or console textures.
#[derive(Debug, Clone, Copy, PartialEq, Eq, Structural)]
pub enum Ba2PayloadKind {
    Gnrl,
    Dx10,
    Gnmf,
}

/// Name used for a format in human output and scripting contracts.
pub open spec fn spec_format_name(format: ArchiveFormat) -> Seq<char> {
    match format {
        ArchiveFormat::Tes3 => "tes3"@,
        ArchiveFormat::Tes4 => "tes4"@,
        ArchiveFormat::Fo4 => "ba2"@,
    }
}

pub fn format_name(format: ArchiveFormat) -> (name: &'static str)
    ensures
        name@ == spec_format_name(format),
{
    match format {
        ArchiveFormat::Tes3 => "tes3",
        ArchiveFormat::Tes4 => "tes4",
        ArchiveFormat::Fo4 => "ba2",
    }
}

/// The family that `dream_archive::guess_format` recognizes from the first four
/// bytes of an archive.
pub open spec fn spec_sniff(header: Seq<u8>) -> Option<ArchiveFormat> {
    if header[0] == 66u8 && header[1] == 84u8 && header[2] == 68u8 && header[3] == 88u8 {
        Some(ArchiveFormat::Fo4)
    } else if header[0] == 66u8 && header[1] == 83u8 && header[2] == 65u8 && header[3] == 0u8 {
        Some(ArchiveFormat::Tes4)
    } else if header[0] == 0u8 && header[1] == 1u8 && header[2] == 0u8 && header[3] == 0u8 {
        Some(ArchiveFormat::Tes3)
    } else {
        None
    }
}

/// Calls `dream_archive::guess_format` on the header bytes. Its source reads exactly
/// four bytes (an I/O error when fewer are there) and matches them against `BTDX`,
/// `BSA\0` and `00 01 00 00`; the three families are mapped one to one.
#[verifier::external_body]
fn sniff_header(header: &[u8]) -> (r: core::result::Result<Option<ArchiveFormat>, std::io::Error>)
    ensures
        r is Err <==> header@.len() < 4,
        r matches Ok(f) ==> f == spec_sniff(header@),
{
    let mut reader = header;
    match dream_archive::guess_format(&mut reader) {
        Ok(Some(dream_archive::FileFormat::BA2)) => Ok(Some(ArchiveFormat::Fo4)),
        Ok(Some(dream_archive::FileFormat::BSA(dream_archive::BsaFormat::TES3))) => Ok(
            Some(ArchiveFormat::Tes3),
        ),
        Ok(Some(dream_archive::FileFormat::BSA(dream_archive::BsaFormat::TES4))) => Ok(
            Some(ArchiveFormat::Tes4),
        ),
        Ok(None) => Ok(None),
        Err(err) => Err(err),
    }
}

/// Message for a header that could not be read.
pub open spec fn header_error_text(label: Seq<char>, detail: Seq<char>) -> Seq<char> {
    "failed to read archive header '"@ + label + "': "@ + detail
}

/// Detect an archive format from the leading bytes of the archive at `label`.
pub fn guess_format(label: &str, header: &[u8]) -> (r: Result<ArchiveFormat>)
    ensures
        header@.len() >= 4 && spec_sniff(header@) is Some ==> (r matches Ok(f) && f == spec_sniff(header@)->0),
        header@.len() >= 4 && spec_sniff(header@) is None ==> r matches Err(ArchiveError::UnknownFormat),
        header@.len() < 4 ==> (r matches Err(ArchiveError::Archive(m)) && exists|detail: Seq<char>| m@ == header_error_text(label@, detail)),
{
    match sniff_header(header) {
        Ok(Some(format)) => Ok(format),
        Ok(None) => Err(ArchiveError::UnknownFormat),
        Err(err) => {
            let detail = err.to_string();
            let mut message = String::from_str("failed to read archive header '");
            message.append(label);
            message.append("': ");
            message.append(detail.as_str());
            assert(message@ == header_error_text(label@, detail@));
            Err(ArchiveError::Archive(message))
        },
    }
}

} // verus!
