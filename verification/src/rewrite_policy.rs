//! Whether an archive can be rewritten without losing paths or format semantics.
//! `info`, dry-run planning and real updates all ask this one question here.

use vstd::prelude::*;
use vstd::string::*;

use crate::error::{ArchiveError, Result};
use crate::format::Ba2PayloadKind;
use crate::loaded::{IndexView, LoadedArchive};

verus! {

/// TES4 archive flag: folder-name string table present.
pub const TES4_DIRECTORY_STRINGS: u32 = 1u32;
/// TES4 archive flag: file-name string table present.
pub const TES4_FILE_STRINGS: u32 = 2u32;
/// TES4 archive flag: records are compressed by default.
pub const TES4_COMPRESSED: u32 = 4u32;
/// TES4 archive flag: full paths embedded before payloads.
pub const TES4_EMBEDDED_FILE_NAMES: u32 = 256u32;
/// Flag bits a rewrite can reproduce.
pub const TES4_REWRITABLE_ARCHIVE_FLAGS: u32 = 263u32;

pub open spec fn spec_tes4_has_recoverable_path_storage(flags: u32) -> bool {
    (flags & 1u32 != 0 && flags & 2u32 != 0) || flags & 256u32 != 0
}

pub open spec fn spec_tes4_unsupported_archive_flag_bits(flags: u32) -> u32 {
    flags & !263u32
}

/// Names can be recovered from string tables (both of them) or from embedded names.
pub fn tes4_has_recoverable_path_storage(flags: u32) -> (b: bool)
    ensures
        b == spec_tes4_has_recoverable_path_storage(flags),
{
    let has_directory_strings = flags & TES4_DIRECTORY_STRINGS != 0;
    let has_file_strings = flags & TES4_FILE_STRINGS != 0;
    let has_embedded_names = flags & TES4_EMBEDDED_FILE_NAMES != 0;
    (has_directory_strings && has_file_strings) || has_embedded_names
}

/// Header flag bits outside the ones a rewrite reproduces.
pub fn tes4_unsupported_archive_flag_bits(flags: u32) -> (bits: u32)
    ensures
        bits == spec_tes4_unsupported_archive_flag_bits(flags),
{
    flags & !TES4_REWRITABLE_ARCHIVE_FLAGS
}

pub open spec fn unnameable_entries_blocker() -> Seq<char> {
    "archive contains entries without recoverable paths; refusing to rewrite it lossy"@
}

pub open spec fn tes4_hash_only_blocker() -> Seq<char> {
    "TES4 hash-only archives do not have recoverable path names; refusing to rewrite them lossy"@
}

pub open spec fn tes4_unsupported_flags_blocker() -> Seq<char> {
    "TES4 archive uses header flag bits this tool cannot preserve; refusing to rewrite it lossy"@
}

pub open spec fn gnmf_blocker() -> Seq<char> {
    "creating or updating GNMF BA2 archives requires console texture swizzle semantics and is not supported by dream_archive"@
}

/// The reason an archive with this index cannot be rewritten safely, if any.
pub open spec fn spec_rewrite_blocker(index: IndexView) -> Option<Seq<char>> {
    if index.entries.len() != index.file_count {
        Some(unnameable_entries_blocker())
    } else if index.tes4 matches Some(s) && !spec_tes4_has_recoverable_path_storage(s.2) {
        Some(tes4_hash_only_blocker())
    } else if index.tes4 matches Some(s) && spec_tes4_unsupported_archive_flag_bits(s.2) != 0 {
        Some(tes4_unsupported_flags_blocker())
    } else if index.ba2 matches Some(s) && s.0 == Ba2PayloadKind::Gnmf {
        Some(gnmf_blocker())
    } else {
        None
    }
}

/// A fully named TES4 archive whose paths can be recovered (both string tables,
/// or embedded names) is blocked only by header flag bits other than directory
/// strings (1), file strings (2), compressed (4) and embedded names (256): with
/// no other bit set it can be rewritten, so a compressed archive with string
/// tables (flags 0x7) can; with any other bit set the flags block the rewrite.
pub proof fn law_tes4_flag_bits_decide_rewrite(index: IndexView, flags: u32)
    requires
        index.entries.len() == index.file_count,
        index.tes4 matches Some(s) && s.2 == flags,
        (flags & 1u32 != 0 && flags & 2u32 != 0) || flags & 256u32 != 0,
        index.ba2 is None,
    ensures
        flags & !(1u32 | 2u32 | 4u32 | 256u32) == 0 ==> spec_rewrite_blocker(index) is None,
        flags & !(1u32 | 2u32 | 4u32 | 256u32) != 0 ==> spec_rewrite_blocker(index) == Some(tes4_unsupported_flags_blocker()),
{
    assert(flags & !263u32 == flags & !(1u32 | 2u32 | 4u32 | 256u32)) by (bit_vector);
}

/// Return the reason the archive cannot be rewritten safely, if this tool knows one.
pub fn rewrite_blocker(archive: &LoadedArchive) -> (blocker: Option<&'static str>)
    ensures
        blocker matches Some(b) ==> spec_rewrite_blocker(archive@) == Some(b@),
        blocker is None ==> spec_rewrite_blocker(archive@) is None,
{
    if archive.has_unnameable_entries() {
        return Some("archive contains entries without recoverable paths; refusing to rewrite it lossy");
    }
    match archive.tes4_settings() {
        Some(settings) => {
            if !tes4_has_recoverable_path_storage(settings.2) {
                return Some("TES4 hash-only archives do not have recoverable path names; refusing to rewrite them lossy");
            }
            if tes4_unsupported_archive_flag_bits(settings.2) != 0 {
                return Some("TES4 archive uses header flag bits this tool cannot preserve; refusing to rewrite it lossy");
            }
        },
        None => {},
    }
    match archive.ba2_settings() {
        Some(settings) => {
            if settings.0 == Ba2PayloadKind::Gnmf {
                return Some("creating or updating GNMF BA2 archives requires console texture swizzle semantics and is not supported by dream_archive");
            }
        },
        None => {},
    }
    None
}

/// Reject a BA2 payload table that this tool cannot write.
pub fn ensure_ba2_payload_format_writable(kind: Ba2PayloadKind) -> (r: Result<()>)
    ensures
        r is Ok <==> kind != Ba2PayloadKind::Gnmf,
        r matches Err(e) ==> e matches ArchiveError::Archive(m) && m@ == gnmf_blocker(),
{
    if kind == Ba2PayloadKind::Gnmf {
        return Err(ArchiveError::Archive(String::from_str("creating or updating GNMF BA2 archives requires console texture swizzle semantics and is not supported by dream_archive")));
    }
    Ok(())
}

/// Reject archives whose rewrite would be lossy or rely on unsupported semantics.
pub fn ensure_rewritable(archive: &LoadedArchive) -> (r: Result<()>)
    ensures
        r is Ok <==> spec_rewrite_blocker(archive@) is None,
        r matches Err(e) ==> e matches ArchiveError::Archive(m) && spec_rewrite_blocker(archive@) == Some(m@),
{
    match rewrite_blocker(archive) {
        Some(blocker) => Err(ArchiveError::Archive(String::from_str(blocker))),
        None => Ok(()),
    }
}

} // verus!
