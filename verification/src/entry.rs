//! Listed archive entries as reported to people and scripts.

use vstd::prelude::*;

use crate::error::Result;
use crate::loaded::{spec_open_index, LoadedArchive};

verus! {

/// A single file entry listed from an archive.
#[derive(Debug, Clone)]
#[non_exhaustive]
pub struct ArchiveEntry {
    /// Normalized archive path using `/` separators, converted lossily for display.
    pub path: String,
    /// Hex-encoded normalized archive path bytes for scriptable lookup, not raw identity.
    pub path_bytes_hex: String,
    /// Decompressed size when known.
    pub size: Option<u64>,
    /// Compressed size when the entry is stored compressed and the format exposes it.
    pub compressed_size: Option<u64>,
}

/// What a listed entry says, as mathematical values.
pub struct ArchiveEntryView {
    pub path: Seq<char>,
    pub path_bytes_hex: Seq<char>,
    pub size: Option<u64>,
    pub compressed_size: Option<u64>,
}

impl View for ArchiveEntry {
    type V = ArchiveEntryView;

    open spec fn view(&self) -> ArchiveEntryView {
        ArchiveEntryView {
            path: self.path@,
            path_bytes_hex: self.path_bytes_hex@,
            size: self.size,
            compressed_size: self.compressed_size,
        }
    }
}

/// List all entries of the archive whose bytes were read from `label`.
pub fn list_entries(label: &str, bytes: Vec<u8>) -> (r: Result<Vec<ArchiveEntry>>)
    ensures
        r is Ok <==> spec_open_index(bytes@) is Some,
        r matches Ok(listed) ==> listed@.map_values(|e: ArchiveEntry| e@)
            == crate::loaded::spec_public_entries(spec_open_index(bytes@)->0.index.entries),
{
    let archive = LoadedArchive::open(label, bytes)?;
    Ok(archive.list_entries())
}

} // verus!
