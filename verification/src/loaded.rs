//! An opened archive: the parsed `dream_archive` value plus the plain index that
//! every policy decision reads.

use vstd::prelude::*;
use vstd::string::*;

use crate::entry::{ArchiveEntry, ArchiveEntryView};
use crate::error::{ArchiveError, Result};
use crate::format::{ArchiveFormat, Ba2FormatVersion, Ba2PayloadKind, Tes4FormatVersion};
use crate::paths::{
    archive_path_bytes_to_display, archive_path_bytes_to_hex, normalize_archive_path_bytes,
    law_normalize_idempotent, spec_hex_chars, spec_lossy_display, spec_normalize,
};

verus! {

// ---------------------------------------------------------------------------
// The outside archive and what this crate reads of it
// ---------------------------------------------------------------------------

/// A parsed archive of any family, carried through opaquely.
#[verifier::external_type_specification]
#[verifier::external_body]
pub struct ExDreamArchive(dream_archive::Archive);

/// Errors of `dream_archive`'s top-level archive facade.
#[verifier::external_type_specification]
#[verifier::external_body]
pub struct ExDreamArchiveError(dream_archive::Error);

/// The archive `dream_archive::Archive::from_vec` parses from `bytes`, or `None`
/// when it reports an error.
pub uninterp spec fn spec_parse_archive(bytes: Seq<u8>) -> Option<dream_archive::Archive>;

/// The family of a parsed archive.
pub uninterp spec fn spec_archive_family(archive: dream_archive::Archive) -> ArchiveFormat;

/// TES3 entries in archive table order: stored path bytes and file-record size;
/// `None` for archives of another family.
pub uninterp spec fn spec_tes3_records(archive: dream_archive::Archive) -> Option<Seq<(Seq<u8>, u32)>>;

/// TES4 entries in archive table order: stored path (absent for hash-only entries),
/// stored size, and whether the record is compressed under the archive flags.
pub uninterp spec fn spec_tes4_records(archive: dream_archive::Archive) -> Option<Seq<(Option<Seq<u8>>, u32, bool)>>;

/// BA2 entries in archive table order: stored name and, per chunk, its
/// decompressed size, packed size and compression flag.
pub uninterp spec fn spec_ba2_records(archive: dream_archive::Archive) -> Option<Seq<(Seq<u8>, Seq<(u32, u32, bool)>)>>;

/// TES4 header settings: version, archive-type bits, archive-flag bits.
pub uninterp spec fn spec_tes4_settings(archive: dream_archive::Archive) -> Option<(Tes4FormatVersion, u16, u32)>;

/// The payload table kind of a BA2 header; `None` for archives of another family.
pub uninterp spec fn spec_ba2_payload_kind(archive: dream_archive::Archive) -> Option<Ba2PayloadKind>;

/// The version of a BA2 header; `None` for archives of another family.
pub uninterp spec fn spec_ba2_version(archive: dream_archive::Archive) -> Option<Ba2FormatVersion>;

/// BA2 header settings: payload table kind and version.
pub open spec fn spec_ba2_settings(archive: dream_archive::Archive) -> Option<(Ba2PayloadKind, Ba2FormatVersion)> {
    match (spec_ba2_payload_kind(archive), spec_ba2_version(archive)) {
        (Some(k), Some(v)) => Some((k, v)),
        _ => None,
    }
}

/// What `Archive::read_file` gives for a lookup path: `None` for an error,
/// `Some(None)` for an absent member, `Some(Some(bytes))` for its payload.
pub uninterp spec fn spec_read_file(archive: dream_archive::Archive, path: Seq<u8>) -> Option<Option<Seq<u8>>>;

/// Calls `dream_archive::Archive::from_vec`.
#[verifier::external_body]
fn parse_archive(bytes: Vec<u8>) -> (r: core::result::Result<dream_archive::Archive, dream_archive::Error>)
    ensures
        r matches Ok(a) ==> spec_parse_archive(bytes@) == Some(a),
        r is Err ==> spec_parse_archive(bytes@) is None,
{
    dream_archive::Archive::from_vec(bytes)
}

/// Calls `Archive::format`, mapping its three families one to one.
#[verifier::external_body]
fn archive_family(archive: &dream_archive::Archive) -> (family: ArchiveFormat)
    ensures
        family == spec_archive_family(*archive),
{
    match archive.format() {
        dream_archive::FileFormat::BSA(dream_archive::BsaFormat::TES3) => ArchiveFormat::Tes3,
        dream_archive::FileFormat::BSA(dream_archive::BsaFormat::TES4) => ArchiveFormat::Tes4,
        dream_archive::FileFormat::BA2 => ArchiveFormat::Fo4,
    }
}

/// Reads `Entry::path` and `Entry::file().size` of every TES3 entry.
#[verifier::external_body]
fn tes3_records(archive: &dream_archive::Archive) -> (records: Option<Vec<(Vec<u8>, u32)>>)
    ensures
        records.deep_view() == spec_tes3_records(*archive),
{
    match archive {
        dream_archive::Archive::Tes3Bsa(a) => Some(
            a.entries().iter().map(|e| (e.path().to_vec(), e.file().size)).collect(),
        ),
        _ => None,
    }
}

/// Reads `Entry::path`, `FileRecord::stored_size` and `FileRecord::is_compressed`
/// (under the header's archive flags) of every TES4 entry.
#[verifier::external_body]
fn tes4_records(archive: &dream_archive::Archive) -> (records: Option<Vec<(Option<Vec<u8>>, u32, bool)>>)
    ensures
        records.deep_view() == spec_tes4_records(*archive),
{
    match archive {
        dream_archive::Archive::Tes4Bsa(a) => Some(
            a.entries().iter().map(|e| (e.path().map(|p| p.to_vec()), e.file().stored_size,
                e.file().is_compressed(a.info().archive_flags))).collect(),
        ),
        _ => None,
    }
}

/// Reads `Entry::name` and the `size`, `packed_size` and `is_compressed` of every
/// chunk of every BA2 entry.
#[verifier::external_body]
fn ba2_records(archive: &dream_archive::Archive) -> (records: Option<Vec<(Vec<u8>, Vec<(u32, u32, bool)>)>>)
    ensures
        records.deep_view() == spec_ba2_records(*archive),
{
    match archive {
        dream_archive::Archive::BA2(a) => Some(
            a.entries().iter().map(|e| (e.name().to_vec(), e.file().chunks().iter().map(
                |c| (c.size(), c.packed_size(), c.is_compressed())).collect())).collect(),
        ),
        _ => None,
    }
}

/// Reads the version, archive-type bits and archive-flag bits of a TES4 header.
#[verifier::external_body]
fn tes4_settings(archive: &dream_archive::Archive) -> (settings: Option<(Tes4FormatVersion, u16, u32)>)
    ensures
        settings == spec_tes4_settings(*archive),
{
    match archive {
        dream_archive::Archive::Tes4Bsa(a) => {
            let info = a.info();
            let version = match info.version {
                dream_archive::bsa::tes4::ArchiveVersion::v103 => Tes4FormatVersion::V103,
                dream_archive::bsa::tes4::ArchiveVersion::v104 => Tes4FormatVersion::V104,
                dream_archive::bsa::tes4::ArchiveVersion::v105 => Tes4FormatVersion::V105,
            };
            Some((version, info.archive_types.bits(), info.archive_flags.bits()))
        },
        _ => None,
    }
}

/// Reads `ArchiveInfo::format` of a BA2 header, mapping the three payload
/// formats one to one.
#[verifier::external_body]
fn ba2_payload_kind(archive: &dream_archive::Archive) -> (kind: Option<Ba2PayloadKind>)
    ensures
        kind == spec_ba2_payload_kind(*archive),
{
    match archive {
        dream_archive::Archive::BA2(a) => Some(match a.info().format {
            dream_archive::ba2::PayloadFormat::GNRL => Ba2PayloadKind::Gnrl,
            dream_archive::ba2::PayloadFormat::DX10 => Ba2PayloadKind::Dx10,
            dream_archive::ba2::PayloadFormat::GNMF => Ba2PayloadKind::Gnmf,
        }),
        _ => None,
    }
}

/// Reads `ArchiveInfo::version` of a BA2 header, mapping the five versions one to one.
#[verifier::external_body]
fn ba2_version(archive: &dream_archive::Archive) -> (version: Option<Ba2FormatVersion>)
    ensures
        version == spec_ba2_version(*archive),
{
    match archive {
        dream_archive::Archive::BA2(a) => Some(match a.info().version {
            dream_archive::ba2::ArchiveVersion::v1 => Ba2FormatVersion::V1,
            dream_archive::ba2::ArchiveVersion::v2 => Ba2FormatVersion::V2,
            dream_archive::ba2::ArchiveVersion::v3 => Ba2FormatVersion::V3,
            dream_archive::ba2::ArchiveVersion::v7 => Ba2FormatVersion::V7,
            dream_archive::ba2::ArchiveVersion::v8 => Ba2FormatVersion::V8,
        }),
        _ => None,
    }
}

/// The payload format and version of a BA2 header.
fn ba2_settings(archive: &dream_archive::Archive) -> (settings: Option<(Ba2PayloadKind, Ba2FormatVersion)>)
    ensures
        settings == spec_ba2_settings(*archive),
{
    match (ba2_payload_kind(archive), ba2_version(archive)) {
        (Some(k), Some(v)) => Some((k, v)),
        _ => None,
    }
}

/// Calls `Archive::read_file`. The crate documentation says every family matches a
/// lookup path after `dream_path` normalization, so the outcome for `path` is also
/// the outcome for its normalized spelling. Each family's source builds its lookup
/// from the `dream_path`-normalized names of its named entries (every TES3 entry,
/// TES4 entries with a stored path, BA2 entries with a non-empty name) and, when
/// there is at least one such name or the archive is TES3, finds a path exactly when
/// its normalized spelling is one of them; otherwise (no names) it looks up hashes,
/// of which nothing is said here.
#[verifier::external_body]
fn read_file(archive: &dream_archive::Archive, path: &[u8]) -> (r: core::result::Result<Option<Vec<u8>>, dream_archive::Error>)
    ensures
        spec_archive_index(*archive) matches Some(index) ==> (looked_up_by_name(index)
            ==> (r matches Ok(None) <==> !listed_key(index.entries, spec_normalize(path@)))),
        r matches Ok(v) ==> spec_read_file(*archive, path@) == Some(v.deep_view())
            && spec_read_file(*archive, spec_normalize(path@)) == Some(v.deep_view()),
        r is Err ==> spec_read_file(*archive, path@) is None
            && spec_read_file(*archive, spec_normalize(path@)) is None,
{
    archive.read_file(path)
}

// ---------------------------------------------------------------------------
// The plain index
// ---------------------------------------------------------------------------

/// One named archive entry as policy code sees it.
#[derive(Debug)]
pub struct LoadedEntry {
    /// Path bytes as stored in the archive.
    pub raw_path: Vec<u8>,
    /// Normalized lookup key.
    pub path: Vec<u8>,
    pub size: Option<u64>,
    pub compressed_size: Option<u64>,
}

pub struct EntryView {
    pub raw_path: Seq<u8>,
    pub path: Seq<u8>,
    pub size: Option<u64>,
    pub compressed_size: Option<u64>,
}

impl View for LoadedEntry {
    type V = EntryView;

    open spec fn view(&self) -> EntryView {
        EntryView {
            raw_path: self.raw_path@,
            path: self.path@,
            size: self.size,
            compressed_size: self.compressed_size,
        }
    }
}

/// Everything an opened archive says that policy code reads.
pub struct IndexView {
    pub format: ArchiveFormat,
    /// Number of entries of the archive, named or not.
    pub file_count: nat,
    /// Named entries in archive table order.
    pub entries: Seq<EntryView>,
    pub tes4: Option<(Tes4FormatVersion, u16, u32)>,
    pub ba2: Option<(Ba2PayloadKind, Ba2FormatVersion)>,
}

pub open spec fn named_entry(raw: Seq<u8>, size: Option<u64>, compressed_size: Option<u64>) -> EntryView {
    EntryView { raw_path: raw, path: spec_normalize(raw), size, compressed_size }
}

/// TES3: every entry is named; its size is the file-record size.
pub open spec fn tes3_index(records: Seq<(Seq<u8>, u32)>) -> Seq<EntryView> {
    records.map_values(|r: (Seq<u8>, u32)| named_entry(r.0, Some(r.1 as u64), None))
}

/// TES4: entries without a stored path are left out; the stored size is reported
/// as the compressed size when the record is compressed.
pub open spec fn tes4_index(records: Seq<(Option<Seq<u8>>, u32, bool)>) -> Seq<EntryView>
    decreases records.len(),
{
    if records.len() == 0 {
        seq![]
    } else {
        let init = tes4_index(records.drop_last());
        let r = records.last();
        match r.0 {
            Some(p) => init.push(named_entry(p, None, if r.2 { Some(r.1 as u64) } else { None })),
            None => init,
        }
    }
}

/// Sum of the decompressed chunk sizes, with 64-bit wrap-around.
pub open spec fn chunk_size_sum(chunks: Seq<(u32, u32, bool)>) -> u64
    decreases chunks.len(),
{
    if chunks.len() == 0 {
        0
    } else {
        vstd::wrapping::u64_specs::wrapping_add(chunk_size_sum(chunks.drop_last()), chunks.last().0 as u64)
    }
}

/// Sum of the packed sizes of compressed chunks, with 64-bit wrap-around.
pub open spec fn chunk_packed_sum(chunks: Seq<(u32, u32, bool)>) -> u64
    decreases chunks.len(),
{
    if chunks.len() == 0 {
        0
    } else if chunks.last().2 {
        vstd::wrapping::u64_specs::wrapping_add(chunk_packed_sum(chunks.drop_last()), chunks.last().1 as u64)
    } else {
        chunk_packed_sum(chunks.drop_last())
    }
}

/// BA2: entries with an empty name are left out; sizes are chunk sums, and the
/// compressed size is reported only when it is not zero.
pub open spec fn ba2_index(records: Seq<(Seq<u8>, Seq<(u32, u32, bool)>)>) -> Seq<EntryView>
    decreases records.len(),
{
    if records.len() == 0 {
        seq![]
    } else {
        let init = ba2_index(records.drop_last());
        let r = records.last();
        if r.0.len() == 0 {
            init
        } else {
            let packed = chunk_packed_sum(r.1);
            init.push(named_entry(r.0, Some(chunk_size_sum(r.1)), if packed > 0 { Some(packed) } else { None }))
        }
    }
}

/// The index of a parsed archive, or `None` when its family-specific tables are
/// not readable as that family.
pub open spec fn spec_archive_index(a: dream_archive::Archive) -> Option<IndexView> {
    match spec_archive_family(a) {
        ArchiveFormat::Tes3 => match spec_tes3_records(a) {
            Some(r) => Some(IndexView { format: ArchiveFormat::Tes3, file_count: r.len(), entries: tes3_index(r), tes4: None, ba2: None }),
            None => None,
        },
        ArchiveFormat::Tes4 => match (spec_tes4_records(a), spec_tes4_settings(a)) {
            (Some(r), Some(s)) => Some(IndexView { format: ArchiveFormat::Tes4, file_count: r.len(), entries: tes4_index(r), tes4: Some(s), ba2: None }),
            _ => None,
        },
        ArchiveFormat::Fo4 => match (spec_ba2_records(a), spec_ba2_settings(a)) {
            (Some(r), Some(s)) => Some(IndexView { format: ArchiveFormat::Fo4, file_count: r.len(), entries: ba2_index(r), tes4: None, ba2: Some(s) }),
            _ => None,
        },
    }
}

pub struct OpenedIndex {
    pub archive: dream_archive::Archive,
    pub index: IndexView,
}

/// The archive and index obtained from the bytes of an archive file, if both are.
pub open spec fn spec_open_index(bytes: Seq<u8>) -> Option<OpenedIndex> {
    match spec_parse_archive(bytes) {
        Some(a) => match spec_archive_index(a) {
            Some(index) => Some(OpenedIndex { archive: a, index }),
            None => None,
        },
        None => None,
    }
}

/// What holds of every index an archive gives: no more named entries than
/// entries, each lookup path the normalized spelling of its stored path, and for
/// TES3 every entry named, with a size and no compressed size.
pub open spec fn well_formed_index(index: IndexView) -> bool {
    &&& index.entries.len() <= index.file_count
    &&& forall|k: int| 0 <= k < index.entries.len() ==> #[trigger] index.entries[k].path == spec_normalize(index.entries[k].raw_path)
    &&& index.format == ArchiveFormat::Tes3 ==> index.entries.len() == index.file_count
        && forall|k: int| 0 <= k < index.entries.len() ==> (#[trigger] index.entries[k].size) is Some && index.entries[k].compressed_size is None
}

proof fn lemma_tes4_index_facts(records: Seq<(Option<Seq<u8>>, u32, bool)>)
    ensures
        tes4_index(records).len() <= records.len(),
        forall|k: int| 0 <= k < tes4_index(records).len() ==> #[trigger] tes4_index(records)[k].path == spec_normalize(tes4_index(records)[k].raw_path),
    decreases records.len(),
{
    if records.len() > 0 {
        lemma_tes4_index_facts(records.drop_last());
    }
}

proof fn lemma_ba2_index_facts(records: Seq<(Seq<u8>, Seq<(u32, u32, bool)>)>)
    ensures
        ba2_index(records).len() <= records.len(),
        forall|k: int| 0 <= k < ba2_index(records).len() ==> #[trigger] ba2_index(records)[k].path == spec_normalize(ba2_index(records)[k].raw_path),
    decreases records.len(),
{
    if records.len() > 0 {
        lemma_ba2_index_facts(records.drop_last());
    }
}

/// Every index an archive gives is well formed.
pub proof fn lemma_archive_index_well_formed(a: dream_archive::Archive)
    ensures
        spec_archive_index(a) matches Some(index) ==> well_formed_index(index),
{
    match spec_archive_family(a) {
        ArchiveFormat::Tes3 => {},
        ArchiveFormat::Tes4 => {
            if let Some(r) = spec_tes4_records(a) {
                lemma_tes4_index_facts(r);
            }
        },
        ArchiveFormat::Fo4 => {
            if let Some(r) = spec_ba2_records(a) {
                lemma_ba2_index_facts(r);
            }
        },
    }
}

/// Number of records among the first `n` that store a path.
pub open spec fn named_records_before(records: Seq<(Option<Seq<u8>>, u32, bool)>, n: int) -> nat
    decreases n,
{
    if n <= 0 {
        0
    } else {
        named_records_before(records, n - 1) + if records[n - 1].0 is Some { 1nat } else { 0nat }
    }
}

proof fn lemma_named_records_before_prefix(records: Seq<(Option<Seq<u8>>, u32, bool)>, n: int)
    requires
        0 <= n < records.len(),
    ensures
        named_records_before(records.drop_last(), n) == named_records_before(records, n),
    decreases n,
{
    if n > 0 {
        lemma_named_records_before_prefix(records, n - 1);
    }
}

proof fn lemma_named_records_before_grows(records: Seq<(Option<Seq<u8>>, u32, bool)>, i: int, m: int)
    requires
        0 <= i < m,
        records[i].0 is Some,
    ensures
        named_records_before(records, i) < named_records_before(records, m),
    decreases m,
{
    if m > i + 1 {
        lemma_named_records_before_grows(records, i, m - 1);
    }
}

proof fn lemma_tes4_index_follows_records(records: Seq<(Option<Seq<u8>>, u32, bool)>)
    ensures
        tes4_index(records).len() == named_records_before(records, records.len() as int),
        forall|i: int| #![trigger records[i]] 0 <= i < records.len() && records[i].0 is Some ==> ({
            let e = tes4_index(records)[named_records_before(records, i) as int];
            &&& e.raw_path == records[i].0->0
            &&& e.size is None
            &&& e.compressed_size == if records[i].2 { Some(records[i].1 as u64) } else { None }
        }),
    decreases records.len(),
{
    if records.len() > 0 {
        let init = records.drop_last();
        let n = records.len() - 1;
        lemma_tes4_index_follows_records(init);
        lemma_named_records_before_prefix(records, n);
        assert(records.last() == records[n]);
        assert forall|i: int| #![trigger records[i]] 0 <= i < records.len() && records[i].0 is Some implies ({
            let e = tes4_index(records)[named_records_before(records, i) as int];
            &&& e.raw_path == records[i].0->0
            &&& e.size is None
            &&& e.compressed_size == if records[i].2 { Some(records[i].1 as u64) } else { None }
        }) by {
            if i < n {
                assert(init[i] == records[i]);
                lemma_named_records_before_prefix(records, i);
                lemma_named_records_before_grows(init, i, n);
            }
        }
    }
}

/// A TES4 archive lists one entry for each record that stores a path, in record
/// order: with that path as stored, no size, and the stored size as compressed
/// size exactly when the record is compressed.
pub proof fn law_tes4_listing_follows_records(a: dream_archive::Archive)
    requires
        spec_archive_family(a) == ArchiveFormat::Tes4,
        spec_archive_index(a) is Some,
    ensures
        ({
            let records = spec_tes4_records(a)->0;
            let index = spec_archive_index(a)->0;
            &&& index.entries.len() == named_records_before(records, records.len() as int)
            &&& forall|i: int| #![trigger records[i]] 0 <= i < records.len() && records[i].0 is Some ==> ({
                let e = index.entries[named_records_before(records, i) as int];
                &&& e.raw_path == records[i].0->0
                &&& e.path == spec_normalize(records[i].0->0)
                &&& e.size is None
                &&& e.compressed_size == if records[i].2 { Some(records[i].1 as u64) } else { None }
            })
        }),
{
    let records = spec_tes4_records(a)->0;
    lemma_tes4_index_follows_records(records);
    lemma_tes4_index_facts(records);
    assert forall|i: int| #![trigger records[i]] 0 <= i < records.len() && records[i].0 is Some implies
        named_records_before(records, i) < tes4_index(records).len() by {
        lemma_named_records_before_grows(records, i, records.len() as int);
    }
}

/// Whether some named entry has the lookup key `key`.
pub open spec fn listed_key(entries: Seq<EntryView>, key: Seq<u8>) -> bool {
    exists|j: int| 0 <= j < entries.len() && #[trigger] entries[j].path == key
}

/// Whether lookups of this archive go by name: it is TES3, or it lists a name.
pub open spec fn looked_up_by_name(index: IndexView) -> bool {
    index.format == ArchiveFormat::Tes3 || index.entries.len() > 0
}

/// When lookups go by name, `r` reports `key` as not found exactly when no listed
/// entry has that key.
pub open spec fn lookup_answer(index: IndexView, key: Seq<u8>, r: Result<Vec<u8>>) -> bool {
    looked_up_by_name(index) ==> (r matches Err(ArchiveError::EntryNotFound(_)) <==> !listed_key(index.entries, key))
}

/// Message for an archive that could not be opened.
pub open spec fn open_error_text(label: Seq<char>, detail: Seq<char>) -> Seq<char> {
    "failed to open archive '"@ + label + "': "@ + detail
}

/// What a listed entry reports: display text, hex lookup key, sizes.
pub open spec fn spec_public_entry(e: EntryView) -> ArchiveEntryView {
    ArchiveEntryView {
        path: spec_lossy_display(e.path),
        path_bytes_hex: spec_hex_chars(e.path),
        size: e.size,
        compressed_size: e.compressed_size,
    }
}

pub open spec fn spec_public_entries(entries: Seq<EntryView>) -> Seq<ArchiveEntryView> {
    entries.map_values(|e: EntryView| spec_public_entry(e))
}

/// Outcome of reading one normalized lookup path.
pub open spec fn read_outcome_ok(archive: dream_archive::Archive, path: Seq<u8>, r: Result<Vec<u8>>) -> bool {
    match spec_read_file(archive, path) {
        Some(Some(payload)) => r matches Ok(b) && b@ == payload,
        Some(None) => r matches Err(ArchiveError::EntryNotFound(m)) && m@ == spec_lossy_display(path),
        None => r matches Err(ArchiveError::Archive(_)),
    }
}

/// Display text of an entry named by text: its normalized bytes shown lossily.
pub open spec fn spec_text_display(entry: Seq<char>) -> Seq<char> {
    spec_lossy_display(spec_normalize(vstd::utf8::encode_utf8(entry)))
}

/// Lookup key of an entry named by text: the normalized UTF-8 bytes of its display text.
pub open spec fn spec_text_lookup_key(entry: Seq<char>) -> Seq<u8> {
    spec_normalize(vstd::utf8::encode_utf8(spec_text_display(entry)))
}

/// Outcome of reading an entry named by text.
pub open spec fn text_read_outcome_ok(archive: dream_archive::Archive, entry: Seq<char>, r: Result<Vec<u8>>) -> bool {
    match spec_read_file(archive, spec_text_lookup_key(entry)) {
        Some(Some(payload)) => r matches Ok(b) && b@ == payload,
        Some(None) => r matches Err(ArchiveError::EntryNotFound(m)) && m@ == spec_text_display(entry),
        None => r matches Err(ArchiveError::Archive(_)),
    }
}

/// Append `payload` to `out` and return its length.
pub fn append_bytes(out: &mut Vec<u8>, payload: &Vec<u8>) -> (n: u64)
    ensures
        final(out)@ == old(out)@ + payload@,
        n == payload@.len(),
{
    let ghost start = out@;
    let mut i: usize = 0;
    while i < payload.len()
        invariant
            i <= payload@.len(),
            out@ == start + payload@.take(i as int),
        decreases payload@.len() - i,
    {
        out.push(payload[i]);
        assert(payload@.take(i as int + 1) =~= payload@.take(i as int).push(payload@[i as int]));
        i = i + 1;
    }
    assert(payload@.take(payload@.len() as int) =~= payload@);
    payload.len() as u64
}

/// An opened archive with its plain index.
pub struct LoadedArchive {
    archive: dream_archive::Archive,
    format: ArchiveFormat,
    file_count: usize,
    entries: Vec<LoadedEntry>,
    tes4: Option<(Tes4FormatVersion, u16, u32)>,
    ba2: Option<(Ba2PayloadKind, Ba2FormatVersion)>,
}

impl View for LoadedArchive {
    type V = IndexView;

    closed spec fn view(&self) -> IndexView {
        IndexView {
            format: self.format,
            file_count: self.file_count as nat,
            entries: self.entries@.map_values(|e: LoadedEntry| e@),
            tes4: self.tes4,
            ba2: self.ba2,
        }
    }
}

impl LoadedArchive {
    /// The index held is the index of the archive held.
    #[verifier::type_invariant]
    closed spec fn holds_its_index(self) -> bool {
        spec_archive_index(self.archive) == Some(self@)
    }

    /// What every opened archive's index satisfies; checked, not computed.
    fn check_well_formed(&self)
        ensures
            well_formed_index(self@),
            spec_archive_index(self.source()) == Some(self@),
    {
        proof {
            use_type_invariant(self);
            lemma_archive_index_well_formed(self.archive);
        }
    }
}

/// A byte vector's deep view is its plain view.
pub proof fn lemma_bytes_deep_view(v: Vec<u8>)
    ensures
        v.deep_view() == v@,
{
    assert(v.deep_view() =~= v@);
}

fn copy_bytes(bytes: &Vec<u8>) -> (copy: Vec<u8>)
    ensures
        copy@ == bytes@,
{
    let mut copy: Vec<u8> = Vec::new();
    let mut i: usize = 0;
    while i < bytes.len()
        invariant
            i <= bytes@.len(),
            copy@ == bytes@.take(i as int),
        decreases bytes@.len() - i,
    {
        copy.push(bytes[i]);
        assert(bytes@.take(i as int + 1) =~= bytes@.take(i as int).push(bytes@[i as int]));
        i = i + 1;
    }
    assert(bytes@.take(bytes@.len() as int) =~= bytes@);
    copy
}

fn new_entry(raw: Vec<u8>, size: Option<u64>, compressed_size: Option<u64>) -> (e: LoadedEntry)
    ensures
        e@ == named_entry(raw@, size, compressed_size),
{
    let path = normalize_archive_path_bytes(raw.as_slice());
    LoadedEntry { raw_path: raw, path, size, compressed_size }
}

fn index_tes3(records: Vec<(Vec<u8>, u32)>) -> (entries: Vec<LoadedEntry>)
    ensures
        entries@.map_values(|e: LoadedEntry| e@) == tes3_index(records.deep_view()),
{
    let mut entries: Vec<LoadedEntry> = Vec::new();
    let mut i: usize = 0;
    while i < records.len()
        invariant
            i <= records@.len(),
            entries@.len() == i,
            forall|j: int| 0 <= j < i ==> #[trigger] entries@[j]@ == tes3_index(records.deep_view())[j],
        decreases records@.len() - i,
    {
        proof {
            lemma_bytes_deep_view(records@[i as int].0);
            assert(records.deep_view()[i as int] == (records@[i as int].0@, records@[i as int].1));
        }
        let raw = copy_bytes(&records[i].0);
        let size = records[i].1 as u64;
        entries.push(new_entry(raw, Some(size), None));
        i = i + 1;
    }
    assert(entries@.map_values(|e: LoadedEntry| e@) =~= tes3_index(records.deep_view()));
    entries
}

fn index_tes4(records: Vec<(Option<Vec<u8>>, u32, bool)>) -> (entries: Vec<LoadedEntry>)
    ensures
        entries@.map_values(|e: LoadedEntry| e@) == tes4_index(records.deep_view()),
{
    let mut entries: Vec<LoadedEntry> = Vec::new();
    let mut i: usize = 0;
    let ghost all = records.deep_view();
    assert(all.take(0) =~= Seq::<(Option<Seq<u8>>, u32, bool)>::empty());
    while i < records.len()
        invariant
            all == records.deep_view(),
            i <= records@.len(),
            entries@.map_values(|e: LoadedEntry| e@) == tes4_index(all.take(i as int)),
        decreases records@.len() - i,
    {
        assert(all.take(i as int + 1).drop_last() =~= all.take(i as int));
        assert(all.take(i as int + 1).last() == all[i as int]);
        let ghost before = entries@.map_values(|e: LoadedEntry| e@);
        proof {
            let r = records@[i as int];
            assert(all[i as int] == r.deep_view());
            if let Some(p) = r.0 {
                lemma_bytes_deep_view(p);
            }
        }
        match &records[i].0 {
            Some(path) => {
                let raw = copy_bytes(path);
                let compressed = if records[i].2 { Some(records[i].1 as u64) } else { None };
                let e = new_entry(raw, None, compressed);
                entries.push(e);
                assert(entries@.map_values(|e: LoadedEntry| e@) =~= before.push(e@));
            },
            None => {},
        }
        i = i + 1;
    }
    assert(all.take(records@.len() as int) =~= all);
    entries
}

fn chunk_sums(chunks: &Vec<(u32, u32, bool)>) -> (sums: (u64, u64))
    ensures
        sums.0 == chunk_size_sum(chunks@),
        sums.1 == chunk_packed_sum(chunks@),
{
    let mut size: u64 = 0;
    let mut packed: u64 = 0;
    let mut i: usize = 0;
    assert(chunks@.take(0) =~= Seq::<(u32, u32, bool)>::empty());
    while i < chunks.len()
        invariant
            i <= chunks@.len(),
            size == chunk_size_sum(chunks@.take(i as int)),
            packed == chunk_packed_sum(chunks@.take(i as int)),
        decreases chunks@.len() - i,
    {
        assert(chunks@.take(i as int + 1).drop_last() =~= chunks@.take(i as int));
        let (s, p, c) = chunks[i];
        size = size.wrapping_add(s as u64);
        if c {
            packed = packed.wrapping_add(p as u64);
        }
        i = i + 1;
    }
    assert(chunks@.take(chunks@.len() as int) =~= chunks@);
    (size, packed)
}

fn index_ba2(records: Vec<(Vec<u8>, Vec<(u32, u32, bool)>)>) -> (entries: Vec<LoadedEntry>)
    ensures
        entries@.map_values(|e: LoadedEntry| e@) == ba2_index(records.deep_view()),
{
    let mut entries: Vec<LoadedEntry> = Vec::new();
    let mut i: usize = 0;
    let ghost all = records.deep_view();
    assert(all.take(0) =~= Seq::<(Seq<u8>, Seq<(u32, u32, bool)>)>::empty());
    while i < records.len()
        invariant
            all == records.deep_view(),
            i <= records@.len(),
            entries@.map_values(|e: LoadedEntry| e@) == ba2_index(all.take(i as int)),
        decreases records@.len() - i,
    {
        assert(all.take(i as int + 1).drop_last() =~= all.take(i as int));
        assert(all.take(i as int + 1).last() == all[i as int]);
        let ghost before = entries@.map_values(|e: LoadedEntry| e@);
        proof {
            let r = records@[i as int];
            assert(all[i as int] == r.deep_view());
            lemma_bytes_deep_view(r.0);
            assert(r.1.deep_view() =~= r.1@);
        }
        if records[i].0.len() != 0 {
            let raw = copy_bytes(&records[i].0);
            let (size, packed) = chunk_sums(&records[i].1);
            let compressed = if packed > 0 { Some(packed) } else { None };
            let e = new_entry(raw, Some(size), compressed);
            entries.push(e);
            assert(entries@.map_values(|e: LoadedEntry| e@) =~= before.push(e@));
        }
        i = i + 1;
    }
    assert(all.take(records@.len() as int) =~= all);
    entries
}

fn open_error(label: &str, detail: String) -> (e: ArchiveError)
    ensures
        e matches ArchiveError::Archive(m) && m@ == open_error_text(label@, detail@),
{
    let mut message = String::from_str("failed to open archive '");
    message.append(label);
    message.append("': ");
    message.append(detail.as_str());
    ArchiveError::Archive(message)
}

impl LoadedArchive {
    /// The parsed archive that payload reads go to.
    pub closed spec fn source(&self) -> dream_archive::Archive {
        self.archive
    }

    /// Open the archive whose file bytes are `bytes`; `label` names it in errors.
    pub fn open(label: &str, bytes: Vec<u8>) -> (r: Result<LoadedArchive>)
        ensures
            r is Ok <==> spec_open_index(bytes@) is Some,
            r matches Ok(a) ==> a@ == spec_open_index(bytes@)->0.index
                && a.source() == spec_open_index(bytes@)->0.archive,
            r matches Err(e) ==> e matches ArchiveError::Archive(m)
                && exists|detail: Seq<char>| m@ == open_error_text(label@, detail),
    {
        let archive = match parse_archive(bytes) {
            Ok(a) => a,
            Err(err) => {
                let detail = err.to_string();
                return Err(open_error(label, detail));
            },
        };
        let format = archive_family(&archive);
        let inconsistent = "archive tables do not match the detected family";
        match format {
            ArchiveFormat::Tes3 => match tes3_records(&archive) {
                Some(records) => {
                    let file_count = records.len();
                    let entries = index_tes3(records);
                    Ok(LoadedArchive { archive, format, file_count, entries, tes4: None, ba2: None })
                },
                None => Err(open_error(label, String::from_str(inconsistent))),
            },
            ArchiveFormat::Tes4 => match (tes4_records(&archive), tes4_settings(&archive)) {
                (Some(records), Some(settings)) => {
                    let file_count = records.len();
                    let entries = index_tes4(records);
                    Ok(LoadedArchive { archive, format, file_count, entries, tes4: Some(settings), ba2: None })
                },
                _ => Err(open_error(label, String::from_str(inconsistent))),
            },
            ArchiveFormat::Fo4 => match (ba2_records(&archive), ba2_settings(&archive)) {
                (Some(records), Some(settings)) => {
                    let file_count = records.len();
                    let entries = index_ba2(records);
                    Ok(LoadedArchive { archive, format, file_count, entries, tes4: None, ba2: Some(settings) })
                },
                _ => Err(open_error(label, String::from_str(inconsistent))),
            },
        }
    }

    pub fn file_count(&self) -> (n: usize)
        ensures
            n == self@.file_count,
    {
        self.file_count
    }

    pub fn format(&self) -> (f: ArchiveFormat)
        ensures
            f == self@.format,
    {
        self.format
    }

    /// TES4 header settings, for TES4 archives.
    pub fn tes4_settings(&self) -> (s: Option<(Tes4FormatVersion, u16, u32)>)
        ensures
            s == self@.tes4,
    {
        self.tes4
    }

    /// BA2 header settings, for BA2 archives.
    pub fn ba2_settings(&self) -> (s: Option<(Ba2PayloadKind, Ba2FormatVersion)>)
        ensures
            s == self@.ba2,
    {
        self.ba2
    }

    /// Named entries in archive table order: at most one per entry of the archive
    /// (TES4 entries without a stored path and BA2 entries with an empty name are
    /// left out), each with its lookup path in normalized spelling.
    pub fn list_loaded_entries(&self) -> (entries: &Vec<LoadedEntry>)
        ensures
            entries@.map_values(|e: LoadedEntry| e@) == self@.entries,
            entries@.len() <= self@.file_count,
            entries@.len() < self@.file_count <==> self@.entries.len() != self@.file_count,
            forall|k: int| 0 <= k < entries@.len() ==> #[trigger] entries@[k]@.path == spec_normalize(entries@[k]@.raw_path)
                && spec_normalize(entries@[k]@.path) == entries@[k]@.path,
            self@.format == ArchiveFormat::Tes3 ==> entries@.len() == self@.file_count
                && forall|k: int| 0 <= k < entries@.len() ==> (#[trigger] entries@[k].size) is Some && entries@[k].compressed_size is None,
    {
        self.check_well_formed();
        proof {
            assert forall|k: int| 0 <= k < self.entries@.len() implies #[trigger] self.entries@[k]@.path == spec_normalize(self.entries@[k]@.raw_path)
                && spec_normalize(self.entries@[k]@.path) == self.entries@[k]@.path by {
                assert(self@.entries[k] == self.entries@[k]@);
                law_normalize_idempotent(self.entries@[k]@.raw_path);
            }
            assert forall|k: int| 0 <= k < self.entries@.len() && self@.format == ArchiveFormat::Tes3 implies (#[trigger] self.entries@[k].size) is Some && self.entries@[k].compressed_size is None by {
                assert(self@.entries[k] == self.entries@[k]@);
            }
        }
        &self.entries
    }

    pub fn named_entry_count(&self) -> (n: usize)
        ensures
            n == self@.entries.len(),
            n <= self@.file_count,
    {
        self.check_well_formed();
        self.entries.len()
    }

    /// Whether some entries have no recoverable path: fewer named entries than entries.
    pub fn has_unnameable_entries(&self) -> (b: bool)
        ensures
            b <==> self@.entries.len() != self@.file_count,
            b <==> self@.entries.len() < self@.file_count,
    {
        self.check_well_formed();
        self.entries.len() != self.file_count
    }

    /// List every named entry with display text and hex lookup key.
    pub fn list_entries(&self) -> (listed: Vec<ArchiveEntry>)
        ensures
            listed@.map_values(|e: ArchiveEntry| e@) == spec_public_entries(self@.entries),
    {
        let mut listed: Vec<ArchiveEntry> = Vec::new();
        let mut i: usize = 0;
        while i < self.entries.len()
            invariant
                i <= self.entries@.len(),
                listed@.len() == i,
                forall|j: int| 0 <= j < i ==> #[trigger] listed@[j]@ == spec_public_entry(self.entries@[j]@),
            decreases self.entries@.len() - i,
        {
            let e = &self.entries[i];
            listed.push(ArchiveEntry {
                path: archive_path_bytes_to_display(e.path.as_slice()),
                path_bytes_hex: archive_path_bytes_to_hex(e.path.as_slice()),
                size: e.size,
                compressed_size: e.compressed_size,
            });
            i = i + 1;
        }
        assert(listed@.map_values(|e: ArchiveEntry| e@) =~= spec_public_entries(self@.entries));
        listed
    }

    /// Read the payload of an already-normalized lookup path.
    pub fn read_entry_bytes_by_normalized_path(&self, entry: &[u8]) -> (r: Result<Vec<u8>>)
        ensures
            read_outcome_ok(self.source(), entry@, r),
            lookup_answer(self@, spec_normalize(entry@), r),
    {
        self.check_well_formed();
        match read_file(&self.archive, entry) {
            Ok(Some(bytes)) => {
                proof {
                    lemma_bytes_deep_view(bytes);
                }
                Ok(bytes)
            },
            Ok(None) => Err(ArchiveError::EntryNotFound(archive_path_bytes_to_display(entry))),
            Err(err) => Err(ArchiveError::Archive(err.to_string())),
        }
    }

    /// Append the payload of an already-normalized lookup path to `out`.
    pub fn extract_normalized_entry_path_to_writer(&self, entry: &[u8], out: &mut Vec<u8>) -> (r: Result<u64>)
        ensures
            spec_read_file(self.source(), entry@) matches Some(Some(p)) ==> (r matches Ok(n) && n == p.len() && final(out)@ == old(out)@ + p),
            spec_read_file(self.source(), entry@) == Some(None::<Seq<u8>>) ==> (r matches Err(ArchiveError::EntryNotFound(m)) && m@ == spec_lossy_display(entry@)),
            spec_read_file(self.source(), entry@) is None ==> r matches Err(ArchiveError::Archive(_)),
            r is Err ==> final(out)@ == old(out)@,
    {
        let payload = self.read_entry_bytes_by_normalized_path(entry)?;
        Ok(append_bytes(out, &payload))
    }

    /// Read the payload of an entry selected by path bytes, normalized before lookup.
    pub fn read_entry_bytes_by_path(&self, entry: &[u8]) -> (r: Result<Vec<u8>>)
        ensures
            read_outcome_ok(self.source(), spec_normalize(entry@), r),
            lookup_answer(self@, spec_normalize(entry@), r),
    {
        proof {
            law_normalize_idempotent(entry@);
        }
        let normalized = normalize_archive_path_bytes(entry);
        self.read_entry_bytes_by_normalized_path(normalized.as_slice())
    }

    /// Read the payload of an entry named by text. The text is normalized and shown
    /// lossily, and that display spelling is the lookup key and the text of a
    /// not-found error.
    pub fn read_entry_bytes(&self, entry: &str) -> (r: Result<Vec<u8>>)
        ensures
            text_read_outcome_ok(self.source(), entry@, r),
            lookup_answer(self@, spec_text_lookup_key(entry@), r),
    {
        let normalized = normalize_archive_path_bytes(entry.as_bytes());
        let shown = archive_path_bytes_to_display(normalized.as_slice());
        match self.read_entry_bytes_by_path(shown.as_str().as_bytes()) {
            Err(ArchiveError::EntryNotFound(_)) => Err(ArchiveError::EntryNotFound(shown)),
            other => other,
        }
    }

    /// Append the payload of a text-named entry to `out`; returns the byte count.
    pub fn extract_entry_to_writer(&self, entry: &str, out: &mut Vec<u8>) -> (r: Result<u64>)
        ensures
            spec_read_file(self.source(), spec_text_lookup_key(entry@)) matches Some(Some(p))
                ==> (r matches Ok(n) && n == p.len() && final(out)@ == old(out)@ + p),
            spec_read_file(self.source(), spec_text_lookup_key(entry@)) == Some(None::<Seq<u8>>)
                ==> (r matches Err(ArchiveError::EntryNotFound(m)) && m@ == spec_text_display(entry@)),
            spec_read_file(self.source(), spec_text_lookup_key(entry@)) is None ==> r matches Err(ArchiveError::Archive(_)),
            r is Err ==> final(out)@ == old(out)@,
    {
        let payload = self.read_entry_bytes(entry)?;
        Ok(append_bytes(out, &payload))
    }

    /// Append the payload of an entry selected by path bytes to `out`.
    pub fn extract_entry_path_to_writer(&self, entry: &[u8], out: &mut Vec<u8>) -> (r: Result<u64>)
        ensures
            spec_read_file(self.source(), spec_normalize(entry@)) matches Some(Some(p))
                ==> (r matches Ok(n) && n == p.len() && final(out)@ == old(out)@ + p),
            spec_read_file(self.source(), spec_normalize(entry@)) == Some(None::<Seq<u8>>)
                ==> (r matches Err(ArchiveError::EntryNotFound(m)) && m@ == spec_lossy_display(spec_normalize(entry@))),
            spec_read_file(self.source(), spec_normalize(entry@)) is None ==> r matches Err(ArchiveError::Archive(_)),
            r is Err ==> final(out)@ == old(out)@,
    {
        let payload = self.read_entry_bytes_by_path(entry)?;
        Ok(append_bytes(out, &payload))
    }
}

} // verus!
