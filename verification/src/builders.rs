//! Writing archive bytes with the `dream_archive` builders.
//!
//! Each builder is carried as an opaque value. What this crate knows of one is
//! named: the members it accepted, in the order they were added (each path in
//! the stored spelling the builder gives it), and the settings it was given. The documentation of `dream_archive` says a builder's
//! output is deterministic, so the bytes `to_vec` gives are named as a function
//! of those settings and members.

use vstd::prelude::*;
use vstd::string::*;

use crate::error::{ArchiveError, Result};
use crate::format::{Ba2FormatVersion, Ba2PayloadKind, Tes4FormatVersion};
use crate::loaded::{spec_open_index, spec_read_file};
use crate::paths::{is_normalized_from, lemma_normalize_from_fixed, spec_normalize, split_on_slash};

verus! {

// ---------------------------------------------------------------------------
// The outside builder types
// ---------------------------------------------------------------------------

/// `dream_archive`'s TES3 BSA builder.
#[verifier::external_type_specification]
#[verifier::external_body]
pub struct ExTes3Builder(dream_archive::bsa::tes3::Builder);

/// `dream_archive`'s TES4 BSA builder.
#[verifier::external_type_specification]
#[verifier::external_body]
pub struct ExTes4Builder(dream_archive::bsa::tes4::Builder);

/// `dream_archive`'s BA2 builder for general files.
#[verifier::external_type_specification]
#[verifier::external_body]
pub struct ExBa2Builder(dream_archive::ba2::Builder);

/// `dream_archive`'s BA2 builder for DDS textures.
#[verifier::external_type_specification]
#[verifier::external_body]
pub struct ExDx10Builder(dream_archive::ba2::Dx10Builder);

/// Errors of the BSA builders.
#[verifier::external_type_specification]
#[verifier::external_body]
pub struct ExBsaError(dream_archive::bsa::Error);

/// Errors of the BA2 builders.
#[verifier::external_type_specification]
#[verifier::external_body]
pub struct ExBa2Error(dream_archive::ba2::Error);

/// How a TES4 archive stores recoverable path names.
#[derive(Debug, Clone, Copy, PartialEq, Eq, Structural)]
pub enum Tes4NameMode {
    /// Folder and file string tables.
    Strings,
    /// Hashes only.
    HashOnly,
    /// Full paths embedded before payloads.
    Embedded,
    /// Both string tables and embedded paths.
    StringsAndEmbedded,
}

// ---------------------------------------------------------------------------
// Names for what the builders hold and write
// ---------------------------------------------------------------------------

/// The (stored path, payload) pairs a TES3 builder holds, in the order they were added.
pub uninterp spec fn spec_tes3_members(builder: dream_archive::bsa::tes3::Builder) -> Seq<(Seq<u8>, Seq<u8>)>;

/// Whether a TES3 builder holding `members` accepts `path` with `bytes`.
pub uninterp spec fn spec_tes3_add_ok(members: Seq<(Seq<u8>, Seq<u8>)>, path: Seq<u8>, bytes: Seq<u8>) -> bool;

/// The archive a TES3 builder writes for these members, or `None` when it refuses.
pub uninterp spec fn spec_tes3_output(members: Seq<(Seq<u8>, Seq<u8>)>) -> Option<Seq<u8>>;

/// The (stored path, payload) pairs a TES4 builder holds, in the order they were added.
pub uninterp spec fn spec_tes4_members(builder: dream_archive::bsa::tes4::Builder) -> Seq<(Seq<u8>, Seq<u8>)>;

/// A TES4 builder's version, archive-type bits, default compression and name
/// mode, and whether its other settings (the zlib level) are at their defaults.
pub uninterp spec fn spec_tes4_setup(builder: dream_archive::bsa::tes4::Builder) -> (Tes4FormatVersion, u16, bool, Tes4NameMode, bool);

/// Whether a TES4 builder holding `members` accepts `path` with `bytes`.
pub uninterp spec fn spec_tes4_add_ok(members: Seq<(Seq<u8>, Seq<u8>)>, path: Seq<u8>, bytes: Seq<u8>) -> bool;

/// The archive a TES4 builder with these settings writes for these members, or
/// `None` when it refuses.
pub uninterp spec fn spec_tes4_output(setup: (Tes4FormatVersion, u16, bool, Tes4NameMode), members: Seq<(Seq<u8>, Seq<u8>)>) -> Option<Seq<u8>>;

/// The (stored path, payload) pairs a general BA2 builder holds, in order.
pub uninterp spec fn spec_ba2_members(builder: dream_archive::ba2::Builder) -> Seq<(Seq<u8>, Seq<u8>)>;

/// A BA2 builder's version, and whether its other settings (compression, zlib
/// level) are at their defaults.
pub uninterp spec fn spec_ba2_setup(builder: dream_archive::ba2::Builder) -> (Ba2FormatVersion, bool);

/// Whether a general BA2 builder holding `members` accepts `path` with `bytes`.
pub uninterp spec fn spec_ba2_add_ok(members: Seq<(Seq<u8>, Seq<u8>)>, path: Seq<u8>, bytes: Seq<u8>) -> bool;

/// The general BA2 archive a builder of this version writes for these members,
/// or `None` when it refuses.
pub uninterp spec fn spec_ba2_output(version: Ba2FormatVersion, members: Seq<(Seq<u8>, Seq<u8>)>) -> Option<Seq<u8>>;

/// The (stored path, DDS file) pairs a DX10 builder accepted, in order.
pub uninterp spec fn spec_dx10_members(builder: dream_archive::ba2::Dx10Builder) -> Seq<(Seq<u8>, Seq<u8>)>;

/// A DX10 builder's version, and whether its other settings are at their defaults.
pub uninterp spec fn spec_dx10_setup(builder: dream_archive::ba2::Dx10Builder) -> (Ba2FormatVersion, bool);

/// Whether a DX10 builder holding `members` accepts the DDS file `dds` at `path`.
pub uninterp spec fn spec_dx10_add_ok(members: Seq<(Seq<u8>, Seq<u8>)>, path: Seq<u8>, dds: Seq<u8>) -> bool;

/// The DX10 BA2 archive a builder of this version writes for these textures, or
/// `None` when it refuses.
pub uninterp spec fn spec_dx10_output(version: Ba2FormatVersion, members: Seq<(Seq<u8>, Seq<u8>)>) -> Option<Seq<u8>>;

/// The spelling a TES3 builder stores a path under.
pub uninterp spec fn spec_tes3_key(path: Seq<u8>) -> Seq<u8>;

/// The spelling a TES4 builder stores a path under (folder and name joined by `\`).
pub uninterp spec fn spec_tes4_key(path: Seq<u8>) -> Seq<u8>;

/// The spelling the BA2 builders (general and DX10) store a path under.
pub uninterp spec fn spec_ba2_key(path: Seq<u8>) -> Seq<u8>;

/// `k` with every `/` turned into `\`.
pub open spec fn slash_to_backslash(k: Seq<u8>) -> Seq<u8> {
    k.map_values(|b: u8| if b == 47u8 { 92u8 } else { b })
}

/// `k` with every `\` turned into `/`.
pub open spec fn backslash_to_slash(k: Seq<u8>) -> Seq<u8> {
    k.map_values(|b: u8| if b == 92u8 { 47u8 } else { b })
}

/// A path the builders store unchanged but for its separators: in normalized
/// spelling, not empty, without a trailing `/`, without NUL or `:` bytes, and
/// without `.` or `..` components.
pub open spec fn plain_key(k: Seq<u8>) -> bool {
    &&& k.len() > 0
    &&& is_normalized_from(k, true)
    &&& k.last() != 47u8
    &&& forall|i: int| 0 <= i < k.len() ==> #[trigger] k[i] != 0u8 && k[i] != 58u8
    &&& forall|j: int| 0 <= j < split_on_slash(k).len() ==> #[trigger] split_on_slash(k)[j] != seq![46u8]
        && split_on_slash(k)[j] != seq![46u8, 46u8]
}

pub open spec fn tes3_stored(ms: Seq<(Seq<u8>, Seq<u8>)>) -> Seq<(Seq<u8>, Seq<u8>)> {
    ms.map_values(|m: (Seq<u8>, Seq<u8>)| (spec_tes3_key(m.0), m.1))
}

pub open spec fn tes4_stored(ms: Seq<(Seq<u8>, Seq<u8>)>) -> Seq<(Seq<u8>, Seq<u8>)> {
    ms.map_values(|m: (Seq<u8>, Seq<u8>)| (spec_tes4_key(m.0), m.1))
}

pub open spec fn ba2_stored(ms: Seq<(Seq<u8>, Seq<u8>)>) -> Seq<(Seq<u8>, Seq<u8>)> {
    ms.map_values(|m: (Seq<u8>, Seq<u8>)| (spec_ba2_key(m.0), m.1))
}

/// What an archive written from `members` reads back: it opens, and each member
/// with a plain path is found under that path, with its payload when `exact`.
pub open spec fn reads_back(members: Seq<(Seq<u8>, Seq<u8>)>, bytes: Seq<u8>, exact: bool) -> bool {
    spec_open_index(bytes) matches Some(o) && forall|i: int| 0 <= i < members.len() && plain_key(#[trigger] members[i].0) ==> (
        if exact {
            spec_read_file(o.archive, members[i].0) == Some(Some(members[i].1))
        } else {
            spec_read_file(o.archive, members[i].0) matches Some(Some(_))
        })
}

/// What an archive written from stored members reads back: it opens, and a
/// lookup whose normalized spelling is a member's stored path with `\` read as
/// `/` finds that member, with its payload when `exact`.
pub open spec fn found_stored(bytes: Seq<u8>, ms: Seq<(Seq<u8>, Seq<u8>)>, exact: bool) -> bool {
    spec_open_index(bytes) matches Some(o) && forall|i: int, q: Seq<u8>|
        #![trigger ms[i], spec_read_file(o.archive, q)]
        0 <= i < ms.len() && spec_normalize(q) == backslash_to_slash(ms[i].0) ==> (if exact {
            spec_read_file(o.archive, q) == Some(Some(ms[i].1))
        } else {
            spec_read_file(o.archive, q) matches Some(Some(_))
        })
}

/// The bytes open as a BA2 archive whose header has this payload table and version.
pub open spec fn opens_as_ba2(bytes: Seq<u8>, kind: Ba2PayloadKind, version: Ba2FormatVersion) -> bool {
    spec_open_index(bytes) matches Some(o) && o.index.ba2 == Some((kind, version))
}

/// Stored members found again give the members with plain paths back.
proof fn lemma_reads_back(
    members: Seq<(Seq<u8>, Seq<u8>)>,
    stored: Seq<(Seq<u8>, Seq<u8>)>,
    bytes: Seq<u8>,
    exact: bool,
)
    requires
        stored.len() == members.len(),
        forall|i: int| 0 <= i < members.len() ==> (#[trigger] stored[i]).1 == members[i].1,
        forall|i: int| 0 <= i < members.len() && plain_key(#[trigger] members[i].0) ==> stored[i].0 == slash_to_backslash(members[i].0),
        found_stored(bytes, stored, exact),
    ensures
        reads_back(members, bytes, exact),
{
    let o = spec_open_index(bytes)->0;
    assert forall|i: int| 0 <= i < members.len() && plain_key(#[trigger] members[i].0) implies (if exact {
        spec_read_file(o.archive, members[i].0) == Some(Some(members[i].1))
    } else {
        spec_read_file(o.archive, members[i].0) matches Some(Some(_))
    }) by {
        let k = members[i].0;
        lemma_plain_key_lookup(k);
        assert(stored[i].0 == slash_to_backslash(k));
        assert(spec_normalize(k) == backslash_to_slash(stored[i].0));
        assert(stored[i].1 == members[i].1);
        let _ = spec_read_file(o.archive, k);
    }
}

/// A plain path is its stored spelling with `\` read back as `/`, and it is its
/// own lookup spelling.
pub proof fn lemma_plain_key_lookup(k: Seq<u8>)
    requires
        plain_key(k),
    ensures
        backslash_to_slash(slash_to_backslash(k)) == k,
        spec_normalize(k) == k,
{
    assert forall|i: int| 0 <= i < k.len() implies k[i] != 92u8 by {
        assert(crate::paths::fold_byte(k[i]) == k[i]);
    }
    assert(backslash_to_slash(slash_to_backslash(k)) =~= k);
    lemma_normalize_from_fixed(k, true);
}

/// What writing `members` through a TES3 builder gives.
pub open spec fn tes3_written(members: Seq<(Seq<u8>, Seq<u8>)>) -> Option<Seq<u8>> {
    if forall|i: int| 0 <= i < members.len() ==> #[trigger] spec_tes3_add_ok(tes3_stored(members.take(i)), members[i].0, members[i].1) {
        spec_tes3_output(tes3_stored(members))
    } else {
        None
    }
}

/// What writing `members` through a TES4 builder with these settings gives.
pub open spec fn tes4_written(setup: (Tes4FormatVersion, u16, bool, Tes4NameMode), members: Seq<(Seq<u8>, Seq<u8>)>) -> Option<Seq<u8>> {
    if forall|i: int| 0 <= i < members.len() ==> #[trigger] spec_tes4_add_ok(tes4_stored(members.take(i)), members[i].0, members[i].1) {
        spec_tes4_output(setup, tes4_stored(members))
    } else {
        None
    }
}

/// What writing `members` through a general BA2 builder of this version gives.
pub open spec fn ba2_written(version: Ba2FormatVersion, members: Seq<(Seq<u8>, Seq<u8>)>) -> Option<Seq<u8>> {
    if forall|i: int| 0 <= i < members.len() ==> #[trigger] spec_ba2_add_ok(ba2_stored(members.take(i)), members[i].0, members[i].1) {
        spec_ba2_output(version, ba2_stored(members))
    } else {
        None
    }
}

/// What writing the DDS files `members` through a DX10 builder of this version gives.
pub open spec fn dx10_written(version: Ba2FormatVersion, members: Seq<(Seq<u8>, Seq<u8>)>) -> Option<Seq<u8>> {
    if forall|i: int| 0 <= i < members.len() ==> #[trigger] spec_dx10_add_ok(ba2_stored(members.take(i)), members[i].0, members[i].1) {
        spec_dx10_output(version, ba2_stored(members))
    } else {
        None
    }
}

// ---------------------------------------------------------------------------
// Builder calls
// ---------------------------------------------------------------------------

/// Calls `bsa::tes3::Builder::new`: an empty builder.
#[verifier::external_body]
fn tes3_new() -> (b: dream_archive::bsa::tes3::Builder)
    ensures
        spec_tes3_members(b) == Seq::<(Seq<u8>, Seq<u8>)>::empty(),
{
    dream_archive::bsa::tes3::Builder::new()
}

/// Calls `bsa::tes3::Builder::add_bytes`. The source checks and reserves before it
/// records anything, so a refused member leaves the builder as it was. Whether it
/// accepts is named; like vstd's own `Vec` specifications, this takes allocation
/// to succeed, so the refusals are the invalid and duplicate paths of the source.
/// The path is stored in the spelling `normalize_stored_path` gives it: split at `/`
/// and `\`, empty and `.` parts dropped, lowercased, joined by `\`; for a plain path
/// that is the path with `/` turned into `\`.
#[verifier::external_body]
fn tes3_add(b: &mut dream_archive::bsa::tes3::Builder, path: &[u8], bytes: &[u8]) -> (r: core::result::Result<(), dream_archive::bsa::Error>)
    ensures
        r is Ok <==> spec_tes3_add_ok(spec_tes3_members(*old(b)), path@, bytes@),
        r is Ok ==> spec_tes3_members(*final(b)) == spec_tes3_members(*old(b)).push((spec_tes3_key(path@), bytes@)),
        r is Ok && plain_key(path@) ==> spec_tes3_key(path@) == slash_to_backslash(path@),
        r is Err ==> spec_tes3_members(*final(b)) == spec_tes3_members(*old(b)),
{
    b.add_bytes(path, bytes)
}

/// Calls `bsa::tes3::Builder::to_vec`; whether it succeeds and the bytes depend on
/// the members only (allocation taken to succeed). The archive written stores each
/// stored path as its name and each payload as given; `Archive::from_vec` reads it,
/// and `read_file` finds a name by its `dream_path` normalization (the builder
/// refused duplicates), giving the payload back.
#[verifier::external_body]
fn tes3_to_vec(b: &dream_archive::bsa::tes3::Builder) -> (r: core::result::Result<Vec<u8>, dream_archive::bsa::Error>)
    ensures
        r matches Ok(v) ==> found_stored(v@, spec_tes3_members(*b), true),
        r is Ok <==> spec_tes3_output(spec_tes3_members(*b)) is Some,
        r matches Ok(v) ==> spec_tes3_output(spec_tes3_members(*b)) == Some(v@),
{
    b.to_vec()
}

/// Calls `bsa::tes4::Builder::new`: version 104, the `MISC` archive type (bit 8),
/// no default compression, string tables, and the default zlib level.
#[verifier::external_body]
fn tes4_new() -> (b: dream_archive::bsa::tes4::Builder)
    ensures
        spec_tes4_members(b) == Seq::<(Seq<u8>, Seq<u8>)>::empty(),
        spec_tes4_setup(b) == (Tes4FormatVersion::V104, 256u16, false, Tes4NameMode::Strings, true),
{
    dream_archive::bsa::tes4::Builder::new()
}

/// Calls `bsa::tes4::Builder::set_version`, mapping the three versions one to one.
#[verifier::external_body]
fn tes4_set_version(b: &mut dream_archive::bsa::tes4::Builder, version: Tes4FormatVersion)
    ensures
        spec_tes4_members(*final(b)) == spec_tes4_members(*old(b)),
        spec_tes4_setup(*final(b)) == (version, spec_tes4_setup(*old(b)).1, spec_tes4_setup(*old(b)).2, spec_tes4_setup(*old(b)).3, spec_tes4_setup(*old(b)).4),
{
    b.set_version(match version {
        Tes4FormatVersion::V103 => dream_archive::bsa::tes4::ArchiveVersion::v103,
        Tes4FormatVersion::V104 => dream_archive::bsa::tes4::ArchiveVersion::v104,
        Tes4FormatVersion::V105 => dream_archive::bsa::tes4::ArchiveVersion::v105,
    });
}

/// Calls `bsa::tes4::Builder::set_archive_types` with all bits retained.
#[verifier::external_body]
fn tes4_set_archive_types(b: &mut dream_archive::bsa::tes4::Builder, bits: u16)
    ensures
        spec_tes4_members(*final(b)) == spec_tes4_members(*old(b)),
        spec_tes4_setup(*final(b)) == (spec_tes4_setup(*old(b)).0, bits, spec_tes4_setup(*old(b)).2, spec_tes4_setup(*old(b)).3, spec_tes4_setup(*old(b)).4),
{
    b.set_archive_types(dream_archive::bsa::tes4::ArchiveTypes::from_bits_retain(bits));
}

/// Calls `bsa::tes4::Builder::set_compressed`.
#[verifier::external_body]
fn tes4_set_compressed(b: &mut dream_archive::bsa::tes4::Builder, compressed: bool)
    ensures
        spec_tes4_members(*final(b)) == spec_tes4_members(*old(b)),
        spec_tes4_setup(*final(b)) == (spec_tes4_setup(*old(b)).0, spec_tes4_setup(*old(b)).1, compressed, spec_tes4_setup(*old(b)).3, spec_tes4_setup(*old(b)).4),
{
    b.set_compressed(compressed);
}

/// Calls `bsa::tes4::Builder::set_name_mode`, mapping the four modes one to one.
#[verifier::external_body]
fn tes4_set_name_mode(b: &mut dream_archive::bsa::tes4::Builder, mode: Tes4NameMode)
    ensures
        spec_tes4_members(*final(b)) == spec_tes4_members(*old(b)),
        spec_tes4_setup(*final(b)) == (spec_tes4_setup(*old(b)).0, spec_tes4_setup(*old(b)).1, spec_tes4_setup(*old(b)).2, mode, spec_tes4_setup(*old(b)).4),
{
    b.set_name_mode(match mode {
        Tes4NameMode::Strings => dream_archive::bsa::tes4::NameMode::Strings,
        Tes4NameMode::HashOnly => dream_archive::bsa::tes4::NameMode::HashOnly,
        Tes4NameMode::Embedded => dream_archive::bsa::tes4::NameMode::Embedded,
        Tes4NameMode::StringsAndEmbedded => dream_archive::bsa::tes4::NameMode::StringsAndEmbedded,
    });
}

/// Calls `bsa::tes4::Builder::add_bytes`; a refused member leaves the builder as it
/// was. Whether it accepts (a storable, not yet present path) is named, allocation
/// taken to succeed. The path is stored as the folder and name `normalize_stored_path`
/// gives (split at `/` and `\`, empty and `.` parts dropped, lowercased), joined by
/// `\`; for a plain path that is the path with `/` turned into `\`.
#[verifier::external_body]
fn tes4_add(b: &mut dream_archive::bsa::tes4::Builder, path: &[u8], bytes: &[u8]) -> (r: core::result::Result<(), dream_archive::bsa::Error>)
    ensures
        r is Ok <==> spec_tes4_add_ok(spec_tes4_members(*old(b)), path@, bytes@),
        spec_tes4_setup(*final(b)) == spec_tes4_setup(*old(b)),
        r is Ok ==> spec_tes4_members(*final(b)) == spec_tes4_members(*old(b)).push((spec_tes4_key(path@), bytes@)),
        r is Ok && plain_key(path@) ==> spec_tes4_key(path@) == slash_to_backslash(path@),
        r is Err ==> spec_tes4_members(*final(b)) == spec_tes4_members(*old(b)),
{
    b.add_bytes(path, bytes)
}

/// Calls `bsa::tes4::Builder::to_vec`; with the default zlib level the bytes depend
/// on the settings and members only. With the string-table name mode the archive
/// stores each folder and name, so `read_file` finds a member by the normalized
/// spelling of its stored path and decompresses its payload back; in other name
/// modes nothing is said of reading.
#[verifier::external_body]
fn tes4_to_vec(b: &dream_archive::bsa::tes4::Builder) -> (r: core::result::Result<Vec<u8>, dream_archive::bsa::Error>)
    ensures
        r matches Ok(v) ==> (spec_tes4_setup(*b).3 == Tes4NameMode::Strings ==> found_stored(v@, spec_tes4_members(*b), true)),
        spec_tes4_setup(*b).4 ==> (r is Ok <==> spec_tes4_output(
            (spec_tes4_setup(*b).0, spec_tes4_setup(*b).1, spec_tes4_setup(*b).2, spec_tes4_setup(*b).3),
            spec_tes4_members(*b),
        ) is Some),
        r matches Ok(v) ==> (spec_tes4_setup(*b).4 ==> spec_tes4_output(
            (spec_tes4_setup(*b).0, spec_tes4_setup(*b).1, spec_tes4_setup(*b).2, spec_tes4_setup(*b).3),
            spec_tes4_members(*b),
        ) == Some(v@)),
{
    b.to_vec()
}

/// Calls `ba2::Builder::new`: version 1, no compression, the default zlib level.
#[verifier::external_body]
fn ba2_new() -> (b: dream_archive::ba2::Builder)
    ensures
        spec_ba2_members(b) == Seq::<(Seq<u8>, Seq<u8>)>::empty(),
        spec_ba2_setup(b) == (Ba2FormatVersion::V1, true),
{
    dream_archive::ba2::Builder::new()
}

/// Calls `ba2::Builder::set_version`, mapping the five versions one to one.
#[verifier::external_body]
fn ba2_set_version(b: &mut dream_archive::ba2::Builder, version: Ba2FormatVersion)
    ensures
        spec_ba2_members(*final(b)) == spec_ba2_members(*old(b)),
        spec_ba2_setup(*final(b)) == (version, spec_ba2_setup(*old(b)).1),
{
    b.set_version(match version {
        Ba2FormatVersion::V1 => dream_archive::ba2::ArchiveVersion::v1,
        Ba2FormatVersion::V2 => dream_archive::ba2::ArchiveVersion::v2,
        Ba2FormatVersion::V3 => dream_archive::ba2::ArchiveVersion::v3,
        Ba2FormatVersion::V7 => dream_archive::ba2::ArchiveVersion::v7,
        Ba2FormatVersion::V8 => dream_archive::ba2::ArchiveVersion::v8,
    });
}

/// Calls `ba2::Builder::add_bytes`; a refused member leaves the builder as it was.
/// Whether it accepts (a storable, not yet present path) is named, allocation taken
/// to succeed. The path is stored in the spelling `ba2::builder::normalize_stored_path`
/// gives (split at `/` and `\`, empty and `.` parts dropped, lowercased, joined by
/// `\`); for a plain path that is the path with `/` turned into `\`.
#[verifier::external_body]
fn ba2_add(b: &mut dream_archive::ba2::Builder, path: &[u8], bytes: &[u8]) -> (r: core::result::Result<(), dream_archive::ba2::Error>)
    ensures
        r is Ok <==> spec_ba2_add_ok(spec_ba2_members(*old(b)), path@, bytes@),
        spec_ba2_setup(*final(b)) == spec_ba2_setup(*old(b)),
        r is Ok ==> spec_ba2_members(*final(b)) == spec_ba2_members(*old(b)).push((spec_ba2_key(path@), bytes@)),
        r is Ok && plain_key(path@) ==> spec_ba2_key(path@) == slash_to_backslash(path@),
        r is Err ==> spec_ba2_members(*final(b)) == spec_ba2_members(*old(b)),
{
    b.add_bytes(path, bytes)
}

/// Calls `ba2::Builder::to_vec`; with default compression settings the bytes depend
/// on the version and members only. The archive stores each stored path as a name
/// and `read_file` finds it by its normalized spelling, giving the payload back. The
/// header it writes holds the builder's version and the GNRL payload table, which
/// the parser reads back as they were written.
#[verifier::external_body]
fn ba2_to_vec(b: &dream_archive::ba2::Builder) -> (r: core::result::Result<Vec<u8>, dream_archive::ba2::Error>)
    ensures
        r matches Ok(v) ==> found_stored(v@, spec_ba2_members(*b), true),
        r matches Ok(v) ==> opens_as_ba2(v@, Ba2PayloadKind::Gnrl, spec_ba2_setup(*b).0),
        spec_ba2_setup(*b).1 ==> (r is Ok <==> spec_ba2_output(spec_ba2_setup(*b).0, spec_ba2_members(*b)) is Some),
        r matches Ok(v) ==> (spec_ba2_setup(*b).1 ==> spec_ba2_output(spec_ba2_setup(*b).0, spec_ba2_members(*b)) == Some(v@)),
{
    b.to_vec()
}

/// Calls `ba2::Dx10Builder::new`: version 1, no compression, the default zlib level.
#[verifier::external_body]
fn dx10_new() -> (b: dream_archive::ba2::Dx10Builder)
    ensures
        spec_dx10_members(b) == Seq::<(Seq<u8>, Seq<u8>)>::empty(),
        spec_dx10_setup(b) == (Ba2FormatVersion::V1, true),
{
    dream_archive::ba2::Dx10Builder::new()
}

/// Calls `ba2::Dx10Builder::set_version`, mapping the five versions one to one.
#[verifier::external_body]
fn dx10_set_version(b: &mut dream_archive::ba2::Dx10Builder, version: Ba2FormatVersion)
    ensures
        spec_dx10_members(*final(b)) == spec_dx10_members(*old(b)),
        spec_dx10_setup(*final(b)) == (version, spec_dx10_setup(*old(b)).1),
{
    b.set_version(match version {
        Ba2FormatVersion::V1 => dream_archive::ba2::ArchiveVersion::v1,
        Ba2FormatVersion::V2 => dream_archive::ba2::ArchiveVersion::v2,
        Ba2FormatVersion::V3 => dream_archive::ba2::ArchiveVersion::v3,
        Ba2FormatVersion::V7 => dream_archive::ba2::ArchiveVersion::v7,
        Ba2FormatVersion::V8 => dream_archive::ba2::ArchiveVersion::v8,
    });
}

/// Calls `ba2::Dx10Builder::add_dds_bytes`, which parses the DDS file; a refused
/// texture leaves the builder as it was. Whether it accepts (a supported DDS file at
/// a storable, not yet present path) is named, allocation taken to succeed. The path
/// is stored in the BA2 spelling (`ba2::builder::normalize_stored_path`).
#[verifier::external_body]
fn dx10_add(b: &mut dream_archive::ba2::Dx10Builder, path: &[u8], dds: &[u8]) -> (r: core::result::Result<(), dream_archive::ba2::Error>)
    ensures
        r is Ok <==> spec_dx10_add_ok(spec_dx10_members(*old(b)), path@, dds@),
        spec_dx10_setup(*final(b)) == spec_dx10_setup(*old(b)),
        r is Ok ==> spec_dx10_members(*final(b)) == spec_dx10_members(*old(b)).push((spec_ba2_key(path@), dds@)),
        r is Ok && plain_key(path@) ==> spec_ba2_key(path@) == slash_to_backslash(path@),
        r is Err ==> spec_dx10_members(*final(b)) == spec_dx10_members(*old(b)),
{
    b.add_dds_bytes(path, dds)
}

/// Calls `ba2::Dx10Builder::to_vec`; with default compression settings the bytes
/// depend on the version and textures only. The archive stores each stored path as
/// a name, so `read_file` finds it by its normalized spelling; what it reads back is
/// a DDS file rebuilt from the stored texture, which is not said to equal the one given.
/// The header it writes holds the builder's version and the DX10 payload table,
/// which the parser reads back as they were written.
#[verifier::external_body]
fn dx10_to_vec(b: &dream_archive::ba2::Dx10Builder) -> (r: core::result::Result<Vec<u8>, dream_archive::ba2::Error>)
    ensures
        r matches Ok(v) ==> found_stored(v@, spec_dx10_members(*b), false),
        r matches Ok(v) ==> opens_as_ba2(v@, Ba2PayloadKind::Dx10, spec_dx10_setup(*b).0),
        spec_dx10_setup(*b).1 ==> (r is Ok <==> spec_dx10_output(spec_dx10_setup(*b).0, spec_dx10_members(*b)) is Some),
        r matches Ok(v) ==> (spec_dx10_setup(*b).1 ==> spec_dx10_output(spec_dx10_setup(*b).0, spec_dx10_members(*b)) == Some(v@)),
{
    b.to_vec()
}

// ---------------------------------------------------------------------------
// Writing a member list
// ---------------------------------------------------------------------------

/// The members as plain values.
pub open spec fn members_view(members: &Vec<(Vec<u8>, Vec<u8>)>) -> Seq<(Seq<u8>, Seq<u8>)> {
    members@.map_values(|m: (Vec<u8>, Vec<u8>)| (m.0@, m.1@))
}

/// Write a TES3 BSA holding `members`, added in the given order.
pub fn write_tes3(members: &Vec<(Vec<u8>, Vec<u8>)>) -> (r: Result<Vec<u8>>)
    ensures
        r is Ok <==> tes3_written(members_view(members)) is Some,
        r matches Ok(v) ==> tes3_written(members_view(members)) == Some(v@),
        r matches Err(e) ==> e is Archive,
        r matches Ok(v) ==> reads_back(members_view(members), v@, true),
{
    let mut builder = tes3_new();
    let mut i: usize = 0;
    while i < members.len()
        invariant
            i <= members@.len(),
            spec_tes3_members(builder) == tes3_stored(members_view(members).take(i as int)),
            forall|k: int| 0 <= k < i && plain_key(#[trigger] members_view(members)[k].0) ==> spec_tes3_key(members_view(members)[k].0) == slash_to_backslash(members_view(members)[k].0),
            forall|k: int| 0 <= k < i ==> #[trigger] spec_tes3_add_ok(tes3_stored(members_view(members).take(k)), members_view(members)[k].0, members_view(members)[k].1),
        decreases members@.len() - i,
    {
        let member = &members[i];
        assert(members_view(members)[i as int] == (member.0@, member.1@));
        match tes3_add(&mut builder, member.0.as_slice(), member.1.as_slice()) {
            Ok(()) => {},
            Err(err) => {
                assert(!spec_tes3_add_ok(tes3_stored(members_view(members).take(i as int)), members_view(members)[i as int].0, members_view(members)[i as int].1));
                return Err(ArchiveError::Archive(err.to_string()));
            },
        }
        assert(members_view(members).take(i as int + 1) =~= members_view(members).take(i as int).push(members_view(members)[i as int]));
        assert(tes3_stored(members_view(members).take(i as int + 1)) =~= tes3_stored(members_view(members).take(i as int)).push((spec_tes3_key(members_view(members)[i as int].0), members_view(members)[i as int].1)));
        i = i + 1;
    }
    assert(members_view(members).take(members@.len() as int) =~= members_view(members));
    let ghost stored_all = tes3_stored(members_view(members));
    match tes3_to_vec(&builder) {
        Ok(v) => {
            proof {
                lemma_reads_back(members_view(members), stored_all, v@, true);
            }
            Ok(v)
        },
        Err(err) => Err(ArchiveError::Archive(err.to_string())),
    }
}

/// Write a TES4 BSA of version `version`, archive types `types`, default
/// compression `compressed` and name mode `mode`, holding `members`.
pub fn write_tes4(
    members: &Vec<(Vec<u8>, Vec<u8>)>,
    version: Tes4FormatVersion,
    types: u16,
    compressed: bool,
    mode: Tes4NameMode,
) -> (r: Result<Vec<u8>>)
    ensures
        r is Ok <==> tes4_written((version, types, compressed, mode), members_view(members)) is Some,
        r matches Ok(v) ==> tes4_written((version, types, compressed, mode), members_view(members)) == Some(v@),
        r matches Err(e) ==> e is Archive,
        r matches Ok(v) ==> (mode == Tes4NameMode::Strings ==> reads_back(members_view(members), v@, true)),
{
    let mut builder = tes4_new();
    tes4_set_version(&mut builder, version);
    tes4_set_archive_types(&mut builder, types);
    tes4_set_compressed(&mut builder, compressed);
    tes4_set_name_mode(&mut builder, mode);
    let mut i: usize = 0;
    while i < members.len()
        invariant
            i <= members@.len(),
            spec_tes4_setup(builder) == (version, types, compressed, mode, true),
            spec_tes4_members(builder) == tes4_stored(members_view(members).take(i as int)),
            forall|k: int| 0 <= k < i && plain_key(#[trigger] members_view(members)[k].0) ==> spec_tes4_key(members_view(members)[k].0) == slash_to_backslash(members_view(members)[k].0),
            forall|k: int| 0 <= k < i ==> #[trigger] spec_tes4_add_ok(tes4_stored(members_view(members).take(k)), members_view(members)[k].0, members_view(members)[k].1),
        decreases members@.len() - i,
    {
        let member = &members[i];
        assert(members_view(members)[i as int] == (member.0@, member.1@));
        match tes4_add(&mut builder, member.0.as_slice(), member.1.as_slice()) {
            Ok(()) => {},
            Err(err) => {
                assert(!spec_tes4_add_ok(tes4_stored(members_view(members).take(i as int)), members_view(members)[i as int].0, members_view(members)[i as int].1));
                return Err(ArchiveError::Archive(err.to_string()));
            },
        }
        assert(members_view(members).take(i as int + 1) =~= members_view(members).take(i as int).push(members_view(members)[i as int]));
        assert(tes4_stored(members_view(members).take(i as int + 1)) =~= tes4_stored(members_view(members).take(i as int)).push((spec_tes4_key(members_view(members)[i as int].0), members_view(members)[i as int].1)));
        i = i + 1;
    }
    assert(members_view(members).take(members@.len() as int) =~= members_view(members));
    let ghost stored_all = tes4_stored(members_view(members));
    match tes4_to_vec(&builder) {
        Ok(v) => {
            proof {
                if mode == Tes4NameMode::Strings {
                    lemma_reads_back(members_view(members), stored_all, v@, true);
                }
            }
            Ok(v)
        },
        Err(err) => Err(ArchiveError::Archive(err.to_string())),
    }
}

/// Write a general BA2 of version `version` holding `members`.
pub fn write_ba2(members: &Vec<(Vec<u8>, Vec<u8>)>, version: Ba2FormatVersion) -> (r: Result<Vec<u8>>)
    ensures
        r is Ok <==> ba2_written(version, members_view(members)) is Some,
        r matches Ok(v) ==> ba2_written(version, members_view(members)) == Some(v@),
        r matches Err(e) ==> e is Archive,
        r matches Ok(v) ==> reads_back(members_view(members), v@, true),
        r matches Ok(v) ==> opens_as_ba2(v@, Ba2PayloadKind::Gnrl, version),
{
    let mut builder = ba2_new();
    ba2_set_version(&mut builder, version);
    let mut i: usize = 0;
    while i < members.len()
        invariant
            i <= members@.len(),
            spec_ba2_setup(builder) == (version, true),
            spec_ba2_members(builder) == ba2_stored(members_view(members).take(i as int)),
            forall|k: int| 0 <= k < i && plain_key(#[trigger] members_view(members)[k].0) ==> spec_ba2_key(members_view(members)[k].0) == slash_to_backslash(members_view(members)[k].0),
            forall|k: int| 0 <= k < i ==> #[trigger] spec_ba2_add_ok(ba2_stored(members_view(members).take(k)), members_view(members)[k].0, members_view(members)[k].1),
        decreases members@.len() - i,
    {
        let member = &members[i];
        assert(members_view(members)[i as int] == (member.0@, member.1@));
        match ba2_add(&mut builder, member.0.as_slice(), member.1.as_slice()) {
            Ok(()) => {},
            Err(err) => {
                assert(!spec_ba2_add_ok(ba2_stored(members_view(members).take(i as int)), members_view(members)[i as int].0, members_view(members)[i as int].1));
                return Err(ArchiveError::Archive(err.to_string()));
            },
        }
        assert(members_view(members).take(i as int + 1) =~= members_view(members).take(i as int).push(members_view(members)[i as int]));
        assert(ba2_stored(members_view(members).take(i as int + 1)) =~= ba2_stored(members_view(members).take(i as int)).push((spec_ba2_key(members_view(members)[i as int].0), members_view(members)[i as int].1)));
        i = i + 1;
    }
    assert(members_view(members).take(members@.len() as int) =~= members_view(members));
    let ghost stored_all = ba2_stored(members_view(members));
    match ba2_to_vec(&builder) {
        Ok(v) => {
            proof {
                lemma_reads_back(members_view(members), stored_all, v@, true);
            }
            Ok(v)
        },
        Err(err) => Err(ArchiveError::Archive(err.to_string())),
    }
}

/// Write a DX10 BA2 of version `version` holding the DDS files in `members`.
pub fn write_dx10(members: &Vec<(Vec<u8>, Vec<u8>)>, version: Ba2FormatVersion) -> (r: Result<Vec<u8>>)
    ensures
        r is Ok <==> dx10_written(version, members_view(members)) is Some,
        r matches Ok(v) ==> dx10_written(version, members_view(members)) == Some(v@),
        r matches Err(e) ==> e is Archive,
        r matches Ok(v) ==> reads_back(members_view(members), v@, false),
        r matches Ok(v) ==> opens_as_ba2(v@, Ba2PayloadKind::Dx10, version),
{
    let mut builder = dx10_new();
    dx10_set_version(&mut builder, version);
    let mut i: usize = 0;
    while i < members.len()
        invariant
            i <= members@.len(),
            spec_dx10_setup(builder) == (version, true),
            spec_dx10_members(builder) == ba2_stored(members_view(members).take(i as int)),
            forall|k: int| 0 <= k < i && plain_key(#[trigger] members_view(members)[k].0) ==> spec_ba2_key(members_view(members)[k].0) == slash_to_backslash(members_view(members)[k].0),
            forall|k: int| 0 <= k < i ==> #[trigger] spec_dx10_add_ok(ba2_stored(members_view(members).take(k)), members_view(members)[k].0, members_view(members)[k].1),
        decreases members@.len() - i,
    {
        let member = &members[i];
        assert(members_view(members)[i as int] == (member.0@, member.1@));
        match dx10_add(&mut builder, member.0.as_slice(), member.1.as_slice()) {
            Ok(()) => {},
            Err(err) => {
                assert(!spec_dx10_add_ok(ba2_stored(members_view(members).take(i as int)), members_view(members)[i as int].0, members_view(members)[i as int].1));
                return Err(ArchiveError::Archive(err.to_string()));
            },
        }
        assert(members_view(members).take(i as int + 1) =~= members_view(members).take(i as int).push(members_view(members)[i as int]));
        assert(ba2_stored(members_view(members).take(i as int + 1)) =~= ba2_stored(members_view(members).take(i as int)).push((spec_ba2_key(members_view(members)[i as int].0), members_view(members)[i as int].1)));
        i = i + 1;
    }
    assert(members_view(members).take(members@.len() as int) =~= members_view(members));
    let ghost stored_all = ba2_stored(members_view(members));
    match dx10_to_vec(&builder) {
        Ok(v) => {
            proof {
                lemma_reads_back(members_view(members), stored_all, v@, false);
            }
            Ok(v)
        },
        Err(err) => Err(ArchiveError::Archive(err.to_string())),
    }
}

} // verus!
