//! Creating and updating archives. Input files become archive paths, inputs and
//! preserved entries merge into one table sorted by path, and the table is
//! written by the builder of the archive's family.

use vstd::prelude::*;
use vstd::string::*;

use crate::builders::{
    members_view, opens_as_ba2, plain_key, ba2_written, dx10_written, reads_back, tes3_written, tes4_written,
    write_ba2, write_dx10, write_tes3, write_tes4, Tes4NameMode,
};
use crate::byte_map::{has_key, lemma_sorted_insert, lemma_sorted_insert_elements, lemma_to_map_dom, sorted_insert, sorted_keys, to_map, ByteMap};
use crate::error::{ArchiveError, Result};
use crate::format::{ArchiveFormat, Ba2FormatVersion, Ba2PayloadKind, Tes4FormatVersion};
use crate::paths::{
    archive_path_bytes_to_display, is_safe_archive_path, is_unsafe_path_error,
    normalize_archive_path_bytes, spec_lossy_display, spec_normalize,
    validate_archive_path_bytes_for_extraction,
};
use crate::loaded::{spec_open_index, spec_read_file, EntryView, IndexView, LoadedArchive, LoadedEntry, OpenedIndex};
use crate::rewrite_policy::{ensure_rewritable, gnmf_blocker, spec_rewrite_blocker};
use crate::verify::{entry_readable, read_failure};

verus! {

// ---------------------------------------------------------------------------
// Options
// ---------------------------------------------------------------------------

/// Supported TES4-family BSA versions for archive creation.
#[derive(Debug, Clone, Copy, PartialEq, Eq, Structural)]
pub enum Tes4Version {
    /// The Elder Scrolls IV: Oblivion BSA format.
    Oblivion,
    /// Fallout 3 BSA format.
    Fallout3,
    /// The Elder Scrolls V: Skyrim BSA format.
    Skyrim,
    /// Skyrim Special Edition BSA format.
    SkyrimSe,
}

/// Supported FO4-family BA2 archive kinds.
#[derive(Debug, Clone, Copy, PartialEq, Eq, Structural)]
pub enum Fo4ArchiveKind {
    /// General-purpose BA2 archive.
    Gnrl,
    /// DirectX texture BA2 archive. Entries must use `.dds` paths.
    Dx10,
    /// GNMF model BA2 archive. Entries must use `.gnf` paths.
    Gnmf,
}

/// Supported FO4-family BA2 versions for archive creation.
#[derive(Debug, Clone, Copy, PartialEq, Eq, Structural)]
pub enum Fo4Version {
    /// Fallout 4 BA2 version.
    Fallout4,
    /// Starfield BA2 version.
    Starfield,
    /// Fallout 4 next-generation update BA2 version.
    Fallout4NextGen,
}

/// Options controlling archive creation.
#[derive(Debug, Clone, Copy, PartialEq, Eq, Structural)]
pub struct CreateOptions {
    /// Archive family to write.
    pub format: ArchiveFormat,
    /// TES4 BSA version used when `format` is TES4.
    pub tes4_version: Tes4Version,
    /// FO4/Starfield BA2 kind used when `format` is FO4.
    pub fo4_kind: Fo4ArchiveKind,
    /// FO4/Starfield BA2 version used when `format` is FO4.
    pub fo4_version: Fo4Version,
}

impl Default for CreateOptions {
    fn default() -> (options: Self)
        ensures
            options.format == ArchiveFormat::Tes3,
            options.tes4_version == Tes4Version::Oblivion,
            options.fo4_kind == Fo4ArchiveKind::Gnrl,
            options.fo4_version == Fo4Version::Fallout4,
    {
        CreateOptions {
            format: ArchiveFormat::Tes3,
            tes4_version: Tes4Version::Oblivion,
            fo4_kind: Fo4ArchiveKind::Gnrl,
            fo4_version: Fo4Version::Fallout4,
        }
    }
}

/// The TES4 header version written for a game.
pub open spec fn spec_tes4_version(v: Tes4Version) -> Tes4FormatVersion {
    match v {
        Tes4Version::Oblivion => Tes4FormatVersion::V103,
        Tes4Version::Fallout3 | Tes4Version::Skyrim => Tes4FormatVersion::V104,
        Tes4Version::SkyrimSe => Tes4FormatVersion::V105,
    }
}

pub fn tes4_format_version(v: Tes4Version) -> (f: Tes4FormatVersion)
    ensures
        f == spec_tes4_version(v),
{
    match v {
        Tes4Version::Oblivion => Tes4FormatVersion::V103,
        Tes4Version::Fallout3 | Tes4Version::Skyrim => Tes4FormatVersion::V104,
        Tes4Version::SkyrimSe => Tes4FormatVersion::V105,
    }
}

/// The BA2 header version written for a game.
pub open spec fn spec_ba2_version(v: Fo4Version) -> Ba2FormatVersion {
    match v {
        Fo4Version::Fallout4 => Ba2FormatVersion::V1,
        Fo4Version::Starfield => Ba2FormatVersion::V2,
        Fo4Version::Fallout4NextGen => Ba2FormatVersion::V7,
    }
}

pub fn ba2_format_version(v: Fo4Version) -> (f: Ba2FormatVersion)
    ensures
        f == spec_ba2_version(v),
{
    match v {
        Fo4Version::Fallout4 => Ba2FormatVersion::V1,
        Fo4Version::Starfield => Ba2FormatVersion::V2,
        Fo4Version::Fallout4NextGen => Ba2FormatVersion::V7,
    }
}

pub open spec fn spec_payload_kind(kind: Fo4ArchiveKind) -> Ba2PayloadKind {
    match kind {
        Fo4ArchiveKind::Gnrl => Ba2PayloadKind::Gnrl,
        Fo4ArchiveKind::Dx10 => Ba2PayloadKind::Dx10,
        Fo4ArchiveKind::Gnmf => Ba2PayloadKind::Gnmf,
    }
}

pub fn payload_kind(kind: Fo4ArchiveKind) -> (k: Ba2PayloadKind)
    ensures
        k == spec_payload_kind(kind),
{
    match kind {
        Fo4ArchiveKind::Gnrl => Ba2PayloadKind::Gnrl,
        Fo4ArchiveKind::Dx10 => Ba2PayloadKind::Dx10,
        Fo4ArchiveKind::Gnmf => Ba2PayloadKind::Gnmf,
    }
}

/// The archive kind a BA2 payload table corresponds to.
pub fn fo4_kind_from_payload_format(format: Ba2PayloadKind) -> (kind: Fo4ArchiveKind)
    ensures
        spec_payload_kind(kind) == format,
{
    match format {
        Ba2PayloadKind::Gnrl => Fo4ArchiveKind::Gnrl,
        Ba2PayloadKind::Dx10 => Fo4ArchiveKind::Dx10,
        Ba2PayloadKind::Gnmf => Fo4ArchiveKind::Gnmf,
    }
}

// ---------------------------------------------------------------------------
// Input files
// ---------------------------------------------------------------------------

/// One component of a relative input path: a plain name, or anything else
/// (a root, a prefix, `.` or `..`).
#[derive(Debug, Clone)]
pub enum PathPart {
    Normal(Vec<u8>),
    Other,
}

impl View for PathPart {
    type V = Option<Seq<u8>>;

    open spec fn view(&self) -> Option<Seq<u8>> {
        match self {
            PathPart::Normal(b) => Some(b@),
            PathPart::Other => None,
        }
    }
}

/// A file gathered from an input: its path relative to the input root, one
/// part per component, that path as text, the source file as text, and its bytes.
#[derive(Debug, Clone)]
pub struct InputFile {
    pub parts: Vec<PathPart>,
    pub shown: String,
    pub source: String,
    pub bytes: Vec<u8>,
}

pub struct InputFileView {
    pub parts: Seq<Option<Seq<u8>>>,
    pub shown: Seq<char>,
    pub source: Seq<char>,
    pub bytes: Seq<u8>,
}

impl View for InputFile {
    type V = InputFileView;

    open spec fn view(&self) -> InputFileView {
        InputFileView {
            parts: self.parts@.map_values(|p: PathPart| p@),
            shown: self.shown@,
            source: self.source@,
            bytes: self.bytes@,
        }
    }
}

pub open spec fn files_view(files: &Vec<InputFile>) -> Seq<InputFileView> {
    files@.map_values(|f: InputFile| f@)
}

/// Options for adding or replacing entries in an archive.
#[derive(Debug, Clone)]
pub struct AddOptions {
    /// The files of each input, one list per input, in the order given.
    pub inputs: Vec<Vec<InputFile>>,
    /// Output archive path as text, which must name another file than the source;
    /// `None` rewrites the source archive itself (through a temporary file).
    pub output: Option<String>,
}

impl Default for AddOptions {
    fn default() -> (options: Self)
        ensures
            options.inputs@.len() == 0,
            options.output is None,
    {
        AddOptions { inputs: Vec::new(), output: None }
    }
}

pub open spec fn inputs_view(inputs: &Vec<Vec<InputFile>>) -> Seq<Seq<InputFileView>> {
    inputs@.map_values(|files: Vec<InputFile>| files@.map_values(|f: InputFile| f@))
}

// ---------------------------------------------------------------------------
// Archive paths of input files
// ---------------------------------------------------------------------------

pub open spec fn all_normal(parts: Seq<Option<Seq<u8>>>) -> bool {
    forall|i: int| 0 <= i < parts.len() ==> (#[trigger] parts[i]) is Some
}

/// The parts joined with `/`; a separator goes in only once something was written.
pub open spec fn spec_joined(parts: Seq<Option<Seq<u8>>>) -> Seq<u8>
    decreases parts.len(),
{
    if parts.len() == 0 {
        seq![]
    } else {
        let acc = spec_joined(parts.drop_last());
        let part = match parts.last() {
            Some(b) => b,
            None => seq![],
        };
        (if acc.len() > 0 { acc.push(47u8) } else { acc }) + part
    }
}

/// The archive path of a relative input path: its plain parts joined and
/// normalized, when every part is plain and the result is safe to extract.
pub open spec fn spec_archive_path(parts: Seq<Option<Seq<u8>>>) -> Option<Seq<u8>> {
    if all_normal(parts) && is_safe_archive_path(spec_normalize(spec_joined(parts))) {
        Some(spec_normalize(spec_joined(parts)))
    } else {
        None
    }
}

/// The error for an input path without an archive path: the whole path as text
/// when a part is not plain, otherwise the rejected normalized path.
pub open spec fn input_path_error(f: InputFileView, e: ArchiveError) -> bool {
    if !all_normal(f.parts) {
        e matches ArchiveError::UnsafePath(m) && m@ == f.shown
    } else {
        is_unsafe_path_error(e, spec_normalize(spec_joined(f.parts)))
    }
}

fn append_part(out: &mut Vec<u8>, part: &Vec<u8>)
    ensures
        final(out)@ == old(out)@ + part@,
{
    let ghost start = out@;
    let mut i: usize = 0;
    while i < part.len()
        invariant
            i <= part@.len(),
            out@ == start + part@.take(i as int),
        decreases part@.len() - i,
    {
        out.push(part[i]);
        assert(part@.take(i as int + 1) =~= part@.take(i as int).push(part@[i as int]));
        i = i + 1;
    }
    assert(part@.take(part@.len() as int) =~= part@);
}

/// Convert a relative input path to a normalized archive path that is safe to extract.
pub fn path_to_archive_bytes(parts: &Vec<PathPart>, shown: &str) -> (r: Result<Vec<u8>>)
    ensures
        r is Ok <==> spec_archive_path(parts@.map_values(|p: PathPart| p@)) is Some,
        r matches Ok(v) ==> Some(v@) == spec_archive_path(parts@.map_values(|p: PathPart| p@)),
        r matches Err(e) ==> input_path_error(
            InputFileView { parts: parts@.map_values(|p: PathPart| p@), shown: shown@, source: seq![], bytes: seq![] },
            e,
        ),
{
    let ghost pv = parts@.map_values(|p: PathPart| p@);
    let mut bytes: Vec<u8> = Vec::new();
    let mut i: usize = 0;
    while i < parts.len()
        invariant
            pv == parts@.map_values(|p: PathPart| p@),
            i <= parts@.len(),
            all_normal(pv.take(i as int)),
            bytes@ == spec_joined(pv.take(i as int)),
        decreases parts@.len() - i,
    {
        assert(pv.take(i as int + 1).drop_last() =~= pv.take(i as int));
        match &parts[i] {
            PathPart::Normal(part) => {
                if bytes.len() > 0 {
                    bytes.push(47u8);
                }
                append_part(&mut bytes, part);
                assert(pv.take(i as int + 1).last() == Some(part@));
                assert forall|j: int| 0 <= j < i + 1 implies (#[trigger] pv.take(i as int + 1)[j]) is Some by {
                    if j < i {
                        assert(pv.take(i as int + 1)[j] == pv.take(i as int)[j]);
                    }
                }
            },
            PathPart::Other => {
                assert(!all_normal(pv)) by {
                    assert(pv[i as int] is None);
                }
                return Err(ArchiveError::UnsafePath(String::from_str(shown)));
            },
        }
        i = i + 1;
    }
    assert(pv.take(parts@.len() as int) =~= pv);
    let normalized = normalize_archive_path_bytes(bytes.as_slice());
    validate_archive_path_bytes_for_extraction(normalized.as_slice())?;
    Ok(normalized)
}

// ---------------------------------------------------------------------------
// Collecting one input
// ---------------------------------------------------------------------------

/// Archive paths of the files of one input, sorted, each with the position of
/// its file; `Err(i)` names the first file whose path is unusable or repeats an
/// earlier one.
pub open spec fn spec_collect(files: Seq<InputFileView>) -> core::result::Result<Seq<(Seq<u8>, usize)>, int>
    decreases files.len(),
{
    if files.len() == 0 {
        Ok(seq![])
    } else {
        match spec_collect(files.drop_last()) {
            Err(i) => Err(i),
            Ok(s) => match spec_archive_path(files.last().parts) {
                None => Err(files.len() - 1),
                Some(k) => if has_key(s, k) {
                    Err(files.len() - 1)
                } else {
                    Ok(sorted_insert(s, k, (files.len() - 1) as usize))
                },
            },
        }
    }
}

pub open spec fn duplicate_input_text(path: Seq<u8>) -> Seq<char> {
    "duplicate archive path after normalization: "@ + spec_lossy_display(path)
}

/// The error collection reports for file `i`.
pub open spec fn collect_error(f: InputFileView, e: ArchiveError) -> bool {
    match spec_archive_path(f.parts) {
        None => input_path_error(f, e),
        Some(k) => e matches ArchiveError::Archive(m) && m@ == duplicate_input_text(k),
    }
}

/// Every position in a collected table is below `n`.
pub open spec fn positions_below(s: Seq<(Seq<u8>, usize)>, n: int) -> bool {
    forall|j: int| 0 <= j < s.len() ==> (#[trigger] s[j]).1 < n
}

/// A collected table is sorted and points at files of the input.
pub proof fn lemma_collect_facts(files: Seq<InputFileView>)
    ensures
        spec_collect(files) matches Ok(s) ==> sorted_keys(s) && positions_below(s, files.len() as int),
        spec_collect(files) matches Err(i) ==> 0 <= i < files.len(),
    decreases files.len(),
{
    if files.len() > 0 {
        lemma_collect_facts(files.drop_last());
        if let Ok(s) = spec_collect(files.drop_last()) {
            if let Some(k) = spec_archive_path(files.last().parts) {
                if !has_key(s, k) {
                    let n = (files.len() - 1) as usize;
                    lemma_sorted_insert(s, k, n);
                    lemma_sorted_insert_elements(s, k, n);
                }
            }
        }
    }
}

pub(crate) fn duplicate_input_error(path: &Vec<u8>) -> (e: ArchiveError)
    ensures
        e matches ArchiveError::Archive(m) && m@ == duplicate_input_text(path@),
{
    let mut message = String::from_str("duplicate archive path after normalization: ");
    let shown = archive_path_bytes_to_display(path.as_slice());
    message.append(shown.as_str());
    proof {
        reveal_strlit("duplicate archive path after normalization: ");
    }
    ArchiveError::Archive(message)
}

/// Map the archive path of every file of one input to the file's position,
/// refusing unusable paths and paths that two files share.
pub fn collect_input_entries(files: &Vec<InputFile>) -> (r: Result<ByteMap<usize>>)
    ensures
        spec_collect(files_view(files)) matches Ok(s) ==> (r matches Ok(t) && sorted_keys(t@) && t@ == s),
        spec_collect(files_view(files)) matches Err(i) ==> (r matches Err(e) && collect_error(files_view(files)[i], e)),
{
    let ghost all = files_view(files);
    let mut table: ByteMap<usize> = ByteMap::new();
    let mut i: usize = 0;
    assert(all.take(0) =~= Seq::<InputFileView>::empty());
    while i < files.len()
        invariant
            all == files_view(files),
            i <= files@.len(),
            sorted_keys(table@),
            spec_collect(all.take(i as int)) == Ok::<Seq<(Seq<u8>, usize)>, int>(table@),
        decreases files@.len() - i,
    {
        let ghost prefix = all.take(i as int + 1);
        assert(prefix.drop_last() =~= all.take(i as int));
        assert(prefix.last() == files@[i as int]@);
        let file = &files[i];
        let key = match path_to_archive_bytes(&file.parts, file.shown.as_str()) {
            Ok(k) => k,
            Err(e) => {
                assert(spec_collect(prefix) == Err::<Seq<(Seq<u8>, usize)>, int>(i as int));
                proof {
                    lemma_collect_stops(all, i as int + 1);
                }
                assert(all[i as int] == file@);
                return Err(e);
            },
        };
        if table.contains_key(key.as_slice()) {
            assert(spec_collect(prefix) == Err::<Seq<(Seq<u8>, usize)>, int>(i as int));
            proof {
                lemma_collect_stops(all, i as int + 1);
            }
            assert(all[i as int] == file@);
            return Err(duplicate_input_error(&key));
        }
        table.insert(key, i);
        i = i + 1;
    }
    assert(all.take(files@.len() as int) =~= all);
    Ok(table)
}

/// Once collection fails at some file, every longer prefix fails there too.
pub proof fn lemma_collect_stops(files: Seq<InputFileView>, n: int)
    requires
        0 <= n <= files.len(),
        spec_collect(files.take(n)) is Err,
    ensures
        spec_collect(files) == spec_collect(files.take(n)),
    decreases files.len() - n,
{
    if n < files.len() {
        assert(files.take(n + 1).drop_last() =~= files.take(n));
        lemma_collect_stops(files, n + 1);
    } else {
        assert(files.take(n) =~= files);
    }
}


// ---------------------------------------------------------------------------
// Extensions and BA2 payload policy
// ---------------------------------------------------------------------------

/// Position of the last `b` in `s`, or -1.
pub open spec fn last_index_of(s: Seq<u8>, b: u8) -> int
    decreases s.len(),
{
    if s.len() == 0 {
        -1
    } else if s.last() == b {
        s.len() - 1
    } else {
        last_index_of(s.drop_last(), b)
    }
}

pub proof fn lemma_last_index_bounds(s: Seq<u8>, b: u8)
    ensures
        -1 <= last_index_of(s, b) < s.len(),
        last_index_of(s, b) >= 0 ==> s[last_index_of(s, b)] == b,
    decreases s.len(),
{
    if s.len() > 0 {
        lemma_last_index_bounds(s.drop_last(), b);
    }
}

/// The file name of `path` the way `std::path::Path::file_name` finds it on a
/// byte path: the last component after empty and `.` components are passed
/// over, unless that component is `..` or there is none.
pub open spec fn spec_file_component(path: Seq<u8>) -> Option<Seq<u8>>
    decreases path.len(),
{
    let start = last_index_of(path, 47u8) + 1;
    let piece = path.subrange(start, path.len() as int);
    if piece.len() == 0 || piece == seq![46u8] {
        if start <= 0 {
            None
        } else {
            proof {
                lemma_last_index_bounds(path, 47u8);
            }
            spec_file_component(path.subrange(0, start - 1))
        }
    } else if piece == seq![46u8, 46u8] {
        None
    } else {
        Some(piece)
    }
}

/// The extension of a path the way `std::path::Path::extension` gives it: the
/// bytes of the file name after its last `.`, unless that `.` is the name's
/// first byte.
pub open spec fn spec_extension(path: Seq<u8>) -> Option<Seq<u8>> {
    match spec_file_component(path) {
        Some(name) => {
            let dot = last_index_of(name, 46u8);
            if dot > 0 {
                Some(name.subrange(dot + 1, name.len() as int))
            } else {
                None
            }
        },
        None => None,
    }
}

pub open spec fn ascii_lower(b: u8) -> u8 {
    if 65u8 <= b <= 90u8 {
        (b + 32) as u8
    } else {
        b
    }
}

pub open spec fn eq_ignore_ascii_case(a: Seq<u8>, b: Seq<u8>) -> bool {
    a.len() == b.len() && forall|i: int| 0 <= i < a.len() ==> ascii_lower(#[trigger] a[i]) == ascii_lower(b[i])
}

pub open spec fn spec_has_extension(path: Seq<u8>, expected: Seq<u8>) -> bool {
    spec_extension(path) matches Some(e) && eq_ignore_ascii_case(e, expected)
}

/// One past the position of the last `b` in `s[lo..hi]`, counted from `lo`; 0
/// when there is none.
fn last_index_between(s: &[u8], lo: usize, hi: usize, b: u8) -> (r: usize)
    requires
        lo <= hi <= s@.len(),
    ensures
        r == last_index_of(s@.subrange(lo as int, hi as int), b) + 1,
{
    let ghost part = s@.subrange(lo as int, hi as int);
    let mut i: usize = hi;
    assert(part.take(part.len() as int) =~= part);
    while i > lo
        invariant
            lo <= i <= hi <= s@.len(),
            part == s@.subrange(lo as int, hi as int),
            last_index_of(part, b) == last_index_of(part.take(i - lo), b),
        decreases i,
    {
        let ghost prefix = part.take(i - lo);
        assert(prefix.last() == s@[i - 1]);
        if s[i - 1] == b {
            return i - lo;
        }
        assert(prefix.drop_last() =~= part.take(i - 1 - lo));
        i = i - 1;
    }
    0
}

/// Where the file name of `path` lies, as `spec_file_component` defines it.
fn file_component_range(path: &[u8]) -> (r: Option<(usize, usize)>)
    ensures
        r is None <==> spec_file_component(path@) is None,
        r matches Some((s, e)) ==> s <= e <= path@.len() && spec_file_component(path@) == Some(
            path@.subrange(s as int, e as int),
        ),
{
    let mut end: usize = path.len();
    assert(path@.subrange(0, end as int) =~= path@);
    loop
        invariant
            end <= path@.len(),
            spec_file_component(path@) == spec_file_component(path@.subrange(0, end as int)),
        decreases end,
    {
        let ghost prefix = path@.subrange(0, end as int);
        let start = last_index_between(path, 0, end, 47u8);
        proof {
            lemma_last_index_bounds(prefix, 47u8);
        }
        let ghost piece = prefix.subrange(start as int, prefix.len() as int);
        assert(piece =~= path@.subrange(start as int, end as int));
        let len = end - start;
        if len == 0 || (len == 1 && path[start] == 46u8) {
            assert(piece.len() == 0 || piece =~= seq![46u8]);
            if start == 0 {
                return None;
            }
            assert(prefix.subrange(0, start - 1) =~= path@.subrange(0, start - 1));
            end = start - 1;
        } else if len == 2 && path[start] == 46u8 && path[start + 1] == 46u8 {
            assert(piece =~= seq![46u8, 46u8]);
            return None;
        } else {
            assert(piece.len() != 0);
            assert(piece != seq![46u8]) by {
                if piece.len() == 1 {
                    assert(piece[0] == path@[start as int]);
                }
            }
            assert(piece != seq![46u8, 46u8]) by {
                if piece.len() == 2 {
                    assert(piece[0] == path@[start as int]);
                    assert(piece[1] == path@[start + 1]);
                }
            }
            return Some((start, end));
        }
    }
}

fn ascii_lower_byte(b: u8) -> (l: u8)
    ensures
        l == ascii_lower(b),
{
    if 65u8 <= b && b <= 90u8 {
        b + 32
    } else {
        b
    }
}

/// Whether the file name of `path` has the extension `expected`, ignoring ASCII case.
pub fn has_extension(path: &[u8], expected: &[u8]) -> (b: bool)
    ensures
        b == spec_has_extension(path@, expected@),
{
    let (start, end) = match file_component_range(path) {
        Some(range) => range,
        None => return false,
    };
    let ghost name = path@.subrange(start as int, end as int);
    let dot1 = last_index_between(path, start, end, 46u8);
    proof {
        lemma_last_index_bounds(name, 46u8);
    }
    if dot1 <= 1 {
        assert(spec_extension(path@) is None);
        return false;
    }
    assert(dot1 <= name.len());
    assert(name.len() == end - start);
    let ext_start: usize = start + dot1;
    let ghost ext = name.subrange(dot1 as int, name.len() as int);
    assert(ext =~= path@.subrange(ext_start as int, end as int));
    assert(spec_extension(path@) == Some(ext));
    if end - ext_start != expected.len() {
        assert(ext.len() != expected@.len());
        return false;
    }
    let mut i: usize = 0;
    while i < expected.len()
        invariant
            ext_start + expected@.len() == end,
            end <= path@.len(),
            ext == path@.subrange(ext_start as int, end as int),
            spec_extension(path@) == Some(ext),
            i <= expected@.len(),
            forall|j: int| 0 <= j < i ==> ascii_lower(#[trigger] ext[j]) == ascii_lower(expected@[j]),
        decreases expected@.len() - i,
    {
        assert(ext_start + i < end);
        assert(ext[i as int] == path@[ext_start + i]);
        if ascii_lower_byte(path[ext_start + i]) != ascii_lower_byte(expected[i]) {
            assert(ascii_lower(ext[i as int]) != ascii_lower(expected@[i as int]));
            return false;
        }
        i = i + 1;
    }
    true
}

/// The extension every entry of a BA2 payload table must have, if any.
pub open spec fn required_extension(kind: Fo4ArchiveKind) -> Option<Seq<u8>> {
    match kind {
        Fo4ArchiveKind::Gnrl => None,
        Fo4ArchiveKind::Dx10 => Some(seq![100u8, 100u8, 115u8]),
        Fo4ArchiveKind::Gnmf => Some(seq![103u8, 110u8, 102u8]),
    }
}

pub open spec fn extension_error_text(kind: Fo4ArchiveKind, path: Seq<u8>) -> Seq<char> {
    match kind {
        Fo4ArchiveKind::Dx10 => "DX10 BA2 archives can only contain .dds files: "@ + spec_lossy_display(path),
        _ => "GNMF BA2 archives can only contain .gnf files: "@ + spec_lossy_display(path),
    }
}

/// Whether every member path carries the extension a payload table requires.
pub open spec fn extensions_ok(members: Seq<(Seq<u8>, Seq<u8>)>, kind: Fo4ArchiveKind) -> bool {
    required_extension(kind) matches Some(ext) ==> forall|j: int| 0 <= j < members.len() ==> spec_has_extension(#[trigger] members[j].0, ext)
}

/// `e` reports the first member without the required extension.
pub open spec fn extension_error(members: Seq<(Seq<u8>, Seq<u8>)>, kind: Fo4ArchiveKind, e: ArchiveError) -> bool {
    required_extension(kind) matches Some(ext) && exists|j: int| 0 <= j < members.len()
        && !spec_has_extension(members[j].0, ext)
        && (forall|i: int| 0 <= i < j ==> spec_has_extension(#[trigger] members[i].0, ext))
        && (e matches ArchiveError::Archive(m) && m@ == extension_error_text(kind, members[j].0))
}

fn extension_error_for(kind: Fo4ArchiveKind, path: &Vec<u8>) -> (e: ArchiveError)
    requires
        kind != Fo4ArchiveKind::Gnrl,
    ensures
        e matches ArchiveError::Archive(m) && m@ == extension_error_text(kind, path@),
{
    let mut message = match kind {
        Fo4ArchiveKind::Dx10 => String::from_str("DX10 BA2 archives can only contain .dds files: "),
        _ => String::from_str("GNMF BA2 archives can only contain .gnf files: "),
    };
    proof {
        reveal_strlit("DX10 BA2 archives can only contain .dds files: ");
        reveal_strlit("GNMF BA2 archives can only contain .gnf files: ");
    }
    let shown = archive_path_bytes_to_display(path.as_slice());
    message.append(shown.as_str());
    ArchiveError::Archive(message)
}

/// Require the extension a BA2 payload table needs: `.dds` for DX10, `.gnf` for GNMF.
pub fn validate_fo4_entries(members: &Vec<(Vec<u8>, Vec<u8>)>, kind: Fo4ArchiveKind) -> (r: Result<()>)
    ensures
        r is Ok <==> extensions_ok(members_view(members), kind),
        r matches Err(e) ==> extension_error(members_view(members), kind, e),
{
    let expected: Vec<u8> = match kind {
        Fo4ArchiveKind::Gnrl => return Ok(()),
        Fo4ArchiveKind::Dx10 => vec![100u8, 100u8, 115u8],
        Fo4ArchiveKind::Gnmf => vec![103u8, 110u8, 102u8],
    };
    assert(required_extension(kind) == Some(expected@));
    let ghost mv = members_view(members);
    let mut j: usize = 0;
    while j < members.len()
        invariant
            mv == members_view(members),
            required_extension(kind) == Some(expected@),
            kind != Fo4ArchiveKind::Gnrl,
            j <= members@.len(),
            forall|i: int| 0 <= i < j ==> spec_has_extension(#[trigger] mv[i].0, expected@),
        decreases members@.len() - j,
    {
        let path = &members[j].0;
        assert(mv[j as int].0 == path@);
        if !has_extension(path.as_slice(), expected.as_slice()) {
            let e = extension_error_for(kind, path);
            assert(extension_error(mv, kind, e)) by {
                assert(!spec_has_extension(mv[j as int].0, expected@));
            }
            return Err(e);
        }
        j = j + 1;
    }
    Ok(())
}

// ---------------------------------------------------------------------------
// Output archives
// ---------------------------------------------------------------------------

/// The family and settings of an archive to write.
#[derive(Debug, Clone, Copy, PartialEq, Eq, Structural)]
pub enum ArchiveTarget {
    Tes3,
    /// Version, archive-type bits, default compression, name mode.
    Tes4(Tes4FormatVersion, u16, bool, Tes4NameMode),
    /// Payload table and version.
    Ba2(Ba2PayloadKind, Ba2FormatVersion),
}

pub open spec fn gnmf_write_text() -> Seq<char> {
    gnmf_blocker()
}

/// A builder's answer: the bytes it writes when it accepts the members, an
/// archive error exactly when it refuses them.
pub open spec fn builder_outcome(written: Option<Seq<u8>>, r: Result<Vec<u8>>) -> bool {
    &&& r is Ok <==> written is Some
    &&& r matches Ok(v) ==> written == Some(v@)
    &&& r matches Err(e) ==> e is Archive
}

/// What writing `members` to `target` gives: the policy errors this crate
/// decides, or, once they pass, the builder's bytes; a builder may also refuse.
pub open spec fn write_outcome(target: ArchiveTarget, members: Seq<(Seq<u8>, Seq<u8>)>, r: Result<Vec<u8>>) -> bool {
    match target {
        ArchiveTarget::Tes3 => builder_outcome(tes3_written(members), r)
            && (r matches Ok(v) ==> reads_back(members, v@, true)),
        ArchiveTarget::Tes4(version, types, compressed, mode) => builder_outcome(tes4_written((version, types, compressed, mode), members), r)
            && (r matches Ok(v) ==> (mode == Tes4NameMode::Strings ==> reads_back(members, v@, true))),
        ArchiveTarget::Ba2(kind, version) => {
            let k = match kind {
                Ba2PayloadKind::Gnrl => Fo4ArchiveKind::Gnrl,
                Ba2PayloadKind::Dx10 => Fo4ArchiveKind::Dx10,
                Ba2PayloadKind::Gnmf => Fo4ArchiveKind::Gnmf,
            };
            if !extensions_ok(members, k) {
                r matches Err(e) && extension_error(members, k, e)
            } else if kind == Ba2PayloadKind::Gnmf {
                r matches Err(ArchiveError::Archive(m)) && m@ == gnmf_write_text()
            } else if kind == Ba2PayloadKind::Dx10 {
                builder_outcome(dx10_written(version, members), r) && (r matches Ok(v) ==> reads_back(members, v@, false))
                    && (r matches Ok(v) ==> opens_as_ba2(v@, kind, version))
            } else {
                builder_outcome(ba2_written(version, members), r) && (r matches Ok(v) ==> reads_back(members, v@, true))
                    && (r matches Ok(v) ==> opens_as_ba2(v@, kind, version))
            }
        },
    }
}

/// Write a BA2 with the given payload table; the paths must fit the table, and
/// GNMF tables are not written.
pub fn write_fo4_with_format(members: &Vec<(Vec<u8>, Vec<u8>)>, kind: Ba2PayloadKind, version: Ba2FormatVersion) -> (r: Result<Vec<u8>>)
    ensures
        write_outcome(ArchiveTarget::Ba2(kind, version), members_view(members), r),
{
    validate_fo4_entries(members, fo4_kind_from_payload_format(kind))?;
    match kind {
        Ba2PayloadKind::Dx10 => write_dx10(members, version),
        Ba2PayloadKind::Gnmf => {
            proof {
                reveal_strlit("creating or updating GNMF BA2 archives requires console texture swizzle semantics and is not supported by dream_archive");
            }
            Err(ArchiveError::Archive(String::from_str("creating or updating GNMF BA2 archives requires console texture swizzle semantics and is not supported by dream_archive")))
        },
        Ba2PayloadKind::Gnrl => write_ba2(members, version),
    }
}

/// Write `members`, sorted by path, as an archive of `target`.
pub fn write_target(members: &Vec<(Vec<u8>, Vec<u8>)>, target: ArchiveTarget) -> (r: Result<Vec<u8>>)
    ensures
        write_outcome(target, members_view(members), r),
{
    match target {
        ArchiveTarget::Tes3 => write_tes3(members),
        ArchiveTarget::Tes4(version, types, compressed, mode) => write_tes4(members, version, types, compressed, mode),
        ArchiveTarget::Ba2(kind, version) => write_fo4_with_format(members, kind, version),
    }
}

/// The archive `create` writes for `options`: a new TES4 builder's MISC type,
/// no compression and string tables, or the chosen BA2 table and version.
pub open spec fn spec_create_target(options: CreateOptions) -> ArchiveTarget {
    match options.format {
        ArchiveFormat::Tes3 => ArchiveTarget::Tes3,
        ArchiveFormat::Tes4 => ArchiveTarget::Tes4(spec_tes4_version(options.tes4_version), 256u16, false, Tes4NameMode::Strings),
        ArchiveFormat::Fo4 => ArchiveTarget::Ba2(spec_payload_kind(options.fo4_kind), spec_ba2_version(options.fo4_version)),
    }
}

pub fn create_target(options: &CreateOptions) -> (t: ArchiveTarget)
    ensures
        t == spec_create_target(*options),
{
    match options.format {
        ArchiveFormat::Tes3 => ArchiveTarget::Tes3,
        ArchiveFormat::Tes4 => ArchiveTarget::Tes4(tes4_format_version(options.tes4_version), 256u16, false, Tes4NameMode::Strings),
        ArchiveFormat::Fo4 => ArchiveTarget::Ba2(payload_kind(options.fo4_kind), ba2_format_version(options.fo4_version)),
    }
}

pub open spec fn gnmf_create_text() -> Seq<char> {
    "creating GNMF BA2 archives requires console texture swizzle semantics and is not supported by dream_archive"@
}

pub open spec fn is_gnmf_create(options: CreateOptions) -> bool {
    options.format == ArchiveFormat::Fo4 && options.fo4_kind == Fo4ArchiveKind::Gnmf
}

/// Refuse option combinations that cannot be written.
pub fn reject_unsupported_create_options(options: &CreateOptions) -> (r: Result<()>)
    ensures
        r is Ok <==> !is_gnmf_create(*options),
        r matches Err(e) ==> e matches ArchiveError::Archive(m) && m@ == gnmf_create_text(),
{
    if options.format == ArchiveFormat::Fo4 && options.fo4_kind == Fo4ArchiveKind::Gnmf {
        proof {
            reveal_strlit("creating GNMF BA2 archives requires console texture swizzle semantics and is not supported by dream_archive");
        }
        return Err(ArchiveError::Archive(String::from_str("creating GNMF BA2 archives requires console texture swizzle semantics and is not supported by dream_archive")));
    }
    Ok(())
}

// ---------------------------------------------------------------------------
// Creating an archive
// ---------------------------------------------------------------------------

/// An archive written in memory: how many entries it holds, and its bytes.
#[derive(Debug, Clone)]
pub struct WrittenArchive {
    pub files: usize,
    pub bytes: Vec<u8>,
}

/// The bytes of a written archive, or the error.
pub open spec fn written_bytes(r: Result<WrittenArchive>) -> Result<Vec<u8>> {
    match r {
        Ok(w) => Ok(w.bytes),
        Err(e) => Err(e),
    }
}

/// The members of a created archive: each collected path with its file's bytes.
pub open spec fn spec_create_members(files: Seq<InputFileView>, table: Seq<(Seq<u8>, usize)>) -> Seq<(Seq<u8>, Seq<u8>)> {
    table.map_values(|e: (Seq<u8>, usize)| (e.0, files[e.1 as int].bytes))
}

/// What `create_archive` gives for these files and options.
pub open spec fn create_outcome(files: Seq<InputFileView>, options: CreateOptions, r: Result<WrittenArchive>) -> bool {
    if is_gnmf_create(options) {
        r matches Err(ArchiveError::Archive(m)) && m@ == gnmf_create_text()
    } else {
        match spec_collect(files) {
            Err(i) => r matches Err(e) && collect_error(files[i], e),
            Ok(table) => (r matches Ok(w) ==> w.files == table.len())
                && write_outcome(spec_create_target(options), spec_create_members(files, table), written_bytes(r)),
        }
    }
}

fn copy_bytes(bytes: &Vec<u8>) -> (copy: Vec<u8>)
    ensures
        copy@ == bytes@,
{
    let mut copy: Vec<u8> = Vec::new();
    let mut i: usize = 0;
    while i < bytes.len()
        invariant
            i <= bytes@.len(),
            copy@ == bytes@.take(i as int),
        decreases bytes@.len() - i,
    {
        copy.push(bytes[i]);
        assert(bytes@.take(i as int + 1) =~= bytes@.take(i as int).push(bytes@[i as int]));
        i = i + 1;
    }
    assert(bytes@.take(bytes@.len() as int) =~= bytes@);
    copy
}

pub fn create_members(files: &Vec<InputFile>, table: &ByteMap<usize>) -> (members: Vec<(Vec<u8>, Vec<u8>)>)
    requires
        positions_below(table@, files@.len() as int),
    ensures
        members_view(&members) == spec_create_members(files_view(files), table@),
{
    let ghost fv = files_view(files);
    let mut members: Vec<(Vec<u8>, Vec<u8>)> = Vec::new();
    let mut j: usize = 0;
    while j < table.len()
        invariant
            fv == files_view(files),
            positions_below(table@, files@.len() as int),
            j <= table@.len(),
            members_view(&members) == spec_create_members(fv, table@.take(j as int)),
        decreases table@.len() - j,
    {
        let (key, index) = table.entry_at(j);
        assert(table@[j as int].1 < files@.len());
        let payload = copy_bytes(&files[*index].bytes);
        let ghost before = members_view(&members);
        members.push((copy_bytes(key), payload));
        assert(fv[*index as int] == files@[*index as int]@);
        assert(members_view(&members) =~= before.push((key@, fv[*index as int].bytes)));
        assert(table@.take(j as int + 1) =~= table@.take(j as int).push(table@[j as int]));
        assert(spec_create_members(fv, table@.take(j as int + 1)) =~= spec_create_members(fv, table@.take(j as int)).push(
            (table@[j as int].0, fv[table@[j as int].1 as int].bytes)));
        j = j + 1;
    }
    assert(table@.take(table@.len() as int) =~= table@);
    members
}

/// Create an archive from the files of one input; returns the entry count and
/// the archive bytes.
pub fn create_archive(files: &Vec<InputFile>, options: &CreateOptions) -> (r: Result<WrittenArchive>)
    ensures
        create_outcome(files_view(files), *options, r),
{
    reject_unsupported_create_options(options)?;
    let table = collect_input_entries(files)?;
    proof {
        lemma_collect_facts(files_view(files));
    }
    let members = create_members(files, &table);
    let bytes = write_target(&members, create_target(options))?;
    Ok(WrittenArchive { files: table.len(), bytes })
}

// ---------------------------------------------------------------------------
// Merging inputs with an existing archive
// ---------------------------------------------------------------------------

/// Where an entry of an updated archive comes from: file `file` of input
/// `input`, or existing entry `entry` of the archive.
#[derive(Debug, Clone, Copy, PartialEq, Eq, Structural)]
pub enum AddSource {
    Input(usize, usize),
    Existing(usize),
}

pub open spec fn tag_input(s: Seq<(Seq<u8>, usize)>, t: int) -> Seq<(Seq<u8>, AddSource)> {
    s.map_values(|e: (Seq<u8>, usize)| (e.0, AddSource::Input(t as usize, e.1)))
}

/// `acc` with the entries of `s` put in, in order; a later entry replaces an earlier one.
pub open spec fn insert_all(acc: Seq<(Seq<u8>, AddSource)>, s: Seq<(Seq<u8>, AddSource)>) -> Seq<(Seq<u8>, AddSource)>
    decreases s.len(),
{
    if s.len() == 0 {
        acc
    } else {
        sorted_insert(insert_all(acc, s.drop_last()), s.last().0, s.last().1)
    }
}

/// The inputs collected one by one, a later input replacing the paths of an
/// earlier one; `Err((t, i))` names the first unusable or repeated file.
pub open spec fn spec_merge_inputs(inputs: Seq<Seq<InputFileView>>) -> core::result::Result<Seq<(Seq<u8>, AddSource)>, (int, int)>
    decreases inputs.len(),
{
    if inputs.len() == 0 {
        Ok(seq![])
    } else {
        match spec_merge_inputs(inputs.drop_last()) {
            Err(p) => Err(p),
            Ok(acc) => match spec_collect(inputs.last()) {
                Err(i) => Err((inputs.len() - 1, i)),
                Ok(s) => Ok(insert_all(acc, tag_input(s, inputs.len() - 1))),
            },
        }
    }
}

/// `table` with every existing entry whose path it lacks, the first entry of a
/// path winning.
pub open spec fn with_existing(table: Seq<(Seq<u8>, AddSource)>, entries: Seq<EntryView>) -> Seq<(Seq<u8>, AddSource)>
    decreases entries.len(),
{
    if entries.len() == 0 {
        table
    } else {
        let r = with_existing(table, entries.drop_last());
        if has_key(r, entries.last().path) {
            r
        } else {
            sorted_insert(r, entries.last().path, AddSource::Existing((entries.len() - 1) as usize))
        }
    }
}

/// Existing entry `j` is kept because no input and no earlier entry has its path.
#[verifier::opaque]
pub open spec fn preserved_at(merged: Seq<(Seq<u8>, AddSource)>, entries: Seq<EntryView>, j: int) -> bool {
    !has_key(with_existing(merged, entries.take(j)), entries[j].path)
}

/// Every kept existing entry can be read.
pub open spec fn preserved_readable(archive: dream_archive::Archive, merged: Seq<(Seq<u8>, AddSource)>, entries: Seq<EntryView>) -> bool {
    forall|j: int| 0 <= j < entries.len() && preserved_at(merged, entries, j) ==> entry_readable(archive, #[trigger] entries[j])
}

/// `e` is the read error of the first kept existing entry that cannot be read.
pub open spec fn first_preserved_failure(archive: dream_archive::Archive, merged: Seq<(Seq<u8>, AddSource)>, entries: Seq<EntryView>, e: ArchiveError) -> bool {
    exists|j: int|
        0 <= j < entries.len() && preserved_at(merged, entries, j)
            && (forall|i: int| 0 <= i < j && preserved_at(merged, entries, i) ==> entry_readable(archive, #[trigger] entries[i]))
            && read_failure(archive, entries[j].path, e)
}

pub open spec fn existing_payload(archive: dream_archive::Archive, e: EntryView) -> Seq<u8> {
    match spec_read_file(archive, e.path) {
        Some(Some(p)) => p,
        _ => seq![],
    }
}

/// The members of an updated archive: each path with its input file's bytes or
/// its existing entry's payload.
pub open spec fn spec_add_members(
    table: Seq<(Seq<u8>, AddSource)>,
    inputs: Seq<Seq<InputFileView>>,
    archive: dream_archive::Archive,
    entries: Seq<EntryView>,
) -> Seq<(Seq<u8>, Seq<u8>)> {
    table.map_values(|e: (Seq<u8>, AddSource)| (e.0, match e.1 {
        AddSource::Input(t, i) => inputs[t as int][i as int].bytes,
        AddSource::Existing(j) => existing_payload(archive, entries[j as int]),
    }))
}

/// Every source of a table points at an input file or an existing entry.
pub open spec fn sources_valid(table: Seq<(Seq<u8>, AddSource)>, inputs: Seq<Seq<InputFileView>>, entries: Seq<EntryView>) -> bool {
    forall|j: int| 0 <= j < table.len() ==> match (#[trigger] table[j]).1 {
        AddSource::Input(t, i) => t < inputs.len() && i < inputs[t as int].len(),
        AddSource::Existing(k) => k < entries.len(),
    }
}

pub proof fn lemma_insert_all_facts(
    acc: Seq<(Seq<u8>, AddSource)>,
    s: Seq<(Seq<u8>, AddSource)>,
    inputs: Seq<Seq<InputFileView>>,
    entries: Seq<EntryView>,
)
    requires
        sorted_keys(acc),
        sources_valid(acc, inputs, entries),
        sources_valid(s, inputs, entries),
    ensures
        sorted_keys(insert_all(acc, s)),
        sources_valid(insert_all(acc, s), inputs, entries),
    decreases s.len(),
{
    if s.len() > 0 {
        let init = s.drop_last();
        assert(sources_valid(init, inputs, entries)) by {
            assert forall|j: int| 0 <= j < init.len() implies match (#[trigger] init[j]).1 {
                AddSource::Input(t, i) => t < inputs.len() && i < inputs[t as int].len(),
                AddSource::Existing(k) => k < entries.len(),
            } by {
                assert(init[j] == s[j]);
            }
        }
        lemma_insert_all_facts(acc, init, inputs, entries);
        let r = insert_all(acc, init);
        lemma_sorted_insert(r, s.last().0, s.last().1);
        lemma_sorted_insert_elements(r, s.last().0, s.last().1);
        let t = sorted_insert(r, s.last().0, s.last().1);
        assert forall|j: int| 0 <= j < t.len() implies match (#[trigger] t[j]).1 {
            AddSource::Input(a, i) => a < inputs.len() && i < inputs[a as int].len(),
            AddSource::Existing(k) => k < entries.len(),
        } by {
            if t[j] != s.last() {
                let m = choose|m: int| 0 <= m < r.len() && r[m] == t[j];
                assert(r[m] == t[j]);
            } else {
                assert(s[s.len() - 1] == s.last());
            }
        }
    }
}

pub proof fn lemma_merge_facts(inputs: Seq<Seq<InputFileView>>, entries: Seq<EntryView>)
    requires
        inputs.len() <= usize::MAX,
    ensures
        spec_merge_inputs(inputs) matches Ok(m) ==> sorted_keys(m) && sources_valid(m, inputs, entries),
    decreases inputs.len(),
{
    if inputs.len() > 0 {
        let init = inputs.drop_last();
        lemma_merge_facts(init, entries);
        if let Ok(acc) = spec_merge_inputs(init) {
            if let Ok(s) = spec_collect(inputs.last()) {
                let t = inputs.len() - 1;
                lemma_collect_facts(inputs.last());
                assert(sources_valid(acc, inputs, entries)) by {
                    assert forall|j: int| 0 <= j < acc.len() implies match (#[trigger] acc[j]).1 {
                        AddSource::Input(a, i) => a < inputs.len() && i < inputs[a as int].len(),
                        AddSource::Existing(k) => k < entries.len(),
                    } by {
                        if let AddSource::Input(a, i) = acc[j].1 {
                            assert(inputs[a as int] == init[a as int]);
                        }
                    }
                }
                assert(sources_valid(tag_input(s, t), inputs, entries)) by {
                    assert forall|j: int| 0 <= j < tag_input(s, t).len() implies match (#[trigger] tag_input(s, t)[j]).1 {
                        AddSource::Input(a, i) => a < inputs.len() && i < inputs[a as int].len(),
                        AddSource::Existing(k) => k < entries.len(),
                    } by {
                        assert(s[j].1 < inputs.last().len());
                        assert(tag_input(s, t)[j] == (s[j].0, AddSource::Input(t as usize, s[j].1)));
                        assert(inputs[t] == inputs.last());
                    }
                }
                lemma_insert_all_facts(acc, tag_input(s, t), inputs, entries);
            }
        }
    }
}

/// Collect every input and merge them, a later input replacing the paths of an earlier one.
pub fn merge_inputs(inputs: &Vec<Vec<InputFile>>) -> (r: Result<ByteMap<AddSource>>)
    ensures
        spec_merge_inputs(inputs_view(inputs)) matches Ok(m) ==> (r matches Ok(t) && t@ == m),
        spec_merge_inputs(inputs_view(inputs)) matches Err(p) ==> (r matches Err(e)
            && 0 <= p.0 < inputs@.len() && collect_error(inputs_view(inputs)[p.0][p.1], e)),
{
    let ghost all = inputs_view(inputs);
    let mut merged: ByteMap<AddSource> = ByteMap::new();
    let mut t: usize = 0;
    assert(all.take(0) =~= Seq::<Seq<InputFileView>>::empty());
    while t < inputs.len()
        invariant
            all == inputs_view(inputs),
            t <= inputs@.len(),
            sorted_keys(merged@),
            spec_merge_inputs(all.take(t as int)) == Ok::<Seq<(Seq<u8>, AddSource)>, (int, int)>(merged@),
        decreases inputs@.len() - t,
    {
        let ghost prefix = all.take(t as int + 1);
        assert(prefix.drop_last() =~= all.take(t as int));
        assert(prefix.last() == files_view(&inputs[t as int]));
        let collected = match collect_input_entries(&inputs[t]) {
            Ok(c) => c,
            Err(e) => {
                proof {
                    lemma_collect_facts(files_view(&inputs[t as int]));
                    lemma_merge_stops(all, t as int + 1);
                }
                return Err(e);
            },
        };
        let ghost acc = merged@;
        let ghost tagged = tag_input(collected@, t as int);
        let mut j: usize = 0;
        assert(tagged.take(0) =~= Seq::<(Seq<u8>, AddSource)>::empty());
        while j < collected.len()
            invariant
                j <= collected@.len(),
                tagged == tag_input(collected@, t as int),
                sorted_keys(merged@),
                merged@ == insert_all(acc, tagged.take(j as int)),
            decreases collected@.len() - j,
        {
            let (key, index) = collected.entry_at(j);
            merged.insert(copy_bytes(key), AddSource::Input(t, *index));
            assert(tagged.take(j as int + 1).drop_last() =~= tagged.take(j as int));
            assert(tagged.take(j as int + 1).last() == (key@, AddSource::Input(t, *index)));
            j = j + 1;
        }
        assert(tagged.take(collected@.len() as int) =~= tagged);
        t = t + 1;
    }
    assert(all.take(inputs@.len() as int) =~= all);
    Ok(merged)
}

/// Whether input `t` collects the path `k`.
pub open spec fn in_input(inputs: Seq<Seq<InputFileView>>, t: int, k: Seq<u8>) -> bool {
    spec_collect(inputs[t]) matches Ok(s) && has_key(s, k)
}

/// Whether `k` is collected by two different inputs among the first `n`.
pub open spec fn repeated_below(inputs: Seq<Seq<InputFileView>>, n: int, k: Seq<u8>) -> bool {
    exists|a: int, b: int| 0 <= a < b < n && #[trigger] in_input(inputs, a, k) && #[trigger] in_input(inputs, b, k)
}

/// Whether two different inputs collect the same normalized path.
pub open spec fn inputs_overlap(inputs: Seq<Seq<InputFileView>>) -> bool {
    exists|k: Seq<u8>| #[trigger] repeated_below(inputs, inputs.len() as int, k)
}

/// When merging succeeds, every input collects.
pub proof fn lemma_merge_ok_collects(inputs: Seq<Seq<InputFileView>>, t: int)
    requires
        spec_merge_inputs(inputs) is Ok,
        0 <= t < inputs.len(),
    ensures
        spec_collect(inputs[t]) is Ok,
    decreases inputs.len(),
{
    if t < inputs.len() - 1 {
        assert(inputs.drop_last()[t] == inputs[t]);
        lemma_merge_ok_collects(inputs.drop_last(), t);
    }
}

/// A path that two different inputs collect, if there is one: such inputs
/// would each claim the same archive entry.
pub fn find_repeated_input_path(inputs: &Vec<Vec<InputFile>>) -> (r: Option<Vec<u8>>)
    requires
        spec_merge_inputs(inputs_view(inputs)) is Ok,
    ensures
        r is None <==> !inputs_overlap(inputs_view(inputs)),
        r matches Some(k) ==> repeated_below(inputs_view(inputs), inputs@.len() as int, k@),
{
    let ghost all = inputs_view(inputs);
    let mut seen: ByteMap<()> = ByteMap::new();
    let mut t: usize = 0;
    while t < inputs.len()
        invariant
            all == inputs_view(inputs),
            spec_merge_inputs(all) is Ok,
            t <= inputs@.len(),
            sorted_keys(seen@),
            forall|k: Seq<u8>| #[trigger] to_map(seen@).contains_key(k) <==> exists|a: int| 0 <= a < t && #[trigger] in_input(all, a, k),
            forall|k: Seq<u8>| !#[trigger] repeated_below(all, t as int, k),
        decreases inputs@.len() - t,
    {
        proof {
            lemma_merge_ok_collects(all, t as int);
        }
        assert(all[t as int] == files_view(&inputs[t as int]));
        let collected = match collect_input_entries(&inputs[t]) {
            Ok(c) => c,
            Err(_) => {
                assert(false);
                return None;
            },
        };
        let ghost cs = collected@;
        assert(spec_collect(all[t as int]) == Ok::<Seq<(Seq<u8>, usize)>, int>(cs));
        let mut j: usize = 0;
        while j < collected.len()
            invariant
                cs == collected@,
                all == inputs_view(inputs),
                t < all.len(),
                sorted_keys(cs),
                sorted_keys(seen@),
                spec_collect(all[t as int]) == Ok::<Seq<(Seq<u8>, usize)>, int>(cs),
                j <= cs.len(),
                forall|k: Seq<u8>| #[trigger] to_map(seen@).contains_key(k) <==> exists|a: int| 0 <= a < t && #[trigger] in_input(all, a, k),
                forall|jj: int| 0 <= jj < j ==> !to_map(seen@).contains_key(#[trigger] cs[jj].0),
            decreases cs.len() - j,
        {
            let (key, _) = collected.entry_at(j);
            if seen.contains_key(key.as_slice()) {
                proof {
                    assert(has_key(cs, key@)) by {
                        assert(cs[j as int].0 == key@);
                    }
                    assert(in_input(all, t as int, key@));
                    let a = choose|a: int| 0 <= a < t && #[trigger] in_input(all, a, key@);
                    assert(repeated_below(all, all.len() as int, key@));
                }
                return Some(copy_bytes(key));
            }
            j = j + 1;
        }
        proof {
            assert forall|k: Seq<u8>| !#[trigger] repeated_below(all, t as int + 1, k) by {
                if repeated_below(all, t as int + 1, k) {
                    let (a, b) = choose|a: int, b: int| 0 <= a < b < t + 1 && #[trigger] in_input(all, a, k) && #[trigger] in_input(all, b, k);
                    if b < t {
                        assert(repeated_below(all, t as int, k));
                    } else {
                        assert(has_key(cs, k));
                        let jj = choose|jj: int| 0 <= jj < cs.len() && (#[trigger] cs[jj]).0 == k;
                        assert(to_map(seen@).contains_key(k));
                    }
                }
            }
        }
        let mut j: usize = 0;
        let ghost seen0 = seen@;
        while j < collected.len()
            invariant
                cs == collected@,
                all == inputs_view(inputs),
                t < all.len(),
                sorted_keys(seen@),
                spec_collect(all[t as int]) == Ok::<Seq<(Seq<u8>, usize)>, int>(cs),
                j <= cs.len(),
                forall|k: Seq<u8>| #[trigger] to_map(seen@).contains_key(k) <==> (to_map(seen0).contains_key(k)
                    || exists|jj: int| 0 <= jj < j && (#[trigger] cs[jj]).0 == k),
            decreases cs.len() - j,
        {
            let (key, _) = collected.entry_at(j);
            seen.insert(copy_bytes(key), ());
            proof {
                assert forall|k: Seq<u8>| #[trigger] to_map(seen@).contains_key(k) <==> (to_map(seen0).contains_key(k)
                    || exists|jj: int| 0 <= jj < j + 1 && (#[trigger] cs[jj]).0 == k) by {
                    if k == key@ {
                        assert(cs[j as int].0 == k);
                    }
                    if exists|jj: int| 0 <= jj < j + 1 && (#[trigger] cs[jj]).0 == k {
                        let jj = choose|jj: int| 0 <= jj < j + 1 && (#[trigger] cs[jj]).0 == k;
                        if jj < j {
                            assert(exists|x: int| 0 <= x < j && (#[trigger] cs[x]).0 == k);
                        }
                    }
                }
            }
            j = j + 1;
        }
        proof {
            assert forall|k: Seq<u8>| #[trigger] to_map(seen@).contains_key(k) <==> exists|a: int| 0 <= a < t + 1 && #[trigger] in_input(all, a, k) by {
                if exists|jj: int| 0 <= jj < cs.len() && (#[trigger] cs[jj]).0 == k {
                    let jj = choose|jj: int| 0 <= jj < cs.len() && (#[trigger] cs[jj]).0 == k;
                    assert(has_key(cs, k));
                    assert(in_input(all, t as int, k));
                }
                if in_input(all, t as int, k) {
                    assert(has_key(cs, k));
                    let jj = choose|jj: int| 0 <= jj < cs.len() && (#[trigger] cs[jj]).0 == k;
                }
                if exists|a: int| 0 <= a < t + 1 && #[trigger] in_input(all, a, k) {
                    let a = choose|a: int| 0 <= a < t + 1 && #[trigger] in_input(all, a, k);
                    if a < t {
                        assert(exists|x: int| 0 <= x < t && #[trigger] in_input(all, x, k));
                    }
                }
            }
        }
        t = t + 1;
    }
    None
}

/// Once merging fails at some input, every longer prefix fails there too.
pub proof fn lemma_merge_stops(inputs: Seq<Seq<InputFileView>>, n: int)
    requires
        0 <= n <= inputs.len(),
        spec_merge_inputs(inputs.take(n)) is Err,
    ensures
        spec_merge_inputs(inputs) == spec_merge_inputs(inputs.take(n)),
    decreases inputs.len() - n,
{
    if n < inputs.len() {
        assert(inputs.take(n + 1).drop_last() =~= inputs.take(n));
        lemma_merge_stops(inputs, n + 1);
    } else {
        assert(inputs.take(n) =~= inputs);
    }
}

/// Every source in a table of merged inputs is an input file.
pub open spec fn inputs_only(table: Seq<(Seq<u8>, AddSource)>) -> bool {
    forall|j: int| 0 <= j < table.len() ==> (#[trigger] table[j]).1 is Input
}

pub proof fn lemma_insert_all_inputs_only(acc: Seq<(Seq<u8>, AddSource)>, s: Seq<(Seq<u8>, AddSource)>)
    requires
        inputs_only(acc),
        inputs_only(s),
    ensures
        inputs_only(insert_all(acc, s)),
    decreases s.len(),
{
    if s.len() > 0 {
        let init = s.drop_last();
        assert(inputs_only(init)) by {
            assert forall|j: int| 0 <= j < init.len() implies (#[trigger] init[j]).1 is Input by {
                assert(init[j] == s[j]);
            }
        }
        lemma_insert_all_inputs_only(acc, init);
        let r = insert_all(acc, init);
        lemma_sorted_insert_elements(r, s.last().0, s.last().1);
        let t = sorted_insert(r, s.last().0, s.last().1);
        assert forall|j: int| 0 <= j < t.len() implies (#[trigger] t[j]).1 is Input by {
            if t[j] != s.last() {
                let m = choose|m: int| 0 <= m < r.len() && r[m] == t[j];
                assert(r[m] == t[j]);
            } else {
                assert(s[s.len() - 1] == s.last());
            }
        }
    }
}

pub proof fn lemma_merge_inputs_only(inputs: Seq<Seq<InputFileView>>)
    ensures
        spec_merge_inputs(inputs) matches Ok(m) ==> inputs_only(m),
    decreases inputs.len(),
{
    if inputs.len() > 0 {
        lemma_merge_inputs_only(inputs.drop_last());
        if let Ok(acc) = spec_merge_inputs(inputs.drop_last()) {
            if let Ok(s) = spec_collect(inputs.last()) {
                let tagged = tag_input(s, inputs.len() - 1);
                assert(inputs_only(tagged)) by {
                    assert forall|j: int| 0 <= j < tagged.len() implies (#[trigger] tagged[j]).1 is Input by {
                        assert(tagged[j] == (s[j].0, AddSource::Input((inputs.len() - 1) as usize, s[j].1)));
                    }
                }
                lemma_insert_all_inputs_only(acc, tagged);
            }
        }
    }
}

/// The payload read for existing entry `k` is its payload.
pub open spec fn payload_ready(payloads: Seq<Option<Vec<u8>>>, archive: dream_archive::Archive, entries: Seq<EntryView>, k: int) -> bool {
    payloads[k] matches Some(p) && p@ == existing_payload(archive, entries[k])
}

/// An existing source points at a kept entry.
pub open spec fn existing_kept(source: AddSource, merged: Seq<(Seq<u8>, AddSource)>, entries: Seq<EntryView>) -> bool {
    match source {
        AddSource::Existing(k) => preserved_at(merged, entries, k as int),
        AddSource::Input(_, _) => true,
    }
}

/// An existing source has its payload read.
pub open spec fn existing_ready(source: AddSource, payloads: Seq<Option<Vec<u8>>>, archive: dream_archive::Archive, entries: Seq<EntryView>) -> bool {
    match source {
        AddSource::Existing(k) => payload_ready(payloads, archive, entries, k as int),
        AddSource::Input(_, _) => true,
    }
}

/// Adding existing entries keeps the table sorted and its sources valid, and
/// every existing source it adds is a kept entry.
pub proof fn lemma_with_existing_facts(merged: Seq<(Seq<u8>, AddSource)>, inputs: Seq<Seq<InputFileView>>, entries: Seq<EntryView>)
    requires
        sorted_keys(merged),
        inputs_only(merged),
        sources_valid(merged, inputs, entries),
        entries.len() <= usize::MAX,
    ensures
        sorted_keys(with_existing(merged, entries)),
        sources_valid(with_existing(merged, entries), inputs, entries),
        forall|j: int| 0 <= j < with_existing(merged, entries).len() ==> existing_kept((#[trigger] with_existing(merged, entries)[j]).1, merged, entries),
    decreases entries.len(),
{
    reveal(preserved_at);
    if entries.len() > 0 {
        let init = entries.drop_last();
        assert(sources_valid(merged, inputs, init)) by {
            assert forall|j: int| 0 <= j < merged.len() implies match (#[trigger] merged[j]).1 {
                AddSource::Input(t, i) => t < inputs.len() && i < inputs[t as int].len(),
                AddSource::Existing(k) => k < init.len(),
            } by {
                assert(merged[j].1 is Input);
            }
        }
        lemma_with_existing_facts(merged, inputs, init);
        let r = with_existing(merged, init);
        let n = entries.len() - 1;
        assert forall|k: int| 0 <= k < init.len() implies preserved_at(merged, init, k) == preserved_at(merged, entries, k) by {
            assert(init.take(k) =~= entries.take(k));
            assert(init[k] == entries[k]);
        }
        assert(entries.take(n) =~= init);
        if !has_key(r, entries.last().path) {
            let v = AddSource::Existing(n as usize);
            lemma_sorted_insert(r, entries.last().path, v);
            lemma_sorted_insert_elements(r, entries.last().path, v);
            let t = sorted_insert(r, entries.last().path, v);
            assert forall|j: int| 0 <= j < t.len() implies match (#[trigger] t[j]).1 {
                AddSource::Input(a, i) => a < inputs.len() && i < inputs[a as int].len(),
                AddSource::Existing(k) => k < entries.len() && preserved_at(merged, entries, k as int),
            } by {
                if t[j] != (entries.last().path, v) {
                    let m = choose|m: int| 0 <= m < r.len() && r[m] == t[j];
                    assert(r[m] == t[j]);
                }
            }
        } else {
            assert forall|j: int| 0 <= j < r.len() implies match (#[trigger] r[j]).1 {
                AddSource::Input(a, i) => a < inputs.len() && i < inputs[a as int].len(),
                AddSource::Existing(k) => k < entries.len() && preserved_at(merged, entries, k as int),
            } by {
            }
        }
    }
}

/// Every kept entry before `j` can be read.
#[verifier::opaque]
pub open spec fn kept_readable_upto(archive: dream_archive::Archive, merged: Seq<(Seq<u8>, AddSource)>, entries: Seq<EntryView>, j: int) -> bool {
    forall|i: int| 0 <= i < j && #[trigger] preserved_at(merged, entries, i) ==> entry_readable(archive, entries[i])
}

/// Every kept entry before `j` has its payload read.
#[verifier::opaque]
pub open spec fn kept_ready_upto(
    payloads: Seq<Option<Vec<u8>>>,
    archive: dream_archive::Archive,
    merged: Seq<(Seq<u8>, AddSource)>,
    entries: Seq<EntryView>,
    j: int,
) -> bool {
    forall|i: int| 0 <= i < j && #[trigger] preserved_at(merged, entries, i) ==> payload_ready(payloads, archive, entries, i)
}

pub proof fn lemma_keep_step(
    archive: dream_archive::Archive,
    merged: Seq<(Seq<u8>, AddSource)>,
    entries: Seq<EntryView>,
    payloads: Seq<Option<Vec<u8>>>,
    next: Seq<Option<Vec<u8>>>,
    j: int,
)
    requires
        0 <= j < entries.len(),
        payloads.len() == j,
        kept_readable_upto(archive, merged, entries, j),
        kept_ready_upto(payloads, archive, merged, entries, j),
        preserved_at(merged, entries, j) ==> entry_readable(archive, entries[j]) && next.len() == j + 1
            && next.take(j) == payloads && payload_ready(next, archive, entries, j),
        !preserved_at(merged, entries, j) ==> next == payloads.push(None),
    ensures
        kept_readable_upto(archive, merged, entries, j + 1),
        kept_ready_upto(next, archive, merged, entries, j + 1),
{
    reveal(kept_readable_upto);
    reveal(kept_ready_upto);
    assert forall|i: int| 0 <= i < j + 1 && #[trigger] preserved_at(merged, entries, i) implies payload_ready(next, archive, entries, i) by {
        if i < j {
            assert(payload_ready(payloads, archive, entries, i));
            assert(next[i] == payloads[i]);
        }
    }
}

pub proof fn lemma_keep_done(
    archive: dream_archive::Archive,
    merged: Seq<(Seq<u8>, AddSource)>,
    entries: Seq<EntryView>,
    payloads: Seq<Option<Vec<u8>>>,
)
    requires
        kept_readable_upto(archive, merged, entries, entries.len() as int),
        kept_ready_upto(payloads, archive, merged, entries, entries.len() as int),
    ensures
        preserved_readable(archive, merged, entries),
        forall|j: int| 0 <= j < entries.len() && #[trigger] preserved_at(merged, entries, j) ==> payload_ready(payloads, archive, entries, j),
{
    reveal(kept_readable_upto);
    reveal(kept_ready_upto);
}

pub proof fn lemma_first_preserved_failure(
    archive: dream_archive::Archive,
    merged: Seq<(Seq<u8>, AddSource)>,
    entries: Seq<EntryView>,
    j: int,
    e: ArchiveError,
)
    requires
        0 <= j < entries.len(),
        preserved_at(merged, entries, j),
        kept_readable_upto(archive, merged, entries, j),
        read_failure(archive, entries[j].path, e),
    ensures
        first_preserved_failure(archive, merged, entries, e),
        !preserved_readable(archive, merged, entries),
{
    reveal(kept_readable_upto);
    assert forall|i: int| 0 <= i < j && preserved_at(merged, entries, i) implies entry_readable(archive, #[trigger] entries[i]) by {
    }
    assert(!entry_readable(archive, entries[j]));
}

/// Add every existing entry whose path the table lacks, reading its payload;
/// returns the table and, per existing entry, the payload read for it.
fn preserve_existing(merged: ByteMap<AddSource>, archive: &LoadedArchive) -> (r: Result<(ByteMap<AddSource>, Vec<Option<Vec<u8>>>)>)
    requires
        sorted_keys(merged@),
    ensures
        preserved_readable(archive.source(), merged@, archive@.entries) <==> r is Ok,
        r matches Ok(out) ==> out.0@ == with_existing(merged@, archive@.entries)
            && out.1@.len() == archive@.entries.len()
            && (forall|j: int| 0 <= j < archive@.entries.len() && #[trigger] preserved_at(merged@, archive@.entries, j)
                ==> payload_ready(out.1@, archive.source(), archive@.entries, j)),
        r matches Err(e) ==> first_preserved_failure(archive.source(), merged@, archive@.entries, e),
{
    let ghost m0 = merged@;
    let ghost all = archive@.entries;
    let ghost source = archive.source();
    let entries = archive.list_loaded_entries();
    let mut table = merged;
    let mut payloads: Vec<Option<Vec<u8>>> = Vec::new();
    let mut j: usize = 0;
    assert(all.take(0) =~= Seq::<EntryView>::empty());
    proof {
        reveal(kept_readable_upto);
        reveal(kept_ready_upto);
    }
    while j < entries.len()
        invariant
            all == archive@.entries,
            source == archive.source(),
            m0 == merged@,
            entries@.map_values(|e: LoadedEntry| e@) == all,
            j <= entries@.len(),
            sorted_keys(table@),
            table@ == with_existing(m0, all.take(j as int)),
            payloads@.len() == j,
            kept_readable_upto(source, m0, all, j as int),
            kept_ready_upto(payloads@, source, m0, all, j as int),
        decreases entries@.len() - j,
    {
        let entry = &entries[j];
        assert(all[j as int] == entry@);
        assert(all.take(j as int + 1).drop_last() =~= all.take(j as int));
        assert(all.take(j as int + 1).last() == entry@);
        let ghost before = payloads@;
        proof {
            reveal(preserved_at);
        }
        if table.contains_key(entry.path.as_slice()) {
            payloads.push(None);
        } else {
            let payload = match archive.read_entry_bytes_by_normalized_path(entry.path.as_slice()) {
                Ok(p) => p,
                Err(e) => {
                    assert(read_failure(source, all[j as int].path, e));
                    proof {
                        lemma_first_preserved_failure(source, m0, all, j as int, e);
                    }
                    return Err(e);
                },
            };
            table.insert(copy_bytes(&entry.path), AddSource::Existing(j));
            payloads.push(Some(payload));
            assert(payloads@.take(j as int) =~= before);
        }
        proof {
            lemma_keep_step(source, m0, all, before, payloads@, j as int);
        }
        j = j + 1;
    }
    assert(all.take(entries@.len() as int) =~= all);
    proof {
        lemma_keep_done(source, m0, all, payloads@);
    }
    Ok((table, payloads))
}

/// The members of an updated archive, in table order.
fn add_members(
    table: &ByteMap<AddSource>,
    inputs: &Vec<Vec<InputFile>>,
    payloads: &Vec<Option<Vec<u8>>>,
    Ghost(archive): Ghost<dream_archive::Archive>,
    Ghost(entries): Ghost<Seq<EntryView>>,
) -> (members: Vec<(Vec<u8>, Vec<u8>)>)
    requires
        sources_valid(table@, inputs_view(inputs), entries),
        payloads@.len() == entries.len(),
        forall|j: int| 0 <= j < table@.len() ==> existing_ready((#[trigger] table@[j]).1, payloads@, archive, entries),
    ensures
        members_view(&members) == spec_add_members(table@, inputs_view(inputs), archive, entries),
{
    let ghost iv = inputs_view(inputs);
    let mut members: Vec<(Vec<u8>, Vec<u8>)> = Vec::new();
    let mut j: usize = 0;
    while j < table.len()
        invariant
            iv == inputs_view(inputs),
            sources_valid(table@, iv, entries),
            payloads@.len() == entries.len(),
            forall|m: int| 0 <= m < table@.len() ==> existing_ready((#[trigger] table@[m]).1, payloads@, archive, entries),
            j <= table@.len(),
            members_view(&members) == spec_add_members(table@.take(j as int), iv, archive, entries),
        decreases table@.len() - j,
    {
        let (key, source) = table.entry_at(j);
        let ghost entry = table@[j as int];
        let payload = match *source {
            AddSource::Input(t, i) => {
                assert(iv[t as int] == inputs@[t as int]@.map_values(|f: InputFile| f@));
                assert(iv[t as int][i as int] == inputs@[t as int]@[i as int]@);
                copy_bytes(&inputs[t][i].bytes)
            },
            AddSource::Existing(k) => match &payloads[k] {
                Some(p) => copy_bytes(p),
                None => Vec::new(),
            },
        };
        let ghost before = members_view(&members);
        members.push((copy_bytes(key), payload));
        assert(members_view(&members) =~= before.push((key@, payload@)));
        assert(table@.take(j as int + 1) =~= table@.take(j as int).push(entry));
        assert(spec_add_members(table@.take(j as int + 1), iv, archive, entries) =~= spec_add_members(table@.take(j as int), iv, archive, entries).push(
            spec_add_members(seq![entry], iv, archive, entries)[0]));
        j = j + 1;
    }
    assert(table@.take(table@.len() as int) =~= table@);
    members
}

/// How an updated TES4 archive stores names: string tables when both tables
/// were present, embedded names when they were.
pub open spec fn spec_tes4_name_mode(flags: u32) -> Tes4NameMode {
    let strings = flags & 1u32 != 0 && flags & 2u32 != 0;
    let embedded = flags & 256u32 != 0;
    if strings && embedded {
        Tes4NameMode::StringsAndEmbedded
    } else if strings {
        Tes4NameMode::Strings
    } else if embedded {
        Tes4NameMode::Embedded
    } else {
        Tes4NameMode::HashOnly
    }
}

pub fn tes4_name_mode(flags: u32) -> (mode: Tes4NameMode)
    ensures
        mode == spec_tes4_name_mode(flags),
{
    let has_directory_strings = flags & 1u32 != 0;
    let has_file_strings = flags & 2u32 != 0;
    let has_embedded_names = flags & 256u32 != 0;
    if has_directory_strings && has_file_strings && has_embedded_names {
        Tes4NameMode::StringsAndEmbedded
    } else if has_directory_strings && has_file_strings {
        Tes4NameMode::Strings
    } else if has_embedded_names {
        Tes4NameMode::Embedded
    } else {
        Tes4NameMode::HashOnly
    }
}

/// The archive an update writes: the family, version and settings of the archive read.
pub open spec fn spec_like_target(index: IndexView) -> ArchiveTarget {
    match index.tes4 {
        Some(s) => ArchiveTarget::Tes4(s.0, s.1, s.2 & 4u32 != 0, spec_tes4_name_mode(s.2)),
        None => match index.ba2 {
            Some(b) => ArchiveTarget::Ba2(b.0, b.1),
            None => ArchiveTarget::Tes3,
        },
    }
}

pub fn like_target(archive: &LoadedArchive) -> (t: ArchiveTarget)
    ensures
        t == spec_like_target(archive@),
{
    match archive.tes4_settings() {
        Some(settings) => ArchiveTarget::Tes4(settings.0, settings.1, settings.2 & 4u32 != 0, tes4_name_mode(settings.2)),
        None => match archive.ba2_settings() {
            Some(settings) => ArchiveTarget::Ba2(settings.0, settings.1),
            None => ArchiveTarget::Tes3,
        },
    }
}

/// `r` refuses a path that two inputs collect.
pub open spec fn overlap_error<T>(inputs: Seq<Seq<InputFileView>>, r: Result<T>) -> bool {
    r matches Err(ArchiveError::Archive(m)) && exists|k: Seq<u8>|
        #[trigger] repeated_below(inputs, inputs.len() as int, k) && m@ == duplicate_input_text(k)
}

/// Whether an explicit output names the source archive by the same text.
pub open spec fn output_is_source(label: Seq<char>, output: Option<String>) -> bool {
    output matches Some(o) && o@ == label
}

pub open spec fn same_output_text(label: Seq<char>) -> Seq<char> {
    "output archive is the source archive: "@ + label + "; omit the output to rewrite it in place"@
}

pub open spec fn no_inputs_text() -> Seq<char> {
    "no input files supplied"@
}

/// Refuse an update with no inputs.
pub fn reject_no_inputs(inputs: &Vec<Vec<InputFile>>) -> (r: Result<()>)
    ensures
        r is Ok <==> inputs@.len() > 0,
        r matches Err(e) ==> e matches ArchiveError::Archive(m) && m@ == no_inputs_text(),
{
    if inputs.len() == 0 {
        proof {
            reveal_strlit("no input files supplied");
        }
        return Err(ArchiveError::Archive(String::from_str("no input files supplied")));
    }
    Ok(())
}

/// Refuse an explicit output that names the source archive.
pub fn reject_output_is_source(label: &str, output: &Option<String>) -> (r: Result<()>)
    ensures
        r is Ok <==> !output_is_source(label@, *output),
        r matches Err(e) ==> e matches ArchiveError::Archive(m) && m@ == same_output_text(label@),
{
    match output {
        Some(o) => {
            if crate::lua_options::text_is(o.as_str(), label) {
                let mut message = String::from_str("output archive is the source archive: ");
                message.append(label);
                message.append("; omit the output to rewrite it in place");
                return Err(ArchiveError::Archive(message));
            }
            Ok(())
        },
        None => Ok(()),
    }
}

/// What `add_to_archive` gives for an opened archive and these inputs.
pub open spec fn add_outcome(o: OpenedIndex, inputs: Seq<Seq<InputFileView>>, r: Result<WrittenArchive>) -> bool {
    match spec_rewrite_blocker(o.index) {
        Some(b) => r matches Err(ArchiveError::Archive(m)) && m@ == b,
        None => match spec_merge_inputs(inputs) {
            Err(p) => r matches Err(e) && collect_error(inputs[p.0][p.1], e),
            Ok(merged) => if inputs_overlap(inputs) {
                overlap_error(inputs, r)
            } else if !preserved_readable(o.archive, merged, o.index.entries) {
                r matches Err(e) && first_preserved_failure(o.archive, merged, o.index.entries, e)
            } else {
                let table = with_existing(merged, o.index.entries);
                (r matches Ok(w) ==> w.files == table.len())
                    && write_outcome(spec_like_target(o.index), spec_add_members(table, inputs, o.archive, o.index.entries), written_bytes(r))
            },
        },
    }
}

/// Add or replace entries of an opened archive; returns the entry count and the
/// bytes of the new archive. Inputs replace existing entries with the same path.
pub fn add_to_loaded_archive(archive: &LoadedArchive, options: &AddOptions) -> (r: Result<WrittenArchive>)
    ensures
        add_outcome(OpenedIndex { archive: archive.source(), index: archive@ }, inputs_view(&options.inputs), r),
{
    ensure_rewritable(archive)?;
    let merged = merge_inputs(&options.inputs)?;
    if let Some(path) = find_repeated_input_path(&options.inputs) {
        return Err(duplicate_input_error(&path));
    }
    let input_count = options.inputs.len();
    assert(inputs_view(&options.inputs).len() == input_count);
    proof {
        lemma_merge_facts(inputs_view(&options.inputs), archive@.entries);
        lemma_merge_inputs_only(inputs_view(&options.inputs));
    }
    let ghost m0 = merged@;
    let (table, payloads) = preserve_existing(merged, archive)?;
    let named = archive.named_entry_count();
    proof {
        assert(archive@.entries.len() == named);
        lemma_with_existing_facts(m0, inputs_view(&options.inputs), archive@.entries);
        assert forall|j: int| 0 <= j < table@.len() implies existing_ready((#[trigger] table@[j]).1, payloads@, archive.source(), archive@.entries) by {
            assert(existing_kept(table@[j].1, m0, archive@.entries));
            if let AddSource::Existing(k) = table@[j].1 {
                assert(preserved_at(m0, archive@.entries, k as int));
            }
        }
    }
    let members = add_members(&table, &options.inputs, &payloads, Ghost(archive.source()), Ghost(archive@.entries));
    let bytes = write_target(&members, like_target(archive))?;
    Ok(WrittenArchive { files: table.len(), bytes })
}

/// Add or replace entries in the archive whose file bytes are `bytes`; `path`
/// names it. The archive bytes are not changed: the result holds the new archive.
/// An explicit output that names the source archive is refused first.
pub fn add_to_archive(path: &str, bytes: Vec<u8>, options: &AddOptions) -> (r: Result<WrittenArchive>)
    ensures
        options.inputs@.len() == 0 ==> (r matches Err(ArchiveError::Archive(m)) && m@ == no_inputs_text()),
        options.inputs@.len() > 0 && output_is_source(path@, options.output) ==> (r matches Err(ArchiveError::Archive(m)) && m@ == same_output_text(path@)),
        options.inputs@.len() > 0 && !output_is_source(path@, options.output) ==> (
            (spec_open_index(bytes@) is None ==> r is Err)
            && (spec_open_index(bytes@) matches Some(o) ==> add_outcome(o, inputs_view(&options.inputs), r))),
{
    reject_no_inputs(&options.inputs)?;
    reject_output_is_source(path, &options.output)?;
    let archive = LoadedArchive::open(path, bytes)?;
    add_to_loaded_archive(&archive, options)
}

// ---------------------------------------------------------------------------
// What an update keeps
// ---------------------------------------------------------------------------

/// Existing entries by path, the first entry of a path winning.
pub open spec fn existing_map(entries: Seq<EntryView>) -> Map<Seq<u8>, AddSource>
    decreases entries.len(),
{
    if entries.len() == 0 {
        Map::empty()
    } else {
        let m = existing_map(entries.drop_last());
        if m.contains_key(entries.last().path) {
            m
        } else {
            m.insert(entries.last().path, AddSource::Existing((entries.len() - 1) as usize))
        }
    }
}

/// The input files by archive path, a later input winning over an earlier one.
pub open spec fn inputs_map(inputs: Seq<Seq<InputFileView>>) -> Map<Seq<u8>, AddSource>
    decreases inputs.len(),
{
    if inputs.len() == 0 {
        Map::empty()
    } else {
        match spec_collect(inputs.last()) {
            Ok(s) => inputs_map(inputs.drop_last()).union_prefer_right(to_map(tag_input(s, inputs.len() - 1))),
            Err(_) => inputs_map(inputs.drop_last()),
        }
    }
}

pub proof fn lemma_insert_all_map(acc: Seq<(Seq<u8>, AddSource)>, s: Seq<(Seq<u8>, AddSource)>)
    requires
        sorted_keys(acc),
    ensures
        sorted_keys(insert_all(acc, s)),
        to_map(insert_all(acc, s)) == to_map(acc).union_prefer_right(to_map(s)),
    decreases s.len(),
{
    if s.len() > 0 {
        lemma_insert_all_map(acc, s.drop_last());
        let r = insert_all(acc, s.drop_last());
        lemma_sorted_insert(r, s.last().0, s.last().1);
        assert(to_map(sorted_insert(r, s.last().0, s.last().1)) =~= to_map(acc).union_prefer_right(to_map(s)));
    }
}

pub proof fn lemma_merge_map(inputs: Seq<Seq<InputFileView>>)
    ensures
        spec_merge_inputs(inputs) matches Ok(m) ==> sorted_keys(m) && to_map(m) == inputs_map(inputs),
    decreases inputs.len(),
{
    if inputs.len() > 0 {
        lemma_merge_map(inputs.drop_last());
        if let Ok(acc) = spec_merge_inputs(inputs.drop_last()) {
            if let Ok(s) = spec_collect(inputs.last()) {
                lemma_insert_all_map(acc, tag_input(s, inputs.len() - 1));
            }
        }
    }
}

pub proof fn lemma_with_existing_map(merged: Seq<(Seq<u8>, AddSource)>, entries: Seq<EntryView>)
    requires
        sorted_keys(merged),
    ensures
        sorted_keys(with_existing(merged, entries)),
        to_map(with_existing(merged, entries)) == existing_map(entries).union_prefer_right(to_map(merged)),
    decreases entries.len(),
{
    if entries.len() > 0 {
        let init = entries.drop_last();
        lemma_with_existing_map(merged, init);
        let r = with_existing(merged, init);
        let p = entries.last().path;
        lemma_to_map_dom(r, p);
        if has_key(r, p) {
            assert(to_map(r) =~= existing_map(entries).union_prefer_right(to_map(merged)));
        } else {
            let v = AddSource::Existing((entries.len() - 1) as usize);
            lemma_sorted_insert(r, p, v);
            assert(to_map(sorted_insert(r, p, v)) =~= existing_map(entries).union_prefer_right(to_map(merged)));
        }
    }
}

/// The entries of an updated archive: every input path with the file of the
/// last input that has it, and every other path of the archive with the first
/// existing entry of that path; no other path.
pub proof fn law_add_keeps_inputs_and_existing(inputs: Seq<Seq<InputFileView>>, entries: Seq<EntryView>)
    requires
        spec_merge_inputs(inputs) is Ok,
    ensures
        to_map(with_existing(spec_merge_inputs(inputs)->Ok_0, entries)) == existing_map(entries).union_prefer_right(inputs_map(inputs)),
{
    lemma_merge_map(inputs);
    lemma_with_existing_map(spec_merge_inputs(inputs)->Ok_0, entries);
}

/// The table of an update without reading payloads: the merged inputs plus
/// every existing entry whose path they lack.
pub fn existing_sources(merged: ByteMap<AddSource>, archive: &LoadedArchive) -> (t: ByteMap<AddSource>)
    requires
        sorted_keys(merged@),
    ensures
        sorted_keys(t@),
        t@ == with_existing(merged@, archive@.entries),
{
    let ghost m0 = merged@;
    let ghost all = archive@.entries;
    let entries = archive.list_loaded_entries();
    let mut table = merged;
    let mut j: usize = 0;
    assert(all.take(0) =~= Seq::<EntryView>::empty());
    while j < entries.len()
        invariant
            all == archive@.entries,
            entries@.map_values(|e: LoadedEntry| e@) == all,
            j <= entries@.len(),
            sorted_keys(table@),
            table@ == with_existing(m0, all.take(j as int)),
        decreases entries@.len() - j,
    {
        let entry = &entries[j];
        assert(all[j as int] == entry@);
        assert(all.take(j as int + 1).drop_last() =~= all.take(j as int));
        assert(all.take(j as int + 1).last() == entry@);
        if !table.contains_key(entry.path.as_slice()) {
            table.insert(copy_bytes(&entry.path), AddSource::Existing(j));
        }
        j = j + 1;
    }
    assert(all.take(entries@.len() as int) =~= all);
    table
}

/// Whether an archive written for `target` gives payloads back as they were
/// given: all but DX10 textures, which read back as rebuilt DDS files.
pub open spec fn target_reads_exactly(target: ArchiveTarget) -> bool {
    match target {
        ArchiveTarget::Tes3 => true,
        ArchiveTarget::Tes4(..) => true,
        ArchiveTarget::Ba2(kind, _) => kind != Ba2PayloadKind::Dx10,
    }
}

/// Whether an archive written for `target` is said to find its members again:
/// all but TES4 archives whose names are not in string tables.
pub open spec fn target_reads_found(target: ArchiveTarget) -> bool {
    match target {
        ArchiveTarget::Tes4(_, _, _, mode) => mode == Tes4NameMode::Strings,
        _ => true,
    }
}

/// An archive that `create` writes reads back: it opens, and each collected file
/// whose archive path is plain is found under that path, with its bytes (a DX10
/// texture is found; what it reads back is a rebuilt DDS file).
pub proof fn law_created_archive_reads_back(files: Seq<InputFileView>, options: CreateOptions, r: Result<WrittenArchive>)
    requires
        create_outcome(files, options, r),
        r is Ok,
    ensures
        spec_collect(files) matches Ok(table) && spec_open_index(r->Ok_0.bytes@) matches Some(o)
            && forall|i: int| 0 <= i < table.len() && plain_key(#[trigger] table[i].0) ==> (
                if options.format == ArchiveFormat::Fo4 && options.fo4_kind == Fo4ArchiveKind::Dx10 {
                    spec_read_file(o.archive, table[i].0) matches Some(Some(_))
                } else {
                    spec_read_file(o.archive, table[i].0) == Some(Some(files[table[i].1 as int].bytes))
                }),
{
    let table = spec_collect(files)->Ok_0;
    let members = spec_create_members(files, table);
    let bytes = r->Ok_0.bytes@;
    let exact = target_reads_exactly(spec_create_target(options));
    lemma_write_reads_back(spec_create_target(options), members, written_bytes(r));
    assert(reads_back(members, bytes, exact));
    let o = spec_open_index(bytes)->0;
    assert forall|i: int| 0 <= i < table.len() && plain_key(#[trigger] table[i].0) implies (
        if options.format == ArchiveFormat::Fo4 && options.fo4_kind == Fo4ArchiveKind::Dx10 {
            spec_read_file(o.archive, table[i].0) matches Some(Some(_))
        } else {
            spec_read_file(o.archive, table[i].0) == Some(Some(files[table[i].1 as int].bytes))
        }) by {
        assert(members[i] == (table[i].0, files[table[i].1 as int].bytes));
        assert(plain_key(members[i].0));
    }
}

/// A created BA2 carries the header version its game calls for: Fallout 4
/// writes version 1, Starfield version 2 and Fallout 4 next-gen version 7. The
/// archive is written for the chosen payload table at that version, its bytes
/// are what the general or DX10 BA2 builder gives for that version, and it opens
/// again with that payload table and version in its header.
pub proof fn law_created_ba2_version(files: Seq<InputFileView>, options: CreateOptions, r: Result<WrittenArchive>)
    requires
        create_outcome(files, options, r),
        options.format == ArchiveFormat::Fo4,
    ensures
        ({
            let version = match options.fo4_version {
                Fo4Version::Fallout4 => Ba2FormatVersion::V1,
                Fo4Version::Starfield => Ba2FormatVersion::V2,
                Fo4Version::Fallout4NextGen => Ba2FormatVersion::V7,
            };
            &&& spec_create_target(options) == ArchiveTarget::Ba2(spec_payload_kind(options.fo4_kind), version)
            &&& r is Ok ==> spec_collect(files) is Ok && ({
                let members = spec_create_members(files, spec_collect(files)->Ok_0);
                &&& options.fo4_kind == Fo4ArchiveKind::Gnrl ==> ba2_written(version, members) == Some(r->Ok_0.bytes@)
                &&& options.fo4_kind == Fo4ArchiveKind::Dx10 ==> dx10_written(version, members) == Some(r->Ok_0.bytes@)
                &&& spec_open_index(r->Ok_0.bytes@) matches Some(o)
                    && o.index.ba2 == Some((spec_payload_kind(options.fo4_kind), version))
            })
        }),
{
}

/// A successful write reads back, exactly when the target keeps payloads as given.
proof fn lemma_write_reads_back(target: ArchiveTarget, members: Seq<(Seq<u8>, Seq<u8>)>, r: Result<Vec<u8>>)
    requires
        write_outcome(target, members, r),
        r is Ok,
    ensures
        target_reads_found(target) ==> reads_back(members, r->Ok_0@, target_reads_exactly(target)),
{
}

/// An archive that an update writes reads back (unless it is a TES4 archive
/// without string tables): it opens, and each member with a plain path (an input
/// file, or a kept entry with its payload as read) is found under that path, with
/// its bytes when the target keeps payloads as given.
pub proof fn law_updated_archive_reads_back(o: OpenedIndex, inputs: Seq<Seq<InputFileView>>, r: Result<WrittenArchive>)
    requires
        add_outcome(o, inputs, r),
        r is Ok,
    ensures
        target_reads_found(spec_like_target(o.index)) ==> ({
            let table = with_existing(spec_merge_inputs(inputs)->Ok_0, o.index.entries);
            reads_back(
                spec_add_members(table, inputs, o.archive, o.index.entries),
                r->Ok_0.bytes@,
                target_reads_exactly(spec_like_target(o.index)),
            )
        }),
{
    let table = with_existing(spec_merge_inputs(inputs)->Ok_0, o.index.entries);
    lemma_write_reads_back(
        spec_like_target(o.index),
        spec_add_members(table, inputs, o.archive, o.index.entries),
        written_bytes(r),
    );
}

} // verus!
