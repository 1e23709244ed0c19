//! The application-facing facade: an opened archive handle and stateless
//! operations over archive file bytes.

use vstd::prelude::*;
use vstd::string::*;
use vstd::utf8::*;

use crate::entry::ArchiveEntry;
use crate::error::{ArchiveError, Result};
use crate::format::{spec_sniff, header_error_text, ArchiveFormat};
use crate::loaded::{
    open_error_text, read_outcome_ok, spec_open_index, OpenedIndex, spec_public_entries, spec_read_file,
    text_read_outcome_ok, spec_text_display, spec_text_lookup_key, IndexView, LoadedArchive, lookup_answer,
    listed_key, spec_archive_index, lemma_archive_index_well_formed,
};
use crate::path::{decode_outcome, law_hex_round_trip};
use crate::paths::{law_normalize_idempotent, spec_hex_chars};
use crate::paths::{law_normalize_ignores_case_and_slashes, same_spelling, spec_lossy_display, spec_normalize};
use crate::rewrite_policy::{rewrite_blocker, spec_rewrite_blocker};
use crate::archive_plan::{add_plan_outcome, create_plan_outcome, shown_output, AddPlan, CreatePlan};
use crate::create::{
    add_outcome, create_outcome, files_view, inputs_view, output_is_source, same_output_text, no_inputs_text, AddOptions, CreateOptions,
    InputFile, InputFileView, WrittenArchive,
};
use crate::verify::spec_verify_report;
use crate::extract::{
    all_job_outcome, extract_all_plan_ok, requests_job_outcome, ExtractAllOptions, ExtractAllPlan,
    ExtractJob, ExtractOptions,
};

verus! {

/// Basic metadata about an archive.
#[derive(Debug, Clone)]
pub struct ArchiveInfo {
    /// Path that was opened, formatted for display.
    pub path: String,
    /// Detected archive family.
    pub format: ArchiveFormat,
    /// Number of file entries in the archive.
    pub file_count: usize,
    /// Number of entries with a recoverable path.
    pub named_entry_count: usize,
    /// Whether some entries have no recoverable path.
    pub has_unnameable_entries: bool,
    /// Whether `add` can rewrite this archive.
    pub rewritable: bool,
    /// Why the archive cannot be rewritten, when it cannot.
    pub rewrite_blocker: Option<String>,
}

pub struct ArchiveInfoView {
    pub path: Seq<char>,
    pub format: ArchiveFormat,
    pub file_count: nat,
    pub named_entry_count: nat,
    pub has_unnameable_entries: bool,
    pub rewritable: bool,
    pub rewrite_blocker: Option<Seq<char>>,
}

impl View for ArchiveInfo {
    type V = ArchiveInfoView;

    open spec fn view(&self) -> ArchiveInfoView {
        ArchiveInfoView {
            path: self.path@,
            format: self.format,
            file_count: self.file_count as nat,
            named_entry_count: self.named_entry_count as nat,
            has_unnameable_entries: self.has_unnameable_entries,
            rewritable: self.rewritable,
            rewrite_blocker: match self.rewrite_blocker {
                Some(b) => Some(b@),
                None => None,
            },
        }
    }
}

/// The metadata reported for an archive opened from `label`.
pub open spec fn spec_info(label: Seq<char>, index: IndexView) -> ArchiveInfoView {
    ArchiveInfoView {
        path: label,
        format: index.format,
        file_count: index.file_count,
        named_entry_count: index.entries.len(),
        has_unnameable_entries: index.entries.len() != index.file_count,
        rewritable: spec_rewrite_blocker(index) is None,
        rewrite_blocker: spec_rewrite_blocker(index),
    }
}

fn copy_text(text: &String) -> (copy: String)
    ensures
        copy@ == text@,
{
    String::from_str(text.as_str())
}

fn info_of(label: &String, archive: &LoadedArchive) -> (info: ArchiveInfo)
    ensures
        info@ == spec_info(label@, archive@),
{
    let blocker = rewrite_blocker(archive);
    ArchiveInfo {
        path: copy_text(label),
        format: archive.format(),
        file_count: archive.file_count(),
        named_entry_count: archive.named_entry_count(),
        has_unnameable_entries: archive.has_unnameable_entries(),
        rewritable: blocker.is_none(),
        rewrite_blocker: match blocker {
            Some(b) => Some(String::from_str(b)),
            None => None,
        },
    }
}

/// Opened archive handle for repeated inspection without reparsing.
pub struct OpenArchive {
    path: String,
    archive: LoadedArchive,
}

impl OpenArchive {
    /// The label the archive was opened under.
    pub closed spec fn label(&self) -> Seq<char> {
        self.path@
    }

    /// The index of the opened archive.
    pub closed spec fn index(&self) -> IndexView {
        self.archive@
    }

    /// The parsed archive that payload reads go to.
    pub closed spec fn source(&self) -> dream_archive::Archive {
        self.archive.source()
    }

    /// Open the archive whose file bytes are `bytes`; `path` names it for display.
    pub fn open(path: &str, bytes: Vec<u8>) -> (r: Result<OpenArchive>)
        ensures
            r is Ok <==> spec_open_index(bytes@) is Some,
            r matches Ok(a) ==> a.label() == path@ && a.index() == spec_open_index(bytes@)->0.index
                && a.source() == spec_open_index(bytes@)->0.archive,
            r matches Err(e) ==> e matches ArchiveError::Archive(m)
                && exists|detail: Seq<char>| m@ == open_error_text(path@, detail),
    {
        let archive = LoadedArchive::open(path, bytes)?;
        Ok(OpenArchive { path: String::from_str(path), archive })
    }

    /// Format, counts and rewrite eligibility.
    pub fn info(&self) -> (info: ArchiveInfo)
        ensures
            info@ == spec_info(self.label(), self.index()),
    {
        info_of(&self.path, &self.archive)
    }

    /// Detected archive family.
    pub fn format(&self) -> (f: ArchiveFormat)
        ensures
            f == self.index().format,
    {
        self.archive.format()
    }

    /// Number of file entries, named or not.
    pub fn file_count(&self) -> (n: usize)
        ensures
            n == self.index().file_count,
    {
        self.archive.file_count()
    }

    /// List all named entries.
    pub fn list(&self) -> (r: Result<Vec<ArchiveEntry>>)
        ensures
            r matches Ok(listed) && listed@.map_values(|e: ArchiveEntry| e@) == spec_public_entries(
                self.index().entries,
            ),
    {
        Ok(self.archive.list_entries())
    }

    /// Read one entry, named by text, into memory.
    pub fn read_entry(&self, entry: &str) -> (r: Result<Vec<u8>>)
        ensures
            text_read_outcome_ok(self.source(), entry@, r),
            lookup_answer(self.index(), spec_text_lookup_key(entry@), r),
    {
        self.archive.read_entry_bytes(entry)
    }

    /// Read one entry, selected by path bytes, into memory.
    pub fn read_entry_by_path(&self, entry: &[u8]) -> (r: Result<Vec<u8>>)
        ensures
            read_outcome_ok(self.source(), spec_normalize(entry@), r),
            lookup_answer(self.index(), spec_normalize(entry@), r),
    {
        self.archive.read_entry_bytes_by_path(entry)
    }

    /// Append one entry's payload, named by text, to `out`.
    pub fn extract_entry_to_writer(&self, entry: &str, out: &mut Vec<u8>) -> (r: Result<u64>)
        ensures
            spec_read_file(self.source(), spec_text_lookup_key(entry@)) matches Some(Some(p))
                ==> (r matches Ok(n) && n == p.len() && final(out)@ == old(out)@ + p),
            spec_read_file(self.source(), spec_text_lookup_key(entry@)) == Some(None::<Seq<u8>>)
                ==> (r matches Err(ArchiveError::EntryNotFound(m)) && m@ == spec_text_display(entry@)),
            spec_read_file(self.source(), spec_text_lookup_key(entry@)) is None ==> r matches Err(ArchiveError::Archive(_)),
            r is Err ==> final(out)@ == old(out)@,
    {
        self.archive.extract_entry_to_writer(entry, out)
    }

    /// Append one entry's payload, selected by path bytes, to `out`.
    pub fn extract_entry_path_to_writer(&self, entry: &[u8], out: &mut Vec<u8>) -> (r: Result<u64>)
        ensures
            spec_read_file(self.source(), spec_normalize(entry@)) matches Some(Some(p))
                ==> (r matches Ok(n) && n == p.len() && final(out)@ == old(out)@ + p),
            spec_read_file(self.source(), spec_normalize(entry@)) == Some(None::<Seq<u8>>)
                ==> (r matches Err(ArchiveError::EntryNotFound(m)) && m@ == spec_lossy_display(spec_normalize(entry@))),
            spec_read_file(self.source(), spec_normalize(entry@)) is None ==> r matches Err(ArchiveError::Archive(_)),
            r is Err ==> final(out)@ == old(out)@,
    {
        self.archive.extract_entry_path_to_writer(entry, out)
    }

    /// The loaded archive, for policy operations on the already-opened handle.
    pub fn loaded(&self) -> (archive: &LoadedArchive)
        ensures
            archive@ == self.index(),
            archive.source() == self.source(),
    {
        &self.archive
    }
}

/// Stateless facade: every operation parses the archive bytes it is given.
#[derive(Debug, Default, Clone, Copy)]
pub struct ArchiveTool;

impl ArchiveTool {
    /// Open an archive for repeated operations.
    pub fn open(path: &str, bytes: Vec<u8>) -> (r: Result<OpenArchive>)
        ensures
            r is Ok <==> spec_open_index(bytes@) is Some,
            r matches Ok(a) ==> a.label() == path@ && a.index() == spec_open_index(bytes@)->0.index
                && a.source() == spec_open_index(bytes@)->0.archive,
    {
        OpenArchive::open(path, bytes)
    }

    /// Detect the archive family from the leading bytes of the file at `path`.
    pub fn guess_format(path: &str, header: &[u8]) -> (r: Result<ArchiveFormat>)
        ensures
            header@.len() >= 4 && spec_sniff(header@) is Some ==> (r matches Ok(f) && f == spec_sniff(header@)->0),
            header@.len() >= 4 && spec_sniff(header@) is None ==> r matches Err(ArchiveError::UnknownFormat),
            header@.len() < 4 ==> (r matches Err(ArchiveError::Archive(m)) && exists|detail: Seq<char>| m@ == header_error_text(path@, detail)),
    {
        crate::format::guess_format(path, header)
    }

    /// Format, counts and rewrite eligibility of an archive.
    pub fn info(path: &str, bytes: Vec<u8>) -> (r: Result<ArchiveInfo>)
        ensures
            r is Ok <==> spec_open_index(bytes@) is Some,
            r matches Ok(info) ==> info@ == spec_info(path@, spec_open_index(bytes@)->0.index),
    {
        let archive = LoadedArchive::open(path, bytes)?;
        Ok(info_of(&String::from_str(path), &archive))
    }

    /// List all named entries of an archive.
    pub fn list(path: &str, bytes: Vec<u8>) -> (r: Result<Vec<ArchiveEntry>>)
        ensures
            r is Ok <==> spec_open_index(bytes@) is Some,
            r matches Ok(listed) ==> listed@.map_values(|e: ArchiveEntry| e@) == spec_public_entries(
                spec_open_index(bytes@)->0.index.entries,
            ),
    {
        crate::entry::list_entries(path, bytes)
    }

    /// Read one entry, named by text; matching ignores ASCII case and treats `\` as `/`.
    pub fn read_entry(path: &str, bytes: Vec<u8>, entry: &str) -> (r: Result<Vec<u8>>)
        ensures
            spec_open_index(bytes@) is None ==> r is Err,
            spec_open_index(bytes@) matches Some(o) ==> text_read_outcome_ok(o.archive, entry@, r)
                && lookup_answer(o.index, spec_text_lookup_key(entry@), r),
    {
        let archive = LoadedArchive::open(path, bytes)?;
        archive.read_entry_bytes(entry)
    }

    /// Read one entry selected by path bytes, normalized before lookup.
    pub fn read_entry_by_path(path: &str, bytes: Vec<u8>, entry: &[u8]) -> (r: Result<Vec<u8>>)
        ensures
            spec_open_index(bytes@) is None ==> r is Err,
            spec_open_index(bytes@) matches Some(o) ==> read_outcome_ok(o.archive, spec_normalize(entry@), r)
                && lookup_answer(o.index, spec_normalize(entry@), r),
    {
        let archive = LoadedArchive::open(path, bytes)?;
        archive.read_entry_bytes_by_path(entry)
    }

    /// Append one entry's payload, named by text, to `out`.
    pub fn extract_entry_to_writer(path: &str, bytes: Vec<u8>, entry: &str, out: &mut Vec<u8>) -> (r: Result<u64>)
        ensures
            spec_open_index(bytes@) is None ==> r is Err,
            spec_open_index(bytes@) matches Some(o) ==> (spec_read_file(o.archive, spec_text_lookup_key(entry@)) matches Some(Some(p))
                ==> (r matches Ok(n) && n == p.len() && final(out)@ == old(out)@ + p)),
            spec_open_index(bytes@) matches Some(o) ==> (spec_read_file(o.archive, spec_text_lookup_key(entry@)) == Some(None::<Seq<u8>>)
                ==> (r matches Err(ArchiveError::EntryNotFound(m)) && m@ == spec_text_display(entry@))),
            spec_open_index(bytes@) matches Some(o) ==> (spec_read_file(o.archive, spec_text_lookup_key(entry@)) is None
                ==> r matches Err(ArchiveError::Archive(_))),
            r is Err ==> final(out)@ == old(out)@,
    {
        let archive = LoadedArchive::open(path, bytes)?;
        archive.extract_entry_to_writer(entry, out)
    }

    /// Append one entry's payload, selected by path bytes, to `out`.
    pub fn extract_entry_path_to_writer(path: &str, bytes: Vec<u8>, entry: &[u8], out: &mut Vec<u8>) -> (r: Result<u64>)
        ensures
            spec_open_index(bytes@) is None ==> r is Err,
            spec_open_index(bytes@) matches Some(o) ==> (spec_read_file(o.archive, spec_normalize(entry@)) matches Some(Some(p))
                ==> (r matches Ok(n) && n == p.len() && final(out)@ == old(out)@ + p)),
            spec_open_index(bytes@) matches Some(o) ==> (spec_read_file(o.archive, spec_normalize(entry@)) == Some(None::<Seq<u8>>)
                ==> (r matches Err(ArchiveError::EntryNotFound(m)) && m@ == spec_lossy_display(spec_normalize(entry@)))),
            spec_open_index(bytes@) matches Some(o) ==> (spec_read_file(o.archive, spec_normalize(entry@)) is None
                ==> r matches Err(ArchiveError::Archive(_))),
            r is Err ==> final(out)@ == old(out)@,
    {
        let archive = LoadedArchive::open(path, bytes)?;
        archive.extract_entry_path_to_writer(entry, out)
    }

    /// Extract one entry, named by text; `exists` says whether its target exists.
    /// The result lists the file to write, or the target skipped.
    pub fn extract(path: &str, bytes: Vec<u8>, entry: &str, options: &ExtractOptions, exists: bool) -> (r: Result<ExtractJob>)
        ensures
            spec_open_index(bytes@) is None ==> r is Err,
            spec_open_index(bytes@) matches Some(o) ==> requests_job_outcome(o.archive, seq![entry.spec_bytes()], options, seq![exists], r),
    {
        crate::extract::extract_entry(path, bytes, entry, options, exists)
    }

    /// Extract one entry selected by path bytes, normalized before lookup.
    pub fn extract_by_path(path: &str, bytes: Vec<u8>, entry: &[u8], options: &ExtractOptions, exists: bool) -> (r: Result<ExtractJob>)
        ensures
            spec_open_index(bytes@) is None ==> r is Err,
            spec_open_index(bytes@) matches Some(o) ==> requests_job_outcome(o.archive, seq![entry@], options, seq![exists], r),
    {
        crate::extract::extract_entry_by_path(path, bytes, entry, options, exists)
    }

    /// Extract every entry; `existing[i]` says whether the target of named entry `i` exists.
    pub fn extract_all(path: &str, bytes: Vec<u8>, options: &ExtractAllOptions, existing: &Vec<bool>) -> (r: Result<ExtractJob>)
        ensures
            spec_open_index(bytes@) is None ==> r is Err,
            spec_open_index(bytes@) matches Some(o) && existing@.len() != o.index.entries.len() ==> r is Err,
            spec_open_index(bytes@) matches Some(o) ==> (existing@.len() == o.index.entries.len() ==> all_job_outcome(o.archive, o.index, options, existing@, r)),
    {
        crate::extract::extract_all(path, bytes, options, existing)
    }

    /// Plan extracting every entry without writing anything.
    pub fn plan_extract_all(path: &str, bytes: Vec<u8>, options: &ExtractAllOptions, existing: &Vec<bool>) -> (r: Result<ExtractAllPlan>)
        ensures
            spec_open_index(bytes@) is None ==> r is Err,
            spec_open_index(bytes@) matches Some(o) && existing@.len() != o.index.entries.len() ==> r is Err,
            spec_open_index(bytes@) matches Some(o) ==> (existing@.len() == o.index.entries.len() ==> extract_all_plan_ok(path@, o.index, options, existing@, r)),
    {
        crate::extract::plan_extract_all(path, bytes, options, existing)
    }

    /// Create an archive from the files of one input; returns the entry count and
    /// the archive bytes.
    pub fn create(files: &Vec<InputFile>, options: &CreateOptions) -> (r: Result<WrittenArchive>)
        ensures
            create_outcome(files_view(files), *options, r),
    {
        crate::create::create_archive(files, options)
    }

    /// Plan creating an archive at `output` without writing it.
    pub fn plan_create(output: &str, files: &Vec<InputFile>, options: &CreateOptions) -> (r: Result<CreatePlan>)
        ensures
            create_plan_outcome(output@, files_view(files), *options, r),
    {
        crate::archive_plan::plan_create(output, files, options)
    }

    /// Add or replace entries; the archive bytes are not changed, the result
    /// holds the new archive. Inputs replace existing entries with the same path.
    pub fn add(path: &str, bytes: Vec<u8>, options: &AddOptions) -> (r: Result<WrittenArchive>)
        ensures
            options.inputs@.len() == 0 ==> (r matches Err(ArchiveError::Archive(m)) && m@ == no_inputs_text()),
            options.inputs@.len() > 0 && output_is_source(path@, options.output) ==> (r matches Err(ArchiveError::Archive(m)) && m@ == same_output_text(path@)),
            options.inputs@.len() > 0 && !output_is_source(path@, options.output) ==> (
                (spec_open_index(bytes@) is None ==> r is Err)
                && (spec_open_index(bytes@) matches Some(o) ==> add_outcome(o, inputs_view(&options.inputs), r))),
    {
        crate::create::add_to_archive(path, bytes, options)
    }

    /// Plan adding to an archive without writing anything.
    pub fn plan_add(path: &str, bytes: Vec<u8>, options: &AddOptions) -> (r: Result<AddPlan>)
        ensures
            options.inputs@.len() == 0 ==> (r matches Err(ArchiveError::Archive(m)) && m@ == no_inputs_text()),
            options.inputs@.len() > 0 && output_is_source(path@, options.output) ==> (r matches Err(ArchiveError::Archive(m)) && m@ == same_output_text(path@)),
            options.inputs@.len() > 0 && !output_is_source(path@, options.output) ==> (
                (spec_open_index(bytes@) is None ==> r is Err)
                && (spec_open_index(bytes@) matches Some(o) ==> add_plan_outcome(path@, o.index, inputs_view(&options.inputs), shown_output(path@, options.output), r))),
    {
        crate::archive_plan::plan_add(path, bytes, options)
    }
}

/// `info`, `verify`, dry-run planning and updates answer one question: whether
/// the archive can be rewritten. When `info` says it cannot, an update and its
/// dry run are refused with the reason `info` reports, and `verify` reports the
/// same answer.
pub proof fn law_rewrite_answers_agree(
    label: Seq<char>,
    o: OpenedIndex,
    inputs: Seq<Seq<InputFileView>>,
    output: Seq<char>,
    added: Result<WrittenArchive>,
    planned: Result<AddPlan>,
    read_payloads: bool,
)
    requires
        add_outcome(o, inputs, added),
        add_plan_outcome(label, o.index, inputs, output, planned),
    ensures
        spec_verify_report(label, o.index, read_payloads).rewritable == spec_info(label, o.index).rewritable,
        spec_verify_report(label, o.index, read_payloads).rewrite_blocker == spec_info(label, o.index).rewrite_blocker,
        !spec_info(label, o.index).rewritable ==> (added matches Err(ArchiveError::Archive(m))
            && Some(m@) == spec_info(label, o.index).rewrite_blocker),
        !spec_info(label, o.index).rewritable ==> (planned matches Err(ArchiveError::Archive(m))
            && Some(m@) == spec_info(label, o.index).rewrite_blocker),
{
}

/// Reading by path bytes ignores ASCII case and slash direction: two spellings
/// that differ only there read the same payload, or fail alike.
pub proof fn law_read_ignores_spelling(
    archive: dream_archive::Archive,
    a: Seq<u8>,
    b: Seq<u8>,
    ra: Result<Vec<u8>>,
    rb: Result<Vec<u8>>,
)
    requires
        same_spelling(a, b),
        read_outcome_ok(archive, spec_normalize(a), ra),
        read_outcome_ok(archive, spec_normalize(b), rb),
    ensures
        ra is Ok <==> rb is Ok,
        ra matches Ok(x) ==> (rb matches Ok(y) && x@ == y@),
{
    law_normalize_ignores_case_and_slashes(a, b);
}

/// A listed entry's lookup key, fed back, reads that key: the bytes that its
/// `path_bytes_hex` decodes to, and (for a key that is UTF-8) its display text,
/// are both found, and both reads give the same outcome.
pub proof fn law_listed_key_reads_its_entry(
    o: OpenedIndex,
    j: int,
    decoded: Seq<u8>,
    by_bytes: Result<Vec<u8>>,
    by_text: Result<Vec<u8>>,
)
    requires
        spec_archive_index(o.archive) == Some(o.index),
        0 <= j < o.index.entries.len(),
        decode_outcome(encode_utf8(spec_hex_chars(o.index.entries[j].path))) == Some(decoded),
        read_outcome_ok(o.archive, spec_normalize(decoded), by_bytes),
        lookup_answer(o.index, spec_normalize(decoded), by_bytes),
        valid_utf8(o.index.entries[j].path) ==> text_read_outcome_ok(o.archive, spec_lossy_display(o.index.entries[j].path), by_text)
            && lookup_answer(o.index, spec_text_lookup_key(spec_lossy_display(o.index.entries[j].path)), by_text),
    ensures
        !(by_bytes is Err && by_bytes->Err_0 is EntryNotFound),
        by_bytes matches Ok(b) ==> spec_read_file(o.archive, o.index.entries[j].path) == Some(Some(b@)),
        valid_utf8(o.index.entries[j].path) ==> !(by_text is Err && by_text->Err_0 is EntryNotFound)
            && (by_bytes is Ok <==> by_text is Ok)
            && (by_bytes matches Ok(b) ==> by_text matches Ok(c) && b@ == c@),
{
    let p = o.index.entries[j].path;
    law_hex_round_trip(p);
    lemma_archive_index_well_formed(o.archive);
    law_normalize_idempotent(o.index.entries[j].raw_path);
    assert(spec_normalize(p) == p);
    assert(listed_key(o.index.entries, p));
    if valid_utf8(p) {
        let shown = spec_lossy_display(p);
        decode_utf8_encode_utf8(p);
        assert(shown == decode_utf8(p));
        assert(spec_text_display(shown) == shown);
        assert(spec_text_lookup_key(shown) == p);
    }
}

} // verus!
