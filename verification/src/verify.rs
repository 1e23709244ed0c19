//! Archive health checks: duplicate and unsafe entry paths, rewrite eligibility
//! and, on request, payload readability.

use vstd::prelude::*;
use vstd::string::*;

use crate::byte_map::{lemma_to_map_dom, sorted_keys, to_map, ByteMap};
use crate::error::{ArchiveError, Result};
use crate::format::{ArchiveFormat, Ba2PayloadKind};
use crate::loaded::{spec_open_index, spec_read_file, EntryView, IndexView, LoadedArchive, LoadedEntry};
use crate::paths::{
    archive_path_bytes_to_display, archive_path_bytes_to_hex, is_safe_archive_path,
    safe_target_path_normalized, spec_hex_chars, spec_lossy_display,
};
use crate::rewrite_policy::{rewrite_blocker, spec_rewrite_blocker};

verus! {

/// Options controlling archive verification.
#[derive(Debug, Clone, Copy, PartialEq, Eq, Structural)]
pub struct VerifyOptions {
    /// Read every named payload to check that extraction succeeds.
    pub read_payloads: bool,
}

impl Default for VerifyOptions {
    fn default() -> (options: Self)
        ensures
            !options.read_payloads,
    {
        VerifyOptions { read_payloads: false }
    }
}

/// Path-level issue reported by verification.
#[derive(Debug, Clone)]
pub struct VerifyPathIssue {
    pub path: String,
    pub path_bytes_hex: String,
}

pub struct VerifyPathIssueView {
    pub path: Seq<char>,
    pub path_bytes_hex: Seq<char>,
}

impl View for VerifyPathIssue {
    type V = VerifyPathIssueView;

    open spec fn view(&self) -> VerifyPathIssueView {
        VerifyPathIssueView { path: self.path@, path_bytes_hex: self.path_bytes_hex@ }
    }
}

/// Archive verification report.
#[derive(Debug, Clone)]
pub struct VerifyReport {
    pub path: String,
    pub format: ArchiveFormat,
    pub file_count: usize,
    pub named_entry_count: usize,
    pub unnameable_entries: usize,
    pub rewritable: bool,
    pub rewrite_blocker: Option<String>,
    pub duplicate_normalized_paths: Vec<VerifyPathIssue>,
    pub unsafe_paths: Vec<VerifyPathIssue>,
    pub payloads_read: Option<usize>,
    pub warnings: Vec<String>,
}

pub struct VerifyReportView {
    pub path: Seq<char>,
    pub format: ArchiveFormat,
    pub file_count: nat,
    pub named_entry_count: nat,
    pub unnameable_entries: nat,
    pub rewritable: bool,
    pub rewrite_blocker: Option<Seq<char>>,
    pub duplicate_normalized_paths: Seq<VerifyPathIssueView>,
    pub unsafe_paths: Seq<VerifyPathIssueView>,
    pub payloads_read: Option<nat>,
    pub warnings: Seq<Seq<char>>,
}

impl View for VerifyReport {
    type V = VerifyReportView;

    open spec fn view(&self) -> VerifyReportView {
        VerifyReportView {
            path: self.path@,
            format: self.format,
            file_count: self.file_count as nat,
            named_entry_count: self.named_entry_count as nat,
            unnameable_entries: self.unnameable_entries as nat,
            rewritable: self.rewritable,
            rewrite_blocker: match self.rewrite_blocker {
                Some(b) => Some(b@),
                None => None,
            },
            duplicate_normalized_paths: self.duplicate_normalized_paths@.map_values(|i: VerifyPathIssue| i@),
            unsafe_paths: self.unsafe_paths@.map_values(|i: VerifyPathIssue| i@),
            payloads_read: match self.payloads_read {
                Some(n) => Some(n as nat),
                None => None,
            },
            warnings: self.warnings@.map_values(|w: String| w@),
        }
    }
}

// ---------------------------------------------------------------------------
// What a report says
// ---------------------------------------------------------------------------

/// Entry `i` repeats the normalized path of an earlier entry.
pub open spec fn seen_before(entries: Seq<EntryView>, i: int) -> bool {
    exists|j: int| 0 <= j < i && entries[j].path == entries[i].path
}

/// Normalized paths of entries that repeat an earlier entry's path, in table order.
pub open spec fn spec_duplicate_paths(entries: Seq<EntryView>) -> Seq<Seq<u8>>
    decreases entries.len(),
{
    if entries.len() == 0 {
        seq![]
    } else {
        let init = spec_duplicate_paths(entries.drop_last());
        if seen_before(entries, entries.len() - 1) {
            init.push(entries.last().path)
        } else {
            init
        }
    }
}

/// Normalized paths that cannot be extracted under a directory, in table order.
pub open spec fn spec_unsafe_paths(entries: Seq<EntryView>) -> Seq<Seq<u8>>
    decreases entries.len(),
{
    if entries.len() == 0 {
        seq![]
    } else {
        let init = spec_unsafe_paths(entries.drop_last());
        if !is_safe_archive_path(entries.last().path) {
            init.push(entries.last().path)
        } else {
            init
        }
    }
}

pub open spec fn spec_path_issue(path: Seq<u8>) -> VerifyPathIssueView {
    VerifyPathIssueView { path: spec_lossy_display(path), path_bytes_hex: spec_hex_chars(path) }
}

pub open spec fn spec_path_issues(paths: Seq<Seq<u8>>) -> Seq<VerifyPathIssueView> {
    paths.map_values(|p: Seq<u8>| spec_path_issue(p))
}

pub open spec fn unnameable_warning() -> Seq<char> {
    "archive contains entries without recoverable path names"@
}

pub open spec fn duplicate_warning() -> Seq<char> {
    "archive contains duplicate normalized paths"@
}

pub open spec fn unsafe_warning() -> Seq<char> {
    "archive contains paths unsafe to extract directly"@
}

pub open spec fn dx10_warning() -> Seq<char> {
    "BA2 DX10 rewrite may buffer preserved texture entries"@
}

pub open spec fn skipped_reads_warning() -> Seq<char> {
    "payload reads skipped: duplicate normalized paths prevent per-entry coverage"@
}

/// Whether payload reads are asked for and skipped: duplicate normalized paths
/// mean a read by path cannot reach every entry.
pub open spec fn reads_skipped(index: IndexView, read_payloads: bool) -> bool {
    read_payloads && spec_duplicate_paths(index.entries).len() > 0
}

pub open spec fn is_dx10(index: IndexView) -> bool {
    index.ba2 matches Some(s) && s.0 == Ba2PayloadKind::Dx10
}

/// The warnings, in this order, each present exactly when its condition holds.
pub open spec fn spec_warnings(index: IndexView, read_payloads: bool) -> Seq<Seq<char>> {
    (if index.entries.len() != index.file_count { seq![unnameable_warning()] } else { seq![] })
    + (if spec_duplicate_paths(index.entries).len() > 0 { seq![duplicate_warning()] } else { seq![] })
    + (if spec_unsafe_paths(index.entries).len() > 0 { seq![unsafe_warning()] } else { seq![] })
    + (if is_dx10(index) { seq![dx10_warning()] } else { seq![] })
    + (if reads_skipped(index, read_payloads) { seq![skipped_reads_warning()] } else { seq![] })
}

/// The report for an archive opened under `label` whose payload check, when
/// requested and not skipped, succeeded.
pub open spec fn spec_verify_report(label: Seq<char>, index: IndexView, read_payloads: bool) -> VerifyReportView {
    VerifyReportView {
        path: label,
        format: index.format,
        file_count: index.file_count,
        named_entry_count: index.entries.len(),
        unnameable_entries: if index.file_count >= index.entries.len() {
            (index.file_count - index.entries.len()) as nat
        } else {
            0
        },
        rewritable: spec_rewrite_blocker(index) is None,
        rewrite_blocker: spec_rewrite_blocker(index),
        duplicate_normalized_paths: spec_path_issues(spec_duplicate_paths(index.entries)),
        unsafe_paths: spec_path_issues(spec_unsafe_paths(index.entries)),
        payloads_read: if read_payloads && !reads_skipped(index, read_payloads) {
            Some(index.entries.len())
        } else {
            None
        },
        warnings: spec_warnings(index, read_payloads),
    }
}

pub open spec fn entry_readable(archive: dream_archive::Archive, e: EntryView) -> bool {
    spec_read_file(archive, e.path) matches Some(Some(_))
}

/// `e` is the error that reading `path` gives.
pub open spec fn read_failure(archive: dream_archive::Archive, path: Seq<u8>, e: ArchiveError) -> bool {
    match spec_read_file(archive, path) {
        Some(Some(_)) => false,
        Some(None) => e matches ArchiveError::EntryNotFound(m) && m@ == spec_lossy_display(path),
        None => e is Archive,
    }
}

/// `e` is the read error of the first entry whose payload cannot be read.
pub open spec fn first_read_failure(archive: dream_archive::Archive, entries: Seq<EntryView>, e: ArchiveError) -> bool {
    exists|i: int|
        0 <= i < entries.len() && (forall|j: int| 0 <= j < i ==> entry_readable(archive, #[trigger] entries[j]))
            && read_failure(archive, entries[i].path, e)
}

/// The unsafe paths are exactly the unsafe entries' paths.
proof fn lemma_unsafe_paths_members(entries: Seq<EntryView>)
    ensures
        forall|j: int| 0 <= j < entries.len() && !is_safe_archive_path(#[trigger] entries[j].path)
            ==> spec_unsafe_paths(entries).contains(entries[j].path),
        forall|k: int| #![trigger spec_unsafe_paths(entries)[k]] 0 <= k < spec_unsafe_paths(entries).len() ==> exists|j: int|
            0 <= j < entries.len() && !is_safe_archive_path(#[trigger] entries[j].path) && spec_unsafe_paths(entries)[k] == entries[j].path,
    decreases entries.len(),
{
    if entries.len() > 0 {
        let init = entries.drop_last();
        let n = entries.len() - 1;
        lemma_unsafe_paths_members(init);
        let u0 = spec_unsafe_paths(init);
        let u = spec_unsafe_paths(entries);
        assert(entries.last() == entries[n]);
        assert forall|j: int| 0 <= j < entries.len() && !is_safe_archive_path(#[trigger] entries[j].path)
            implies u.contains(entries[j].path) by {
            if j < n {
                assert(init[j] == entries[j]);
                let k = choose|k: int| 0 <= k < u0.len() && u0[k] == init[j].path;
                assert(u[k] == u0[k]);
            } else {
                assert(u[u.len() - 1] == entries[j].path);
            }
        }
        assert forall|k: int| #![trigger u[k]] 0 <= k < u.len() implies exists|j: int|
            0 <= j < entries.len() && !is_safe_archive_path(#[trigger] entries[j].path) && u[k] == entries[j].path by {
            if k < u0.len() {
                assert(u[k] == u0[k]);
                let j = choose|j: int| 0 <= j < init.len() && !is_safe_archive_path(#[trigger] init[j].path) && u0[k] == init[j].path;
                assert(init[j] == entries[j]);
            } else {
                assert(u[k] == entries[n].path);
            }
        }
    }
}

/// Every named entry whose normalized path is not safe to extract is reported
/// among the unsafe paths, and every reported unsafe path is such an entry's; the
/// list is empty exactly when every entry's path is safe, and the unsafe-path
/// warning is given exactly when it is not.
pub proof fn law_verify_reports_unsafe_paths(label: Seq<char>, index: IndexView, read_payloads: bool)
    ensures
        ({
            let report = spec_verify_report(label, index, read_payloads);
            let entries = index.entries;
            &&& forall|j: int| 0 <= j < entries.len() && !is_safe_archive_path(#[trigger] entries[j].path)
                ==> report.unsafe_paths.contains(spec_path_issue(entries[j].path))
            &&& forall|k: int| #![trigger report.unsafe_paths[k]] 0 <= k < report.unsafe_paths.len() ==> exists|j: int|
                0 <= j < entries.len() && !is_safe_archive_path(#[trigger] entries[j].path)
                    && report.unsafe_paths[k] == spec_path_issue(entries[j].path)
            &&& report.unsafe_paths.len() > 0 <==> exists|j: int| 0 <= j < entries.len() && !is_safe_archive_path(#[trigger] entries[j].path)
            &&& report.warnings.contains(unsafe_warning()) <==> exists|j: int|
                0 <= j < entries.len() && !is_safe_archive_path(#[trigger] entries[j].path)
        }),
{
    let entries = index.entries;
    let report = spec_verify_report(label, index, read_payloads);
    let u = spec_unsafe_paths(entries);
    lemma_unsafe_paths_members(entries);
    assert(report.unsafe_paths == spec_path_issues(u));
    assert(report.unsafe_paths.len() == u.len());
    assert forall|j: int| 0 <= j < entries.len() && !is_safe_archive_path(#[trigger] entries[j].path)
        implies report.unsafe_paths.contains(spec_path_issue(entries[j].path)) by {
        let k = choose|k: int| 0 <= k < u.len() && u[k] == entries[j].path;
        assert(report.unsafe_paths[k] == spec_path_issue(u[k]));
    }
    assert forall|k: int| #![trigger report.unsafe_paths[k]] 0 <= k < report.unsafe_paths.len() implies exists|j: int|
        0 <= j < entries.len() && !is_safe_archive_path(#[trigger] entries[j].path)
            && report.unsafe_paths[k] == spec_path_issue(entries[j].path) by {
        assert(report.unsafe_paths[k] == spec_path_issue(u[k]));
    }
    if exists|j: int| 0 <= j < entries.len() && !is_safe_archive_path(#[trigger] entries[j].path) {
        let j = choose|j: int| 0 <= j < entries.len() && !is_safe_archive_path(#[trigger] entries[j].path);
        assert(u.contains(entries[j].path));
    }
    reveal_strlit("archive contains entries without recoverable path names");
    reveal_strlit("archive contains duplicate normalized paths");
    reveal_strlit("archive contains paths unsafe to extract directly");
    reveal_strlit("BA2 DX10 rewrite may buffer preserved texture entries");
    reveal_strlit("payload reads skipped: duplicate normalized paths prevent per-entry coverage");
    let a: Seq<Seq<char>> = if entries.len() != index.file_count { seq![unnameable_warning()] } else { seq![] };
    let b: Seq<Seq<char>> = if spec_duplicate_paths(entries).len() > 0 { seq![duplicate_warning()] } else { seq![] };
    let c: Seq<Seq<char>> = if u.len() > 0 { seq![unsafe_warning()] } else { seq![] };
    let d: Seq<Seq<char>> = if is_dx10(index) { seq![dx10_warning()] } else { seq![] };
    let s: Seq<Seq<char>> = if reads_skipped(index, read_payloads) { seq![skipped_reads_warning()] } else { seq![] };
    let w = report.warnings;
    assert(w == a + b + c + d + s);
    assert(unsafe_warning()[17] != unnameable_warning()[17]);
    assert(unsafe_warning()[17] != duplicate_warning()[17]);
    assert(unsafe_warning() != dx10_warning());
    assert(unsafe_warning()[0] != skipped_reads_warning()[0]);
    if u.len() > 0 {
        assert(report.unsafe_paths[0] == spec_path_issue(u[0]));
        assert(w[(a.len() + b.len()) as int] == unsafe_warning());
        assert(w.contains(unsafe_warning()));
    } else {
        assert(w =~= a + b + d + s);
        assert(!w.contains(unsafe_warning()));
    }
}

// ---------------------------------------------------------------------------
// Computing a report
// ---------------------------------------------------------------------------

fn path_issue(path: &[u8]) -> (issue: VerifyPathIssue)
    ensures
        issue@ == spec_path_issue(path@),
{
    VerifyPathIssue {
        path: archive_path_bytes_to_display(path),
        path_bytes_hex: archive_path_bytes_to_hex(path),
    }
}

fn copy_bytes(bytes: &Vec<u8>) -> (copy: Vec<u8>)
    ensures
        copy@ == bytes@,
{
    let mut copy: Vec<u8> = Vec::new();
    let mut i: usize = 0;
    while i < bytes.len()
        invariant
            i <= bytes@.len(),
            copy@ == bytes@.take(i as int),
        decreases bytes@.len() - i,
    {
        copy.push(bytes[i]);
        assert(bytes@.take(i as int + 1) =~= bytes@.take(i as int).push(bytes@[i as int]));
        i = i + 1;
    }
    assert(bytes@.take(bytes@.len() as int) =~= bytes@);
    copy
}

/// Duplicate and unsafe paths of the entries, in table order.
fn path_issues(entries: &Vec<LoadedEntry>) -> (issues: (Vec<VerifyPathIssue>, Vec<VerifyPathIssue>))
    ensures
        issues.0@.map_values(|i: VerifyPathIssue| i@) == spec_path_issues(spec_duplicate_paths(entries@.map_values(|e: LoadedEntry| e@))),
        issues.1@.map_values(|i: VerifyPathIssue| i@) == spec_path_issues(spec_unsafe_paths(entries@.map_values(|e: LoadedEntry| e@))),
{
    let ghost all = entries@.map_values(|e: LoadedEntry| e@);
    let mut seen: ByteMap<()> = ByteMap::new();
    let mut duplicates: Vec<VerifyPathIssue> = Vec::new();
    let mut unsafe_paths: Vec<VerifyPathIssue> = Vec::new();
    let mut i: usize = 0;
    assert(all.take(0) =~= Seq::<EntryView>::empty());
    while i < entries.len()
        invariant
            all == entries@.map_values(|e: LoadedEntry| e@),
            i <= entries@.len(),
            sorted_keys(seen@),
            forall|k: Seq<u8>| #[trigger] to_map(seen@).contains_key(k) <==> exists|j: int| 0 <= j < i && all[j].path == k,
            duplicates@.map_values(|x: VerifyPathIssue| x@) == spec_path_issues(spec_duplicate_paths(all.take(i as int))),
            unsafe_paths@.map_values(|x: VerifyPathIssue| x@) == spec_path_issues(spec_unsafe_paths(all.take(i as int))),
        decreases entries@.len() - i,
    {
        let entry = &entries[i];
        let ghost prefix = all.take(i as int + 1);
        assert(prefix.drop_last() =~= all.take(i as int));
        assert(prefix.last() == entry@);
        assert(all[i as int] == entry@);
        let ghost before = seen@;
        proof {
            lemma_to_map_dom(before, entry.path@);
        }
        let replaced = seen.insert(copy_bytes(&entry.path), ());
        assert(seen_before(prefix, i as int) <==> replaced is Some) by {
            if seen_before(prefix, i as int) {
                let j = choose|j: int| 0 <= j < i && prefix[j].path == prefix[i as int].path;
                assert(prefix[j] == all[j]);
                assert(to_map(before).contains_key(entry.path@));
            }
            if replaced is Some {
                assert(to_map(before).contains_key(entry.path@));
                let j = choose|j: int| 0 <= j < i && all[j].path == entry.path@;
                assert(prefix[j] == all[j]);
            }
        }
        if replaced.is_some() {
            let ghost d = duplicates@.map_values(|x: VerifyPathIssue| x@);
            duplicates.push(path_issue(entry.path.as_slice()));
            assert(duplicates@.map_values(|x: VerifyPathIssue| x@) =~= d.push(spec_path_issue(entry.path@)));
        }
        let ghost u = unsafe_paths@.map_values(|x: VerifyPathIssue| x@);
        if safe_target_path_normalized(".".as_bytes(), entry.path.as_slice()).is_err() {
            unsafe_paths.push(path_issue(entry.path.as_slice()));
            assert(unsafe_paths@.map_values(|x: VerifyPathIssue| x@) =~= u.push(spec_path_issue(entry.path@)));
        }
        assert(spec_path_issues(spec_duplicate_paths(prefix)) =~= (if seen_before(prefix, i as int) {
            spec_path_issues(spec_duplicate_paths(all.take(i as int))).push(spec_path_issue(entry.path@))
        } else {
            spec_path_issues(spec_duplicate_paths(all.take(i as int)))
        }));
        assert(spec_path_issues(spec_unsafe_paths(prefix)) =~= (if !is_safe_archive_path(entry.path@) {
            spec_path_issues(spec_unsafe_paths(all.take(i as int))).push(spec_path_issue(entry.path@))
        } else {
            spec_path_issues(spec_unsafe_paths(all.take(i as int)))
        }));
        assert forall|k: Seq<u8>| #[trigger] to_map(seen@).contains_key(k) <==> exists|j: int| 0 <= j < i + 1 && all[j].path == k by {
            if k == entry.path@ {
                assert(all[i as int].path == k);
            }
            if exists|j: int| 0 <= j < i + 1 && all[j].path == k {
                let j = choose|j: int| 0 <= j < i + 1 && all[j].path == k;
                if j < i {
                    assert(exists|j: int| 0 <= j < i && all[j].path == k);
                }
            }
        }
        i = i + 1;
    }
    assert(all.take(entries@.len() as int) =~= all);
    (duplicates, unsafe_paths)
}

/// Read every named payload, stopping at the first failure.
fn read_all_payloads(archive: &LoadedArchive) -> (r: Result<usize>)
    ensures
        r is Ok <==> forall|j: int| 0 <= j < archive@.entries.len() ==> entry_readable(archive.source(), #[trigger] archive@.entries[j]),
        r matches Ok(n) ==> n == archive@.entries.len(),
        r matches Err(e) ==> first_read_failure(archive.source(), archive@.entries, e),
{
    let entries = archive.list_loaded_entries();
    let ghost all = archive@.entries;
    let mut i: usize = 0;
    while i < entries.len()
        invariant
            all == archive@.entries,
            entries@.map_values(|e: LoadedEntry| e@) == all,
            i <= entries@.len(),
            forall|j: int| 0 <= j < i ==> entry_readable(archive.source(), #[trigger] all[j]),
        decreases entries@.len() - i,
    {
        assert(all[i as int] == entries@[i as int]@);
        match archive.read_entry_bytes_by_normalized_path(entries[i].path.as_slice()) {
            Ok(_) => {},
            Err(e) => {
                assert(!entry_readable(archive.source(), all[i as int]));
                assert(first_read_failure(archive.source(), all, e)) by {
                    assert(read_failure(archive.source(), all[i as int].path, e));
                }
                return Err(e);
            },
        }
        i = i + 1;
    }
    Ok(entries.len())
}

fn warnings_for(archive: &LoadedArchive, has_duplicates: bool, has_unsafe: bool, read_payloads: bool) -> (warnings: Vec<String>)
    requires
        has_duplicates <==> spec_duplicate_paths(archive@.entries).len() > 0,
        has_unsafe <==> spec_unsafe_paths(archive@.entries).len() > 0,
    ensures
        warnings@.map_values(|w: String| w@) == spec_warnings(archive@, read_payloads),
{
    let mut warnings: Vec<String> = Vec::new();
    if archive.has_unnameable_entries() {
        warnings.push(String::from_str("archive contains entries without recoverable path names"));
    }
    let ghost w1 = warnings@.map_values(|w: String| w@);
    if has_duplicates {
        warnings.push(String::from_str("archive contains duplicate normalized paths"));
    }
    let ghost w2 = warnings@.map_values(|w: String| w@);
    if has_unsafe {
        warnings.push(String::from_str("archive contains paths unsafe to extract directly"));
    }
    let ghost w3 = warnings@.map_values(|w: String| w@);
    let dx10 = match archive.ba2_settings() {
        Some(settings) => settings.0 == Ba2PayloadKind::Dx10,
        None => false,
    };
    if dx10 {
        warnings.push(String::from_str("BA2 DX10 rewrite may buffer preserved texture entries"));
    }
    let ghost w4 = warnings@.map_values(|w: String| w@);
    if read_payloads && has_duplicates {
        warnings.push(String::from_str("payload reads skipped: duplicate normalized paths prevent per-entry coverage"));
    }
    proof {
        reveal_strlit("payload reads skipped: duplicate normalized paths prevent per-entry coverage");
        reveal_strlit("archive contains entries without recoverable path names");
        reveal_strlit("archive contains duplicate normalized paths");
        reveal_strlit("archive contains paths unsafe to extract directly");
        reveal_strlit("BA2 DX10 rewrite may buffer preserved texture entries");
        let i = archive@;
        let a: Seq<Seq<char>> = if i.entries.len() != i.file_count { seq![unnameable_warning()] } else { seq![] };
        let b: Seq<Seq<char>> = if spec_duplicate_paths(i.entries).len() > 0 { seq![duplicate_warning()] } else { seq![] };
        let c: Seq<Seq<char>> = if spec_unsafe_paths(i.entries).len() > 0 { seq![unsafe_warning()] } else { seq![] };
        let d: Seq<Seq<char>> = if is_dx10(i) { seq![dx10_warning()] } else { seq![] };
        assert(w1 =~= a);
        assert(w2 =~= a + b);
        assert(w3 =~= a + b + c);
        let s: Seq<Seq<char>> = if reads_skipped(i, read_payloads) { seq![skipped_reads_warning()] } else { seq![] };
        assert(w4 =~= a + b + c + d);
        assert(warnings@.map_values(|w: String| w@) =~= a + b + c + d + s);
    }
    warnings
}

/// Verify the index of an opened archive and, when asked, read every payload.
pub fn verify_loaded_archive(label: &str, archive: &LoadedArchive, options: &VerifyOptions) -> (r: Result<VerifyReport>)
    ensures
        r is Ok <==> !options.read_payloads || reads_skipped(archive@, options.read_payloads)
            || forall|j: int| 0 <= j < archive@.entries.len() ==> entry_readable(archive.source(), #[trigger] archive@.entries[j]),
        r matches Ok(report) ==> report@ == spec_verify_report(label@, archive@, options.read_payloads),
        r matches Err(e) ==> first_read_failure(archive.source(), archive@.entries, e),
{
    let (duplicates, unsafe_paths) = path_issues(archive.list_loaded_entries());
    let has_duplicates = duplicates.len() > 0;
    let has_unsafe = unsafe_paths.len() > 0;
    assert(duplicates@.map_values(|i: VerifyPathIssue| i@).len() == duplicates@.len());
    assert(unsafe_paths@.map_values(|i: VerifyPathIssue| i@).len() == unsafe_paths@.len());
    let payloads_read = if options.read_payloads && !has_duplicates {
        Some(read_all_payloads(archive)?)
    } else {
        None
    };
    let warnings = warnings_for(archive, has_duplicates, has_unsafe, options.read_payloads);
    let blocker = rewrite_blocker(archive);
    let file_count = archive.file_count();
    let named = archive.named_entry_count();
    let report = VerifyReport {
        path: String::from_str(label),
        format: archive.format(),
        file_count,
        named_entry_count: named,
        unnameable_entries: file_count.saturating_sub(named),
        rewritable: blocker.is_none(),
        rewrite_blocker: match blocker {
            Some(b) => Some(String::from_str(b)),
            None => None,
        },
        duplicate_normalized_paths: duplicates,
        unsafe_paths,
        payloads_read,
        warnings,
    };
    Ok(report)
}

/// Verify the archive whose file bytes are `bytes`; `path` names it in the report.
pub fn verify_archive(path: &str, bytes: Vec<u8>, options: &VerifyOptions) -> (r: Result<VerifyReport>)
    ensures
        spec_open_index(bytes@) is None ==> r is Err,
        spec_open_index(bytes@) matches Some(o) ==> (
            (r is Ok <==> !options.read_payloads || reads_skipped(o.index, options.read_payloads) || forall|j: int| 0 <= j < o.index.entries.len() ==> entry_readable(o.archive, #[trigger] o.index.entries[j]))
            && (r matches Ok(report) ==> report@ == spec_verify_report(path@, o.index, options.read_payloads))
            && (r matches Err(e) ==> first_read_failure(o.archive, o.index.entries, e))),
{
    let archive = LoadedArchive::open(path, bytes)?;
    verify_loaded_archive(path, &archive, options)
}

} // verus!
