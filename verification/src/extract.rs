//! Extraction policy: where each entry goes on the host, which targets may be
//! written, and what a dry run reports. The writes themselves belong to the caller.

use vstd::prelude::*;
use vstd::string::*;

use crate::byte_map::{lemma_sorted_insert, sorted_insert, sorted_keys, to_map, ByteMap};
use crate::error::{ArchiveError, Result};
use crate::loaded::{read_outcome_ok, spec_open_index, spec_read_file, spec_text_display, spec_text_lookup_key, EntryView, LoadedArchive, LoadedEntry};
use crate::verify::read_failure;
use crate::paths::{
    archive_path_bytes_to_display, archive_path_bytes_to_hex, flat_target_path_normalized,
    is_safe_archive_path, is_unsafe_path_error, normalize_safe_archive_path_bytes,
    safe_target_path_normalized, spec_flat_target, spec_hex_chars, spec_lossy_display,
    spec_nested_target, spec_normalize, validate_archive_path_bytes_for_extraction,
};

verus! {

/// Policy for extraction targets that already exist.
#[derive(Debug, Clone, Copy, PartialEq, Eq, Structural)]
pub enum OverwriteMode {
    /// Fail if the target path already exists.
    Fail,
    /// Replace existing files.
    Overwrite,
    /// Leave existing files untouched and count them as skipped.
    Skip,
}

impl Default for OverwriteMode {
    fn default() -> (mode: Self)
        ensures
            mode == OverwriteMode::Fail,
    {
        OverwriteMode::Fail
    }
}

/// Options for extracting selected archive entries.
#[derive(Debug, Clone)]
pub struct ExtractOptions {
    /// Output directory as host path bytes; the current directory when absent.
    pub output: Option<Vec<u8>>,
    /// Existing-file handling policy.
    pub overwrite: OverwriteMode,
    /// Preserve archive directories; when false only the entry's file name is written.
    pub preserve_paths: bool,
    /// Sync file contents and parent directories after writing.
    pub fsync: bool,
}

impl Default for ExtractOptions {
    fn default() -> (options: Self)
        ensures
            options.output is None,
            options.overwrite == OverwriteMode::Fail,
            options.preserve_paths,
            !options.fsync,
    {
        ExtractOptions { output: None, overwrite: OverwriteMode::Fail, preserve_paths: true, fsync: false }
    }
}

/// Options for extracting every archive entry.
#[derive(Debug, Clone)]
pub struct ExtractAllOptions {
    /// Output directory as host path bytes; the current directory when absent.
    pub output: Option<Vec<u8>>,
    /// Existing-file handling policy.
    pub overwrite: OverwriteMode,
    /// Sync file contents and parent directories after writing.
    pub fsync: bool,
}

impl Default for ExtractAllOptions {
    fn default() -> (options: Self)
        ensures
            options.output is None,
            options.overwrite == OverwriteMode::Fail,
            !options.fsync,
    {
        ExtractAllOptions { output: None, overwrite: OverwriteMode::Fail, fsync: false }
    }
}

/// Counts reported by an extraction.
#[derive(Debug, Clone, Copy, PartialEq, Eq, Structural)]
#[non_exhaustive]
pub struct ExtractSummary {
    /// Number of files written.
    pub extracted: usize,
    /// Number of existing files left untouched because the mode was `Skip`.
    pub skipped: usize,
}

impl ExtractSummary {
    pub fn new(extracted: usize, skipped: usize) -> (s: Self)
        ensures
            s.extracted == extracted,
            s.skipped == skipped,
    {
        ExtractSummary { extracted, skipped }
    }
}

/// Extraction dry-run operation.
#[derive(Debug, Clone, Copy, PartialEq, Eq, Structural)]
#[non_exhaustive]
pub enum ExtractPlanOperation {
    /// Plan for selected-entry extraction.
    Extract,
    /// Plan for full archive extraction.
    ExtractAll,
}

/// Planned action for one extraction target.
#[derive(Debug, Clone, Copy, PartialEq, Eq, Structural)]
#[non_exhaustive]
pub enum ExtractPlanAction {
    /// The target does not exist yet, or will be written anyway in `Fail` mode.
    Extract,
    /// The target exists and the mode is `Skip`.
    Skip,
    /// The target exists and the mode is `Overwrite`.
    Overwrite,
}

/// A single planned extraction target.
#[derive(Debug, Clone)]
#[non_exhaustive]
pub struct ExtractPlanEntry {
    pub action: ExtractPlanAction,
    /// Archive path formatted for display.
    pub path: String,
    /// Hex-encoded normalized archive-path lookup key.
    pub path_bytes_hex: String,
    /// Host target formatted for display.
    pub target: String,
}

/// Plan for extracting entries without writing files.
#[derive(Debug, Clone)]
#[non_exhaustive]
pub struct ExtractAllPlan {
    pub operation: ExtractPlanOperation,
    /// Archive label formatted for display.
    pub archive: String,
    /// Output directory formatted for display.
    pub output: String,
    /// Planned targets in archive (or request) order.
    pub entries: Vec<ExtractPlanEntry>,
}

/// An archive entry and the host path it is extracted to.
#[derive(Debug)]
pub struct PlannedExtractTarget {
    /// Normalized archive lookup path.
    pub archive_path: Vec<u8>,
    /// Host target path bytes.
    pub path: Vec<u8>,
}

pub struct ExtractPlanEntryView {
    pub action: ExtractPlanAction,
    pub path: Seq<char>,
    pub path_bytes_hex: Seq<char>,
    pub target: Seq<char>,
}

impl View for ExtractPlanEntry {
    type V = ExtractPlanEntryView;

    open spec fn view(&self) -> ExtractPlanEntryView {
        ExtractPlanEntryView {
            action: self.action,
            path: self.path@,
            path_bytes_hex: self.path_bytes_hex@,
            target: self.target@,
        }
    }
}

impl View for PlannedExtractTarget {
    type V = (Seq<u8>, Seq<u8>);

    open spec fn view(&self) -> (Seq<u8>, Seq<u8>) {
        (self.archive_path@, self.path@)
    }
}

/// Output root bytes: the chosen directory, or `.`.
pub open spec fn spec_root(output: Option<Vec<u8>>) -> Seq<u8> {
    match output {
        Some(o) => o@,
        None => seq![46u8],
    }
}

/// Why planning stops: an unsafe archive path, two entries landing on one target,
/// or an existing target in `Fail` mode.
pub enum PlanFailure {
    Unsafe(Seq<u8>),
    Duplicate(Seq<u8>),
    Exists(Seq<u8>),
}

/// The error reported for a planning failure.
pub open spec fn plan_error_matches(e: ArchiveError, f: PlanFailure) -> bool {
    match f {
        PlanFailure::Unsafe(p) => is_unsafe_path_error(e, p),
        PlanFailure::Duplicate(t) => e matches ArchiveError::Archive(m) && m@
            == "duplicate extraction target after normalization: "@ + spec_lossy_display(t),
        PlanFailure::Exists(t) => e matches ArchiveError::TargetExists(m) && m@ == spec_lossy_display(t),
    }
}

/// Some planned target has host path `t`.
pub open spec fn target_in(done: Seq<(Seq<u8>, Seq<u8>)>, t: Seq<u8>) -> bool {
    exists|j: int| 0 <= j < done.len() && (#[trigger] done[j]).1 == t
}

/// Targets of `entries` under `root`, checked one entry after the other in order:
/// the stored path and the lookup path must be safe, no two entries may share a
/// target, and in `Fail` mode no target may exist (`existing[i]` says whether the
/// target of entry `i` exists).
pub open spec fn spec_plan_all(
    root: Seq<u8>,
    entries: Seq<EntryView>,
    overwrite: OverwriteMode,
    existing: Seq<bool>,
) -> core::result::Result<Seq<(Seq<u8>, Seq<u8>)>, PlanFailure>
    decreases entries.len(),
{
    if entries.len() == 0 {
        Ok(seq![])
    } else {
        let n = (entries.len() - 1) as int;
        match spec_plan_all(root, entries.drop_last(), overwrite, existing) {
            Err(f) => Err(f),
            Ok(done) => {
                let e = entries.last();
                if !is_safe_archive_path(e.raw_path) {
                    Err(PlanFailure::Unsafe(e.raw_path))
                } else if !is_safe_archive_path(e.path) {
                    Err(PlanFailure::Unsafe(e.path))
                } else {
                    let t = spec_nested_target(root, e.path);
                    if target_in(done, t) {
                        Err(PlanFailure::Duplicate(t))
                    } else if overwrite == OverwriteMode::Fail && existing[n] {
                        Err(PlanFailure::Exists(t))
                    } else {
                        Ok(done.push((e.path, t)))
                    }
                }
            },
        }
    }
}

/// Target of one requested path: its normalized spelling must be safe, and the
/// target keeps or drops its directories.
pub open spec fn spec_request_target(root: Seq<u8>, request: Seq<u8>, preserve_paths: bool) -> core::result::Result<(Seq<u8>, Seq<u8>), PlanFailure> {
    if !is_safe_archive_path(request) {
        Err(PlanFailure::Unsafe(request))
    } else if !is_safe_archive_path(spec_normalize(request)) {
        Err(PlanFailure::Unsafe(spec_normalize(request)))
    } else if preserve_paths {
        Ok((spec_normalize(request), spec_nested_target(root, spec_normalize(request))))
    } else {
        match spec_flat_target(root, spec_normalize(request)) {
            Some(t) => Ok((spec_normalize(request), t)),
            None => Err(PlanFailure::Unsafe(spec_normalize(request))),
        }
    }
}

/// Targets of requested paths, checked in order as for [`spec_plan_all`].
pub open spec fn spec_plan_requests(
    root: Seq<u8>,
    requests: Seq<Seq<u8>>,
    preserve_paths: bool,
    overwrite: OverwriteMode,
    existing: Seq<bool>,
) -> core::result::Result<Seq<(Seq<u8>, Seq<u8>)>, PlanFailure>
    decreases requests.len(),
{
    if requests.len() == 0 {
        Ok(seq![])
    } else {
        let n = (requests.len() - 1) as int;
        match spec_plan_requests(root, requests.drop_last(), preserve_paths, overwrite, existing) {
            Err(f) => Err(f),
            Ok(done) => match spec_request_target(root, requests.last(), preserve_paths) {
                Err(f) => Err(f),
                Ok(pt) => {
                    if target_in(done, pt.1) {
                        Err(PlanFailure::Duplicate(pt.1))
                    } else if overwrite == OverwriteMode::Fail && existing[n] {
                        Err(PlanFailure::Exists(pt.1))
                    } else {
                        Ok(done.push(pt))
                    }
                },
            },
        }
    }
}

/// The planned action for a target.
pub open spec fn spec_plan_action(overwrite: OverwriteMode, exists: bool) -> ExtractPlanAction {
    if overwrite == OverwriteMode::Skip && exists {
        ExtractPlanAction::Skip
    } else if overwrite == OverwriteMode::Overwrite && exists {
        ExtractPlanAction::Overwrite
    } else {
        ExtractPlanAction::Extract
    }
}

/// What the dry-run report says of one target.
pub open spec fn spec_plan_entry(target: (Seq<u8>, Seq<u8>), overwrite: OverwriteMode, exists: bool) -> ExtractPlanEntryView {
    ExtractPlanEntryView {
        action: spec_plan_action(overwrite, exists),
        path: spec_lossy_display(target.0),
        path_bytes_hex: spec_hex_chars(target.0),
        target: spec_lossy_display(target.1),
    }
}

fn copy_bytes(bytes: &Vec<u8>) -> (copy: Vec<u8>)
    ensures
        copy@ == bytes@,
{
    let mut copy: Vec<u8> = Vec::new();
    let mut i: usize = 0;
    while i < bytes.len()
        invariant
            i <= bytes@.len(),
            copy@ == bytes@.take(i as int),
        decreases bytes@.len() - i,
    {
        copy.push(bytes[i]);
        assert(bytes@.take(i as int + 1) =~= bytes@.take(i as int).push(bytes@[i as int]));
        i = i + 1;
    }
    assert(bytes@.take(bytes@.len() as int) =~= bytes@);
    copy
}

/// Output root bytes: the chosen directory, or `.`.
pub fn extract_root(output: &Option<Vec<u8>>) -> (root: Vec<u8>)
    ensures
        root@ == spec_root(*output),
{
    match output {
        Some(o) => copy_bytes(o),
        None => {
            let mut root: Vec<u8> = Vec::new();
            root.push(46u8);
            assert(root@ =~= seq![46u8]);
            root
        },
    }
}

/// `taken` is a sorted set of exactly the host targets planned so far.
pub open spec fn taken_matches(taken: Seq<(Seq<u8>, ())>, done: Seq<(Seq<u8>, Seq<u8>)>) -> bool {
    &&& sorted_keys(taken)
    &&& forall|k: Seq<u8>| #[trigger] to_map(taken).contains_key(k) <==> target_in(done, k)
}

proof fn lemma_taken_push(taken: Seq<(Seq<u8>, ())>, done: Seq<(Seq<u8>, Seq<u8>)>, a: Seq<u8>, t: Seq<u8>)
    requires
        taken_matches(taken, done),
    ensures
        taken_matches(sorted_insert(taken, t, ()), done.push((a, t))),
{
    lemma_sorted_insert(taken, t, ());
    let next = done.push((a, t));
    assert forall|k: Seq<u8>| #[trigger] to_map(sorted_insert(taken, t, ())).contains_key(k) <==> exists|j: int| 0 <= j < next.len() && (#[trigger] next[j]).1 == k by {
        if k == t {
            assert(next[done.len() as int].1 == k);
        }
        if exists|j: int| 0 <= j < next.len() && (#[trigger] next[j]).1 == k {
            let j = choose|j: int| 0 <= j < next.len() && (#[trigger] next[j]).1 == k;
            if j < done.len() {
                assert(done[j] == next[j]);
            }
        }
        if to_map(taken).contains_key(k) {
            let j = choose|j: int| 0 <= j < done.len() && (#[trigger] done[j]).1 == k;
            assert(next[j] == done[j]);
        }
    }
}

fn duplicate_target_error(path: &Vec<u8>) -> (e: ArchiveError)
    ensures
        plan_error_matches(e, PlanFailure::Duplicate(path@)),
{
    let mut message = String::from_str("duplicate extraction target after normalization: ");
    let shown = archive_path_bytes_to_display(path.as_slice());
    message.append(shown.as_str());
    ArchiveError::Archive(message)
}

/// Plan the targets of every named entry under `root`.
pub fn planned_extract_targets(
    root: &Vec<u8>,
    entries: &Vec<LoadedEntry>,
    overwrite: OverwriteMode,
    existing: &Vec<bool>,
) -> (r: Result<Vec<PlannedExtractTarget>>)
    requires
        existing@.len() == entries@.len(),
    ensures
        match spec_plan_all(root@, entries@.map_values(|e: LoadedEntry| e@), overwrite, existing@) {
            Ok(planned) => r matches Ok(t) && t@.map_values(|p: PlannedExtractTarget| p@) == planned,
            Err(f) => r matches Err(e) && plan_error_matches(e, f),
        },
{
    let ghost all = entries@.map_values(|e: LoadedEntry| e@);
    let mut targets: Vec<PlannedExtractTarget> = Vec::new();
    let mut taken: ByteMap<()> = ByteMap::new();
    let mut i: usize = 0;
    assert(all.take(0) =~= Seq::<EntryView>::empty());
    assert(targets@.map_values(|p: PlannedExtractTarget| p@) =~= Seq::<(Seq<u8>, Seq<u8>)>::empty());
    while i < entries.len()
        invariant
            all == entries@.map_values(|e: LoadedEntry| e@),
            existing@.len() == entries@.len(),
            i <= entries@.len(),
            spec_plan_all(root@, all.take(i as int), overwrite, existing@) == Ok::<Seq<(Seq<u8>, Seq<u8>)>, PlanFailure>(
                targets@.map_values(|p: PlannedExtractTarget| p@)),
            taken_matches(taken@, targets@.map_values(|p: PlannedExtractTarget| p@)),
        decreases entries@.len() - i,
    {
        let ghost done = targets@.map_values(|p: PlannedExtractTarget| p@);
        assert(all.take(i as int + 1).drop_last() =~= all.take(i as int));
        assert(all.take(i as int + 1).last() == entries@[i as int]@);
        let entry = &entries[i];
        if let Err(e) = validate_archive_path_bytes_for_extraction(entry.raw_path.as_slice()) {
            assert(all.take(i as int + 1) =~= all.take(i as int + 1));
            proof {
                lemma_plan_all_stops(root@, all, overwrite, existing@, i as int + 1);
            }
            return Err(e);
        }
        let path = match safe_target_path_normalized(root.as_slice(), entry.path.as_slice()) {
            Ok(p) => p,
            Err(e) => {
                proof {
                    lemma_plan_all_stops(root@, all, overwrite, existing@, i as int + 1);
                }
                return Err(e);
            },
        };
        if taken.contains_key(path.as_slice()) {
            proof {
                assert(to_map(taken@).contains_key(path@));
                let j = choose|j: int| 0 <= j < done.len() && (#[trigger] done[j]).1 == path@;
                assert(done[j].1 == path@);
                assert(path@ == spec_nested_target(root@, entry.path@));
                lemma_plan_all_duplicate_step(root@, all.take(i as int + 1), overwrite, existing@, done, j);
                lemma_plan_all_stops(root@, all, overwrite, existing@, i as int + 1);
            }
            return Err(duplicate_target_error(&path));
        }
        if overwrite == OverwriteMode::Fail && existing[i] {
            proof {
                lemma_plan_all_stops(root@, all, overwrite, existing@, i as int + 1);
            }
            return Err(ArchiveError::TargetExists(archive_path_bytes_to_display(path.as_slice())));
        }
        let archive_path = copy_bytes(&entry.path);
        proof {
            lemma_taken_push(taken@, done, entry.path@, path@);
        }
        taken.insert(copy_bytes(&path), ());
        targets.push(PlannedExtractTarget { archive_path, path });
        assert(targets@.map_values(|p: PlannedExtractTarget| p@) =~= done.push((entry.path@, spec_nested_target(root@, entry.path@))));
        i = i + 1;
    }
    assert(all.take(entries@.len() as int) =~= all);
    Ok(targets)
}

/// Planning stops at an entry whose target an earlier entry already has.
proof fn lemma_plan_all_duplicate_step(
    root: Seq<u8>,
    s: Seq<EntryView>,
    overwrite: OverwriteMode,
    existing: Seq<bool>,
    done: Seq<(Seq<u8>, Seq<u8>)>,
    j: int,
)
    requires
        s.len() > 0,
        spec_plan_all(root, s.drop_last(), overwrite, existing) == Ok::<Seq<(Seq<u8>, Seq<u8>)>, PlanFailure>(done),
        is_safe_archive_path(s.last().raw_path),
        is_safe_archive_path(s.last().path),
        0 <= j < done.len(),
        done[j].1 == spec_nested_target(root, s.last().path),
    ensures
        spec_plan_all(root, s, overwrite, existing) == Err::<Seq<(Seq<u8>, Seq<u8>)>, PlanFailure>(
            PlanFailure::Duplicate(spec_nested_target(root, s.last().path))),
{
    assert(done[j].1 == spec_nested_target(root, s.last().path));
    assert(target_in(done, spec_nested_target(root, s.last().path)));
}

/// Once planning a prefix fails, planning every longer prefix fails the same way.
pub proof fn lemma_plan_all_stops(root: Seq<u8>, all: Seq<EntryView>, overwrite: OverwriteMode, existing: Seq<bool>, k: int)
    requires
        0 < k <= all.len(),
        spec_plan_all(root, all.take(k), overwrite, existing) is Err,
    ensures
        spec_plan_all(root, all, overwrite, existing) == spec_plan_all(root, all.take(k), overwrite, existing),
    decreases all.len() - k,
{
    if k < all.len() {
        assert(all.take(k + 1).drop_last() =~= all.take(k));
        lemma_plan_all_stops(root, all, overwrite, existing, k + 1);
    } else {
        assert(all.take(k) =~= all);
    }
}


/// Extraction safety of a full plan: when planning succeeds there is one target per
/// entry, each entry's stored and lookup paths are safe, each target keeps the
/// entry's directories under the root, no two targets coincide, and in `Fail` mode
/// none of them exists yet.
pub proof fn law_plan_all_targets_safe_and_distinct(
    root: Seq<u8>,
    entries: Seq<EntryView>,
    overwrite: OverwriteMode,
    existing: Seq<bool>,
)
    ensures
        spec_plan_all(root, entries, overwrite, existing) matches Ok(planned) ==> {
            &&& planned.len() == entries.len()
            &&& forall|i: int| 0 <= i < planned.len() ==> {
                &&& is_safe_archive_path((#[trigger] entries[i]).raw_path)
                &&& is_safe_archive_path(entries[i].path)
                &&& planned[i] == (entries[i].path, spec_nested_target(root, entries[i].path))
                &&& (overwrite == OverwriteMode::Fail ==> !existing[i])
            }
            &&& forall|i: int, j: int| 0 <= i < j < planned.len() ==> (#[trigger] planned[i]).1 != (#[trigger] planned[j]).1
        },
    decreases entries.len(),
{
    if entries.len() > 0 {
        let init = entries.drop_last();
        law_plan_all_targets_safe_and_distinct(root, init, overwrite, existing);
        if let Ok(planned) = spec_plan_all(root, entries, overwrite, existing) {
            let done = spec_plan_all(root, init, overwrite, existing)->Ok_0;
            assert(planned == done.push(planned.last()));
            assert forall|i: int| 0 <= i < planned.len() implies {
                &&& is_safe_archive_path((#[trigger] entries[i]).raw_path)
                &&& is_safe_archive_path(entries[i].path)
                &&& planned[i] == (entries[i].path, spec_nested_target(root, entries[i].path))
                &&& (overwrite == OverwriteMode::Fail ==> !existing[i])
            } by {
                if i < planned.len() - 1 {
                    assert(entries[i] == init[i]);
                    assert(planned[i] == done[i]);
                }
            }
            assert forall|i: int, j: int| 0 <= i < j < planned.len() implies (#[trigger] planned[i]).1 != (#[trigger] planned[j]).1 by {
                if j == planned.len() - 1 {
                    assert(planned[i] == done[i]);
                } else {
                    assert(planned[i] == done[i]);
                    assert(planned[j] == done[j]);
                }
            }
        }
    }
}

/// The same safety for requested paths: one target per request, safe requested and
/// normalized paths, distinct targets, and no existing target in `Fail` mode.
pub proof fn law_plan_requests_targets_safe_and_distinct(
    root: Seq<u8>,
    requests: Seq<Seq<u8>>,
    preserve_paths: bool,
    overwrite: OverwriteMode,
    existing: Seq<bool>,
)
    ensures
        spec_plan_requests(root, requests, preserve_paths, overwrite, existing) matches Ok(planned) ==> {
            &&& planned.len() == requests.len()
            &&& forall|i: int| 0 <= i < planned.len() ==> {
                &&& is_safe_archive_path(#[trigger] requests[i])
                &&& is_safe_archive_path(spec_normalize(requests[i]))
                &&& spec_request_target(root, requests[i], preserve_paths) == Ok::<(Seq<u8>, Seq<u8>), PlanFailure>(planned[i])
                &&& (overwrite == OverwriteMode::Fail ==> !existing[i])
            }
            &&& forall|i: int, j: int| 0 <= i < j < planned.len() ==> (#[trigger] planned[i]).1 != (#[trigger] planned[j]).1
        },
    decreases requests.len(),
{
    if requests.len() > 0 {
        let init = requests.drop_last();
        law_plan_requests_targets_safe_and_distinct(root, init, preserve_paths, overwrite, existing);
        if let Ok(planned) = spec_plan_requests(root, requests, preserve_paths, overwrite, existing) {
            let done = spec_plan_requests(root, init, preserve_paths, overwrite, existing)->Ok_0;
            assert(planned == done.push(planned.last()));
            assert forall|i: int| 0 <= i < planned.len() implies {
                &&& is_safe_archive_path(#[trigger] requests[i])
                &&& is_safe_archive_path(spec_normalize(requests[i]))
                &&& spec_request_target(root, requests[i], preserve_paths) == Ok::<(Seq<u8>, Seq<u8>), PlanFailure>(planned[i])
                &&& (overwrite == OverwriteMode::Fail ==> !existing[i])
            } by {
                if i < planned.len() - 1 {
                    assert(requests[i] == init[i]);
                    assert(planned[i] == done[i]);
                }
            }
            assert forall|i: int, j: int| 0 <= i < j < planned.len() implies (#[trigger] planned[i]).1 != (#[trigger] planned[j]).1 by {
                if j == planned.len() - 1 {
                    assert(planned[i] == done[i]);
                } else {
                    assert(planned[i] == done[i]);
                    assert(planned[j] == done[j]);
                }
            }
        }
    }
}

/// Target of one requested path.
fn request_target(root: &Vec<u8>, request: &Vec<u8>, preserve_paths: bool) -> (r: Result<PlannedExtractTarget>)
    ensures
        match spec_request_target(root@, request@, preserve_paths) {
            Ok(pt) => r matches Ok(t) && t@ == pt,
            Err(f) => r matches Err(e) && plan_error_matches(e, f),
        },
{
    let archive_path = normalize_safe_archive_path_bytes(request.as_slice())?;
    let path = if preserve_paths {
        safe_target_path_normalized(root.as_slice(), archive_path.as_slice())?
    } else {
        flat_target_path_normalized(root.as_slice(), archive_path.as_slice())?
    };
    Ok(PlannedExtractTarget { archive_path, path })
}

/// Once planning a prefix of the requests fails, planning every longer prefix fails the same way.
pub proof fn lemma_plan_requests_stops(root: Seq<u8>, all: Seq<Seq<u8>>, preserve_paths: bool, overwrite: OverwriteMode, existing: Seq<bool>, k: int)
    requires
        0 < k <= all.len(),
        spec_plan_requests(root, all.take(k), preserve_paths, overwrite, existing) is Err,
    ensures
        spec_plan_requests(root, all, preserve_paths, overwrite, existing) == spec_plan_requests(root, all.take(k), preserve_paths, overwrite, existing),
    decreases all.len() - k,
{
    if k < all.len() {
        assert(all.take(k + 1).drop_last() =~= all.take(k));
        lemma_plan_requests_stops(root, all, preserve_paths, overwrite, existing, k + 1);
    } else {
        assert(all.take(k) =~= all);
    }
}

/// Plan the targets of requested entry paths under `root`.
pub fn planned_extract_targets_from_paths(
    root: &Vec<u8>,
    entries: &Vec<Vec<u8>>,
    preserve_paths: bool,
    overwrite: OverwriteMode,
    existing: &Vec<bool>,
) -> (r: Result<Vec<PlannedExtractTarget>>)
    requires
        existing@.len() == entries@.len(),
    ensures
        match spec_plan_requests(root@, entries.deep_view(), preserve_paths, overwrite, existing@) {
            Ok(planned) => r matches Ok(t) && t@.map_values(|p: PlannedExtractTarget| p@) == planned,
            Err(f) => r matches Err(e) && plan_error_matches(e, f),
        },
{
    let ghost all = entries.deep_view();
    let mut targets: Vec<PlannedExtractTarget> = Vec::new();
    let mut taken: ByteMap<()> = ByteMap::new();
    let mut i: usize = 0;
    assert(all.take(0) =~= Seq::<Seq<u8>>::empty());
    assert(targets@.map_values(|p: PlannedExtractTarget| p@) =~= Seq::<(Seq<u8>, Seq<u8>)>::empty());
    while i < entries.len()
        invariant
            all == entries.deep_view(),
            existing@.len() == entries@.len(),
            i <= entries@.len(),
            spec_plan_requests(root@, all.take(i as int), preserve_paths, overwrite, existing@) == Ok::<Seq<(Seq<u8>, Seq<u8>)>, PlanFailure>(
                targets@.map_values(|p: PlannedExtractTarget| p@)),
            taken_matches(taken@, targets@.map_values(|p: PlannedExtractTarget| p@)),
        decreases entries@.len() - i,
    {
        let ghost done = targets@.map_values(|p: PlannedExtractTarget| p@);
        assert(all.take(i as int + 1).drop_last() =~= all.take(i as int));
        proof {
            crate::loaded::lemma_bytes_deep_view(entries@[i as int]);
        }
        assert(all.take(i as int + 1).last() == entries@[i as int]@);
        let target = match request_target(root, &entries[i], preserve_paths) {
            Ok(t) => t,
            Err(e) => {
                proof {
                    lemma_plan_requests_stops(root@, all, preserve_paths, overwrite, existing@, i as int + 1);
                }
                return Err(e);
            },
        };
        if taken.contains_key(target.path.as_slice()) {
            proof {
                assert(to_map(taken@).contains_key(target.path@));
                lemma_plan_requests_stops(root@, all, preserve_paths, overwrite, existing@, i as int + 1);
            }
            return Err(duplicate_target_error(&target.path));
        }
        if overwrite == OverwriteMode::Fail && existing[i] {
            proof {
                lemma_plan_requests_stops(root@, all, preserve_paths, overwrite, existing@, i as int + 1);
            }
            return Err(ArchiveError::TargetExists(archive_path_bytes_to_display(target.path.as_slice())));
        }
        let ghost pt = target@;
        proof {
            lemma_taken_push(taken@, done, pt.0, pt.1);
        }
        taken.insert(copy_bytes(&target.path), ());
        targets.push(target);
        assert(targets@.map_values(|p: PlannedExtractTarget| p@) =~= done.push(pt));
        i = i + 1;
    }
    assert(all.take(entries@.len() as int) =~= all);
    Ok(targets)
}

/// Report entries for planned targets; `existing[i]` says whether target `i` exists.
pub fn plan_entries_from_targets(
    targets: &Vec<PlannedExtractTarget>,
    overwrite: OverwriteMode,
    existing: &Vec<bool>,
) -> (entries: Vec<ExtractPlanEntry>)
    requires
        existing@.len() == targets@.len(),
    ensures
        entries@.len() == targets@.len(),
        forall|i: int| 0 <= i < targets@.len() ==> #[trigger] entries@[i]@ == spec_plan_entry(targets@[i]@, overwrite, existing@[i]),
{
    let mut entries: Vec<ExtractPlanEntry> = Vec::new();
    let mut i: usize = 0;
    while i < targets.len()
        invariant
            existing@.len() == targets@.len(),
            i <= targets@.len(),
            entries@.len() == i,
            forall|j: int| 0 <= j < i ==> #[trigger] entries@[j]@ == spec_plan_entry(targets@[j]@, overwrite, existing@[j]),
        decreases targets@.len() - i,
    {
        let target = &targets[i];
        let exists = existing[i];
        let action = if overwrite == OverwriteMode::Skip && exists {
            ExtractPlanAction::Skip
        } else if overwrite == OverwriteMode::Overwrite && exists {
            ExtractPlanAction::Overwrite
        } else {
            ExtractPlanAction::Extract
        };
        entries.push(ExtractPlanEntry {
            action,
            path: archive_path_bytes_to_display(target.archive_path.as_slice()),
            path_bytes_hex: archive_path_bytes_to_hex(target.archive_path.as_slice()),
            target: archive_path_bytes_to_display(target.path.as_slice()),
        });
        i = i + 1;
    }
    entries
}

pub struct ExtractAllPlanView {
    pub operation: ExtractPlanOperation,
    pub archive: Seq<char>,
    pub output: Seq<char>,
    pub entries: Seq<ExtractPlanEntryView>,
}

impl View for ExtractAllPlan {
    type V = ExtractAllPlanView;

    open spec fn view(&self) -> ExtractAllPlanView {
        ExtractAllPlanView {
            operation: self.operation,
            archive: self.archive@,
            output: self.output@,
            entries: self.entries@.map_values(|e: ExtractPlanEntry| e@),
        }
    }
}

/// The dry-run report of planned targets.
pub open spec fn spec_extract_plan(
    operation: ExtractPlanOperation,
    label: Seq<char>,
    root: Seq<u8>,
    planned: Seq<(Seq<u8>, Seq<u8>)>,
    overwrite: OverwriteMode,
    existing: Seq<bool>,
) -> ExtractAllPlanView {
    ExtractAllPlanView {
        operation,
        archive: label,
        output: spec_lossy_display(root),
        entries: Seq::new(planned.len(), |i: int| spec_plan_entry(planned[i], overwrite, existing[i])),
    }
}

/// The error for archives whose entries cannot all be extracted by path.
pub open spec fn lossy_extraction_text() -> Seq<char> {
    "archive contains entries without recoverable paths; refusing to extract it lossy"@
}

fn copy_label(label: &str) -> (copy: String)
    ensures
        copy@ == label@,
{
    String::from_str(label)
}

/// Plan extraction of selected entry paths without writing files.
pub fn plan_extract_entries_by_path_from_loaded_archive(
    label: &str,
    entries: &Vec<Vec<u8>>,
    options: &ExtractOptions,
    existing: &Vec<bool>,
) -> (r: Result<ExtractAllPlan>)
    requires
        existing@.len() == entries@.len(),
    ensures
        match spec_plan_requests(spec_root(options.output), entries.deep_view(), options.preserve_paths, options.overwrite, existing@) {
            Ok(planned) => r matches Ok(plan) && plan@ == spec_extract_plan(ExtractPlanOperation::Extract, label@, spec_root(options.output), planned, options.overwrite, existing@),
            Err(f) => r matches Err(e) && plan_error_matches(e, f),
        },
{
    let root = extract_root(&options.output);
    let targets = planned_extract_targets_from_paths(&root, entries, options.preserve_paths, options.overwrite, existing)?;
    proof {
        law_plan_requests_targets_safe_and_distinct(root@, entries.deep_view(), options.preserve_paths, options.overwrite, existing@);
    }
    let ghost planned = targets@.map_values(|p: PlannedExtractTarget| p@);
    let plan_entries = plan_entries_from_targets(&targets, options.overwrite, existing);
    let plan = ExtractAllPlan {
        operation: ExtractPlanOperation::Extract,
        archive: copy_label(label),
        output: archive_path_bytes_to_display(root.as_slice()),
        entries: plan_entries,
    };
    assert(plan@.entries =~= spec_extract_plan(ExtractPlanOperation::Extract, label@, root@, planned, options.overwrite, existing@).entries);
    Ok(plan)
}

/// Plan extraction of selected entry paths without writing files.
pub fn plan_extract_entries_by_path(
    label: &str,
    entries: &Vec<Vec<u8>>,
    options: &ExtractOptions,
    existing: &Vec<bool>,
) -> (r: Result<ExtractAllPlan>)
    requires
        existing@.len() == entries@.len(),
    ensures
        match spec_plan_requests(spec_root(options.output), entries.deep_view(), options.preserve_paths, options.overwrite, existing@) {
            Ok(planned) => r matches Ok(plan) && plan@ == spec_extract_plan(ExtractPlanOperation::Extract, label@, spec_root(options.output), planned, options.overwrite, existing@),
            Err(f) => r matches Err(e) && plan_error_matches(e, f),
        },
{
    plan_extract_entries_by_path_from_loaded_archive(label, entries, options, existing)
}

/// Targets for extracting every entry of `archive`; refuses archives with entries
/// that have no recoverable path.
pub fn extract_all_targets_from_loaded_archive(
    archive: &LoadedArchive,
    options: &ExtractAllOptions,
    existing: &Vec<bool>,
) -> (r: Result<Vec<PlannedExtractTarget>>)
    requires
        existing@.len() == archive@.entries.len(),
    ensures
        archive@.entries.len() != archive@.file_count ==> (r matches Err(ArchiveError::Archive(m)) && m@ == lossy_extraction_text()),
        archive@.entries.len() == archive@.file_count ==> match spec_plan_all(spec_root(options.output), archive@.entries, options.overwrite, existing@) {
            Ok(planned) => r matches Ok(t) && t@.map_values(|p: PlannedExtractTarget| p@) == planned,
            Err(f) => r matches Err(e) && plan_error_matches(e, f),
        },
{
    let root = extract_root(&options.output);
    let entries = archive.list_loaded_entries();
    if entries.len() != archive.file_count() {
        return Err(ArchiveError::Archive(String::from_str("archive contains entries without recoverable paths; refusing to extract it lossy")));
    }
    planned_extract_targets(&root, entries, options.overwrite, existing)
}

/// Plan extraction of every entry without writing files.
pub fn plan_extract_all_from_loaded_archive(
    label: &str,
    archive: &LoadedArchive,
    options: &ExtractAllOptions,
    existing: &Vec<bool>,
) -> (r: Result<ExtractAllPlan>)
    requires
        existing@.len() == archive@.entries.len(),
    ensures
        archive@.entries.len() != archive@.file_count ==> (r matches Err(ArchiveError::Archive(m)) && m@ == lossy_extraction_text()),
        archive@.entries.len() == archive@.file_count ==> match spec_plan_all(spec_root(options.output), archive@.entries, options.overwrite, existing@) {
            Ok(planned) => r matches Ok(plan) && plan@ == spec_extract_plan(ExtractPlanOperation::ExtractAll, label@, spec_root(options.output), planned, options.overwrite, existing@),
            Err(f) => r matches Err(e) && plan_error_matches(e, f),
        },
{
    let root = extract_root(&options.output);
    let targets = extract_all_targets_from_loaded_archive(archive, options, existing)?;
    proof {
        law_plan_all_targets_safe_and_distinct(root@, archive@.entries, options.overwrite, existing@);
    }
    let ghost planned = targets@.map_values(|p: PlannedExtractTarget| p@);
    let plan_entries = plan_entries_from_targets(&targets, options.overwrite, existing);
    let plan = ExtractAllPlan {
        operation: ExtractPlanOperation::ExtractAll,
        archive: copy_label(label),
        output: archive_path_bytes_to_display(root.as_slice()),
        entries: plan_entries,
    };
    assert(plan@.entries =~= spec_extract_plan(ExtractPlanOperation::ExtractAll, label@, root@, planned, options.overwrite, existing@).entries);
    Ok(plan)
}

/// The plan reported for an archive index, or the error that stops planning.
pub open spec fn extract_all_plan_ok(label: Seq<char>, index: crate::loaded::IndexView, options: &ExtractAllOptions, existing: Seq<bool>, r: Result<ExtractAllPlan>) -> bool {
    if index.entries.len() != index.file_count {
        r matches Err(ArchiveError::Archive(m)) && m@ == lossy_extraction_text()
    } else {
        match spec_plan_all(spec_root(options.output), index.entries, options.overwrite, existing) {
            Ok(planned) => r matches Ok(plan) && plan@ == spec_extract_plan(ExtractPlanOperation::ExtractAll, label, spec_root(options.output), planned, options.overwrite, existing),
            Err(f) => r matches Err(e) && plan_error_matches(e, f),
        }
    }
}

/// Plan extraction of every entry of the archive whose bytes were read from `label`.
pub fn plan_extract_all(
    label: &str,
    bytes: Vec<u8>,
    options: &ExtractAllOptions,
    existing: &Vec<bool>,
) -> (r: Result<ExtractAllPlan>)
    ensures
        spec_open_index(bytes@) is None ==> r is Err,
        spec_open_index(bytes@) matches Some(o) && existing@.len() != o.index.entries.len() ==> r is Err,
        spec_open_index(bytes@) matches Some(o) ==> (existing@.len() == o.index.entries.len() ==> extract_all_plan_ok(label@, o.index, options, existing@, r)),
{
    let archive = LoadedArchive::open(label, bytes)?;
    if existing.len() != archive.named_entry_count() {
        return Err(ArchiveError::Archive(String::from_str("target existence list does not match the archive entries")));
    }
    plan_extract_all_from_loaded_archive(label, &archive, options, existing)
}

/// What to do with one target before its payload is written.
#[derive(Debug, Clone, Copy, PartialEq, Eq, Structural)]
pub enum TargetWrite {
    /// Write the payload to a temporary file and move it into place.
    Write,
    /// Leave the existing target alone and count it as skipped.
    Skip,
}

/// Decide about one target from whether it already exists.
pub fn write_decision(target: &[u8], exists: bool, overwrite: OverwriteMode) -> (r: Result<TargetWrite>)
    ensures
        !exists ==> r == Ok::<TargetWrite, ArchiveError>(TargetWrite::Write),
        exists && overwrite == OverwriteMode::Overwrite ==> r == Ok::<TargetWrite, ArchiveError>(TargetWrite::Write),
        exists && overwrite == OverwriteMode::Skip ==> r == Ok::<TargetWrite, ArchiveError>(TargetWrite::Skip),
        exists && overwrite == OverwriteMode::Fail ==> (r matches Err(ArchiveError::TargetExists(m)) && m@ == spec_lossy_display(target@)),
{
    if exists {
        match overwrite {
            OverwriteMode::Fail => Err(ArchiveError::TargetExists(archive_path_bytes_to_display(target))),
            OverwriteMode::Skip => Ok(TargetWrite::Skip),
            OverwriteMode::Overwrite => Ok(TargetWrite::Write),
        }
    } else {
        Ok(TargetWrite::Write)
    }
}

/// Count for one target after the written temporary file was moved into place;
/// `refused_existing` says the no-clobber move found the target already there.
pub fn persist_outcome(target: &[u8], overwrite: OverwriteMode, refused_existing: bool) -> (r: Result<ExtractSummary>)
    ensures
        overwrite == OverwriteMode::Overwrite || !refused_existing ==> (r matches Ok(s) && s.extracted == 1 && s.skipped == 0),
        overwrite == OverwriteMode::Skip && refused_existing ==> (r matches Ok(s) && s.extracted == 0 && s.skipped == 1),
        overwrite == OverwriteMode::Fail && refused_existing ==> (r matches Err(ArchiveError::TargetExists(m)) && m@ == spec_lossy_display(target@)),
{
    if refused_existing {
        match overwrite {
            OverwriteMode::Overwrite => Ok(ExtractSummary::new(1, 0)),
            OverwriteMode::Fail => Err(ArchiveError::TargetExists(archive_path_bytes_to_display(target))),
            OverwriteMode::Skip => Ok(ExtractSummary::new(0, 1)),
        }
    } else {
        Ok(ExtractSummary::new(1, 0))
    }
}

/// Read the payload of the entry `read_entry` names, in the archive at `label`.
pub fn read_entry_bytes(label: &str, bytes: Vec<u8>, entry: &str) -> (r: Result<Vec<u8>>)
    ensures
        spec_open_index(bytes@) is None ==> r is Err,
        spec_open_index(bytes@) matches Some(o) ==> crate::loaded::text_read_outcome_ok(o.archive, entry@, r),
{
    let archive = LoadedArchive::open(label, bytes)?;
    archive.read_entry_bytes(entry)
}

/// Read the payload of an entry selected by path bytes, normalized before lookup.
pub fn read_entry_bytes_by_path(label: &str, bytes: Vec<u8>, entry: &[u8]) -> (r: Result<Vec<u8>>)
    ensures
        spec_open_index(bytes@) is None ==> r is Err,
        spec_open_index(bytes@) matches Some(o) ==> crate::loaded::read_outcome_ok(o.archive, spec_normalize(entry@), r),
{
    let archive = LoadedArchive::open(label, bytes)?;
    archive.read_entry_bytes_by_path(entry)
}

// ---------------------------------------------------------------------------
// Extraction jobs: what the caller writes
// ---------------------------------------------------------------------------

/// One file an extraction writes: the host target and the payload for it.
#[derive(Debug, Clone)]
pub struct ExtractWrite {
    pub target: Vec<u8>,
    pub payload: Vec<u8>,
}

/// The files an extraction writes, in order, and how many existing targets it
/// leaves alone up front. The caller writes each file and reports back with
/// [`persist_outcome`].
#[derive(Debug, Clone)]
pub struct ExtractJob {
    pub writes: Vec<ExtractWrite>,
    pub skipped: usize,
}

pub struct ExtractJobView {
    pub writes: Seq<(Seq<u8>, Seq<u8>)>,
    pub skipped: nat,
}

impl View for ExtractJob {
    type V = ExtractJobView;

    open spec fn view(&self) -> ExtractJobView {
        ExtractJobView {
            writes: self.writes@.map_values(|w: ExtractWrite| (w.target@, w.payload@)),
            skipped: self.skipped as nat,
        }
    }
}

/// The payload at a lookup path, when it can be read.
pub open spec fn spec_payload(archive: dream_archive::Archive, path: Seq<u8>) -> Seq<u8> {
    match spec_read_file(archive, path) {
        Some(Some(p)) => p,
        _ => seq![],
    }
}

pub open spec fn write_skipped(overwrite: OverwriteMode, exists: bool) -> bool {
    exists && overwrite == OverwriteMode::Skip
}

pub open spec fn write_refused(overwrite: OverwriteMode, exists: bool) -> bool {
    exists && overwrite == OverwriteMode::Fail
}

/// One planned target can be handled: skipped, or its payload read.
pub open spec fn step_ok(archive: dream_archive::Archive, t: (Seq<u8>, Seq<u8>), overwrite: OverwriteMode, exists: bool) -> bool {
    !write_refused(overwrite, exists) && (write_skipped(overwrite, exists) || entry_readable_at(archive, t.0))
}

pub open spec fn entry_readable_at(archive: dream_archive::Archive, path: Seq<u8>) -> bool {
    spec_read_file(archive, path) matches Some(Some(_))
}

/// The error for a target that cannot be handled.
pub open spec fn step_error(archive: dream_archive::Archive, t: (Seq<u8>, Seq<u8>), overwrite: OverwriteMode, exists: bool, e: ArchiveError) -> bool {
    if write_refused(overwrite, exists) {
        e matches ArchiveError::TargetExists(m) && m@ == spec_lossy_display(t.1)
    } else {
        read_failure(archive, t.0, e)
    }
}

pub open spec fn job_ok(archive: dream_archive::Archive, planned: Seq<(Seq<u8>, Seq<u8>)>, overwrite: OverwriteMode, existing: Seq<bool>) -> bool {
    forall|i: int| 0 <= i < planned.len() ==> step_ok(archive, #[trigger] planned[i], overwrite, existing[i])
}

/// `e` is the error of the first target that cannot be handled.
pub open spec fn first_job_error(archive: dream_archive::Archive, planned: Seq<(Seq<u8>, Seq<u8>)>, overwrite: OverwriteMode, existing: Seq<bool>, e: ArchiveError) -> bool {
    exists|i: int|
        0 <= i < planned.len() && !step_ok(archive, planned[i], overwrite, existing[i])
            && (forall|j: int| 0 <= j < i ==> step_ok(archive, #[trigger] planned[j], overwrite, existing[j]))
            && step_error(archive, planned[i], overwrite, existing[i], e)
}

/// The files written for planned targets: every target not skipped, with the
/// payload of its archive path.
pub open spec fn spec_job_writes(archive: dream_archive::Archive, planned: Seq<(Seq<u8>, Seq<u8>)>, overwrite: OverwriteMode, existing: Seq<bool>) -> Seq<(Seq<u8>, Seq<u8>)>
    decreases planned.len(),
{
    if planned.len() == 0 {
        seq![]
    } else {
        let n = planned.len() - 1;
        let init = spec_job_writes(archive, planned.drop_last(), overwrite, existing);
        if write_skipped(overwrite, existing[n]) {
            init
        } else {
            init.push((planned.last().1, spec_payload(archive, planned.last().0)))
        }
    }
}

/// How many planned targets are skipped because they exist.
pub open spec fn spec_job_skipped(planned: Seq<(Seq<u8>, Seq<u8>)>, overwrite: OverwriteMode, existing: Seq<bool>) -> nat
    decreases planned.len(),
{
    if planned.len() == 0 {
        0
    } else {
        spec_job_skipped(planned.drop_last(), overwrite, existing) + if write_skipped(overwrite, existing[planned.len() - 1]) { 1nat } else { 0nat }
    }
}

/// What an extraction job for planned targets is.
pub open spec fn job_outcome(archive: dream_archive::Archive, planned: Seq<(Seq<u8>, Seq<u8>)>, overwrite: OverwriteMode, existing: Seq<bool>, r: Result<ExtractJob>) -> bool {
    &&& r is Ok <==> job_ok(archive, planned, overwrite, existing)
    &&& r matches Ok(job) ==> job@.writes == spec_job_writes(archive, planned, overwrite, existing)
        && job@.skipped == spec_job_skipped(planned, overwrite, existing)
    &&& r matches Err(e) ==> first_job_error(archive, planned, overwrite, existing, e)
}

/// Every planned target is accounted for once: written or skipped.
pub proof fn law_job_accounts_for_every_target(
    archive: dream_archive::Archive,
    planned: Seq<(Seq<u8>, Seq<u8>)>,
    overwrite: OverwriteMode,
    existing: Seq<bool>,
)
    ensures
        spec_job_writes(archive, planned, overwrite, existing).len() + spec_job_skipped(planned, overwrite, existing) == planned.len(),
    decreases planned.len(),
{
    if planned.len() > 0 {
        law_job_accounts_for_every_target(archive, planned.drop_last(), overwrite, existing);
    }
}

/// Read the payload of every target that will be written, in order.
fn job_for_targets(archive: &LoadedArchive, targets: &Vec<PlannedExtractTarget>, overwrite: OverwriteMode, existing: &Vec<bool>) -> (r: Result<ExtractJob>)
    requires
        existing@.len() == targets@.len(),
    ensures
        job_outcome(archive.source(), targets@.map_values(|p: PlannedExtractTarget| p@), overwrite, existing@, r),
{
    let ghost planned = targets@.map_values(|p: PlannedExtractTarget| p@);
    let ghost source = archive.source();
    let mut writes: Vec<ExtractWrite> = Vec::new();
    let mut skipped: usize = 0;
    let mut i: usize = 0;
    assert(planned.take(0) =~= Seq::<(Seq<u8>, Seq<u8>)>::empty());
    while i < targets.len()
        invariant
            planned == targets@.map_values(|p: PlannedExtractTarget| p@),
            source == archive.source(),
            existing@.len() == targets@.len(),
            i <= targets@.len(),
            skipped <= i,
            forall|j: int| 0 <= j < i ==> step_ok(source, #[trigger] planned[j], overwrite, existing@[j]),
            writes@.map_values(|w: ExtractWrite| (w.target@, w.payload@)) == spec_job_writes(source, planned.take(i as int), overwrite, existing@),
            skipped == spec_job_skipped(planned.take(i as int), overwrite, existing@),
        decreases targets@.len() - i,
    {
        let target = &targets[i];
        assert(planned[i as int] == target@);
        assert(planned.take(i as int + 1).drop_last() =~= planned.take(i as int));
        assert(planned.take(i as int + 1).last() == target@);
        let decision = match write_decision(target.path.as_slice(), existing[i], overwrite) {
            Ok(d) => d,
            Err(e) => {
                assert(first_job_error(source, planned, overwrite, existing@, e)) by {
                    assert(!step_ok(source, planned[i as int], overwrite, existing@[i as int]));
                }
                return Err(e);
            },
        };
        match decision {
            TargetWrite::Skip => {
                skipped = skipped + 1;
            },
            TargetWrite::Write => {
                let payload = match archive.read_entry_bytes_by_normalized_path(target.archive_path.as_slice()) {
                    Ok(p) => p,
                    Err(e) => {
                        assert(first_job_error(source, planned, overwrite, existing@, e)) by {
                            assert(!step_ok(source, planned[i as int], overwrite, existing@[i as int]));
                            assert(step_error(source, planned[i as int], overwrite, existing@[i as int], e));
                        }
                        return Err(e);
                    },
                };
                let ghost before = writes@.map_values(|w: ExtractWrite| (w.target@, w.payload@));
                writes.push(ExtractWrite { target: copy_bytes(&target.path), payload });
                assert(writes@.map_values(|w: ExtractWrite| (w.target@, w.payload@)) =~= before.push((target.path@, payload@)));
            },
        }
        i = i + 1;
    }
    assert(planned.take(targets@.len() as int) =~= planned);
    Ok(ExtractJob { writes, skipped })
}

/// What extracting requested entry paths is: the planning refusal, or the job.
pub open spec fn requests_job_outcome(archive: dream_archive::Archive, requests: Seq<Seq<u8>>, options: &ExtractOptions, existing: Seq<bool>, r: Result<ExtractJob>) -> bool {
    match spec_plan_requests(spec_root(options.output), requests, options.preserve_paths, options.overwrite, existing) {
        Ok(planned) => job_outcome(archive, planned, options.overwrite, existing, r),
        Err(f) => r matches Err(e) && plan_error_matches(e, f),
    }
}

/// Extract requested entry paths of an opened archive: plan every target first,
/// then read the payload of each target that will be written.
pub fn extract_entries_by_path_from_loaded_archive(
    archive: &LoadedArchive,
    entries: &Vec<Vec<u8>>,
    options: &ExtractOptions,
    existing: &Vec<bool>,
) -> (r: Result<ExtractJob>)
    requires
        existing@.len() == entries@.len(),
    ensures
        requests_job_outcome(archive.source(), entries.deep_view(), options, existing@, r),
{
    let root = extract_root(&options.output);
    let targets = planned_extract_targets_from_paths(&root, entries, options.preserve_paths, options.overwrite, existing)?;
    proof {
        law_plan_requests_targets_safe_and_distinct(root@, entries.deep_view(), options.preserve_paths, options.overwrite, existing@);
    }
    assert(targets@.map_values(|p: PlannedExtractTarget| p@).len() == targets@.len());
    job_for_targets(archive, &targets, options.overwrite, existing)
}

pub open spec fn existence_count_text() -> Seq<char> {
    "target existence list does not match the requested entries"@
}

/// Extract requested entry paths of the archive whose file bytes are `bytes`;
/// `existing[i]` says whether the target of request `i` exists.
pub fn extract_entries_by_path(
    path: &str,
    bytes: Vec<u8>,
    entries: &Vec<Vec<u8>>,
    options: &ExtractOptions,
    existing: &Vec<bool>,
) -> (r: Result<ExtractJob>)
    ensures
        spec_open_index(bytes@) is None ==> r is Err,
        spec_open_index(bytes@) is Some && existing@.len() != entries@.len() ==> (r matches Err(ArchiveError::Archive(m)) && m@ == existence_count_text()),
        spec_open_index(bytes@) matches Some(o) ==> (existing@.len() == entries@.len() ==> requests_job_outcome(o.archive, entries.deep_view(), options, existing@, r)),
{
    let archive = LoadedArchive::open(path, bytes)?;
    if existing.len() != entries.len() {
        proof {
            reveal_strlit("target existence list does not match the requested entries");
        }
        return Err(ArchiveError::Archive(String::from_str("target existence list does not match the requested entries")));
    }
    extract_entries_by_path_from_loaded_archive(&archive, entries, options, existing)
}

fn one_request(entry: &[u8]) -> (requests: Vec<Vec<u8>>)
    ensures
        requests.deep_view() == seq![entry@],
{
    let mut request: Vec<u8> = Vec::new();
    let mut i: usize = 0;
    while i < entry.len()
        invariant
            i <= entry@.len(),
            request@ == entry@.take(i as int),
        decreases entry@.len() - i,
    {
        request.push(entry[i]);
        assert(entry@.take(i as int + 1) =~= entry@.take(i as int).push(entry@[i as int]));
        i = i + 1;
    }
    assert(entry@.take(entry@.len() as int) =~= entry@);
    let mut requests: Vec<Vec<u8>> = Vec::new();
    requests.push(request);
    proof {
        crate::loaded::lemma_bytes_deep_view(requests@[0]);
    }
    assert(requests.deep_view() =~= seq![entry@]);
    requests
}

/// Extract one entry of an opened archive, selected by path bytes normalized
/// before lookup; `exists` says whether its target exists.
pub fn extract_entry_by_path_from_loaded_archive(
    archive: &LoadedArchive,
    entry: &[u8],
    options: &ExtractOptions,
    exists: bool,
) -> (r: Result<ExtractJob>)
    ensures
        requests_job_outcome(archive.source(), seq![entry@], options, seq![exists], r),
{
    let requests = one_request(entry);
    assert(requests.deep_view().len() == requests@.len());
    let mut existing: Vec<bool> = Vec::new();
    existing.push(exists);
    assert(existing@ =~= seq![exists]);
    extract_entries_by_path_from_loaded_archive(archive, &requests, options, &existing)
}

/// Extract one entry selected by path bytes from the archive whose file bytes are `bytes`.
pub fn extract_entry_by_path(path: &str, bytes: Vec<u8>, entry: &[u8], options: &ExtractOptions, exists: bool) -> (r: Result<ExtractJob>)
    ensures
        spec_open_index(bytes@) is None ==> r is Err,
        spec_open_index(bytes@) matches Some(o) ==> requests_job_outcome(o.archive, seq![entry@], options, seq![exists], r),
{
    let archive = LoadedArchive::open(path, bytes)?;
    extract_entry_by_path_from_loaded_archive(&archive, entry, options, exists)
}

/// Extract one entry named by text: its UTF-8 bytes select it, as path bytes do.
pub fn extract_entry(path: &str, bytes: Vec<u8>, entry: &str, options: &ExtractOptions, exists: bool) -> (r: Result<ExtractJob>)
    ensures
        spec_open_index(bytes@) is None ==> r is Err,
        spec_open_index(bytes@) matches Some(o) ==> requests_job_outcome(o.archive, seq![entry.spec_bytes()], options, seq![exists], r),
{
    extract_entry_by_path(path, bytes, entry.as_bytes(), options, exists)
}

/// What extracting every entry is: the refusal of a lossy archive, the planning
/// refusal, or the job.
pub open spec fn all_job_outcome(archive: dream_archive::Archive, index: crate::loaded::IndexView, options: &ExtractAllOptions, existing: Seq<bool>, r: Result<ExtractJob>) -> bool {
    if index.entries.len() != index.file_count {
        r matches Err(ArchiveError::Archive(m)) && m@ == lossy_extraction_text()
    } else {
        match spec_plan_all(spec_root(options.output), index.entries, options.overwrite, existing) {
            Ok(planned) => job_outcome(archive, planned, options.overwrite, existing, r),
            Err(f) => r matches Err(e) && plan_error_matches(e, f),
        }
    }
}

/// Extract every entry of the archive whose file bytes are `bytes`; `existing[i]`
/// says whether the target of named entry `i` exists. In skip mode the payloads
/// of existing targets are not read.
pub fn extract_all(path: &str, bytes: Vec<u8>, options: &ExtractAllOptions, existing: &Vec<bool>) -> (r: Result<ExtractJob>)
    ensures
        spec_open_index(bytes@) is None ==> r is Err,
        spec_open_index(bytes@) matches Some(o) && existing@.len() != o.index.entries.len() ==> r is Err,
        spec_open_index(bytes@) matches Some(o) ==> (existing@.len() == o.index.entries.len() ==> all_job_outcome(o.archive, o.index, options, existing@, r)),
{
    let archive = LoadedArchive::open(path, bytes)?;
    if existing.len() != archive.named_entry_count() {
        return Err(ArchiveError::Archive(String::from_str("target existence list does not match the archive entries")));
    }
    extract_all_from_loaded_archive(&archive, options, existing)
}

/// Extract every entry of an opened archive: plan every target first, then read
/// the payload of each target that will be written.
pub fn extract_all_from_loaded_archive(archive: &LoadedArchive, options: &ExtractAllOptions, existing: &Vec<bool>) -> (r: Result<ExtractJob>)
    requires
        existing@.len() == archive@.entries.len(),
    ensures
        all_job_outcome(archive.source(), archive@, options, existing@, r),
{
    let targets = extract_all_targets_from_loaded_archive(archive, options, existing)?;
    proof {
        law_plan_all_targets_safe_and_distinct(spec_root(options.output), archive@.entries, options.overwrite, existing@);
    }
    job_for_targets(archive, &targets, options.overwrite, existing)
}

/// Append the payload of an entry named by text, in the archive whose file bytes
/// are `bytes`, to `out`.
pub fn extract_entry_to_writer(path: &str, bytes: Vec<u8>, entry: &str, out: &mut Vec<u8>) -> (r: Result<u64>)
    ensures
        spec_open_index(bytes@) is None ==> r is Err,
        spec_open_index(bytes@) matches Some(o) ==> (spec_read_file(o.archive, spec_text_lookup_key(entry@)) matches Some(Some(p))
            ==> (r matches Ok(n) && n == p.len() && final(out)@ == old(out)@ + p)),
        spec_open_index(bytes@) matches Some(o) ==> (spec_read_file(o.archive, spec_text_lookup_key(entry@)) == Some(None::<Seq<u8>>)
            ==> (r matches Err(ArchiveError::EntryNotFound(m)) && m@ == spec_text_display(entry@))),
        spec_open_index(bytes@) matches Some(o) ==> (spec_read_file(o.archive, spec_text_lookup_key(entry@)) is None
            ==> r matches Err(ArchiveError::Archive(_))),
        r is Err ==> final(out)@ == old(out)@,
{
    let archive = LoadedArchive::open(path, bytes)?;
    archive.extract_entry_to_writer(entry, out)
}

/// Append the payload of an entry selected by path bytes to `out`.
pub fn extract_entry_path_to_writer(path: &str, bytes: Vec<u8>, entry: &[u8], out: &mut Vec<u8>) -> (r: Result<u64>)
    ensures
        spec_open_index(bytes@) is None ==> r is Err,
        spec_open_index(bytes@) matches Some(o) ==> (spec_read_file(o.archive, spec_normalize(entry@)) matches Some(Some(p))
            ==> (r matches Ok(n) && n == p.len() && final(out)@ == old(out)@ + p)),
        spec_open_index(bytes@) matches Some(o) ==> (spec_read_file(o.archive, spec_normalize(entry@)) == Some(None::<Seq<u8>>)
            ==> (r matches Err(ArchiveError::EntryNotFound(m)) && m@ == spec_lossy_display(spec_normalize(entry@)))),
        spec_open_index(bytes@) matches Some(o) ==> (spec_read_file(o.archive, spec_normalize(entry@)) is None
            ==> r matches Err(ArchiveError::Archive(_))),
        r is Err ==> final(out)@ == old(out)@,
{
    let archive = LoadedArchive::open(path, bytes)?;
    archive.extract_entry_path_to_writer(entry, out)
}

/// How many of the leading directories do not exist yet.
pub open spec fn leading_missing(exists: Seq<bool>) -> nat
    decreases exists.len(),
{
    if exists.len() == 0 || exists[0] {
        0
    } else {
        1 + leading_missing(exists.drop_first())
    }
}

pub proof fn lemma_leading_missing(exists: Seq<bool>, i: int)
    requires
        0 <= i <= exists.len(),
        forall|j: int| 0 <= j < i ==> !exists[j],
    ensures
        i <= leading_missing(exists),
        leading_missing(exists) <= exists.len(),
        i < exists.len() && exists[i] ==> leading_missing(exists) == i,
    decreases exists.len(),
{
    if exists.len() > 0 && !exists[0] {
        if i > 0 {
            assert forall|j: int| 0 <= j < i - 1 implies !exists.drop_first()[j] by {
                assert(exists.drop_first()[j] == exists[j + 1]);
            }
            lemma_leading_missing(exists.drop_first(), i - 1);
        } else {
            lemma_leading_missing(exists.drop_first(), 0);
        }
    }
}

/// Directories to sync after creating the directory `ancestors[0]`: walking up
/// from it, the parent of every directory that does not exist yet, until one
/// exists or there is no parent. `ancestors[i + 1]` is the parent of
/// `ancestors[i]`, and `exists[i]` says whether `ancestors[i]` exists.
pub fn directory_sync_targets_for_create(ancestors: &Vec<Vec<u8>>, exists: &Vec<bool>) -> (targets: Vec<Vec<u8>>)
    requires
        exists@.len() == ancestors@.len(),
    ensures
        ancestors@.len() == 0 ==> targets@.len() == 0,
        ancestors@.len() > 0 ==> targets.deep_view() == ancestors.deep_view().subrange(
            1,
            1 + if leading_missing(exists@) < ancestors@.len() - 1 { leading_missing(exists@) as int } else { ancestors@.len() - 1 },
        ),
{
    let mut targets: Vec<Vec<u8>> = Vec::new();
    let mut i: usize = 0;
    while i < ancestors.len() && !exists[i] && i + 1 < ancestors.len()
        invariant
            exists@.len() == ancestors@.len(),
            i < ancestors@.len() || ancestors@.len() == 0,
            forall|j: int| 0 <= j < i ==> !exists@[j],
            targets.deep_view() == ancestors.deep_view().subrange(1, i + 1) || ancestors@.len() == 0,
            ancestors@.len() == 0 ==> targets@.len() == 0,
        decreases ancestors@.len() - i,
    {
        let ghost before = targets.deep_view();
        targets.push(copy_bytes(&ancestors[i + 1]));
        proof {
            crate::loaded::lemma_bytes_deep_view(ancestors@[i + 1]);
            crate::loaded::lemma_bytes_deep_view(targets@[targets@.len() - 1]);
        }
        assert(targets.deep_view() =~= before.push(ancestors.deep_view()[i + 1]));
        assert(ancestors.deep_view().subrange(1, i + 2) =~= ancestors.deep_view().subrange(1, i + 1).push(ancestors.deep_view()[i + 1]));
        i = i + 1;
    }
    proof {
        if ancestors@.len() > 0 {
            lemma_leading_missing(exists@, i as int);
        }
    }
    targets
}

/// How many plan entries carry `action`.
pub open spec fn action_count(entries: Seq<ExtractPlanEntryView>, action: ExtractPlanAction) -> nat
    decreases entries.len(),
{
    if entries.len() == 0 {
        0
    } else {
        action_count(entries.drop_last(), action) + if entries.last().action == action { 1nat } else { 0nat }
    }
}

proof fn lemma_plan_counts(planned: Seq<(Seq<u8>, Seq<u8>)>, overwrite: OverwriteMode, existing: Seq<bool>, archive: dream_archive::Archive)
    requires
        existing.len() >= planned.len(),
        forall|i: int| 0 <= i < planned.len() ==> !write_refused(overwrite, #[trigger] existing[i]),
    ensures
        ({
            let entries = Seq::new(planned.len(), |i: int| spec_plan_entry(planned[i], overwrite, existing[i]));
            &&& action_count(entries, ExtractPlanAction::Skip) == spec_job_skipped(planned, overwrite, existing)
            &&& action_count(entries, ExtractPlanAction::Extract) + action_count(entries, ExtractPlanAction::Overwrite)
                == spec_job_writes(archive, planned, overwrite, existing).len()
        }),
    decreases planned.len(),
{
    if planned.len() > 0 {
        let n = planned.len() - 1;
        let init = planned.drop_last();
        assert forall|i: int| 0 <= i < init.len() implies !write_refused(overwrite, #[trigger] existing[i]) by {
            assert(!write_refused(overwrite, existing[i]));
        }
        lemma_plan_counts(init, overwrite, existing, archive);
        let entries = Seq::new(planned.len(), |i: int| spec_plan_entry(planned[i], overwrite, existing[i]));
        let init_entries = Seq::new(init.len(), |i: int| spec_plan_entry(init[i], overwrite, existing[i]));
        assert(entries.drop_last() =~= init_entries);
        assert(entries.last() == spec_plan_entry(planned[n], overwrite, existing[n]));
        assert(!write_refused(overwrite, existing[n]));
    }
}

/// A dry run and the extraction that follows it agree, when nothing changed in
/// between (the same existence answers): the extraction skips exactly the
/// targets the plan marks `Skip` and writes exactly those it marks `Extract` or
/// `Overwrite`.
pub proof fn law_plan_matches_extraction(
    label: Seq<char>,
    archive: dream_archive::Archive,
    index: crate::loaded::IndexView,
    options: &ExtractAllOptions,
    existing: Seq<bool>,
    planned_r: Result<ExtractAllPlan>,
    job_r: Result<ExtractJob>,
)
    requires
        existing.len() == index.entries.len(),
        extract_all_plan_ok(label, index, options, existing, planned_r),
        all_job_outcome(archive, index, options, existing, job_r),
        planned_r is Ok,
        job_r is Ok,
    ensures
        ({
            let plan = planned_r->Ok_0@;
            let job = job_r->Ok_0@;
            &&& job.skipped == action_count(plan.entries, ExtractPlanAction::Skip)
            &&& job.writes.len() == action_count(plan.entries, ExtractPlanAction::Extract)
                + action_count(plan.entries, ExtractPlanAction::Overwrite)
            &&& plan.entries.len() == job.writes.len() + job.skipped
        }),
{
    let planned = spec_plan_all(spec_root(options.output), index.entries, options.overwrite, existing)->Ok_0;
    law_plan_all_targets_safe_and_distinct(spec_root(options.output), index.entries, options.overwrite, existing);
    assert forall|i: int| 0 <= i < planned.len() implies !write_refused(options.overwrite, #[trigger] existing[i]) by {
        assert(is_safe_archive_path(index.entries[i].raw_path));
    }
    lemma_plan_counts(planned, options.overwrite, existing, archive);
    law_job_accounts_for_every_target(archive, planned, options.overwrite, existing);
}

// ---------------------------------------------------------------------------
// Streaming extraction: one payload read per written file
// ---------------------------------------------------------------------------

/// One planned target of a streaming extraction: where its payload is read from,
/// where it goes, and whether it is skipped because it exists.
pub struct ExtractStep {
    pub archive_path: Vec<u8>,
    pub target: Vec<u8>,
    pub skip: bool,
}

impl View for ExtractStep {
    type V = (Seq<u8>, Seq<u8>, bool);

    open spec fn view(&self) -> (Seq<u8>, Seq<u8>, bool) {
        (self.archive_path@, self.target@, self.skip)
    }
}

/// The steps for planned targets: each target with its skip decision.
pub open spec fn spec_steps(planned: Seq<(Seq<u8>, Seq<u8>)>, overwrite: OverwriteMode, existing: Seq<bool>) -> Seq<(Seq<u8>, Seq<u8>, bool)> {
    Seq::new(planned.len(), |i: int| (planned[i].0, planned[i].1, write_skipped(overwrite, existing[i])))
}

pub open spec fn steps_view(steps: Seq<ExtractStep>) -> Seq<(Seq<u8>, Seq<u8>, bool)> {
    steps.map_values(|s: ExtractStep| s@)
}

fn steps_for_targets(targets: &Vec<PlannedExtractTarget>, overwrite: OverwriteMode, existing: &Vec<bool>) -> (steps: Vec<ExtractStep>)
    requires
        existing@.len() == targets@.len(),
    ensures
        steps_view(steps@) == spec_steps(targets@.map_values(|p: PlannedExtractTarget| p@), overwrite, existing@),
{
    let ghost planned = targets@.map_values(|p: PlannedExtractTarget| p@);
    let mut steps: Vec<ExtractStep> = Vec::new();
    let mut i: usize = 0;
    while i < targets.len()
        invariant
            planned == targets@.map_values(|p: PlannedExtractTarget| p@),
            existing@.len() == targets@.len(),
            i <= targets@.len(),
            steps@.len() == i,
            forall|j: int| 0 <= j < i ==> (#[trigger] steps@[j])@ == spec_steps(planned, overwrite, existing@)[j],
        decreases targets@.len() - i,
    {
        let target = &targets[i];
        assert(planned[i as int] == target@);
        let skip = existing[i] && overwrite == OverwriteMode::Skip;
        steps.push(ExtractStep { archive_path: copy_bytes(&target.archive_path), target: copy_bytes(&target.path), skip });
        i = i + 1;
    }
    assert(steps_view(steps@) =~= spec_steps(planned, overwrite, existing@));
    steps
}

/// What the steps of extracting every entry are: the refusal of a lossy archive,
/// the planning refusal, or one step per planned target.
pub open spec fn all_steps_outcome(index: crate::loaded::IndexView, options: &ExtractAllOptions, existing: Seq<bool>, r: Result<Vec<ExtractStep>>) -> bool {
    if index.entries.len() != index.file_count {
        r matches Err(ArchiveError::Archive(m)) && m@ == lossy_extraction_text()
    } else {
        match spec_plan_all(spec_root(options.output), index.entries, options.overwrite, existing) {
            Ok(planned) => r matches Ok(steps) && steps_view(steps@) == spec_steps(planned, options.overwrite, existing),
            Err(f) => r matches Err(e) && plan_error_matches(e, f),
        }
    }
}

/// Steps for extracting every entry of an opened archive, to be carried out one
/// at a time: read a step's payload with `read_step_payload`, write it, go on.
pub fn extract_all_steps_from_loaded_archive(archive: &LoadedArchive, options: &ExtractAllOptions, existing: &Vec<bool>) -> (r: Result<Vec<ExtractStep>>)
    requires
        existing@.len() == archive@.entries.len(),
    ensures
        all_steps_outcome(archive@, options, existing@, r),
{
    let targets = extract_all_targets_from_loaded_archive(archive, options, existing)?;
    proof {
        law_plan_all_targets_safe_and_distinct(spec_root(options.output), archive@.entries, options.overwrite, existing@);
    }
    Ok(steps_for_targets(&targets, options.overwrite, existing))
}

/// Steps for extracting requested entry paths of an opened archive.
pub fn extract_steps_by_path_from_loaded_archive(
    entries: &Vec<Vec<u8>>,
    options: &ExtractOptions,
    existing: &Vec<bool>,
) -> (r: Result<Vec<ExtractStep>>)
    requires
        existing@.len() == entries@.len(),
    ensures
        match spec_plan_requests(spec_root(options.output), entries.deep_view(), options.preserve_paths, options.overwrite, existing@) {
            Ok(planned) => r matches Ok(steps) && steps_view(steps@) == spec_steps(planned, options.overwrite, existing@),
            Err(f) => r matches Err(e) && plan_error_matches(e, f),
        },
{
    let root = extract_root(&options.output);
    let targets = planned_extract_targets_from_paths(&root, entries, options.preserve_paths, options.overwrite, existing)?;
    proof {
        law_plan_requests_targets_safe_and_distinct(root@, entries.deep_view(), options.preserve_paths, options.overwrite, existing@);
    }
    Ok(steps_for_targets(&targets, options.overwrite, existing))
}

/// Read the payload of one step.
pub fn read_step_payload(archive: &LoadedArchive, step: &ExtractStep) -> (r: Result<Vec<u8>>)
    ensures
        read_outcome_ok(archive.source(), step.archive_path@, r),
{
    archive.read_entry_bytes_by_normalized_path(step.archive_path.as_slice())
}

/// The files the steps write when every read succeeds: each step not skipped,
/// with the payload of its archive path.
pub open spec fn spec_step_writes(archive: dream_archive::Archive, steps: Seq<(Seq<u8>, Seq<u8>, bool)>) -> Seq<(Seq<u8>, Seq<u8>)>
    decreases steps.len(),
{
    if steps.len() == 0 {
        seq![]
    } else {
        let init = spec_step_writes(archive, steps.drop_last());
        if steps.last().2 {
            init
        } else {
            init.push((steps.last().1, spec_payload(archive, steps.last().0)))
        }
    }
}

/// Carrying out the steps one by one writes what the whole job would, in the
/// same order: the streaming and the buffered extraction agree.
pub proof fn law_steps_write_what_the_job_writes(
    archive: dream_archive::Archive,
    planned: Seq<(Seq<u8>, Seq<u8>)>,
    overwrite: OverwriteMode,
    existing: Seq<bool>,
)
    requires
        existing.len() >= planned.len(),
    ensures
        spec_step_writes(archive, spec_steps(planned, overwrite, existing)) == spec_job_writes(archive, planned, overwrite, existing),
    decreases planned.len(),
{
    if planned.len() > 0 {
        let init = planned.drop_last();
        law_steps_write_what_the_job_writes(archive, init, overwrite, existing);
        assert(spec_steps(planned, overwrite, existing).drop_last() =~= spec_steps(init, overwrite, existing));
    }
}

} // verus!
