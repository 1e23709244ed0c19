//! Dry-run plans for creating and updating archives: what would be written,
//! from where, without writing anything.

use vstd::prelude::*;
use vstd::string::*;

use crate::builders::members_view;
use crate::byte_map::{sorted_keys, to_map, ByteMap};
use crate::create::{
    collect_error, collect_input_entries, create_members, extension_error, extensions_ok,
    files_view, gnmf_create_text, inputs_view, is_gnmf_create, lemma_collect_facts,
    lemma_merge_facts, lemma_merge_inputs_only, lemma_with_existing_facts, merge_inputs,
    reject_unsupported_create_options, spec_collect, spec_create_members, spec_merge_inputs,
    validate_fo4_entries, with_existing, AddOptions, AddSource,
    CreateOptions, Fo4ArchiveKind, InputFile, InputFileView, fo4_kind_from_payload_format,
    sources_valid, existing_sources, find_repeated_input_path, duplicate_input_error, inputs_overlap,
    overlap_error, output_is_source, reject_output_is_source, same_output_text, no_inputs_text, reject_no_inputs,
};
use crate::error::{ArchiveError, Result};
use crate::format::{ArchiveFormat, Ba2PayloadKind};
use crate::loaded::{spec_open_index, EntryView, IndexView, LoadedArchive, LoadedEntry};
use crate::paths::{archive_path_bytes_to_display, archive_path_bytes_to_hex, spec_hex_chars, spec_lossy_display};
use crate::rewrite_policy::{ensure_rewritable, spec_rewrite_blocker};

verus! {

/// Archive mutation operation represented by a dry-run plan.
#[derive(Debug, Clone, Copy, PartialEq, Eq, Structural)]
pub enum ArchivePlanOperation {
    Create,
    Add,
}

/// Planned archive mutation action.
#[derive(Debug, Clone, Copy, PartialEq, Eq, Structural)]
pub enum ArchivePlanAction {
    Add,
    Replace,
    Preserve,
}

/// A single archive mutation planned action.
#[derive(Debug, Clone)]
pub struct ArchivePlanEntry {
    pub action: ArchivePlanAction,
    pub source: Option<String>,
    pub path: String,
    pub path_bytes_hex: String,
    pub size: Option<u64>,
}

pub struct ArchivePlanEntryView {
    pub action: ArchivePlanAction,
    pub source: Option<Seq<char>>,
    pub path: Seq<char>,
    pub path_bytes_hex: Seq<char>,
    pub size: Option<u64>,
}

impl View for ArchivePlanEntry {
    type V = ArchivePlanEntryView;

    open spec fn view(&self) -> ArchivePlanEntryView {
        ArchivePlanEntryView {
            action: self.action,
            source: match self.source {
                Some(s) => Some(s@),
                None => None,
            },
            path: self.path@,
            path_bytes_hex: self.path_bytes_hex@,
            size: self.size,
        }
    }
}

/// Plan for creating an archive without writing it.
#[derive(Debug, Clone)]
pub struct CreatePlan {
    pub operation: ArchivePlanOperation,
    pub format: ArchiveFormat,
    pub output: String,
    pub files: usize,
    pub entries: Vec<ArchivePlanEntry>,
}

/// Plan for adding to an archive without writing it.
///
/// `entries` is grouped by action (added, then replaced, then preserved), each
/// group in path order; it is a report order, not the archive's physical order.
#[derive(Debug, Clone)]
pub struct AddPlan {
    pub operation: ArchivePlanOperation,
    pub archive: String,
    pub output: String,
    pub format: ArchiveFormat,
    pub files: usize,
    pub added: usize,
    pub replaced: usize,
    pub preserved: usize,
    pub entries: Vec<ArchivePlanEntry>,
}

pub open spec fn plan_entries_view(entries: &Vec<ArchivePlanEntry>) -> Seq<ArchivePlanEntryView> {
    entries@.map_values(|e: ArchivePlanEntry| e@)
}

pub open spec fn spec_plan_entry(action: ArchivePlanAction, source: Option<Seq<char>>, path: Seq<u8>, size: Option<u64>) -> ArchivePlanEntryView {
    ArchivePlanEntryView {
        action,
        source,
        path: spec_lossy_display(path),
        path_bytes_hex: spec_hex_chars(path),
        size,
    }
}

fn plan_entry(action: ArchivePlanAction, source: Option<String>, path: &[u8], size: Option<u64>) -> (e: ArchivePlanEntry)
    ensures
        e@ == spec_plan_entry(action, match source {
            Some(s) => Some(s@),
            None => None,
        }, path@, size),
{
    ArchivePlanEntry {
        action,
        source,
        path: archive_path_bytes_to_display(path),
        path_bytes_hex: archive_path_bytes_to_hex(path),
        size,
    }
}

fn copy_text(text: &String) -> (copy: String)
    ensures
        copy@ == text@,
{
    String::from_str(text.as_str())
}

// ---------------------------------------------------------------------------
// Create plans
// ---------------------------------------------------------------------------

/// Every collected file, in path order, as a planned addition.
pub open spec fn spec_create_plan_entries(files: Seq<InputFileView>, table: Seq<(Seq<u8>, usize)>) -> Seq<ArchivePlanEntryView> {
    table.map_values(|e: (Seq<u8>, usize)| spec_plan_entry(
        ArchivePlanAction::Add,
        Some(files[e.1 as int].source),
        e.0,
        Some(files[e.1 as int].bytes.len() as u64),
    ))
}

pub struct CreatePlanView {
    pub operation: ArchivePlanOperation,
    pub format: ArchiveFormat,
    pub output: Seq<char>,
    pub files: nat,
    pub entries: Seq<ArchivePlanEntryView>,
}

impl View for CreatePlan {
    type V = CreatePlanView;

    open spec fn view(&self) -> CreatePlanView {
        CreatePlanView {
            operation: self.operation,
            format: self.format,
            output: self.output@,
            files: self.files as nat,
            entries: plan_entries_view(&self.entries),
        }
    }
}

/// What a create dry run reports: the refusals that writing would meet before
/// the builder, or the plan.
pub open spec fn create_plan_outcome(output: Seq<char>, files: Seq<InputFileView>, options: CreateOptions, r: Result<CreatePlan>) -> bool {
    if is_gnmf_create(options) {
        r matches Err(ArchiveError::Archive(m)) && m@ == gnmf_create_text()
    } else {
        match spec_collect(files) {
            Err(i) => r matches Err(e) && collect_error(files[i], e),
            Ok(table) => {
                let members = spec_create_members(files, table);
                if options.format == ArchiveFormat::Fo4 && !extensions_ok(members, options.fo4_kind) {
                    r matches Err(e) && extension_error(members, options.fo4_kind, e)
                } else {
                    r matches Ok(plan) && plan@ == (CreatePlanView {
                        operation: ArchivePlanOperation::Create,
                        format: options.format,
                        output,
                        files: table.len(),
                        entries: spec_create_plan_entries(files, table),
                    })
                }
            },
        }
    }
}

/// Plan creating an archive at `output` from the files of one input.
pub fn plan_create(output: &str, files: &Vec<InputFile>, options: &CreateOptions) -> (r: Result<CreatePlan>)
    ensures
        create_plan_outcome(output@, files_view(files), *options, r),
{
    reject_unsupported_create_options(options)?;
    let table = collect_input_entries(files)?;
    proof {
        lemma_collect_facts(files_view(files));
    }
    if options.format == ArchiveFormat::Fo4 {
        let members = create_members(files, &table);
        validate_fo4_entries(&members, options.fo4_kind)?;
    }
    let ghost fv = files_view(files);
    let mut entries: Vec<ArchivePlanEntry> = Vec::new();
    let mut j: usize = 0;
    while j < table.len()
        invariant
            fv == files_view(files),
            crate::create::positions_below(table@, files@.len() as int),
            j <= table@.len(),
            plan_entries_view(&entries) == spec_create_plan_entries(fv, table@.take(j as int)),
        decreases table@.len() - j,
    {
        let (key, index) = table.entry_at(j);
        assert(table@[j as int].1 < files@.len());
        let file = &files[*index];
        assert(fv[*index as int] == file@);
        let entry = plan_entry(ArchivePlanAction::Add, Some(copy_text(&file.source)), key.as_slice(), Some(file.bytes.len() as u64));
        let ghost before = plan_entries_view(&entries);
        entries.push(entry);
        assert(plan_entries_view(&entries) =~= before.push(entry@));
        assert(table@.take(j as int + 1) =~= table@.take(j as int).push(table@[j as int]));
        assert(spec_create_plan_entries(fv, table@.take(j as int + 1)) =~= spec_create_plan_entries(fv, table@.take(j as int)).push(entry@));
        j = j + 1;
    }
    assert(table@.take(table@.len() as int) =~= table@);
    Ok(CreatePlan {
        operation: ArchivePlanOperation::Create,
        format: options.format,
        output: String::from_str(output),
        files: table.len(),
        entries,
    })
}

// ---------------------------------------------------------------------------
// Add plans
// ---------------------------------------------------------------------------

/// The action reported for one entry of an update: preserved when it comes from
/// the archive, replaced when an input takes the path of an existing entry,
/// added otherwise.
pub open spec fn spec_action(source: AddSource, existing: Map<Seq<u8>, AddSource>, path: Seq<u8>) -> ArchivePlanAction {
    match source {
        AddSource::Existing(_) => ArchivePlanAction::Preserve,
        AddSource::Input(_, _) => if existing.contains_key(path) {
            ArchivePlanAction::Replace
        } else {
            ArchivePlanAction::Add
        },
    }
}

pub open spec fn spec_add_plan_entry(
    e: (Seq<u8>, AddSource),
    inputs: Seq<Seq<InputFileView>>,
    entries: Seq<EntryView>,
    existing: Map<Seq<u8>, AddSource>,
) -> ArchivePlanEntryView {
    match e.1 {
        AddSource::Input(t, i) => spec_plan_entry(
            spec_action(e.1, existing, e.0),
            Some(inputs[t as int][i as int].source),
            e.0,
            Some(inputs[t as int][i as int].bytes.len() as u64),
        ),
        AddSource::Existing(j) => spec_plan_entry(ArchivePlanAction::Preserve, None, e.0, entries[j as int].size),
    }
}

/// The planned entries of one action, in path order.
pub open spec fn entries_with_action(
    table: Seq<(Seq<u8>, AddSource)>,
    inputs: Seq<Seq<InputFileView>>,
    entries: Seq<EntryView>,
    existing: Map<Seq<u8>, AddSource>,
    action: ArchivePlanAction,
) -> Seq<ArchivePlanEntryView>
    decreases table.len(),
{
    if table.len() == 0 {
        seq![]
    } else {
        let init = entries_with_action(table.drop_last(), inputs, entries, existing, action);
        if spec_action(table.last().1, existing, table.last().0) == action {
            init.push(spec_add_plan_entry(table.last(), inputs, entries, existing))
        } else {
            init
        }
    }
}

pub struct AddPlanView {
    pub operation: ArchivePlanOperation,
    pub archive: Seq<char>,
    pub output: Seq<char>,
    pub format: ArchiveFormat,
    pub files: nat,
    pub added: nat,
    pub replaced: nat,
    pub preserved: nat,
    pub entries: Seq<ArchivePlanEntryView>,
}

impl View for AddPlan {
    type V = AddPlanView;

    open spec fn view(&self) -> AddPlanView {
        AddPlanView {
            operation: self.operation,
            archive: self.archive@,
            output: self.output@,
            format: self.format,
            files: self.files as nat,
            added: self.added as nat,
            replaced: self.replaced as nat,
            preserved: self.preserved as nat,
            entries: plan_entries_view(&self.entries),
        }
    }
}

/// The paths of a table, with no payloads: what the BA2 extension policy reads.
pub open spec fn table_paths(table: Seq<(Seq<u8>, AddSource)>) -> Seq<(Seq<u8>, Seq<u8>)> {
    table.map_values(|e: (Seq<u8>, AddSource)| (e.0, Seq::<u8>::empty()))
}

pub open spec fn ba2_kind(index: IndexView) -> Fo4ArchiveKind {
    match index.ba2 {
        Some(b) => match b.0 {
            Ba2PayloadKind::Gnrl => Fo4ArchiveKind::Gnrl,
            Ba2PayloadKind::Dx10 => Fo4ArchiveKind::Dx10,
            Ba2PayloadKind::Gnmf => Fo4ArchiveKind::Gnmf,
        },
        None => Fo4ArchiveKind::Gnrl,
    }
}

/// The plan an update of this archive with these inputs reports.
pub open spec fn spec_add_plan(label: Seq<char>, output: Seq<char>, index: IndexView, inputs: Seq<Seq<InputFileView>>, merged: Seq<(Seq<u8>, AddSource)>) -> AddPlanView {
    let table = with_existing(merged, index.entries);
    let existing = crate::create::existing_map(index.entries);
    let added = entries_with_action(table, inputs, index.entries, existing, ArchivePlanAction::Add);
    let replaced = entries_with_action(table, inputs, index.entries, existing, ArchivePlanAction::Replace);
    let preserved = entries_with_action(table, inputs, index.entries, existing, ArchivePlanAction::Preserve);
    AddPlanView {
        operation: ArchivePlanOperation::Add,
        archive: label,
        output,
        format: index.format,
        files: table.len(),
        added: added.len(),
        replaced: replaced.len(),
        preserved: preserved.len(),
        entries: added + replaced + preserved,
    }
}

/// The output a plan reports: the explicit output, or the source archive itself.
pub open spec fn shown_output(label: Seq<char>, output: Option<String>) -> Seq<char> {
    match output {
        Some(o) => o@,
        None => label,
    }
}

/// What an update dry run reports: the refusals that writing would meet before
/// reading payloads or calling the builder, or the plan.
pub open spec fn add_plan_outcome(label: Seq<char>, index: IndexView, inputs: Seq<Seq<InputFileView>>, output: Seq<char>, r: Result<AddPlan>) -> bool {
    match spec_rewrite_blocker(index) {
        Some(b) => r matches Err(ArchiveError::Archive(m)) && m@ == b,
        None => match spec_merge_inputs(inputs) {
            Err(p) => r matches Err(e) && collect_error(inputs[p.0][p.1], e),
            Ok(merged) => if inputs_overlap(inputs) {
                overlap_error(inputs, r)
            } else {
                let paths = table_paths(with_existing(merged, index.entries));
                if !extensions_ok(paths, ba2_kind(index)) {
                    r matches Err(e) && extension_error(paths, ba2_kind(index), e)
                } else {
                    r matches Ok(plan) && plan@ == spec_add_plan(label, output, index, inputs, merged)
                }
            },
        },
    }
}

fn paths_of(table: &ByteMap<AddSource>) -> (paths: Vec<(Vec<u8>, Vec<u8>)>)
    ensures
        members_view(&paths) == table_paths(table@),
{
    let mut paths: Vec<(Vec<u8>, Vec<u8>)> = Vec::new();
    let mut j: usize = 0;
    while j < table.len()
        invariant
            j <= table@.len(),
            members_view(&paths) == table_paths(table@.take(j as int)),
        decreases table@.len() - j,
    {
        let (key, _) = table.entry_at(j);
        let ghost before = members_view(&paths);
        paths.push((copy_key(key), Vec::new()));
        assert(members_view(&paths) =~= before.push((key@, Seq::<u8>::empty())));
        assert(table@.take(j as int + 1) =~= table@.take(j as int).push(table@[j as int]));
        assert(table_paths(table@.take(j as int + 1)) =~= table_paths(table@.take(j as int)).push((key@, Seq::<u8>::empty())));
        j = j + 1;
    }
    assert(table@.take(table@.len() as int) =~= table@);
    paths
}

fn copy_key(bytes: &Vec<u8>) -> (copy: Vec<u8>)
    ensures
        copy@ == bytes@,
{
    let mut copy: Vec<u8> = Vec::new();
    let mut i: usize = 0;
    while i < bytes.len()
        invariant
            i <= bytes@.len(),
            copy@ == bytes@.take(i as int),
        decreases bytes@.len() - i,
    {
        copy.push(bytes[i]);
        assert(bytes@.take(i as int + 1) =~= bytes@.take(i as int).push(bytes@[i as int]));
        i = i + 1;
    }
    assert(bytes@.take(bytes@.len() as int) =~= bytes@);
    copy
}

fn action_of(source: AddSource, existing: &ByteMap<AddSource>, path: &Vec<u8>) -> (a: ArchivePlanAction)
    requires
        sorted_keys(existing@),
    ensures
        a == spec_action(source, to_map(existing@), path@),
{
    match source {
        AddSource::Existing(_) => ArchivePlanAction::Preserve,
        AddSource::Input(_, _) => if existing.contains_key(path.as_slice()) {
            ArchivePlanAction::Replace
        } else {
            ArchivePlanAction::Add
        },
    }
}

/// The planned entries of one action, in path order.
fn plan_entries_with_action(
    table: &ByteMap<AddSource>,
    existing: &ByteMap<AddSource>,
    inputs: &Vec<Vec<InputFile>>,
    archive: &LoadedArchive,
    action: ArchivePlanAction,
) -> (planned: Vec<ArchivePlanEntry>)
    requires
        sorted_keys(existing@),
        sources_valid(table@, inputs_view(inputs), archive@.entries),
    ensures
        plan_entries_view(&planned) == entries_with_action(table@, inputs_view(inputs), archive@.entries, to_map(existing@), action),
{
    let ghost iv = inputs_view(inputs);
    let ghost all = archive@.entries;
    let entries = archive.list_loaded_entries();
    let mut planned: Vec<ArchivePlanEntry> = Vec::new();
    let mut j: usize = 0;
    while j < table.len()
        invariant
            iv == inputs_view(inputs),
            all == archive@.entries,
            entries@.map_values(|e: LoadedEntry| e@) == all,
            sorted_keys(existing@),
            sources_valid(table@, iv, all),
            j <= table@.len(),
            plan_entries_view(&planned) == entries_with_action(table@.take(j as int), iv, all, to_map(existing@), action),
        decreases table@.len() - j,
    {
        let (key, source) = table.entry_at(j);
        let ghost e = table@[j as int];
        assert(table@.take(j as int + 1).drop_last() =~= table@.take(j as int));
        assert(table@.take(j as int + 1).last() == e);
        let a = action_of(*source, existing, key);
        if a == action {
            let entry = match *source {
                AddSource::Input(t, i) => {
                    assert(iv[t as int] == inputs@[t as int]@.map_values(|f: InputFile| f@));
                    assert(iv[t as int][i as int] == inputs@[t as int]@[i as int]@);
                    let file = &inputs[t][i];
                    plan_entry(a, Some(copy_text(&file.source)), key.as_slice(), Some(file.bytes.len() as u64))
                },
                AddSource::Existing(k) => {
                    assert(all[k as int] == entries@[k as int]@);
                    plan_entry(ArchivePlanAction::Preserve, None, key.as_slice(), entries[k].size)
                },
            };
            let ghost before = plan_entries_view(&planned);
            planned.push(entry);
            assert(plan_entries_view(&planned) =~= before.push(entry@));
        }
        j = j + 1;
    }
    assert(table@.take(table@.len() as int) =~= table@);
    planned
}

/// Plan adding to an opened archive, labelled `label`, without reading payloads
/// or writing anything.
pub fn plan_add_to_loaded_archive(label: &str, archive: &LoadedArchive, options: &AddOptions) -> (r: Result<AddPlan>)
    ensures
        add_plan_outcome(label@, archive@, inputs_view(&options.inputs), shown_output(label@, options.output), r),
{
    ensure_rewritable(archive)?;
    let merged = merge_inputs(&options.inputs)?;
    if let Some(path) = find_repeated_input_path(&options.inputs) {
        return Err(duplicate_input_error(&path));
    }
    let input_count = options.inputs.len();
    let named = archive.named_entry_count();
    assert(inputs_view(&options.inputs).len() == input_count);
    proof {
        lemma_merge_facts(inputs_view(&options.inputs), archive@.entries);
        lemma_merge_inputs_only(inputs_view(&options.inputs));
        lemma_with_existing_facts(merged@, inputs_view(&options.inputs), archive@.entries);
        crate::create::lemma_with_existing_map(Seq::<(Seq<u8>, AddSource)>::empty(), archive@.entries);
        assert(to_map(Seq::<(Seq<u8>, AddSource)>::empty()) =~= Map::<Seq<u8>, AddSource>::empty());
        assert(crate::create::existing_map(archive@.entries).union_prefer_right(Map::<Seq<u8>, AddSource>::empty())
            =~= crate::create::existing_map(archive@.entries));
    }
    let ghost m0 = merged@;
    let existing = existing_sources(ByteMap::new(), archive);
    let table = existing_sources(merged, archive);
    if let Some(settings) = archive.ba2_settings() {
        let paths = paths_of(&table);
        validate_fo4_entries(&paths, fo4_kind_from_payload_format(settings.0))?;
    }
    let added = plan_entries_with_action(&table, &existing, &options.inputs, archive, ArchivePlanAction::Add);
    let mut replaced = plan_entries_with_action(&table, &existing, &options.inputs, archive, ArchivePlanAction::Replace);
    let mut preserved = plan_entries_with_action(&table, &existing, &options.inputs, archive, ArchivePlanAction::Preserve);
    let added_count = added.len();
    let replaced_count = replaced.len();
    let preserved_count = preserved.len();
    let mut entries = added;
    let ghost a = plan_entries_view(&entries);
    let ghost b = plan_entries_view(&replaced);
    let ghost c = plan_entries_view(&preserved);
    entries.append(&mut replaced);
    entries.append(&mut preserved);
    assert(plan_entries_view(&entries) =~= a + b + c);
    Ok(AddPlan {
        operation: ArchivePlanOperation::Add,
        archive: String::from_str(label),
        output: match &options.output {
            Some(o) => copy_text(o),
            None => String::from_str(label),
        },
        format: archive.format(),
        files: table.len(),
        added: added_count,
        replaced: replaced_count,
        preserved: preserved_count,
        entries,
    })
}

/// Plan adding to the archive whose file bytes are `bytes`; `path` names it.
pub fn plan_add(path: &str, bytes: Vec<u8>, options: &AddOptions) -> (r: Result<AddPlan>)
    ensures
        options.inputs@.len() == 0 ==> (r matches Err(ArchiveError::Archive(m)) && m@ == no_inputs_text()),
        options.inputs@.len() > 0 && output_is_source(path@, options.output) ==> (r matches Err(ArchiveError::Archive(m)) && m@ == same_output_text(path@)),
        options.inputs@.len() > 0 && !output_is_source(path@, options.output) ==> (
            (spec_open_index(bytes@) is None ==> r is Err)
            && (spec_open_index(bytes@) matches Some(o) ==> add_plan_outcome(path@, o.index, inputs_view(&options.inputs), shown_output(path@, options.output), r))),
{
    reject_no_inputs(&options.inputs)?;
    reject_output_is_source(path, &options.output)?;
    let archive = LoadedArchive::open(path, bytes)?;
    plan_add_to_loaded_archive(path, &archive, options)
}

/// Every entry of an updated archive is reported once: as added, replaced or preserved.
pub proof fn law_add_plan_counts(
    table: Seq<(Seq<u8>, AddSource)>,
    inputs: Seq<Seq<InputFileView>>,
    entries: Seq<EntryView>,
    existing: Map<Seq<u8>, AddSource>,
)
    ensures
        entries_with_action(table, inputs, entries, existing, ArchivePlanAction::Add).len()
            + entries_with_action(table, inputs, entries, existing, ArchivePlanAction::Replace).len()
            + entries_with_action(table, inputs, entries, existing, ArchivePlanAction::Preserve).len() == table.len(),
    decreases table.len(),
{
    if table.len() > 0 {
        law_add_plan_counts(table.drop_last(), inputs, entries, existing);
    }
}

} // verus!
