use dream_archivetool::archive_plan::{plan_add, plan_create};
use dream_archivetool::create::{add_to_archive, create_archive, has_extension};
use dream_archivetool::entry::list_entries;
use dream_archivetool::extract::{
    extract_all, extract_entry, extract_entry_by_path, extract_entries_by_path, persist_outcome,
    plan_extract_all, plan_extract_entries_by_path, planned_extract_targets, read_entry_bytes,
    read_entry_bytes_by_path, write_decision, TargetWrite,
};
use dream_archivetool::format::{Ba2FormatVersion, Ba2PayloadKind, Tes4FormatVersion};
use dream_archivetool::loaded::{LoadedArchive, LoadedEntry};
use dream_archivetool::{
    AddOptions, ArchiveError, ArchiveFormat, ArchivePlanAction, ArchivePlanOperation, ArchiveTool,
    CreateOptions, ExtractAllOptions, ExtractOptions, ExtractPlanAction, ExtractPlanOperation,
    Fo4ArchiveKind, Fo4Version, InputFile, OverwriteMode, PathPart, Tes4Version,
};

fn tes3_bytes(entries: &[(&str, &[u8])]) -> Vec<u8> {
    let mut builder = dream_archive::Tes3BsaBuilder::new();
    for (path, payload) in entries {
        builder.add_bytes(path, payload).unwrap();
    }
    builder.to_vec().unwrap()
}

fn single_archive() -> Vec<u8> {
    tes3_bytes(&[("textures/example.dds", b"payload")])
}

fn multi_archive() -> Vec<u8> {
    tes3_bytes(&[("textures/a.dds", b"a"), ("meshes/b.nif", b"b")])
}

fn ba2_bytes(version: dream_archive::ba2::ArchiveVersion) -> Vec<u8> {
    let mut builder = dream_archive::Ba2Builder::new();
    builder.set_version(version);
    builder.add_bytes("base.txt", b"base").unwrap();
    builder.to_vec().unwrap()
}

fn input(relative: &str, bytes: &[u8]) -> InputFile {
    InputFile {
        parts: relative.split('/').map(|c| PathPart::Normal(c.as_bytes().to_vec())).collect(),
        shown: relative.to_string(),
        source: format!("input/{relative}"),
        bytes: bytes.to_vec(),
    }
}

fn out_options() -> ExtractOptions {
    ExtractOptions { output: Some(b"out".to_vec()), ..Default::default() }
}

fn out_all_options(overwrite: OverwriteMode) -> ExtractAllOptions {
    ExtractAllOptions { output: Some(b"out".to_vec()), overwrite, fsync: false }
}

#[test]
fn reports_tes3_info() {
    let bytes = tes3_bytes(&[("meshes/example.nif", b"payload")]);

    let info = ArchiveTool::info("test.bsa", bytes).unwrap();

    assert_eq!(info.format, ArchiveFormat::Tes3);
    assert_eq!(info.file_count, 1);
    assert_eq!(info.path, "test.bsa");
    assert_eq!(info.named_entry_count, 1);
    assert!(!info.has_unnameable_entries);
    assert!(info.rewritable);
    assert!(info.rewrite_blocker.is_none());
}

#[test]
fn open_archive_reuses_loaded_index() {
    let bytes = tes3_bytes(&[("icons/gold.dds", b"gold")]);

    let archive = ArchiveTool::open("test.bsa", bytes).unwrap();

    assert_eq!(archive.info().file_count, 1);
    assert_eq!(archive.list().unwrap()[0].path, "icons/gold.dds");
    assert_eq!(archive.read_entry("icons/gold.dds").unwrap(), b"gold");
    assert_eq!(archive.format(), ArchiveFormat::Tes3);
}

#[test]
fn lists_tes3_entries() {
    let entries = list_entries("test.bsa", single_archive()).unwrap();

    assert_eq!(entries.len(), 1);
    assert_eq!(entries[0].path, "textures/example.dds");
    assert_eq!(entries[0].path_bytes_hex, "74657874757265732f6578616d706c652e646473");
    assert_eq!(entries[0].size, Some(7));
    assert_eq!(entries[0].compressed_size, None);
}

#[test]
fn reads_entry_bytes_case_insensitively() {
    let bytes = read_entry_bytes("test.bsa", single_archive(), "TEXTURES/EXAMPLE.DDS").unwrap();

    assert_eq!(bytes, b"payload");
}

#[test]
fn reads_entry_by_path_with_backslashes() {
    let bytes = read_entry_bytes_by_path("test.bsa", single_archive(), br"Textures\Example.dds").unwrap();
    assert_eq!(bytes, b"payload");
}

#[test]
fn missing_entries_report_their_display_path() {
    match read_entry_bytes("test.bsa", single_archive(), "Textures/Missing.dds") {
        Err(ArchiveError::EntryNotFound(m)) => assert_eq!(m, "textures/missing.dds"),
        other => panic!("unexpected {other:?}"),
    }
}

#[test]
fn unreadable_archives_report_their_label() {
    match ArchiveTool::info("broken.bsa", b"not an archive".to_vec()) {
        Err(ArchiveError::Archive(m)) => assert!(m.starts_with("failed to open archive 'broken.bsa': ")),
        other => panic!("unexpected {other:?}"),
    }
}

#[test]
fn guesses_formats_from_headers() {
    assert_eq!(ArchiveTool::guess_format("a", b"BTDX\x01\x00\x00\x00").unwrap(), ArchiveFormat::Fo4);
    assert_eq!(ArchiveTool::guess_format("a", b"BSA\0\x68\x00").unwrap(), ArchiveFormat::Tes4);
    assert_eq!(ArchiveTool::guess_format("a", &[0, 1, 0, 0]).unwrap(), ArchiveFormat::Tes3);
    assert!(matches!(ArchiveTool::guess_format("a", b"ZZZZ"), Err(ArchiveError::UnknownFormat)));
    match ArchiveTool::guess_format("short.bsa", b"BT") {
        Err(ArchiveError::Archive(m)) => assert!(m.starts_with("failed to read archive header 'short.bsa': ")),
        other => panic!("unexpected {other:?}"),
    }
}

#[test]
fn writers_append_payloads() {
    let mut out = b"prefix:".to_vec();
    let n = ArchiveTool::extract_entry_to_writer("test.bsa", single_archive(), "textures/example.dds", &mut out).unwrap();
    assert_eq!(n, 7);
    assert_eq!(out, b"prefix:payload");

    let mut out = Vec::new();
    let n = ArchiveTool::extract_entry_path_to_writer("test.bsa", single_archive(), b"TEXTURES/EXAMPLE.DDS", &mut out).unwrap();
    assert_eq!(n, 7);
    assert_eq!(out, b"payload");

    let mut out = b"keep".to_vec();
    assert!(ArchiveTool::extract_entry_to_writer("test.bsa", single_archive(), "nope", &mut out).is_err());
    assert_eq!(out, b"keep");
}

#[test]
fn extracts_entry_to_safe_path() {
    let job = extract_entry("test.bsa", single_archive(), "textures/example.dds", &out_options(), false).unwrap();

    assert_eq!(job.writes.len(), 1);
    assert_eq!(job.skipped, 0);
    assert_eq!(job.writes[0].target, b"out/textures/example.dds".to_vec());
    assert_eq!(job.writes[0].payload, b"payload".to_vec());
    let summary = persist_outcome(&job.writes[0].target, OverwriteMode::Fail, false).unwrap();
    assert_eq!(summary.extracted, 1);
}

#[test]
fn extract_entry_fails_when_target_exists_by_default() {
    let err = extract_entry("test.bsa", single_archive(), "textures/example.dds", &out_options(), true).unwrap_err();

    assert!(matches!(err, ArchiveError::TargetExists(_)));
}

#[test]
fn extract_entry_can_overwrite_existing_file() {
    let options = ExtractOptions { overwrite: OverwriteMode::Overwrite, ..out_options() };

    let job = extract_entry("test.bsa", single_archive(), "textures/example.dds", &options, true).unwrap();

    assert_eq!(job.writes.len(), 1);
    assert_eq!(job.skipped, 0);
    assert_eq!(job.writes[0].payload, b"payload".to_vec());
    let summary = persist_outcome(&job.writes[0].target, OverwriteMode::Overwrite, false).unwrap();
    assert_eq!(summary.extracted, 1);
    assert_eq!(summary.skipped, 0);
}

#[test]
fn extract_entry_can_skip_existing_file() {
    let options = ExtractOptions { overwrite: OverwriteMode::Skip, ..out_options() };

    let job = extract_entry("test.bsa", single_archive(), "textures/example.dds", &options, true).unwrap();

    assert_eq!(job.writes.len(), 0);
    assert_eq!(job.skipped, 1);
}

#[test]
fn flat_extraction_uses_virtual_path_basename() {
    let options = ExtractOptions {
        output: Some(b"out".to_vec()),
        overwrite: OverwriteMode::Fail,
        preserve_paths: false,
        fsync: false,
    };

    let job = extract_entry("test.bsa", single_archive(), "textures\\example.dds", &options, false).unwrap();

    assert_eq!(job.writes.len(), 1);
    assert_eq!(job.writes[0].target, b"out/example.dds".to_vec());
    assert_eq!(job.writes[0].payload, b"payload".to_vec());
}

#[test]
fn extract_all_writes_multiple_entries() {
    let job = extract_all("test.bsa", multi_archive(), &out_all_options(OverwriteMode::Fail), &vec![false, false]).unwrap();

    assert_eq!(job.writes.len(), 2);
    let mut written: Vec<(Vec<u8>, Vec<u8>)> = job.writes.iter().map(|w| (w.target.clone(), w.payload.clone())).collect();
    written.sort();
    assert_eq!(written, vec![(b"out/meshes/b.nif".to_vec(), b"b".to_vec()), (b"out/textures/a.dds".to_vec(), b"a".to_vec())]);
}

#[test]
fn extract_all_can_skip_existing_files() {
    let options = out_all_options(OverwriteMode::Skip);
    let probe = plan_extract_all("test.bsa", multi_archive(), &options, &vec![false, false]).unwrap();
    let existing: Vec<bool> = probe.entries.iter().map(|e| e.target == "out/textures/a.dds").collect();

    let job = extract_all("test.bsa", multi_archive(), &options, &existing).unwrap();

    assert_eq!(job.writes.len(), 1);
    assert_eq!(job.skipped, 1);
    assert_eq!(job.writes[0].target, b"out/meshes/b.nif".to_vec());
    assert_eq!(job.writes[0].payload, b"b".to_vec());
}

#[test]
fn extract_all_preflights_existing_targets_before_writing() {
    let probe = plan_extract_all("test.bsa", multi_archive(), &out_all_options(OverwriteMode::Overwrite), &vec![false, false]).unwrap();
    let existing: Vec<bool> = probe.entries.iter().map(|e| e.target == "out/meshes/b.nif").collect();

    let err = extract_all("test.bsa", multi_archive(), &out_all_options(OverwriteMode::Fail), &existing).unwrap_err();

    match err {
        ArchiveError::TargetExists(m) => assert_eq!(m, "out/meshes/b.nif"),
        other => panic!("unexpected {other:?}"),
    }
}

#[test]
fn extract_all_rejects_duplicate_planned_targets() {
    let entries = vec![
        LoadedEntry {
            raw_path: b"textures/example.dds".to_vec(),
            path: b"textures/example.dds".to_vec(),
            size: None,
            compressed_size: None,
        },
        LoadedEntry {
            raw_path: b"textures/example.dds".to_vec(),
            path: b"textures/example.dds".to_vec(),
            size: None,
            compressed_size: None,
        },
    ];

    let err = planned_extract_targets(&b"dir".to_vec(), &entries, OverwriteMode::Overwrite, &vec![false, false]).unwrap_err();

    assert!(err.message().contains("duplicate extraction target"));
}

#[test]
fn extract_entry_uses_stored_path_for_output_target() {
    let job = extract_entry("test.bsa", single_archive(), "TEXTURES//EXAMPLE.DDS", &out_options(), false).unwrap();

    assert_eq!(job.writes[0].target, b"out/textures/example.dds".to_vec());
    assert_eq!(job.writes[0].payload, b"payload".to_vec());
}

#[test]
fn extraction_refuses_unsafe_requests() {
    let err = extract_entry_by_path("test.bsa", single_archive(), b"../evil", &out_options(), false).unwrap_err();
    assert!(matches!(err, ArchiveError::UnsafePath(_)));
}

#[test]
fn extraction_of_missing_entries_fails() {
    let err = extract_entry("test.bsa", single_archive(), "nope.txt", &out_options(), false).unwrap_err();
    assert!(matches!(err, ArchiveError::EntryNotFound(_)));
}

#[test]
fn selected_entries_plan_and_extract_together() {
    let requests = vec![b"textures/a.dds".to_vec(), b"meshes/b.nif".to_vec()];
    let plan = plan_extract_entries_by_path("test.bsa", &requests, &out_options(), &vec![false, true]).unwrap_err();
    assert!(matches!(plan, ArchiveError::TargetExists(_)));

    let options = ExtractOptions { overwrite: OverwriteMode::Overwrite, ..out_options() };
    let plan = plan_extract_entries_by_path("test.bsa", &requests, &options, &vec![false, true]).unwrap();
    assert_eq!(plan.operation, ExtractPlanOperation::Extract);
    assert_eq!(plan.entries[0].action, ExtractPlanAction::Extract);
    assert_eq!(plan.entries[1].action, ExtractPlanAction::Overwrite);
    assert_eq!(plan.entries[1].target, "out/meshes/b.nif");

    let job = extract_entries_by_path("test.bsa", multi_archive(), &requests, &options, &vec![false, true]).unwrap();
    assert_eq!(job.writes.len(), 2);
    assert_eq!(job.writes[0].payload, b"a".to_vec());
    assert_eq!(job.writes[1].payload, b"b".to_vec());
}

#[test]
fn extract_all_dry_run_reports_targets() {
    let plan = plan_extract_all("test.bsa", multi_archive(), &out_all_options(OverwriteMode::Fail), &vec![false, false]).unwrap();

    assert_eq!(plan.operation, ExtractPlanOperation::ExtractAll);
    assert_eq!(plan.entries.len(), 2);
    assert_eq!(plan.output, "out");
    assert_eq!(plan.archive, "test.bsa");
}

#[test]
fn write_decisions_follow_the_overwrite_mode() {
    assert_eq!(write_decision(b"t", false, OverwriteMode::Fail).unwrap(), TargetWrite::Write);
    assert_eq!(write_decision(b"t", true, OverwriteMode::Skip).unwrap(), TargetWrite::Skip);
    assert_eq!(write_decision(b"t", true, OverwriteMode::Overwrite).unwrap(), TargetWrite::Write);
    assert!(matches!(write_decision(b"t", true, OverwriteMode::Fail), Err(ArchiveError::TargetExists(_))));

    let skipped = persist_outcome(b"t", OverwriteMode::Skip, true).unwrap();
    assert_eq!((skipped.extracted, skipped.skipped), (0, 1));
    assert!(matches!(persist_outcome(b"t", OverwriteMode::Fail, true), Err(ArchiveError::TargetExists(_))));
}

#[test]
fn creates_tes3_archive() {
    let written = create_archive(
        &vec![input("textures/example.dds", b"payload")],
        &CreateOptions { format: ArchiveFormat::Tes3, ..Default::default() },
    )
    .unwrap();

    assert_eq!(written.files, 1);
    assert_eq!(ArchiveTool::read_entry("out.bsa", written.bytes, "textures/example.dds").unwrap(), b"payload");
}

#[test]
fn creates_tes4_archive() {
    let written = create_archive(
        &vec![input("textures/example.dds", b"payload")],
        &CreateOptions { format: ArchiveFormat::Tes4, ..Default::default() },
    )
    .unwrap();

    assert_eq!(ArchiveTool::read_entry("out.bsa", written.bytes.clone(), "textures/example.dds").unwrap(), b"payload");
    let archive = LoadedArchive::open("out.bsa", written.bytes).unwrap();
    assert_eq!(archive.tes4_settings().unwrap().0, Tes4FormatVersion::V103);
}

#[test]
fn creates_tes4_archive_of_each_version() {
    for (version, expected) in [
        (Tes4Version::Fallout3, Tes4FormatVersion::V104),
        (Tes4Version::Skyrim, Tes4FormatVersion::V104),
        (Tes4Version::SkyrimSe, Tes4FormatVersion::V105),
    ] {
        let written = create_archive(
            &vec![input("a/b.txt", b"x")],
            &CreateOptions { format: ArchiveFormat::Tes4, tes4_version: version, ..Default::default() },
        )
        .unwrap();
        let archive = LoadedArchive::open("out.bsa", written.bytes).unwrap();
        assert_eq!(archive.tes4_settings().unwrap().0, expected);
    }
}

#[test]
fn creates_fo4_gnrl_archive() {
    let written = create_archive(
        &vec![input("textures/example.dds", b"payload")],
        &CreateOptions { format: ArchiveFormat::Fo4, ..Default::default() },
    )
    .unwrap();

    assert_eq!(ArchiveTool::read_entry("out.ba2", written.bytes, "textures/example.dds").unwrap(), b"payload");
}

#[test]
fn rejects_non_dds_dx10_inputs_without_clobbering_output() {
    let err = create_archive(
        &vec![input("not-a-texture.txt", b"payload")],
        &CreateOptions { format: ArchiveFormat::Fo4, fo4_kind: Fo4ArchiveKind::Dx10, ..Default::default() },
    )
    .unwrap_err();

    assert!(err.message().contains("DX10"));
    match err {
        ArchiveError::Archive(m) => assert_eq!(m, "DX10 BA2 archives can only contain .dds files: not-a-texture.txt"),
        other => panic!("unexpected {other:?}"),
    }
}

#[test]
fn accepts_uppercase_dx10_extensions() {
    let err = create_archive(
        &vec![input("TEXTURE.DDS", b"payload")],
        &CreateOptions { format: ArchiveFormat::Fo4, fo4_kind: Fo4ArchiveKind::Dx10, ..Default::default() },
    )
    .unwrap_err();

    assert!(!err.message().contains("can only contain .dds"));
}

#[test]
fn rejects_gnmf_creation_without_clobbering_output() {
    let err = create_archive(
        &vec![input("not-a-model.txt", b"payload")],
        &CreateOptions { format: ArchiveFormat::Fo4, fo4_kind: Fo4ArchiveKind::Gnmf, ..Default::default() },
    )
    .unwrap_err();

    assert!(err.message().contains("GNMF"));
}

#[test]
fn rejects_gnmf_creation_before_extension_policy_matters() {
    let err = create_archive(
        &vec![input("MODEL.GNF", b"payload")],
        &CreateOptions { format: ArchiveFormat::Fo4, fo4_kind: Fo4ArchiveKind::Gnmf, ..Default::default() },
    )
    .unwrap_err();

    assert!(err.message().contains("GNMF"));
}

#[test]
fn create_fo4_can_write_starfield_version() {
    let written = create_archive(
        &vec![input("base.txt", b"base")],
        &CreateOptions { format: ArchiveFormat::Fo4, fo4_version: Fo4Version::Starfield, ..Default::default() },
    )
    .unwrap();

    let archive = LoadedArchive::open("out.ba2", written.bytes).unwrap();
    assert_eq!(archive.ba2_settings(), Some((Ba2PayloadKind::Gnrl, Ba2FormatVersion::V2)));
}

#[test]
fn create_fo4_can_write_next_gen_version() {
    let written = create_archive(
        &vec![input("base.txt", b"base")],
        &CreateOptions { format: ArchiveFormat::Fo4, fo4_version: Fo4Version::Fallout4NextGen, ..Default::default() },
    )
    .unwrap();

    let archive = LoadedArchive::open("out.ba2", written.bytes).unwrap();
    assert_eq!(archive.ba2_settings(), Some((Ba2PayloadKind::Gnrl, Ba2FormatVersion::V7)));
}

#[test]
fn add_preserves_starfield_v3_ba2_version() {
    let base = ba2_bytes(dream_archive::ba2::ArchiveVersion::v3);
    let options = AddOptions { inputs: vec![vec![input("added.txt", b"added")]], output: Some("updated.ba2".to_string()) };

    let written = add_to_archive("base.ba2", base, &options).unwrap();

    let archive = LoadedArchive::open("updated.ba2", written.bytes).unwrap();
    assert_eq!(archive.ba2_settings(), Some((Ba2PayloadKind::Gnrl, Ba2FormatVersion::V3)));
}

#[test]
fn add_preserves_next_gen_v8_ba2_version() {
    let base = ba2_bytes(dream_archive::ba2::ArchiveVersion::v8);
    let options = AddOptions { inputs: vec![vec![input("added.txt", b"added")]], output: Some("updated.ba2".to_string()) };

    let written = add_to_archive("base.ba2", base, &options).unwrap();

    let archive = LoadedArchive::open("updated.ba2", written.bytes).unwrap();
    assert_eq!(archive.ba2_settings(), Some((Ba2PayloadKind::Gnrl, Ba2FormatVersion::V8)));
}

#[test]
fn add_writes_updated_archive() {
    let base = create_archive(&vec![input("base.txt", b"base")], &CreateOptions::default()).unwrap();
    let options = AddOptions { inputs: vec![vec![input("added.txt", b"added")]], output: Some("updated.bsa".to_string()) };

    let written = add_to_archive("base.bsa", base.bytes, &options).unwrap();

    assert_eq!(written.files, 2);
    assert_eq!(ArchiveTool::read_entry("updated.bsa", written.bytes.clone(), "base.txt").unwrap(), b"base");
    assert_eq!(ArchiveTool::read_entry("updated.bsa", written.bytes, "added.txt").unwrap(), b"added");
}

#[test]
fn add_replaces_existing_archive_entries() {
    let base = create_archive(
        &vec![input("textures/example.dds", b"old"), input("keep.txt", b"keep")],
        &CreateOptions::default(),
    )
    .unwrap();
    let options = AddOptions { inputs: vec![vec![input("textures/example.dds", b"new")]], output: Some("updated.bsa".to_string()) };

    let written = add_to_archive("base.bsa", base.bytes, &options).unwrap();

    assert_eq!(written.files, 2);
    assert_eq!(ArchiveTool::read_entry("updated.bsa", written.bytes.clone(), "textures/example.dds").unwrap(), b"new");
    assert_eq!(ArchiveTool::read_entry("updated.bsa", written.bytes, "keep.txt").unwrap(), b"keep");
}

#[test]
fn add_keeps_tes4_settings() {
    let base = create_archive(
        &vec![input("a.txt", b"a")],
        &CreateOptions { format: ArchiveFormat::Tes4, tes4_version: Tes4Version::SkyrimSe, ..Default::default() },
    )
    .unwrap();
    let before = LoadedArchive::open("base.bsa", base.bytes.clone()).unwrap().tes4_settings().unwrap();
    let options = AddOptions { inputs: vec![vec![input("b.txt", b"b")]], output: Some("updated.bsa".to_string()) };

    let written = add_to_archive("base.bsa", base.bytes, &options).unwrap();

    let after = LoadedArchive::open("updated.bsa", written.bytes.clone()).unwrap().tes4_settings().unwrap();
    assert_eq!(before, after);
    assert_eq!(after.0, Tes4FormatVersion::V105);
    assert_eq!(ArchiveTool::read_entry("updated.bsa", written.bytes, "a.txt").unwrap(), b"a");
}

#[test]
fn inputs_that_share_a_path_are_refused() {
    let base = create_archive(&vec![input("keep.txt", b"keep")], &CreateOptions::default()).unwrap();
    let options = AddOptions {
        inputs: vec![vec![input("x.txt", b"first")], vec![input("X.TXT", b"second")]],
        output: Some("updated.bsa".to_string()),
    };

    match add_to_archive("base.bsa", base.bytes.clone(), &options) {
        Err(ArchiveError::Archive(m)) => assert_eq!(m, "duplicate archive path after normalization: x.txt"),
        other => panic!("unexpected {other:?}"),
    }
    assert!(plan_add("base.bsa", base.bytes, &options).is_err());
}

#[test]
fn an_explicit_output_naming_the_source_is_refused() {
    let base = create_archive(&vec![input("keep.txt", b"keep")], &CreateOptions::default()).unwrap();
    let same = AddOptions { inputs: vec![vec![input("x.txt", b"x")]], output: Some("base.bsa".to_string()) };
    match add_to_archive("base.bsa", base.bytes.clone(), &same) {
        Err(ArchiveError::Archive(m)) => {
            assert_eq!(m, "output archive is the source archive: base.bsa; omit the output to rewrite it in place")
        }
        other => panic!("unexpected {other:?}"),
    }
    assert!(plan_add("base.bsa", base.bytes.clone(), &same).is_err());

    let in_place = AddOptions { inputs: vec![vec![input("x.txt", b"x")]], output: None };
    assert_eq!(add_to_archive("base.bsa", base.bytes.clone(), &in_place).unwrap().files, 2);
    assert_eq!(plan_add("base.bsa", base.bytes, &in_place).unwrap().output, "base.bsa");
}

#[test]
fn rejects_duplicate_paths_after_normalization() {
    let err = create_archive(
        &vec![input("textures/example.dds", b"lower"), input("textures/EXAMPLE.DDS", b"upper")],
        &CreateOptions::default(),
    )
    .unwrap_err();

    assert!(err.message().contains("duplicate archive path"));
    match err {
        ArchiveError::Archive(m) => assert_eq!(m, "duplicate archive path after normalization: textures/example.dds"),
        other => panic!("unexpected {other:?}"),
    }
}

#[test]
fn rejects_inputs_outside_the_root() {
    let file = InputFile {
        parts: vec![PathPart::Other, PathPart::Normal(b"evil.txt".to_vec())],
        shown: "../evil.txt".to_string(),
        source: "../evil.txt".to_string(),
        bytes: b"x".to_vec(),
    };
    match create_archive(&vec![file], &CreateOptions::default()) {
        Err(ArchiveError::UnsafePath(m)) => assert_eq!(m, "../evil.txt"),
        other => panic!("unexpected {other:?}"),
    }
}

#[test]
fn create_dry_run_reports_plan() {
    let plan = plan_create("out.bsa", &vec![input("hello.txt", b"hello")], &CreateOptions::default()).unwrap();

    assert_eq!(plan.operation, ArchivePlanOperation::Create);
    assert_eq!(plan.files, 1);
    assert_eq!(plan.output, "out.bsa");
    assert_eq!(plan.entries[0].action, ArchivePlanAction::Add);
    assert_eq!(plan.entries[0].path, "hello.txt");
    assert_eq!(plan.entries[0].size, Some(5));
    assert_eq!(plan.entries[0].source.as_deref(), Some("input/hello.txt"));
}

#[test]
fn add_dry_run_reports_add_replace_preserve() {
    let base = create_archive(&vec![input("base.txt", b"base"), input("keep.txt", b"keep")], &CreateOptions::default()).unwrap();
    let options = AddOptions {
        inputs: vec![vec![input("base.txt", b"new"), input("added.txt", b"added")]],
        output: Some("updated.bsa".to_string()),
    };

    let plan = plan_add("base.bsa", base.bytes, &options).unwrap();

    assert_eq!(plan.operation, ArchivePlanOperation::Add);
    assert_eq!(plan.added, 1);
    assert_eq!(plan.replaced, 1);
    assert_eq!(plan.preserved, 1);
    assert_eq!(plan.files, plan.added + plan.replaced + plan.preserved);
    let actions: Vec<ArchivePlanAction> = plan.entries.iter().map(|e| e.action).collect();
    assert_eq!(actions, vec![ArchivePlanAction::Add, ArchivePlanAction::Replace, ArchivePlanAction::Preserve]);
    assert_eq!(plan.entries[2].path, "keep.txt");
    assert_eq!(plan.entries[2].source, None);
    assert_eq!(plan.entries[2].size, Some(4));
}

#[test]
fn dx10_add_plans_check_extensions() {
    let base = create_archive(&vec![input("keep.txt", b"keep")], &CreateOptions::default()).unwrap();
    let options = AddOptions { inputs: vec![vec![input("a.dds", b"x")]], output: Some("o.bsa".to_string()) };
    assert!(plan_add("base.bsa", base.bytes, &options).is_ok());
}

#[test]
fn extension_check_reads_the_file_name_like_path() {
    assert!(has_extension(b"textures/a.dds", b"dds"));
    assert!(has_extension(b"textures/a.DDS", b"dds"));
    assert!(has_extension(b"textures/a.dds/", b"dds"));
    assert!(has_extension(b"textures/a.dds/.", b"dds"));
    assert!(has_extension(b"textures/a.dds//./", b"dds"));
    assert!(has_extension(b"a.b.gnf", b"gnf"));
    assert!(!has_extension(b"textures/.dds", b"dds"));
    assert!(!has_extension(b"textures/a.dds/..", b"dds"));
    assert!(!has_extension(b"textures/a", b"dds"));
    assert!(!has_extension(b"textures.dds/a", b"dds"));
    assert!(!has_extension(b"", b"dds"));
    assert!(!has_extension(b"a.ddss", b"dds"));
    for path in ["textures/a.dds/", "textures/a.dds/.", "textures/.dds", "textures/a.dds/..", "a.b.gnf", "x/y.", "."] {
        let expected = std::path::Path::new(path).extension().map(|e| e.to_str().unwrap().to_string());
        let has_dds = expected.as_deref().is_some_and(|e| e.eq_ignore_ascii_case("dds"));
        assert_eq!(has_extension(path.as_bytes(), b"dds"), has_dds, "{path}");
    }
}

#[test]
fn loaded_entries_are_normalized_and_counted() {
    let bytes = tes3_bytes(&[("Textures\\A.DDS", b"a"), ("meshes/b.nif", b"b")]);
    let archive = LoadedArchive::open("test.bsa", bytes).unwrap();
    let entries = archive.list_loaded_entries();

    assert_eq!(entries.len(), archive.named_entry_count());
    assert!(entries.len() <= archive.file_count());
    assert_eq!(entries.len() < archive.file_count(), archive.has_unnameable_entries());
    for entry in entries {
        assert_eq!(normalize_archive_path_bytes_for_test(&entry.path), entry.path);
        assert!(entry.size.is_some());
        assert_eq!(entry.compressed_size, None);
    }
}

fn normalize_archive_path_bytes_for_test(path: &[u8]) -> Vec<u8> {
    dream_archivetool::normalize_archive_path_bytes(path)
}

#[test]
fn extract_all_does_what_its_dry_run_said() {
    for mode in [OverwriteMode::Skip, OverwriteMode::Overwrite] {
        let existing = vec![true, false];
        let plan = plan_extract_all("test.bsa", multi_archive(), &out_all_options(mode), &existing).unwrap();
        let job = extract_all("test.bsa", multi_archive(), &out_all_options(mode), &existing).unwrap();
        let skips = plan.entries.iter().filter(|e| e.action == ExtractPlanAction::Skip).count();
        let writes = plan.entries.len() - skips;
        assert_eq!(job.skipped, skips);
        assert_eq!(job.writes.len(), writes);
    }
}

#[test]
fn every_listed_hex_key_reads_its_entry() {
    let bytes = tes3_bytes(&[("textures/a.dds", b"a"), ("Meshes\\B.NIF", b"b")]);
    for entry in ArchiveTool::list("test.bsa", bytes.clone()).unwrap() {
        let key = dream_archivetool::decode_archive_path_hex(&entry.path_bytes_hex).unwrap();
        let by_bytes = ArchiveTool::read_entry_by_path("test.bsa", bytes.clone(), &key).unwrap();
        let by_text = ArchiveTool::read_entry("test.bsa", bytes.clone(), &entry.path).unwrap();
        assert_eq!(by_bytes, by_text);
    }
    match ArchiveTool::read_entry_by_path("test.bsa", bytes, b"textures/missing.dds") {
        Err(ArchiveError::EntryNotFound(m)) => assert_eq!(m, "textures/missing.dds"),
        other => panic!("unexpected {other:?}"),
    }
}

#[test]
fn created_archives_read_back_every_file() {
    for options in [
        CreateOptions { format: ArchiveFormat::Tes3, ..Default::default() },
        CreateOptions { format: ArchiveFormat::Tes4, ..Default::default() },
        CreateOptions { format: ArchiveFormat::Fo4, ..Default::default() },
    ] {
        let files = vec![input("textures/a.dds", b"first"), input("meshes/sub/b.nif", b"second")];
        let written = create_archive(&files, &options).unwrap();
        assert_eq!(written.files, 2);
        assert_eq!(ArchiveTool::read_entry_by_path("out", written.bytes.clone(), b"textures/a.dds").unwrap(), b"first");
        assert_eq!(ArchiveTool::read_entry_by_path("out", written.bytes, b"meshes/sub/b.nif").unwrap(), b"second");
    }
}

#[test]
fn an_update_without_inputs_is_refused() {
    let base = create_archive(&vec![input("keep.txt", b"keep")], &CreateOptions::default()).unwrap();
    let options = AddOptions { inputs: vec![], output: None };
    match add_to_archive("base.bsa", base.bytes.clone(), &options) {
        Err(ArchiveError::Archive(m)) => assert_eq!(m, "no input files supplied"),
        other => panic!("unexpected {other:?}"),
    }
    assert!(plan_add("base.bsa", base.bytes, &options).is_err());
}

#[test]
fn streaming_steps_write_what_the_job_writes() {
    use_steps();
}

fn use_steps() {
    let archive = LoadedArchive::open("test.bsa", multi_archive()).unwrap();
    let options = out_all_options(OverwriteMode::Skip);
    let existing = vec![true, false];
    let steps = dream_archivetool::extract::extract_all_steps_from_loaded_archive(&archive, &options, &existing).unwrap();
    let job = extract_all("test.bsa", multi_archive(), &options, &existing).unwrap();
    assert_eq!(steps.iter().filter(|s| s.skip).count(), job.skipped);
    let mut writes = Vec::new();
    for step in steps.iter().filter(|s| !s.skip) {
        writes.push((step.target.clone(), dream_archivetool::extract::read_step_payload(&archive, step).unwrap()));
    }
    let expected: Vec<(Vec<u8>, Vec<u8>)> = job.writes.iter().map(|w| (w.target.clone(), w.payload.clone())).collect();
    assert_eq!(writes, expected);
}
