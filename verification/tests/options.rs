use dream_archivetool::extract::directory_sync_targets_for_create;
use dream_archivetool::options::{create_options, decode_hex_entry, entry_selector, overwrite_mode, reject_irrelevant_create_option};
use dream_archivetool::{ArchiveError, ArchiveFormat, ArchiveTool, Fo4ArchiveKind, Fo4Version, OverwriteMode, Tes4Version};

#[test]
fn create_options_reject_options_of_other_formats() {
    match create_options(ArchiveFormat::Tes3, Some(Tes4Version::Skyrim), None, None) {
        Err(ArchiveError::Archive(m)) => assert_eq!(m, "--tes4-version is not valid with --format tes3"),
        other => panic!("unexpected {other:?}"),
    }
    match create_options(ArchiveFormat::Tes4, None, Some(Fo4ArchiveKind::Dx10), None) {
        Err(ArchiveError::Archive(m)) => assert_eq!(m, "--ba2-kind is not valid with --format tes4"),
        other => panic!("unexpected {other:?}"),
    }
    match create_options(ArchiveFormat::Fo4, Some(Tes4Version::Oblivion), None, None) {
        Err(ArchiveError::Archive(m)) => assert_eq!(m, "--tes4-version is not valid with --format ba2"),
        other => panic!("unexpected {other:?}"),
    }
    match create_options(ArchiveFormat::Tes3, None, None, Some(Fo4Version::Starfield)) {
        Err(ArchiveError::Archive(m)) => assert_eq!(m, "--ba2-version is not valid with --format tes3"),
        other => panic!("unexpected {other:?}"),
    }
}

#[test]
fn create_options_fill_in_defaults() {
    let options = create_options(ArchiveFormat::Fo4, None, Some(Fo4ArchiveKind::Dx10), None).unwrap();
    assert_eq!(options.format, ArchiveFormat::Fo4);
    assert_eq!(options.fo4_kind, Fo4ArchiveKind::Dx10);
    assert_eq!(options.fo4_version, Fo4Version::Fallout4);
    assert_eq!(options.tes4_version, Tes4Version::Oblivion);

    let options = create_options(ArchiveFormat::Tes4, Some(Tes4Version::SkyrimSe), None, None).unwrap();
    assert_eq!(options.tes4_version, Tes4Version::SkyrimSe);
    assert!(reject_irrelevant_create_option("--x", false, ArchiveFormat::Tes3).is_ok());
}

#[test]
fn overwrite_flags_combine() {
    assert_eq!(overwrite_mode(true, true), OverwriteMode::Overwrite);
    assert_eq!(overwrite_mode(false, true), OverwriteMode::Skip);
    assert_eq!(overwrite_mode(false, false), OverwriteMode::Fail);
}

#[test]
fn entries_can_be_selected_by_hex() {
    assert_eq!(decode_hex_entry("6869").unwrap(), b"hi".to_vec());
    match decode_hex_entry("686") {
        Err(ArchiveError::Archive(m)) => assert_eq!(m, "--entry-hex must contain an even number of hexadecimal digits"),
        other => panic!("unexpected {other:?}"),
    }
    match decode_hex_entry("zz") {
        Err(ArchiveError::Archive(m)) => assert_eq!(m, "--entry-hex contains a non-hexadecimal digit"),
        other => panic!("unexpected {other:?}"),
    }
    assert_eq!(entry_selector(Some(b"a".to_vec()), Some("62".to_string())).unwrap(), b"b".to_vec());
    assert_eq!(entry_selector(Some(b"a".to_vec()), None).unwrap(), b"a".to_vec());
    assert!(matches!(entry_selector(None, None), Err(ArchiveError::Archive(_))));
}

#[test]
fn fsync_directory_plan_includes_new_directory_parents() {
    let ancestors = vec![
        b"dir/a/b/c".to_vec(),
        b"dir/a/b".to_vec(),
        b"dir/a".to_vec(),
        b"dir".to_vec(),
        b"".to_vec(),
    ];
    let exists = vec![false, false, false, true, true];

    let plan = directory_sync_targets_for_create(&ancestors, &exists);

    assert!(plan.contains(&b"dir/a/b".to_vec()));
    assert!(plan.contains(&b"dir/a".to_vec()));
    assert!(plan.contains(&b"dir".to_vec()));
    assert_eq!(plan.len(), 3);
}

#[test]
fn fsync_directory_plan_stops_at_the_root() {
    let ancestors = vec![b"a/b".to_vec(), b"a".to_vec(), b"".to_vec()];
    let plan = directory_sync_targets_for_create(&ancestors, &vec![false, false, false]);
    assert_eq!(plan, vec![b"a".to_vec(), b"".to_vec()]);
    assert!(directory_sync_targets_for_create(&vec![b"x".to_vec()], &vec![true]).is_empty());
}

fn example_archive() -> Vec<u8> {
    let mut builder = dream_archive::Tes3BsaBuilder::new();
    builder.add_bytes("icons/example.dds", b"payload").unwrap();
    builder.to_vec().unwrap()
}

#[test]
fn cli_create_command_rejects_irrelevant_format_options() {
    let err = create_options(ArchiveFormat::Tes3, None, Some(Fo4ArchiveKind::Dx10), None).unwrap_err();
    assert!(err.message().contains("--ba2-kind is not valid with --format tes3"));
}

#[test]
fn mod_create_command_rejects_irrelevant_format_options() {
    match create_options(ArchiveFormat::Tes3, None, Some(Fo4ArchiveKind::Dx10), None) {
        Err(ArchiveError::Archive(m)) => assert_eq!(m, "--ba2-kind is not valid with --format tes3"),
        other => panic!("unexpected {other:?}"),
    }
}

#[test]
fn cli_invalid_entry_hex_is_rejected() {
    let err = entry_selector(None, Some("abc".to_string())).unwrap_err();
    assert!(err.message().contains("even number"));
}

#[test]
fn mod_invalid_entry_hex_is_rejected() {
    let err = decode_hex_entry("abc").unwrap_err();
    assert!(err.message().contains("even number"));
}

#[test]
fn cli_extract_command_accepts_entry_hex() {
    let entry = entry_selector(None, Some("69636f6e732f6578616d706c652e646473".to_string())).unwrap();
    assert_eq!(entry, b"icons/example.dds".to_vec());
    let mut stdout = Vec::new();
    ArchiveTool::extract_entry_path_to_writer("test.bsa", example_archive(), &entry, &mut stdout).unwrap();
    assert_eq!(stdout, b"payload");
}

#[test]
fn cli_list_command_can_write_json() {
    let entries = ArchiveTool::list("test.bsa", example_archive()).unwrap();
    let entry = entries.iter().find(|entry| entry.path == "icons/example.dds").unwrap();
    assert_eq!(entry.path_bytes_hex, "69636f6e732f6578616d706c652e646473");
}
