use dream_archivetool::create::{path_to_archive_bytes, PathPart};
use dream_archivetool::path::{decode_archive_path_hex, encode_archive_path_hex, normalize_archive_path_bytes};
use dream_archivetool::paths::{
    archive_path_bytes_to_display, ensure_platform_target_path_bytes, flat_target_path_normalized, normalize_lookup_archive_path_bytes,
    normalize_safe_archive_path_bytes, safe_target_path_normalized,
    validate_archive_path_bytes_for_extraction,
};
use dream_archivetool::ArchiveError;

#[test]
fn rejects_traversal_paths() {
    let err = safe_target_path_normalized(b"out", b"../evil.txt").unwrap_err();
    assert!(matches!(err, ArchiveError::UnsafePath(_)));

    let err = safe_target_path_normalized(b"out", b"/evil.txt").unwrap_err();
    assert!(matches!(err, ArchiveError::UnsafePath(_)));

    let err = safe_target_path_normalized(b"out", b"textures/../../evil.txt").unwrap_err();
    assert!(matches!(err, ArchiveError::UnsafePath(_)));

    let err = safe_target_path_normalized(b"out", br"textures/../evil.txt").unwrap_err();
    assert!(matches!(err, ArchiveError::UnsafePath(_)));
}

#[test]
fn accepts_current_directory_components() {
    let path = safe_target_path_normalized(b"out", b"./textures/./example.dds").unwrap();
    assert_eq!(path, b"out/textures/example.dds".to_vec());
}

#[test]
fn rejects_paths_that_are_not_safe_on_common_targets() {
    for path in [
        b"".as_slice(),
        b"/absolute.txt",
        b"textures/../evil.txt",
        b"textures/has\0nul.txt",
        b"C:/evil.txt",
        b"C:evil.txt",
        b".",
        b"./.",
        b".\\.",
    ] {
        assert!(validate_archive_path_bytes_for_extraction(path).is_err());
    }
}

#[test]
fn rejects_dot_only_normalized_targets() {
    for path in [b".".as_slice(), b"./.", b".\\."] {
        assert!(safe_target_path_normalized(b"out", path).is_err());
    }
}

#[test]
fn normalization_lowercases_and_unifies_separators() {
    assert_eq!(normalize_archive_path_bytes(br"\Textures\\Foo//BAR.DDS"), b"textures/foo/bar.dds".to_vec());
    assert_eq!(normalize_archive_path_bytes(b""), Vec::<u8>::new());
    assert_eq!(normalize_archive_path_bytes(b"caf\xc3\xa9/A"), b"caf\xc3\xa9/a".to_vec());
}

#[test]
fn normalization_is_idempotent_on_examples() {
    for path in [b"A\\B//C".as_slice(), b"//x/Y/", b"plain.txt", b"\xffBAD\\Name"] {
        let once = normalize_archive_path_bytes(path);
        assert_eq!(normalize_archive_path_bytes(&once), once);
    }
}

#[test]
fn hex_round_trips_arbitrary_bytes() {
    let path = b"textures/bad-\xff\x00.dds";
    let hex = encode_archive_path_hex(path);
    assert_eq!(hex, "74657874757265732f6261642dff002e646473");
    assert_eq!(decode_archive_path_hex(&hex).unwrap(), path.to_vec());
    assert_eq!(decode_archive_path_hex("4A4b").unwrap(), b"JK".to_vec());
}

#[test]
fn hex_decoding_rejects_odd_length_and_bad_digits() {
    match decode_archive_path_hex("abc") {
        Err(ArchiveError::Archive(m)) => assert!(m.contains("even")),
        other => panic!("unexpected {other:?}"),
    }
    assert!(matches!(decode_archive_path_hex("zz"), Err(ArchiveError::Archive(_))));
    assert_eq!(decode_archive_path_hex("").unwrap(), Vec::<u8>::new());
}

#[test]
fn display_replaces_invalid_utf8() {
    assert_eq!(archive_path_bytes_to_display(b"textures/a.dds"), "textures/a.dds");
    assert_eq!(archive_path_bytes_to_display(b"bad-\xff.dds"), "bad-\u{fffd}.dds");
}

#[test]
fn flat_targets_keep_only_the_file_name() {
    assert_eq!(flat_target_path_normalized(b"out", b"textures/example.dds").unwrap(), b"out/example.dds".to_vec());
    assert_eq!(flat_target_path_normalized(b"out/", b"a/b/c.nif").unwrap(), b"out/c.nif".to_vec());
    assert!(flat_target_path_normalized(b"out", b"../x").is_err());
}

#[test]
fn nested_targets_join_under_the_root() {
    assert_eq!(safe_target_path_normalized(b".", b"meshes/b.nif").unwrap(), b"./meshes/b.nif".to_vec());
    assert_eq!(safe_target_path_normalized(b"", b"a/b").unwrap(), b"a/b".to_vec());
    assert_eq!(safe_target_path_normalized(b"out/", b"a").unwrap(), b"out/a".to_vec());
}

#[test]
fn lookup_and_safe_normalization_report_unsafe_paths() {
    assert_eq!(normalize_lookup_archive_path_bytes(b"A\\B").unwrap(), b"a/b".to_vec());
    assert!(matches!(normalize_lookup_archive_path_bytes(b"///"), Err(ArchiveError::UnsafePath(_))));
    assert!(matches!(normalize_lookup_archive_path_bytes(b"a\0b"), Err(ArchiveError::UnsafePath(_))));
    assert_eq!(normalize_safe_archive_path_bytes(b"Textures//A.dds").unwrap(), b"textures/a.dds".to_vec());
    match normalize_safe_archive_path_bytes(b"../x") {
        Err(ArchiveError::UnsafePath(m)) => assert_eq!(m, "../x"),
        other => panic!("unexpected {other:?}"),
    }
}

#[test]
fn input_paths_become_normalized_archive_paths() {
    let parts = vec![PathPart::Normal(b"Textures".to_vec()), PathPart::Normal(b"Example.DDS".to_vec())];
    assert_eq!(path_to_archive_bytes(&parts, "Textures/Example.DDS").unwrap(), b"textures/example.dds".to_vec());

    let parts = vec![PathPart::Other, PathPart::Normal(b"x".to_vec())];
    match path_to_archive_bytes(&parts, "../x") {
        Err(ArchiveError::UnsafePath(m)) => assert_eq!(m, "../x"),
        other => panic!("unexpected {other:?}"),
    }

    let parts = vec![PathPart::Normal(b"C:".to_vec()), PathPart::Normal(b"x".to_vec())];
    assert!(matches!(path_to_archive_bytes(&parts, "C:/x"), Err(ArchiveError::UnsafePath(_))));
}

#[test]
fn error_messages_name_their_kind() {
    assert_eq!(ArchiveError::UnknownFormat.message(), "unsupported or unrecognized archive format");
    assert_eq!(ArchiveError::EntryNotFound("a".to_string()).message(), "archive entry not found: a");
    assert_eq!(ArchiveError::UnsafePath("b".to_string()).message(), "unsafe archive path: b");
    assert_eq!(ArchiveError::TargetExists("c".to_string()).message(), "target already exists: c");
    assert_eq!(ArchiveError::Archive("d".to_string()).message(), "archive error: d");
}

#[test]
fn unicode_hosts_refuse_components_they_cannot_store() {
    assert!(ensure_platform_target_path_bytes(b"textures/a.dds", true).is_ok());
    assert!(ensure_platform_target_path_bytes("textures/\u{e9}t\u{e9}.dds".as_bytes(), true).is_ok());
    match ensure_platform_target_path_bytes(b"a/\xff.dds", true) {
        Err(ArchiveError::UnsafePath(m)) => assert_eq!(m, "a/\u{fffd}.dds"),
        other => panic!("unexpected {other:?}"),
    }
    assert!(ensure_platform_target_path_bytes(b"a//b", true).is_err());
    assert!(ensure_platform_target_path_bytes(b"a/./b", true).is_err());
    assert!(ensure_platform_target_path_bytes(b"a/../b", true).is_err());
    assert!(ensure_platform_target_path_bytes(b"a/", true).is_err());
    assert!(ensure_platform_target_path_bytes(b"a/\xff.dds", false).is_ok());
}

#[test]
fn decoded_hex_encodes_back_in_lowercase() {
    let decoded = decode_archive_path_hex("74657874757265732F4578616D706C652E646473").unwrap();
    assert_eq!(encode_archive_path_hex(&decoded), "74657874757265732f4578616d706c652e646473");
}
