use dream_archivetool::diff::fnv1a64;
use dream_archivetool::{diff_archives, verify_archive, ArchiveFormat, DiffOptions, VerifyOptions};

fn tes3_bytes(entries: &[(&str, &[u8])]) -> Vec<u8> {
    let mut builder = dream_archive::Tes3BsaBuilder::new();
    for (path, payload) in entries {
        builder.add_bytes(path, payload).unwrap();
    }
    builder.to_vec().unwrap()
}

#[test]
fn fnv1a64_matches_reference_values() {
    assert_eq!(fnv1a64(b""), 0xcbf2_9ce4_8422_2325);
    assert_eq!(fnv1a64(b"a"), 0xaf63_dc4c_8601_ec8c);
}

#[test]
fn diff_reports_added_removed_and_changed_entries() {
    let old = tes3_bytes(&[("base.txt", b"base"), ("keep.txt", b"keep"), ("gone.txt", b"g")]);
    let new = tes3_bytes(&[("base.txt", b"changed!"), ("keep.txt", b"keep"), ("new.txt", b"n")]);

    let report = diff_archives("old.bsa", old, "new.bsa", new, &DiffOptions::default()).unwrap();

    assert_eq!(report.old, "old.bsa");
    assert_eq!(report.new, "new.bsa");
    assert!(!report.hash_payloads);
    assert_eq!(report.added.len(), 1);
    assert_eq!(report.added[0].path, "new.txt");
    assert_eq!(report.removed.len(), 1);
    assert_eq!(report.removed[0].path, "gone.txt");
    assert_eq!(report.changed.len(), 1);
    assert_eq!(report.changed[0].path, "base.txt");
    assert_eq!(report.changed[0].old.size, Some(4));
    assert_eq!(report.changed[0].new.size, Some(8));
    assert_eq!(report.unchanged, 1);
}

#[test]
fn diff_with_payload_fingerprintes_sees_same_size_changes() {
    let old = tes3_bytes(&[("a.txt", b"aaaa")]);
    let new = tes3_bytes(&[("a.txt", b"bbbb")]);

    let plain = diff_archives("old.bsa", old.clone(), "new.bsa", new.clone(), &DiffOptions::default()).unwrap();
    assert_eq!(plain.changed.len(), 0);
    assert_eq!(plain.unchanged, 1);

    let hashed = diff_archives("old.bsa", old, "new.bsa", new, &DiffOptions { hash_payloads: true }).unwrap();
    assert_eq!(hashed.changed.len(), 1);
    assert_eq!(hashed.changed[0].old.payload_fingerprint, Some(format!("{:016x}", fnv1a64(b"aaaa"))));
    assert_eq!(hashed.changed[0].new.payload_fingerprint, Some(format!("{:016x}", fnv1a64(b"bbbb"))));
}

#[test]
fn diff_of_an_archive_with_itself_is_unchanged() {
    let bytes = tes3_bytes(&[("a.txt", b"a"), ("b/c.nif", b"c")]);

    let report = diff_archives("x.bsa", bytes.clone(), "x.bsa", bytes, &DiffOptions { hash_payloads: true }).unwrap();

    assert!(report.added.is_empty());
    assert!(report.removed.is_empty());
    assert!(report.changed.is_empty());
    assert_eq!(report.unchanged, 2);
}

#[test]
fn verify_reads_every_payload_of_a_clean_archive() {
    let bytes = tes3_bytes(&[("textures/a.dds", b"a"), ("meshes/b.nif", b"b")]);

    let report = verify_archive("test.bsa", bytes, &VerifyOptions { read_payloads: true }).unwrap();

    assert_eq!(report.format, ArchiveFormat::Tes3);
    assert_eq!(report.file_count, 2);
    assert_eq!(report.named_entry_count, 2);
    assert_eq!(report.unnameable_entries, 0);
    assert_eq!(report.payloads_read, Some(2));
    assert!(report.duplicate_normalized_paths.is_empty());
    assert!(report.unsafe_paths.is_empty());
    assert!(report.warnings.is_empty());
    assert!(report.rewritable);
    assert_eq!(report.rewrite_blocker, None);
}

#[test]
fn verify_without_payloads_reports_none_read() {
    let bytes = tes3_bytes(&[("a.txt", b"a")]);

    let report = verify_archive("test.bsa", bytes, &VerifyOptions::default()).unwrap();

    assert_eq!(report.payloads_read, None);
    assert_eq!(report.path, "test.bsa");
}

#[test]
fn verify_refuses_unreadable_archives() {
    assert!(verify_archive("junk.bsa", b"junk".to_vec(), &VerifyOptions::default()).is_err());
}

/// A TES3 archive whose two raw names normalize to the same path.
fn duplicate_name_bytes() -> Vec<u8> {
    let mut bytes = tes3_bytes(&[("a.txt", b"a"), ("b.txt", b"b")]);
    let at = bytes.windows(6).position(|w| w == b"b.txt\0").unwrap();
    bytes[at..at + 5].copy_from_slice(b"A.TXT");
    bytes
}

#[test]
fn verify_skips_payload_reads_when_paths_collide() {
    let report = verify_archive("dup.bsa", duplicate_name_bytes(), &VerifyOptions { read_payloads: true }).unwrap();

    assert_eq!(report.duplicate_normalized_paths.len(), 1);
    assert_eq!(report.duplicate_normalized_paths[0].path, "a.txt");
    assert_eq!(report.payloads_read, None);
    assert_eq!(
        report.warnings,
        vec![
            "archive contains duplicate normalized paths".to_string(),
            "payload reads skipped: duplicate normalized paths prevent per-entry coverage".to_string(),
        ]
    );

    let report = verify_archive("dup.bsa", duplicate_name_bytes(), &VerifyOptions::default()).unwrap();
    assert_eq!(report.payloads_read, None);
    assert_eq!(report.warnings, vec!["archive contains duplicate normalized paths".to_string()]);
}

#[test]
fn swapping_the_sides_of_a_diff_swaps_the_report() {
    let old = tes3_bytes(&[("base.txt", b"base"), ("keep.txt", b"keep"), ("gone.txt", b"g")]);
    let new = tes3_bytes(&[("base.txt", b"changed!"), ("keep.txt", b"keep"), ("new.txt", b"n")]);

    let x = diff_archives("old.bsa", old.clone(), "new.bsa", new.clone(), &DiffOptions::default()).unwrap();
    let y = diff_archives("new.bsa", new, "old.bsa", old, &DiffOptions::default()).unwrap();

    assert_eq!(x.added.len(), y.removed.len());
    assert_eq!(x.added[0].path, y.removed[0].path);
    assert_eq!(x.removed[0].path, y.added[0].path);
    assert_eq!(x.unchanged, y.unchanged);
    assert_eq!(x.changed.len(), y.changed.len());
    assert_eq!(x.changed[0].old.size, y.changed[0].new.size);
    assert_eq!(x.changed[0].new.size, y.changed[0].old.size);
}
