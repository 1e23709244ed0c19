use dream_archivetool::lua_options::{
    create_options_from_fields, parse_ba2_kind, parse_ba2_version, parse_format, parse_overwrite,
    parse_tes4_version, reject_irrelevant_field, CreateFields,
};
use dream_archivetool::format::format_name;
use dream_archivetool::{ArchiveError, ArchiveFormat, Fo4ArchiveKind, Fo4Version, OverwriteMode, Tes4Version};

fn archive_message<T: std::fmt::Debug>(r: Result<T, ArchiveError>) -> String {
    match r {
        Err(ArchiveError::Archive(m)) => m,
        other => panic!("unexpected {other:?}"),
    }
}

fn fields(format: Option<&str>, tes4: Option<&str>, kind: Option<&str>, version: Option<&str>) -> CreateFields {
    CreateFields {
        format: format.map(str::to_string),
        tes4_version: tes4.map(str::to_string),
        ba2_kind: kind.map(str::to_string),
        ba2_version: version.map(str::to_string),
    }
}

#[test]
fn lua_names_parse_with_defaults() {
    assert_eq!(parse_format(None).unwrap(), ArchiveFormat::Tes3);
    assert_eq!(parse_format(Some("tes4")).unwrap(), ArchiveFormat::Tes4);
    assert_eq!(parse_format(Some("ba2")).unwrap(), ArchiveFormat::Fo4);
    assert_eq!(parse_tes4_version(None).unwrap(), Tes4Version::Oblivion);
    assert_eq!(parse_tes4_version(Some("fallout-3")).unwrap(), Tes4Version::Fallout3);
    assert_eq!(parse_tes4_version(Some("fallout3")).unwrap(), Tes4Version::Fallout3);
    assert_eq!(parse_tes4_version(Some("skyrim")).unwrap(), Tes4Version::Skyrim);
    assert_eq!(parse_tes4_version(Some("sse")).unwrap(), Tes4Version::SkyrimSe);
    assert_eq!(parse_tes4_version(Some("skyrim-se")).unwrap(), Tes4Version::SkyrimSe);
    assert_eq!(parse_ba2_kind(None).unwrap(), Fo4ArchiveKind::Gnrl);
    assert_eq!(parse_ba2_kind(Some("dx10")).unwrap(), Fo4ArchiveKind::Dx10);
    assert_eq!(parse_ba2_kind(Some("gnmf")).unwrap(), Fo4ArchiveKind::Gnmf);
    assert_eq!(parse_ba2_version(None).unwrap(), Fo4Version::Fallout4);
    assert_eq!(parse_ba2_version(Some("fallout-4")).unwrap(), Fo4Version::Fallout4);
    assert_eq!(parse_ba2_version(Some("starfield")).unwrap(), Fo4Version::Starfield);
    assert_eq!(parse_ba2_version(Some("fallout-4-next-gen")).unwrap(), Fo4Version::Fallout4NextGen);
    assert_eq!(parse_ba2_version(Some("fallout4-next-gen")).unwrap(), Fo4Version::Fallout4NextGen);
    assert_eq!(parse_overwrite(None).unwrap(), OverwriteMode::Fail);
    assert_eq!(parse_overwrite(Some("overwrite")).unwrap(), OverwriteMode::Overwrite);
    assert_eq!(parse_overwrite(Some("skip")).unwrap(), OverwriteMode::Skip);
}

#[test]
fn lua_unknown_names_are_refused_by_name() {
    assert_eq!(archive_message(parse_format(Some("zip"))), "unknown archive format: zip");
    assert_eq!(archive_message(parse_tes4_version(Some("morrowind"))), "unknown TES4 version: morrowind");
    assert_eq!(archive_message(parse_ba2_kind(Some("GNRL"))), "unknown BA2 kind: GNRL");
    assert_eq!(archive_message(parse_ba2_version(Some("fallout76"))), "unknown BA2 version: fallout76");
    assert_eq!(archive_message(parse_overwrite(Some("replace"))), "unknown overwrite mode: replace");
}

#[test]
fn lua_fields_that_do_not_fit_the_format_are_refused() {
    assert_eq!(
        archive_message(reject_irrelevant_field("ba2_kind", true, ArchiveFormat::Tes4)),
        "ba2_kind is not valid with format tes4"
    );
    assert!(reject_irrelevant_field("ba2_kind", false, ArchiveFormat::Tes4).is_ok());
    assert_eq!(
        archive_message(create_options_from_fields(&fields(None, Some("skyrim"), None, None))),
        "tes4_version is not valid with format tes3"
    );
    assert_eq!(
        archive_message(create_options_from_fields(&fields(Some("tes4"), None, None, Some("starfield")))),
        "ba2_version is not valid with format tes4"
    );
    assert_eq!(
        archive_message(create_options_from_fields(&fields(Some("ba2"), Some("skyrim"), None, None))),
        "tes4_version is not valid with format ba2"
    );
    // The format name is checked before the fields, and the fields before their values.
    assert_eq!(
        archive_message(create_options_from_fields(&fields(Some("bsa"), Some("x"), None, None))),
        "unknown archive format: bsa"
    );
    assert_eq!(
        archive_message(create_options_from_fields(&fields(Some("tes4"), Some("x"), Some("dx10"), None))),
        "ba2_kind is not valid with format tes4"
    );
    assert_eq!(
        archive_message(create_options_from_fields(&fields(Some("ba2"), None, Some("dx11"), Some("nope")))),
        "unknown BA2 kind: dx11"
    );
}

#[test]
fn lua_create_fields_select_options() {
    let options = create_options_from_fields(&fields(Some("ba2"), None, Some("dx10"), Some("starfield"))).unwrap();
    assert_eq!(options.format, ArchiveFormat::Fo4);
    assert_eq!(options.fo4_kind, Fo4ArchiveKind::Dx10);
    assert_eq!(options.fo4_version, Fo4Version::Starfield);
    assert_eq!(options.tes4_version, Tes4Version::Oblivion);

    let options = create_options_from_fields(&fields(Some("tes4"), Some("sse"), None, None)).unwrap();
    assert_eq!(options.format, ArchiveFormat::Tes4);
    assert_eq!(options.tes4_version, Tes4Version::SkyrimSe);
    assert_eq!(options.fo4_kind, Fo4ArchiveKind::Gnrl);

    let options = create_options_from_fields(&fields(None, None, None, None)).unwrap();
    assert_eq!(options.format, ArchiveFormat::Tes3);
}

#[test]
fn lua_format_names_select_their_format() {
    for format in [ArchiveFormat::Tes3, ArchiveFormat::Tes4, ArchiveFormat::Fo4] {
        assert_eq!(parse_format(Some(format_name(format))).unwrap(), format);
    }
}
