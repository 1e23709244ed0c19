//! Option values as the Lua table API spells them: names of formats, versions,
//! BA2 kinds and overwrite modes, with the defaults for a missing field, and
//! the create options that a table's fields select.

use vstd::prelude::*;
use vstd::string::*;

use crate::byte_map::{compare_bytes, ByteOrder};
use crate::create::{CreateOptions, Fo4ArchiveKind, Fo4Version, Tes4Version};
use crate::error::{ArchiveError, Result};
use crate::extract::OverwriteMode;
use crate::format::{format_name, spec_format_name, ArchiveFormat};

verus! {

/// The text of an optional field, or `default` when the field is missing.
pub open spec fn field_or(value: Option<&str>, default: Seq<char>) -> Seq<char> {
    match value {
        Some(s) => s@,
        None => default,
    }
}

/// What parsing a name gives: the value it names, or an archive error whose
/// text is `prefix` followed by the name.
pub open spec fn named_outcome<T>(found: Option<T>, prefix: Seq<char>, name: Seq<char>, r: Result<T>) -> bool {
    match found {
        Some(v) => r matches Ok(x) && x == v,
        None => r matches Err(ArchiveError::Archive(m)) && m@ == prefix + name,
    }
}

/// Whether two texts are the same characters.
pub(crate) fn text_is(value: &str, expected: &str) -> (b: bool)
    ensures
        b == (value@ == expected@),
{
    let a = value.as_bytes();
    let e = expected.as_bytes();
    proof {
        vstd::utf8::encode_utf8_decode_utf8(value@);
        vstd::utf8::encode_utf8_decode_utf8(expected@);
    }
    compare_bytes(a, e) == ByteOrder::Equal
}

/// Build the error text `prefix` + `name`.
fn unknown_name<T>(prefix: &str, name: &str) -> (r: Result<T>)
    ensures
        r matches Err(ArchiveError::Archive(m)) && m@ == prefix@ + name@,
{
    let mut message = String::from_str(prefix);
    message.append(name);
    Err(ArchiveError::Archive(message))
}

pub open spec fn spec_format_named(name: Seq<char>) -> Option<ArchiveFormat> {
    if name == "tes3"@ {
        Some(ArchiveFormat::Tes3)
    } else if name == "tes4"@ {
        Some(ArchiveFormat::Tes4)
    } else if name == "ba2"@ {
        Some(ArchiveFormat::Fo4)
    } else {
        None
    }
}

/// The archive family named by `value`; `tes3` when it is missing.
pub fn parse_format(value: Option<&str>) -> (r: Result<ArchiveFormat>)
    ensures
        named_outcome(spec_format_named(field_or(value, "tes3"@)), "unknown archive format: "@, field_or(value, "tes3"@), r),
{
    let name = match value {
        Some(s) => s,
        None => "tes3",
    };
    if text_is(name, "tes3") {
        Ok(ArchiveFormat::Tes3)
    } else if text_is(name, "tes4") {
        Ok(ArchiveFormat::Tes4)
    } else if text_is(name, "ba2") {
        Ok(ArchiveFormat::Fo4)
    } else {
        unknown_name("unknown archive format: ", name)
    }
}

/// The name a format is shown by is the name that selects it.
pub proof fn law_format_name_selects_format(format: ArchiveFormat)
    ensures
        spec_format_named(spec_format_name(format)) == Some(format),
{
    reveal_strlit("tes3");
    reveal_strlit("tes4");
    reveal_strlit("ba2");
    assert("tes4"@[3] != "tes3"@[3]);
    assert("ba2"@.len() != "tes3"@.len());
    assert("ba2"@.len() != "tes4"@.len());
}

pub open spec fn spec_tes4_version_named(name: Seq<char>) -> Option<Tes4Version> {
    if name == "oblivion"@ {
        Some(Tes4Version::Oblivion)
    } else if name == "fallout3"@ || name == "fallout-3"@ {
        Some(Tes4Version::Fallout3)
    } else if name == "skyrim"@ {
        Some(Tes4Version::Skyrim)
    } else if name == "skyrim-se"@ || name == "sse"@ {
        Some(Tes4Version::SkyrimSe)
    } else {
        None
    }
}

/// The TES4 version named by `value`; `oblivion` when it is missing.
pub fn parse_tes4_version(value: Option<&str>) -> (r: Result<Tes4Version>)
    ensures
        named_outcome(spec_tes4_version_named(field_or(value, "oblivion"@)), "unknown TES4 version: "@, field_or(value, "oblivion"@), r),
{
    let name = match value {
        Some(s) => s,
        None => "oblivion",
    };
    if text_is(name, "oblivion") {
        Ok(Tes4Version::Oblivion)
    } else if text_is(name, "fallout3") || text_is(name, "fallout-3") {
        Ok(Tes4Version::Fallout3)
    } else if text_is(name, "skyrim") {
        Ok(Tes4Version::Skyrim)
    } else if text_is(name, "skyrim-se") || text_is(name, "sse") {
        Ok(Tes4Version::SkyrimSe)
    } else {
        unknown_name("unknown TES4 version: ", name)
    }
}

pub open spec fn spec_ba2_kind_named(name: Seq<char>) -> Option<Fo4ArchiveKind> {
    if name == "gnrl"@ {
        Some(Fo4ArchiveKind::Gnrl)
    } else if name == "dx10"@ {
        Some(Fo4ArchiveKind::Dx10)
    } else if name == "gnmf"@ {
        Some(Fo4ArchiveKind::Gnmf)
    } else {
        None
    }
}

/// The BA2 kind named by `value`; `gnrl` when it is missing.
pub fn parse_ba2_kind(value: Option<&str>) -> (r: Result<Fo4ArchiveKind>)
    ensures
        named_outcome(spec_ba2_kind_named(field_or(value, "gnrl"@)), "unknown BA2 kind: "@, field_or(value, "gnrl"@), r),
{
    let name = match value {
        Some(s) => s,
        None => "gnrl",
    };
    if text_is(name, "gnrl") {
        Ok(Fo4ArchiveKind::Gnrl)
    } else if text_is(name, "dx10") {
        Ok(Fo4ArchiveKind::Dx10)
    } else if text_is(name, "gnmf") {
        Ok(Fo4ArchiveKind::Gnmf)
    } else {
        unknown_name("unknown BA2 kind: ", name)
    }
}

pub open spec fn spec_ba2_version_named(name: Seq<char>) -> Option<Fo4Version> {
    if name == "fallout4"@ || name == "fallout-4"@ {
        Some(Fo4Version::Fallout4)
    } else if name == "starfield"@ {
        Some(Fo4Version::Starfield)
    } else if name == "fallout4-next-gen"@ || name == "fallout-4-next-gen"@ {
        Some(Fo4Version::Fallout4NextGen)
    } else {
        None
    }
}

/// The BA2 version named by `value`; `fallout4` when it is missing.
pub fn parse_ba2_version(value: Option<&str>) -> (r: Result<Fo4Version>)
    ensures
        named_outcome(spec_ba2_version_named(field_or(value, "fallout4"@)), "unknown BA2 version: "@, field_or(value, "fallout4"@), r),
{
    let name = match value {
        Some(s) => s,
        None => "fallout4",
    };
    if text_is(name, "fallout4") || text_is(name, "fallout-4") {
        Ok(Fo4Version::Fallout4)
    } else if text_is(name, "starfield") {
        Ok(Fo4Version::Starfield)
    } else if text_is(name, "fallout4-next-gen") || text_is(name, "fallout-4-next-gen") {
        Ok(Fo4Version::Fallout4NextGen)
    } else {
        unknown_name("unknown BA2 version: ", name)
    }
}

pub open spec fn spec_overwrite_named(name: Seq<char>) -> Option<OverwriteMode> {
    if name == "fail"@ {
        Some(OverwriteMode::Fail)
    } else if name == "overwrite"@ {
        Some(OverwriteMode::Overwrite)
    } else if name == "skip"@ {
        Some(OverwriteMode::Skip)
    } else {
        None
    }
}

/// The overwrite mode named by `value`; `fail` when it is missing.
pub fn parse_overwrite(value: Option<&str>) -> (r: Result<OverwriteMode>)
    ensures
        named_outcome(spec_overwrite_named(field_or(value, "fail"@)), "unknown overwrite mode: "@, field_or(value, "fail"@), r),
{
    let name = match value {
        Some(s) => s,
        None => "fail",
    };
    if text_is(name, "fail") {
        Ok(OverwriteMode::Fail)
    } else if text_is(name, "overwrite") {
        Ok(OverwriteMode::Overwrite)
    } else if text_is(name, "skip") {
        Ok(OverwriteMode::Skip)
    } else {
        unknown_name("unknown overwrite mode: ", name)
    }
}

pub open spec fn field_not_valid_text(field: Seq<char>, format: ArchiveFormat) -> Seq<char> {
    field + " is not valid with format "@ + spec_format_name(format)
}

/// Refuse a table field that was supplied but does not apply to `format`.
pub fn reject_irrelevant_field(field: &str, supplied: bool, format: ArchiveFormat) -> (r: Result<()>)
    ensures
        r is Ok <==> !supplied,
        r matches Err(e) ==> e matches ArchiveError::Archive(m) && m@ == field_not_valid_text(field@, format),
{
    if supplied {
        let mut message = String::from_str(field);
        message.append(" is not valid with format ");
        message.append(format_name(format));
        return Err(ArchiveError::Archive(message));
    }
    Ok(())
}

/// The text fields of a create-options table.
pub struct CreateFields {
    pub format: Option<String>,
    pub tes4_version: Option<String>,
    pub ba2_kind: Option<String>,
    pub ba2_version: Option<String>,
}

pub open spec fn opt_text(value: Option<String>) -> Option<Seq<char>> {
    match value {
        Some(s) => Some(s@),
        None => None,
    }
}

pub open spec fn text_or(value: Option<String>, default: Seq<char>) -> Seq<char> {
    match value {
        Some(s) => s@,
        None => default,
    }
}

/// The first field, in table order, that is supplied but does not apply to
/// `format`: TES3 takes none of the three, TES4 only its version, BA2 only
/// its kind and version.
pub open spec fn irrelevant_field(fields: CreateFields, format: ArchiveFormat) -> Option<Seq<char>> {
    let tes4 = fields.tes4_version is Some && format != ArchiveFormat::Tes4;
    let kind = fields.ba2_kind is Some && format != ArchiveFormat::Fo4;
    let version = fields.ba2_version is Some && format != ArchiveFormat::Fo4;
    if format == ArchiveFormat::Tes4 {
        if kind {
            Some("ba2_kind"@)
        } else if version {
            Some("ba2_version"@)
        } else {
            None
        }
    } else if tes4 {
        Some("tes4_version"@)
    } else if kind {
        Some("ba2_kind"@)
    } else if version {
        Some("ba2_version"@)
    } else {
        None
    }
}

/// What a create-options table gives: an unknown format name first, then the
/// first field that does not apply to the format, then an unknown TES4
/// version, BA2 kind or BA2 version name, in that order; otherwise the named
/// values, with the defaults for the missing fields.
pub open spec fn create_fields_outcome(fields: CreateFields, r: Result<CreateOptions>) -> bool {
    let format_name = text_or(fields.format, "tes3"@);
    let tes4_name = text_or(fields.tes4_version, "oblivion"@);
    let kind_name = text_or(fields.ba2_kind, "gnrl"@);
    let version_name = text_or(fields.ba2_version, "fallout4"@);
    match spec_format_named(format_name) {
        None => r matches Err(ArchiveError::Archive(m)) && m@ == "unknown archive format: "@ + format_name,
        Some(format) => match irrelevant_field(fields, format) {
            Some(field) => r matches Err(ArchiveError::Archive(m)) && m@ == field_not_valid_text(field, format),
            None => match (
                spec_tes4_version_named(tes4_name),
                spec_ba2_kind_named(kind_name),
                spec_ba2_version_named(version_name),
            ) {
                (None, _, _) => r matches Err(ArchiveError::Archive(m)) && m@ == "unknown TES4 version: "@ + tes4_name,
                (Some(_), None, _) => r matches Err(ArchiveError::Archive(m)) && m@ == "unknown BA2 kind: "@ + kind_name,
                (Some(_), Some(_), None) => r matches Err(ArchiveError::Archive(m)) && m@ == "unknown BA2 version: "@
                    + version_name,
                (Some(tes4_version), Some(fo4_kind), Some(fo4_version)) => r matches Ok(o) && o == (CreateOptions {
                    format,
                    tes4_version,
                    fo4_kind,
                    fo4_version,
                }),
            },
        },
    }
}

fn as_text(value: &Option<String>) -> (r: Option<&str>)
    ensures
        r is Some <==> value is Some,
        r matches Some(s) ==> value matches Some(v) && s@ == v@,
{
    match value {
        Some(s) => Some(s.as_str()),
        None => None,
    }
}

/// Create options from the text fields of a table.
pub fn create_options_from_fields(fields: &CreateFields) -> (r: Result<CreateOptions>)
    ensures
        create_fields_outcome(*fields, r),
{
    proof {
        reveal_strlit("tes4_version");
        reveal_strlit("ba2_kind");
        reveal_strlit("ba2_version");
    }
    let format = parse_format(as_text(&fields.format))?;
    let tes4_supplied = fields.tes4_version.is_some();
    let kind_supplied = fields.ba2_kind.is_some();
    let version_supplied = fields.ba2_version.is_some();
    match format {
        ArchiveFormat::Tes3 => {
            reject_irrelevant_field("tes4_version", tes4_supplied, format)?;
            reject_irrelevant_field("ba2_kind", kind_supplied, format)?;
            reject_irrelevant_field("ba2_version", version_supplied, format)?;
        },
        ArchiveFormat::Tes4 => {
            reject_irrelevant_field("ba2_kind", kind_supplied, format)?;
            reject_irrelevant_field("ba2_version", version_supplied, format)?;
        },
        ArchiveFormat::Fo4 => {
            reject_irrelevant_field("tes4_version", tes4_supplied, format)?;
        },
    }
    let tes4_version = parse_tes4_version(as_text(&fields.tes4_version))?;
    let fo4_kind = parse_ba2_kind(as_text(&fields.ba2_kind))?;
    let fo4_version = parse_ba2_version(as_text(&fields.ba2_version))?;
    Ok(CreateOptions { format, tes4_version, fo4_kind, fo4_version })
}

} // verus!
