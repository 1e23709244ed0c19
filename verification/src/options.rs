//! Turning command-line choices into operation options: which create options
//! fit which format, how the overwrite flags combine, and how an entry is
//! selected by path bytes or by hex.

use vstd::prelude::*;
use vstd::string::*;

use crate::create::{CreateOptions, Fo4ArchiveKind, Fo4Version, Tes4Version};
use crate::error::{ArchiveError, Result};
use crate::extract::OverwriteMode;
use crate::format::{format_name, spec_format_name, ArchiveFormat};
use crate::path::{decode_archive_path_hex, decode_outcome};

verus! {

pub open spec fn irrelevant_option_text(option: Seq<char>, format: ArchiveFormat) -> Seq<char> {
    option + " is not valid with --format "@ + spec_format_name(format)
}

/// Refuse an option that was supplied but does not apply to `format`.
pub fn reject_irrelevant_create_option(option: &str, supplied: bool, format: ArchiveFormat) -> (r: Result<()>)
    ensures
        r is Ok <==> !supplied,
        r matches Err(e) ==> e matches ArchiveError::Archive(m) && m@ == irrelevant_option_text(option@, format),
{
    if supplied {
        let mut message = String::from_str(option);
        message.append(" is not valid with --format ");
        message.append(format_name(format));
        proof {
            reveal_strlit(" is not valid with --format ");
        }
        return Err(ArchiveError::Archive(message));
    }
    Ok(())
}

/// What `create_options` gives: the first option that does not apply to the
/// format is refused (TES4 version, then BA2 kind, then BA2 version); otherwise
/// the chosen values, with the defaults for what was not chosen.
pub open spec fn create_options_outcome(
    format: ArchiveFormat,
    tes4_version: Option<Tes4Version>,
    fo4_kind: Option<Fo4ArchiveKind>,
    fo4_version: Option<Fo4Version>,
    r: Result<CreateOptions>,
) -> bool {
    let tes4_bad = format != ArchiveFormat::Tes4 && tes4_version is Some;
    let kind_bad = format != ArchiveFormat::Fo4 && fo4_kind is Some;
    let version_bad = format != ArchiveFormat::Fo4 && fo4_version is Some;
    if tes4_bad {
        r matches Err(ArchiveError::Archive(m)) && m@ == irrelevant_option_text("--tes4-version"@, format)
    } else if kind_bad {
        r matches Err(ArchiveError::Archive(m)) && m@ == irrelevant_option_text("--ba2-kind"@, format)
    } else if version_bad {
        r matches Err(ArchiveError::Archive(m)) && m@ == irrelevant_option_text("--ba2-version"@, format)
    } else {
        r matches Ok(o) && o == (CreateOptions {
            format,
            tes4_version: match tes4_version {
                Some(v) => v,
                None => Tes4Version::Oblivion,
            },
            fo4_kind: match fo4_kind {
                Some(k) => k,
                None => Fo4ArchiveKind::Gnrl,
            },
            fo4_version: match fo4_version {
                Some(v) => v,
                None => Fo4Version::Fallout4,
            },
        })
    }
}

/// Build create options from command-line choices, refusing choices that do
/// not apply to the format.
pub fn create_options(
    format: ArchiveFormat,
    tes4_version: Option<Tes4Version>,
    fo4_kind: Option<Fo4ArchiveKind>,
    fo4_version: Option<Fo4Version>,
) -> (r: Result<CreateOptions>)
    ensures
        create_options_outcome(format, tes4_version, fo4_kind, fo4_version, r),
{
    proof {
        reveal_strlit("--tes4-version");
        reveal_strlit("--ba2-kind");
        reveal_strlit("--ba2-version");
    }
    if format != ArchiveFormat::Tes4 {
        reject_irrelevant_create_option("--tes4-version", tes4_version.is_some(), format)?;
    }
    if format != ArchiveFormat::Fo4 {
        reject_irrelevant_create_option("--ba2-kind", fo4_kind.is_some(), format)?;
        reject_irrelevant_create_option("--ba2-version", fo4_version.is_some(), format)?;
    }
    Ok(CreateOptions {
        format,
        tes4_version: match tes4_version {
            Some(v) => v,
            None => Tes4Version::Oblivion,
        },
        fo4_kind: match fo4_kind {
            Some(k) => k,
            None => Fo4ArchiveKind::Gnrl,
        },
        fo4_version: match fo4_version {
            Some(v) => v,
            None => Fo4Version::Fallout4,
        },
    })
}

/// `--overwrite` wins over `--skip-existing`; neither means fail on existing targets.
pub fn overwrite_mode(overwrite: bool, skip_existing: bool) -> (mode: OverwriteMode)
    ensures
        overwrite ==> mode == OverwriteMode::Overwrite,
        !overwrite && skip_existing ==> mode == OverwriteMode::Skip,
        !overwrite && !skip_existing ==> mode == OverwriteMode::Fail,
{
    if overwrite {
        OverwriteMode::Overwrite
    } else if skip_existing {
        OverwriteMode::Skip
    } else {
        OverwriteMode::Fail
    }
}

pub open spec fn odd_hex_text() -> Seq<char> {
    "--entry-hex must contain an even number of hexadecimal digits"@
}

pub open spec fn bad_hex_text() -> Seq<char> {
    "--entry-hex contains a non-hexadecimal digit"@
}

/// Decode an entry given as hex, with errors that name the option.
pub fn decode_hex_entry(hex: &str) -> (r: Result<Vec<u8>>)
    ensures
        r is Ok <==> decode_outcome(hex.spec_bytes()) is Some,
        r matches Ok(v) ==> decode_outcome(hex.spec_bytes()) == Some(v@),
        r matches Err(e) ==> e matches ArchiveError::Archive(m) && (if hex.spec_bytes().len() % 2 == 1 {
            m@ == odd_hex_text()
        } else {
            m@ == bad_hex_text()
        }),
{
    proof {
        reveal_strlit("--entry-hex must contain an even number of hexadecimal digits");
        reveal_strlit("--entry-hex contains a non-hexadecimal digit");
    }
    if hex.as_bytes().len() % 2 != 0 {
        return Err(ArchiveError::Archive(String::from_str("--entry-hex must contain an even number of hexadecimal digits")));
    }
    match decode_archive_path_hex(hex) {
        Ok(v) => Ok(v),
        Err(_) => Err(ArchiveError::Archive(String::from_str("--entry-hex contains a non-hexadecimal digit"))),
    }
}

pub open spec fn missing_entry_text() -> Seq<char> {
    "entry path or --entry-hex is required"@
}

/// The entry to extract: the hex form when given, otherwise the path bytes.
pub fn entry_selector(entry: Option<Vec<u8>>, entry_hex: Option<String>) -> (r: Result<Vec<u8>>)
    ensures
        entry_hex matches Some(h) ==> (r is Ok <==> decode_outcome(vstd::utf8::encode_utf8(h@)) is Some)
            && (r matches Ok(v) ==> decode_outcome(vstd::utf8::encode_utf8(h@)) == Some(v@)),
        entry_hex is None ==> (entry matches Some(e) ==> (r matches Ok(v) && v@ == e@)),
        entry_hex is None && entry is None ==> (r matches Err(ArchiveError::Archive(m)) && m@ == missing_entry_text()),
{
    match entry_hex {
        Some(hex) => decode_hex_entry(hex.as_str()),
        None => match entry {
            Some(e) => Ok(e),
            None => {
                proof {
                    reveal_strlit("entry path or --entry-hex is required");
                }
                Err(ArchiveError::Archive(String::from_str("entry path or --entry-hex is required")))
            },
        },
    }
}

} // verus!
