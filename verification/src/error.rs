use vstd::prelude::*;
use vstd::string::*;

verus! {

/// `std::io::Error` travels through [`ArchiveError::Io`] untouched.
#[verifier::external_type_specification]
#[verifier::external_body]
pub struct ExIoError(std::io::Error);

/// Error type returned by archive operations.
#[derive(Debug)]
#[non_exhaustive]
pub enum ArchiveError {
    /// The file header does not match a supported archive format.
    UnknownFormat,
    /// The requested archive entry was not present.
    EntryNotFound(String),
    /// An archive or filesystem path was rejected as unsafe.
    UnsafePath(String),
    /// Extraction would overwrite an existing target while overwrite mode is `Fail`.
    TargetExists(String),
    /// Filesystem I/O failure.
    Io(std::io::Error),
    /// Error reported by the underlying archive reader/writer or serialization layer.
    Archive(String),
}

/// The text of an error other than an I/O failure, as people read it.
pub open spec fn spec_error_text(e: ArchiveError) -> Option<Seq<char>> {
    match e {
        ArchiveError::UnknownFormat => Some("unsupported or unrecognized archive format"@),
        ArchiveError::EntryNotFound(m) => Some("archive entry not found: "@ + m@),
        ArchiveError::UnsafePath(m) => Some("unsafe archive path: "@ + m@),
        ArchiveError::TargetExists(m) => Some("target already exists: "@ + m@),
        ArchiveError::Io(_) => None,
        ArchiveError::Archive(m) => Some("archive error: "@ + m@),
    }
}

impl ArchiveError {
    /// The error as text for people: a fixed prefix naming the kind, then the detail.
    pub fn message(&self) -> (text: String)
        ensures
            spec_error_text(*self) matches Some(t) ==> text@ == t,
    {
        let (prefix, detail) = match self {
            ArchiveError::UnknownFormat => ("unsupported or unrecognized archive format", None),
            ArchiveError::EntryNotFound(m) => ("archive entry not found: ", Some(m.as_str())),
            ArchiveError::UnsafePath(m) => ("unsafe archive path: ", Some(m.as_str())),
            ArchiveError::TargetExists(m) => ("target already exists: ", Some(m.as_str())),
            ArchiveError::Io(e) => {
                let mut text = String::from_str("I/O error: ");
                let detail = e.to_string();
                text.append(detail.as_str());
                return text;
            },
            ArchiveError::Archive(m) => ("archive error: ", Some(m.as_str())),
        };
        proof {
            reveal_strlit("unsupported or unrecognized archive format");
            reveal_strlit("archive entry not found: ");
            reveal_strlit("unsafe archive path: ");
            reveal_strlit("target already exists: ");
            reveal_strlit("archive error: ");
        }
        let mut text = String::from_str(prefix);
        match detail {
            Some(d) => text.append(d),
            None => {},
        }
        text
    }
}

/// Result type used by the library.
pub type Result<T> = core::result::Result<T, ArchiveError>;

} // verus!
