//! Policy layer for inspecting, extracting, creating and updating Bethesda archives
//! (TES3 and TES4 BSA, FO4/Starfield BA2) on top of `dream_archive`.
//!
//! The library works on archive file bytes and plain values: it parses, lists,
//! reads, plans extraction targets, merges inputs and writes new archive bytes.
//! Reading and writing files is the caller's part.

pub mod archive;
pub mod archive_plan;
pub mod builders;
pub mod byte_map;
pub mod create;
pub mod diff;
pub mod entry;
pub mod error;
pub mod extract;
pub mod format;
pub mod loaded;
pub mod lua_options;
pub mod options;
pub mod path;
pub mod paths;
pub mod rewrite_policy;
pub mod verify;

pub use dream_archive;

pub use archive::{ArchiveInfo, ArchiveTool, OpenArchive};
pub use archive_plan::{AddPlan, ArchivePlanAction, ArchivePlanEntry, ArchivePlanOperation, CreatePlan};
pub use create::{
    AddOptions, CreateOptions, Fo4ArchiveKind, Fo4Version, InputFile, PathPart, Tes4Version,
    WrittenArchive,
};
pub use diff::{diff_archives, DiffChange, DiffEntry, DiffEntryState, DiffOptions, DiffReport};
pub use entry::ArchiveEntry;
pub use error::{ArchiveError, Result};
pub use extract::{
    ExtractAllOptions, ExtractAllPlan, ExtractJob, ExtractOptions, ExtractPlanAction,
    ExtractPlanEntry, ExtractPlanOperation, ExtractSummary, ExtractWrite, OverwriteMode,
};
pub use format::ArchiveFormat;
pub use path::{decode_archive_path_hex, encode_archive_path_hex, normalize_archive_path_bytes};
pub use verify::{verify_archive, VerifyOptions, VerifyPathIssue, VerifyReport};
