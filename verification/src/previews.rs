//! The document previews handed to the user interface, and the checks a
//! previewed path passes first.
use vstd::prelude::*;

use crate::error::CoreError;
use crate::paths::FsPath;
use crate::preview_pptx::SlidePreview;
use crate::sandbox::{ensure_in_agent_folder, in_folder_outcome, path_result_view};

verus! {

/// A document as body-only HTML.
pub struct DocxPreview {
    pub html: String,
}

/// A presentation as an outline, slide by slide.
pub struct PptxPreview {
    pub slides: Vec<SlidePreview>,
}

/// Why a path is not previewed.
pub enum PreviewError {
    /// The agent has no folder.
    NoFolder,
    /// The path is not a file.
    NotAFile,
    /// The path check failed.
    Core(CoreError),
}

/// The error code and the message shown to the user.
pub open spec fn preview_error_text(e: PreviewError) -> Option<(Seq<char>, Seq<char>)> {
    match e {
        PreviewError::NoFolder => Some(
            ("agent_has_no_folder"@, "Für diesen Agenten ist kein Ordner konfiguriert."@),
        ),
        PreviewError::NotAFile => Some(("not_a_file"@, "Der angefragte Pfad ist keine Datei."@)),
        PreviewError::Core(_) => None,
    }
}

impl PreviewError {
    /// The error code and message of a refusal made by the preview itself.
    pub fn code_and_message(&self) -> (r: Option<(&'static str, &'static str)>)
        ensures
            match preview_error_text(*self) {
                Some((c, m)) => r is Some && r->Some_0.0@ == c && r->Some_0.1@ == m,
                None => r is None,
            },
    {
        match self {
            PreviewError::NoFolder => Some(
                ("agent_has_no_folder", "Für diesen Agenten ist kein Ordner konfiguriert."),
            ),
            PreviewError::NotAFile => Some(("not_a_file", "Der angefragte Pfad ist keine Datei.")),
            PreviewError::Core(_) => None,
        }
    }
}

/// The file to preview: the agent needs a folder, and the requested path
/// must lie inside it, given the canonical forms of the requested path
/// (joined onto the folder) and of the folder.
pub fn preview_target(
    folder: Option<&FsPath>,
    canonical_requested: Result<FsPath, String>,
    canonical_root: Result<FsPath, String>,
) -> (r: Result<FsPath, PreviewError>)
    ensures
        match folder {
            None => r matches Err(PreviewError::NoFolder),
            Some(_) => match in_folder_outcome(
                path_result_view(canonical_requested),
                path_result_view(canonical_root),
            ) {
                Ok(p) => r is Ok && r->Ok_0@ == p,
                Err(e) => r == Err::<FsPath, PreviewError>(PreviewError::Core(e)),
            },
        },
{
    match folder {
        None => Err(PreviewError::NoFolder),
        Some(_) => match ensure_in_agent_folder(canonical_requested, canonical_root) {
            Ok(p) => Ok(p),
            Err(e) => Err(PreviewError::Core(e)),
        },
    }
}

/// The previewed path must be a file.
pub fn require_file(target: FsPath, is_file: bool) -> (r: Result<FsPath, PreviewError>)
    ensures
        is_file ==> r == Ok::<FsPath, PreviewError>(target),
        !is_file ==> r matches Err(PreviewError::NotAFile),
{
    if is_file {
        Ok(target)
    } else {
        Err(PreviewError::NotAFile)
    }
}

} // verus!
