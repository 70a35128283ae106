//! Core logic of the ProcessFox desktop agent: sandboxed path resolution,
//! document previews, agent records, the background worker and its fan-out
//! over spreadsheet rows, file-freshness tracking and the workspace
//! overview.
//!
//! Filesystem access, networking and the user interface stay with the
//! caller: the library is handed what was read and says what to do next.

pub mod error;
pub mod text;
pub mod keyed;
pub mod paths;
pub mod sandbox;
pub mod xml;
pub mod zip_archive;
pub mod preview_docx;
pub mod docx_markup;
pub mod preview_pptx;
pub mod preview_xlsx;
pub mod previews;
pub mod workspace;
pub mod tool;
pub mod agent;
pub mod delegation;
pub mod delegate_xlsx;
pub mod read_skill;
pub mod freshness;
pub mod license;
pub mod providers;
