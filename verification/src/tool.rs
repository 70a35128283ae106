//! What tools hand back: their text result and the approval cards shown to
//! the user before a tool changes the agent's folder.
use vstd::prelude::*;

use crate::text::owned;

verus! {

/// A JSON value, as `serde_json` holds it.
#[verifier::external_type_specification]
#[verifier::external_body]
pub struct ExJsonValue(serde_json::Value);

/// What a tool hands back.
pub struct ToolOutput {
    /// Text handed back to the model.
    pub content: String,
    /// Structured data for the user interface only.
    pub ui_hint: Option<serde_json::Value>,
}

impl ToolOutput {
    /// A plain text result.
    pub fn text(content: String) -> (r: ToolOutput)
        ensures
            r.content@ == content@,
            r.ui_hint is None,
    {
        ToolOutput { content, ui_hint: None }
    }
}

/// The text chrono writes for the UTC time `secs` seconds and `nanos`
/// nanoseconds after the Unix epoch in the form `YYYY-MM-DDTHH:MM:SSZ`, or
/// `None` where chrono has no such time.
pub uninterp spec fn utc_stamp(secs: i64, nanos: u32) -> Option<Seq<char>>;

/// `DateTime::<Utc>::from_timestamp`, then `format("%Y-%m-%dT%H:%M:%SZ")`.
/// chrono gives no time for seconds outside its range (the years
/// ±262 143) or for an invalid nanosecond part; every time from the epoch to
/// the end of the year 9999 with fewer than 10^9 nanoseconds is in range.
/// Nothing more is stated of the text.
#[verifier::external_body]
fn format_utc_stamp(secs: i64, nanos: u32) -> (r: Option<String>)
    ensures
        match (r, utc_stamp(secs, nanos)) {
            (Some(a), Some(b)) => a@ == b,
            (None, None) => true,
            _ => false,
        },
        0 <= secs <= 253_402_300_799 && nanos < 1_000_000_000 ==> r is Some,
{
    chrono::DateTime::<chrono::Utc>::from_timestamp(secs, nanos)
        .map(|dt| dt.format("%Y-%m-%dT%H:%M:%SZ").to_string())
}

/// The `, modified <UTC time>` suffix of a read tool's header line, given
/// the file's modification time as seconds and nanoseconds since the epoch;
/// empty when the time could not be read or lies outside the times that
/// can be written.
pub fn mtime_suffix_text(modified: Option<(i64, u32)>) -> (s: String)
    ensures
        modified is None ==> s@ == Seq::<char>::empty(),
        modified matches Some((t, n)) ==> s@ == match utc_stamp(t, n) {
            Some(stamp) => ", modified "@ + stamp,
            None => Seq::<char>::empty(),
        },
        modified matches Some((t, n)) ==> (0 <= t <= 253_402_300_799 && n < 1_000_000_000 ==> s@.len() > 0),
{
    match modified {
        None => String::new(),
        Some((t, n)) => match format_utc_stamp(t, n) {
            Some(stamp) => {
                let mut s = owned(", modified ");
                s.push_str(stamp.as_str());
                proof {
                    reveal_strlit(", modified ");
                }
                s
            },
            None => String::new(),
        },
    }
}

/// One rendered prompt shown on the approval card of a fan-out.
pub struct DelegationSamplePrompt {
    pub row_label: String,
    pub rendered_prompt: String,
}

/// One placeholder substitution of a template-based document.
pub struct TemplateReplacement {
    pub key: String,
    pub value: String,
}

/// One cell change of a spreadsheet update.
pub struct CellChange {
    pub cell: String,
    pub before: String,
    pub after: String,
}

/// What the user is shown before a write tool runs.
pub enum HitlPreview {
    /// Append text to a file, creating it when missing.
    AppendToFile {
        path: String,
        content: String,
        creates_file: bool,
        existing_tail: Option<String>,
    },
    /// Create or overwrite a document.
    WriteDocx { path: String, block_count: usize, preview_text: String, creates_file: bool },
    /// Append blocks to a document, creating it when missing.
    AppendToDocx {
        path: String,
        block_count: usize,
        preview_text: String,
        creates_file: bool,
        existing_tail: Option<String>,
    },
    /// Replace the whole text of a file.
    RewriteFile { path: String, before: String, after: String, creates_file: bool },
    /// Change cells of a workbook.
    UpdateCells { path: String, sheet: String, changes: Vec<CellChange> },
    /// Create or overwrite a workbook from rows.
    WriteXlsx { path: String, sheet: String, rows: Vec<Vec<String>>, creates_file: bool },
    /// Fill the placeholders of a template document into a new document.
    WriteDocxFromTemplate {
        template_path: String,
        output_path: String,
        replacements: Vec<TemplateReplacement>,
        template_placeholders: Vec<String>,
        creates_file: bool,
    },
    /// Run a worker on each selected row of a sheet and write the answers
    /// into one column.
    DelegateIntoXlsxColumn {
        path: String,
        sheet: String,
        target_column: String,
        target_creates_column: bool,
        row_count: u32,
        worker_label: String,
        sample_prompts: Vec<DelegationSamplePrompt>,
    },
}

/// The user's answer to an approval card.
pub enum HitlDecision {
    Approve,
    Reject { reason: Option<String> },
}

} // verus!
