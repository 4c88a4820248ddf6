//! Export formats and their bookkeeping.

use vstd::prelude::*;

verus! {

/// Formats an export can be rendered in.
#[derive(Clone, Copy, PartialEq, Eq, Structural)]
pub enum ExportFormat {
    Markdown,
    Latex,
    Json,
    Anki,
}

impl ExportFormat {
    /// The file extension of the format.
    pub fn extension(&self) -> (r: &'static str)
        ensures
            r@ == match self {
                ExportFormat::Markdown => "md"@,
                ExportFormat::Latex => "tex"@,
                ExportFormat::Json => "json"@,
                ExportFormat::Anki => "apkg"@,
            },
    {
        match self {
            ExportFormat::Markdown => "md",
            ExportFormat::Latex => "tex",
            ExportFormat::Json => "json",
            ExportFormat::Anki => "apkg",
        }
    }

    /// The media type of the format.
    pub fn mime_type(&self) -> (r: &'static str)
        ensures
            r@ == match self {
                ExportFormat::Markdown => "text/markdown"@,
                ExportFormat::Latex => "application/x-latex"@,
                ExportFormat::Json => "application/json"@,
                ExportFormat::Anki => "application/octet-stream"@,
            },
    {
        match self {
            ExportFormat::Markdown => "text/markdown",
            ExportFormat::Latex => "application/x-latex",
            ExportFormat::Json => "application/json",
            ExportFormat::Anki => "application/octet-stream",
        }
    }
}

/// Counts over one export run.
pub struct ExportStats {
    pub problems_exported: u32,
    pub solutions_exported: u32,
    pub chapters_exported: u32,
    pub formulas_count: u32,
}

} // verus!
