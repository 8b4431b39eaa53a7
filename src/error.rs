//! The errors that a run reports, one per failed archive, entry or submission.
use vstd::prelude::*;

use crate::submission::SubmissionId;

verus! {

/// What could not be read in one submission.
#[derive(Debug, Clone, Copy, PartialEq, Eq, Structural)]
pub enum ParseProblem {
    /// The entry's name has no file stem to take a submission id from.
    FileName,
    /// The bytes are not a PDF document that text can be extracted from.
    Pdf,
    /// The PDF has no pages.
    NoPages,
    /// The text is not a question number: parts of 1 to 255 joined by ".".
    QuestionNumber,
}

/// Why a run produced an error record instead of a report.
#[derive(Debug)]
pub enum ReportError {
    /// The archive container could not be opened; the run stops.
    Archive(String),
    /// One archive member could not be read.
    Entry(String),
    /// One submission's PDF could not be parsed.
    Parse(ParseProblem),
    /// The "Total Points" marker is missing: the export uses a template this
    /// library does not know.
    AnchorNotFound,
    /// A submission with unmatched questions has no students in the roster.
    RosterMismatch(SubmissionId),
    /// The submissions manager lists a submission under another id than its
    /// own.
    MismatchedSubmissionKey(SubmissionId),
}

impl ReportError {
    /// A one-line description of the error.
    pub fn describe(&self) -> (r: String) {
        let mut s = String::new();
        match self {
            ReportError::Archive(m) => {
                s.append("cannot open the submission archive: ");
                s.append(m.as_str());
            },
            ReportError::Entry(m) => {
                s.append("cannot read an archive entry: ");
                s.append(m.as_str());
            },
            ReportError::Parse(ParseProblem::FileName) => {
                s.append("cannot get a submission id from the entry name");
            },
            ReportError::Parse(ParseProblem::Pdf) => {
                s.append("could not parse data as PDF");
            },
            ReportError::Parse(ParseProblem::NoPages) => {
                s.append("the PDF has no pages");
            },
            ReportError::Parse(ParseProblem::QuestionNumber) => {
                s.append("the text is not a question number");
            },
            ReportError::AnchorNotFound => {
                s.append("the PDF has no \"Total Points\" marker");
            },
            ReportError::MismatchedSubmissionKey(id) => {
                s.append("the submissions manager lists a submission under the mismatching key ");
                s.append(id.as_str());
            },
            ReportError::RosterMismatch(id) => {
                s.append("could not find students for submission ");
                s.append(id.as_str());
            },
        }
        s
    }
}

} // verus!
