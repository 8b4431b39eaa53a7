//! One submission's PDF: its id, its page text, and the questions it leaves
//! unmatched.
use vstd::prelude::*;

use crate::error::{ParseProblem, ReportError};
use crate::grammar::{parse_document, parse_page_text};
use crate::question::{question_views, Question, QuestionNumber};
use crate::submission::SubmissionId;
use crate::text::{chars_of, chars_without_white_space, ends_with, strip_white_space, str_ends_with};
use crate::unmatched::{diff_unmatched, unmatched_of, unmatched_views, UnmatchedQuestion, UnmatchedSubmission};

verus! {

broadcast use vstd::string::group_string_axioms;

pub const PDF_SUFFIX: &'static str = ".pdf";

/// The position of the last `c` in `s`, or -1.
pub open spec fn last_index_of(s: Seq<char>, c: char) -> int
    decreases s.len(),
{
    if s.len() == 0 {
        -1
    } else if s.last() == c {
        s.len() - 1
    } else {
        last_index_of(s.drop_last(), c)
    }
}

/// The part of a path after its last '/'.
pub open spec fn file_name(s: Seq<char>) -> Seq<char> {
    s.subrange(last_index_of(s, '/') + 1, s.len() as int)
}

/// The file name without its extension: without the part from its last '.'
/// on, unless that '.' begins the name. `None` where the file name is empty.
pub open spec fn file_stem(s: Seq<char>) -> Option<Seq<char>> {
    let b = file_name(s);
    let d = last_index_of(b, '.');
    if b.len() == 0 {
        None
    } else if d <= 0 {
        Some(b)
    } else {
        Some(b.subrange(0, d))
    }
}

pub proof fn lemma_last_index_bounds(s: Seq<char>, c: char)
    ensures
        -1 <= last_index_of(s, c) < s.len(),
        last_index_of(s, c) >= 0 ==> s[last_index_of(s, c)] == c,
    decreases s.len(),
{
    if s.len() > 0 && s.last() != c {
        lemma_last_index_bounds(s.drop_last(), c);
    }
}

/// The position of the last `c` in `s`, if any.
fn find_last(s: &Vec<char>, c: char) -> (r: Option<usize>)
    ensures
        match r {
            Some(i) => last_index_of(s@, c) == i,
            None => last_index_of(s@, c) == -1,
        },
{
    let mut i = s.len();
    assert(s@.take(i as int) =~= s@);
    while i > 0
        invariant
            i <= s@.len(),
            last_index_of(s@, c) == last_index_of(s@.take(i as int), c),
        decreases i,
    {
        if s[i - 1] == c {
            assert(s@.take(i as int).last() == c);
            return Some(i - 1);
        }
        assert(s@.take(i as int).drop_last() =~= s@.take(i - 1));
        i = i - 1;
    }
    assert(s@.take(0) =~= Seq::<char>::empty());
    None
}

/// The file stem of `filename`, as `file_stem` says.
pub fn filename_stem(filename: &str) -> (r: Option<String>)
    ensures
        match file_stem(filename@) {
            Some(stem) => r matches Some(s) && s@ == stem,
            None => r is None,
        },
{
    let chars = chars_of(filename);
    proof {
        lemma_last_index_bounds(chars@, '/');
    }
    let start = match find_last(&chars, '/') {
        Some(i) => i + 1,
        None => 0,
    };
    let base = filename.substring_char(start, chars.len());
    let base_chars = chars_of(base);
    proof {
        lemma_last_index_bounds(base_chars@, '.');
        assert(base_chars@ == file_name(filename@));
    }
    if base_chars.len() == 0 {
        return None;
    }
    match find_last(&base_chars, '.') {
        Some(dot) => {
            if dot == 0 {
                Some(base.to_owned())
            } else {
                Some(base.substring_char(0, dot).to_owned())
            }
        },
        None => Some(base.to_owned()),
    }
}

/// Whether an archive entry's name is that of a submission PDF.
pub fn is_pdf_entry(filename: &str) -> (r: bool)
    ensures
        r == ends_with(filename@, PDF_SUFFIX@),
{
    str_ends_with(filename, PDF_SUFFIX)
}

/// A submission's PDF, reduced to its id and its text without white space.
pub struct SubmissionPdf {
    submission_id: SubmissionId,
    text: Vec<char>,
}

impl SubmissionPdf {
    pub closed spec fn id_view(&self) -> Seq<char> {
        self.submission_id@
    }

    pub closed spec fn text_view(&self) -> Seq<char> {
        self.text@
    }

    /// Reads the submission from its entry name, the number of pages of its
    /// PDF and the text extracted from it.
    pub fn from_extracted_text(filename: &str, page_count: usize, text: &str) -> (r: Result<
        Self,
        ReportError,
    >)
        ensures
            match file_stem(filename@) {
                None => r matches Err(e) && e == ReportError::Parse(ParseProblem::FileName),
                Some(stem) => if page_count == 0 {
                    r matches Err(e) && e == ReportError::Parse(ParseProblem::NoPages)
                } else {
                    r matches Ok(p) && p.id_view() == stem && p.text_view() == strip_white_space(
                        text@,
                    )
                },
            },
    {
        let stem = match filename_stem(filename) {
            Some(s) => s,
            None => return Err(ReportError::Parse(ParseProblem::FileName)),
        };
        if page_count == 0 {
            return Err(ReportError::Parse(ParseProblem::NoPages));
        }
        Ok(SubmissionPdf {
            submission_id: SubmissionId::new(stem),
            text: chars_without_white_space(text),
        })
    }

    /// Reads the submission from its entry name, the number of pages of its
    /// PDF, and the text extracted from the PDF; `None` where the PDF library
    /// could not count the pages or extract the text.
    pub fn new(filename: String, page_count: Option<usize>, text: Option<&str>) -> (r: Result<
        Self,
        ReportError,
    >)
        ensures
            match (file_stem(filename@), page_count, text) {
                (None, _, _) => r matches Err(e) && e == ReportError::Parse(ParseProblem::FileName),
                (Some(_), None, _) => r matches Err(e) && e == ReportError::Parse(ParseProblem::Pdf),
                (Some(_), Some(n), _) if n == 0 => r matches Err(e) && e == ReportError::Parse(
                    ParseProblem::NoPages,
                ),
                (Some(_), Some(_), None) => r matches Err(e) && e == ReportError::Parse(
                    ParseProblem::Pdf,
                ),
                (Some(stem), Some(_), Some(t)) => r matches Ok(p) && p.id_view() == stem
                    && p.text_view() == strip_white_space(t@),
            },
    {
        if filename_stem(filename.as_str()).is_none() {
            return Err(ReportError::Parse(ParseProblem::FileName));
        }
        let pages = match page_count {
            Some(n) => n,
            None => return Err(ReportError::Parse(ParseProblem::Pdf)),
        };
        if pages == 0 {
            return Err(ReportError::Parse(ParseProblem::NoPages));
        }
        match text {
            Some(t) => Self::from_extracted_text(filename.as_str(), pages, t),
            None => Err(ReportError::Parse(ParseProblem::Pdf)),
        }
    }

    pub fn id(&self) -> (r: &SubmissionId)
        ensures
            r@ == self.id_view(),
    {
        &self.submission_id
    }

    /// The question numbers that the platform recorded as matched to the
    /// submission's pages, in page order and with repetitions.
    pub fn matched_question_numbers(&self) -> (r: Result<Vec<QuestionNumber>, ReportError>)
        ensures
            match parse_document(self.text_view()) {
                Ok(ns) => r matches Ok(v) && crate::question::number_views(v@) == ns,
                Err(e) => r matches Err(e2) && e2 == e,
            },
    {
        parse_page_text(&self.text)
    }

    /// The questions of `all_questions` that no page of the submission matched,
    /// in outline order.
    pub fn unmatched_questions(&self, all_questions: &[Question]) -> (r: Result<
        Vec<UnmatchedQuestion>,
        ReportError,
    >)
        ensures
            match parse_document(self.text_view()) {
                Ok(ns) => r matches Ok(v) && unmatched_views(v@) == unmatched_of(
                    question_views(all_questions@),
                    ns,
                ),
                Err(e) => r matches Err(e2) && e2 == e,
            },
    {
        let matched = self.matched_question_numbers()?;
        Ok(diff_unmatched(all_questions, &matched))
    }

    /// The submission with its unmatched questions, or `None` where the pages
    /// match every question.
    pub fn as_unmatched(&self, all_questions: &[Question]) -> (r: Result<
        Option<UnmatchedSubmission>,
        ReportError,
    >)
        ensures
            match parse_document(self.text_view()) {
                Ok(ns) => {
                    let u = unmatched_of(question_views(all_questions@), ns);
                    if u.len() == 0 {
                        r matches Ok(None)
                    } else {
                        r matches Ok(Some(s)) && s.id_view() == self.id_view()
                            && s.questions_view() == u
                    }
                },
                Err(e) => r matches Err(e2) && e2 == e,
            },
    {
        let unmatched = self.unmatched_questions(all_questions)?;
        if unmatched.len() > 0 {
            Ok(Some(UnmatchedSubmission::new(self.submission_id.clone(), unmatched)))
        } else {
            Ok(None)
        }
    }
}

} // verus!
