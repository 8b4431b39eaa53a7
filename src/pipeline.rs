//! What each entry of a submission export contributes to a run's records.
//!
//! A run reads the archive's entries one after the other and hands each to
//! `entry_reports`, possibly on several workers at once; the outline and the
//! roster are shared, read-only, by all of them. Every failure below is one
//! record of the run and stops nothing else.
use vstd::prelude::*;

use crate::error::{ParseProblem, ReportError};
use crate::grammar::parse_document;
use crate::pdf::{file_stem, is_pdf_entry, SubmissionPdf, PDF_SUFFIX};
use crate::question::{question_views, Question};
use crate::report::{ReportContext, UnmatchedReport};
use crate::submission::{roster_lookup, RosterEntryView, SubmissionToStudentMap};
use crate::text::{ends_with, strip_white_space};
use crate::unmatched::unmatched_of;

verus! {

/// The context as (course id, assignment id, assignment name).
pub open spec fn context_view(c: &ReportContext) -> (Seq<char>, Seq<char>, Seq<char>) {
    (c.course_id@, c.assignment_id@, c.assignment_name@)
}

/// `r` are the records of submission `id` whose page text is `text`: the
/// parse error; nothing where its pages match every question; else one error
/// where the roster lacks the submission, or one report per student of it.
pub open spec fn reports_for(
    r: Seq<Result<UnmatchedReport, ReportError>>,
    id: Seq<char>,
    text: Seq<char>,
    questions: Seq<(Seq<char>, Seq<u8>)>,
    roster: Seq<RosterEntryView>,
    context: (Seq<char>, Seq<char>, Seq<char>),
) -> bool {
    match parse_document(text) {
        Err(e) => r.len() == 1 && (r[0] matches Err(e2) && e2 == e),
        Ok(ns) => {
            let u = unmatched_of(questions, ns);
            if u.len() == 0 {
                r.len() == 0
            } else {
                match roster_lookup(roster, id) {
                    None => r.len() == 1 && (r[0] matches Err(ReportError::RosterMismatch(x))
                        && x@ == id),
                    Some(students) => r.len() == students.len() && forall|i: int|
                        0 <= i < students.len() ==> (#[trigger] r[i] matches Ok(rep)
                            && rep.submission_view() == id && rep.student_name_view()
                            == students[i].1 && rep.student_email_view() == students[i].2
                            && rep.questions_view() == u && rep.course_view() == context.0
                            && rep.assignment_view() == context.1 && rep.assignment_name_view()
                            == context.2),
                }
            }
        },
    }
}

/// A submission whose pages match every question of the outline yields no
/// record at all.
pub proof fn lemma_fully_matched_yields_nothing(
    r: Seq<Result<UnmatchedReport, ReportError>>,
    id: Seq<char>,
    text: Seq<char>,
    questions: Seq<(Seq<char>, Seq<u8>)>,
    roster: Seq<RosterEntryView>,
    context: (Seq<char>, Seq<char>, Seq<char>),
)
    requires
        reports_for(r, id, text, questions, roster, context),
        parse_document(text) is Ok,
        forall|i: int|
            0 <= i < questions.len() ==> parse_document(text)->Ok_0.contains(
                #[trigger] questions[i].1,
            ),
    ensures
        r.len() == 0,
{
    let ns = parse_document(text)->Ok_0;
    let pred = |q: (Seq<char>, Seq<u8>)| !ns.contains(q.1);
    questions.lemma_all_neg_filter_empty(pred);
}

/// An export of two submissions against an outline of questions 1.1 and 1.2:
/// the one whose pages match both questions yields no record; the one whose
/// pages match 1.1 but not 1.2, and which the roster gives one student, yields
/// exactly one report, for that student, naming question 1.2 alone.
pub proof fn lemma_two_submissions(
    ra: Seq<Result<UnmatchedReport, ReportError>>,
    rb: Seq<Result<UnmatchedReport, ReportError>>,
    ida: Seq<char>,
    idb: Seq<char>,
    texta: Seq<char>,
    textb: Seq<char>,
    t1: Seq<char>,
    t2: Seq<char>,
    roster: Seq<RosterEntryView>,
    context: (Seq<char>, Seq<char>, Seq<char>),
)
    requires
        reports_for(ra, ida, texta, seq![(t1, seq![1u8, 1u8]), (t2, seq![1u8, 2u8])], roster, context),
        reports_for(rb, idb, textb, seq![(t1, seq![1u8, 1u8]), (t2, seq![1u8, 2u8])], roster, context),
        parse_document(texta) matches Ok(ma) && ma.contains(seq![1u8, 1u8]) && ma.contains(
            seq![1u8, 2u8],
        ),
        parse_document(textb) matches Ok(mb) && mb.contains(seq![1u8, 1u8]) && !mb.contains(
            seq![1u8, 2u8],
        ),
        roster_lookup(roster, idb) matches Some(students) && students.len() == 1,
    ensures
        ra.len() == 0,
        rb.len() == 1,
        rb[0] matches Ok(rep) && rep.submission_view() == idb && rep.questions_view() == seq![
            (t2, seq![1u8, 2u8]),
        ] && rep.student_name_view() == roster_lookup(roster, idb)->Some_0[0].1,
{
    let q1 = (t1, seq![1u8, 1u8]);
    let q2 = (t2, seq![1u8, 2u8]);
    let qs = seq![q1, q2];
    assert(qs =~= Seq::<(Seq<char>, Seq<u8>)>::empty().push(q1).push(q2));
    assert(seq![q2] =~= Seq::<(Seq<char>, Seq<u8>)>::empty().push(q2));
    let ma = parse_document(texta)->Ok_0;
    let mb = parse_document(textb)->Ok_0;
    let pa = |q: (Seq<char>, Seq<u8>)| !ma.contains(q.1);
    let pb = |q: (Seq<char>, Seq<u8>)| !mb.contains(q.1);
    let e = Seq::<(Seq<char>, Seq<u8>)>::empty();
    assert(e.filter(pa) =~= e) by {
        reveal_with_fuel(Seq::filter, 1);
    }
    assert(e.filter(pb) =~= e) by {
        reveal_with_fuel(Seq::filter, 1);
    }
    e.lemma_filter_push(q1, pa);
    e.push(q1).lemma_filter_push(q2, pa);
    e.lemma_filter_push(q1, pb);
    e.push(q1).lemma_filter_push(q2, pb);
    assert(unmatched_of(qs, ma) =~= e);
    assert(unmatched_of(qs, mb) =~= seq![q2]);
}

/// A submission with unmatched questions whose id the roster lacks yields
/// exactly one record: the roster-mismatch error for that id.
pub proof fn lemma_roster_mismatch_reported(
    r: Seq<Result<UnmatchedReport, ReportError>>,
    id: Seq<char>,
    text: Seq<char>,
    questions: Seq<(Seq<char>, Seq<u8>)>,
    roster: Seq<RosterEntryView>,
    context: (Seq<char>, Seq<char>, Seq<char>),
)
    requires
        reports_for(r, id, text, questions, roster, context),
        parse_document(text) is Ok,
        unmatched_of(questions, parse_document(text)->Ok_0).len() > 0,
        forall|i: int| 0 <= i < roster.len() ==> (#[trigger] roster[i]).0 != id,
    ensures
        r.len() == 1,
        r[0] matches Err(ReportError::RosterMismatch(x)) && x@ == id,
{
    lemma_roster_lookup_absent(roster, id);
}

proof fn lemma_roster_lookup_absent(roster: Seq<RosterEntryView>, id: Seq<char>)
    requires
        forall|i: int| 0 <= i < roster.len() ==> (#[trigger] roster[i]).0 != id,
    ensures
        roster_lookup(roster, id) is None,
    decreases roster.len(),
{
    if roster.len() > 0 {
        assert(roster[0].0 != id);
        assert forall|i: int| 0 <= i < roster.drop_first().len() implies (
        #[trigger] roster.drop_first()[i]).0 != id by {
            assert(roster.drop_first()[i] == roster[i + 1]);
        }
        lemma_roster_lookup_absent(roster.drop_first(), id);
    }
}

/// The records of one submission, given its PDF.
pub fn submission_reports(
    pdf: &SubmissionPdf,
    outline: &[Question],
    roster: &SubmissionToStudentMap,
    context: &ReportContext,
) -> (r: Vec<Result<UnmatchedReport, ReportError>>)
    ensures
        reports_for(
            r@,
            pdf.id_view(),
            pdf.text_view(),
            question_views(outline@),
            roster.entries_view(),
            context_view(context),
        ),
{
    let mut out: Vec<Result<UnmatchedReport, ReportError>> = Vec::new();
    match pdf.as_unmatched(outline) {
        Err(e) => {
            out.push(Err(e));
        },
        Ok(None) => {},
        Ok(Some(submission)) => {
            let ghost id = submission.id_view();
            let ghost qs = submission.questions_view();
            let mut submitters = submission.submitters(roster);
            let ghost all = submitters@;
            let mut i: usize = 0;
            let n = submitters.len();
            while i < n
                invariant
                    n == all.len(),
                    i <= n,
                    submitters@ == all.subrange(i as int, n as int),
                    out@.len() == i,
                    forall|j: int|
                        0 <= j < i ==> match all[j] {
                            Ok(s) => (#[trigger] out@[j] matches Ok(rep) && rep.submission_view()
                                == s.submission.id_view() && rep.student_name_view()
                                == s.student@.1 && rep.student_email_view() == s.student@.2
                                && rep.questions_view() == s.submission.questions_view()
                                && rep.course_view() == context.course_id@
                                && rep.assignment_view() == context.assignment_id@
                                && rep.assignment_name_view() == context.assignment_name@),
                            Err(e) => out@[j] matches Err(e2) && e2 == e,
                        },
                decreases n - i,
            {
                let item = submitters.remove(0);
                assert(item == all[i as int]);
                assert(submitters@ =~= all.subrange(i + 1, n as int));
                match item {
                    Ok(s) => {
                        out.push(Ok(UnmatchedReport::new(context, s)));
                    },
                    Err(e) => {
                        out.push(Err(e));
                    },
                }
                i = i + 1;
            }
        },
    }
    out
}

/// The records of one archive entry, given its name, the number of pages of
/// its PDF and the text extracted from it (`None` where the PDF library could
/// not count or extract them): nothing for a member that is not a PDF, else
/// those of its submission.
pub fn entry_reports(
    filename: String,
    page_count: Option<usize>,
    text: Option<&str>,
    outline: &[Question],
    roster: &SubmissionToStudentMap,
    context: &ReportContext,
) -> (r: Vec<Result<UnmatchedReport, ReportError>>)
    ensures
        !ends_with(filename@, PDF_SUFFIX@) ==> r@.len() == 0,
        ends_with(filename@, PDF_SUFFIX@) ==> match (
            file_stem(filename@),
            page_count,
            text,
        ) {
            (None, _, _) => r@.len() == 1 && (r@[0] matches Err(e) && e == ReportError::Parse(
                ParseProblem::FileName,
            )),
            (Some(_), None, _) => r@.len() == 1 && (r@[0] matches Err(e) && e
                == ReportError::Parse(ParseProblem::Pdf)),
            (Some(_), Some(n), _) if n == 0 => r@.len() == 1 && (r@[0] matches Err(e) && e
                == ReportError::Parse(ParseProblem::NoPages)),
            (Some(_), Some(_), None) => r@.len() == 1 && (r@[0] matches Err(e) && e
                == ReportError::Parse(ParseProblem::Pdf)),
            (Some(stem), Some(_), Some(t)) => reports_for(
                r@,
                stem,
                strip_white_space(t@),
                question_views(outline@),
                roster.entries_view(),
                context_view(context),
            ),
        },
{
    if !is_pdf_entry(filename.as_str()) {
        return Vec::new();
    }
    match SubmissionPdf::new(filename, page_count, text) {
        Ok(pdf) => submission_reports(&pdf, outline, roster, context),
        Err(e) => {
            let mut out: Vec<Result<UnmatchedReport, ReportError>> = Vec::new();
            out.push(Err(e));
            out
        },
    }
}

} // verus!
