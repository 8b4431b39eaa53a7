//! What a student is told about the questions their submission left unmatched.
use vstd::prelude::*;

use crate::assignment::{AssignmentId, AssignmentName};
use crate::course::CourseId;
use crate::question::question_text;
use crate::submission::{StudentSubmitter, SubmissionId};
use crate::text::{decimal, push_decimal};
use crate::types::{Email, StudentName};
use crate::unmatched::{unmatched_views, NonmatchingSubmitter, UnmatchedQuestion};

verus! {

broadcast use vstd::string::group_string_axioms;

pub const MATCHING_LINK_START: &'static str = "https://www.gradescope.com/courses/";

/// The questions, each as "number: title", separated by ", ".
pub open spec fn join_questions(qs: Seq<(Seq<char>, Seq<u8>)>) -> Seq<char>
    decreases qs.len(),
{
    if qs.len() == 0 {
        Seq::empty()
    } else if qs.len() == 1 {
        question_text(qs[0])
    } else {
        join_questions(qs.drop_last()) + ", "@ + question_text(qs.last())
    }
}

/// How a report lists its questions: "no questions" where there are none.
pub open spec fn questions_text(qs: Seq<(Seq<char>, Seq<u8>)>) -> Seq<char> {
    if qs.len() == 0 {
        "no questions"@
    } else {
        join_questions(qs)
    }
}

pub open spec fn question_word(n: nat) -> Seq<char> {
    if n == 1 {
        "question"@
    } else {
        "questions"@
    }
}

/// "We found {n} unmatched question(s) in your submission for {assignment}:
/// {questions}".
pub open spec fn message_text(n: nat, assignment: Seq<char>, listing: Seq<char>) -> Seq<char> {
    "We found "@ + decimal(n) + " unmatched "@ + question_word(n) + " in your submission for "@
        + assignment + ": "@ + listing
}

pub open spec fn these_word(n: nat) -> Seq<char> {
    if n == 1 {
        "this"@
    } else {
        "these"@
    }
}

pub open spec fn them_word(n: nat) -> Seq<char> {
    if n == 1 {
        "it"@
    } else {
        "them"@
    }
}

/// The notice sent to a student: who it is for, the message, and what to do.
pub open spec fn notice_text(student: Seq<char>, n: nat, message: Seq<char>) -> Seq<char> {
    student + ":\n\n"@ + message + "\n\nIf you would like "@ + these_word(n) + " "@ + question_word(
        n,
    ) + " to be graded, please match pages for "@ + them_word(n)
        + " as soon as possible.\n\n- EECS 203"@
}

/// The page where the student matches pages to questions.
pub open spec fn link_text(course: Seq<char>, assignment: Seq<char>, submission: Seq<char>) -> Seq<
    char,
> {
    MATCHING_LINK_START@ + course + "/assignments/"@ + assignment + "/submissions/"@ + submission
        + "/select_pages"@
}

/// "{name};{email};\"{message}\"".
pub open spec fn csv_text(name: Seq<char>, email: Seq<char>, message: Seq<char>) -> Seq<char> {
    name + ";"@ + email + ";\""@ + message + "\""@
}

/// The student a report goes to.
#[derive(Debug)]
pub struct UnmatchedStudent {
    name: StudentName,
    email: Email,
}

impl Clone for UnmatchedStudent {
    fn clone(&self) -> (r: Self)
        ensures
            r.name_view() == self.name_view(),
            r.email_view() == self.email_view(),
    {
        UnmatchedStudent { name: self.name.clone(), email: self.email.clone() }
    }
}

impl UnmatchedStudent {
    pub closed spec fn name_view(&self) -> Seq<char> {
        self.name@
    }

    pub closed spec fn email_view(&self) -> Seq<char> {
        self.email@
    }

    pub fn new(student_submitter: &StudentSubmitter) -> (r: Self)
        ensures
            r.name_view() == student_submitter@.1,
            r.email_view() == student_submitter@.2,
    {
        UnmatchedStudent {
            name: student_submitter.name().clone(),
            email: student_submitter.email().clone(),
        }
    }

    pub fn name(&self) -> (r: &StudentName)
        ensures
            r@ == self.name_view(),
    {
        &self.name
    }

    pub fn email(&self) -> (r: &Email)
        ensures
            r@ == self.email_view(),
    {
        &self.email
    }

    /// "name (email)".
    pub fn to_string(&self) -> (r: String)
        ensures
            r@ == self.name_view() + " ("@ + self.email_view() + ")"@,
    {
        let mut s = String::new();
        s.append(self.name.as_str());
        s.append(" (");
        s.append(self.email.as_str());
        s.append(")");
        proof {
            assert(s@ =~= self.name_view() + " ("@ + self.email_view() + ")"@);
        }
        s
    }
}

/// The unmatched questions that a report lists.
#[derive(Debug)]
pub struct UnmatchedQuestions {
    questions: Vec<UnmatchedQuestion>,
}

impl UnmatchedQuestions {
    pub closed spec fn questions_view(&self) -> Seq<(Seq<char>, Seq<u8>)> {
        unmatched_views(self.questions@)
    }

    pub fn new(questions: Vec<UnmatchedQuestion>) -> (r: Self)
        ensures
            r.questions_view() == unmatched_views(questions@),
    {
        UnmatchedQuestions { questions }
    }

    pub fn questions(&self) -> (r: &Vec<UnmatchedQuestion>)
        ensures
            unmatched_views(r@) == self.questions_view(),
    {
        &self.questions
    }

    /// The questions as "number: title", separated by ", "; "no questions"
    /// where there are none.
    pub fn to_string(&self) -> (r: String)
        ensures
            r@ == questions_text(self.questions_view()),
    {
        let ghost qs = self.questions_view();
        if self.questions.len() == 0 {
            return String::from_str("no questions");
        }
        let mut s = String::new();
        let mut i: usize = 0;
        while i < self.questions.len()
            invariant
                i <= self.questions@.len(),
                qs == self.questions_view(),
                s@ == join_questions(qs.take(i as int)),
            decreases self.questions@.len() - i,
        {
            if i > 0 {
                s.append(", ");
            }
            let q = self.questions[i].to_string();
            s.append(q.as_str());
            proof {
                let t = qs.take(i + 1);
                assert(t.drop_last() =~= qs.take(i as int));
                assert(t.last() == qs[i as int]);
                if i == 0 {
                    assert(t =~= seq![qs[0]]);
                }
                assert(s@ =~= join_questions(t));
            }
            i = i + 1;
        }
        assert(qs.take(i as int) =~= qs);
        s
    }
}

/// One student's report on one submission of one assignment.
#[derive(Debug)]
pub struct UnmatchedReport {
    course_id: CourseId,
    assignment_id: AssignmentId,
    assignment_name: AssignmentName,
    submission_id: SubmissionId,
    student: UnmatchedStudent,
    unmatched: UnmatchedQuestions,
}

/// The course and assignment that a run reports on.
#[derive(Debug)]
pub struct ReportContext {
    pub course_id: CourseId,
    pub assignment_id: AssignmentId,
    pub assignment_name: AssignmentName,
}

impl UnmatchedReport {
    pub closed spec fn course_view(&self) -> Seq<char> {
        self.course_id@
    }

    pub closed spec fn assignment_view(&self) -> Seq<char> {
        self.assignment_id@
    }

    pub closed spec fn assignment_name_view(&self) -> Seq<char> {
        self.assignment_name@
    }

    pub closed spec fn submission_view(&self) -> Seq<char> {
        self.submission_id@
    }

    pub closed spec fn student_name_view(&self) -> Seq<char> {
        self.student.name_view()
    }

    pub closed spec fn student_email_view(&self) -> Seq<char> {
        self.student.email_view()
    }

    pub closed spec fn questions_view(&self) -> Seq<(Seq<char>, Seq<u8>)> {
        self.unmatched.questions_view()
    }

    /// The report to the student of `nonmatching_submitter` on assignment
    /// `context`.
    pub fn new(context: &ReportContext, nonmatching_submitter: NonmatchingSubmitter) -> (r: Self)
        ensures
            r.course_view() == context.course_id@,
            r.assignment_view() == context.assignment_id@,
            r.assignment_name_view() == context.assignment_name@,
            r.submission_view() == nonmatching_submitter.submission.id_view(),
            r.student_name_view() == nonmatching_submitter.student@.1,
            r.student_email_view() == nonmatching_submitter.student@.2,
            r.questions_view() == nonmatching_submitter.submission.questions_view(),
    {
        let student = UnmatchedStudent::new(nonmatching_submitter.student());
        let submission = nonmatching_submitter.submission();
        let mut questions: Vec<UnmatchedQuestion> = Vec::new();
        let mut i: usize = 0;
        while i < submission.questions().len()
            invariant
                i <= submission.questions_view().len(),
                unmatched_views(questions@) == submission.questions_view().take(i as int),
            decreases submission.questions_view().len() - i,
        {
            let q = submission.questions()[i].clone();
            let ghost before = unmatched_views(questions@);
            questions.push(q);
            assert(unmatched_views(questions@) =~= before.push(q@));
            i = i + 1;
            assert(unmatched_views(questions@) =~= submission.questions_view().take(i as int));
        }
        assert(submission.questions_view().take(i as int) =~= submission.questions_view());
        UnmatchedReport {
            course_id: context.course_id.clone(),
            assignment_id: context.assignment_id.clone(),
            assignment_name: context.assignment_name.clone(),
            submission_id: submission.id().clone(),
            student,
            unmatched: UnmatchedQuestions::new(questions),
        }
    }

    pub fn student(&self) -> (r: &UnmatchedStudent)
        ensures
            r.name_view() == self.student_name_view(),
            r.email_view() == self.student_email_view(),
    {
        &self.student
    }

    pub fn unmatched(&self) -> (r: &UnmatchedQuestions)
        ensures
            r.questions_view() == self.questions_view(),
    {
        &self.unmatched
    }

    pub fn submission_id(&self) -> (r: &SubmissionId)
        ensures
            r@ == self.submission_view(),
    {
        &self.submission_id
    }

    /// The page where the student matches their pages to questions.
    pub fn page_matching_link(&self) -> (r: String)
        ensures
            r@ == link_text(self.course_view(), self.assignment_view(), self.submission_view()),
    {
        let mut s = String::new();
        s.append(MATCHING_LINK_START);
        s.append(self.course_id.as_str());
        s.append("/assignments/");
        s.append(self.assignment_id.as_str());
        s.append("/submissions/");
        s.append(self.submission_id.as_str());
        s.append("/select_pages");
        proof {
            assert(s@ =~= link_text(
                self.course_view(),
                self.assignment_view(),
                self.submission_view(),
            ));
        }
        s
    }

    fn push_message(&self, s: &mut String)
        ensures
            final(s)@ == old(s)@ + message_text(
                self.questions_view().len(),
                self.assignment_name_view(),
                questions_text(self.questions_view()),
            ),
    {
        let n = self.unmatched.questions().len();
        s.append("We found ");
        push_decimal(s, n as u64);
        s.append(" unmatched ");
        if n == 1 {
            s.append("question");
        } else {
            s.append("questions");
        }
        s.append(" in your submission for ");
        s.append(self.assignment_name.as_str());
        s.append(": ");
        let listing = self.unmatched.to_string();
        s.append(listing.as_str());
        proof {
            assert(final(s)@ =~= old(s)@ + message_text(
                self.questions_view().len(),
                self.assignment_name_view(),
                questions_text(self.questions_view()),
            ));
        }
    }

    /// "We found {n} unmatched question(s) in your submission for
    /// {assignment}: {questions}".
    pub fn message(&self) -> (r: String)
        ensures
            r@ == message_text(
                self.questions_view().len(),
                self.assignment_name_view(),
                questions_text(self.questions_view()),
            ),
    {
        let mut s = String::new();
        self.push_message(&mut s);
        assert(s@ =~= message_text(
            self.questions_view().len(),
            self.assignment_name_view(),
            questions_text(self.questions_view()),
        ));
        s
    }

    /// The report as one line of "name;email;\"message\"".
    pub fn csv_string(&self) -> (r: String)
        ensures
            r@ == csv_text(
                self.student_name_view(),
                self.student_email_view(),
                message_text(
                    self.questions_view().len(),
                    self.assignment_name_view(),
                    questions_text(self.questions_view()),
                ),
            ),
    {
        let mut s = String::new();
        s.append(self.student.name().as_str());
        s.append(";");
        s.append(self.student.email().as_str());
        s.append(";\"");
        self.push_message(&mut s);
        s.append("\"");
        proof {
            assert(s@ =~= csv_text(
                self.student_name_view(),
                self.student_email_view(),
                message_text(
                    self.questions_view().len(),
                    self.assignment_name_view(),
                    questions_text(self.questions_view()),
                ),
            ));
        }
        s
    }
}

impl UnmatchedReport {
    /// The notice for the student: "name (email):", the message, and a request
    /// to match pages.
    pub fn to_string(&self) -> (r: String)
        ensures
            r@ == notice_text(
                self.student_name_view() + " ("@ + self.student_email_view() + ")"@,
                self.questions_view().len(),
                message_text(
                    self.questions_view().len(),
                    self.assignment_name_view(),
                    questions_text(self.questions_view()),
                ),
            ),
    {
        let n = self.unmatched.questions().len();
        let mut s = self.student.to_string();
        s.append(":\n\n");
        self.push_message(&mut s);
        s.append("\n\nIf you would like ");
        s.append(if n == 1 { "this" } else { "these" });
        s.append(" ");
        s.append(if n == 1 { "question" } else { "questions" });
        s.append(" to be graded, please match pages for ");
        s.append(if n == 1 { "it" } else { "them" });
        s.append(" as soon as possible.\n\n- EECS 203");
        proof {
            assert(s@ =~= notice_text(
                self.student_name_view() + " ("@ + self.student_email_view() + ")"@,
                self.questions_view().len(),
                message_text(
                    self.questions_view().len(),
                    self.assignment_name_view(),
                    questions_text(self.questions_view()),
                ),
            ));
        }
        s
    }
}

/// A report as the four columns of an output row.
#[derive(Debug)]
pub struct UnmatchedReportRecord {
    pub name: String,
    pub email: String,
    pub message: String,
    pub link: String,
}

impl UnmatchedReportRecord {
    pub fn new(report: UnmatchedReport) -> (r: Self)
        ensures
            r.name@ == report.student_name_view(),
            r.email@ == report.student_email_view(),
            r.message@ == message_text(
                report.questions_view().len(),
                report.assignment_name_view(),
                questions_text(report.questions_view()),
            ),
            r.link@ == link_text(
                report.course_view(),
                report.assignment_view(),
                report.submission_view(),
            ),
    {
        UnmatchedReportRecord {
            name: report.student().name().as_str().to_owned(),
            email: report.student().email().as_str().to_owned(),
            message: report.message(),
            link: report.page_matching_link(),
        }
    }
}

} // verus!
