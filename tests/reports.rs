use gradescope_api::assignment::{AssignmentId, AssignmentName};
use gradescope_api::course::CourseId;
use gradescope_api::question::{Question, QuestionNumber, QuestionTitle};
use gradescope_api::report::{
    ReportContext, UnmatchedQuestions, UnmatchedReport, UnmatchedReportRecord, UnmatchedStudent,
};
use gradescope_api::submission::{StudentSubmitter, SubmissionId};
use gradescope_api::types::{Email, StudentId, StudentName};
use gradescope_api::unmatched::{NonmatchingSubmitter, UnmatchedQuestion, UnmatchedSubmission};

fn question(title: &str, parts: &[u8]) -> UnmatchedQuestion {
    UnmatchedQuestion::new(Question::new(
        QuestionTitle::new(title.to_string()),
        QuestionNumber::new(parts.to_vec()),
    ))
}

fn ada() -> StudentSubmitter {
    StudentSubmitter::new(
        StudentId::new("7".to_string()),
        StudentName::new("Ada Lovelace".to_string()),
        Email::new("ada@example.edu".to_string()),
    )
}

fn report(questions: Vec<UnmatchedQuestion>) -> UnmatchedReport {
    let context = ReportContext {
        course_id: CourseId::new("123".to_string()),
        assignment_id: AssignmentId::new("456".to_string()),
        assignment_name: AssignmentName::new("Exam 1".to_string()),
    };
    let submission = UnmatchedSubmission::new(SubmissionId::new("789".to_string()), questions);
    UnmatchedReport::new(&context, NonmatchingSubmitter::new(ada(), submission))
}

#[test]
fn listing_of_questions() {
    assert_eq!(UnmatchedQuestions::new(vec![]).to_string(), "no questions");
    assert_eq!(UnmatchedQuestions::new(vec![question("A", &[1])]).to_string(), "1: A");
    let two = UnmatchedQuestions::new(vec![question("A", &[1]), question("B", &[2, 3])]);
    assert_eq!(two.to_string(), "1: A, 2.3: B");
    assert_eq!(two.questions().len(), 2);
}

#[test]
fn message_singular_and_plural() {
    assert_eq!(
        report(vec![question("A", &[1])]).message(),
        "We found 1 unmatched question in your submission for Exam 1: 1: A"
    );
    assert_eq!(
        report(vec![question("A", &[1]), question("B", &[2])]).message(),
        "We found 2 unmatched questions in your submission for Exam 1: 1: A, 2: B"
    );
}

#[test]
fn message_counts_in_decimal() {
    let qs: Vec<UnmatchedQuestion> = (1..=12u8).map(|i| question("Q", &[i])).collect();
    assert!(report(qs).message().starts_with("We found 12 unmatched questions in"));
}

#[test]
fn link_and_csv_line() {
    let rep = report(vec![question("A", &[1, 2])]);
    assert_eq!(
        rep.page_matching_link(),
        "https://www.gradescope.com/courses/123/assignments/456/submissions/789/select_pages"
    );
    assert_eq!(
        rep.csv_string(),
        "Ada Lovelace;ada@example.edu;\"We found 1 unmatched question in your submission for Exam 1: 1.2: A\""
    );
}

#[test]
fn record_columns() {
    let record = UnmatchedReportRecord::new(report(vec![question("A", &[3])]));
    assert_eq!(record.name, "Ada Lovelace");
    assert_eq!(record.email, "ada@example.edu");
    assert_eq!(record.message, "We found 1 unmatched question in your submission for Exam 1: 3: A");
    assert!(record.link.ends_with("/submissions/789/select_pages"));
}

#[test]
fn student_of_a_report() {
    let s = UnmatchedStudent::new(&ada());
    assert_eq!(s.to_string(), "Ada Lovelace (ada@example.edu)");
    assert_eq!(s.name().as_str(), "Ada Lovelace");
    assert_eq!(s.email().as_str(), "ada@example.edu");
}
