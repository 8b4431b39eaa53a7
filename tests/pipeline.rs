use gradescope_api::assignment::{AssignmentId, AssignmentName};
use gradescope_api::course::CourseId;
use gradescope_api::error::{ParseProblem, ReportError};
use gradescope_api::pdf::SubmissionPdf;
use gradescope_api::pipeline::{entry_reports, submission_reports};
use gradescope_api::question::{Outline, OutlineQuestionTree, Question, QuestionTitle};
use gradescope_api::report::{ReportContext, UnmatchedReport};
use gradescope_api::submission::{StudentSubmitter, SubmissionId, SubmissionToStudentMap};
use gradescope_api::types::{Email, StudentId, StudentName};

fn leaf(title: &str, index: u8) -> OutlineQuestionTree {
    OutlineQuestionTree::Leaf { title: QuestionTitle::new(title.to_string()), index }
}

/// Questions 1.1 and 1.2.
fn outline() -> Vec<Question> {
    Outline::new(vec![OutlineQuestionTree::Inner {
        index: 1,
        children: vec![leaf("Base case", 1), leaf("Inductive step", 2)],
    }])
    .into_questions()
}

fn student(id: &str, name: &str, email: &str) -> StudentSubmitter {
    StudentSubmitter::new(
        StudentId::new(id.to_string()),
        StudentName::new(name.to_string()),
        Email::new(email.to_string()),
    )
}

fn roster() -> SubmissionToStudentMap {
    SubmissionToStudentMap::new(vec![
        (SubmissionId::new("1001".to_string()), vec![student("1", "Ada", "ada@example.edu")]),
        (
            SubmissionId::new("1002".to_string()),
            vec![
                student("2", "Grace", "grace@example.edu"),
                student("3", "Alan", "alan@example.edu"),
            ],
        ),
    ])
}

fn context() -> ReportContext {
    ReportContext {
        course_id: CourseId::new("55".to_string()),
        assignment_id: AssignmentId::new("66".to_string()),
        assignment_name: AssignmentName::new("Homework 3".to_string()),
    }
}

const MATCHED_1_1: &str = "Total Points 10 Question assigned to the following page: 1.1 \
                           No questions assigned to the following page.";
const MATCHED_ALL: &str = "Total Points 10 Questions assigned to the following page: 1.1 and 1.2";

fn reports_of_text(filename: &str, text: &str) -> Vec<Result<UnmatchedReport, ReportError>> {
    let pdf = SubmissionPdf::from_extracted_text(filename, 1, text).unwrap();
    submission_reports(&pdf, &outline(), &roster(), &context())
}

/// A one-page PDF whose page shows `lines`, in Helvetica.
fn pdf_with_lines(lines: &[&str]) -> Vec<u8> {
    pdf_document(lines, true)
}

/// A PDF whose page tree is empty when `with_page` is false.
fn pdf_document(lines: &[&str], with_page: bool) -> Vec<u8> {
    let mut content = String::from("BT /F1 12 Tf 72 720 Td 14 TL\n");
    for line in lines {
        content.push_str(&format!("({line}) Tj T*\n"));
    }
    content.push_str("ET\n");
    let objects = [
        "<< /Type /Catalog /Pages 2 0 R >>".to_string(),
        if with_page {
            "<< /Type /Pages /Kids [3 0 R] /Count 1 >>".to_string()
        } else {
            "<< /Type /Pages /Kids [] /Count 0 >>".to_string()
        },
        "<< /Type /Page /Parent 2 0 R /MediaBox [0 0 612 792] \
         /Resources << /Font << /F1 5 0 R >> >> /Contents 4 0 R >>"
            .to_string(),
        format!("<< /Length {} >>\nstream\n{}endstream", content.len(), content),
        "<< /Type /Font /Subtype /Type1 /BaseFont /Helvetica /Encoding /WinAnsiEncoding >>"
            .to_string(),
    ];
    let mut out = b"%PDF-1.4\n".to_vec();
    let mut offsets = Vec::new();
    for (i, body) in objects.iter().enumerate() {
        offsets.push(out.len());
        out.extend_from_slice(format!("{} 0 obj\n{}\nendobj\n", i + 1, body).as_bytes());
    }
    let xref = out.len();
    out.extend_from_slice(format!("xref\n0 {}\n0000000000 65535 f \n", objects.len() + 1).as_bytes());
    for off in offsets {
        out.extend_from_slice(format!("{off:010} 00000 n \n").as_bytes());
    }
    out.extend_from_slice(
        format!(
            "trailer\n<< /Size {} /Root 1 0 R >>\nstartxref\n{xref}\n%%EOF\n",
            objects.len() + 1
        )
        .as_bytes(),
    );
    out
}

/// The text that the PDF library finds in `data`, or `None` where it fails.
fn extract(data: &[u8]) -> Option<String> {
    pdf_extract::extract_text_from_mem(data).ok()
}

/// The number of pages that the PDF library finds in `data`.
fn pages(data: &[u8]) -> Option<usize> {
    pdf_extract::Document::load_mem(data).ok().map(|doc| doc.get_pages().len())
}

fn report_texts(records: &[Result<UnmatchedReport, ReportError>]) -> Vec<String> {
    records
        .iter()
        .map(|r| match r {
            Ok(rep) => rep.csv_string(),
            Err(e) => e.describe(),
        })
        .collect()
}

#[test]
fn archive_with_two_pdfs_and_metadata() {
    let entries: Vec<(String, Vec<u8>)> = vec![
        ("1001.pdf".to_string(), pdf_with_lines(&["Homework 3", "Total Points 10",
            "Question assigned to the following page: 1.1"])),
        ("submission_metadata.yml".to_string(), b"1001: {}\n".to_vec()),
        ("1002.pdf".to_string(), pdf_with_lines(&["Total Points 10",
            "Questions assigned to the following page: 1.1 and 1.2"])),
    ];
    let mut records = Vec::new();
    for (name, data) in entries {
        records.extend(entry_reports(name, pages(&data), extract(&data).as_deref(), &outline(), &roster(), &context()));
    }
    assert_eq!(records.len(), 1, "{:?}", report_texts(&records));
    let rep = records[0].as_ref().unwrap();
    assert_eq!(rep.submission_id().as_str(), "1001");
    assert_eq!(rep.student().name().as_str(), "Ada");
    assert_eq!(rep.unmatched().to_string(), "1.2: Inductive step");
}

#[test]
fn metadata_entry_yields_nothing() {
    let records = entry_reports(
        "submission_metadata.yml".to_string(),
        None,
        None,
        &outline(),
        &roster(),
        &context(),
    );
    assert!(records.is_empty());
}

#[test]
fn corrupt_pdf_is_one_error_and_the_other_still_reports() {
    let data = b"%PDF-1.4 this is not really a pdf";
    let mut records = entry_reports(
        "1002.pdf".to_string(),
        pages(data),
        extract(data).as_deref(),
        &outline(),
        &roster(),
        &context(),
    );
    assert_eq!(records.len(), 1);
    assert!(matches!(records[0], Err(ReportError::Parse(ParseProblem::Pdf))));
    assert!(matches!(
        entry_reports("1002.pdf".to_string(), None, Some("Total Points"), &outline(), &roster(), &context())[0],
        Err(ReportError::Parse(ParseProblem::Pdf))
    ));
    records.extend(reports_of_text("1001.pdf", MATCHED_1_1));
    assert_eq!(records.len(), 2);
    assert!(records[1].is_ok());
}

#[test]
fn text_of_a_real_pdf_is_extracted() {
    let data = pdf_with_lines(&["Total Points 10", "Question assigned to the following page: 1.2"]);
    let text = extract(&data);
    assert!(text.is_some());
    let pdf = SubmissionPdf::new("dir/1001.pdf".to_string(), pages(&data), text.as_deref()).unwrap();
    assert_eq!(pdf.id().as_str(), "1001");
    let nums: Vec<String> =
        pdf.matched_question_numbers().unwrap().iter().map(|q| q.to_string()).collect();
    assert_eq!(nums, vec!["1.2"]);
}

#[test]
fn missing_question_is_reported_to_the_student() {
    let records = reports_of_text("1001.pdf", MATCHED_1_1);
    assert_eq!(records.len(), 1);
    let rep = records[0].as_ref().unwrap();
    assert_eq!(rep.student().email().as_str(), "ada@example.edu");
    assert_eq!(
        rep.message(),
        "We found 1 unmatched question in your submission for Homework 3: 1.2: Inductive step"
    );
}

#[test]
fn fully_matched_submission_yields_no_record() {
    assert!(reports_of_text("1001.pdf", MATCHED_ALL).is_empty());
    assert!(reports_of_text("1002.pdf", MATCHED_ALL).is_empty());
    assert!(reports_of_text("9999.pdf", MATCHED_ALL).is_empty());
}

#[test]
fn group_submission_fans_out_to_each_student() {
    let records = reports_of_text("1002.pdf", MATCHED_1_1);
    let names: Vec<String> = records
        .iter()
        .map(|r| r.as_ref().unwrap().student().name().as_str().to_string())
        .collect();
    assert_eq!(names, vec!["Grace", "Alan"]);
}

#[test]
fn submission_missing_from_roster_is_an_error_record() {
    let records = reports_of_text("9999.pdf", MATCHED_1_1);
    assert_eq!(records.len(), 1);
    match &records[0] {
        Err(ReportError::RosterMismatch(id)) => assert_eq!(id.as_str(), "9999"),
        other => panic!("unexpected {other:?}"),
    }
}

#[test]
fn unsupported_template_is_an_error_record() {
    let records = reports_of_text("1001.pdf", "Questions assigned to the following page: 1.1");
    assert_eq!(records.len(), 1);
    assert!(matches!(records[0], Err(ReportError::AnchorNotFound)));
}

#[test]
fn pdf_without_pages_is_one_parse_error() {
    let data = pdf_document(&["Total Points 10"], false);
    assert_eq!(pages(&data), Some(0));
    let records = entry_reports(
        "1001.pdf".to_string(),
        pages(&data),
        Some("Total Points 10"),
        &outline(),
        &roster(),
        &context(),
    );
    assert_eq!(records.len(), 1);
    assert!(matches!(records[0], Err(ReportError::Parse(ParseProblem::NoPages))), "{:?}", records[0]);
}

#[test]
fn failed_extraction_is_one_parse_error() {
    let data = pdf_with_lines(&["Total Points 10"]);
    let records =
        entry_reports("1001.pdf".to_string(), pages(&data), None, &outline(), &roster(), &context());
    assert_eq!(records.len(), 1);
    assert!(matches!(records[0], Err(ReportError::Parse(ParseProblem::Pdf))));
}
