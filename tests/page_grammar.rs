use gradescope_api::error::{ParseProblem, ReportError};
use gradescope_api::pdf::{filename_stem, is_pdf_entry, SubmissionPdf};
use gradescope_api::question::QuestionNumber;

fn numbers(text: &str) -> Result<Vec<Vec<u8>>, ReportError> {
    let pdf = SubmissionPdf::from_extracted_text("4242.pdf", 1, text).unwrap();
    pdf.matched_question_numbers()
        .map(|v| v.iter().map(|q| q.parts().clone()).collect())
}

#[test]
fn lists_and_no_question_pages() {
    let text = "...Total Points...Questions assigned to the following page:1,2,and3...\
                No questions assigned to the following page....";
    assert_eq!(numbers(text).unwrap(), vec![vec![1], vec![2], vec![3]]);
}

#[test]
fn white_space_is_ignored() {
    let text = "Total\n Points 10\nQuestions assigned to the\tfollowing page: 1.1, 1.2 and 2\n";
    assert_eq!(numbers(text).unwrap(), vec![vec![1, 1], vec![1, 2], vec![2]]);
}

#[test]
fn repeated_numbers_are_kept() {
    let text = "Total Points 5 Question assigned to the following page: 1 \
                Question assigned to the following page: 1 \
                Questions assigned to the following page: 1, 2";
    assert_eq!(numbers(text).unwrap(), vec![vec![1], vec![1], vec![1], vec![2]]);
}

#[test]
fn no_pages_gives_no_numbers() {
    assert_eq!(numbers("Header Total Points 12").unwrap(), Vec::<Vec<u8>>::new());
}

#[test]
fn missing_anchor_is_reported() {
    let text = "Questions assigned to the following page: 1";
    assert!(matches!(numbers(text), Err(ReportError::AnchorNotFound)));
}

#[test]
fn part_out_of_range_ends_the_list() {
    let cases: [(&str, Vec<Vec<u8>>); 4] = [
        ("Total Points Questions assigned to the following page: 0", vec![]),
        ("Total Points Questions assigned to the following page: 1.256", vec![]),
        ("Total Points Question assigned to the following page: 2, 300, 4", vec![vec![2]]),
        (
            "Total Points Questions assigned to the following page: 0, 1 \
             Question assigned to the following page: 5",
            vec![vec![5]],
        ),
    ];
    for (text, expected) in cases {
        assert_eq!(numbers(text).unwrap(), expected, "{text:?}");
    }
}

#[test]
fn list_stops_before_a_dangling_separator() {
    let text = "Total Points Questions assigned to the following page: 4, and x";
    assert_eq!(numbers(text).unwrap(), vec![vec![4]]);
}

#[test]
fn submission_id_is_the_file_stem() {
    let pdf = SubmissionPdf::from_extracted_text("export/123456.pdf", 1, "").unwrap();
    assert_eq!(pdf.id().as_str(), "123456");
    assert_eq!(filename_stem("a/b/c.tar.pdf").unwrap(), "c.tar");
    assert_eq!(filename_stem(".pdf").unwrap(), ".pdf");
    assert_eq!(filename_stem("noext").unwrap(), "noext");
    assert!(filename_stem("dir/").is_none());
    assert!(matches!(
        SubmissionPdf::from_extracted_text("", 1, "Total Points"),
        Err(ReportError::Parse(ParseProblem::FileName))
    ));
}

#[test]
fn only_pdf_entries_count() {
    assert!(is_pdf_entry("123.pdf"));
    assert!(is_pdf_entry("dir/123.pdf"));
    assert!(!is_pdf_entry("submission_metadata.yml"));
    assert!(!is_pdf_entry("123.pdf.txt"));
    assert!(!is_pdf_entry("pdf"));
}

#[test]
fn matched_numbers_compare_as_numbers() {
    let pdf = SubmissionPdf::from_extracted_text(
        "1.pdf",
        1,
        "Total Points Questions assigned to the following page: 01.2",
    )
    .unwrap();
    let got = pdf.matched_question_numbers().unwrap();
    assert_eq!(got, vec![QuestionNumber::new(vec![1, 2])]);
}

#[test]
fn pdf_without_pages_is_a_parse_error() {
    assert!(matches!(
        SubmissionPdf::from_extracted_text("5.pdf", 0, "Total Points"),
        Err(ReportError::Parse(ParseProblem::NoPages))
    ));
}
