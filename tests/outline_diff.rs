use gradescope_api::pdf::SubmissionPdf;
use gradescope_api::question::{Outline, OutlineQuestionTree, Question, QuestionTitle};
use gradescope_api::submission::SubmissionId;
use gradescope_api::unmatched::{diff_unmatched, UnmatchedQuestion, UnmatchedSubmission};
use gradescope_api::question::QuestionNumber;

fn leaf(title: &str, index: u8) -> OutlineQuestionTree {
    OutlineQuestionTree::Leaf { title: QuestionTitle::new(title.to_string()), index }
}

fn outline() -> Vec<Question> {
    Outline::new(vec![
        OutlineQuestionTree::Inner { index: 1, children: vec![leaf("a", 1), leaf("b", 2)] },
        leaf("c", 2),
        OutlineQuestionTree::Inner {
            index: 3,
            children: vec![OutlineQuestionTree::Inner { index: 1, children: vec![leaf("d", 4)] }],
        },
    ])
    .into_questions()
}

fn texts(qs: &[UnmatchedQuestion]) -> Vec<String> {
    qs.iter().map(|q| q.to_string()).collect()
}

#[test]
fn outline_flattens_depth_first_with_full_numbers() {
    let qs = outline();
    let got: Vec<String> = qs.iter().map(|q| q.to_string()).collect();
    assert_eq!(got, vec!["1.1: a", "1.2: b", "2: c", "3.1.4: d"]);
}

#[test]
fn diff_keeps_outline_order_and_drops_matched() {
    let qs = outline();
    let matched = vec![QuestionNumber::new(vec![2]), QuestionNumber::new(vec![1, 1])];
    let got = diff_unmatched(&qs, &matched);
    assert_eq!(texts(&got), vec!["1.2: b", "3.1.4: d"]);
    assert_eq!(got.len(), qs.len() - matched.len());
}

#[test]
fn diff_with_repeated_matches_counts_distinct_numbers() {
    let qs = outline();
    let matched = vec![
        QuestionNumber::new(vec![2]),
        QuestionNumber::new(vec![2]),
        QuestionNumber::new(vec![3, 1, 4]),
    ];
    let got = diff_unmatched(&qs, &matched);
    assert_eq!(texts(&got), vec!["1.1: a", "1.2: b"]);
}

#[test]
fn numbers_outside_the_outline_change_nothing() {
    let qs = outline();
    let matched = vec![QuestionNumber::new(vec![9]), QuestionNumber::new(vec![1])];
    assert_eq!(diff_unmatched(&qs, &matched).len(), 4);
}

#[test]
fn as_unmatched_builds_a_submission_only_when_something_is_missing() {
    let qs = outline();
    let text = "Total Points Questions assigned to the following page: 1.1, 1.2 \
                Question assigned to the following page: 2";
    let pdf = SubmissionPdf::from_extracted_text("77.pdf", 1, text).unwrap();
    let sub = pdf.as_unmatched(&qs).unwrap().unwrap();
    assert_eq!(sub.id().as_str(), "77");
    assert_eq!(texts(sub.questions()), vec!["3.1.4: d"]);

    let all = format!("{text} Question assigned to the following page: 3.1.4");
    let pdf = SubmissionPdf::from_extracted_text("77.pdf", 1, &all).unwrap();
    assert!(pdf.as_unmatched(&qs).unwrap().is_none());
    assert!(pdf.unmatched_questions(&qs).unwrap().is_empty());
}

#[test]
fn unmatched_submission_keeps_its_parts() {
    let q = Question::new(QuestionTitle::new("t".to_string()), QuestionNumber::new(vec![5]));
    let sub = UnmatchedSubmission::new(
        SubmissionId::new("9".to_string()),
        vec![UnmatchedQuestion::new(q)],
    );
    let copy = sub.clone();
    assert_eq!(copy.id().as_str(), "9");
    assert_eq!(texts(copy.questions()), vec!["5: t"]);
}

#[test]
fn matched_numbers_become_a_sorted_set() {
    let n = |p: &[u8]| QuestionNumber::new(p.to_vec());
    let set = gradescope_api::unmatched::sorted_numbers(&vec![n(&[2]), n(&[1, 1]), n(&[2]), n(&[1]), n(&[1, 1])]);
    assert_eq!(set, vec![n(&[1]), n(&[1, 1]), n(&[2])]);
    assert!(gradescope_api::unmatched::sorted_numbers(&vec![]).is_empty());
}

#[test]
fn compare_follows_the_number_order() {
    let n = |p: &[u8]| QuestionNumber::new(p.to_vec());
    assert!(n(&[1, 2]).compare(&n(&[1, 3])) < 0);
    assert!(n(&[2]).compare(&n(&[1, 3])) > 0);
    assert!(n(&[1]).compare(&n(&[1, 1])) < 0);
    assert_eq!(n(&[4, 4]).compare(&n(&[4, 4])), 0);
}

#[test]
fn outline_with_positive_indices_gives_valid_numbers() {
    for q in outline() {
        assert!(!q.number().parts().is_empty());
        assert!(q.number().parts().iter().all(|&p| p > 0));
    }
}
