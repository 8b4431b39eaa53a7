use gradescope_api::question::{Question, QuestionNumber, QuestionTitle};

fn number(parts: &[u8]) -> QuestionNumber {
    QuestionNumber::new(parts.to_vec())
}

#[test]
fn ordering_is_lexicographic_with_prefix_first() {
    assert!(number(&[1, 2]) < number(&[1, 3]));
    assert!(number(&[1, 3]) < number(&[2]));
    assert!(number(&[2]) < number(&[2, 1]));
    assert!(number(&[1]) < number(&[1, 1]));
}

#[test]
fn formats_with_dots() {
    assert_eq!(number(&[3, 2]).to_string(), "3.2");
    assert_eq!(number(&[7]).to_string(), "7");
    assert_eq!(number(&[10, 255, 1]).to_string(), "10.255.1");
}

#[test]
fn format_then_parse_gives_the_number() {
    for parts in [vec![1u8], vec![3, 2], vec![12, 1, 200], vec![255, 9, 10]] {
        let n = QuestionNumber::new(parts.clone());
        let back = QuestionNumber::from_text(&n.to_string()).unwrap();
        assert_eq!(back, n);
        assert_eq!(back.parts(), &parts);
    }
}

#[test]
fn parses_text() {
    assert_eq!(QuestionNumber::from_text("3.2").unwrap(), number(&[3, 2]));
    assert_eq!(QuestionNumber::from_text("04.1").unwrap(), number(&[4, 1]));
    let parsed: QuestionNumber = "1.2.3".parse().unwrap();
    assert_eq!(parsed, number(&[1, 2, 3]));
}

#[test]
fn rejects_malformed_text() {
    for text in ["", "1.", ".1", "1..2", "0", "1.0", "256", "a", "1,2", "1 "] {
        assert!(QuestionNumber::from_text(text).is_none(), "{text:?}");
    }
    assert!("2.x".parse::<QuestionNumber>().is_err());
}

#[test]
fn first_question() {
    assert!(number(&[1]).is_first());
    assert!(number(&[1, 1]).is_first());
    assert!(!number(&[1, 2]).is_first());
    assert!(!number(&[2]).is_first());
}

#[test]
fn question_text_is_number_then_title() {
    let q = Question::new(QuestionTitle::new("Induction".to_string()), number(&[2, 1]));
    assert_eq!(q.to_string(), "2.1: Induction");
    assert_eq!(q.title().as_str(), "Induction");
    assert_eq!(q.number(), &number(&[2, 1]));
}
