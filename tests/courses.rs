use gradescope_api::course::{Course, CourseId, CourseSelector, Role};
use gradescope_api::creds::Creds;
use gradescope_api::error::ReportError;
use gradescope_api::submission::{
    StudentSubmitter, Submission, SubmissionId, SubmissionsManagerProps,
};
use gradescope_api::assignment::AssignmentId;
use gradescope_api::types::{Email, StudentId, StudentName};
use gradescope_api::util::{gs_course_path, gs_url, ExportSubmissionsResponse, HtmlRequest};

fn course(id: &str, short: &str, name: &str) -> Course {
    Course::new(CourseId::new(id.to_string()), short.to_string(), name.to_string(), Role::Instructor)
}

fn courses() -> Vec<Course> {
    vec![
        course("100", "EECS 203", "Discrete Math"),
        course("200", "EECS 280", "EECS 203"),
        course("EECS 280", "X", "Y"),
    ]
}

#[test]
fn selector_prefers_id_then_short_name_then_name() {
    let cs = courses();
    let pick = |s: &str| CourseSelector::new(s.to_string()).select_from(&cs).map(|c| c.id().as_str().to_string());
    assert_eq!(pick("200").as_deref(), Some("200"));
    assert_eq!(pick("EECS 203").as_deref(), Some("100"));
    assert_eq!(pick("EECS 280").as_deref(), Some("EECS 280"));
    assert_eq!(pick("Discrete Math").as_deref(), Some("100"));
    assert_eq!(pick("nothing"), None);
}

#[test]
fn course_fields() {
    let c = course("100", "EECS 203", "Discrete Math");
    assert_eq!(c.short_name(), "EECS 203");
    assert_eq!(c.name(), "Discrete Math");
    assert_eq!(c.user_role(), Role::Instructor);
}

#[test]
fn platform_paths() {
    let c = course("100", "s", "n");
    assert_eq!(gs_url("/login"), "https://www.gradescope.com/login");
    assert_eq!(gs_course_path(&c, "/assignments"), "/courses/100/assignments");
    let r = ExportSubmissionsResponse { generated_file_id: 90210 };
    assert_eq!(r.status_path(&c), "/courses/100/generated_files/90210.json");
    let r = ExportSubmissionsResponse { generated_file_id: 0 };
    assert_eq!(r.status_path(&c), "/courses/100/generated_files/0.json");
    assert_eq!(HtmlRequest::new("/account".to_string()).path(), "/account");
}

#[test]
fn creds_keep_both_parts() {
    let c = Creds::new("me@example.edu".to_string(), "SECRET-REDACTED".to_string());
    assert_eq!(c.email(), "me@example.edu");
    assert_eq!(c.password(), "SECRET-REDACTED");
}

fn student(id: &str, name: &str) -> StudentSubmitter {
    StudentSubmitter::new(
        StudentId::new(id.to_string()),
        StudentName::new(name.to_string()),
        Email::new(format!("{name}@example.edu")),
    )
}

fn submission(id: &str, users: &[&str]) -> (SubmissionId, Submission) {
    (
        SubmissionId::new(id.to_string()),
        Submission::new(
            SubmissionId::new(id.to_string()),
            users.iter().map(|u| StudentId::new(u.to_string())).collect(),
        ),
    )
}

#[test]
fn roster_from_submissions_manager() {
    let props = SubmissionsManagerProps::new(
        AssignmentId::new("66".to_string()),
        vec![student("1", "ada"), student("2", "grace"), student("3", "alan")],
        vec![submission("10", &["1"]), submission("11", &["3", "9", "2"])],
    );
    assert_eq!(props.assignment_id().as_str(), "66");
    let map = props.submission_to_student_map().unwrap();
    let names = |id: &str| -> Option<Vec<String>> {
        map.students(&SubmissionId::new(id.to_string()))
            .map(|v| v.iter().map(|s| s.name().as_str().to_string()).collect())
    };
    assert_eq!(names("10"), Some(vec!["ada".to_string()]));
    assert_eq!(names("11"), Some(vec!["alan".to_string(), "grace".to_string()]));
    assert_eq!(names("12"), None);
}

#[test]
fn mismatching_submission_key_is_an_error() {
    let (_, sub) = submission("11", &["1"]);
    let props = SubmissionsManagerProps::new(
        AssignmentId::new("66".to_string()),
        vec![student("1", "ada")],
        vec![submission("10", &["1"]), (SubmissionId::new("12".to_string()), sub)],
    );
    match props.submission_to_student_map() {
        Err(ReportError::MismatchedSubmissionKey(k)) => assert_eq!(k.as_str(), "12"),
        other => panic!("unexpected {:?}", other.map(|_| ())),
    }
}
