//! Addresses of the platform's pages.
use vstd::prelude::*;

use crate::course::Course;
use crate::text::{decimal, push_decimal};

verus! {

broadcast use vstd::string::group_string_axioms;

pub const BASE_URL: &'static str = "https://www.gradescope.com";

pub const COURSES_PATH: &'static str = "/courses/";

pub const GENERATED_FILES_PATH: &'static str = "/generated_files/";

/// The address of `path` on the platform.
pub fn gs_url(path: &str) -> (r: String)
    ensures
        r@ == BASE_URL@ + path@,
{
    let mut s = String::new();
    s.append(BASE_URL);
    s.append(path);
    proof {
        assert(s@ =~= BASE_URL@ + path@);
    }
    s
}

/// The path of `path` within `course`.
pub open spec fn course_path(course_id: Seq<char>, path: Seq<char>) -> Seq<char> {
    COURSES_PATH@ + course_id + path
}

/// The path of `path` within `course`: "/courses/{id}{path}".
pub fn gs_course_path(course: &Course, path: &str) -> (r: String)
    ensures
        r@ == course_path(course@.0, path@),
{
    let mut s = String::new();
    s.append(COURSES_PATH);
    s.append(course.id().as_str());
    s.append(path);
    proof {
        assert(s@ =~= course_path(course@.0, path@));
    }
    s
}

/// A request for the page at `path`.
#[derive(Debug)]
pub struct HtmlRequest {
    path: String,
}

impl HtmlRequest {
    pub fn new(path: String) -> (r: Self)
        ensures
            r.path_view() == path@,
    {
        HtmlRequest { path }
    }

    pub closed spec fn path_view(&self) -> Seq<char> {
        self.path@
    }

    pub fn path(&self) -> (r: &str)
        ensures
            r@ == self.path_view(),
    {
        self.path.as_str()
    }
}

/// What the platform answers to a request to export submissions.
#[derive(Debug, Clone, Copy)]
pub struct ExportSubmissionsResponse {
    pub generated_file_id: u64,
}

impl ExportSubmissionsResponse {
    /// The path to poll for the export's progress:
    /// "/courses/{course}/generated_files/{id}.json".
    pub fn status_path(&self, course: &Course) -> (r: String)
        ensures
            r@ == course_path(
                course@.0,
                GENERATED_FILES_PATH@ + decimal(self.generated_file_id as nat) + ".json"@,
            ),
    {
        let mut path = String::new();
        path.append(GENERATED_FILES_PATH);
        push_decimal(&mut path, self.generated_file_id);
        path.append(".json");
        let r = gs_course_path(course, path.as_str());
        proof {
            assert(path@ =~= GENERATED_FILES_PATH@ + decimal(self.generated_file_id as nat)
                + ".json"@);
        }
        r
    }
}

} // verus!
