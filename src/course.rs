//! Courses and how a user picks one.
use vstd::prelude::*;

verus! {

/// A course's id on the platform.
#[derive(Debug, Hash, PartialEq, Eq)]
pub struct CourseId {
    id: String,
}

impl View for CourseId {
    type V = Seq<char>;

    closed spec fn view(&self) -> Seq<char> {
        self.id@
    }
}

impl Clone for CourseId {
    fn clone(&self) -> (r: Self)
        ensures
            r@ == self@,
    {
        CourseId { id: self.id.clone() }
    }
}

impl CourseId {
    pub fn new(id: String) -> (r: Self)
        ensures
            r@ == id@,
    {
        CourseId { id }
    }

    pub fn as_str(&self) -> (r: &str)
        ensures
            r@ == self@,
    {
        self.id.as_str()
    }
}

/// The user's role in a course.
#[derive(Debug, Clone, Copy, PartialEq, Eq, Structural)]
pub enum Role {
    Student,
    Instructor,
}

/// A course as (id, short name, name, role).
pub type CourseView = (Seq<char>, Seq<char>, Seq<char>, Role);

#[derive(Debug)]
pub struct Course {
    id: CourseId,
    short_name: String,
    name: String,
    user_role: Role,
}

impl View for Course {
    type V = CourseView;

    closed spec fn view(&self) -> CourseView {
        (self.id@, self.short_name@, self.name@, self.user_role)
    }
}

impl Clone for Course {
    fn clone(&self) -> (r: Self)
        ensures
            r@ == self@,
    {
        Course {
            id: self.id.clone(),
            short_name: self.short_name.clone(),
            name: self.name.clone(),
            user_role: self.user_role,
        }
    }
}

impl Course {
    pub fn new(id: CourseId, short_name: String, name: String, user_role: Role) -> (r: Self)
        ensures
            r@ == (id@, short_name@, name@, user_role),
    {
        Course { id, short_name, name, user_role }
    }

    pub fn id(&self) -> (r: &CourseId)
        ensures
            r@ == self@.0,
    {
        &self.id
    }

    pub fn short_name(&self) -> (r: &str)
        ensures
            r@ == self@.1,
    {
        self.short_name.as_str()
    }

    pub fn name(&self) -> (r: &str)
        ensures
            r@ == self@.2,
    {
        self.name.as_str()
    }

    pub fn user_role(&self) -> (r: Role)
        ensures
            r == self@.3,
    {
        self.user_role
    }
}

/// Which text of a course a selector is compared with.
pub enum CourseField {
    Id,
    ShortName,
    Name,
}

pub open spec fn course_field(c: CourseView, field: CourseField) -> Seq<char> {
    match field {
        CourseField::Id => c.0,
        CourseField::ShortName => c.1,
        CourseField::Name => c.2,
    }
}

/// `k` is the first position of `courses` whose `field` is `s`.
pub open spec fn first_match(courses: Seq<Course>, field: CourseField, s: Seq<char>, k: int) -> bool {
    0 <= k < courses.len() && course_field(courses[k]@, field) == s && forall|j: int|
        0 <= j < k ==> course_field(#[trigger] courses[j]@, field) != s
}

pub open spec fn any_match(courses: Seq<Course>, field: CourseField, s: Seq<char>) -> bool {
    exists|k: int| 0 <= k < courses.len() && course_field(#[trigger] courses[k]@, field) == s
}

/// Picks a course by its id, else by its short name, else by its name.
#[derive(Debug)]
pub struct CourseSelector {
    selector: String,
}

impl CourseSelector {
    pub closed spec fn selector_view(&self) -> Seq<char> {
        self.selector@
    }

    pub fn new(selector: String) -> (r: Self)
        ensures
            r.selector_view() == selector@,
    {
        CourseSelector { selector }
    }

    fn select_by<'a>(&self, courses: &'a [Course], field: CourseField) -> (r: Option<&'a Course>)
        ensures
            match r {
                Some(c) => exists|k: int|
                    first_match(courses@, field, self.selector_view(), k) && *c == courses@[k],
                None => !any_match(courses@, field, self.selector_view()),
            },
    {
        let mut i: usize = 0;
        while i < courses.len()
            invariant
                i <= courses@.len(),
                forall|j: int|
                    0 <= j < i ==> course_field(#[trigger] courses@[j]@, field)
                        != self.selector_view(),
            decreases courses@.len() - i,
        {
            let c = &courses[i];
            let text: &String = match field {
                CourseField::Id => &c.id.id,
                CourseField::ShortName => &c.short_name,
                CourseField::Name => &c.name,
            };
            if *text == self.selector {
                assert(first_match(courses@, field, self.selector_view(), i as int));
                return Some(c);
            }
            i = i + 1;
        }
        None
    }

    /// The first course whose id is the selector; else the first whose short
    /// name is; else the first whose name is.
    pub fn select_from<'a>(&self, courses: &'a [Course]) -> (r: Option<&'a Course>)
        ensures
            any_match(courses@, CourseField::Id, self.selector_view()) ==> (r matches Some(c)
                && exists|k: int|
                first_match(courses@, CourseField::Id, self.selector_view(), k) && *c
                    == courses@[k]),
            !any_match(courses@, CourseField::Id, self.selector_view()) && any_match(
                courses@,
                CourseField::ShortName,
                self.selector_view(),
            ) ==> (r matches Some(c) && exists|k: int|
                first_match(courses@, CourseField::ShortName, self.selector_view(), k) && *c
                    == courses@[k]),
            !any_match(courses@, CourseField::Id, self.selector_view()) && !any_match(
                courses@,
                CourseField::ShortName,
                self.selector_view(),
            ) && any_match(courses@, CourseField::Name, self.selector_view()) ==> (r matches Some(c)
                && exists|k: int|
                first_match(courses@, CourseField::Name, self.selector_view(), k) && *c
                    == courses@[k]),
            r is None <==> (!any_match(courses@, CourseField::Id, self.selector_view())
                && !any_match(courses@, CourseField::ShortName, self.selector_view())
                && !any_match(courses@, CourseField::Name, self.selector_view())),
    {
        match self.select_by(courses, CourseField::Id) {
            Some(c) => Some(c),
            None => match self.select_by(courses, CourseField::ShortName) {
                Some(c) => Some(c),
                None => self.select_by(courses, CourseField::Name),
            },
        }
    }
}

} // verus!
