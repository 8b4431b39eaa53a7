//! Assignments of a course.
use vstd::prelude::*;

verus! {

/// An assignment's id on the platform.
#[derive(Debug, Hash, PartialEq, Eq)]
pub struct AssignmentId {
    id: String,
}

impl View for AssignmentId {
    type V = Seq<char>;

    closed spec fn view(&self) -> Seq<char> {
        self.id@
    }
}

impl Clone for AssignmentId {
    fn clone(&self) -> (r: Self)
        ensures
            r@ == self@,
    {
        AssignmentId { id: self.id.clone() }
    }
}

impl AssignmentId {
    pub fn new(id: String) -> (r: Self)
        ensures
            r@ == id@,
    {
        AssignmentId { id }
    }

    pub fn as_str(&self) -> (r: &str)
        ensures
            r@ == self@,
    {
        self.id.as_str()
    }
}

/// An assignment's title.
#[derive(Debug, Hash, PartialEq, Eq, PartialOrd, Ord)]
pub struct AssignmentName {
    name: String,
}

impl View for AssignmentName {
    type V = Seq<char>;

    closed spec fn view(&self) -> Seq<char> {
        self.name@
    }
}

impl Clone for AssignmentName {
    fn clone(&self) -> (r: Self)
        ensures
            r@ == self@,
    {
        AssignmentName { name: self.name.clone() }
    }
}

impl AssignmentName {
    pub fn new(name: String) -> (r: Self)
        ensures
            r@ == name@,
    {
        AssignmentName { name }
    }

    pub fn as_str(&self) -> (r: &str)
        ensures
            r@ == self@,
    {
        self.name.as_str()
    }
}

/// An assignment of a course, by its id and title. (Its point total is a
/// floating-point number, which this library does not hold.)
#[derive(Debug)]
pub struct Assignment {
    id: AssignmentId,
    name: AssignmentName,
}

impl View for Assignment {
    type V = (Seq<char>, Seq<char>);

    closed spec fn view(&self) -> (Seq<char>, Seq<char>) {
        (self.id@, self.name@)
    }
}

impl Clone for Assignment {
    fn clone(&self) -> (r: Self)
        ensures
            r@ == self@,
    {
        Assignment { id: self.id.clone(), name: self.name.clone() }
    }
}

impl Assignment {
    pub fn new(id: AssignmentId, name: AssignmentName) -> (r: Self)
        ensures
            r@ == (id@, name@),
    {
        Assignment { id, name }
    }

    pub fn id(&self) -> (r: &AssignmentId)
        ensures
            r@ == self@.0,
    {
        &self.id
    }

    pub fn name(&self) -> (r: &AssignmentName)
        ensures
            r@ == self@.1,
    {
        &self.name
    }
}

/// `k` is the first position of `assignments` whose id (`by_id`) or name is
/// `s`.
pub open spec fn first_assignment(assignments: Seq<Assignment>, by_id: bool, s: Seq<char>, k: int) -> bool {
    0 <= k < assignments.len() && assignment_key(assignments[k]@, by_id) == s && forall|j: int|
        0 <= j < k ==> assignment_key(#[trigger] assignments[j]@, by_id) != s
}

pub open spec fn assignment_key(a: (Seq<char>, Seq<char>), by_id: bool) -> Seq<char> {
    if by_id {
        a.0
    } else {
        a.1
    }
}

pub open spec fn any_assignment(assignments: Seq<Assignment>, by_id: bool, s: Seq<char>) -> bool {
    exists|k: int| 0 <= k < assignments.len() && assignment_key(#[trigger] assignments[k]@, by_id) == s
}

/// Picks an assignment by its id, else by its name.
#[derive(Debug)]
pub struct AssignmentSelector {
    selector: String,
}

impl AssignmentSelector {
    pub closed spec fn selector_view(&self) -> Seq<char> {
        self.selector@
    }

    pub fn new(selector: String) -> (r: Self)
        ensures
            r.selector_view() == selector@,
    {
        AssignmentSelector { selector }
    }

    fn select_by<'a>(&self, assignments: &'a [Assignment], by_id: bool) -> (r: Option<&'a Assignment>)
        ensures
            match r {
                Some(a) => exists|k: int|
                    first_assignment(assignments@, by_id, self.selector_view(), k) && *a
                        == assignments@[k],
                None => !any_assignment(assignments@, by_id, self.selector_view()),
            },
    {
        let mut i: usize = 0;
        while i < assignments.len()
            invariant
                i <= assignments@.len(),
                forall|j: int|
                    0 <= j < i ==> assignment_key(#[trigger] assignments@[j]@, by_id)
                        != self.selector_view(),
            decreases assignments@.len() - i,
        {
            let a = &assignments[i];
            let key: &String = if by_id {
                &a.id.id
            } else {
                &a.name.name
            };
            if *key == self.selector {
                assert(first_assignment(assignments@, by_id, self.selector_view(), i as int));
                return Some(a);
            }
            i = i + 1;
        }
        None
    }

    fn select_as_id<'a>(&self, assignments: &'a [Assignment]) -> (r: Option<&'a Assignment>)
        ensures
            match r {
                Some(a) => exists|k: int|
                    first_assignment(assignments@, true, self.selector_view(), k) && *a
                        == assignments@[k],
                None => !any_assignment(assignments@, true, self.selector_view()),
            },
    {
        self.select_by(assignments, true)
    }

    fn select_as_name<'a>(&self, assignments: &'a [Assignment]) -> (r: Option<&'a Assignment>)
        ensures
            match r {
                Some(a) => exists|k: int|
                    first_assignment(assignments@, false, self.selector_view(), k) && *a
                        == assignments@[k],
                None => !any_assignment(assignments@, false, self.selector_view()),
            },
    {
        self.select_by(assignments, false)
    }

    /// The first assignment whose id is the selector, else the first whose
    /// name is; `None` where neither is found.
    pub fn select_from<'a>(&self, assignments: &'a [Assignment]) -> (r: Option<&'a Assignment>)
        ensures
            any_assignment(assignments@, true, self.selector_view()) ==> (r matches Some(a)
                && exists|k: int|
                first_assignment(assignments@, true, self.selector_view(), k) && *a
                    == assignments@[k]),
            !any_assignment(assignments@, true, self.selector_view()) && any_assignment(
                assignments@,
                false,
                self.selector_view(),
            ) ==> (r matches Some(a) && exists|k: int|
                first_assignment(assignments@, false, self.selector_view(), k) && *a
                    == assignments@[k]),
            r is None <==> (!any_assignment(assignments@, true, self.selector_view())
                && !any_assignment(assignments@, false, self.selector_view())),
    {
        match self.select_as_id(assignments) {
            Some(a) => Some(a),
            None => self.select_as_name(assignments),
        }
    }
}

} // verus!
