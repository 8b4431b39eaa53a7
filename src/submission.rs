//! Submissions and the roster that maps each one to its students.
use vstd::prelude::*;

use crate::assignment::AssignmentId;
use crate::error::ReportError;
use crate::types::{Email, StudentId, StudentName};

verus! {

/// The id of one submission: the stem of its PDF's file name in the export.
#[derive(Debug, Hash, PartialEq, Eq)]
pub struct SubmissionId {
    id: String,
}

impl View for SubmissionId {
    type V = Seq<char>;

    closed spec fn view(&self) -> Seq<char> {
        self.id@
    }
}

impl Clone for SubmissionId {
    fn clone(&self) -> (r: Self)
        ensures
            r@ == self@,
    {
        SubmissionId { id: self.id.clone() }
    }
}

impl SubmissionId {
    pub fn new(id: String) -> (r: Self)
        ensures
            r@ == id@,
    {
        SubmissionId { id }
    }

    pub fn as_str(&self) -> (r: &str)
        ensures
            r@ == self@,
    {
        self.id.as_str()
    }

    pub fn same_as(&self, other: &SubmissionId) -> (r: bool)
        ensures
            r == (self@ == other@),
    {
        self.id == other.id
    }
}

/// A student as (id, name, email).
pub type StudentView = (Seq<char>, Seq<char>, Seq<char>);

/// A student who may have submitted.
#[derive(Debug)]
pub struct StudentSubmitter {
    id: StudentId,
    name: StudentName,
    email: Email,
}

impl View for StudentSubmitter {
    type V = StudentView;

    closed spec fn view(&self) -> StudentView {
        (self.id@, self.name@, self.email@)
    }
}

impl Clone for StudentSubmitter {
    fn clone(&self) -> (r: Self)
        ensures
            r@ == self@,
    {
        StudentSubmitter { id: self.id.clone(), name: self.name.clone(), email: self.email.clone() }
    }
}

pub open spec fn student_views(v: Seq<StudentSubmitter>) -> Seq<StudentView> {
    v.map_values(|s: StudentSubmitter| s@)
}

impl StudentSubmitter {
    pub fn new(id: StudentId, name: StudentName, email: Email) -> (r: Self)
        ensures
            r@ == (id@, name@, email@),
    {
        StudentSubmitter { id, name, email }
    }

    pub fn id(&self) -> (r: &StudentId)
        ensures
            r@ == self@.0,
    {
        &self.id
    }

    pub fn name(&self) -> (r: &StudentName)
        ensures
            r@ == self@.1,
    {
        &self.name
    }

    pub fn email(&self) -> (r: &Email)
        ensures
            r@ == self@.2,
    {
        &self.email
    }
}

/// A submission as the submissions manager lists it: its id and the ids of
/// the students on it.
#[derive(Debug)]
pub struct Submission {
    id: SubmissionId,
    active_user_ids: Vec<StudentId>,
}

impl Submission {
    pub closed spec fn id_view(&self) -> Seq<char> {
        self.id@
    }

    pub closed spec fn user_ids(&self) -> Seq<Seq<char>> {
        self.active_user_ids@.map_values(|i: StudentId| i@)
    }

    pub fn new(id: SubmissionId, active_user_ids: Vec<StudentId>) -> (r: Self)
        ensures
            r.id_view() == id@,
            r.user_ids() == active_user_ids@.map_values(|i: StudentId| i@),
    {
        Submission { id, active_user_ids }
    }
}

/// The student that `students` lists last under `id`: the one that a map
/// built from the list in order keeps.
pub open spec fn student_with_id(students: Seq<StudentView>, id: Seq<char>) -> Option<StudentView>
    decreases students.len(),
{
    if students.len() == 0 {
        None
    } else if students.last().0 == id {
        Some(students.last())
    } else {
        student_with_id(students.drop_last(), id)
    }
}

/// The students behind `ids` that the list has, in the order of `ids`; ids of
/// students no longer on the roster are left out.
pub open spec fn submitters_of(students: Seq<StudentView>, ids: Seq<Seq<char>>) -> Seq<StudentView>
    decreases ids.len(),
{
    if ids.len() == 0 {
        Seq::empty()
    } else {
        let rest = submitters_of(students, ids.drop_last());
        match student_with_id(students, ids.last()) {
            Some(s) => rest.push(s),
            None => rest,
        }
    }
}

/// One roster entry as (submission id, its students).
pub type RosterEntryView = (Seq<char>, Seq<StudentView>);

/// No two keys are the same.
pub open spec fn keys_unique(keys: Seq<Seq<char>>) -> bool {
    forall|i: int, j: int| 0 <= i < j < keys.len() ==> #[trigger] keys[i] != #[trigger] keys[j]
}

/// The submission ids of roster entries, in order.
pub open spec fn roster_keys(entries: Seq<RosterEntryView>) -> Seq<Seq<char>> {
    entries.map_values(|e: RosterEntryView| e.0)
}

/// The data of an assignment's submissions manager: the students and, under
/// each submission id, that submission. Like the map it comes from, it has one
/// entry per submission id.
#[derive(Debug)]
pub struct SubmissionsManagerProps {
    assignment_id: AssignmentId,
    students: Vec<StudentSubmitter>,
    submissions: Vec<(SubmissionId, Submission)>,
}

impl SubmissionsManagerProps {
    pub closed spec fn assignment_view(&self) -> Seq<char> {
        self.assignment_id@
    }

    pub closed spec fn students_view(&self) -> Seq<StudentView> {
        student_views(self.students@)
    }

    pub closed spec fn keys_view(&self) -> Seq<Seq<char>> {
        self.submissions@.map_values(|e: (SubmissionId, Submission)| e.0@)
    }

    pub closed spec fn submissions_view(&self) -> Seq<(Seq<char>, Seq<Seq<char>>)> {
        self.submissions@.map_values(
            |e: (SubmissionId, Submission)| (e.1.id_view(), e.1.user_ids()),
        )
    }

    /// Each submission id is listed once.
    pub open spec fn wf(&self) -> bool {
        keys_unique(self.keys_view())
    }

    /// The roster that the data gives: for each submission, in order, its key
    /// and its students.
    pub open spec fn roster_spec(&self) -> Seq<RosterEntryView> {
        Seq::new(
            self.keys_view().len(),
            |i: int| (self.keys_view()[i], submitters_of(self.students_view(), self.submissions_view()[i].1)),
        )
    }

    pub fn new(
        assignment_id: AssignmentId,
        students: Vec<StudentSubmitter>,
        submissions: Vec<(SubmissionId, Submission)>,
    ) -> (r: Self)
        requires
            keys_unique(submissions@.map_values(|e: (SubmissionId, Submission)| e.0@)),
        ensures
            r.wf(),
            r.assignment_view() == assignment_id@,
            r.students_view() == student_views(students@),
            r.keys_view() == submissions@.map_values(|e: (SubmissionId, Submission)| e.0@),
            r.submissions_view() == submissions@.map_values(
                |e: (SubmissionId, Submission)| (e.1.id_view(), e.1.user_ids()),
            ),
    {
        SubmissionsManagerProps { assignment_id, students, submissions }
    }

    pub fn assignment_id(&self) -> (r: &AssignmentId)
        ensures
            r@ == self.assignment_view(),
    {
        &self.assignment_id
    }

    /// The student that the list has last under `id`.
    fn student_with(&self, id: &StudentId) -> (r: Option<&StudentSubmitter>)
        ensures
            match student_with_id(self.students_view(), id@) {
                Some(s) => r matches Some(x) && x@ == s,
                None => r is None,
            },
    {
        let mut i = self.students.len();
        let ghost all = self.students_view();
        assert(all.take(i as int) =~= all);
        while i > 0
            invariant
                i <= self.students@.len(),
                all == self.students_view(),
                student_with_id(all, id@) == student_with_id(all.take(i as int), id@),
            decreases i,
        {
            if self.students[i - 1].id().same_as(id) {
                assert(all.take(i as int).last() == self.students@[i - 1]@);
                return Some(&self.students[i - 1]);
            }
            assert(all.take(i as int).drop_last() =~= all.take(i - 1));
            i = i - 1;
        }
        assert(all.take(0) =~= Seq::<StudentView>::empty());
        None
    }

    /// The students of one submission.
    fn submitters(&self, submission: &Submission) -> (r: Vec<StudentSubmitter>)
        ensures
            student_views(r@) == submitters_of(self.students_view(), submission.user_ids()),
    {
        let ghost ids = submission.user_ids();
        let mut out: Vec<StudentSubmitter> = Vec::new();
        let mut i: usize = 0;
        while i < submission.active_user_ids.len()
            invariant
                i <= submission.active_user_ids@.len(),
                ids == submission.user_ids(),
                student_views(out@) == submitters_of(self.students_view(), ids.take(i as int)),
            decreases submission.active_user_ids@.len() - i,
        {
            proof {
                assert(ids.take(i + 1).drop_last() =~= ids.take(i as int));
                assert(ids.take(i + 1).last() == submission.active_user_ids@[i as int]@);
            }
            match self.student_with(&submission.active_user_ids[i]) {
                Some(s) => {
                    let ghost before = student_views(out@);
                    out.push(s.clone());
                    assert(student_views(out@) =~= before.push(s@));
                },
                None => {},
            }
            i = i + 1;
        }
        assert(ids.take(i as int) =~= ids);
        out
    }

    /// The students of each submission, keyed by submission id. Fails on the
    /// first submission whose key differs from its own id.
    pub fn submission_to_student_map(&self) -> (r: Result<SubmissionToStudentMap, ReportError>)
        requires
            self.wf(),
        ensures
            r matches Ok(m) ==> m.wf(),
            (forall|i: int|
                0 <= i < self.keys_view().len() ==> self.keys_view()[i]
                    == self.submissions_view()[i].0) ==> (r matches Ok(m) && m.entries_view()
                == self.roster_spec()),
            (exists|i: int|
                0 <= i < self.keys_view().len() && self.keys_view()[i]
                    != self.submissions_view()[i].0) ==> (r matches Err(
                ReportError::MismatchedSubmissionKey(k),
            ) && exists|i: int|
                0 <= i < self.keys_view().len() && self.keys_view()[i] != self.submissions_view()[i].0
                    && k@ == self.keys_view()[i]),
    {
        let mut entries: Vec<(SubmissionId, Vec<StudentSubmitter>)> = Vec::new();
        let mut i: usize = 0;
        while i < self.submissions.len()
            invariant
                i <= self.submissions@.len(),
                forall|j: int| 0 <= j < i ==> self.keys_view()[j] == self.submissions_view()[j].0,
                entry_views(entries@) == self.roster_spec().take(i as int),
            decreases self.submissions@.len() - i,
        {
            let (key, submission) = &self.submissions[i];
            if !key.same_as(&submission.id) {
                assert(self.keys_view()[i as int] == key@);
                assert(self.submissions_view()[i as int].0 == submission.id_view());
                return Err(ReportError::MismatchedSubmissionKey(key.clone()));
            }
            let students = self.submitters(submission);
            let ghost before = entry_views(entries@);
            entries.push((key.clone(), students));
            proof {
                assert(entry_views(entries@) =~= before.push((key@, student_views(students@))));
                assert(self.roster_spec().take(i + 1) =~= self.roster_spec().take(i as int).push(
                    self.roster_spec()[i as int],
                ));
            }
            i = i + 1;
        }
        assert(self.roster_spec().take(i as int) =~= self.roster_spec());
        assert(roster_keys(entry_views(entries@)) =~= self.keys_view());
        Ok(SubmissionToStudentMap { entries })
    }
}

pub open spec fn entry_views(v: Seq<(SubmissionId, Vec<StudentSubmitter>)>) -> Seq<RosterEntryView> {
    v.map_values(|e: (SubmissionId, Vec<StudentSubmitter>)| (e.0@, student_views(e.1@)))
}

/// The students of the entry for `id` (the first one, where ids repeat).
pub open spec fn roster_lookup(entries: Seq<RosterEntryView>, id: Seq<char>) -> Option<Seq<StudentView>>
    decreases entries.len(),
{
    if entries.len() == 0 {
        None
    } else if entries[0].0 == id {
        Some(entries[0].1)
    } else {
        roster_lookup(entries.drop_first(), id)
    }
}

/// The roster: for each submission id, the students on that submission. It
/// has one entry per submission id, as the map it stands for does; a `Vec` of
/// entries holds it because a map keyed by text gives contracts nothing to
/// say about lookups.
#[derive(Debug)]
pub struct SubmissionToStudentMap {
    entries: Vec<(SubmissionId, Vec<StudentSubmitter>)>,
}

impl SubmissionToStudentMap {
    pub closed spec fn entries_view(&self) -> Seq<RosterEntryView> {
        entry_views(self.entries@)
    }

    /// Each submission id has one entry.
    pub open spec fn wf(&self) -> bool {
        keys_unique(roster_keys(self.entries_view()))
    }

    pub fn new(entries: Vec<(SubmissionId, Vec<StudentSubmitter>)>) -> (r: Self)
        requires
            keys_unique(roster_keys(entry_views(entries@))),
        ensures
            r.wf(),
            r.entries_view() == entry_views(entries@),
    {
        SubmissionToStudentMap { entries }
    }

    /// The students of submission `submission_id`, if the roster has it.
    pub fn students(&self, submission_id: &SubmissionId) -> (r: Option<&Vec<StudentSubmitter>>)
        ensures
            match roster_lookup(self.entries_view(), submission_id@) {
                Some(ss) => r matches Some(v) && student_views(v@) == ss,
                None => r is None,
            },
    {
        let ghost all = self.entries_view();
        let mut i: usize = 0;
        assert(all.skip(0) =~= all);
        while i < self.entries.len()
            invariant
                i <= self.entries@.len(),
                all == self.entries_view(),
                roster_lookup(all, submission_id@) == roster_lookup(all.skip(i as int), submission_id@),
            decreases self.entries@.len() - i,
        {
            assert(all.skip(i as int).drop_first() =~= all.skip(i + 1));
            if self.entries[i].0.same_as(submission_id) {
                return Some(&self.entries[i].1);
            }
            i = i + 1;
        }
        None
    }
}

} // verus!
