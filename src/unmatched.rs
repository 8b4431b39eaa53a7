//! The questions of an outline that a submission's pages never matched.
use vstd::prelude::*;

use crate::question::{
    lemma_number_lt_transitive, lemma_number_lt_trichotomy, number_lt, number_views, question_text,
    question_views, Question, QuestionNumber,
};
use crate::error::ReportError;
use crate::submission::{roster_lookup, StudentSubmitter, SubmissionId, SubmissionToStudentMap};

verus! {

broadcast use {vstd::seq_lib::group_seq_properties, vstd::set::group_set_axioms};

/// The numbers of the questions, in order.
pub open spec fn numbers_of(questions: Seq<(Seq<char>, Seq<u8>)>) -> Seq<Seq<u8>> {
    questions.map_values(|q: (Seq<char>, Seq<u8>)| q.1)
}

/// The questions whose number is not among `matched`, in their order.
pub open spec fn unmatched_of(questions: Seq<(Seq<char>, Seq<u8>)>, matched: Seq<Seq<u8>>) -> Seq<
    (Seq<char>, Seq<u8>),
> {
    questions.filter(|q: (Seq<char>, Seq<u8>)| !matched.contains(q.1))
}

/// A question of the outline without any page matched to it.
#[derive(Debug)]
pub struct UnmatchedQuestion {
    question: Question,
}

impl View for UnmatchedQuestion {
    type V = (Seq<char>, Seq<u8>);

    closed spec fn view(&self) -> (Seq<char>, Seq<u8>) {
        self.question@
    }
}

impl Clone for UnmatchedQuestion {
    fn clone(&self) -> (r: Self)
        ensures
            r@ == self@,
    {
        UnmatchedQuestion { question: self.question.clone() }
    }
}

pub open spec fn unmatched_views(v: Seq<UnmatchedQuestion>) -> Seq<(Seq<char>, Seq<u8>)> {
    v.map_values(|q: UnmatchedQuestion| q@)
}

impl UnmatchedQuestion {
    pub fn new(question: Question) -> (r: Self)
        ensures
            r@ == question@,
    {
        UnmatchedQuestion { question }
    }

    pub fn question(&self) -> (r: &Question)
        ensures
            r@ == self@,
    {
        &self.question
    }

    /// "number: title".
    pub fn to_string(&self) -> (r: String)
        ensures
            r@ == question_text(self@),
    {
        self.question.to_string()
    }
}

/// A submission with at least one unmatched question.
#[derive(Debug)]
pub struct UnmatchedSubmission {
    id: SubmissionId,
    unmatched_questions: Vec<UnmatchedQuestion>,
}

impl Clone for UnmatchedSubmission {
    fn clone(&self) -> (r: Self)
        ensures
            r.id_view() == self.id_view(),
            r.questions_view() == self.questions_view(),
    {
        let mut qs: Vec<UnmatchedQuestion> = Vec::new();
        let mut i: usize = 0;
        while i < self.unmatched_questions.len()
            invariant
                i <= self.unmatched_questions@.len(),
                unmatched_views(qs@) == unmatched_views(self.unmatched_questions@).take(i as int),
            decreases self.unmatched_questions@.len() - i,
        {
            let c = self.unmatched_questions[i].clone();
            let ghost before = unmatched_views(qs@);
            qs.push(c);
            assert(unmatched_views(qs@) =~= before.push(c@));
            i = i + 1;
            assert(unmatched_views(qs@) =~= unmatched_views(self.unmatched_questions@).take(
                i as int,
            ));
        }
        assert(unmatched_views(qs@) =~= unmatched_views(self.unmatched_questions@));
        UnmatchedSubmission { id: self.id.clone(), unmatched_questions: qs }
    }
}

impl UnmatchedSubmission {
    pub closed spec fn id_view(&self) -> Seq<char> {
        self.id@
    }

    pub closed spec fn questions_view(&self) -> Seq<(Seq<char>, Seq<u8>)> {
        unmatched_views(self.unmatched_questions@)
    }

    pub fn new(id: SubmissionId, unmatched_questions: Vec<UnmatchedQuestion>) -> (r: Self)
        requires
            unmatched_questions@.len() > 0,
        ensures
            r.id_view() == id@,
            r.questions_view() == unmatched_views(unmatched_questions@),
    {
        UnmatchedSubmission { id, unmatched_questions }
    }

    pub fn id(&self) -> (r: &SubmissionId)
        ensures
            r@ == self.id_view(),
    {
        &self.id
    }

    pub fn questions(&self) -> (r: &Vec<UnmatchedQuestion>)
        ensures
            unmatched_views(r@) == self.questions_view(),
    {
        &self.unmatched_questions
    }

    /// One record per student of the submission, each with the submission;
    /// a single error where the roster does not have the submission.
    pub fn submitters(self, submission_to_student_map: &SubmissionToStudentMap) -> (r: Vec<
        Result<NonmatchingSubmitter, ReportError>,
    >)
        ensures
            match roster_lookup(submission_to_student_map.entries_view(), self.id_view()) {
                None => r@.len() == 1 && (r@[0] matches Err(ReportError::RosterMismatch(id))
                    && id@ == self.id_view()),
                Some(students) => r@.len() == students.len() && forall|i: int|
                    0 <= i < students.len() ==> (#[trigger] r@[i] matches Ok(n) && n.student@
                        == students[i] && n.submission.id_view() == self.id_view()
                        && n.submission.questions_view() == self.questions_view()),
            },
    {
        let mut out: Vec<Result<NonmatchingSubmitter, ReportError>> = Vec::new();
        match submission_to_student_map.students(&self.id) {
            None => {
                out.push(Err(ReportError::RosterMismatch(self.id.clone())));
            },
            Some(students) => {
                let mut i: usize = 0;
                while i < students.len()
                    invariant
                        i <= students@.len(),
                        out@.len() == i,
                        forall|j: int|
                            0 <= j < i ==> (#[trigger] out@[j] matches Ok(n) && n.student@
                                == students@[j]@ && n.submission.id_view() == self.id_view()
                                && n.submission.questions_view() == self.questions_view()),
                    decreases students@.len() - i,
                {
                    let n = NonmatchingSubmitter::new(students[i].clone(), self.clone());
                    out.push(Ok(n));
                    i = i + 1;
                }
            },
        }
        out
    }
}

/// A student whose submission has unmatched questions.
#[derive(Debug)]
pub struct NonmatchingSubmitter {
    pub student: StudentSubmitter,
    pub submission: UnmatchedSubmission,
}

impl NonmatchingSubmitter {
    pub fn new(student: StudentSubmitter, submission: UnmatchedSubmission) -> (r: Self)
        ensures
            r.student == student,
            r.submission == submission,
    {
        NonmatchingSubmitter { student, submission }
    }

    pub fn student(&self) -> (r: &StudentSubmitter)
        ensures
            r == &self.student,
    {
        &self.student
    }

    pub fn submission(&self) -> (r: &UnmatchedSubmission)
        ensures
            r == &self.submission,
    {
        &self.submission
    }
}

/// Each number sorts before the next, so none repeats.
pub open spec fn strictly_sorted(s: Seq<Seq<u8>>) -> bool {
    forall|i: int, j: int| 0 <= i < j < s.len() ==> number_lt(#[trigger] s[i], #[trigger] s[j])
}

/// Where `q` belongs in the sorted `set`, and whether it is there.
fn sorted_position(set: &Vec<QuestionNumber>, q: &QuestionNumber) -> (r: (bool, usize))
    requires
        strictly_sorted(number_views(set@)),
    ensures
        r.1 <= set@.len(),
        forall|i: int| 0 <= i < r.1 ==> number_lt(#[trigger] number_views(set@)[i], q@),
        forall|i: int|
            r.1 <= i < set@.len() ==> !number_lt(#[trigger] number_views(set@)[i], q@),
        r.0 == number_views(set@).contains(q@),
        r.0 ==> number_views(set@)[r.1 as int] == q@,
{
    let ghost s = number_views(set@);
    let mut lo: usize = 0;
    let mut hi: usize = set.len();
    while lo < hi
        invariant
            s == number_views(set@),
            strictly_sorted(s),
            lo <= hi <= set@.len(),
            forall|i: int| 0 <= i < lo ==> number_lt(#[trigger] s[i], q@),
            forall|i: int| hi <= i < set@.len() ==> !number_lt(#[trigger] s[i], q@),
        decreases hi - lo,
    {
        let mid = lo + (hi - lo) / 2;
        let c = set[mid].compare(q);
        if c < 0 {
            proof {
                assert forall|i: int| 0 <= i < mid + 1 implies number_lt(#[trigger] s[i], q@) by {
                    if i < mid {
                        lemma_number_lt_transitive(s[i], s[mid as int], q@);
                    }
                }
            }
            lo = mid + 1;
        } else {
            proof {
                assert forall|i: int| mid <= i < set@.len() implies !number_lt(#[trigger] s[i], q@) by {
                    if i > mid && number_lt(s[i], q@) {
                        lemma_number_lt_transitive(s[mid as int], s[i], q@);
                    }
                }
            }
            hi = mid;
        }
    }
    let found = lo < set.len() && set[lo].compare(q) == 0;
    proof {
        if s.contains(q@) {
            let k = choose|k: int| 0 <= k < s.len() && s[k] == q@;
            lemma_number_lt_trichotomy(q@, q@);
            if k > lo {
                lemma_number_lt_trichotomy(s[lo as int], q@);
            }
        }
    }
    (found, lo)
}

/// The distinct numbers of `numbers`, sorted.
pub fn sorted_numbers(numbers: &Vec<QuestionNumber>) -> (r: Vec<QuestionNumber>)
    ensures
        strictly_sorted(number_views(r@)),
        forall|x: Seq<u8>| number_views(r@).contains(x) <==> number_views(numbers@).contains(x),
{
    let ghost all = number_views(numbers@);
    let mut set: Vec<QuestionNumber> = Vec::new();
    let mut i: usize = 0;
    while i < numbers.len()
        invariant
            i <= numbers@.len(),
            all == number_views(numbers@),
            strictly_sorted(number_views(set@)),
            forall|x: Seq<u8>| number_views(set@).contains(x) <==> all.take(i as int).contains(x),
        decreases numbers@.len() - i,
    {
        let q = &numbers[i];
        let (found, pos) = sorted_position(&set, q);
        let ghost before = number_views(set@);
        proof {
            assert(all.take(i + 1) =~= all.take(i as int).push(q@));
        }
        if !found {
            set.insert(pos, q.clone());
            proof {
                let t = number_views(set@);
                assert(t =~= before.insert(pos as int, q@));
                assert forall|a: int, b: int| 0 <= a < b < t.len() implies number_lt(
                    #[trigger] t[a],
                    #[trigger] t[b],
                ) by {
                    if a < pos && b > pos {
                        assert(t[b] == before[b - 1]);
                    } else if a == pos as int {
                        assert(t[b] == before[b - 1]);
                        lemma_number_lt_trichotomy(before[b - 1], q@);
                    } else if a > pos {
                        assert(t[a] == before[a - 1]);
                        assert(t[b] == before[b - 1]);
                    }
                }
                assert forall|x: Seq<u8>| t.contains(x) <==> all.take(i + 1).contains(x) by {
                    if t.contains(x) {
                        let k = choose|k: int| 0 <= k < t.len() && t[k] == x;
                        if k < pos {
                            assert(before[k] == x);
                        } else if k > pos {
                            assert(before[k - 1] == x);
                        }
                    }
                    if before.contains(x) {
                        let k = choose|k: int| 0 <= k < before.len() && before[k] == x;
                        if k < pos {
                            assert(t[k] == x);
                        } else {
                            assert(t[k + 1] == x);
                        }
                    }
                    if x == q@ {
                        assert(t[pos as int] == x);
                    }
                }
            }
        }
        i = i + 1;
    }
    assert(all.take(i as int) =~= all);
    set
}

/// The questions of `all_questions` whose number is not among `matched`, in
/// outline order. `matched` is first reduced to a sorted set of distinct
/// numbers, which each question is then looked up in by binary search.
pub fn diff_unmatched(all_questions: &[Question], matched: &Vec<QuestionNumber>) -> (r: Vec<
    UnmatchedQuestion,
>)
    ensures
        unmatched_views(r@) == unmatched_of(question_views(all_questions@), number_views(matched@)),
{
    let ghost qs = question_views(all_questions@);
    let ghost ms = number_views(matched@);
    let set = sorted_numbers(matched);
    let mut out: Vec<UnmatchedQuestion> = Vec::new();
    let mut i: usize = 0;
    while i < all_questions.len()
        invariant
            i <= all_questions@.len(),
            qs == question_views(all_questions@),
            ms == number_views(matched@),
            strictly_sorted(number_views(set@)),
            forall|x: Seq<u8>| number_views(set@).contains(x) <==> ms.contains(x),
            unmatched_views(out@) == unmatched_of(qs.take(i as int), ms),
        decreases all_questions@.len() - i,
    {
        let q = &all_questions[i];
        proof {
            assert(qs.take(i + 1) =~= qs.take(i as int).push(q@));
            qs.take(i as int).lemma_filter_push(
                q@,
                |q: (Seq<char>, Seq<u8>)| !ms.contains(q.1),
            );
        }
        let (found, _) = sorted_position(&set, q.number());
        if !found {
            let ghost before = unmatched_views(out@);
            out.push(UnmatchedQuestion::new(q.clone()));
            assert(unmatched_views(out@) =~= before.push(q@));
        }
        i = i + 1;
    }
    assert(qs.take(i as int) =~= qs);
    out
}

proof fn lemma_unmatched_count_general(
    questions: Seq<(Seq<char>, Seq<u8>)>,
    matched: Seq<Seq<u8>>,
)
    requires
        numbers_of(questions).no_duplicates(),
    ensures
        unmatched_of(questions, matched).len() + matched.to_set().intersect(
            numbers_of(questions).to_set(),
        ).len() == questions.len(),
        matched.to_set().intersect(numbers_of(questions).to_set()).finite(),
    decreases questions.len(),
{
    let s = matched.to_set();
    if questions.len() == 0 {
        assert(numbers_of(questions).to_set() =~= Set::empty());
        assert(s.intersect(numbers_of(questions).to_set()) =~= Set::empty());
        assert(unmatched_of(questions, matched) =~= Seq::empty());
    } else {
        let init = questions.drop_last();
        let x = questions.last();
        assert(init.push(x) =~= questions);
        assert(numbers_of(questions) =~= numbers_of(init).push(x.1));
        assert(numbers_of(init).no_duplicates()) by {
            assert forall|a: int, b: int|
                0 <= a < numbers_of(init).len() && 0 <= b < numbers_of(init).len() && a != b
                    implies numbers_of(init)[a] != numbers_of(init)[b] by {
                assert(numbers_of(init)[a] == numbers_of(questions)[a]);
                assert(numbers_of(init)[b] == numbers_of(questions)[b]);
            }
        }
        lemma_unmatched_count_general(init, matched);
        init.lemma_filter_push(x, |q: (Seq<char>, Seq<u8>)| !matched.contains(q.1));
        numbers_of(init).lemma_push_to_set_commute(x.1);
        let a = numbers_of(init).to_set();
        assert(!a.contains(x.1)) by {
            if a.contains(x.1) {
                let j = choose|j: int| 0 <= j < numbers_of(init).len() && numbers_of(init)[j] == x.1;
                assert(numbers_of(questions)[j] == numbers_of(questions)[init.len() as int]);
            }
        }
        let before = s.intersect(a);
        if s.contains(x.1) {
            assert(s.intersect(a.insert(x.1)) =~= before.insert(x.1));
        } else {
            assert(s.intersect(a.insert(x.1)) =~= before);
        }
    }
}

/// `idx` are increasing positions of `b` that hold the items of `a`, in order.
pub open spec fn subsequence_at<A>(a: Seq<A>, b: Seq<A>, idx: Seq<int>) -> bool {
    &&& idx.len() == a.len()
    &&& forall|i: int| 0 <= i < idx.len() ==> 0 <= #[trigger] idx[i] < b.len() && a[i] == b[idx[i]]
    &&& forall|i: int, j: int| 0 <= i < j < idx.len() ==> #[trigger] idx[i] < #[trigger] idx[j]
}

/// `a` is `b` with some items left out, the rest in their order and each once.
pub open spec fn is_subsequence<A>(a: Seq<A>, b: Seq<A>) -> bool {
    exists|idx: Seq<int>| #[trigger] subsequence_at(a, b, idx)
}

proof fn lemma_filter_subsequence<A>(b: Seq<A>, pred: spec_fn(A) -> bool)
    ensures
        is_subsequence(b.filter(pred), b),
    decreases b.len(),
{
    if b.len() == 0 {
        assert(b.filter(pred) =~= Seq::<A>::empty()) by {
            reveal_with_fuel(Seq::filter, 1);
        }
        assert(subsequence_at(b.filter(pred), b, Seq::<int>::empty()));
    } else {
        let init = b.drop_last();
        let x = b.last();
        assert(init.push(x) =~= b);
        lemma_filter_subsequence(init, pred);
        init.lemma_filter_push(x, pred);
        let idx = choose|idx: Seq<int>| #[trigger] subsequence_at(init.filter(pred), init, idx);
        let a = b.filter(pred);
        if pred(x) {
            let idx2 = idx.push(b.len() - 1);
            assert forall|i: int| 0 <= i < idx2.len() implies 0 <= #[trigger] idx2[i] < b.len()
                && a[i] == b[idx2[i]] by {
                if i < idx.len() {
                    assert(idx2[i] == idx[i]);
                    assert(a[i] == init.filter(pred)[i]);
                    assert(b[idx[i]] == init[idx[i]]);
                }
            }
            assert(subsequence_at(a, b, idx2));
        } else {
            assert forall|i: int| 0 <= i < idx.len() implies 0 <= #[trigger] idx[i] < b.len()
                && a[i] == b[idx[i]] by {
                assert(b[idx[i]] == init[idx[i]]);
            }
            assert(subsequence_at(a, b, idx));
        }
    }
}

/// The questions that a diff leaves are those of the outline in outline
/// order: the outline with some questions left out, none repeated or moved.
pub proof fn lemma_unmatched_in_outline_order(
    questions: Seq<(Seq<char>, Seq<u8>)>,
    matched: Seq<Seq<u8>>,
)
    ensures
        is_subsequence(unmatched_of(questions, matched), questions),
{
    lemma_filter_subsequence(questions, |q: (Seq<char>, Seq<u8>)| !matched.contains(q.1));
}

/// Diffing the questions of an outline, whose numbers are unique, against
/// matched numbers that all come from the outline leaves exactly the other
/// questions: as many as the outline has less the number of distinct matched
/// numbers, none of them matched, each one of the outline's. The diff is a
/// filter of the outline, so they come in outline order.
pub proof fn lemma_unmatched_count(questions: Seq<(Seq<char>, Seq<u8>)>, matched: Seq<Seq<u8>>)
    requires
        numbers_of(questions).no_duplicates(),
        forall|m: Seq<u8>| matched.contains(m) ==> numbers_of(questions).contains(m),
    ensures
        unmatched_of(questions, matched).len() == questions.len() - matched.to_set().len(),
        forall|i: int|
            0 <= i < unmatched_of(questions, matched).len() ==> !matched.contains(
                #[trigger] unmatched_of(questions, matched)[i].1,
            ) && questions.contains(unmatched_of(questions, matched)[i]),
        is_subsequence(unmatched_of(questions, matched), questions),
{
    lemma_unmatched_in_outline_order(questions, matched);
    lemma_unmatched_count_general(questions, matched);
    assert(matched.to_set().intersect(numbers_of(questions).to_set()) =~= matched.to_set());
    let pred = |q: (Seq<char>, Seq<u8>)| !matched.contains(q.1);
    let u = unmatched_of(questions, matched);
    assert forall|i: int| 0 <= i < u.len() implies !matched.contains(#[trigger] u[i].1)
        && questions.contains(u[i]) by {
        questions.lemma_filter_pred(pred, i);
        assert(u.contains(u[i]));
        questions.lemma_filter_contains_rev(pred, u[i]);
    }
}

} // verus!
