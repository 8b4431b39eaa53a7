//! Homework numbers, and pairs of an individual homework and a groupwork that
//! share a number.
//!
//! For each homework number there is usually an individual assignment and a
//! groupwork, but either may be missing; a `Pair` holds what there is, and
//! always at least one of the two.
use vstd::prelude::*;

use crate::assignment::Assignment;

verus! {

/// A homework's number, kept as text in case it stops being an integer.
#[derive(Debug, Copy, Clone, Hash, PartialEq, Eq, PartialOrd, Ord)]
pub struct HwNumber<'a> {
    number: &'a str,
}

impl<'a> View for HwNumber<'a> {
    type V = Seq<char>;

    closed spec fn view(&self) -> Seq<char> {
        self.number@
    }
}

impl<'a> HwNumber<'a> {
    pub fn new(number: &'a str) -> (r: Self)
        ensures
            r@ == number@,
    {
        HwNumber { number }
    }

    pub fn as_str(self) -> (r: &'a str)
        ensures
            r@ == self@,
    {
        self.number
    }

    /// Whether the two numbers are the same text.
    pub fn same_as(self, other: HwNumber<'a>) -> (r: bool)
        ensures
            r == (self@ == other@),
    {
        let n = self.number.unicode_len();
        if n != other.number.unicode_len() {
            return false;
        }
        let mut i: usize = 0;
        while i < n
            invariant
                n == self@.len(),
                n == other@.len(),
                i <= n,
                forall|j: int| 0 <= j < i ==> self@[j] == other@[j],
            decreases n - i,
        {
            if self.number.get_char(i) != other.number.get_char(i) {
                return false;
            }
            i = i + 1;
        }
        assert(self@ =~= other@);
        true
    }
}

/// A thing with a homework number.
pub trait HasHwNumber<'a> {
    spec fn number_view(&self) -> Seq<char>;

    fn number(&self) -> (r: HwNumber<'a>)
        ensures
            r@ == self.number_view();
}

/// `s` without `prefix`, where it starts with `prefix`.
pub open spec fn strip_prefix_spec(s: Seq<char>, prefix: Seq<char>) -> Option<Seq<char>> {
    if prefix.len() <= s.len() && s.subrange(0, prefix.len() as int) == prefix {
        Some(s.subrange(prefix.len() as int, s.len() as int))
    } else {
        None
    }
}

fn strip_prefix<'a>(s: &'a str, prefix: &str) -> (r: Option<&'a str>)
    ensures
        match strip_prefix_spec(s@, prefix@) {
            Some(t) => r matches Some(x) && x@ == t,
            None => r is None,
        },
{
    let n = s.unicode_len();
    let k = prefix.unicode_len();
    if k > n {
        return None;
    }
    let mut i: usize = 0;
    while i < k
        invariant
            n == s@.len(),
            k == prefix@.len(),
            k <= n,
            i <= k,
            forall|j: int| 0 <= j < i ==> s@[j] == prefix@[j],
        decreases k - i,
    {
        if s.get_char(i) != prefix.get_char(i) {
            assert(s@.subrange(0, k as int)[i as int] != prefix@[i as int]);
            return None;
        }
        i = i + 1;
    }
    assert(s@.subrange(0, k as int) =~= prefix@);
    Some(s.substring_char(k, n))
}

pub const HOMEWORK_PREFIX: &'static str = "Homework ";

pub const GROUPWORK_PREFIX: &'static str = "Groupwork ";

/// The homework numbers that the titles carry after `prefix`, in order;
/// titles without the prefix are left out.
pub open spec fn numbers_after(titles: Seq<Seq<char>>, prefix: Seq<char>) -> Seq<Seq<char>>
    decreases titles.len(),
{
    if titles.len() == 0 {
        Seq::empty()
    } else {
        let rest = numbers_after(titles.drop_last(), prefix);
        match strip_prefix_spec(titles.last(), prefix) {
            Some(t) => rest.push(t),
            None => rest,
        }
    }
}

pub open spec fn titles_of(assignments: Seq<Assignment>) -> Seq<Seq<char>> {
    assignments.map_values(|a: Assignment| a@.1)
}

/// An individual homework: an assignment titled "Homework {number}".
#[derive(Debug, Clone, Copy)]
pub struct Individual<'a> {
    number: HwNumber<'a>,
    assignment: &'a Assignment,
}

/// A groupwork: an assignment titled "Groupwork {number}".
#[derive(Debug, Clone, Copy)]
pub struct Groupwork<'a> {
    number: HwNumber<'a>,
    assignment: &'a Assignment,
}

impl<'a> HasHwNumber<'a> for Individual<'a> {
    closed spec fn number_view(&self) -> Seq<char> {
        self.number@
    }

    fn number(&self) -> (r: HwNumber<'a>) {
        self.number
    }
}

impl<'a> HasHwNumber<'a> for Groupwork<'a> {
    closed spec fn number_view(&self) -> Seq<char> {
        self.number@
    }

    fn number(&self) -> (r: HwNumber<'a>) {
        self.number
    }
}

impl<'a> Individual<'a> {
    /// The individual homework that `assignment` is, if its title is
    /// "Homework {number}".
    pub fn from_assignment(assignment: &'a Assignment) -> (r: Option<Self>)
        ensures
            match strip_prefix_spec(assignment@.1, HOMEWORK_PREFIX@) {
                Some(t) => r matches Some(h) && h.number_view() == t && h.assignment_view() == *assignment,
                None => r is None,
            },
    {
        match strip_prefix(assignment.name().as_str(), HOMEWORK_PREFIX) {
            Some(n) => Some(Individual { number: HwNumber::new(n), assignment }),
            None => None,
        }
    }

    pub closed spec fn assignment_view(&self) -> Assignment {
        *self.assignment
    }

    pub fn assignment(&self) -> (r: &'a Assignment)
        ensures
            *r == self.assignment_view(),
    {
        self.assignment
    }

    /// The individual homeworks among `assignments`, in order.
    pub fn get_from(assignments: &'a [Assignment]) -> (r: Vec<Individual<'a>>)
        ensures
            r@.map_values(|h: Individual<'a>| h.number_view()) == numbers_after(
                titles_of(assignments@),
                HOMEWORK_PREFIX@,
            ),
    {
        let ghost titles = titles_of(assignments@);
        let mut out: Vec<Individual<'a>> = Vec::new();
        let mut i: usize = 0;
        while i < assignments.len()
            invariant
                i <= assignments@.len(),
                titles == titles_of(assignments@),
                out@.map_values(|h: Individual<'a>| h.number_view()) == numbers_after(
                    titles.take(i as int),
                    HOMEWORK_PREFIX@,
                ),
            decreases assignments@.len() - i,
        {
            proof {
                assert(titles.take(i + 1).drop_last() =~= titles.take(i as int));
                assert(titles.take(i + 1).last() == assignments@[i as int]@.1);
            }
            let ghost before = out@.map_values(|h: Individual<'a>| h.number_view());
            match Individual::from_assignment(&assignments[i]) {
                Some(h) => {
                    out.push(h);
                    assert(out@.map_values(|h: Individual<'a>| h.number_view()) =~= before.push(
                        h.number_view(),
                    ));
                },
                None => {},
            }
            i = i + 1;
        }
        assert(titles.take(i as int) =~= titles);
        out
    }
}

impl<'a> Groupwork<'a> {
    /// The groupwork that `assignment` is, if its title is
    /// "Groupwork {number}".
    pub fn from_assignment(assignment: &'a Assignment) -> (r: Option<Self>)
        ensures
            match strip_prefix_spec(assignment@.1, GROUPWORK_PREFIX@) {
                Some(t) => r matches Some(h) && h.number_view() == t && h.assignment_view() == *assignment,
                None => r is None,
            },
    {
        match strip_prefix(assignment.name().as_str(), GROUPWORK_PREFIX) {
            Some(n) => Some(Groupwork { number: HwNumber::new(n), assignment }),
            None => None,
        }
    }

    pub closed spec fn assignment_view(&self) -> Assignment {
        *self.assignment
    }

    pub fn assignment(&self) -> (r: &'a Assignment)
        ensures
            *r == self.assignment_view(),
    {
        self.assignment
    }

    /// The groupworks among `assignments`, in order.
    pub fn get_from(assignments: &'a [Assignment]) -> (r: Vec<Groupwork<'a>>)
        ensures
            r@.map_values(|h: Groupwork<'a>| h.number_view()) == numbers_after(
                titles_of(assignments@),
                GROUPWORK_PREFIX@,
            ),
    {
        let ghost titles = titles_of(assignments@);
        let mut out: Vec<Groupwork<'a>> = Vec::new();
        let mut i: usize = 0;
        while i < assignments.len()
            invariant
                i <= assignments@.len(),
                titles == titles_of(assignments@),
                out@.map_values(|h: Groupwork<'a>| h.number_view()) == numbers_after(
                    titles.take(i as int),
                    GROUPWORK_PREFIX@,
                ),
            decreases assignments@.len() - i,
        {
            proof {
                assert(titles.take(i + 1).drop_last() =~= titles.take(i as int));
                assert(titles.take(i + 1).last() == assignments@[i as int]@.1);
            }
            let ghost before = out@.map_values(|h: Groupwork<'a>| h.number_view());
            match Groupwork::from_assignment(&assignments[i]) {
                Some(h) => {
                    out.push(h);
                    assert(out@.map_values(|h: Groupwork<'a>| h.number_view()) =~= before.push(
                        h.number_view(),
                    ));
                },
                None => {},
            }
            i = i + 1;
        }
        assert(titles.take(i as int) =~= titles);
        out
    }
}

/// An individual part and a groupwork part; at least one is there.
#[derive(Debug)]
pub struct Pair<Id, Gw> {
    id: Option<Id>,
    gw: Option<Gw>,
}

pub type SamePair<T> = Pair<T, T>;

/// The first of `a` and `b` that is there.
pub open spec fn first_some<T>(a: Option<T>, b: Option<T>) -> Option<T> {
    match a {
        Some(x) => Some(x),
        None => b,
    }
}

pub open spec fn count_some<T>(a: Option<T>) -> nat {
    if a is Some {
        1
    } else {
        0
    }
}

impl<Id, Gw> Pair<Id, Gw> {
    pub closed spec fn id_part(&self) -> Option<Id> {
        self.id
    }

    pub closed spec fn gw_part(&self) -> Option<Gw> {
        self.gw
    }

    /// At least one of the two parts is there.
    pub open spec fn wf(&self) -> bool {
        self.id_part() is Some || self.gw_part() is Some
    }

    pub fn from_individual(id: Id) -> (r: Self)
        ensures
            r.id_part() == Some(id),
            r.gw_part() is None,
    {
        Pair { id: Some(id), gw: None }
    }

    pub fn from_groupwork(gw: Gw) -> (r: Self)
        ensures
            r.id_part() is None,
            r.gw_part() == Some(gw),
    {
        Pair { id: None, gw: Some(gw) }
    }

    pub fn individual(&self) -> (r: Option<&Id>)
        ensures
            match self.id_part() {
                Some(x) => r matches Some(y) && *y == x,
                None => r is None,
            },
    {
        match &self.id {
            Some(x) => Some(x),
            None => None,
        }
    }

    pub fn groupwork(&self) -> (r: Option<&Gw>)
        ensures
            match self.gw_part() {
                Some(x) => r matches Some(y) && *y == x,
                None => r is None,
            },
    {
        match &self.gw {
            Some(x) => Some(x),
            None => None,
        }
    }

    /// How many of the two parts are there: 1 or 2.
    pub fn len(&self) -> (r: usize)
        requires
            self.wf(),
        ensures
            r == count_some(self.id_part()) + count_some(self.gw_part()),
    {
        let a: usize = if self.id.is_some() {
            1
        } else {
            0
        };
        let b: usize = if self.gw.is_some() {
            1
        } else {
            0
        };
        a + b
    }

    /// Each part from `self` where it is there, else from `other`.
    pub fn merge(self, other: Self) -> (r: Self)
        ensures
            r.id_part() == first_some(self.id_part(), other.id_part()),
            r.gw_part() == first_some(self.gw_part(), other.gw_part()),
    {
        let id = match self.id {
            Some(x) => Some(x),
            None => other.id,
        };
        let gw = match self.gw {
            Some(x) => Some(x),
            None => other.gw,
        };
        Pair { id, gw }
    }

    /// The pair of references to the parts.
    pub fn as_ref(&self) -> (r: Pair<&Id, &Gw>)
        ensures
            match self.id_part() {
                Some(x) => r.id_part() matches Some(y) && *y == x,
                None => r.id_part() is None,
            },
            match self.gw_part() {
                Some(x) => r.gw_part() matches Some(y) && *y == x,
                None => r.gw_part() is None,
            },
    {
        Pair { id: self.individual(), gw: self.groupwork() }
    }

    /// `f` applied to the individual part and `g` to the groupwork part.
    pub fn map<T, U>(self, f: impl FnOnce(Id) -> T, g: impl FnOnce(Gw) -> U) -> (r: Pair<T, U>)
        requires
            self.id_part() matches Some(x) ==> call_requires(f, (x,)),
            self.gw_part() matches Some(y) ==> call_requires(g, (y,)),
        ensures
            match self.id_part() {
                Some(x) => r.id_part() matches Some(a) && call_ensures(f, (x,), a),
                None => r.id_part() is None,
            },
            match self.gw_part() {
                Some(y) => r.gw_part() matches Some(b) && call_ensures(g, (y,), b),
                None => r.gw_part() is None,
            },
    {
        let id = match self.id {
            Some(x) => Some(f(x)),
            None => None,
        };
        let gw = match self.gw {
            Some(y) => Some(g(y)),
            None => None,
        };
        Pair { id, gw }
    }

    /// `f` of the individual part where it is there, else `g` of the
    /// groupwork part.
    pub fn or<T>(self, f: impl FnOnce(Id) -> T, g: impl FnOnce(Gw) -> T) -> (r: T)
        requires
            self.wf(),
            self.id_part() matches Some(x) ==> call_requires(f, (x,)),
            self.id_part() is None ==> (self.gw_part() matches Some(y) && call_requires(g, (y,))),
        ensures
            match self.id_part() {
                Some(x) => call_ensures(f, (x,), r),
                None => self.gw_part() matches Some(y) && call_ensures(g, (y,), r),
            },
    {
        match self.id {
            Some(x) => f(x),
            None => g(self.gw.unwrap()),
        }
    }

    /// The two parts, each replaced by its default where it is missing.
    pub fn and(self, default_id: Id, default_gw: Gw) -> (r: (Id, Gw))
        ensures
            r.0 == (match self.id_part() {
                Some(x) => x,
                None => default_id,
            }),
            r.1 == (match self.gw_part() {
                Some(y) => y,
                None => default_gw,
            }),
    {
        let a = match self.id {
            Some(x) => x,
            None => default_id,
        };
        let b = match self.gw {
            Some(y) => y,
            None => default_gw,
        };
        (a, b)
    }
}

impl<T> Pair<T, T> {
    /// `f` applied to both parts.
    pub fn map_same<U>(self, f: impl Fn(T) -> U) -> (r: Pair<U, U>)
        requires
            self.id_part() matches Some(x) ==> call_requires(f, (x,)),
            self.gw_part() matches Some(y) ==> call_requires(f, (y,)),
        ensures
            match self.id_part() {
                Some(x) => r.id_part() matches Some(a) && call_ensures(f, (x,), a),
                None => r.id_part() is None,
            },
            match self.gw_part() {
                Some(y) => r.gw_part() matches Some(b) && call_ensures(f, (y,), b),
                None => r.gw_part() is None,
            },
    {
        let id = match self.id {
            Some(x) => Some(f(x)),
            None => None,
        };
        let gw = match self.gw {
            Some(y) => Some(f(y)),
            None => None,
        };
        Pair { id, gw }
    }
}

impl<Id, Gw, E> Pair<Result<Id, E>, Result<Gw, E>> {
    /// Both parts' values, or the first error: the individual part's, then
    /// the groupwork part's.
    pub fn try_both(self) -> (r: Result<Pair<Id, Gw>, E>)
        ensures
            match (self.id_part(), self.gw_part()) {
                (Some(Err(e)), _) => r == Err::<Pair<Id, Gw>, E>(e),
                (_, Some(Err(e))) => r == Err::<Pair<Id, Gw>, E>(e),
                (a, b) => r matches Ok(p) && p.id_part() == (match a {
                    Some(Ok(x)) => Some(x),
                    _ => None,
                }) && p.gw_part() == (match b {
                    Some(Ok(y)) => Some(y),
                    _ => None,
                }),
            },
    {
        let id = match self.id {
            Some(Ok(x)) => Some(x),
            Some(Err(e)) => return Err(e),
            None => None,
        };
        let gw = match self.gw {
            Some(Ok(y)) => Some(y),
            Some(Err(e)) => return Err(e),
            None => None,
        };
        Ok(Pair { id, gw })
    }
}

/// What an optional list holds, as a sequence.
pub open spec fn opt_view<T>(a: Option<Vec<T>>) -> Option<Seq<T>> {
    match a {
        Some(v) => Some(v@),
        None => None,
    }
}

/// Two optional lists joined: both in order where both are there.
pub open spec fn merged<T>(a: Option<Seq<T>>, b: Option<Seq<T>>) -> Option<Seq<T>> {
    match (a, b) {
        (Some(x), Some(y)) => Some(x + y),
        (Some(x), None) => Some(x),
        (None, Some(y)) => Some(y),
        (None, None) => None,
    }
}

fn merge_one<T>(a: Option<Vec<T>>, b: Option<Vec<T>>) -> (r: Option<Vec<T>>)
    ensures
        opt_view(r) == merged(opt_view(a), opt_view(b)),
{
    match (a, b) {
        (Some(mut x), Some(mut y)) => {
            x.append(&mut y);
            Some(x)
        },
        (Some(x), None) => Some(x),
        (None, Some(y)) => Some(y),
        (None, None) => None,
    }
}

impl<Id, Gw> Pair<Vec<Id>, Vec<Gw>> {
    /// Each part's lists joined, `self`'s first.
    pub fn vec_merge_both(self, other: Self) -> (r: Self)
        ensures
            opt_view(r.id_part()) == merged(opt_view(self.id_part()), opt_view(other.id_part())),
            opt_view(r.gw_part()) == merged(opt_view(self.gw_part()), opt_view(other.gw_part())),
    {
        Pair { id: merge_one(self.id, other.id), gw: merge_one(self.gw, other.gw) }
    }

    /// The lengths of the two parts' lists, 0 for a missing part.
    pub fn lens(&self) -> (r: (usize, usize))
        ensures
            r.0 == (match self.id_part() {
                Some(v) => v@.len(),
                None => 0,
            }),
            r.1 == (match self.gw_part() {
                Some(v) => v@.len(),
                None => 0,
            }),
    {
        let a = match &self.id {
            Some(v) => v.len(),
            None => 0,
        };
        let b = match &self.gw {
            Some(v) => v.len(),
            None => 0,
        };
        (a, b)
    }
}

impl<T, U> Pair<Vec<T>, Vec<U>> {
    /// The items of the individual part and those of the groupwork part; a
    /// missing part has none.
    pub fn into_iter_both(self) -> (r: (Vec<T>, Vec<U>))
        ensures
            r.0@ == (match self.id_part() {
                Some(v) => v@,
                None => Seq::empty(),
            }),
            r.1@ == (match self.gw_part() {
                Some(v) => v@,
                None => Seq::empty(),
            }),
    {
        let a = match self.id {
            Some(v) => v,
            None => Vec::new(),
        };
        let b = match self.gw {
            Some(v) => v,
            None => Vec::new(),
        };
        (a, b)
    }

    /// One pair per item: first each item of the individual part as an
    /// individual pair, then each of the groupwork part as a groupwork pair.
    pub fn into_iter_pairs(self) -> (r: Vec<Pair<T, U>>)
        ensures
            ({
                let (a, b) = (
                    match self.id_part() {
                        Some(v) => v@,
                        None => Seq::empty(),
                    },
                    match self.gw_part() {
                        Some(v) => v@,
                        None => Seq::empty(),
                    },
                );
                &&& r@.len() == a.len() + b.len()
                &&& forall|i: int|
                    0 <= i < a.len() ==> #[trigger] r@[i].id_part() == Some(a[i])
                        && r@[i].gw_part() is None
                &&& forall|i: int|
                    0 <= i < b.len() ==> #[trigger] r@[a.len() + i].gw_part() == Some(b[i])
                        && r@[a.len() + i].id_part() is None
            }),
    {
        let (mut a, mut b) = self.into_iter_both();
        let ghost sa = a@;
        let ghost sb = b@;
        let mut out: Vec<Pair<T, U>> = Vec::new();
        let na = a.len();
        let mut i: usize = 0;
        while i < na
            invariant
                na == sa.len(),
                i <= na,
                a@ == sa.subrange(i as int, na as int),
                out@.len() == i,
                forall|j: int|
                    0 <= j < i ==> #[trigger] out@[j].id_part() == Some(sa[j])
                        && out@[j].gw_part() is None,
            decreases na - i,
        {
            let x = a.remove(0);
            assert(x == sa[i as int]);
            assert(a@ =~= sa.subrange(i + 1, na as int));
            out.push(Pair::from_individual(x));
            i = i + 1;
        }
        let nb = b.len();
        let mut k: usize = 0;
        while k < nb
            invariant
                nb == sb.len(),
                na == sa.len(),
                k <= nb,
                b@ == sb.subrange(k as int, nb as int),
                out@.len() == na + k,
                forall|j: int|
                    0 <= j < na ==> #[trigger] out@[j].id_part() == Some(sa[j])
                        && out@[j].gw_part() is None,
                forall|j: int|
                    0 <= j < k ==> #[trigger] out@[na + j].gw_part() == Some(sb[j])
                        && out@[na + j].id_part() is None,
            decreases nb - k,
        {
            let y = b.remove(0);
            assert(y == sb[k as int]);
            assert(b@ =~= sb.subrange(k + 1, nb as int));
            out.push(Pair::from_groupwork(y));
            k = k + 1;
        }
        out
    }
}

/// The first item of `s`, from the front, with homework number `k`.
pub open spec fn first_numbered<'a, T: HasHwNumber<'a>>(s: Seq<T>, k: Seq<char>) -> Option<T>
    decreases s.len(),
{
    if s.len() == 0 {
        None
    } else {
        match first_numbered(s.drop_last(), k) {
            Some(x) => Some(x),
            None => if s.last().number_view() == k {
                Some(s.last())
            } else {
                None
            },
        }
    }
}

/// The homework numbers of the entries, in order.
pub open spec fn pair_keys<'a, Id, Gw>(v: Seq<(HwNumber<'a>, Pair<Id, Gw>)>) -> Seq<Seq<char>> {
    v.map_values(|e: (HwNumber<'a>, Pair<Id, Gw>)| e.0@)
}

/// `out` has one entry per homework number of `ids` and `gws`, and no other;
/// each entry pairs the first individual and the first groupwork with that
/// number, where there is one.
pub open spec fn pairs_of<'a, Id: HasHwNumber<'a>, Gw: HasHwNumber<'a>>(
    out: Seq<(HwNumber<'a>, Pair<Id, Gw>)>,
    ids: Seq<Id>,
    gws: Seq<Gw>,
) -> bool {
    &&& forall|i: int, j: int|
        0 <= i < j < out.len() ==> #[trigger] pair_keys(out)[i] != #[trigger] pair_keys(out)[j]
    &&& forall|i: int|
        0 <= i < out.len() ==> (#[trigger] out[i]).1.wf() && out[i].1.id_part()
            == first_numbered(ids, out[i].0@) && out[i].1.gw_part() == first_numbered(
            gws,
            out[i].0@,
        )
    &&& forall|k: Seq<char>|
        #[trigger] pair_keys(out).contains(k) <==> (first_numbered(ids, k) is Some
            || first_numbered(gws, k) is Some)
}

proof fn lemma_first_numbered_push<'a, T: HasHwNumber<'a>>(s: Seq<T>, x: T, k: Seq<char>)
    ensures
        first_numbered(s.push(x), k) == (match first_numbered(s, k) {
            Some(y) => Some(y),
            None => if x.number_view() == k {
                Some(x)
            } else {
                None
            },
        }),
{
    assert(s.push(x).drop_last() =~= s);
}

proof fn lemma_first_numbered_empty<'a, T: HasHwNumber<'a>>(k: Seq<char>)
    ensures
        first_numbered(Seq::<T>::empty(), k) is None,
{
}

proof fn lemma_keys_contains<'a, Id, Gw>(out: Seq<(HwNumber<'a>, Pair<Id, Gw>)>, k: Seq<char>)
    ensures
        pair_keys(out).contains(k) <==> exists|i: int| 0 <= i < out.len() && (#[trigger] out[i]).0@ == k,
{
    if pair_keys(out).contains(k) {
        let i = choose|i: int| 0 <= i < pair_keys(out).len() && pair_keys(out)[i] == k;
        assert(out[i].0@ == k);
    }
    if exists|i: int| 0 <= i < out.len() && (#[trigger] out[i]).0@ == k {
        let i = choose|i: int| 0 <= i < out.len() && (#[trigger] out[i]).0@ == k;
        assert(pair_keys(out)[i] == k);
    }
}

/// An individual whose number already has an entry changes nothing.
proof fn lemma_pairs_skip_id<'a, Id: HasHwNumber<'a>, Gw: HasHwNumber<'a>>(
    out: Seq<(HwNumber<'a>, Pair<Id, Gw>)>,
    ids: Seq<Id>,
    x: Id,
)
    requires
        pairs_of(out, ids, Seq::<Gw>::empty()),
        pair_keys(out).contains(x.number_view()),
    ensures
        pairs_of(out, ids.push(x), Seq::<Gw>::empty()),
{
    assert forall|k: Seq<char>| first_numbered(Seq::<Gw>::empty(), k) is None by {
        lemma_first_numbered_empty::<Gw>(k);
    }
    assert forall|k: Seq<char>| #[trigger] first_numbered(ids.push(x), k) == (match first_numbered(ids, k) {
        Some(y) => Some(y),
        None => if x.number_view() == k { Some(x) } else { None },
    }) by {
        lemma_first_numbered_push(ids, x, k);
    }
    assert forall|i: int| 0 <= i < out.len() implies (#[trigger] out[i]).1.id_part()
        == first_numbered(ids.push(x), out[i].0@) by {
        assert(pair_keys(out)[i] == out[i].0@);
    }
}

/// An individual whose number has no entry yet gets a new one.
proof fn lemma_pairs_add_id<'a, Id: HasHwNumber<'a>, Gw: HasHwNumber<'a>>(
    out: Seq<(HwNumber<'a>, Pair<Id, Gw>)>,
    ids: Seq<Id>,
    x: Id,
    e: (HwNumber<'a>, Pair<Id, Gw>),
)
    requires
        pairs_of(out, ids, Seq::<Gw>::empty()),
        !pair_keys(out).contains(x.number_view()),
        e.0@ == x.number_view(),
        e.1.id_part() == Some(x),
        e.1.gw_part() is None,
    ensures
        pairs_of(out.push(e), ids.push(x), Seq::<Gw>::empty()),
{
    let out2 = out.push(e);
    assert(pair_keys(out2) =~= pair_keys(out).push(e.0@));
    assert forall|k: Seq<char>| first_numbered(Seq::<Gw>::empty(), k) is None by {
        lemma_first_numbered_empty::<Gw>(k);
    }
    assert forall|k: Seq<char>| #[trigger] first_numbered(ids.push(x), k) == (match first_numbered(ids, k) {
        Some(y) => Some(y),
        None => if x.number_view() == k { Some(x) } else { None },
    }) by {
        lemma_first_numbered_push(ids, x, k);
    }
    assert forall|i: int, j: int| 0 <= i < j < out2.len() implies #[trigger] pair_keys(out2)[i]
        != #[trigger] pair_keys(out2)[j] by {
        if j == out.len() {
            assert(pair_keys(out).contains(pair_keys(out)[i]));
        } else {
            assert(pair_keys(out)[i] != pair_keys(out)[j]);
        }
    }
    assert forall|i: int| 0 <= i < out2.len() implies (#[trigger] out2[i]).1.wf() && out2[i].1.id_part()
        == first_numbered(ids.push(x), out2[i].0@) && out2[i].1.gw_part() == first_numbered(
        Seq::<Gw>::empty(),
        out2[i].0@,
    ) by {
        if i < out.len() {
            assert(out2[i] == out[i]);
            assert(pair_keys(out)[i] == out[i].0@);
            assert(pair_keys(out).contains(out[i].0@));
        } else {
            assert(first_numbered(ids, x.number_view()) is None);
        }
    }
    assert forall|k: Seq<char>| #[trigger] pair_keys(out2).contains(k) <==> (first_numbered(
        ids.push(x),
        k,
    ) is Some || first_numbered(Seq::<Gw>::empty(), k) is Some) by {
        if k != x.number_view() && pair_keys(out2).contains(k) {
            let i = choose|i: int| 0 <= i < pair_keys(out2).len() && pair_keys(out2)[i] == k;
            assert(pair_keys(out)[i] == k);
        }
        if k != x.number_view() && pair_keys(out).contains(k) {
            let i = choose|i: int| 0 <= i < pair_keys(out).len() && pair_keys(out)[i] == k;
            assert(pair_keys(out2)[i] == k);
        }
        if k == x.number_view() {
            assert(pair_keys(out2)[out.len() as int] == k);
        }
    }
}

/// A groupwork whose number's entry already has one changes nothing.
proof fn lemma_pairs_skip_gw<'a, Id: HasHwNumber<'a>, Gw: HasHwNumber<'a>>(
    out: Seq<(HwNumber<'a>, Pair<Id, Gw>)>,
    ids: Seq<Id>,
    gws: Seq<Gw>,
    y: Gw,
    j: int,
)
    requires
        pairs_of(out, ids, gws),
        0 <= j < out.len(),
        out[j].0@ == y.number_view(),
        out[j].1.gw_part() is Some,
    ensures
        pairs_of(out, ids, gws.push(y)),
{
    assert forall|k: Seq<char>| #[trigger] first_numbered(gws.push(y), k) == (match first_numbered(gws, k) {
        Some(z) => Some(z),
        None => if y.number_view() == k { Some(y) } else { None },
    }) by {
        lemma_first_numbered_push(gws, y, k);
    }
    assert forall|i: int| 0 <= i < out.len() implies (#[trigger] out[i]).1.gw_part()
        == first_numbered(gws.push(y), out[i].0@) by {
        assert(pair_keys(out)[i] == out[i].0@);
        assert(pair_keys(out)[j] == out[j].0@);
        if i != j && out[i].0@ == y.number_view() {
            if i < j {
                assert(pair_keys(out)[i] != pair_keys(out)[j]);
            } else {
                assert(pair_keys(out)[j] != pair_keys(out)[i]);
            }
        }
    }
    assert forall|k: Seq<char>| #[trigger] pair_keys(out).contains(k) <==> (first_numbered(ids, k) is Some
        || first_numbered(gws.push(y), k) is Some) by {
        if k == y.number_view() {
            assert(pair_keys(out)[j] == k);
        }
    }
}

/// A groupwork whose number's entry has none yet fills that entry.
proof fn lemma_pairs_set_gw<'a, Id: HasHwNumber<'a>, Gw: HasHwNumber<'a>>(
    out: Seq<(HwNumber<'a>, Pair<Id, Gw>)>,
    ids: Seq<Id>,
    gws: Seq<Gw>,
    y: Gw,
    j: int,
    e: (HwNumber<'a>, Pair<Id, Gw>),
)
    requires
        pairs_of(out, ids, gws),
        0 <= j < out.len(),
        out[j].0@ == y.number_view(),
        out[j].1.gw_part() is None,
        e.0 == out[j].0,
        e.1.id_part() == out[j].1.id_part(),
        e.1.gw_part() == Some(y),
    ensures
        pairs_of(out.update(j, e), ids, gws.push(y)),
{
    let out2 = out.update(j, e);
    assert(pair_keys(out2) =~= pair_keys(out));
    assert forall|k: Seq<char>| #[trigger] first_numbered(gws.push(y), k) == (match first_numbered(gws, k) {
        Some(z) => Some(z),
        None => if y.number_view() == k { Some(y) } else { None },
    }) by {
        lemma_first_numbered_push(gws, y, k);
    }
    assert forall|i: int| 0 <= i < out2.len() implies (#[trigger] out2[i]).1.wf() && out2[i].1.id_part()
        == first_numbered(ids, out2[i].0@) && out2[i].1.gw_part() == first_numbered(
        gws.push(y),
        out2[i].0@,
    ) by {
        assert(pair_keys(out)[i] == out[i].0@);
        assert(pair_keys(out)[j] == out[j].0@);
        if i != j && out[i].0@ == y.number_view() {
            if i < j {
                assert(pair_keys(out)[i] != pair_keys(out)[j]);
            } else {
                assert(pair_keys(out)[j] != pair_keys(out)[i]);
            }
        }
    }
    assert forall|k: Seq<char>| #[trigger] pair_keys(out2).contains(k) <==> (first_numbered(ids, k) is Some
        || first_numbered(gws.push(y), k) is Some) by {
        if k == y.number_view() {
            assert(pair_keys(out)[j] == k);
        }
    }
}

/// A groupwork whose number has no entry yet gets a new one.
proof fn lemma_pairs_add_gw<'a, Id: HasHwNumber<'a>, Gw: HasHwNumber<'a>>(
    out: Seq<(HwNumber<'a>, Pair<Id, Gw>)>,
    ids: Seq<Id>,
    gws: Seq<Gw>,
    y: Gw,
    e: (HwNumber<'a>, Pair<Id, Gw>),
)
    requires
        pairs_of(out, ids, gws),
        !pair_keys(out).contains(y.number_view()),
        e.0@ == y.number_view(),
        e.1.id_part() is None,
        e.1.gw_part() == Some(y),
    ensures
        pairs_of(out.push(e), ids, gws.push(y)),
{
    let out2 = out.push(e);
    assert(pair_keys(out2) =~= pair_keys(out).push(e.0@));
    assert forall|k: Seq<char>| #[trigger] first_numbered(gws.push(y), k) == (match first_numbered(gws, k) {
        Some(z) => Some(z),
        None => if y.number_view() == k { Some(y) } else { None },
    }) by {
        lemma_first_numbered_push(gws, y, k);
    }
    assert forall|i: int, j: int| 0 <= i < j < out2.len() implies #[trigger] pair_keys(out2)[i]
        != #[trigger] pair_keys(out2)[j] by {
        if j == out.len() {
            assert(pair_keys(out).contains(pair_keys(out)[i]));
        } else {
            assert(pair_keys(out)[i] != pair_keys(out)[j]);
        }
    }
    assert forall|i: int| 0 <= i < out2.len() implies (#[trigger] out2[i]).1.wf() && out2[i].1.id_part()
        == first_numbered(ids, out2[i].0@) && out2[i].1.gw_part() == first_numbered(
        gws.push(y),
        out2[i].0@,
    ) by {
        if i < out.len() {
            assert(out2[i] == out[i]);
            assert(pair_keys(out)[i] == out[i].0@);
            assert(pair_keys(out).contains(out[i].0@));
        } else {
            assert(first_numbered(gws, y.number_view()) is None);
            assert(first_numbered(ids, y.number_view()) is None);
        }
    }
    assert forall|k: Seq<char>| #[trigger] pair_keys(out2).contains(k) <==> (first_numbered(ids, k) is Some
        || first_numbered(gws.push(y), k) is Some) by {
        if k != y.number_view() && pair_keys(out2).contains(k) {
            let i = choose|i: int| 0 <= i < pair_keys(out2).len() && pair_keys(out2)[i] == k;
            assert(pair_keys(out)[i] == k);
        }
        if k != y.number_view() && pair_keys(out).contains(k) {
            let i = choose|i: int| 0 <= i < pair_keys(out).len() && pair_keys(out)[i] == k;
            assert(pair_keys(out2)[i] == k);
        }
        if k == y.number_view() {
            assert(pair_keys(out2)[out.len() as int] == k);
        }
    }
}

/// Where the entry with number `key` stands in `out`, if any.
fn find_key<'a, P>(out: &Vec<(HwNumber<'a>, P)>, key: HwNumber<'a>) -> (r: Option<usize>)
    ensures
        match r {
            Some(j) => j < out@.len() && out@[j as int].0@ == key@,
            None => forall|j: int| 0 <= j < out@.len() ==> (#[trigger] out@[j]).0@ != key@,
        },
{
    let mut j: usize = 0;
    while j < out.len()
        invariant
            j <= out@.len(),
            forall|i: int| 0 <= i < j ==> (#[trigger] out@[i]).0@ != key@,
        decreases out@.len() - j,
    {
        if out[j].0.same_as(key) {
            return Some(j);
        }
        j = j + 1;
    }
    None
}

/// Pairs off individual homeworks and groupworks with the same number: one
/// entry per number, holding the first of each kind with it. Given
/// `[ID1, ID3, ID4]` and `[GW1, GW2, GW4]` it gives
/// `[(1, ID1+GW1), (3, ID3), (4, ID4+GW4), (2, GW2)]`.
pub fn make_pairs<'a, Id: HasHwNumber<'a>, Gw: HasHwNumber<'a>>(ids: Vec<Id>, gws: Vec<Gw>) -> (r:
    Vec<(HwNumber<'a>, Pair<Id, Gw>)>)
    ensures
        pairs_of(r@, ids@, gws@),
{
    let ghost all_ids = ids@;
    let ghost all_gws = gws@;
    let mut ids = ids;
    let mut gws = gws;
    let mut out: Vec<(HwNumber<'a>, Pair<Id, Gw>)> = Vec::new();
    let n = ids.len();
    let mut i: usize = 0;
    proof {
        assert(all_gws.take(0) =~= Seq::<Gw>::empty());
        assert(all_ids.take(0) =~= Seq::<Id>::empty());
        assert(pair_keys(out@) =~= Seq::<Seq<char>>::empty());
        assert forall|k: Seq<char>| #[trigger] pair_keys(out@).contains(k) <==> (first_numbered(
            Seq::<Id>::empty(),
            k,
        ) is Some || first_numbered(Seq::<Gw>::empty(), k) is Some) by {
            lemma_first_numbered_empty::<Id>(k);
            lemma_first_numbered_empty::<Gw>(k);
        }
    }
    while i < n
        invariant
            n == all_ids.len(),
            i <= n,
            ids@ == all_ids.subrange(i as int, n as int),
            gws@ == all_gws,
            pairs_of(out@, all_ids.take(i as int), Seq::<Gw>::empty()),
        decreases n - i,
    {
        let x = ids.remove(0);
        assert(x == all_ids[i as int]);
        assert(ids@ =~= all_ids.subrange(i + 1, n as int));
        let key = x.number();
        let ghost prev = all_ids.take(i as int);
        let ghost before = out@;
        assert(all_ids.take(i + 1) =~= prev.push(x));
        match find_key(&out, key) {
            Some(j) => {
                proof {
                    assert(pair_keys(out@)[j as int] == key@);
                    lemma_pairs_skip_id(out@, prev, x);
                }
            },
            None => {
                proof {
                    lemma_keys_contains(out@, key@);
                }
                let e = (key, Pair::from_individual(x));
                out.push(e);
                proof {
                    lemma_pairs_add_id(before, prev, x, e);
                }
            },
        }
        i = i + 1;
    }
    assert(all_ids.take(n as int) =~= all_ids);
    assert(all_gws.take(0) =~= Seq::<Gw>::empty());
    let m = gws.len();
    let mut g: usize = 0;
    while g < m
        invariant
            m == all_gws.len(),
            g <= m,
            gws@ == all_gws.subrange(g as int, m as int),
            pairs_of(out@, all_ids, all_gws.take(g as int)),
        decreases m - g,
    {
        let y = gws.remove(0);
        assert(y == all_gws[g as int]);
        assert(gws@ =~= all_gws.subrange(g + 1, m as int));
        let key = y.number();
        let ghost prev = all_gws.take(g as int);
        let ghost before = out@;
        assert(all_gws.take(g + 1) =~= prev.push(y));
        match find_key(&out, key) {
            Some(j) => {
                if out[j].1.groupwork().is_none() {
                    let (k, p) = out.remove(j);
                    let e = (k, p.merge(Pair::from_groupwork(y)));
                    out.insert(j, e);
                    proof {
                        assert(out@ =~= before.update(j as int, e));
                        lemma_pairs_set_gw(before, all_ids, prev, y, j as int, e);
                    }
                } else {
                    proof {
                        lemma_pairs_skip_gw(before, all_ids, prev, y, j as int);
                    }
                }
            },
            None => {
                proof {
                    lemma_keys_contains(out@, key@);
                }
                let e = (key, Pair::from_groupwork(y));
                out.push(e);
                proof {
                    lemma_pairs_add_gw(before, all_ids, prev, y, e);
                }
            },
        }
        g = g + 1;
    }
    assert(all_gws.take(m as int) =~= all_gws);
    out
}

} // verus!
