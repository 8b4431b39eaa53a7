//! Questions, their hierarchical numbers, and an assignment's outline.
use vstd::prelude::*;

use crate::error::{ParseProblem, ReportError};
use crate::grammar::{digit_at, digit_run, digits_value, number_at, parse_number};
use crate::text::{chars_of, decimal, digit_char, digit_value, is_digit, push_decimal};

verus! {

broadcast use vstd::string::group_string_axioms;

/// A number whose parts are all positive.
pub open spec fn valid_number(parts: Seq<u8>) -> bool {
    forall|i: int| 0 <= i < parts.len() ==> parts[i] > 0
}

/// The parts joined by ".", each in decimal: `[3, 2]` is "3.2".
pub open spec fn number_text(parts: Seq<u8>) -> Seq<char>
    decreases parts.len(),
{
    if parts.len() == 0 {
        Seq::empty()
    } else if parts.len() == 1 {
        decimal(parts[0] as nat)
    } else {
        decimal(parts[0] as nat) + seq!['.'] + number_text(parts.drop_first())
    }
}

/// The question number that the whole of `s` spells, if any.
pub open spec fn parse_number_text(s: Seq<char>) -> Option<Seq<u8>> {
    match parse_number(s, 0) {
        Some((q, e)) => if e == s.len() {
            Some(q)
        } else {
            None
        },
        None => None,
    }
}

pub open spec fn number_views(v: Seq<QuestionNumber>) -> Seq<Seq<u8>> {
    v.map_values(|q: QuestionNumber| q@)
}

/// A question's number: part 2 of question 3 is `[3, 2]`, written "3.2".
#[derive(Debug, Hash, PartialEq, Eq, PartialOrd, Ord)]
pub struct QuestionNumber {
    numbers: Vec<u8>,
}

impl View for QuestionNumber {
    type V = Seq<u8>;

    closed spec fn view(&self) -> Seq<u8> {
        self.numbers@
    }
}

impl Clone for QuestionNumber {
    fn clone(&self) -> (r: Self)
        ensures
            r@ == self@,
    {
        let mut numbers: Vec<u8> = Vec::new();
        let mut i: usize = 0;
        while i < self.numbers.len()
            invariant
                i <= self.numbers@.len(),
                numbers@ == self.numbers@.take(i as int),
            decreases self.numbers@.len() - i,
        {
            numbers.push(self.numbers[i]);
            i = i + 1;
            assert(numbers@ =~= self.numbers@.take(i as int));
        }
        assert(numbers@ =~= self.numbers@);
        QuestionNumber { numbers }
    }
}

pub proof fn lemma_number_text_push(a: Seq<u8>, x: u8)
    requires
        a.len() >= 1,
    ensures
        number_text(a.push(x)) == number_text(a) + seq!['.'] + decimal(x as nat),
    decreases a.len(),
{
    let b = a.push(x);
    if a.len() == 1 {
        assert(b.drop_first() =~= seq![x]);
        assert(number_text(seq![x]) == decimal(x as nat));
        assert(number_text(b) == decimal(b[0] as nat) + seq!['.'] + number_text(b.drop_first()));
    } else {
        assert(b.drop_first() =~= a.drop_first().push(x));
        lemma_number_text_push(a.drop_first(), x);
        assert(number_text(b) == decimal(b[0] as nat) + seq!['.'] + number_text(b.drop_first()));
        assert(number_text(a) == decimal(a[0] as nat) + seq!['.'] + number_text(a.drop_first()));
        assert(number_text(b) =~= number_text(a) + seq!['.'] + decimal(x as nat));
    }
}

/// `a` sorts before `b`: the first part where they differ decides, and a
/// proper prefix sorts first.
pub open spec fn number_lt(a: Seq<u8>, b: Seq<u8>) -> bool
    decreases a.len(),
{
    if a.len() == 0 {
        b.len() > 0
    } else if b.len() == 0 {
        false
    } else if a[0] != b[0] {
        a[0] < b[0]
    } else {
        number_lt(a.drop_first(), b.drop_first())
    }
}

/// The order on numbers is strict and total: exactly one of `a < b`, `a == b`,
/// `b < a` holds.
pub proof fn lemma_number_lt_trichotomy(a: Seq<u8>, b: Seq<u8>)
    ensures
        !(number_lt(a, b) && number_lt(b, a)),
        number_lt(a, b) || number_lt(b, a) || a == b,
        !number_lt(a, a),
    decreases a.len(),
{
    if a.len() > 0 {
        lemma_number_lt_trichotomy(a.drop_first(), a.drop_first());
    }
    if a.len() > 0 && b.len() > 0 && a[0] == b[0] {
        lemma_number_lt_trichotomy(a.drop_first(), b.drop_first());
        if a.drop_first() == b.drop_first() {
            assert(a =~= seq![a[0]] + a.drop_first());
            assert(b =~= seq![b[0]] + b.drop_first());
        }
    }
    if a.len() == 0 && b.len() == 0 {
        assert(a =~= b);
    }
}

/// The order on numbers is transitive.
pub proof fn lemma_number_lt_transitive(a: Seq<u8>, b: Seq<u8>, c: Seq<u8>)
    requires
        number_lt(a, b),
        number_lt(b, c),
    ensures
        number_lt(a, c),
    decreases a.len(),
{
    if a.len() > 0 && b.len() > 0 && c.len() > 0 && a[0] == b[0] && b[0] == c[0] {
        lemma_number_lt_transitive(a.drop_first(), b.drop_first(), c.drop_first());
    }
}

proof fn lemma_digit_char(d: nat)
    requires
        d < 10,
    ensures
        is_digit(digit_char(d)),
        digit_value(digit_char(d)) == d,
{
}

proof fn lemma_decimal_digits(n: nat)
    ensures
        decimal(n).len() >= 1,
        forall|i: int| 0 <= i < decimal(n).len() ==> is_digit(#[trigger] decimal(n)[i]),
    decreases n,
{
    if n < 10 {
        lemma_digit_char(n);
    } else {
        lemma_decimal_digits(n / 10);
        lemma_digit_char(n % 10);
    }
}

proof fn lemma_digit_run_exact(t: Seq<char>, p: int, k: nat)
    requires
        0 <= p,
        p + k <= t.len(),
        forall|i: int| p <= i < p + k ==> is_digit(#[trigger] t[i]),
        !digit_at(t, p + k),
    ensures
        digit_run(t, p) == k,
    decreases k,
{
    if k > 0 {
        lemma_digit_run_exact(t, p + 1, (k - 1) as nat);
    }
}

proof fn lemma_decimal_value(t: Seq<char>, p: int, n: nat)
    requires
        0 <= p,
        p + decimal(n).len() <= t.len(),
        t.subrange(p, p + decimal(n).len()) == decimal(n),
    ensures
        digits_value(t, p, decimal(n).len()) == n,
    decreases n,
{
    let k = decimal(n).len();
    if n < 10 {
        assert(t[p] == decimal(n)[0]);
        lemma_digit_char(n);
        assert(digits_value(t, p, 0) == 0);
    } else {
        let k0 = decimal(n / 10).len();
        assert(k == k0 + 1);
        assert(t.subrange(p, p + k0) =~= decimal(n / 10)) by {
            assert forall|i: int| 0 <= i < k0 implies #[trigger] t.subrange(p, p + k0)[i] == decimal(n / 10)[i] by {
                assert(t[p + i] == decimal(n)[i]);
            }
        }
        lemma_decimal_value(t, p, n / 10);
        assert(t[p + k - 1] == decimal(n)[k - 1]);
        lemma_digit_char(n % 10);
    }
}

proof fn lemma_parse_number_text_at(t: Seq<char>, p: int, parts: Seq<u8>)
    requires
        parts.len() >= 1,
        valid_number(parts),
        0 <= p,
        p + number_text(parts).len() <= t.len(),
        t.subrange(p, p + number_text(parts).len()) == number_text(parts),
        !digit_at(t, p + number_text(parts).len()),
        !(digit_at(t, p + number_text(parts).len() + 1) && t[p + number_text(parts).len()]
            == '.'),
    ensures
        parse_number(t, p) == Some((parts, p + number_text(parts).len())),
    decreases parts.len(),
{
    let d = decimal(parts[0] as nat);
    let k = d.len();
    let l = number_text(parts).len();
    lemma_decimal_digits(parts[0] as nat);
    assert(number_text(parts).subrange(0, k as int) =~= d);
    assert(t.subrange(p, p + k) =~= d) by {
        assert forall|i: int| 0 <= i < k implies #[trigger] t.subrange(p, p + k)[i] == d[i] by {
            assert(t[p + i] == number_text(parts)[i]);
        }
    }
    lemma_decimal_value(t, p, parts[0] as nat);
    assert forall|i: int| p <= i < p + k implies is_digit(#[trigger] t[i]) by {
        assert(t[i] == d[i - p]);
    }
    if parts.len() == 1 {
        lemma_digit_run_exact(t, p, k);
        assert(seq![parts[0]] =~= parts);
    } else {
        let rest = parts.drop_first();
        let rt = number_text(rest);
        assert(number_text(parts) == d + seq!['.'] + rt);
        assert(t[p + k] == '.') by {
            assert(t[p + k] == number_text(parts)[k as int]);
        }
        lemma_digit_run_exact(t, p, k);
        lemma_decimal_digits(rest[0] as nat);
        assert(t.subrange(p + k + 1, p + k + 1 + rt.len()) =~= rt) by {
            assert forall|i: int| 0 <= i < rt.len() implies #[trigger] t.subrange(
                p + k + 1,
                p + k + 1 + rt.len(),
            )[i] == rt[i] by {
                assert(t[p + k + 1 + i] == number_text(parts)[k + 1 + i]);
            }
        }
        assert(rest.len() >= 2 ==> number_text(rest) == decimal(rest[0] as nat) + seq!['.']
            + number_text(rest.drop_first()));
        assert(rt[0] == decimal(rest[0] as nat)[0]);
        assert(digit_at(t, p + k + 1));
        lemma_parse_number_text_at(t, p + k + 1, rest);
        assert(seq![parts[0]] + rest =~= parts);
    }
}

/// Writing a number with "." between its parts and reading the text back
/// gives the number again.
pub proof fn lemma_number_text_round_trip(parts: Seq<u8>)
    requires
        parts.len() >= 1,
        valid_number(parts),
    ensures
        parse_number_text(number_text(parts)) == Some(parts),
{
    let t = number_text(parts);
    assert(t.subrange(0, t.len() as int) =~= t);
    lemma_parse_number_text_at(t, 0, parts);
}

impl QuestionNumber {
    pub fn new(numbers: Vec<u8>) -> (r: Self)
        requires
            valid_number(numbers@),
        ensures
            r@ == numbers@,
    {
        QuestionNumber { numbers }
    }

    pub(crate) fn from_parts(numbers: Vec<u8>) -> (r: Self)
        ensures
            r@ == numbers@,
    {
        QuestionNumber { numbers }
    }

    /// The parts, outermost first.
    pub fn parts(&self) -> (r: &Vec<u8>)
        ensures
            r@ == self@,
    {
        &self.numbers
    }

    /// Whether every part is 1: for a leaf, whether this is the first
    /// question; otherwise whether it is the first at its level.
    pub fn is_first(&self) -> (r: bool)
        ensures
            r == (forall|i: int| 0 <= i < self@.len() ==> self@[i] == 1),
    {
        let mut i: usize = 0;
        while i < self.numbers.len()
            invariant
                i <= self.numbers@.len(),
                forall|j: int| 0 <= j < i ==> self.numbers@[j] == 1,
            decreases self.numbers@.len() - i,
        {
            if self.numbers[i] != 1 {
                assert(self@[i as int] != 1);
                return false;
            }
            i = i + 1;
        }
        true
    }

    /// How the number sorts against `other`: negative before it, 0 equal,
    /// positive after it.
    pub fn compare(&self, other: &QuestionNumber) -> (r: i8)
        ensures
            r < 0 <==> number_lt(self@, other@),
            r == 0 <==> self@ == other@,
            r > 0 <==> number_lt(other@, self@),
    {
        proof {
            lemma_number_lt_trichotomy(self@, other@);
        }
        let a = &self.numbers;
        let b = &other.numbers;
        let mut i: usize = 0;
        assert(a@.skip(0) =~= a@);
        assert(b@.skip(0) =~= b@);
        while i < a.len() && i < b.len()
            invariant
                a@ == self@,
                b@ == other@,
                !(number_lt(a@, b@) && number_lt(b@, a@)),
                i <= a@.len(),
                i <= b@.len(),
                a@.take(i as int) == b@.take(i as int),
                number_lt(a@, b@) == number_lt(a@.skip(i as int), b@.skip(i as int)),
                number_lt(b@, a@) == number_lt(b@.skip(i as int), a@.skip(i as int)),
            decreases a@.len() - i,
        {
            assert(a@.skip(i as int)[0] == a@[i as int]);
            assert(b@.skip(i as int)[0] == b@[i as int]);
            if a[i] < b[i] {
                assert(number_lt(a@.skip(i as int), b@.skip(i as int)));
                assert(a@[i as int] != b@[i as int]);
                return -1;
            }
            if a[i] > b[i] {
                assert(number_lt(b@.skip(i as int), a@.skip(i as int)));
                assert(a@[i as int] != b@[i as int]);
                return 1;
            }
            assert(a@.skip(i as int).drop_first() =~= a@.skip(i + 1));
            assert(b@.skip(i as int).drop_first() =~= b@.skip(i + 1));
            assert(a@.take(i + 1) =~= a@.take(i as int).push(a@[i as int]));
            assert(b@.take(i + 1) =~= b@.take(i as int).push(b@[i as int]));
            i = i + 1;
        }
        if a.len() == b.len() {
            assert(a@ =~= a@.take(i as int));
            assert(b@ =~= b@.take(i as int));
            0
        } else if i == a.len() {
            assert(a@.skip(i as int).len() == 0);
            assert(number_lt(a@.skip(i as int), b@.skip(i as int)));
            -1
        } else {
            assert(b@.skip(i as int).len() == 0);
            assert(number_lt(b@.skip(i as int), a@.skip(i as int)));
            1
        }
    }

    /// Whether the two numbers have the same parts.
    pub fn same_as(&self, other: &QuestionNumber) -> (r: bool)
        ensures
            r == (self@ == other@),
    {
        if self.numbers.len() != other.numbers.len() {
            return false;
        }
        let mut i: usize = 0;
        while i < self.numbers.len()
            invariant
                i <= self.numbers@.len(),
                self.numbers@.len() == other.numbers@.len(),
                forall|j: int| 0 <= j < i ==> self.numbers@[j] == other.numbers@[j],
            decreases self.numbers@.len() - i,
        {
            if self.numbers[i] != other.numbers[i] {
                return false;
            }
            i = i + 1;
        }
        assert(self.numbers@ =~= other.numbers@);
        true
    }

    /// The number written with "." between its parts.
    pub fn to_string(&self) -> (r: String)
        ensures
            r@ == number_text(self@),
    {
        let mut s = String::new();
        let mut i: usize = 0;
        while i < self.numbers.len()
            invariant
                i <= self.numbers@.len(),
                s@ == number_text(self.numbers@.take(i as int)),
            decreases self.numbers@.len() - i,
        {
            let ghost before = self.numbers@.take(i as int);
            if i > 0 {
                s.append(".");
            }
            push_decimal(&mut s, self.numbers[i] as u64);
            proof {
                let x = self.numbers@[i as int];
                assert(self.numbers@.take(i + 1) =~= before.push(x));
                if i > 0 {
                    reveal_strlit(".");
                    lemma_number_text_push(before, x);
                } else {
                    assert(before.push(x) =~= seq![x]);
                    assert(s@ =~= number_text(before.push(x)));
                }
            }
            i = i + 1;
        }
        assert(self.numbers@.take(i as int) =~= self.numbers@);
        s
    }

    /// The question number that the whole of `s` spells, such as "3.2".
    pub fn from_text(s: &str) -> (r: Option<QuestionNumber>)
        ensures
            match parse_number_text(s@) {
                Some(q) => r matches Some(n) && n@ == q,
                None => r is None,
            },
    {
        let t = chars_of(s);
        match number_at(&t, 0) {
            Some((q, e)) => {
                if e == t.len() {
                    Some(q)
                } else {
                    None
                }
            },
            None => None,
        }
    }
}

impl std::str::FromStr for QuestionNumber {
    type Err = ReportError;

    fn from_str(s: &str) -> Result<QuestionNumber, ReportError> {
        match QuestionNumber::from_text(s) {
            Some(q) => Ok(q),
            None => Err(ReportError::Parse(ParseProblem::QuestionNumber)),
        }
    }
}

/// A question's title as the outline gives it.
#[derive(Debug, Hash, PartialEq, Eq, PartialOrd, Ord)]
pub struct QuestionTitle {
    title: String,
}

impl View for QuestionTitle {
    type V = Seq<char>;

    closed spec fn view(&self) -> Seq<char> {
        self.title@
    }
}

impl Clone for QuestionTitle {
    fn clone(&self) -> (r: Self)
        ensures
            r@ == self@,
    {
        QuestionTitle { title: self.title.clone() }
    }
}

impl QuestionTitle {
    pub fn new(title: String) -> (r: Self)
        ensures
            r@ == title@,
    {
        QuestionTitle { title }
    }

    pub fn as_str(&self) -> (r: &str)
        ensures
            r@ == self@,
    {
        self.title.as_str()
    }
}

/// A leaf of an outline: its title and its full number.
#[derive(Debug)]
pub struct Question {
    title: QuestionTitle,
    number: QuestionNumber,
}

/// A question as (title, number).
impl View for Question {
    type V = (Seq<char>, Seq<u8>);

    closed spec fn view(&self) -> (Seq<char>, Seq<u8>) {
        (self.title@, self.number@)
    }
}

impl Clone for Question {
    fn clone(&self) -> (r: Self)
        ensures
            r@ == self@,
    {
        Question { title: self.title.clone(), number: self.number.clone() }
    }
}

pub open spec fn question_views(v: Seq<Question>) -> Seq<(Seq<char>, Seq<u8>)> {
    v.map_values(|q: Question| q@)
}

/// "number: title", as a report lists a question.
pub open spec fn question_text(q: (Seq<char>, Seq<u8>)) -> Seq<char> {
    number_text(q.1) + seq![':', ' '] + q.0
}

impl Question {
    pub fn new(title: QuestionTitle, number: QuestionNumber) -> (r: Self)
        ensures
            r@ == (title@, number@),
    {
        Question { title, number }
    }

    pub fn title(&self) -> (r: &QuestionTitle)
        ensures
            r@ == self@.0,
    {
        &self.title
    }

    pub fn number(&self) -> (r: &QuestionNumber)
        ensures
            r@ == self@.1,
    {
        &self.number
    }

    /// "number: title".
    pub fn to_string(&self) -> (r: String)
        ensures
            r@ == question_text(self@),
    {
        let mut s = self.number.to_string();
        s.append(": ");
        s.append(self.title.as_str());
        proof {
            reveal_strlit(": ");
            assert(s@ =~= question_text(self@));
        }
        s
    }
}

/// A node of an outline: a group of questions under one index, or a question.
#[derive(Debug)]
pub enum OutlineQuestionTree {
    Inner { index: u8, children: Vec<OutlineQuestionTree> },
    Leaf { title: QuestionTitle, index: u8 },
}

/// The questions of a tree, in depth-first order, each numbered by the indices
/// on its path after `prefix`.
pub open spec fn tree_questions(t: OutlineQuestionTree, prefix: Seq<u8>) -> Seq<
    (Seq<char>, Seq<u8>),
>
    decreases t, 0nat,
{
    match t {
        OutlineQuestionTree::Leaf { title, index } => seq![(title@, prefix.push(index))],
        OutlineQuestionTree::Inner { index, children } => forest_questions(
            children@,
            children@.len(),
            prefix.push(index),
        ),
    }
}

/// The questions of the first `n` trees of `ts`, in order.
pub open spec fn forest_questions(ts: Seq<OutlineQuestionTree>, n: nat, prefix: Seq<u8>) -> Seq<
    (Seq<char>, Seq<u8>),
>
    decreases ts, n,
{
    if n == 0 || n > ts.len() {
        Seq::empty()
    } else {
        forest_questions(ts, (n - 1) as nat, prefix) + tree_questions(ts[n - 1], prefix)
    }
}

/// Every index in the tree is positive.
pub open spec fn tree_indices_positive(t: OutlineQuestionTree) -> bool
    decreases t, 0nat,
{
    match t {
        OutlineQuestionTree::Leaf { index, .. } => index > 0,
        OutlineQuestionTree::Inner { index, children } => index > 0 && forest_indices_positive(
            children@,
            children@.len(),
        ),
    }
}

/// Every index in the first `n` trees of `ts` is positive.
pub open spec fn forest_indices_positive(ts: Seq<OutlineQuestionTree>, n: nat) -> bool
    decreases ts, n,
{
    if n == 0 || n > ts.len() {
        true
    } else {
        forest_indices_positive(ts, (n - 1) as nat) && tree_indices_positive(ts[n - 1])
    }
}

/// Numbers under a valid prefix in a tree whose indices are positive are
/// valid and longer than the prefix.
proof fn lemma_tree_numbers_valid(t: OutlineQuestionTree, prefix: Seq<u8>)
    requires
        valid_number(prefix),
        tree_indices_positive(t),
    ensures
        forall|i: int|
            0 <= i < tree_questions(t, prefix).len() ==> valid_number(
                #[trigger] tree_questions(t, prefix)[i].1,
            ) && tree_questions(t, prefix)[i].1.len() > prefix.len(),
    decreases t, 0nat,
{
    let index = match t {
        OutlineQuestionTree::Leaf { index, .. } => index,
        OutlineQuestionTree::Inner { index, .. } => index,
    };
    let n = prefix.push(index);
    assert(valid_number(n)) by {
        assert forall|i: int| 0 <= i < n.len() implies n[i] > 0 by {
            if i < prefix.len() {
                assert(n[i] == prefix[i]);
            }
        }
    }
    match t {
        OutlineQuestionTree::Inner { index, children } => {
            assert(forest_indices_positive(children@, children@.len()));
            lemma_forest_numbers_valid(children@, children@.len(), n);
            assert(tree_questions(t, prefix) == forest_questions(children@, children@.len(), n));
        },
        OutlineQuestionTree::Leaf { title, index } => {
            assert(tree_questions(t, prefix) == seq![(title@, n)]);
            assert forall|i: int| 0 <= i < tree_questions(t, prefix).len() implies valid_number(
                #[trigger] tree_questions(t, prefix)[i].1,
            ) && tree_questions(t, prefix)[i].1.len() > prefix.len() by {
                assert(i == 0);
            }
        },
    }
}

proof fn lemma_forest_numbers_valid(ts: Seq<OutlineQuestionTree>, n: nat, prefix: Seq<u8>)
    requires
        valid_number(prefix),
        forest_indices_positive(ts, n),
    ensures
        forall|i: int|
            0 <= i < forest_questions(ts, n, prefix).len() ==> valid_number(
                #[trigger] forest_questions(ts, n, prefix)[i].1,
            ) && forest_questions(ts, n, prefix)[i].1.len() > prefix.len(),
    decreases ts, n,
{
    if n > 0 && n <= ts.len() {
        lemma_forest_numbers_valid(ts, (n - 1) as nat, prefix);
        lemma_tree_numbers_valid(ts[n - 1], prefix);
        let a = forest_questions(ts, (n - 1) as nat, prefix);
        let b = tree_questions(ts[n - 1], prefix);
        assert forall|i: int| 0 <= i < (a + b).len() implies valid_number(
            #[trigger] (a + b)[i].1,
        ) && (a + b)[i].1.len() > prefix.len() by {
            if i >= a.len() {
                assert((a + b)[i] == b[i - a.len()]);
            }
        }
    }
}

/// An assignment's question tree.
#[derive(Debug)]
pub struct Outline {
    questions: Vec<OutlineQuestionTree>,
}

/// `prefix` followed by `index`.
fn extended(prefix: &Vec<u8>, index: u8) -> (r: Vec<u8>)
    ensures
        r@ == prefix@.push(index),
{
    let mut parts: Vec<u8> = Vec::new();
    let mut i: usize = 0;
    while i < prefix.len()
        invariant
            i <= prefix@.len(),
            parts@ == prefix@.take(i as int),
        decreases prefix@.len() - i,
    {
        parts.push(prefix[i]);
        i = i + 1;
        assert(parts@ =~= prefix@.take(i as int));
    }
    parts.push(index);
    assert(parts@ =~= prefix@.push(index));
    parts
}

/// Appends the questions of `t` under `prefix` to `out`.
fn push_tree_questions(t: &OutlineQuestionTree, prefix: &Vec<u8>, out: &mut Vec<Question>)
    ensures
        question_views(final(out)@) == question_views(old(out)@) + tree_questions(*t, prefix@),
    decreases t,
{
    match t {
        OutlineQuestionTree::Leaf { title, index } => {
            let parts = extended(prefix, *index);
            let q = Question { title: title.clone(), number: QuestionNumber::from_parts(parts) };
            let ghost before = question_views(out@);
            out.push(q);
            assert(question_views(out@) =~= before + seq![q@]);
        },
        OutlineQuestionTree::Inner { index, children } => {
            let inner = extended(prefix, *index);
            let ghost start = question_views(out@);
            let mut k: usize = 0;
            assert(decreases_to!(*t => *children));
            while k < children.len()
                invariant
                    k <= children@.len(),
                    decreases_to!(*t => *children),
                    start == question_views(old(out)@),
                    question_views(out@) == start + forest_questions(children@, k as nat, inner@),
                decreases children@.len() - k,
            {
                proof {
                    vstd::std_specs::vec::axiom_vec_decreases_to_view(*children);
                    vstd::seq::axiom_seq_index_decreases(children@, k as int);
                    assert(decreases_to!(*children => children@));
                    assert(decreases_to!(children@ => children@[k as int]));
                    assert(decreases_to!(*t => children@[k as int]));
                }
                push_tree_questions(&children[k], &inner, out);
                k = k + 1;
                assert(question_views(out@) =~= start + forest_questions(children@, k as nat, inner@));
            }
        },
    }
}

impl Outline {
    pub fn new(questions: Vec<OutlineQuestionTree>) -> (r: Self)
        ensures
            r.trees() == questions@,
    {
        Outline { questions }
    }

    pub closed spec fn trees(&self) -> Seq<OutlineQuestionTree> {
        self.questions@
    }

    /// Every index of the outline is positive.
    pub open spec fn wf(&self) -> bool {
        forest_indices_positive(self.trees(), self.trees().len())
    }

    /// The outline's questions, in depth-first order.
    pub open spec fn questions_spec(&self) -> Seq<(Seq<char>, Seq<u8>)> {
        forest_questions(self.trees(), self.trees().len(), Seq::empty())
    }

    /// The outline's questions in depth-first order, each numbered by the
    /// indices on its path.
    pub fn into_questions(self) -> (r: Vec<Question>)
        ensures
            question_views(r@) == self.questions_spec(),
            self.wf() ==> forall|i: int|
                0 <= i < r@.len() ==> valid_number(#[trigger] r@[i]@.1) && r@[i]@.1.len() > 0,
    {
        proof {
            if self.wf() {
                lemma_forest_numbers_valid(self.trees(), self.trees().len(), Seq::empty());
                assert forall|i: int| 0 <= i < self.questions_spec().len() implies valid_number(
                    #[trigger] self.questions_spec()[i].1,
                ) && self.questions_spec()[i].1.len() > 0 by {
                    assert(Seq::<u8>::empty().len() == 0);
                }
            }
        }
        let mut out: Vec<Question> = Vec::new();
        let empty: Vec<u8> = Vec::new();
        let mut k: usize = 0;
        assert(question_views(out@) =~= Seq::<(Seq<char>, Seq<u8>)>::empty());
        let ghost all = self.questions_spec();
        while k < self.questions.len()
            invariant
                all == self.questions_spec(),
                k <= self.questions@.len(),
                empty@ == Seq::<u8>::empty(),
                question_views(out@) == forest_questions(self.questions@, k as nat, empty@),
            decreases self.questions@.len() - k,
        {
            push_tree_questions(&self.questions[k], &empty, &mut out);
            k = k + 1;
            assert(question_views(out@) =~= forest_questions(self.questions@, k as nat, empty@));
        }
        assert(forall|i: int| 0 <= i < out@.len() ==> #[trigger] out@[i]@ == question_views(out@)[i]);
        out
    }
}

} // verus!
