//! The grammar of the text that the platform renders into each submission PDF.
//!
//! The text arrives with all white space removed, since glyph positioning makes
//! white space unreliable. Its shape is
//!
//! ```text
//! document      := skip-to("TotalPoints") page*
//! page          := skip-to(page-label) question-list
//! question-list := (question (sep question)*)?
//! sep           := ",and" | "," | "and"
//! question      := digits ("." digits)*
//! ```
//!
//! `skip-to(p)` moves to the first place where `p` matches and past it. The
//! page labels are the three phrases below. A list ends before the first
//! question number with a part of 0 or above 255 (and before a separator with
//! no number after it); the text from there on is skipped up to the next page
//! label. Text after the last page's list is the end of the document and is
//! ignored. Only a missing "TotalPoints" marker is an error.
use vstd::prelude::*;

use crate::error::{ParseProblem, ReportError};
use crate::question::{number_views, QuestionNumber};
use crate::text::{char_is_digit, digit_value, is_digit};

verus! {

broadcast use vstd::string::group_string_axioms;

/// Marks the end of the summary near the top of each PDF.
pub const TOTAL_POINTS: &'static str = "TotalPoints";

/// Page label that lists several questions.
pub const LABEL_MANY: &'static str = "Questionsassignedtothefollowingpage:";

/// Page label that lists one question.
pub const LABEL_ONE: &'static str = "Questionassignedtothefollowingpage:";

/// Page label of a page without questions.
pub const LABEL_NONE: &'static str = "Noquestionsassignedtothefollowingpage.";

pub const SEP_COMMA_AND: &'static str = ",and";

pub const SEP_COMMA: &'static str = ",";

pub const SEP_AND: &'static str = "and";

pub open spec fn matches_at(t: Seq<char>, p: int, w: Seq<char>) -> bool {
    0 <= p && p + w.len() <= t.len() && t.subrange(p, p + w.len()) == w
}

/// The first position at or after `p` where `w` matches.
pub open spec fn find_phrase(t: Seq<char>, p: int, w: Seq<char>) -> Option<int>
    decreases t.len() - p,
{
    if p < 0 || p >= t.len() {
        None
    } else if matches_at(t, p, w) {
        Some(p)
    } else {
        find_phrase(t, p + 1, w)
    }
}

/// The length of the page label at `p`, or 0 where none matches.
pub open spec fn label_len_at(t: Seq<char>, p: int) -> nat {
    if matches_at(t, p, LABEL_MANY@) {
        LABEL_MANY@.len()
    } else if matches_at(t, p, LABEL_ONE@) {
        LABEL_ONE@.len()
    } else if matches_at(t, p, LABEL_NONE@) {
        LABEL_NONE@.len()
    } else {
        0
    }
}

/// The first position at or after `p` where a page label matches.
pub open spec fn find_label(t: Seq<char>, p: int) -> Option<int>
    decreases t.len() - p,
{
    if p < 0 || p >= t.len() {
        None
    } else if label_len_at(t, p) > 0 {
        Some(p)
    } else {
        find_label(t, p + 1)
    }
}

/// The length of the list separator at `p`, or 0 where none matches.
pub open spec fn sep_len_at(t: Seq<char>, p: int) -> nat {
    if matches_at(t, p, SEP_COMMA_AND@) {
        SEP_COMMA_AND@.len()
    } else if matches_at(t, p, SEP_COMMA@) {
        SEP_COMMA@.len()
    } else if matches_at(t, p, SEP_AND@) {
        SEP_AND@.len()
    } else {
        0
    }
}

pub open spec fn digit_at(t: Seq<char>, p: int) -> bool {
    0 <= p < t.len() && is_digit(t[p])
}

/// The number of digits in the run that starts at `p`.
pub open spec fn digit_run(t: Seq<char>, p: int) -> nat
    decreases t.len() - p,
{
    if digit_at(t, p) {
        1 + digit_run(t, p + 1)
    } else {
        0
    }
}

/// The value of the `n` digits that start at `p`.
pub open spec fn digits_value(t: Seq<char>, p: int, n: nat) -> nat
    decreases n,
{
    if n == 0 {
        0
    } else {
        digits_value(t, p, (n - 1) as nat) * 10 + digit_value(t[p + n - 1])
    }
}

/// A part of a question number: 1 to 255.
pub open spec fn valid_part(v: nat) -> bool {
    1 <= v <= 255
}

/// The question number that starts at `p` and where it ends; `None` where a
/// part is not valid (or no digit stands at `p`).
pub open spec fn parse_number(t: Seq<char>, p: int) -> Option<(Seq<u8>, int)>
    decreases t.len() - p,
{
    let n = digit_run(t, p);
    let v = digits_value(t, p, n);
    if n == 0 || !valid_part(v) {
        None
    } else if digit_at(t, p + n + 1) && t[p + n] == '.' {
        match parse_number(t, p + n + 1) {
            Some((rest, e)) => Some((seq![v as u8] + rest, e)),
            None => None,
        }
    } else {
        Some((seq![v as u8], p + n))
    }
}

/// The questions that follow separators from `p` on, and where the list ends.
/// The list ends before a separator that no valid question number follows.
pub open spec fn parse_more(t: Seq<char>, p: int) -> (Seq<Seq<u8>>, int)
    decreases t.len() - p,
{
    let s = sep_len_at(t, p);
    if s > 0 {
        match parse_number(t, p + s) {
            None => (Seq::empty(), p),
            Some((q, e)) => {
                proof {
                    lemma_parse_number_advances(t, p + s);
                }
                let (qs, e2) = parse_more(t, e);
                (seq![q] + qs, e2)
            },
        }
    } else {
        (Seq::empty(), p)
    }
}

/// The question list that starts at `p`, and where it ends. A list that does
/// not start with a valid question number is empty.
pub open spec fn parse_list(t: Seq<char>, p: int) -> (Seq<Seq<u8>>, int) {
    match parse_number(t, p) {
        None => (Seq::empty(), p),
        Some((q, e)) => {
            let (qs, e2) = parse_more(t, e);
            (seq![q] + qs, e2)
        },
    }
}

/// The questions of the pages from `p` on.
pub open spec fn parse_pages(t: Seq<char>, p: int) -> Seq<Seq<u8>>
    decreases t.len() - p,
{
    match find_label(t, p) {
        None => Seq::empty(),
        Some(q) => {
            let a = q + label_len_at(t, q);
            let (qs, e) = parse_list(t, a);
            proof {
                lemma_find_label_bounds(t, p);
                lemma_parse_list_advances(t, a);
            }
            qs + parse_pages(t, e)
        },
    }
}

/// The question numbers that the document's pages list, in order and with
/// repetitions; an error where the "Total Points" marker is missing.
pub open spec fn parse_document(t: Seq<char>) -> Result<Seq<Seq<u8>>, ReportError> {
    match find_phrase(t, 0, TOTAL_POINTS@) {
        None => Err(ReportError::AnchorNotFound),
        Some(q) => Ok(parse_pages(t, q + TOTAL_POINTS@.len())),
    }
}

pub proof fn lemma_digit_run_bound(t: Seq<char>, p: int)
    ensures
        digit_at(t, p) ==> p + digit_run(t, p) <= t.len(),
    decreases t.len() - p,
{
    if digit_at(t, p) {
        lemma_digit_run_bound(t, p + 1);
        if !digit_at(t, p + 1) {
            assert(digit_run(t, p + 1) == 0);
        }
    }
}

pub proof fn lemma_parse_number_advances(t: Seq<char>, p: int)
    ensures
        parse_number(t, p) matches Some((q, e)) ==> p < e <= t.len() && q.len() >= 1,
    decreases t.len() - p,
{
    lemma_digit_run_bound(t, p);
    let n = digit_run(t, p);
    if n != 0 && digit_at(t, p + n + 1) {
        lemma_parse_number_advances(t, p + n + 1);
    }
}

pub proof fn lemma_parse_more_advances(t: Seq<char>, p: int)
    requires
        0 <= p <= t.len(),
    ensures
        p <= parse_more(t, p).1 <= t.len(),
    decreases t.len() - p,
{
    let s = sep_len_at(t, p);
    if s > 0 {
        lemma_parse_number_advances(t, p + s);
        if let Some((q, e)) = parse_number(t, p + s) {
            lemma_parse_more_advances(t, e);
        }
    }
}

pub proof fn lemma_parse_list_advances(t: Seq<char>, p: int)
    requires
        0 <= p <= t.len(),
    ensures
        p <= parse_list(t, p).1 <= t.len(),
{
    lemma_parse_number_advances(t, p);
    if let Some((q, e)) = parse_number(t, p) {
        lemma_parse_more_advances(t, e);
    }
}

pub proof fn lemma_find_label_bounds(t: Seq<char>, p: int)
    ensures
        find_label(t, p) matches Some(q) ==> p <= q && 0 < label_len_at(t, q) && q
            + label_len_at(t, q) <= t.len(),
    decreases t.len() - p,
{
    if 0 <= p < t.len() && label_len_at(t, p) == 0 {
        lemma_find_label_bounds(t, p + 1);
    }
}

pub proof fn lemma_find_phrase_bounds(t: Seq<char>, p: int, w: Seq<char>)
    ensures
        find_phrase(t, p, w) matches Some(q) ==> p <= q && q + w.len() <= t.len(),
    decreases t.len() - p,
{
    if 0 <= p < t.len() && !matches_at(t, p, w) {
        lemma_find_phrase_bounds(t, p + 1, w);
    }
}

/// Whether `w` stands in `t` at `p`.
fn phrase_at(t: &Vec<char>, p: usize, w: &str) -> (r: bool)
    requires
        p <= t@.len(),
    ensures
        r == matches_at(t@, p as int, w@),
{
    let k = w.unicode_len();
    if k > t.len() - p {
        return false;
    }
    let mut i: usize = 0;
    while i < k
        invariant
            k == w@.len(),
            p + k <= t.len(),
            i <= k,
            forall|j: int| 0 <= j < i ==> t@[p + j] == w@[j],
        decreases k - i,
    {
        if t[p + i] != w.get_char(i) {
            assert(t@.subrange(p as int, p + k)[i as int] != w@[i as int]);
            return false;
        }
        i = i + 1;
    }
    assert(t@.subrange(p as int, p + k) =~= w@);
    true
}

fn label_len(t: &Vec<char>, p: usize) -> (r: usize)
    requires
        p <= t@.len(),
    ensures
        r == label_len_at(t@, p as int),
{
    if phrase_at(t, p, LABEL_MANY) {
        LABEL_MANY.unicode_len()
    } else if phrase_at(t, p, LABEL_ONE) {
        LABEL_ONE.unicode_len()
    } else if phrase_at(t, p, LABEL_NONE) {
        LABEL_NONE.unicode_len()
    } else {
        0
    }
}

fn sep_len(t: &Vec<char>, p: usize) -> (r: usize)
    requires
        p <= t@.len(),
    ensures
        r == sep_len_at(t@, p as int),
{
    if phrase_at(t, p, SEP_COMMA_AND) {
        SEP_COMMA_AND.unicode_len()
    } else if phrase_at(t, p, SEP_COMMA) {
        SEP_COMMA.unicode_len()
    } else if phrase_at(t, p, SEP_AND) {
        SEP_AND.unicode_len()
    } else {
        0
    }
}

fn digit_here(t: &Vec<char>, p: usize) -> (r: bool)
    ensures
        r == digit_at(t@, p as int),
{
    p < t.len() && char_is_digit(t[p])
}

fn find_phrase_from(t: &Vec<char>, p: usize, w: &str) -> (r: Option<usize>)
    requires
        p <= t@.len(),
    ensures
        match r {
            Some(q) => find_phrase(t@, p as int, w@) == Some(q as int),
            None => find_phrase(t@, p as int, w@) is None,
        },
{
    let mut i = p;
    while i < t.len()
        invariant
            p <= i <= t@.len(),
            find_phrase(t@, p as int, w@) == find_phrase(t@, i as int, w@),
        decreases t@.len() - i,
    {
        if phrase_at(t, i, w) {
            return Some(i);
        }
        i = i + 1;
    }
    None
}

fn find_label_from(t: &Vec<char>, p: usize) -> (r: Option<usize>)
    requires
        p <= t@.len(),
    ensures
        match r {
            Some(q) => find_label(t@, p as int) == Some(q as int),
            None => find_label(t@, p as int) is None,
        },
{
    let mut i = p;
    while i < t.len()
        invariant
            p <= i <= t@.len(),
            find_label(t@, p as int) == find_label(t@, i as int),
        decreases t@.len() - i,
    {
        if label_len(t, i) > 0 {
            return Some(i);
        }
        i = i + 1;
    }
    None
}

pub open spec fn capped(v: nat) -> nat {
    if v > 255 {
        256
    } else {
        v
    }
}

/// The length of the digit run at `p` and its value, capped at 256.
fn scan_digits(t: &Vec<char>, p: usize) -> (r: (usize, u64))
    requires
        p <= t@.len(),
    ensures
        r.0 == digit_run(t@, p as int),
        r.1 == capped(digits_value(t@, p as int, r.0 as nat)),
        p + r.0 <= t@.len(),
{
    let mut e = p;
    let mut v: u64 = 0;
    while e < t.len() && char_is_digit(t[e])
        invariant
            p <= e <= t@.len(),
            digit_run(t@, p as int) == (e - p) + digit_run(t@, e as int),
            v == capped(digits_value(t@, p as int, (e - p) as nat)),
        decreases t@.len() - e,
    {
        let d = (t[e] as u32 - '0' as u32) as u64;
        assert(d == digit_value(t@[e as int]));
        assert(digits_value(t@, p as int, (e + 1 - p) as nat) == digits_value(
            t@,
            p as int,
            (e - p) as nat,
        ) * 10 + d);
        if v > 255 {
            v = 256;
        } else {
            v = v * 10 + d;
            if v > 255 {
                v = 256;
            }
        }
        e = e + 1;
    }
    (e - p, v)
}

pub open spec fn prefix_parts(a: Seq<u8>, r: Option<(Seq<u8>, int)>) -> Option<(Seq<u8>, int)> {
    match r {
        Some((rest, e)) => Some((a + rest, e)),
        None => None,
    }
}

/// The question number at `p`, parsed as `parse_number` says.
pub(crate) fn number_at(t: &Vec<char>, p: usize) -> (r: Option<(QuestionNumber, usize)>)
    requires
        p <= t@.len(),
    ensures
        match r {
            Some((q, e)) => parse_number(t@, p as int) == Some((q@, e as int)),
            None => parse_number(t@, p as int) is None,
        },
{
    let mut parts: Vec<u8> = Vec::new();
    let mut pos = p;
    let t_len = t.len();
    loop
        invariant
            pos <= t@.len(),
            t_len == t@.len(),
            parse_number(t@, p as int) == prefix_parts(parts@, parse_number(t@, pos as int)),
        decreases t@.len() - pos,
    {
        let (n, v) = scan_digits(t, pos);
        if n == 0 || v == 0 || v > 255 {
            return None;
        }
        let ghost old_parts = parts@;
        parts.push(v as u8);
        if pos + n < t.len() && t[pos + n] == '.' && digit_here(t, pos + n + 1) {
            proof {
                let r = parse_number(t@, (pos + n + 1) as int);
                if let Some((rest, e)) = r {
                    assert(old_parts + (seq![v as u8] + rest) =~= parts@ + rest);
                }
            }
            pos = pos + n + 1;
        } else {
            proof {
                assert(old_parts + seq![v as u8] =~= parts@);
            }
            return Some((QuestionNumber::from_parts(parts), pos + n));
        }
    }
}

/// Parses the question list at `p`, appending its numbers to `out`; returns
/// where the list ends.
fn list_at(t: &Vec<char>, p: usize, out: &mut Vec<QuestionNumber>) -> (r: usize)
    requires
        p <= t@.len(),
    ensures
        r == parse_list(t@, p as int).1,
        number_views(final(out)@) == number_views(old(out)@) + parse_list(t@, p as int).0,
{
    let ghost start = number_views(out@);
    let (q, e0) = match number_at(t, p) {
        None => {
            assert(number_views(out@) =~= start + Seq::<Seq<u8>>::empty());
            return p;
        },
        Some(x) => x,
    };
    out.push(q);
    let mut pos = e0;
    proof {
        lemma_parse_number_advances(t@, p as int);
        assert(number_views(out@) =~= start + seq![q@]);
    }
    let t_len = t.len();
    loop
        invariant
            pos <= t@.len(),
            t_len == t@.len(),
            start == number_views(old(out)@),
            start.len() <= number_views(out@).len(),
            number_views(out@).subrange(0, start.len() as int) == start,
            parse_list(t@, p as int).0 == number_views(out@).subrange(
                start.len() as int,
                number_views(out@).len() as int,
            ) + parse_more(t@, pos as int).0,
            parse_list(t@, p as int).1 == parse_more(t@, pos as int).1,
        decreases t@.len() - pos,
    {
        let ghost added = number_views(out@).subrange(
            start.len() as int,
            number_views(out@).len() as int,
        );
        let s = sep_len(t, pos);
        assert(s > 0 ==> pos + s <= t.len());
        let next = if s > 0 {
            number_at(t, pos + s)
        } else {
            None
        };
        match next {
            None => {
                proof {
                    assert(parse_more(t@, pos as int) == (Seq::<Seq<u8>>::empty(), pos as int));
                    assert(added + Seq::<Seq<u8>>::empty() =~= added);
                    assert(number_views(out@) =~= start + added);
                }
                return pos;
            },
            Some((q, e)) => {
                proof {
                    lemma_parse_number_advances(t@, (pos + s) as int);
                }
                out.push(q);
                proof {
                    let views = number_views(out@);
                    assert(views.subrange(start.len() as int, views.len() as int) =~= added.push(
                        q@,
                    ));
                    assert(views.subrange(0, start.len() as int) =~= start);
                    assert(added + (seq![q@] + parse_more(t@, e as int).0) =~= added.push(q@)
                        + parse_more(t@, e as int).0);
                }
                pos = e;
            },
        }
    }
}

/// The question numbers that the pages of `t` list, as `parse_document` says.
pub fn parse_page_text(t: &Vec<char>) -> (r: Result<Vec<QuestionNumber>, ReportError>)
    ensures
        match parse_document(t@) {
            Ok(ns) => r matches Ok(v) && number_views(v@) == ns,
            Err(e) => r matches Err(e2) && e2 == e,
        },
{
    let t_len = t.len();
    proof {
        lemma_find_phrase_bounds(t@, 0, TOTAL_POINTS@);
    }
    let start = match find_phrase_from(t, 0, TOTAL_POINTS) {
        None => return Err(ReportError::AnchorNotFound),
        Some(q) => q,
    };
    let mut out: Vec<QuestionNumber> = Vec::new();
    let mut pos = start + TOTAL_POINTS.unicode_len();
    proof {
        assert(number_views(out@) =~= Seq::<Seq<u8>>::empty());
        assert(parse_document(t@) == Ok::<Seq<Seq<u8>>, ReportError>(
            number_views(out@) + parse_pages(t@, pos as int),
        ));
    }
    loop
        invariant
            pos <= t@.len(),
            t_len == t@.len(),
            parse_document(t@) == Ok::<Seq<Seq<u8>>, ReportError>(
                number_views(out@) + parse_pages(t@, pos as int),
            ),
        decreases t@.len() - pos,
    {
        match find_label_from(t, pos) {
            None => {
                proof {
                    assert(number_views(out@) + Seq::<Seq<u8>>::empty() =~= number_views(out@));
                }
                return Ok(out);
            },
            Some(q) => {
                proof {
                    lemma_find_label_bounds(t@, pos as int);
                }
                let a = q + label_len(t, q);
                let ghost before = number_views(out@);
                let e = list_at(t, a, &mut out);
                proof {
                    lemma_parse_list_advances(t@, a as int);
                    let qs = parse_list(t@, a as int).0;
                    assert(before + (qs + parse_pages(t@, e as int)) =~= number_views(out@)
                        + parse_pages(t@, e as int));
                }
                pos = e;
            },
        }
    }
}

} // verus!
