//! Exact text edits of string leaves: replacing a unique (or every)
//! occurrence of a pattern, and replacing an inclusive range of lines.
use vstd::prelude::*;
use crate::text::{decimal, decimal_text};

verus! {

/// `pat` occurs in `text` at `i`.
pub open spec fn occurs_at(text: Seq<char>, pat: Seq<char>, i: int) -> bool {
    0 <= i && i + pat.len() <= text.len() && text.subrange(i, i + pat.len()) == pat
}

/// The first position at or after `from` where `pat` occurs.
pub open spec fn first_from(text: Seq<char>, pat: Seq<char>, from: int) -> Option<int>
    decreases text.len() + 1 - from,
{
    if from < 0 || from + pat.len() > text.len() {
        None
    } else if occurs_at(text, pat, from) {
        Some(from)
    } else {
        first_from(text, pat, from + 1)
    }
}

/// Up to `limit` non-overlapping occurrences of `pat` from `from`, left to right.
pub open spec fn occurrences(text: Seq<char>, pat: Seq<char>, from: int, limit: nat) -> Seq<int>
    decreases limit,
{
    if limit == 0 || pat.len() == 0 {
        Seq::empty()
    } else {
        match first_from(text, pat, from) {
            None => Seq::empty(),
            Some(i) => seq![i] + occurrences(text, pat, i + pat.len(), (limit - 1) as nat),
        }
    }
}

/// The number of non-overlapping occurrences of `pat` in `text` (`str::matches`).
pub open spec fn match_count(text: Seq<char>, pat: Seq<char>) -> nat {
    occurrences(text, pat, 0, text.len()).len()
}

/// `text` from `from` with up to `limit` non-overlapping occurrences of `pat`
/// replaced by `new`, left to right.
pub open spec fn replaced_from(text: Seq<char>, pat: Seq<char>, new: Seq<char>, from: int, limit: nat) -> Seq<
    char,
>
    decreases limit,
{
    if limit == 0 || pat.len() == 0 {
        text.subrange(from, text.len() as int)
    } else {
        match first_from(text, pat, from) {
            None => text.subrange(from, text.len() as int),
            Some(i) => text.subrange(from, i) + new + replaced_from(
                text,
                pat,
                new,
                i + pat.len(),
                (limit - 1) as nat,
            ),
        }
    }
}

/// The Debug spelling of a text: quoted, with escapes.
pub uninterp spec fn debug_quoted(s: Seq<char>) -> Seq<char>;

/// `format!("{s:?}")` on a `str`: its quoted, escaped Debug spelling, which
/// depends on the text alone and is left to the name `debug_quoted`.
#[verifier::external_body]
fn debug_text(s: &str) -> (r: String)
    ensures
        r@ == debug_quoted(s@),
{
    format!("{s:?}")
}

/// What an exact edit gives: a refusal for an empty or absent pattern, or for
/// a pattern found more than once unless every occurrence is to be replaced;
/// otherwise the text with the one (or every) occurrence replaced.
pub open spec fn edit_result(text: Seq<char>, old: Seq<char>, new: Seq<char>, replace_all: bool) -> Result<
    Seq<char>,
    Seq<char>,
> {
    if old.len() == 0 {
        Err("edit: old pattern is empty"@)
    } else if match_count(text, old) == 0 {
        Err("edit: pattern not found: "@ + debug_quoted(old))
    } else if match_count(text, old) > 1 && !replace_all {
        Err(
            "edit: pattern is not unique ("@ + decimal(match_count(text, old)) + " matches); pass replace_all"@,
        )
    } else if replace_all {
        Ok(replaced_from(text, old, new, 0, text.len()))
    } else {
        Ok(replaced_from(text, old, new, 0, 1))
    }
}

proof fn lemma_first_from_bounds(text: Seq<char>, pat: Seq<char>, from: int)
    requires
        0 <= from,
    ensures
        first_from(text, pat, from) matches Some(i) ==> from <= i && occurs_at(text, pat, i) && forall|
            j: int,
        | from <= j < i ==> !occurs_at(text, pat, j),
        first_from(text, pat, from) is None ==> forall|j: int|
            from <= j ==> !#[trigger] occurs_at(text, pat, j),
    decreases text.len() + 1 - from,
{
    if from < 0 || from + pat.len() > text.len() {
    } else if occurs_at(text, pat, from) {
    } else {
        lemma_first_from_bounds(text, pat, from + 1);
    }
}

pub(crate) fn chars_of(s: &str) -> (r: Vec<char>)
    ensures
        r@ == s@,
{
    let mut out: Vec<char> = Vec::new();
    for c in it: s.chars()
        invariant
            it.seq() == s@,
            out@ == s@.take(it.index() as int),
    {
        out.push(c);
        assert(out@ =~= s@.take(it.index() + 1));
    }
    assert(out@ =~= s@);
    out
}

fn occurs(t: &Vec<char>, p: &Vec<char>, i: usize) -> (r: bool)
    requires
        i + p@.len() <= t@.len(),
    ensures
        r == occurs_at(t@, p@, i as int),
{
    let n = t.len();
    for j in 0..p.len()
        invariant
            n == t@.len(),
            i + p@.len() <= t@.len(),
            forall|k: int| 0 <= k < j ==> t@[i + k] == p@[k],
    {
        if t[i + j] != p[j] {
            assert(t@.subrange(i as int, i + p@.len())[j as int] != p@[j as int]);
            return false;
        }
    }
    assert(t@.subrange(i as int, i + p@.len()) =~= p@);
    true
}

fn find_from(t: &Vec<char>, p: &Vec<char>, from: usize) -> (r: Option<usize>)
    ensures
        match first_from(t@, p@, from as int) {
            Some(i) => r matches Some(j) && j as int == i,
            None => r is None,
        },
{
    if p.len() > t.len() || from > t.len() - p.len() {
        return None;
    }
    let last = t.len() - p.len();
    let mut i = from;
    loop
        invariant
            from <= i <= last,
            last == t@.len() - p@.len(),
            first_from(t@, p@, from as int) == first_from(t@, p@, i as int),
        decreases last - i,
    {
        if occurs(t, p, i) {
            return Some(i);
        }
        if i == last {
            assert(first_from(t@, p@, (i + 1) as int) is None);
            return None;
        }
        i = i + 1;
    }
}

/// Count the non-overlapping occurrences of a non-empty pattern.
fn count_matches(t: &Vec<char>, p: &Vec<char>) -> (r: usize)
    requires
        p@.len() > 0,
    ensures
        r == match_count(t@, p@),
{
    let limit: Ghost<nat> = Ghost(t@.len());
    let n = t.len();
    let mut from: usize = 0;
    let mut count: usize = 0;
    loop
        invariant
            n == t@.len(),
            p@.len() > 0,
            limit@ == t@.len(),
            count <= from <= t@.len(),
            count + occurrences(t@, p@, from as int, (limit@ - count) as nat).len() == match_count(
                t@,
                p@,
            ),
        decreases t@.len() - from + 1,
    {
        proof {
            lemma_first_from_bounds(t@, p@, from as int);
        }
        match find_from(t, p, from) {
            None => {
                return count;
            },
            Some(i) => {
                count = count + 1;
                from = i + p.len();
            },
        }
    }
}

/// `text` with up to `limit` occurrences of a non-empty pattern replaced.
fn replace_limited(text: &str, t: &Vec<char>, p: &Vec<char>, new: &str, limit: usize) -> (r: String)
    requires
        t@ == text@,
        p@.len() > 0,
    ensures
        r@ == replaced_from(t@, p@, new@, 0, limit as nat),
{
    let mut out = String::new();
    let n = t.len();
    let mut from: usize = 0;
    let mut left: usize = limit;
    loop
        invariant
            n == t@.len(),
            t@ == text@,
            p@.len() > 0,
            from <= t@.len(),
            left <= limit,
            out@ + replaced_from(t@, p@, new@, from as int, left as nat) == replaced_from(
                t@,
                p@,
                new@,
                0,
                limit as nat,
            ),
        decreases left,
    {
        proof {
            lemma_first_from_bounds(t@, p@, from as int);
        }
        if left == 0 {
            out.append(text.substring_char(from, t.len()));
            return out;
        }
        match find_from(t, p, from) {
            None => {
                out.append(text.substring_char(from, t.len()));
                return out;
            },
            Some(i) => {
                let ghost before = out@;
                out.append(text.substring_char(from, i));
                out.append(new);
                assert(before + replaced_from(t@, p@, new@, from as int, left as nat) == before + (
                t@.subrange(from as int, i as int) + new@ + replaced_from(
                    t@,
                    p@,
                    new@,
                    i + p@.len(),
                    (left - 1) as nat,
                )));
                assert(out@ =~= before + t@.subrange(from as int, i as int) + new@);
                from = i + p.len();
                left = left - 1;
            },
        }
    }
}

/// Apply an exact text replacement, as [`edit_result`] states.
pub fn apply_edit(text: &str, old: &str, new: &str, replace_all: bool) -> (r: Result<String, String>)
    ensures
        match edit_result(text@, old@, new@, replace_all) {
            Ok(t) => r matches Ok(s) && s@ == t,
            Err(m) => r matches Err(e) && e@ == m,
        },
{
    let p = chars_of(old);
    if p.len() == 0 {
        return Err(String::from_str("edit: old pattern is empty"));
    }
    let t = chars_of(text);
    let n = count_matches(&t, &p);
    if n == 0 {
        let mut m = String::from_str("edit: pattern not found: ");
        let quoted = debug_text(old);
        m.append(quoted.as_str());
        return Err(m);
    }
    if n > 1 && !replace_all {
        let mut m = String::from_str("edit: pattern is not unique (");
        let digits = decimal_text(n as u64);
        m.append(digits.as_str());
        m.append(" matches); pass replace_all");
        return Err(m);
    }
    if replace_all {
        Ok(replace_limited(text, &t, &p, new, t.len()))
    } else {
        Ok(replace_limited(text, &t, &p, new, 1))
    }
}


/// Positions of the line breaks of `text`, in order.
pub open spec fn breaks(text: Seq<char>) -> Seq<int>
    decreases text.len(),
{
    if text.len() == 0 {
        Seq::empty()
    } else if text.last() == '\n' {
        breaks(text.drop_last()).push(text.len() - 1)
    } else {
        breaks(text.drop_last())
    }
}

/// The number of lines of `text`, each ending at a line break except perhaps
/// the last (`str::split_inclusive('\n')`).
pub open spec fn line_count(text: Seq<char>) -> nat {
    breaks(text).len() + if text.len() > 0 && text.last() != '\n' {
        1nat
    } else {
        0nat
    }
}

/// Where line `k` (counted from 0) starts: after the `k`-th line break, or at
/// the end of the text.
pub open spec fn line_boundary(text: Seq<char>, k: nat) -> int {
    if k == 0 {
        0
    } else if k <= breaks(text).len() {
        breaks(text)[k - 1] + 1
    } else {
        text.len() as int
    }
}

/// What a line-range edit gives: a refusal for a start of zero, an end
/// before the start or past the last line; otherwise the text with lines
/// `start` through `end` (counted from 1) replaced by `new`.
pub open spec fn edit_lines_result(text: Seq<char>, start: nat, end: nat, new: Seq<char>) -> Result<
    Seq<char>,
    Seq<char>,
> {
    if start == 0 {
        Err("edit-lines: start must be at least 1"@)
    } else if end < start {
        Err("edit-lines: end must be greater than or equal to start"@)
    } else if end > line_count(text) {
        Err(
            "edit-lines: range "@ + decimal(start) + ".."@ + decimal(end) + " exceeds "@ + decimal(
                line_count(text),
            ) + " line(s)"@,
        )
    } else {
        Ok(
            text.subrange(0, line_boundary(text, (start - 1) as nat)) + new + text.subrange(
                line_boundary(text, end),
                text.len() as int,
            ),
        )
    }
}

pub(crate) proof fn lemma_breaks_bounds(text: Seq<char>)
    ensures
        breaks(text).len() <= text.len(),
        text.len() > 0 && text.last() != '\n' ==> breaks(text).len() < text.len(),
        forall|k: int| 0 <= k < breaks(text).len() ==> 0 <= #[trigger] breaks(text)[k] < text.len(),
        forall|i: int, j: int|
            0 <= i < j < breaks(text).len() ==> #[trigger] breaks(text)[i] < #[trigger] breaks(text)[j],
    decreases text.len(),
{
    if text.len() > 0 {
        let rest = text.drop_last();
        lemma_breaks_bounds(rest);
        let b = breaks(rest);
        if text.last() == '\n' {
            let r = b.push(text.len() - 1);
            assert(breaks(text) == r);
            assert forall|k: int| 0 <= k < r.len() implies 0 <= #[trigger] r[k] < text.len() by {
                if k < b.len() {
                    assert(r[k] == b[k]);
                }
            }
            assert forall|i: int, j: int| 0 <= i < j < r.len() implies #[trigger] r[i] < #[trigger] r[j] by {
                assert(r[i] == b[i]);
                if j < b.len() {
                    assert(r[j] == b[j]);
                }
            }
        }
    }
}

/// The positions as integers.
pub open spec fn positions(s: Seq<usize>) -> Seq<int> {
    s.map_values(|x: usize| x as int)
}

pub(crate) fn line_breaks(t: &Vec<char>) -> (r: Vec<usize>)
    ensures
        positions(r@) == breaks(t@),
{
    let mut out: Vec<usize> = Vec::new();
    for i in 0..t.len()
        invariant
            positions(out@) == breaks(t@.take(i as int)),
    {
        let ghost x = t@.take(i + 1);
        assert(x.drop_last() =~= t@.take(i as int));
        assert(x.last() == t@[i as int]);
        let ghost before = out@;
        if t[i] == '\n' {
            out.push(i);
            assert(positions(out@) =~= positions(before).push(i as int));
        }
    }
    assert(t@.take(t@.len() as int) =~= t@);
    out
}

/// Apply a line-range replacement, as [`edit_lines_result`] states.
pub fn apply_edit_lines(text: &str, start: usize, end: usize, new: &str) -> (r: Result<String, String>)
    ensures
        match edit_lines_result(text@, start as nat, end as nat, new@) {
            Ok(t) => r matches Ok(s) && s@ == t,
            Err(m) => r matches Err(e) && e@ == m,
        },
{
    if start == 0 {
        return Err(String::from_str("edit-lines: start must be at least 1"));
    }
    if end < start {
        return Err(String::from_str("edit-lines: end must be greater than or equal to start"));
    }
    let t = chars_of(text);
    let b = line_breaks(&t);
    proof {
        lemma_breaks_bounds(t@);
    }
    let count = if t.len() > 0 && t[t.len() - 1] != '\n' {
        b.len() + 1
    } else {
        b.len()
    };
    if end > count {
        let mut m = String::from_str("edit-lines: range ");
        m.append(decimal_text(start as u64).as_str());
        m.append("..");
        m.append(decimal_text(end as u64).as_str());
        m.append(" exceeds ");
        m.append(decimal_text(count as u64).as_str());
        m.append(" line(s)");
        return Err(m);
    }
    let head = if start - 1 == 0 {
        0
    } else {
        b[start - 2] + 1
    };
    let tail = if end <= b.len() {
        b[end - 1] + 1
    } else {
        t.len()
    };
    let mut out = String::from_str(text.substring_char(0, head));
    out.append(new);
    out.append(text.substring_char(tail, t.len()));
    Ok(out)
}

} // verus!
