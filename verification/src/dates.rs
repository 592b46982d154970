//! Future-date classification for availability phrases. A phrase such as
//! "verfügbar ab 01.07.2024" is read by taking its first three maximal runs
//! of ASCII digits as day, month and year; a phrase with fewer than three
//! runs, or a run too large for an `i32`, counts as available now.

use vstd::prelude::*;
use chrono::Datelike;
use crate::text::chars_of;

verus! {

/// A calendar date, as plain numbers.
#[derive(Clone, Copy, PartialEq, Eq, Structural, Debug)]
pub struct Date {
    pub year: i32,
    pub month: u8,
    pub day: u8,
}

/// An ASCII digit.
pub open spec fn is_digit(c: char) -> bool {
    48 <= c as u32 <= 57
}

/// The numeric value of an ASCII digit.
pub open spec fn digit_val(c: char) -> int {
    c as u32 - 48
}

/// The first position at or after `i` holding a digit, or the length.
pub open spec fn next_digit(s: Seq<char>, i: int) -> int
    decreases s.len() - i,
{
    if 0 <= i < s.len() && !is_digit(s[i]) {
        next_digit(s, i + 1)
    } else {
        i
    }
}

/// The first position at or after `i` not holding a digit, or the length.
pub open spec fn run_end(s: Seq<char>, i: int) -> int
    decreases s.len() - i,
{
    if 0 <= i < s.len() && is_digit(s[i]) {
        run_end(s, i + 1)
    } else {
        i
    }
}

/// The number written by the digits `s[i..j]`.
pub open spec fn run_value(s: Seq<char>, i: int, j: int) -> int
    decreases j - i,
{
    if i >= j {
        0
    } else {
        run_value(s, i, j - 1) * 10 + digit_val(s[j - 1])
    }
}

/// The first three digit runs of `s` as (day, month, year) values, or nothing
/// when `s` holds fewer than three runs.
pub open spec fn date_parts(s: Seq<char>) -> Option<(int, int, int)> {
    let a1 = next_digit(s, 0);
    let b1 = run_end(s, a1);
    let a2 = next_digit(s, b1);
    let b2 = run_end(s, a2);
    let a3 = next_digit(s, b2);
    if a3 < s.len() {
        Some((run_value(s, a1, b1), run_value(s, a2, b2), run_value(s, a3, run_end(s, a3))))
    } else {
        None
    }
}

/// The phrase names a date strictly after `today`: a larger year, or the same
/// year and a larger month, or the same year and month and a larger day.
/// Fewer than three digit runs, or a run that does not fit an `i32`, is not
/// future.
pub open spec fn spec_is_future(s: Seq<char>, today: Date) -> bool {
    match date_parts(s) {
        None => false,
        Some(parts) => {
            let d = parts.0;
            let m = parts.1;
            let y = parts.2;
            if d > i32::MAX || m > i32::MAX || y > i32::MAX {
                false
            } else {
                y > today.year || (y == today.year && (m > today.month || (m == today.month && d
                    > today.day)))
            }
        },
    }
}

/// Whether `c` is an ASCII digit.
fn is_digit_exec(c: char) -> (r: bool)
    ensures
        r == is_digit(c),
{
    let u = c as u32;
    48 <= u && u <= 57
}

/// The first digit position at or after `from`.
fn next_digit_exec(v: &Vec<char>, from: usize) -> (r: usize)
    requires
        from <= v@.len(),
    ensures
        r == next_digit(v@, from as int),
        from <= r <= v@.len(),
        r < v@.len() ==> is_digit(v@[r as int]),
{
    let mut i = from;
    while i < v.len() && !is_digit_exec(v[i])
        invariant
            from <= i <= v@.len(),
            next_digit(v@, from as int) == next_digit(v@, i as int),
        decreases v@.len() - i,
    {
        i = i + 1;
    }
    i
}

/// The end of the digit run starting at `from`; every character before it,
/// from `from` on, is a digit.
fn run_end_exec(v: &Vec<char>, from: usize) -> (r: usize)
    requires
        from <= v@.len(),
    ensures
        r == run_end(v@, from as int),
        from <= r <= v@.len(),
        forall|k: int| from <= k < r ==> is_digit(v@[k]),
{
    let mut i = from;
    while i < v.len() && is_digit_exec(v[i])
        invariant
            from <= i <= v@.len(),
            run_end(v@, from as int) == run_end(v@, i as int),
            forall|k: int| from <= k < i ==> is_digit(v@[k]),
        decreases v@.len() - i,
    {
        i = i + 1;
    }
    i
}

/// A run's value never goes below zero.
proof fn lemma_run_value_nonneg(s: Seq<char>, a: int, j: int)
    requires
        forall|k: int| a <= k < j ==> is_digit(s[k]),
    ensures
        run_value(s, a, j) >= 0,
    decreases j - a,
{
    if a < j {
        lemma_run_value_nonneg(s, a, j - 1);
    }
}

/// Reading more digits never shrinks a run's value.
proof fn lemma_run_value_grows(s: Seq<char>, a: int, j: int, b: int)
    requires
        a <= j <= b,
        forall|k: int| a <= k < b ==> is_digit(s[k]),
    ensures
        run_value(s, a, b) >= run_value(s, a, j),
    decreases b - j,
{
    if j < b {
        lemma_run_value_nonneg(s, a, j);
        lemma_run_value_grows(s, a, j + 1, b);
    }
}

/// The value of the digit run `v[a..b]`, or nothing when it exceeds `i32`.
fn run_value_exec(v: &Vec<char>, a: usize, b: usize) -> (r: Option<i32>)
    requires
        a <= b <= v@.len(),
        forall|k: int| a <= k < b ==> is_digit(v@[k]),
    ensures
        match r {
            Some(x) => x as int == run_value(v@, a as int, b as int),
            None => run_value(v@, a as int, b as int) > i32::MAX,
        },
{
    let mut acc: u64 = 0;
    let mut j = a;
    while j < b
        invariant
            a <= j <= b <= v@.len(),
            forall|k: int| a <= k < b ==> is_digit(v@[k]),
            acc as int == run_value(v@, a as int, j as int),
            acc <= i32::MAX as u64,
        decreases b - j,
    {
        let d = (v[j] as u32 - 48) as u64;
        acc = acc * 10 + d;
        j = j + 1;
        if acc > i32::MAX as u64 {
            proof {
                lemma_run_value_grows(v@, a as int, j as int, b as int);
            }
            return None;
        }
    }
    Some(acc as i32)
}

/// Whether the phrase `date_str` names a date strictly after `today`.
pub fn is_future_date(date_str: &str, today: &Date) -> (r: bool)
    ensures
        r == spec_is_future(date_str@, *today),
{
    let v = chars_of(date_str);
    let a1 = next_digit_exec(&v, 0);
    let b1 = run_end_exec(&v, a1);
    let a2 = next_digit_exec(&v, b1);
    let b2 = run_end_exec(&v, a2);
    let a3 = next_digit_exec(&v, b2);
    if a3 >= v.len() {
        return false;
    }
    let b3 = run_end_exec(&v, a3);
    let d = match run_value_exec(&v, a1, b1) {
        Some(x) => x,
        None => {
            return false;
        },
    };
    let m = match run_value_exec(&v, a2, b2) {
        Some(x) => x,
        None => {
            return false;
        },
    };
    let y = match run_value_exec(&v, a3, b3) {
        Some(x) => x,
        None => {
            return false;
        },
    };
    if y > today.year {
        return true;
    }
    if y < today.year {
        return false;
    }
    let tm = today.month as i32;
    if m > tm {
        return true;
    }
    if m < tm {
        return false;
    }
    d > today.day as i32
}

/// Relies on chrono's `Local::now` and the `Datelike` accessors: the current
/// local calendar date, with `month` in 1 to 12 and `day` in 1 to 31 as
/// chrono documents them.
#[verifier::external_body]
fn local_date_parts() -> (r: (i32, u8, u8))
    ensures
        1 <= r.1 <= 12,
        1 <= r.2 <= 31,
{
    let now = chrono::Local::now();
    let d = now.date_naive();
    (d.year(), d.month() as u8, d.day() as u8)
}

/// Today's local date, for classifying phrases against the present.
pub fn current_date() -> (r: Date)
    ensures
        1 <= r.month <= 12,
        1 <= r.day <= 31,
{
    let parts = local_date_parts();
    Date { year: parts.0, month: parts.1, day: parts.2 }
}

} // verus!
