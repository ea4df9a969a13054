//! A proleptic Gregorian calendar model over plain integers.
//!
//! Timetable expansion only ever steps a date forward by whole days, so the
//! model is built around a verified successor function and its iteration.
//! Years are kept within four decimal digits so that every date this crate
//! produces can be printed as `yyyymmdd`.

use vstd::prelude::*;
use crate::strutil::{all_digits, dec_val, digit_char, digit_char_exec, digit_val, is_digit};

verus! {

/// A calendar date: year, month (1..=12) and day of month.
#[derive(Clone, Copy, Debug, PartialEq, Eq, Structural)]
pub struct Date {
    pub year: u32,
    pub month: u32,
    pub day: u32,
}

/// Gregorian leap-year rule.
pub open spec fn is_leap_year(y: int) -> bool {
    (y % 4 == 0 && y % 100 != 0) || y % 400 == 0
}

/// Number of days in a month of a given year.
pub open spec fn days_in_month(y: int, m: int) -> int {
    if m == 2 {
        if is_leap_year(y) {
            29
        } else {
            28
        }
    } else if m == 4 || m == 6 || m == 9 || m == 11 {
        30
    } else {
        31
    }
}

/// A well-formed date of the model: printable as four-digit year.
pub open spec fn date_wf(d: Date) -> bool {
    &&& 1 <= d.year <= 9999
    &&& 1 <= d.month <= 12
    &&& 1 <= d.day <= days_in_month(d.year as int, d.month as int)
}

/// The greatest date of the model.
pub open spec fn max_date() -> Date {
    Date { year: 9999, month: 12, day: 31 }
}

/// The next calendar day; saturates at the greatest date of the model.
pub open spec fn spec_next(d: Date) -> Date {
    if d == max_date() {
        d
    } else if d.day < days_in_month(d.year as int, d.month as int) {
        Date { year: d.year, month: d.month, day: (d.day + 1) as u32 }
    } else if d.month < 12 {
        Date { year: d.year, month: (d.month + 1) as u32, day: 1 }
    } else {
        Date { year: (d.year + 1) as u32, month: 1, day: 1 }
    }
}

/// The date `n` days after `d`.
pub open spec fn date_plus(d: Date, n: nat) -> Date
    decreases n,
{
    if n == 0 {
        d
    } else {
        date_plus(spec_next(d), (n - 1) as nat)
    }
}

/// Month rank: months elapsed since the calendar origin; it grows by at most
/// one per day, which bounds how far `date_plus` can move the year.
pub open spec fn mrank(d: Date) -> int {
    d.year * 12 + d.month
}

pub proof fn lemma_next_wf(d: Date)
    requires
        date_wf(d),
    ensures
        date_wf(spec_next(d)),
        mrank(spec_next(d)) <= mrank(d) + 1,
{
}

pub proof fn lemma_plus_wf(d: Date, n: nat)
    requires
        date_wf(d),
    ensures
        date_wf(date_plus(d, n)),
        mrank(date_plus(d, n)) <= mrank(d) + n,
    decreases n,
{
    if n > 0 {
        lemma_next_wf(d);
        lemma_plus_wf(spec_next(d), (n - 1) as nat);
    }
}

/// Executable successor of a date.
pub fn next_day(d: Date) -> (r: Date)
    requires
        date_wf(d),
    ensures
        r == spec_next(d),
        date_wf(r),
{
    let dim: u32 = days_in_month_exec(d.year, d.month);
    if d.year == 9999 && d.month == 12 && d.day == 31 {
        d
    } else if d.day < dim {
        Date { year: d.year, month: d.month, day: d.day + 1 }
    } else if d.month < 12 {
        Date { year: d.year, month: d.month + 1, day: 1 }
    } else {
        Date { year: d.year + 1, month: 1, day: 1 }
    }
}

/// Executable mirror of `days_in_month`.
pub fn days_in_month_exec(y: u32, m: u32) -> (r: u32)
    ensures
        r == days_in_month(y as int, m as int),
{
    if m == 2 {
        if (y % 4 == 0 && y % 100 != 0) || y % 400 == 0 {
            29
        } else {
            28
        }
    } else if m == 4 || m == 6 || m == 9 || m == 11 {
        30
    } else {
        31
    }
}

/// The date `n` days after `d`, computed day by day.
pub fn add_days(d: Date, n: u32) -> (r: Date)
    requires
        date_wf(d),
        mrank(d) + n < 120000,
    ensures
        r == date_plus(d, n as nat),
        date_wf(r),
{
    let mut cur = d;
    let mut i: u32 = 0;
    while i < n
        invariant
            i <= n,
            date_wf(cur),
            mrank(cur) <= mrank(d) + i,
            mrank(d) + n < 120000,
            date_plus(d, n as nat) == date_plus(cur, (n - i) as nat),
        decreases n - i,
    {
        proof {
            assert(cur != max_date()) by {
                assert(mrank(cur) < 120000 == mrank(max_date()));
            }
            lemma_next_wf(cur);
        }
        cur = next_day(cur);
        i = i + 1;
    }
    cur
}

/// The eight characters `yyyymmdd` of a date.
pub open spec fn date8(d: Date) -> Seq<char> {
    seq![
        digit_char(d.year as int / 1000),
        digit_char((d.year as int / 100) % 10),
        digit_char((d.year as int / 10) % 10),
        digit_char(d.year as int % 10),
        digit_char(d.month as int / 10),
        digit_char(d.month as int % 10),
        digit_char(d.day as int / 10),
        digit_char(d.day as int % 10),
    ]
}

/// Print a date as `yyyymmdd`.
pub fn date8_exec(d: Date) -> (r: Vec<char>)
    requires
        date_wf(d),
    ensures
        r@ == date8(d),
{
    let mut r: Vec<char> = Vec::new();
    r.push(digit_char_exec(d.year / 1000));
    r.push(digit_char_exec((d.year / 100) % 10));
    r.push(digit_char_exec((d.year / 10) % 10));
    r.push(digit_char_exec(d.year % 10));
    r.push(digit_char_exec(d.month / 10));
    r.push(digit_char_exec(d.month % 10));
    r.push(digit_char_exec(d.day / 10));
    r.push(digit_char_exec(d.day % 10));
    assert(r@ =~= date8(d));
    r
}

/// The year encoded in an eight-character `yyyymmdd` string.
pub open spec fn date8_year(s: Seq<char>) -> int {
    dec_val(s.subrange(0, 4))
}

/// The month encoded in an eight-character `yyyymmdd` string.
pub open spec fn date8_month(s: Seq<char>) -> int {
    dec_val(s.subrange(4, 6))
}

/// The day encoded in an eight-character `yyyymmdd` string.
pub open spec fn date8_day(s: Seq<char>) -> int {
    dec_val(s.subrange(6, 8))
}

/// An eight-digit string that denotes a well-formed date.
pub open spec fn date8_wf(s: Seq<char>) -> bool {
    &&& s.len() == 8
    &&& all_digits(s)
    &&& date_wf(
        Date {
            year: date8_year(s) as u32,
            month: date8_month(s) as u32,
            day: date8_day(s) as u32,
        },
    )
    &&& date8_year(s) >= 1
}

/// The date denoted by an eight-digit `yyyymmdd` string.
pub open spec fn date8_value(s: Seq<char>) -> Date {
    Date { year: date8_year(s) as u32, month: date8_month(s) as u32, day: date8_day(s) as u32 }
}

/// Printing a well-formed date gives a well-formed eight-digit string that
/// parses back to the same date.
pub proof fn lemma_date8_roundtrip(d: Date)
    requires
        date_wf(d),
    ensures
        date8_wf(date8(d)),
        date8_value(date8(d)) == d,
{
    let s = date8(d);
    let y = d.year as int;
    let m = d.month as int;
    let dd = d.day as int;
    assert(forall|j: int| 0 <= j < 8 ==> is_digit(#[trigger] s[j]));
    assert(digit_val(s[0]) == y / 1000);
    assert(digit_val(s[1]) == (y / 100) % 10);
    assert(digit_val(s[2]) == (y / 10) % 10);
    assert(digit_val(s[3]) == y % 10);
    assert(dec_val(s.subrange(0, 0)) == 0);
    assert(s.subrange(0, 1).drop_last() =~= s.subrange(0, 0) && s.subrange(0, 1).last() == s[0]);
    assert(dec_val(s.subrange(0, 1)) == digit_val(s[0]));
    assert(s.subrange(0, 2).drop_last() =~= s.subrange(0, 1) && s.subrange(0, 2).last() == s[1]);
    assert(dec_val(s.subrange(0, 2)) == digit_val(s[0]) * 10 + digit_val(s[1]));
    assert(s.subrange(0, 3).drop_last() =~= s.subrange(0, 2) && s.subrange(0, 3).last() == s[2]);
    assert(dec_val(s.subrange(0, 3)) == (digit_val(s[0]) * 10 + digit_val(s[1])) * 10 + digit_val(
        s[2],
    ));
    assert(s.subrange(0, 4).drop_last() =~= s.subrange(0, 3) && s.subrange(0, 4).last() == s[3]);
    assert(dec_val(s.subrange(0, 4)) == ((digit_val(s[0]) * 10 + digit_val(s[1])) * 10
        + digit_val(s[2])) * 10 + digit_val(s[3]));
    assert(y == ((y / 1000 * 10 + (y / 100) % 10) * 10 + (y / 10) % 10) * 10 + y % 10)
        by (nonlinear_arith)
        requires
            1 <= y <= 9999,
    ;
    assert(digit_val(s[4]) == m / 10);
    assert(digit_val(s[5]) == m % 10);
    assert(dec_val(s.subrange(4, 4)) == 0);
    assert(s.subrange(4, 5).drop_last() =~= s.subrange(4, 4) && s.subrange(4, 5).last() == s[4]);
    assert(dec_val(s.subrange(4, 5)) == digit_val(s[4]));
    assert(s.subrange(4, 6).drop_last() =~= s.subrange(4, 5) && s.subrange(4, 6).last() == s[5]);
    assert(dec_val(s.subrange(4, 6)) == digit_val(s[4]) * 10 + digit_val(s[5]));
    assert(m == m / 10 * 10 + m % 10);
    assert(digit_val(s[6]) == dd / 10);
    assert(digit_val(s[7]) == dd % 10);
    assert(dec_val(s.subrange(6, 6)) == 0);
    assert(s.subrange(6, 7).drop_last() =~= s.subrange(6, 6) && s.subrange(6, 7).last() == s[6]);
    assert(dec_val(s.subrange(6, 7)) == digit_val(s[6]));
    assert(s.subrange(6, 8).drop_last() =~= s.subrange(6, 7) && s.subrange(6, 8).last() == s[7]);
    assert(dec_val(s.subrange(6, 8)) == digit_val(s[6]) * 10 + digit_val(s[7]));
    assert(dd == dd / 10 * 10 + dd % 10);
}

/// Read a fixed number of digit characters as a number.
fn read_digits(v: &Vec<char>, from: usize, to: usize) -> (r: Option<u32>)
    requires
        from <= to <= v@.len(),
        to - from <= 4,
    ensures
        r is Some <==> all_digits(v@.subrange(from as int, to as int)),
        r is Some ==> r->Some_0 == dec_val(v@.subrange(from as int, to as int)) && r->Some_0
            <= 9999,
{
    let mut acc: u32 = 0;
    let mut i: usize = from;
    assert(dec_val(v@.subrange(from as int, from as int)) == 0);
    while i < to
        invariant
            from <= i <= to <= v@.len(),
            to - from <= 4,
            forall|j: int| from <= j < i ==> is_digit(#[trigger] v@[j]),
            acc == dec_val(v@.subrange(from as int, i as int)),
            acc <= (if i == from {
                0int
            } else if i == from + 1 {
                9int
            } else if i == from + 2 {
                99int
            } else if i == from + 3 {
                999int
            } else {
                9999int
            }),
        decreases to - i,
    {
        let c = v[i];
        if c < '0' || c > '9' {
            assert(!is_digit(v@[i as int]));
            assert(!all_digits(v@.subrange(from as int, to as int))) by {
                assert(v@.subrange(from as int, to as int)[i - from] == v@[i as int]);
            }
            return None;
        }
        let d: u32 = (c as u32) - ('0' as u32);
        assert(d == digit_val(v@[i as int]) && d <= 9);
        acc = acc * 10 + d;
        i = i + 1;
        assert(v@.subrange(from as int, i as int).drop_last() =~= v@.subrange(
            from as int,
            i - 1,
        ));
        assert(v@.subrange(from as int, i as int).last() == v@[i - 1]);
    }
    Some(acc)
}

/// Parse an eight-character `yyyymmdd` string into a date.
///
/// Returns `Some` exactly when the text is eight digits denoting a valid
/// calendar date.
pub fn parse_date8(v: &Vec<char>) -> (r: Option<Date>)
    ensures
        r is Some <==> date8_wf(v@),
        r is Some ==> r->Some_0 == date8_value(v@) && date_wf(r->Some_0),
{
    if v.len() != 8 {
        proof {
            assert(!date8_wf(v@));
        }
        return None;
    }
    let y = match read_digits(v, 0, 4) {
        Some(y) => y,
        None => {
            proof {
                let s = v@;
                assert(!all_digits(s)) by {
                    let sub = s.subrange(0, 4);
                    assert(!all_digits(sub));
                    let j = choose|j: int| 0 <= j < 4 && !is_digit(#[trigger] sub[j]);
                    assert(sub[j] == s[j]);
                }
            }
            return None;
        },
    };
    let m = match read_digits(v, 4, 6) {
        Some(m) => m,
        None => {
            proof {
                let s = v@;
                assert(!all_digits(s)) by {
                    let sub = s.subrange(4, 6);
                    assert(!all_digits(sub));
                    let j = choose|j: int| 0 <= j < 2 && !is_digit(#[trigger] sub[j]);
                    assert(sub[j] == s[j + 4]);
                }
            }
            return None;
        },
    };
    let d = match read_digits(v, 6, 8) {
        Some(d) => d,
        None => {
            proof {
                let s = v@;
                assert(!all_digits(s)) by {
                    let sub = s.subrange(6, 8);
                    assert(!all_digits(sub));
                    let j = choose|j: int| 0 <= j < 2 && !is_digit(#[trigger] sub[j]);
                    assert(sub[j] == s[j + 6]);
                }
            }
            return None;
        },
    };
    let date = Date { year: y, month: m, day: d };
    let ok = 1 <= y && 1 <= m && m <= 12 && 1 <= d && d <= days_in_month_exec(y, m);
    proof {
        assert(all_digits(v@)) by {
            assert forall|j: int| 0 <= j < 8 implies is_digit(#[trigger] v@[j]) by {
                if j < 4 {
                    assert(v@.subrange(0, 4)[j] == v@[j]);
                } else if j < 6 {
                    assert(v@.subrange(4, 6)[j - 4] == v@[j]);
                } else {
                    assert(v@.subrange(6, 8)[j - 6] == v@[j]);
                }
            }
        }
    }
    if ok {
        Some(date)
    } else {
        None
    }
}

/// The hour and minute encoded in a four-digit `hhmm` string.
pub open spec fn hhmm_wf(s: Seq<char>) -> bool {
    &&& s.len() == 4
    &&& all_digits(s)
    &&& dec_val(s.subrange(0, 2)) < 24
    &&& dec_val(s.subrange(2, 4)) < 60
}

/// The minutes past midnight denoted by a four-digit `hhmm` string.
pub open spec fn hhmm_value(s: Seq<char>) -> int {
    dec_val(s.subrange(0, 2)) * 60 + dec_val(s.subrange(2, 4))
}

/// Parse a four-digit wall-clock time `hhmm`.
pub fn parse_hhmm(v: &Vec<char>) -> (r: Option<(u32, u32)>)
    ensures
        r is Some <==> hhmm_wf(v@),
        r is Some ==> {
            &&& r->Some_0.0 == dec_val(v@.subrange(0, 2)) < 24
            &&& r->Some_0.1 == dec_val(v@.subrange(2, 4)) < 60
        },
{
    if v.len() != 4 {
        return None;
    }
    let h = match read_digits(v, 0, 2) {
        Some(h) => h,
        None => {
            proof {
                let sub = v@.subrange(0, 2);
                let j = choose|j: int| 0 <= j < 2 && !is_digit(#[trigger] sub[j]);
                assert(sub[j] == v@[j]);
            }
            return None;
        },
    };
    let m = match read_digits(v, 2, 4) {
        Some(m) => m,
        None => {
            proof {
                let sub = v@.subrange(2, 4);
                let j = choose|j: int| 0 <= j < 2 && !is_digit(#[trigger] sub[j]);
                assert(sub[j] == v@[j + 2]);
            }
            return None;
        },
    };
    proof {
        assert(all_digits(v@)) by {
            assert forall|j: int| 0 <= j < 4 implies is_digit(#[trigger] v@[j]) by {
                if j < 2 {
                    assert(v@.subrange(0, 2)[j] == v@[j]);
                } else {
                    assert(v@.subrange(2, 4)[j - 2] == v@[j]);
                }
            }
        }
    }
    if h < 24 && m < 60 {
        Some((h, m))
    } else {
        None
    }
}

} // verus!
