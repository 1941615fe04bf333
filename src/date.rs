use chrono::Datelike;
use chrono::NaiveDate;
use vstd::prelude::*;

use crate::text::push_char;

verus! {

/// A calendar date of the proleptic Gregorian calendar, years 0 to 9999.
#[derive(Clone, Copy, Debug, PartialEq, Eq, Structural)]
pub struct Date {
    pub year: u32,
    pub month: u32,
    pub day: u32,
}

pub open spec fn is_leap_year(y: int) -> bool {
    (y % 4 == 0 && y % 100 != 0) || y % 400 == 0
}

pub open spec fn days_in_month(y: int, m: int) -> int {
    if m == 2 {
        if is_leap_year(y) {
            29
        } else {
            28
        }
    } else if m == 4 || m == 6 || m == 9 || m == 11 {
        30
    } else {
        31
    }
}

pub open spec fn digit_char(n: int) -> char {
    if n == 0 {
        '0'
    } else if n == 1 {
        '1'
    } else if n == 2 {
        '2'
    } else if n == 3 {
        '3'
    } else if n == 4 {
        '4'
    } else if n == 5 {
        '5'
    } else if n == 6 {
        '6'
    } else if n == 7 {
        '7'
    } else if n == 8 {
        '8'
    } else {
        '9'
    }
}

/// The last `width` decimal digits of `n`, zero-padded.
pub open spec fn padded(n: int, width: nat) -> Seq<char>
    decreases width,
{
    if width == 0 {
        seq![]
    } else {
        padded(n / 10, (width - 1) as nat).push(digit_char(n % 10))
    }
}

impl Date {
    pub open spec fn wf(self) -> bool {
        &&& self.year <= 9999
        &&& 1 <= self.month <= 12
        &&& 1 <= self.day <= days_in_month(self.year as int, self.month as int)
    }

    /// The date in ISO form, `YYYY-MM-DD`.
    pub open spec fn iso(self) -> Seq<char> {
        padded(self.year as int, 4) + seq!['-'] + padded(self.month as int, 2) + seq!['-']
            + padded(self.day as int, 2)
    }

    /// The date `year-month-day`, if the calendar has it.
    pub fn new(year: u32, month: u32, day: u32) -> (r: Option<Date>)
        ensures
            match r {
                Some(d) => d.wf() && d.year == year && d.month == month && d.day == day,
                None => !(Date { year, month, day }).wf(),
            },
    {
        if year > 9999 || month < 1 || month > 12 || day < 1 {
            return None;
        }
        let leap = (year % 4 == 0 && year % 100 != 0) || year % 400 == 0;
        let days: u32 = if month == 2 {
            if leap {
                29
            } else {
                28
            }
        } else if month == 4 || month == 6 || month == 9 || month == 11 {
            30
        } else {
            31
        };
        if day > days {
            None
        } else {
            Some(Date { year, month, day })
        }
    }
}

fn digit(n: u32) -> (c: char)
    requires
        n < 10,
    ensures
        c == digit_char(n as int),
{
    if n == 0 {
        '0'
    } else if n == 1 {
        '1'
    } else if n == 2 {
        '2'
    } else if n == 3 {
        '3'
    } else if n == 4 {
        '4'
    } else if n == 5 {
        '5'
    } else if n == 6 {
        '6'
    } else if n == 7 {
        '7'
    } else if n == 8 {
        '8'
    } else {
        '9'
    }
}

fn push_padded(s: &mut String, n: u32, width: u32)
    requires
        width <= 4,
    ensures
        final(s)@ == old(s)@ + padded(n as int, width as nat),
    decreases width,
{
    if width > 0 {
        push_padded(s, n / 10, width - 1);
        push_char(s, digit(n % 10));
        proof {
            assert(padded(n as int, width as nat) == padded((n / 10) as int, (width - 1) as nat).push(
                digit_char(n as int % 10),
            ));
        }
    } else {
        assert(old(s)@ + padded(n as int, width as nat) =~= old(s)@);
    }
}

/// The ISO form `YYYY-MM-DD` of a date, as the site takes it in requests
/// and shows it on its date marker.
pub fn build_date_string(requested_date: &Date) -> (r: String)
    ensures
        r@ == requested_date.iso(),
{
    let mut s = String::new();
    push_padded(&mut s, requested_date.year, 4);
    push_char(&mut s, '-');
    push_padded(&mut s, requested_date.month, 2);
    push_char(&mut s, '-');
    push_padded(&mut s, requested_date.day, 2);
    assert(s@ =~= requested_date.iso());
    s
}

/// The day of the week of a Gregorian date, counted from Monday as 0
/// (Zeller's congruence, January and February counted as months 13 and 14
/// of the year before).
pub open spec fn weekday_index(year: int, month: int, day: int) -> int {
    let (m, y) = if month <= 2 {
        (month + 12, year - 1)
    } else {
        (month, year)
    };
    let h = (day + (13 * (m + 1)) / 5 + y + y / 4 - y / 100 + y / 400) % 7;
    (h + 5) % 7
}

/// The calendar date after `d`.
pub open spec fn next_date(d: Date) -> Date {
    if d.day < days_in_month(d.year as int, d.month as int) {
        Date { day: (d.day + 1) as u32, ..d }
    } else if d.month < 12 {
        Date { month: (d.month + 1) as u32, day: 1, ..d }
    } else {
        Date { year: (d.year + 1) as u32, month: 1, day: 1 }
    }
}

/// Monday to Friday.
pub open spec fn is_working_day(d: Date) -> bool {
    weekday_index(d.year as int, d.month as int, d.day as int) < 5
}

/// `n` consecutive dates from `d` on, fewer where they would leave the
/// years that `Date` holds.
pub open spec fn days_ahead(d: Date, n: nat) -> Seq<Date>
    decreases n,
{
    if n == 0 {
        seq![]
    } else {
        seq![d] + if next_date(d).wf() {
            days_ahead(next_date(d), (n - 1) as nat)
        } else {
            seq![]
        }
    }
}

/// Relies on chrono's `Datelike::weekday` on `NaiveDate::from_ymd_opt`,
/// counted by `Weekday::num_days_from_monday` (Monday is 0, Sunday 6): the
/// proleptic Gregorian weekday, which chrono has for every date of the years
/// 0 to 9999.
#[verifier::external_body]
fn chrono_weekday(d: &Date) -> (r: Option<u32>)
    requires
        d.wf(),
    ensures
        r is Some,
        r matches Some(w) ==> w < 7 && w == weekday_index(d.year as int, d.month as int, d.day as int),
{
    NaiveDate::from_ymd_opt(d.year as i32, d.month, d.day).map(|n| n.weekday().num_days_from_monday())
}

/// Relies on chrono's `NaiveDate::succ_opt` on `NaiveDate::from_ymd_opt`:
/// the next calendar date, which chrono has for every date of the years 0
/// to 9999.
#[verifier::external_body]
fn chrono_succ(d: &Date) -> (r: Option<(i32, u32, u32)>)
    requires
        d.wf(),
    ensures
        r == Some((next_date(*d).year as i32, next_date(*d).month, next_date(*d).day)),
{
    NaiveDate::from_ymd_opt(d.year as i32, d.month, d.day).and_then(|n| n.succ_opt()).map(
        |n| (n.year(), n.month(), n.day()),
    )
}

impl Date {
    /// The next calendar date, if it still lies in the year 9999.
    pub fn succ(&self) -> (r: Option<Date>)
        requires
            self.wf(),
        ensures
            r == if next_date(*self).wf() {
                Some(next_date(*self))
            } else {
                None::<Date>
            },
    {
        let (y, m, d) = match chrono_succ(self) {
            Some(t) => t,
            None => return None,
        };
        if y < 0 {
            return None;
        }
        Date::new(y as u32, m, d)
    }

    /// The day of the week, counted from Monday as 0.
    pub fn weekday(&self) -> (r: u32)
        requires
            self.wf(),
        ensures
            r < 7,
            r == weekday_index(self.year as int, self.month as int, self.day as int),
    {
        match chrono_weekday(self) {
            Some(w) => w,
            None => 0,
        }
    }
}

proof fn lemma_single_filter(d: Date, p: spec_fn(Date) -> bool)
    ensures
        seq![d].filter(p) == (if p(d) {
            seq![d]
        } else {
            seq![]
        }),
{
    reveal(Seq::filter);
    assert(seq![d].drop_last() =~= Seq::<Date>::empty());
    assert(Seq::<Date>::empty().filter(p) =~= Seq::<Date>::empty());
}

/// The working days among the `count` dates from `today` on, in order: the
/// dates whose menus are fetched.
pub fn upcoming_working_days(today: &Date, count: u32) -> (r: Vec<Date>)
    requires
        today.wf(),
    ensures
        r@ == days_ahead(*today, count as nat).filter(|d: Date| is_working_day(d)),
{
    let ghost p = |d: Date| is_working_day(d);
    let mut out: Vec<Date> = Vec::new();
    let mut cur = *today;
    let mut left = count;
    while left > 0
        invariant
            cur.wf(),
            p == (|d: Date| is_working_day(d)),
            days_ahead(*today, count as nat).filter(p) == out@ + days_ahead(cur, left as nat).filter(p),
        decreases left,
    {
        let ghost rest = if next_date(cur).wf() {
            days_ahead(next_date(cur), (left - 1) as nat)
        } else {
            seq![]
        };
        proof {
            assert(days_ahead(cur, left as nat) == seq![cur] + rest);
            Seq::filter_distributes_over_add(seq![cur], rest, p);
            lemma_single_filter(cur, p);
        }
        if cur.weekday() < 5 {
            proof {
                assert(p(cur));
                assert(seq![cur].filter(p) == seq![cur]);
                assert((seq![cur] + rest).filter(p) == seq![cur] + rest.filter(p));
                let f = rest.filter(p);
                let o = out@;
                assert(o.push(cur) =~= o + seq![cur]);
                assert((o + seq![cur]) + f =~= o + (seq![cur] + f));
            }
            out.push(cur);
        } else {
            assert(out@ + rest.filter(p) =~= out@ + (seq![cur] + rest).filter(p));
        }
        match cur.succ() {
            Some(n) => {
                cur = n;
                left = left - 1;
            },
            None => {
                proof {
                    assert(rest.filter(p) =~= Seq::<Date>::empty()) by {
                        reveal(Seq::filter);
                    }
                    assert(out@ + rest.filter(p) =~= out@);
                }
                return out;
            },
        }
    }
    proof {
        reveal(Seq::filter);
        assert(days_ahead(cur, 0).filter(p) =~= Seq::<Date>::empty());
        assert(out@ + Seq::<Date>::empty() =~= out@);
    }
    out
}

} // verus!
