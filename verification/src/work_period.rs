use vstd::prelude::*;

use crate::numfmt::sdec_of;
use crate::numfmt::i64_to_dec;

verus! {

/// The total number of months in a list of (years, months) durations.
pub open spec fn wp_total(s: Seq<(i32, i32)>) -> int
    decreases s.len(),
{
    if s.len() == 0 {
        0
    } else {
        wp_total(s.drop_last()) + s.last().0 * 12 + s.last().1
    }
}

/// Division by twelve rounding toward zero, as machine division does.
pub open spec fn div12_trunc(a: int) -> int {
    if a >= 0 {
        a / 12
    } else {
        -((-a) / 12)
    }
}

/// Sums durations given as (years, months) pairs into one total
/// duration, months normalised into years by machine division.
pub fn sum_durations(durations: &Vec<(i32, i32)>) -> (r: (i32, i32))
    requires
        -0x80000000 <= wp_total(durations@) <= 0x7fffffff,
    ensures
        r.0 == div12_trunc(wp_total(durations@)),
        r.1 == wp_total(durations@) - 12 * div12_trunc(wp_total(durations@)),
{
    let n = durations.len();
    let mut total: i128 = 0;
    let mut i: usize = 0;
    proof {
        assert(durations@.subrange(0, 0) =~= Seq::<(i32, i32)>::empty());
    }
    while i < n
        invariant
            0 <= i <= n,
            n == durations@.len(),
            total == wp_total(durations@.subrange(0, i as int)),
            -0x2000000000 * (i as int) <= total <= 0x2000000000 * (i as int),
        decreases n - i,
    {
        let (y, m) = durations[i];
        total = total + (y as i128) * 12 + (m as i128);
        proof {
            let pre = durations@.subrange(0, i as int);
            let post = durations@.subrange(0, i + 1);
            assert(post.drop_last() =~= pre);
            assert(post.last() == durations@[i as int]);
        }
        i = i + 1;
    }
    proof {
        assert(durations@.subrange(0, n as int) =~= durations@);
    }
    let years: i128 = if total >= 0 {
        ((total as u128) / 12) as i128
    } else {
        -((((-total) as u128) / 12) as i128)
    };
    let months: i128 = total - 12 * years;
    (years as i32, months as i32)
}

/// The rendered duration: months and years with singular and plural
/// forms, both parts only when both are present.
pub open spec fn duration_text(y: int, m: int) -> Seq<char> {
    if y == 0 && m == 0 {
        "0 months"@
    } else if y == 0 {
        sdec_of(m) + " "@ + (if m == 1 {
            "month"@
        } else {
            "months"@
        })
    } else if m == 0 {
        sdec_of(y) + " "@ + (if y == 1 {
            "year"@
        } else {
            "years"@
        })
    } else {
        sdec_of(y) + " "@ + (if y == 1 {
            "year"@
        } else {
            "years"@
        }) + ", "@ + sdec_of(m) + " "@ + (if m == 1 {
            "month"@
        } else {
            "months"@
        })
    }
}

/// Formats a duration as "X years, Y months" with singular and plural
/// handled, omitting a zero part.
pub fn format_duration(years: i32, months: i32) -> (r: String)
    ensures
        r@ == duration_text(years as int, months as int),
{
    if years == 0 && months == 0 {
        let r = String::new().concat("0 months");
        proof {
            assert(r@ =~= "0 months"@);
        }
        r
    } else if years == 0 {
        let mut s = i64_to_dec(months as i64);
        s.append(" ");
        if months == 1 {
            s.append("month");
        } else {
            s.append("months");
        }
        proof {
            assert(s@ =~= duration_text(years as int, months as int));
        }
        s
    } else if months == 0 {
        let mut s = i64_to_dec(years as i64);
        s.append(" ");
        if years == 1 {
            s.append("year");
        } else {
            s.append("years");
        }
        proof {
            assert(s@ =~= duration_text(years as int, months as int));
        }
        s
    } else {
        let mut s = i64_to_dec(years as i64);
        s.append(" ");
        if years == 1 {
            s.append("year");
        } else {
            s.append("years");
        }
        s.append(", ");
        let m = i64_to_dec(months as i64);
        s.append(m.as_str());
        s.append(" ");
        if months == 1 {
            s.append("month");
        } else {
            s.append("months");
        }
        proof {
            assert(s@ =~= duration_text(years as int, months as int));
        }
        s
    }
}

/// The duration rounded to years alone: a half year or more rounds up.
pub open spec fn years_only_text(y: int, m: int) -> Seq<char> {
    let ry = if m >= 6 {
        y + 1
    } else {
        y
    };
    sdec_of(ry) + " "@ + (if ry == 1 {
        "year"@
    } else {
        "years"@
    })
}

/// Formats a duration as years only, rounding up from six months.
pub fn format_duration_years_only(years: i32, months: i32) -> (r: String)
    requires
        years < 0x7fffffff,
    ensures
        r@ == years_only_text(years as int, months as int),
{
    let rounded_years: i32 = if months >= 6 {
        years + 1
    } else {
        years
    };
    let mut s = i64_to_dec(rounded_years as i64);
    s.append(" ");
    if rounded_years == 1 {
        s.append("year");
    } else {
        s.append("years");
    }
    proof {
        assert(s@ =~= years_only_text(years as int, months as int));
    }
    s
}

/// A calendar date as plain values: year, month and day of month.
pub struct Date {
    pub year: i32,
    pub month: u32,
    pub day: u32,
}

/// A well-formed date: the month and day in calendar range, the year
/// within the range that date libraries represent.
pub open spec fn date_wf(d: Date) -> bool {
    &&& -262143 <= d.year <= 262142
    &&& 1 <= d.month <= 12
    &&& 1 <= d.day <= 31
}

impl Date {
    /// Builds a date from its parts.
    pub fn from_ymd(year: i32, month: u32, day: u32) -> (r: Date)
        ensures
            r == (Date { year, month, day }),
    {
        Date { year, month, day }
    }

    pub fn year(&self) -> (r: i32)
        ensures
            r == self.year,
    {
        self.year
    }

    pub fn month(&self) -> (r: u32)
        ensures
            r == self.month,
    {
        self.month
    }

    pub fn day(&self) -> (r: u32)
        ensures
            r == self.day,
    {
        self.day
    }
}

/// The whole years and leftover months between two dates: the year and
/// month difference, borrowing a year while the months run negative,
/// and one month less when the end's day of month falls short of the
/// start's.
pub open spec fn spec_months_between(s: Date, e: Date) -> (int, int) {
    let years0 = e.year - s.year;
    let months0 = e.month - s.month;
    let y1 = if months0 < 0 {
        years0 - 1
    } else {
        years0
    };
    let m1 = if months0 < 0 {
        months0 + 12
    } else {
        months0
    };
    if e.day < s.day {
        if m1 - 1 < 0 {
            (y1 - 1, m1 + 11)
        } else {
            (y1, m1 - 1)
        }
    } else {
        (y1, m1)
    }
}

/// Calculates years and months between two dates.
pub fn months_between(start: Date, end: Date) -> (r: (i32, i32))
    requires
        date_wf(start),
        date_wf(end),
    ensures
        (r.0 as int, r.1 as int) == spec_months_between(start, end),
{
    let mut years: i32 = end.year - start.year;
    let end_month = end.month as i32;
    let start_month = start.month as i32;
    let mut months: i32 = end_month - start_month;

    if months < 0 {
        years = years - 1;
        months = months + 12;
    }

    if end.day < start.day {
        months = months - 1;
        if months < 0 {
            years = years - 1;
            months = months + 12;
        }
    }

    (years, months)
}

} // verus!
