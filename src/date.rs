//! Calendar dates, weekdays and the Monday that opens a date's week.
//!
//! A date is held as its day count in the proleptic Gregorian calendar,
//! January 1 of year 1 being day 1 (chrono's `num_days_from_ce`). Weeks run
//! from Monday to Sunday.

use vstd::prelude::*;

verus! {

/// Day count of the first supported date, -262143-01-05, a Monday.
pub const FIRST_DAY: i32 = -95746125;

/// Day count of the last supported date, 262142-12-30, a Sunday.
///
/// The supported dates are chrono's range cut down to whole weeks, so that
/// every supported date has its Monday and its Sunday in range too.
pub const LAST_DAY: i32 = 95745398;

/// One of the seven days of the week.
#[derive(Clone, Copy, Debug, PartialEq, Eq, Structural, Hash)]
pub enum Weekday {
    Mon,
    Tue,
    Wed,
    Thu,
    Fri,
    Sat,
    Sun,
}

impl Weekday {
    /// Days from the Monday of the same week: Monday is 0, Sunday is 6.
    pub open spec fn offset(self) -> int {
        match self {
            Weekday::Mon => 0,
            Weekday::Tue => 1,
            Weekday::Wed => 2,
            Weekday::Thu => 3,
            Weekday::Fri => 4,
            Weekday::Sat => 5,
            Weekday::Sun => 6,
        }
    }

    /// Days from the Monday of the same week (ISO weekday number minus one).
    pub fn num_days_from_monday(&self) -> (r: u32)
        ensures
            r == self.offset(),
    {
        match self {
            Weekday::Mon => 0,
            Weekday::Tue => 1,
            Weekday::Wed => 2,
            Weekday::Thu => 3,
            Weekday::Fri => 4,
            Weekday::Sat => 5,
            Weekday::Sun => 6,
        }
    }
}

/// The weekday that lies `k` days after a Monday, for `0 <= k < 7`.
pub open spec fn weekday_at(k: int) -> Weekday {
    if k == 0 {
        Weekday::Mon
    } else if k == 1 {
        Weekday::Tue
    } else if k == 2 {
        Weekday::Wed
    } else if k == 3 {
        Weekday::Thu
    } else if k == 4 {
        Weekday::Fri
    } else if k == 5 {
        Weekday::Sat
    } else {
        Weekday::Sun
    }
}

/// Days from the last Monday on or before day `n`; day 1 is a Monday.
pub open spec fn days_since_monday(n: int) -> int {
    (n - 1) % 7
}

/// The weekday of day `n`.
pub open spec fn weekday_of_day(n: int) -> Weekday {
    weekday_at(days_since_monday(n))
}

/// The Monday on or before day `n`: the day that opens its week.
pub open spec fn monday_of_day(n: int) -> int {
    n - days_since_monday(n)
}

/// Whether day `n` lies in the supported range.
pub open spec fn is_supported_day(n: int) -> bool {
    FIRST_DAY <= n <= LAST_DAY
}

/// Whether `y` is a leap year of the proleptic Gregorian calendar.
pub open spec fn is_leap_year(y: int) -> bool {
    y % 4 == 0 && (y % 100 != 0 || y % 400 == 0)
}

/// The number of days in month `m` of year `y`.
pub open spec fn days_in_month(y: int, m: int) -> int {
    if m == 2 {
        if is_leap_year(y) {
            29
        } else {
            28
        }
    } else if m == 4 || m == 6 || m == 9 || m == 11 {
        30
    } else {
        31
    }
}

/// Whether year `y`, month `m`, day `d` is a day that chrono can represent.
pub open spec fn is_chrono_date(y: int, m: int, d: int) -> bool {
    &&& -262143 <= y <= 262142
    &&& 1 <= m <= 12
    &&& 1 <= d <= days_in_month(y, m)
}

/// The days of the years before `y`, counted from year 1.
pub open spec fn days_before_year(y: int) -> int {
    let p = y - 1;
    365 * p + p / 4 - p / 100 + p / 400
}

/// The days of the months of year `y` before month `m`.
pub open spec fn days_before_month(y: int, m: int) -> int {
    let common: int = if m == 1 {
        0
    } else if m == 2 {
        31
    } else if m == 3 {
        59
    } else if m == 4 {
        90
    } else if m == 5 {
        120
    } else if m == 6 {
        151
    } else if m == 7 {
        181
    } else if m == 8 {
        212
    } else if m == 9 {
        243
    } else if m == 10 {
        273
    } else if m == 11 {
        304
    } else {
        334
    };
    if m > 2 && is_leap_year(y) {
        common + 1
    } else {
        common
    }
}

/// The day count of year `y`, month `m`, day `d`; January 1 of year 1 is day 1.
pub open spec fn day_count_of(y: int, m: int, d: int) -> int {
    days_before_year(y) + days_before_month(y, m) + d
}

/// The ISO 8601 week-numbering year and week of day `n`, as chrono's
/// `NaiveDate::iso_week` gives them.
pub uninterp spec fn iso_week_of(n: int) -> (int, int);

/// Relies on chrono's `NaiveDate::from_ymd_opt`, which gives a date exactly
/// for the existing days of years -262143 to 262142, and on
/// `Datelike::num_days_from_ce`, which counts from January 1 of year 1 as day 1.
#[verifier::external_body]
fn chrono_day_count(year: i32, month: u32, day: u32) -> (r: Option<i32>)
    ensures
        r.is_some() <==> is_chrono_date(year as int, month as int, day as int),
        r.is_some() ==> r.unwrap() as int == day_count_of(year as int, month as int, day as int),
{
    match chrono::NaiveDate::from_ymd_opt(year, month, day) {
        Some(date) => Some(chrono::Datelike::num_days_from_ce(&date)),
        None => None,
    }
}

/// Relies on chrono's `NaiveDate::from_num_days_from_ce_opt`, which gives a
/// date for every day count of chrono's range, and on `NaiveDate::iso_week`,
/// whose week number lies between 1 and 53.
#[verifier::external_body]
fn chrono_iso_week(days: i32) -> (r: (i32, u32))
    requires
        is_supported_day(days as int),
    ensures
        (r.0 as int, r.1 as int) == iso_week_of(days as int),
        1 <= r.1 <= 53,
{
    let week = chrono::Datelike::iso_week(&chrono::NaiveDate::from_num_days_from_ce_opt(days).unwrap());
    (week.year(), week.week())
}

/// Relies on chrono's `NaiveDate::from_num_days_from_ce_opt`, which gives
/// the date of a day count (January 1 of year 1 being day 1) for every day
/// count of chrono's range, and on `Datelike::day`, its day of the month.
#[verifier::external_body]
fn chrono_day_of_month(days: i32) -> (r: u32)
    requires
        is_supported_day(days as int),
    ensures
        exists|y: int, m: int|
            is_chrono_date(y, m, r as int) && day_count_of(y, m, r as int) == days as int,
{
    chrono::Datelike::day(&chrono::NaiveDate::from_num_days_from_ce_opt(days).unwrap())
}

/// A calendar date in the supported range.
#[derive(Clone, Copy, Debug, PartialEq, Eq, Structural, Hash)]
pub struct CalendarDate {
    days: i32,
}

impl View for CalendarDate {
    type V = int;

    /// The date's day count.
    closed spec fn view(&self) -> int {
        self.days as int
    }
}

impl CalendarDate {
    #[verifier::type_invariant]
    spec fn inv(self) -> bool {
        is_supported_day(self.days as int)
    }

    /// Two dates are equal exactly when their day counts are.
    pub proof fn lemma_view_injective(a: CalendarDate, b: CalendarDate)
        ensures
            a@ == b@ <==> a == b,
    {
    }

    /// The date of day count `days`, if that day is supported.
    pub fn from_days_from_ce(days: i32) -> (r: Option<CalendarDate>)
        ensures
            r.is_some() <==> is_supported_day(days as int),
            r.is_some() ==> r.unwrap()@ == days as int,
    {
        if FIRST_DAY <= days && days <= LAST_DAY {
            Some(CalendarDate { days })
        } else {
            None
        }
    }

    /// The date of year `year`, month `month`, day `day`, if that day exists
    /// and is supported.
    pub fn from_ymd(year: i32, month: u32, day: u32) -> (r: Option<CalendarDate>)
        ensures
            r.is_some() <==> is_chrono_date(year as int, month as int, day as int)
                && is_supported_day(day_count_of(year as int, month as int, day as int)),
            r.is_some() ==> r.unwrap()@ == day_count_of(year as int, month as int, day as int),
    {
        match chrono_day_count(year, month, day) {
            Some(days) => CalendarDate::from_days_from_ce(days),
            None => None,
        }
    }

    /// The day count, January 1 of year 1 being day 1.
    pub fn days_from_ce(&self) -> (r: i32)
        ensures
            r as int == self@,
            is_supported_day(r as int),
    {
        proof {
            use_type_invariant(self);
        }
        self.days
    }

    /// The day of the month of this date, from 1.
    pub fn day(&self) -> (r: u32)
        ensures
            exists|y: int, m: int|
                is_chrono_date(y, m, r as int) && day_count_of(y, m, r as int) == self@,
    {
        proof {
            use_type_invariant(self);
        }
        chrono_day_of_month(self.days)
    }

    /// The weekday of this date.
    pub fn weekday(&self) -> (r: Weekday)
        ensures
            r == weekday_of_day(self@),
    {
        proof {
            use_type_invariant(self);
        }
        weekday_of_count(self.days)
    }

    /// The date `n` days later (earlier where `n` is negative), if supported.
    pub fn checked_add_days(&self, n: i32) -> (r: Option<CalendarDate>)
        ensures
            r.is_some() <==> is_supported_day(self@ + n),
            r.is_some() ==> r.unwrap()@ == self@ + n,
    {
        proof {
            use_type_invariant(self);
        }
        let moved: i64 = self.days as i64 + n as i64;
        if FIRST_DAY as i64 <= moved && moved <= LAST_DAY as i64 {
            Some(CalendarDate { days: moved as i32 })
        } else {
            None
        }
    }
}

/// The Monday that opens the week of `today`.
///
/// Scans the six days before `today`, nearest first, and returns the first
/// Monday among them; where none is a Monday, `today` is itself the Monday.
pub fn compute_last_monday(today: CalendarDate) -> (r: CalendarDate)
    ensures
        r@ == monday_of_day(today@),
        weekday_of_day(r@) == Weekday::Mon,
        0 <= today@ - r@ <= 6,
        today@ - r@ == weekday_of_day(today@).offset(),
{
    proof {
        use_type_invariant(today);
    }
    for i in 1..7i32
        invariant
            is_supported_day(today@),
            forall|k: int| 1 <= k < i ==> #[trigger] days_since_monday(today@ - k) != 0,
    {
        let days = today.days - i;
        if weekday_of_count(days) == Weekday::Mon {
            proof {
                lemma_offset_back(today@, i as int);
            }
            return CalendarDate { days };
        }
    }
    proof {
        lemma_offset_of_week(today@);
    }
    today
}

/// Stepping `k` days back onto a Monday means the start day was `k` days
/// past its Monday.
proof fn lemma_offset_back(n: int, k: int)
    requires
        0 <= k < 7,
        days_since_monday(n - k) == 0,
        is_supported_day(n),
    ensures
        days_since_monday(n) == k,
        is_supported_day(n - k),
{
    assert((FIRST_DAY - 1) % 7 == 0);
}

/// Where none of the six days before `n` is a Monday, `n` is one.
proof fn lemma_offset_of_week(n: int)
    requires
        forall|k: int| 1 <= k < 7 ==> #[trigger] days_since_monday(n - k) != 0,
    ensures
        days_since_monday(n) == 0,
{
    let d = days_since_monday(n);
    if d != 0 {
        assert(days_since_monday(n - d) == 0);
    }
}

/// The ISO week-numbering year and week shown for the week of `date`: those
/// of its Monday.
pub fn week_heading(date: CalendarDate) -> (r: (i32, u32))
    ensures
        (r.0 as int, r.1 as int) == iso_week_of(monday_of_day(date@)),
        1 <= r.1 <= 53,
{
    let monday = compute_last_monday(date);
    chrono_iso_week(monday.days_from_ce())
}

/// A Monday is the Monday of its own week.
pub proof fn lemma_monday_anchors_itself(d: CalendarDate)
    requires
        weekday_of_day(d@) == Weekday::Mon,
    ensures
        monday_of_day(d@) == d@,
{
}

/// The Monday of a week is its own Monday: taking it twice changes nothing.
pub proof fn lemma_monday_is_fixed_point(d: CalendarDate)
    ensures
        monday_of_day(monday_of_day(d@)) == monday_of_day(d@),
        weekday_of_day(monday_of_day(d@)) == Weekday::Mon,
{
    let m = monday_of_day(d@);
    assert(days_since_monday(m) == 0);
}

/// The one-glyph Japanese name of a weekday.
pub open spec fn japanese_glyph(w: Weekday) -> char {
    match w {
        Weekday::Mon => '月',
        Weekday::Tue => '火',
        Weekday::Wed => '水',
        Weekday::Thu => '木',
        Weekday::Fri => '金',
        Weekday::Sat => '土',
        Weekday::Sun => '日',
    }
}

/// The Japanese label of a weekday, as a string of one glyph.
pub open spec fn japanese_label(w: Weekday) -> Seq<char> {
    seq![japanese_glyph(w)]
}

/// The Japanese label of `weekday`: 月 for Monday through 日 for Sunday.
pub fn weekday_to_japanese(weekday: Weekday) -> (r: String)
    ensures
        r@ == japanese_label(weekday),
{
    let label = match weekday {
        Weekday::Mon => {
            proof {
                reveal_strlit("月");
            }
            "月"
        },
        Weekday::Tue => {
            proof {
                reveal_strlit("火");
            }
            "火"
        },
        Weekday::Wed => {
            proof {
                reveal_strlit("水");
            }
            "水"
        },
        Weekday::Thu => {
            proof {
                reveal_strlit("木");
            }
            "木"
        },
        Weekday::Fri => {
            proof {
                reveal_strlit("金");
            }
            "金"
        },
        Weekday::Sat => {
            proof {
                reveal_strlit("土");
            }
            "土"
        },
        Weekday::Sun => {
            proof {
                reveal_strlit("日");
            }
            "日"
        },
    };
    assert(label@ =~= japanese_label(weekday));
    label.to_owned()
}

/// Every weekday has a non-empty label, and two weekdays share a label
/// exactly when they are the same weekday.
pub proof fn lemma_labels_distinct(a: Weekday, b: Weekday)
    ensures
        japanese_label(a).len() > 0,
        japanese_label(a) == japanese_label(b) <==> a == b,
{
    if japanese_label(a) == japanese_label(b) {
        assert(japanese_label(a)[0] == japanese_label(b)[0]);
    }
}

/// `days_since_monday` of a day count at most a week before the first date.
fn offset_of_count(days: i32) -> (r: u32)
    requires
        FIRST_DAY - 7 <= days <= LAST_DAY,
    ensures
        r as int == days_since_monday(days as int),
        r < 7,
{
    let shifted: u64 = (days as i64 - (FIRST_DAY as i64 - 7)) as u64;
    proof {
        let x = days as int - (FIRST_DAY - 7);
        assert(FIRST_DAY - 8 == 7 * (-13678019));
        vstd::arithmetic::div_mod::lemma_mod_multiples_vanish(-13678019, x, 7);
        assert(days as int - 1 == 7 * (-13678019) + x);
    }
    (shifted % 7) as u32
}

/// The weekday of a day count at most a week before the first date.
fn weekday_of_count(days: i32) -> (r: Weekday)
    requires
        FIRST_DAY - 7 <= days <= LAST_DAY,
    ensures
        r == weekday_of_day(days as int),
{
    let k = offset_of_count(days);
    if k == 0 {
        Weekday::Mon
    } else if k == 1 {
        Weekday::Tue
    } else if k == 2 {
        Weekday::Wed
    } else if k == 3 {
        Weekday::Thu
    } else if k == 4 {
        Weekday::Fri
    } else if k == 5 {
        Weekday::Sat
    } else {
        Weekday::Sun
    }
}

} // verus!
