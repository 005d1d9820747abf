use chrono::Datelike;
use ki6::date::{week_heading, FIRST_DAY, LAST_DAY};
use ki6::{compute_last_monday, weekday_to_japanese, CalendarDate, Weekday};

fn ymd(y: i32, m: u32, d: u32) -> CalendarDate {
    CalendarDate::from_ymd(y, m, d).unwrap()
}

const ALL_WEEKDAYS: [Weekday; 7] = [
    Weekday::Mon,
    Weekday::Tue,
    Weekday::Wed,
    Weekday::Thu,
    Weekday::Fri,
    Weekday::Sat,
    Weekday::Sun,
];

#[test]
fn wednesday_anchors_two_days_earlier() {
    let wednesday = ymd(2024, 1, 3);
    assert_eq!(wednesday.weekday(), Weekday::Wed);
    let monday = compute_last_monday(wednesday);
    assert_eq!(monday, ymd(2024, 1, 1));
    assert_eq!(wednesday.days_from_ce() - monday.days_from_ce(), 2);
}

#[test]
fn sunday_anchors_six_days_earlier() {
    let sunday = ymd(2024, 1, 7);
    assert_eq!(sunday.weekday(), Weekday::Sun);
    let monday = compute_last_monday(sunday);
    assert_eq!(monday, ymd(2024, 1, 1));
    assert_eq!(sunday.days_from_ce() - monday.days_from_ce(), 6);
}

#[test]
fn monday_anchors_itself() {
    let monday = ymd(2024, 1, 1);
    assert_eq!(monday.weekday(), Weekday::Mon);
    assert_eq!(compute_last_monday(monday), monday);
}

#[test]
fn anchor_across_month_and_year() {
    assert_eq!(compute_last_monday(ymd(2021, 1, 3)), ymd(2020, 12, 28));
    assert_eq!(compute_last_monday(ymd(2024, 3, 2)), ymd(2024, 2, 26));
}

#[test]
fn anchor_is_monday_within_six_days_and_fixed() {
    let start = ymd(2023, 12, 1).days_from_ce();
    for n in start..start + 60 {
        let d = CalendarDate::from_days_from_ce(n).unwrap();
        let m = compute_last_monday(d);
        assert_eq!(m.weekday(), Weekday::Mon);
        let diff = d.days_from_ce() - m.days_from_ce();
        assert!((0..=6).contains(&diff));
        assert_eq!(diff as u32, d.weekday().num_days_from_monday());
        assert_eq!(compute_last_monday(m), m);
    }
}

#[test]
fn anchors_at_the_ends_of_the_range() {
    let first = CalendarDate::from_days_from_ce(FIRST_DAY).unwrap();
    assert_eq!(first.weekday(), Weekday::Mon);
    assert_eq!(compute_last_monday(first), first);
    let last = CalendarDate::from_days_from_ce(LAST_DAY).unwrap();
    assert_eq!(last.weekday(), Weekday::Sun);
    assert_eq!(compute_last_monday(last).days_from_ce(), LAST_DAY - 6);
}

#[test]
fn day_counts_outside_the_range_are_refused() {
    assert!(CalendarDate::from_days_from_ce(FIRST_DAY - 1).is_none());
    assert!(CalendarDate::from_days_from_ce(LAST_DAY + 1).is_none());
    assert!(CalendarDate::from_days_from_ce(i32::MIN).is_none());
    assert!(CalendarDate::from_days_from_ce(i32::MAX).is_none());
}

#[test]
fn from_ymd_counts_days_from_year_one() {
    assert_eq!(ymd(1, 1, 1).days_from_ce(), 1);
    assert_eq!(ymd(0, 12, 31).days_from_ce(), 0);
    assert_eq!(ymd(1999, 9, 3).days_from_ce(), 730_000);
    assert_eq!(ymd(2024, 1, 1).days_from_ce(), 738_886);
    assert_eq!(ymd(-262143, 1, 5).days_from_ce(), FIRST_DAY);
    assert_eq!(ymd(262142, 12, 30).days_from_ce(), LAST_DAY);
}

#[test]
fn from_ymd_agrees_with_chrono() {
    for (y, m, d) in [(2024, 2, 29), (1900, 3, 1), (2000, 3, 1), (-4, 2, 29), (1970, 1, 1)] {
        let chrono_date = chrono::NaiveDate::from_ymd_opt(y, m, d).unwrap();
        assert_eq!(ymd(y, m, d).days_from_ce(), chrono_date.num_days_from_ce());
    }
}

#[test]
fn from_ymd_refuses_missing_and_unsupported_days() {
    assert!(CalendarDate::from_ymd(2023, 2, 29).is_none());
    assert!(CalendarDate::from_ymd(1900, 2, 29).is_none());
    assert!(CalendarDate::from_ymd(2023, 4, 31).is_none());
    assert!(CalendarDate::from_ymd(2023, 13, 1).is_none());
    assert!(CalendarDate::from_ymd(2023, 0, 1).is_none());
    assert!(CalendarDate::from_ymd(2023, 1, 0).is_none());
    assert!(CalendarDate::from_ymd(400_000, 1, 1).is_none());
    // chrono has this day, but its week starts before the supported range
    assert!(CalendarDate::from_ymd(-262143, 1, 1).is_none());
    assert!(CalendarDate::from_ymd(262142, 12, 31).is_none());
}

#[test]
fn weekday_agrees_with_chrono() {
    let start = ymd(2023, 12, 1).days_from_ce();
    for n in start..start + 14 {
        let d = CalendarDate::from_days_from_ce(n).unwrap();
        let c = chrono::NaiveDate::from_num_days_from_ce_opt(n).unwrap();
        assert_eq!(d.weekday().num_days_from_monday(), c.weekday().num_days_from_monday());
    }
}

#[test]
fn checked_add_days_moves_and_stops_at_the_range() {
    let d = ymd(2024, 1, 3);
    assert_eq!(d.checked_add_days(7), Some(ymd(2024, 1, 10)));
    assert_eq!(d.checked_add_days(-7), Some(ymd(2023, 12, 27)));
    let last = CalendarDate::from_days_from_ce(LAST_DAY).unwrap();
    assert!(last.checked_add_days(1).is_none());
    let first = CalendarDate::from_days_from_ce(FIRST_DAY).unwrap();
    assert!(first.checked_add_days(-1).is_none());
}

#[test]
fn day_of_month() {
    assert_eq!(ymd(2024, 1, 3).day(), 3);
    assert_eq!(ymd(2024, 2, 29).day(), 29);
    assert_eq!(ymd(1970, 1, 1).days_from_ce(), 719_163);
    assert_eq!(ymd(2023, 12, 31).day(), 31);
}

#[test]
fn japanese_labels() {
    assert_eq!(weekday_to_japanese(Weekday::Mon), "月");
    assert_eq!(weekday_to_japanese(Weekday::Tue), "火");
    assert_eq!(weekday_to_japanese(Weekday::Wed), "水");
    assert_eq!(weekday_to_japanese(Weekday::Thu), "木");
    assert_eq!(weekday_to_japanese(Weekday::Fri), "金");
    assert_eq!(weekday_to_japanese(Weekday::Sat), "土");
    assert_eq!(weekday_to_japanese(Weekday::Sun), "日");
}

#[test]
fn japanese_labels_are_distinct_non_empty_and_stable() {
    for (i, a) in ALL_WEEKDAYS.iter().enumerate() {
        let label = weekday_to_japanese(*a);
        assert!(!label.is_empty());
        assert_eq!(label, weekday_to_japanese(*a));
        for b in &ALL_WEEKDAYS[i + 1..] {
            assert_ne!(label, weekday_to_japanese(*b));
        }
    }
}

#[test]
fn num_days_from_monday_counts_monday_as_zero() {
    for (i, w) in ALL_WEEKDAYS.iter().enumerate() {
        assert_eq!(w.num_days_from_monday(), i as u32);
    }
}

#[test]
fn week_heading_uses_the_monday() {
    assert_eq!(week_heading(ymd(2024, 1, 3)), (2024, 1));
    // the Monday of this Sunday is 2020-12-28, in week 53 of 2020
    assert_eq!(week_heading(ymd(2021, 1, 3)), (2020, 53));
    // the Monday of this Friday is 2018-12-31, in week 1 of 2019
    assert_eq!(week_heading(ymd(2019, 1, 4)), (2019, 1));
}
