use chrono::{Datelike, NaiveDate};
use habit_tracker::date::{Date, MAX_YEAR, MIN_YEAR};

#[test]
fn from_ymd_keeps_year_month_and_day() {
    let date = Date::from_ymd(2022, 10, 31).unwrap();
    assert_eq!(date.year(), 2022);
    assert_eq!(date.month(), 10);
    assert_eq!(date.day(), 31);
}

#[test]
fn from_ymd_refuses_days_that_do_not_exist() {
    assert!(Date::from_ymd(2023, 4, 31).is_none());
    assert!(Date::from_ymd(2015, 2, 29).is_none());
    assert!(Date::from_ymd(1900, 2, 29).is_none());
    assert!(Date::from_ymd(2100, 2, 29).is_none());
    assert!(Date::from_ymd(2015, 0, 14).is_none());
    assert!(Date::from_ymd(2015, 13, 1).is_none());
    assert!(Date::from_ymd(2015, 1, 0).is_none());
    assert!(Date::from_ymd(2015, 1, 32).is_none());
    assert!(Date::from_ymd(2015, u32::MAX, 1).is_none());
    assert!(Date::from_ymd(2015, 1, u32::MAX).is_none());
}

#[test]
fn from_ymd_knows_leap_years() {
    assert!(Date::from_ymd(2024, 2, 29).is_some());
    assert!(Date::from_ymd(2000, 2, 29).is_some());
    assert!(Date::from_ymd(0, 2, 29).is_some());
    assert!(Date::from_ymd(-4, 2, 29).is_some());
    assert!(Date::from_ymd(-100, 2, 29).is_none());
    assert!(Date::from_ymd(-400, 2, 29).is_some());
    assert!(Date::from_ymd(-1, 2, 29).is_none());
}

#[test]
fn from_ymd_keeps_to_the_range_of_years() {
    assert_eq!(MIN_YEAR, -262143);
    assert_eq!(MAX_YEAR, 262142);
    assert!(Date::from_ymd(MIN_YEAR, 1, 1).is_some());
    assert!(Date::from_ymd(MAX_YEAR, 12, 31).is_some());
    assert!(Date::from_ymd(MIN_YEAR - 1, 12, 31).is_none());
    assert!(Date::from_ymd(MAX_YEAR + 1, 1, 1).is_none());
    assert!(Date::from_ymd(i32::MIN, 1, 1).is_none());
    assert!(Date::from_ymd(i32::MAX, 1, 1).is_none());
    assert_eq!(NaiveDate::MIN.year(), MIN_YEAR);
    assert_eq!(NaiveDate::MAX.year(), MAX_YEAR);
}

#[test]
fn from_ymd_agrees_with_chrono_on_which_days_exist() {
    let years = [
        MIN_YEAR - 1, MIN_YEAR, -262000, -401, -400, -101, -100, -5, -4, -1, 0, 1, 4, 100, 400,
        1582, 1600, 1700, 1899, 1900, 1999, 2000, 2001, 2022, 2023, 2024, 2100, 2400, 9999,
        10000, 262000, MAX_YEAR, MAX_YEAR + 1,
    ];
    for year in years {
        for month in 0..=13 {
            for day in 0..=32 {
                let ours = Date::from_ymd(year, month, day).is_some();
                let theirs = NaiveDate::from_ymd_opt(year, month, day).is_some();
                assert_eq!(ours, theirs, "{}-{}-{}", year, month, day);
            }
        }
    }
}

#[test]
fn dates_are_ordered_by_year_then_month_then_day() {
    let date = Date::from_ymd(2022, 10, 31).unwrap();
    let earlier = [(2022, 10, 30), (2022, 9, 30), (2021, 12, 31), (2021, 11, 30), (-1, 12, 31)];
    for (year, month, day) in earlier {
        let other = Date::from_ymd(year, month, day).unwrap();
        assert!(other.is_before(&date));
        assert!(!date.is_before(&other));
    }
    assert!(!date.is_before(&date));
    let later = Date::from_ymd(2022, 11, 1).unwrap();
    assert!(date.is_before(&later));
    assert!(!later.is_before(&date));
}

#[test]
fn order_agrees_with_chrono() {
    let days = [
        (MIN_YEAR, 1, 1), (-1, 12, 31), (0, 1, 1), (1999, 12, 31), (2000, 1, 1), (2022, 10, 30),
        (2022, 10, 31), (2022, 11, 1), (2022, 11, 30), (2023, 1, 1), (MAX_YEAR, 12, 31),
    ];
    for a in days {
        for b in days {
            let ours = Date::from_ymd(a.0, a.1, a.2).unwrap().is_before(&Date::from_ymd(b.0, b.1, b.2).unwrap());
            let theirs = NaiveDate::from_ymd_opt(a.0, a.1, a.2).unwrap() < NaiveDate::from_ymd_opt(b.0, b.1, b.2).unwrap();
            assert_eq!(ours, theirs);
        }
    }
}

#[test]
fn dates_are_written_as_iso_8601() {
    let cases = [
        ((2022, 10, 31), "2022-10-31"),
        ((2015, 9, 5), "2015-09-05"),
        ((0, 1, 1), "0000-01-01"),
        ((7, 2, 3), "0007-02-03"),
        ((999, 12, 31), "0999-12-31"),
        ((9999, 12, 31), "9999-12-31"),
        ((10000, 12, 31), "+10000-12-31"),
        ((-1, 1, 1), "-0001-01-01"),
        ((-12345, 6, 7), "-12345-06-07"),
        ((MAX_YEAR, 12, 31), "+262142-12-31"),
        ((MIN_YEAR, 1, 1), "-262143-01-01"),
    ];
    for ((year, month, day), text) in cases {
        let date = Date::from_ymd(year, month, day).unwrap();
        assert_eq!(date.to_iso_string(), text);
        assert_eq!(Date::parse(text), Some(date));
    }
}

#[test]
fn dates_are_read_as_chrono_reads_them() {
    assert_eq!(Date::parse("2015-09-18"), Date::from_ymd(2015, 9, 18));
    assert_eq!(Date::parse("+12345-6-7"), Date::from_ymd(12345, 6, 7));
    assert_eq!(Date::parse("2015-9-8"), Date::from_ymd(2015, 9, 8));
    for text in ["", "foo", "2015-02-29", "2015-13-01", "2015-00-10", "2015-01-00", "2015/09/18",
        "2015-09-18T00:00:00", "20150918", "2015-09", "12345-06-07", "+262143-01-01"]
    {
        assert_eq!(Date::parse(text), None, "{}", text);
        assert!(text.parse::<NaiveDate>().is_err(), "{}", text);
    }
}

#[test]
fn every_day_of_some_years_is_read_back_from_its_text() {
    for year in [-4, 0, 1900, 2000, 2022, 2024] {
        for month in 1..=12 {
            for day in 1..=31 {
                if let Some(date) = Date::from_ymd(year, month, day) {
                    let text = date.to_iso_string();
                    assert_eq!(Date::parse(&text), Some(date));
                    assert_eq!(text, NaiveDate::from_ymd_opt(year, month, day).unwrap().to_string());
                }
            }
        }
    }
}

#[test]
fn today_is_the_local_date_of_the_clock() {
    let before = chrono::Local::now().naive_local().date();
    let today = Date::today();
    let after = chrono::Local::now().naive_local().date();

    let ours = NaiveDate::from_ymd_opt(today.year(), today.month(), today.day()).unwrap();
    assert!(before <= ours && ours <= after);
}
