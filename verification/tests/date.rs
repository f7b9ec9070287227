use chrono::{Datelike, Duration, Local, NaiveDate};
use tu::date::Date;
use tu::date_errors::DateError;

fn is_leap(year: u16) -> bool {
    year % 4 == 0 && (year % 100 != 0 || year % 400 == 0)
}

fn month_length(year: u16, month: u8) -> u8 {
    match month {
        2 => {
            if is_leap(year) {
                29
            } else {
                28
            }
        }
        4 | 6 | 9 | 11 => 30,
        _ => 31,
    }
}

#[test]
pub fn invalid_date() {
    assert!(Date::new(2020, 127, 26).is_err());
    assert!(Date::new(2020, 5, 127).is_err());
    assert!(Date::new(2020, 0, 0).is_err());
}

#[test]
pub fn valid_date() {
    assert!(Date::new(2025, 5, 26).is_ok());
}

#[test]
pub fn date_from_string() {
    if let Ok(dt) = Date::try_from("2025-05-26") {
        assert_eq!(dt.year(), 2025);
        assert_eq!(dt.month(), 5);
        assert_eq!(dt.day(), 26);
    } else {
        panic!("Can't parse 2025-05-26")
    }
}

#[test]
pub fn failed_from_string() {
    assert!(Date::try_from("2020-127-26").is_err());
}

#[test]
pub fn eta_tomorrow() {
    let future = Local::now().date_naive() + Duration::days(1);
    let date = Date::new(
        future.year() as u16,
        future.month() as u8,
        future.day() as u8,
    )
    .unwrap();
    assert_eq!(date.eta(), Some(1));
}

#[test]
pub fn eta_today() {
    let future = Local::now().date_naive();
    let date = Date::new(
        future.year() as u16,
        future.month() as u8,
        future.day() as u8,
    )
    .unwrap();
    assert_eq!(date.eta(), Some(0));
}

#[test]
pub fn eta_yesterday() {
    let future = Local::now().date_naive() - Duration::days(1);
    let date = Date::new(
        future.year() as u16,
        future.month() as u8,
        future.day() as u8,
    )
    .unwrap();
    assert_eq!(date.eta(), None);
}

#[test]
fn leap_day_exists_only_in_leap_years() {
    assert_eq!(Date::new(2020, 2, 30), Err(DateError::InvalidDate));
    assert!(Date::new(2020, 2, 29).is_ok());
    assert_eq!(Date::new(2021, 2, 29), Err(DateError::InvalidDate));
    assert_eq!(Date::new(1900, 2, 29), Err(DateError::InvalidDate));
    assert!(Date::new(2000, 2, 29).is_ok());
    assert_eq!(Date::try_from("2020-02-30"), Err(DateError::InvalidDate));
    assert!(Date::try_from("2020-02-29").is_ok());
}

#[test]
fn every_day_of_the_calendar_is_accepted_and_no_other() {
    for year in [0u16, 1, 1900, 1999, 2000, 2023, 2024, 2100, 9999, 65535] {
        for month in 0u8..=13 {
            for day in 0u8..=32 {
                let real = (1..=12).contains(&month)
                    && day >= 1
                    && day <= month_length(year, month);
                let made = Date::new(year, month, day);
                assert_eq!(made.is_ok(), real, "{}-{}-{}", year, month, day);
                if let Ok(date) = made {
                    assert_eq!((date.year(), date.month(), date.day()), (year, month, day));
                }
            }
        }
    }
}

#[test]
fn days_beyond_the_month_are_refused() {
    for year in [2019u16, 2020, 2100, 2400] {
        for month in 1u8..=12 {
            for day in (month_length(year, month) + 1)..=40 {
                assert_eq!(Date::new(year, month, day), Err(DateError::InvalidDate));
            }
        }
    }
}

#[test]
fn format_writes_padded_fields() {
    assert_eq!(Date::new(2025, 5, 26).unwrap().format(), "2025-05-26");
    assert_eq!(Date::new(7, 1, 2).unwrap().format(), "0007-01-02");
    assert_eq!(Date::new(0, 12, 31).unwrap().format(), "0000-12-31");
    assert_eq!(Date::new(12345, 10, 10).unwrap().format(), "12345-10-10");
}

#[test]
fn parse_reads_back_what_format_wrote() {
    for year in [0u16, 9, 99, 999, 2000, 2024, 9999, 10000, 65535] {
        for month in 1u8..=12 {
            for day in 1u8..=month_length(year, month) {
                let date = Date::new(year, month, day).unwrap();
                assert_eq!(Date::try_from(&date.format()), Ok(date));
            }
        }
    }
}

#[test]
fn parse_wants_three_numbers() {
    assert!(Date::try_from("").is_err());
    assert!(Date::try_from("2020").is_err());
    assert!(Date::try_from("2020-05").is_err());
    assert!(Date::try_from("2020-05-").is_err());
    assert!(Date::try_from("2020--26").is_err());
    assert!(Date::try_from("-05-26").is_err());
    assert!(Date::try_from("2020-05-26-01").is_err());
    assert!(Date::try_from("2020-05-26-").is_err());
    assert!(Date::try_from("2020-05-2x").is_err());
    assert!(Date::try_from("2020-05-26 ").is_err());
    assert!(Date::try_from(" 2020-05-26").is_err());
    assert!(Date::try_from("2020/05/26").is_err());
    assert!(Date::try_from("2020-0٥-26").is_err());
    assert!(Date::try_from("65536-01-01").is_err());
    assert!(Date::try_from("2020-256-01").is_err());
    assert!(Date::try_from("2020-05-+").is_err());
    assert!(Date::try_from("2020-05-++1").is_err());
    assert!(Date::try_from("99999999999999999999-01-01").is_err());
}

#[test]
fn parse_takes_numbers_of_any_width_and_a_plus_sign() {
    let date = Date::new(2020, 5, 6).unwrap();
    assert_eq!(Date::try_from("2020-5-6"), Ok(date));
    assert_eq!(Date::try_from("0002020-005-0006"), Ok(date));
    assert_eq!(Date::try_from("+2020-+5-+6"), Ok(date));
    assert_eq!(Date::try_from("65535-12-31"), Date::new(65535, 12, 31));
}

#[test]
fn timestamp_is_the_last_second_of_the_day() {
    assert_eq!(Date::new(1970, 1, 1).unwrap().timestamp(), 86_399);
    assert_eq!(Date::new(1969, 12, 31).unwrap().timestamp(), -1);
    assert_eq!(Date::new(2000, 2, 29).unwrap().timestamp(), 951_868_799);
    assert_eq!(Date::new(2030, 1, 1).unwrap().timestamp(), 1_893_542_399);
    assert_eq!(Date::new(1, 1, 1).unwrap().timestamp(), -62_135_510_401);
    assert_eq!(Date::new(9999, 12, 31).unwrap().timestamp(), 253_402_300_799);
}

#[test]
fn timestamp_follows_the_calendar_day_by_day() {
    let mut day = NaiveDate::from_ymd_opt(1899, 12, 25).unwrap();
    let mut before: Option<i64> = None;
    for _ in 0..1500 {
        let date = Date::new(day.year() as u16, day.month() as u8, day.day() as u8).unwrap();
        let stamp = date.timestamp();
        if let Some(earlier) = before {
            assert_eq!(stamp, earlier + 86_400);
        }
        before = Some(stamp);
        day = day.succ_opt().unwrap();
    }
}

#[test]
fn days_until_counts_whole_days() {
    let date = Date::new(2030, 1, 1).unwrap();
    let eve_midnight = 1_893_369_600;
    assert_eq!(date.days_until(eve_midnight), Some(1));
    assert_eq!(date.days_until(eve_midnight + 86_399), Some(1));
    assert_eq!(date.days_until(eve_midnight + 86_400), Some(0));
    assert_eq!(date.days_until(date.timestamp()), Some(0));
    assert_eq!(date.days_until(date.timestamp() + 1), None);
    assert_eq!(date.days_until(eve_midnight - 1), Some(2));
    assert_eq!(date.days_until(Date::new(2029, 1, 1).unwrap().timestamp()), Some(365));
    assert_eq!(date.days_until(i64::MAX), None);
    assert_eq!(
        date.days_until(i64::MIN),
        Some(((1_893_542_399i128 - i64::MIN as i128) / 86_400) as u64)
    );
}
