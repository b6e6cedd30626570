use chrono::{DateTime, Datelike, TimeZone, Utc};
use expense_bot::dates::{day_month, iso, local_date, FIRST_LOCAL_MS, monday_of, month_key, parse_month_key, week_start, Date};

fn utc(text: &str) -> i64 {
    DateTime::parse_from_rfc3339(text).unwrap().with_timezone(&Utc).timestamp_millis()
}

fn ymd(year: i32, month: u32, day: u32) -> Date {
    Date::from_ymd_opt(year, month, day).unwrap()
}

#[test]
fn local_date_uses_buenos_aires_not_utc() {
    // 02:00 UTC is still the previous day at UTC-3.
    assert_eq!(local_date(utc("2026-07-21T02:00:00Z")).unwrap(), ymd(2026, 7, 20));
    assert_eq!(local_date(utc("2026-07-21T03:00:00Z")).unwrap(), ymd(2026, 7, 21));
}

#[test]
fn week_start_is_the_monday_of_the_local_week() {
    let monday = ymd(2026, 7, 20);
    // Monday through Sunday all collapse to the same Monday.
    for day in 20..=26 {
        let date = ymd(2026, 7, day);
        assert_eq!(monday_of(date), monday, "for 2026-07-{day}");
    }
    assert_eq!(monday_of(ymd(2026, 7, 27)), ymd(2026, 7, 27));
}

#[test]
fn monday_boundary_is_evaluated_in_buenos_aires() {
    // Sunday 23:00 local (Monday 02:00 UTC) still belongs to the old week.
    assert_eq!(week_start(utc("2026-07-20T02:00:00Z")).unwrap(), ymd(2026, 7, 13));
    // Monday 00:00 local (03:00 UTC) starts the new one.
    assert_eq!(week_start(utc("2026-07-20T03:00:00Z")).unwrap(), ymd(2026, 7, 20));
}

#[test]
fn monday_of_crosses_month_and_year_boundaries() {
    assert_eq!(monday_of(ymd(2026, 1, 1)), ymd(2025, 12, 29));
}

#[test]
fn formatting_helpers() {
    let date = Utc.with_ymd_and_hms(2026, 7, 20, 12, 0, 0).unwrap().timestamp_millis();
    assert_eq!(iso(local_date(date).unwrap()), "2026-07-20");
    assert_eq!(day_month(local_date(date).unwrap()), "20/07");
    assert_eq!(month_key(local_date(date).unwrap()), "2026-07");
}

#[test]
fn month_key_parsing() {
    assert_eq!(parse_month_key("2026-07"), Some("2026-07".to_string()));
    assert_eq!(parse_month_key(" 2026-01 "), Some("2026-01".to_string()));
    assert_eq!(parse_month_key("2026-13"), None);
    assert_eq!(parse_month_key("2026-7"), None);
    assert_eq!(parse_month_key("julio"), None);
    assert_eq!(parse_month_key("2026"), None);
}

#[test]
fn month_key_parsing_accepts_what_str_parse_accepts() {
    assert_eq!(parse_month_key("+202-07"), Some("0202-07".to_string()));
    assert_eq!(parse_month_key("2026-+7"), Some("2026-07".to_string()));
    assert_eq!(parse_month_key("2026-00"), None);
    assert_eq!(parse_month_key("-202-07"), None);
    assert_eq!(parse_month_key("0000-12"), Some("0000-12".to_string()));
}

#[test]
fn year_formatting_matches_chrono_outside_four_digits() {
    for (y, m, d) in [(5, 3, 9), (0, 1, 1), (-1, 12, 31), (12345, 6, 7), (-262143, 1, 1), (262142, 12, 31)] {
        let date = ymd(y, m, d);
        let naive = chrono::NaiveDate::from_ymd_opt(y, m, d).unwrap();
        assert_eq!(iso(date), naive.format("%Y-%m-%d").to_string());
        assert_eq!(month_key(date), naive.format("%Y-%m").to_string());
        assert_eq!(day_month(date), naive.format("%d/%m").to_string());
    }
}

#[test]
fn stored_dates_read_back() {
    assert_eq!(Date::parse_iso("2026-07-20"), Some(ymd(2026, 7, 20)));
    assert_eq!(Date::parse_iso(&iso(ymd(1999, 2, 28))), Some(ymd(1999, 2, 28)));
    assert_eq!(Date::parse_iso("2026-02-30"), None);
    assert_eq!(Date::from_ymd_opt(2024, 2, 29), Some(Date { year: 2024, month: 2, day: 29 }));
    assert_eq!(Date::from_ymd_opt(2023, 2, 29), None);
}

/// The day count the contracts use, written out as `dates::day_number` states it.
fn day_number(y: i64, m: i64, d: i64) -> i64 {
    let y1 = if m <= 2 { y - 1 } else { y };
    let era = y1.div_euclid(400);
    let yoe = y1.rem_euclid(400);
    let mp = if m > 2 { m - 3 } else { m + 9 };
    let doy = (153 * mp + 2) / 5 + d - 1;
    let doe = yoe * 365 + yoe / 4 - yoe / 100 + doy;
    era * 146097 + doe - 719468
}

#[test]
fn the_day_count_in_the_contracts_agrees_with_chrono() {
    let mut date = chrono::NaiveDate::from_ymd_opt(1890, 1, 1).unwrap();
    let end = chrono::NaiveDate::from_ymd_opt(2110, 12, 31).unwrap();
    while date <= end {
        let n = day_number(date.year() as i64, date.month() as i64, date.day() as i64);
        assert_eq!(n, date.num_days_from_ce() as i64 - 719_163);
        assert_eq!((n + 3).rem_euclid(7), date.weekday().num_days_from_monday() as i64);
        date = date.succ_opt().unwrap();
    }
    for (y, m, d) in [(-262143, 1, 1), (-1, 3, 1), (0, 2, 29), (262142, 12, 31), (-400, 2, 29)] {
        let date = chrono::NaiveDate::from_ymd_opt(y, m, d).unwrap();
        let n = day_number(y as i64, m as i64, d as i64);
        assert_eq!(n, date.num_days_from_ce() as i64 - 719_163);
        assert_eq!((n + 3).rem_euclid(7), date.weekday().num_days_from_monday() as i64);
    }
}

#[test]
fn every_day_of_a_week_has_the_same_monday() {
    let monday = ymd(2026, 12, 28);
    for day in [28, 29, 30, 31] {
        assert_eq!(monday_of(ymd(2026, 12, day)), monday);
    }
    for day in [1, 2, 3] {
        assert_eq!(monday_of(ymd(2027, 1, day)), monday);
    }
    assert_eq!(monday_of(ymd(2027, 1, 4)), ymd(2027, 1, 4));
}

#[test]
fn normalized_month_keys_are_accepted_unchanged() {
    let key = parse_month_key(" +026-07 ").unwrap();
    assert_eq!(key, "0026-07");
    assert_eq!(parse_month_key(&key), Some(key.clone()));
    for date in [ymd(2026, 7, 20), ymd(1999, 12, 31), ymd(5, 1, 1), ymd(9999, 2, 28)] {
        let key = month_key(date);
        assert_eq!(parse_month_key(&key), Some(key.clone()));
    }
}

#[test]
fn instants_at_the_start_of_chronos_range_have_no_local_date() {
    assert_eq!(local_date(i64::MIN), None);
    assert_eq!(local_date(FIRST_LOCAL_MS - 1), None);
    assert!(local_date(FIRST_LOCAL_MS).is_some());
    assert!(local_date(i64::MAX).is_none());
}
