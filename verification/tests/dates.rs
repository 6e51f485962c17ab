use gchat_takeout::datetime::{format_to_pst, parse_google_date, stored_text_from, DateTimeFields};

#[test]
fn parses_full_export_date() {
    let raw = "Tuesday, January 5, 2021 at 3:04:05\u{202F}PM UTC";
    assert_eq!(parse_google_date(raw), Some("2021-01-05 15:04:05".to_string()));
}

#[test]
fn date_without_weekday_loses_its_month_and_day() {
    // The first ", " is taken for the one after the weekday.
    assert_eq!(parse_google_date("March 14, 2023 at 11:59:01 AM UTC"), None);
}

#[test]
fn parses_two_digit_day_and_midnight() {
    assert_eq!(
        parse_google_date("Sunday, December 31, 2023 at 12:00:00\u{202F}AM UTC"),
        Some("2023-12-31 00:00:00".to_string())
    );
}

#[test]
fn parses_with_surrounding_white_space() {
    assert_eq!(
        parse_google_date("  Friday, July 4, 2025 at 9:15:30\u{202F}PM UTC"),
        Some("2025-07-04 21:15:30".to_string())
    );
    assert_eq!(
        parse_google_date("Friday, July 4, 2025 at 9:15:30 PM \t"),
        Some("2025-07-04 21:15:30".to_string())
    );
    assert_eq!(parse_google_date("Friday, July 4, 2025 at 9:15:30 PM UTC \n"), None);
}

#[test]
fn rejects_text_that_is_no_date() {
    assert_eq!(parse_google_date("not a date"), None);
    assert_eq!(parse_google_date(""), None);
}

#[test]
fn rejects_impossible_day() {
    assert_eq!(parse_google_date("Thursday, February 30, 2023 at 1:00:00 PM UTC"), None);
}

#[test]
fn shows_winter_time_in_pacific_standard_time() {
    assert_eq!(format_to_pst("2021-01-05 15:04:05"), "01/05/2021 07:04");
}

#[test]
fn shows_summer_time_in_pacific_daylight_time() {
    assert_eq!(format_to_pst("2021-07-05 15:04:05"), "07/05/2021 08:04");
}

#[test]
fn shows_date_crossing_midnight_back_a_day() {
    assert_eq!(format_to_pst("2024-03-01 03:30:00"), "02/29/2024 19:30");
}

#[test]
fn keeps_unparsable_stored_date() {
    assert_eq!(format_to_pst("January 5, 2021"), "January 5, 2021");
    assert_eq!(format_to_pst(""), "");
}

#[test]
fn stored_dates_sort_chronologically() {
    let a = parse_google_date("Tuesday, January 5, 2021 at 3:04:05 PM UTC").unwrap();
    let b = parse_google_date("Tuesday, January 5, 2021 at 11:04:05 PM UTC").unwrap();
    let c = parse_google_date("Wednesday, December 1, 2021 at 1:00:00 AM UTC").unwrap();
    assert!(a < b);
    assert!(b < c);
}

#[test]
fn stored_date_round_trips_through_display() {
    let stored = parse_google_date("Monday, June 3, 2024 at 6:07:08\u{202F}PM UTC").unwrap();
    assert_eq!(stored, "2024-06-03 18:07:08");
    assert_eq!(format_to_pst(&stored), "06/03/2024 11:07");
}

fn fields(year: i32, month: u32, day: u32, hour: u32, minute: u32, second: u32, nanosecond: u32) -> DateTimeFields {
    DateTimeFields { year, month, day, hour, minute, second, nanosecond }
}

#[test]
fn stored_text_prefers_first_reading() {
    let a = fields(2021, 1, 5, 15, 4, 5, 0);
    let b = fields(1999, 12, 31, 23, 59, 59, 1_000_000_000);
    assert_eq!(stored_text_from(Some(a), Some(b)).as_deref(), Some("2021-01-05 15:04:05"));
    assert_eq!(stored_text_from(None, Some(b)).as_deref(), Some("1999-12-31 23:59:60"));
    assert_eq!(stored_text_from(None, None), None);
    assert_eq!(stored_text_from(Some(fields(7, 3, 4, 0, 0, 0, 0)), None).as_deref(), Some("0007-03-04 00:00:00"));
}

#[test]
fn stored_dates_are_always_shown_in_pacific_time() {
    for raw in [
        "Tuesday, January 5, 2021 at 3:04:05\u{202F}PM UTC",
        "Sunday, March 10, 2024 at 10:30:00\u{202F}AM UTC",
        "Sunday, November 3, 2024 at 9:00:00\u{202F}AM UTC",
        "Saturday, January 1, 1000 at 12:00:00\u{202F}AM UTC",
    ] {
        let stored = parse_google_date(raw).unwrap();
        let shown = format_to_pst(&stored);
        assert_ne!(shown, stored);
        assert_eq!(shown.len(), 16);
    }
    assert_eq!(format_to_pst("2024-03-10 10:30:00"), "03/10/2024 03:30");
    assert_eq!(format_to_pst("2024-11-03 09:00:00"), "11/03/2024 01:00");
    assert_eq!(format_to_pst("1999-12-31 23:59:60"), "12/31/1999 15:59");
}
