use hq::{expand_period, format_date, parse_date, Date, DateParseError, DateRange, RangeError};

fn date(year: u32, month: u32, day: u32) -> Date {
    Date::new(year, month, day).expect("a valid date")
}

#[test]
fn expand_week_excludes_weekend() {
    let from = date(2024, 3, 4);
    let to = date(2024, 3, 10);
    let days = expand_period(&from, &to).expect("a forward period");
    assert_eq!(
        days,
        vec![
            "2024-03-04".to_string(),
            "2024-03-05".to_string(),
            "2024-03-06".to_string(),
            "2024-03-07".to_string(),
            "2024-03-08".to_string(),
        ]
    );
}

#[test]
fn expand_single_weekday() {
    let d = date(2024, 3, 6);
    let days = expand_period(&d, &d).expect("a forward period");
    assert_eq!(days, vec!["2024-03-06".to_string()]);
}

#[test]
fn expand_single_saturday_is_empty() {
    let d = date(2024, 3, 9);
    let days = expand_period(&d, &d).expect("a forward period");
    assert!(days.is_empty());
}

#[test]
fn expand_single_sunday_is_empty() {
    let d = date(2024, 3, 10);
    let days = expand_period(&d, &d).expect("a forward period");
    assert!(days.is_empty());
}

#[test]
fn expand_backwards_fails() {
    let from = date(2024, 3, 10);
    let to = date(2024, 3, 4);
    assert_eq!(expand_period(&from, &to), Err(RangeError {}));
}

#[test]
fn expand_across_year_end() {
    let from = date(2023, 12, 29);
    let to = date(2024, 1, 2);
    let days = expand_period(&from, &to).expect("a forward period");
    assert_eq!(
        days,
        vec![
            "2023-12-29".to_string(),
            "2024-01-01".to_string(),
            "2024-01-02".to_string(),
        ]
    );
}

#[test]
fn expand_across_leap_february() {
    let from = date(2024, 2, 28);
    let to = date(2024, 3, 1);
    let days = expand_period(&from, &to).expect("a forward period");
    assert_eq!(
        days,
        vec![
            "2024-02-28".to_string(),
            "2024-02-29".to_string(),
            "2024-03-01".to_string(),
        ]
    );
}

#[test]
fn expanded_days_parse_back() {
    let from = date(2024, 2, 26);
    let to = date(2024, 3, 3);
    let days = expand_period(&from, &to).expect("a forward period");
    let expected = [
        date(2024, 2, 26),
        date(2024, 2, 27),
        date(2024, 2, 28),
        date(2024, 2, 29),
        date(2024, 3, 1),
    ];
    assert_eq!(days.len(), expected.len());
    for (text, want) in days.iter().zip(expected.iter()) {
        assert_eq!(parse_date(text), Ok(*want));
    }
}

#[test]
fn format_pads_to_fixed_width() {
    assert_eq!(format_date(&date(2024, 3, 4)), "2024-03-04");
    assert_eq!(format_date(&date(800, 1, 2)), "0800-01-02");
    assert_eq!(format_date(&date(1, 1, 1)), "0001-01-01");
    assert_eq!(format_date(&date(9999, 12, 31)), "9999-12-31");
}

#[test]
fn parse_accepts_only_real_dates() {
    assert_eq!(parse_date("2024-03-01"), Ok(date(2024, 3, 1)));
    assert_eq!(parse_date("0001-01-01"), Ok(date(1, 1, 1)));
    assert_eq!(parse_date("9999-12-31"), Ok(date(9999, 12, 31)));
    assert_eq!(parse_date("2024-02-29"), Ok(date(2024, 2, 29)));
    assert_eq!(parse_date("2023-02-29"), Err(DateParseError {}));
    assert_eq!(parse_date("2024-13-01"), Err(DateParseError {}));
    assert_eq!(parse_date("2024-02-30"), Err(DateParseError {}));
    assert_eq!(parse_date("2024-00-10"), Err(DateParseError {}));
    assert_eq!(parse_date("0000-01-01"), Err(DateParseError {}));
    assert_eq!(parse_date("2024-3-01"), Err(DateParseError {}));
    assert_eq!(parse_date("2024/03/01"), Err(DateParseError {}));
    assert_eq!(parse_date("abcd-ef-gh"), Err(DateParseError {}));
    assert_eq!(parse_date(""), Err(DateParseError {}));
}

#[test]
fn format_then_parse_returns_the_date() {
    let samples = [
        date(1, 1, 1),
        date(1600, 2, 29),
        date(1900, 2, 28),
        date(2023, 12, 31),
        date(2024, 2, 29),
        date(9999, 12, 31),
    ];
    for d in samples {
        assert_eq!(parse_date(&format_date(&d)), Ok(d));
    }
}

#[test]
fn date_new_rejects_nonexistent_days() {
    assert!(Date::new(2024, 3, 4).is_some());
    assert!(Date::new(2024, 2, 29).is_some());
    assert!(Date::new(2023, 2, 29).is_none());
    assert!(Date::new(1900, 2, 29).is_none());
    assert!(Date::new(2000, 2, 29).is_some());
    assert!(Date::new(2024, 0, 1).is_none());
    assert!(Date::new(2024, 13, 1).is_none());
    assert!(Date::new(2024, 4, 31).is_none());
    assert!(Date::new(0, 1, 1).is_none());
    assert!(Date::new(10000, 1, 1).is_none());
}

#[test]
fn date_range_keeps_forward_periods() {
    let from = date(2024, 3, 4);
    let to = date(2024, 3, 10);
    let range = DateRange::new(from, to).expect("a forward period");
    assert_eq!(range.from, from);
    assert_eq!(range.to, to);
    assert_eq!(DateRange::new(to, from), Err(RangeError {}));
    assert!(DateRange::new(from, from).is_ok());
}
