use hq::book::command;
use hq::{
    build_booking_request, interpret_response, ApiResponse, ApiResponseStatus, BookingOutcome,
    BuildError, Configuration, Date, DateRange, Floors, DEFAULT_PREFERRED_SEAT_ID,
};

fn date(year: u32, month: u32, day: u32) -> Date {
    Date::new(year, month, day).expect("a valid date")
}

fn march_week() -> DateRange {
    DateRange::new(date(2024, 3, 4), date(2024, 3, 10)).expect("a forward period")
}

#[test]
fn build_rejects_both_date_and_range() {
    let r = build_booking_request(
        Some(7),
        Some(560),
        Some("2024-03-01".to_string()),
        Some(march_week()),
    );
    assert_eq!(r, Err(BuildError::MutuallyExclusiveDates));
}

#[test]
fn build_rejects_both_even_without_floor() {
    let r = build_booking_request(None, None, Some("2024-03-01".to_string()), Some(march_week()));
    assert_eq!(r, Err(BuildError::MutuallyExclusiveDates));
}

#[test]
fn build_requires_a_floor() {
    let r = build_booking_request(Some(7), None, Some("2024-03-01".to_string()), None);
    assert_eq!(r, Err(BuildError::MissingFloor));
}

#[test]
fn build_single_date_with_default_seat() {
    let r = build_booking_request(None, Some(560), Some("2024-03-01".to_string()), None)
        .expect("a buildable request");
    assert_eq!(r.days, vec!["2024-03-01".to_string()]);
    assert_eq!(r.preferred_seat_id, DEFAULT_PREFERRED_SEAT_ID);
    assert_eq!(r.preferred_seat_id, 20606);
    assert_eq!(r.floorplan_id, Some(560));
    assert_eq!(r.resource_type, "DESK");
    assert_eq!(r.start, "08:00");
    assert_eq!(r.end, "17:00");
    assert_eq!(r.booking_length_days, 0);
}

#[test]
fn build_single_date_skips_weekend_screening() {
    let r = build_booking_request(None, Some(560), Some("2024-03-09".to_string()), None)
        .expect("a buildable request");
    assert_eq!(r.days, vec!["2024-03-09".to_string()]);
}

#[test]
fn build_range_expands_weekdays() {
    let r = build_booking_request(Some(17), Some(559), None, Some(march_week()))
        .expect("a buildable request");
    assert_eq!(
        r.days,
        vec![
            "2024-03-04".to_string(),
            "2024-03-05".to_string(),
            "2024-03-06".to_string(),
            "2024-03-07".to_string(),
            "2024-03-08".to_string(),
        ]
    );
    assert_eq!(r.preferred_seat_id, 17);
    assert_eq!(r.floorplan_id, Some(559));
}

#[test]
fn build_without_dates_books_nothing() {
    let r = build_booking_request(None, Some(558), None, None).expect("a buildable request");
    assert!(r.days.is_empty());
}

#[test]
fn command_takes_floor_from_configuration() {
    let config = Configuration {
        session_id: Some("some-session-token".to_string()),
        preferred_seat_id: None,
        preferred_floor_id: Some(560),
    };
    let r = command(None, Some("2024-03-01".to_string()), None, &config)
        .expect("a buildable request");
    assert_eq!(r.floorplan_id, Some(560));
    assert_eq!(r.days, vec!["2024-03-01".to_string()]);
}

#[test]
fn command_fails_without_configured_floor() {
    let config =
        Configuration { session_id: None, preferred_seat_id: None, preferred_floor_id: None };
    let r = command(None, Some("2024-03-01".to_string()), None, &config);
    assert_eq!(r, Err(BuildError::MissingFloor));
}

#[test]
fn command_treats_unknown_floor_code_as_unconfigured() {
    let config = Configuration {
        session_id: None,
        preferred_seat_id: None,
        preferred_floor_id: Some(999),
    };
    let r = command(None, None, Some(march_week()), &config);
    assert_eq!(r, Err(BuildError::MissingFloor));
}

#[test]
fn interpret_success_with_empty_list() {
    let r = interpret_response(ApiResponse {
        status: ApiResponseStatus::Success,
        reason: None,
        booked_days: Some(vec![]),
    });
    assert_eq!(r, BookingOutcome::Success { booked_days: vec![] });
}

#[test]
fn interpret_success_with_days() {
    let r = interpret_response(ApiResponse {
        status: ApiResponseStatus::Success,
        reason: None,
        booked_days: Some(vec!["2024-03-04".to_string(), "2024-03-05".to_string()]),
    });
    assert_eq!(
        r,
        BookingOutcome::Success {
            booked_days: vec!["2024-03-04".to_string(), "2024-03-05".to_string()],
        }
    );
}

#[test]
fn interpret_success_with_absent_list() {
    let r = interpret_response(ApiResponse {
        status: ApiResponseStatus::Success,
        reason: Some("ignored on success".to_string()),
        booked_days: None,
    });
    assert_eq!(r, BookingOutcome::Success { booked_days: vec![] });
}

#[test]
fn interpret_failure_keeps_reason() {
    let r = interpret_response(ApiResponse {
        status: ApiResponseStatus::Failed,
        reason: Some("Desk unavailable".to_string()),
        booked_days: None,
    });
    assert_eq!(r, BookingOutcome::Failure { reason: "Desk unavailable".to_string() });
}

#[test]
fn interpret_failure_without_reason_uses_fallback() {
    let r = interpret_response(ApiResponse {
        status: ApiResponseStatus::Failed,
        reason: None,
        booked_days: Some(vec!["2024-03-04".to_string()]),
    });
    assert_eq!(
        r,
        BookingOutcome::Failure {
            reason: "No error message was actually provided by the API".to_string(),
        }
    );
}

#[test]
fn floors_map_to_api_values() {
    assert_eq!(Floors::GroundFloor.api_values(), 561);
    assert_eq!(Floors::FirstFloor.api_values(), 560);
    assert_eq!(Floors::SecondFloor.api_values(), 559);
    assert_eq!(Floors::ThirdFloor.api_values(), 558);
}

#[test]
fn floors_decode_from_api_values() {
    assert_eq!(Floors::from_api_value(561), Some(Floors::GroundFloor));
    assert_eq!(Floors::from_api_value(560), Some(Floors::FirstFloor));
    assert_eq!(Floors::from_api_value(559), Some(Floors::SecondFloor));
    assert_eq!(Floors::from_api_value(558), Some(Floors::ThirdFloor));
    assert_eq!(Floors::from_api_value(557), None);
    assert_eq!(Floors::from_api_value(0), None);
}

#[test]
fn floor_codes_round_trip() {
    for floor in [
        Floors::GroundFloor,
        Floors::FirstFloor,
        Floors::SecondFloor,
        Floors::ThirdFloor,
    ] {
        assert_eq!(Floors::from_api_value(floor.api_values()), Some(floor));
    }
}

#[test]
fn floor_names() {
    assert_eq!(Floors::GroundFloor.name(), "Ground Floor");
    assert_eq!(Floors::FirstFloor.name(), "First Floor");
    assert_eq!(Floors::SecondFloor.name(), "Second Floor");
    assert_eq!(Floors::ThirdFloor.name(), "Third Floor");
}

#[test]
fn configuration_resolves_its_floor() {
    let mut config =
        Configuration { session_id: None, preferred_seat_id: None, preferred_floor_id: None };
    assert_eq!(config.floor(), None);
    config.preferred_floor_id = Some(558);
    assert_eq!(config.floor(), Some(Floors::ThirdFloor));
    config.preferred_floor_id = Some(123);
    assert_eq!(config.floor(), None);
}
