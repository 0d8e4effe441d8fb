//! Assembly of a booking request from independently optional inputs, with
//! mutual exclusivity of the date inputs and no silent floor default.

use crate::config::Configuration;
use crate::date_text::date_text;
use crate::period::{date_texts, determine_period, string_views, weekdays_between, DateRange};
use vstd::prelude::*;
use vstd::string::StringExecFns;

verus! {

/// The seat booked when none is asked for.
pub const DEFAULT_PREFERRED_SEAT_ID: i32 = 20606;

/// A fully assembled request for the booking service, mirroring its JSON
/// body field for field.
#[derive(Clone, Debug, PartialEq)]
pub struct BookingRequest {
    pub floorplan_id: Option<i32>,
    pub days: Vec<String>,
    pub preferred_seat_id: i32,
    pub resource_type: String,
    pub start: String,
    pub end: String,
    pub booking_length_days: i32,
}

impl BookingRequest {
    /// The fields the service fixes for every desk booking.
    pub open spec fn fixed_fields(self) -> bool {
        &&& self.resource_type@ == "DESK"@
        &&& self.start@ == "08:00"@
        &&& self.end@ == "17:00"@
        &&& self.booking_length_days == 0
    }
}

/// A booking that cannot be built from the given inputs, reported before any
/// network attempt.
#[derive(Clone, Copy, Debug, PartialEq, Eq, Structural)]
pub enum BuildError {
    /// A single date and a period were both supplied; they exclude each
    /// other.
    MutuallyExclusiveDates,
    /// No preferred floor is configured and none was supplied; booking will
    /// not silently fall back to a default floor.
    MissingFloor,
}

/// The days a built request books: the single date taken as given, with no
/// weekend screening, or the period's weekdays, or none.
pub open spec fn requested_days(single_date: Option<String>, range: Option<DateRange>) -> Seq<
    Seq<char>,
> {
    match single_date {
        Some(d) => seq![d@],
        None => match range {
            Some(dr) => date_texts(weekdays_between(dr.from, dr.to)),
            None => Seq::<Seq<char>>::empty(),
        },
    }
}

/// Assembles a booking request. A supplied single date is booked as given;
/// a period is expanded to its weekdays; supplying both is an error, as is
/// having no floor to book on. The seat falls back to a fixed default.
pub fn build_booking_request(
    seat_id: Option<i32>,
    floor_id: Option<i32>,
    single_date: Option<String>,
    range: Option<DateRange>,
) -> (r: Result<BookingRequest, BuildError>)
    requires
        range matches Some(dr) ==> dr.wf(),
    ensures
        r is Ok <==> !(single_date is Some && range is Some) && floor_id is Some,
        match r {
            Ok(req) => {
                &&& req.floorplan_id == floor_id
                &&& req.preferred_seat_id == (match seat_id {
                    Some(s) => s,
                    None => DEFAULT_PREFERRED_SEAT_ID,
                })
                &&& req.fixed_fields()
                &&& string_views(req.days@) == requested_days(single_date, range)
            },
            Err(e) => match e {
                BuildError::MutuallyExclusiveDates => single_date is Some && range is Some,
                BuildError::MissingFloor => floor_id is None && !(single_date is Some
                    && range is Some),
            },
        },
{
    if single_date.is_some() && range.is_some() {
        return Err(BuildError::MutuallyExclusiveDates);
    }
    let floor = match floor_id {
        Some(f) => f,
        None => {
            return Err(BuildError::MissingFloor);
        },
    };
    let mut days: Vec<String> = Vec::new();
    match single_date {
        Some(d) => {
            days.push(d);
            proof {
                assert(string_views(days@) =~= requested_days(single_date, range));
            }
        },
        None => {
            match range {
                Some(dr) => {
                    days = determine_period(&dr.from, &dr.to);
                },
                None => {
                    proof {
                        assert(string_views(days@) =~= requested_days(single_date, range));
                    }
                },
            }
        },
    }
    Ok(
        BookingRequest {
            floorplan_id: Some(floor),
            days,
            preferred_seat_id: match seat_id {
                Some(s) => s,
                None => DEFAULT_PREFERRED_SEAT_ID,
            },
            resource_type: String::from_str("DESK"),
            start: String::from_str("08:00"),
            end: String::from_str("17:00"),
            booking_length_days: 0,
        },
    )
}

/// The booking command's decision: resolve the configured floor and build
/// the request. What is sent, and how the answer is read, stays with the
/// caller.
pub fn command(
    seat: Option<i32>,
    date: Option<String>,
    period: Option<DateRange>,
    config: &Configuration,
) -> (r: Result<BookingRequest, BuildError>)
    requires
        period matches Some(dr) ==> dr.wf(),
    ensures
        r is Ok <==> !(date is Some && period is Some) && config.resolved_floor_id() is Some,
        match r {
            Ok(req) => {
                &&& req.floorplan_id == config.resolved_floor_id()
                &&& req.preferred_seat_id == (match seat {
                    Some(s) => s,
                    None => DEFAULT_PREFERRED_SEAT_ID,
                })
                &&& req.fixed_fields()
                &&& string_views(req.days@) == requested_days(date, period)
            },
            Err(e) => match e {
                BuildError::MutuallyExclusiveDates => date is Some && period is Some,
                BuildError::MissingFloor => config.resolved_floor_id() is None && !(date is Some
                    && period is Some),
            },
        },
{
    let floor_id = match config.floor() {
        Some(f) => Some(f.api_values()),
        None => None,
    };
    build_booking_request(seat, floor_id, date, period)
}

} // verus!
