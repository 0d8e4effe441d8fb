//! Desk-booking core for the `hq` command-line tool.
//!
//! The library holds the logic of the Zynq booking client: calendar dates and
//! their `YYYY-MM-DD` text form, expansion of an inclusive date range into the
//! bookable weekdays it contains, assembly of a booking request from optional
//! inputs, and interpretation of the service's response. Everything around it
//! (configuration files, prompts, the HTTP exchange) stays outside.

pub mod book;
pub mod config;
pub mod date;
pub mod date_text;
pub mod period;
pub mod response;

pub use book::{build_booking_request, BookingRequest, BuildError, DEFAULT_PREFERRED_SEAT_ID};
pub use config::{Configuration, Floors};
pub use date::Date;
pub use date_text::{format_date, parse_date, DateParseError};
pub use period::{determine_period, expand_period, DateRange, RangeError};
pub use response::{interpret_response, ApiResponse, ApiResponseStatus, BookingOutcome};
