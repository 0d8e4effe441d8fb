//! Interpretation of the booking service's decoded response as a success,
//! possibly with no newly booked days, or a descriptive failure.

use vstd::prelude::*;
use vstd::string::StringExecFns;

verus! {

/// The status field of a decoded response.
#[derive(Clone, Copy, Debug, PartialEq, Eq, Structural)]
pub enum ApiResponseStatus {
    Success,
    Failed,
}

/// A decoded response from the booking service, reduced to the fields the
/// outcome depends on.
#[derive(Clone, Debug, PartialEq)]
pub struct ApiResponse {
    pub status: ApiResponseStatus,
    pub reason: Option<String>,
    pub booked_days: Option<Vec<String>>,
}

/// What a booking attempt came to.
#[derive(Clone, Debug, PartialEq)]
pub enum BookingOutcome {
    /// The service accepted the request. The listed days were newly booked;
    /// the list may be empty, as when the booking already existed.
    Success { booked_days: Vec<String> },
    /// The service refused. The reason is the service's own text, or a
    /// stand-in where it gave none.
    Failure { reason: String },
}

/// The text reported when the service fails without giving a reason.
pub open spec fn no_reason_text() -> Seq<char> {
    "No error message was actually provided by the API"@
}

/// Classifies a decoded response: a failure keeps the service's reason or
/// falls back to a stand-in text, and a success keeps the booked days, an
/// absent list counting as none. Total over well-formed decoded input.
pub fn interpret_response(response: ApiResponse) -> (r: BookingOutcome)
    ensures
        match response.status {
            ApiResponseStatus::Failed => match response.reason {
                Some(reason) => r == (BookingOutcome::Failure { reason }),
                None => r matches BookingOutcome::Failure { reason } && reason@
                    == no_reason_text(),
            },
            ApiResponseStatus::Success => match response.booked_days {
                Some(days) => r == (BookingOutcome::Success { booked_days: days }),
                None => r matches BookingOutcome::Success { booked_days } && booked_days@
                    == Seq::<String>::empty(),
            },
        },
{
    match response.status {
        ApiResponseStatus::Failed => {
            let reason = match response.reason {
                Some(reason) => reason,
                None => String::from_str("No error message was actually provided by the API"),
            };
            BookingOutcome::Failure { reason }
        },
        ApiResponseStatus::Success => {
            let booked_days = match response.booked_days {
                Some(days) => days,
                None => Vec::new(),
            };
            BookingOutcome::Success { booked_days }
        },
    }
}

} // verus!
