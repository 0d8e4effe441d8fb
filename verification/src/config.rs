//! The four bookable floors with their remote identifiers, and the stored
//! configuration that the booking command reads.

use vstd::prelude::*;
use vstd::string::StringExecFns;

verus! {

/// The four floors of the building. The remote API knows each by a fixed
/// numeric identifier.
#[derive(Clone, Copy, Debug, PartialEq, Eq, Structural)]
pub enum Floors {
    GroundFloor,
    FirstFloor,
    SecondFloor,
    ThirdFloor,
}

impl Floors {
    /// The numeric identifier the remote API uses for the floor.
    pub open spec fn api_value(self) -> i32 {
        match self {
            Floors::GroundFloor => 561,
            Floors::FirstFloor => 560,
            Floors::SecondFloor => 559,
            Floors::ThirdFloor => 558,
        }
    }

    /// The floor a numeric identifier stands for, where it stands for one.
    pub open spec fn floor_of_api_value(v: i32) -> Option<Floors> {
        if v == 561 {
            Some(Floors::GroundFloor)
        } else if v == 560 {
            Some(Floors::FirstFloor)
        } else if v == 559 {
            Some(Floors::SecondFloor)
        } else if v == 558 {
            Some(Floors::ThirdFloor)
        } else {
            None
        }
    }

    /// The floor's name as shown to the user.
    pub open spec fn name_text(self) -> Seq<char> {
        match self {
            Floors::GroundFloor => "Ground Floor"@,
            Floors::FirstFloor => "First Floor"@,
            Floors::SecondFloor => "Second Floor"@,
            Floors::ThirdFloor => "Third Floor"@,
        }
    }

    /// Executable counterpart of [`Self::api_value`].
    pub fn api_values(&self) -> (r: i32)
        ensures
            r == self.api_value(),
    {
        match self {
            Floors::GroundFloor => 561,
            Floors::FirstFloor => 560,
            Floors::SecondFloor => 559,
            Floors::ThirdFloor => 558,
        }
    }

    /// Decodes a numeric identifier. An unknown code is a decode error, not
    /// a floor.
    pub fn from_api_value(api_value: i32) -> (r: Option<Floors>)
        ensures
            r == Self::floor_of_api_value(api_value),
            r matches Some(f) ==> f.api_value() == api_value,
    {
        match api_value {
            561 => Some(Floors::GroundFloor),
            560 => Some(Floors::FirstFloor),
            559 => Some(Floors::SecondFloor),
            558 => Some(Floors::ThirdFloor),
            _ => None,
        }
    }

    /// The floor's name as shown to the user.
    pub fn name(&self) -> (r: String)
        ensures
            r@ == self.name_text(),
    {
        match self {
            Floors::GroundFloor => String::from_str("Ground Floor"),
            Floors::FirstFloor => String::from_str("First Floor"),
            Floors::SecondFloor => String::from_str("Second Floor"),
            Floors::ThirdFloor => String::from_str("Third Floor"),
        }
    }
}

/// The two directions of the floor table agree: every floor's identifier
/// decodes to that floor, and every identifier that decodes at all encodes
/// back to itself.
pub proof fn lemma_floor_codes_round_trip(f: Floors, v: i32)
    ensures
        Floors::floor_of_api_value(f.api_value()) == Some(f),
        Floors::floor_of_api_value(v) matches Some(g) ==> g.api_value() == v,
{
}

/// What the tool keeps between invocations: the session token, the preferred
/// seat, and the preferred floor's numeric identifier.
#[derive(Clone, Debug)]
pub struct Configuration {
    pub session_id: Option<String>,
    pub preferred_seat_id: Option<String>,
    pub preferred_floor_id: Option<i32>,
}

impl Configuration {
    /// The configured floor: the stored identifier decoded, where one is
    /// stored and names a floor.
    pub open spec fn spec_floor(self) -> Option<Floors> {
        match self.preferred_floor_id {
            Some(code) => Floors::floor_of_api_value(code),
            None => None,
        }
    }

    /// The stored floor identifier, kept only where it names a floor.
    pub open spec fn resolved_floor_id(self) -> Option<i32> {
        match self.spec_floor() {
            Some(f) => Some(f.api_value()),
            None => None,
        }
    }

    /// The configured preferred floor. A stored identifier that names no
    /// floor counts as not configured.
    pub fn floor(&self) -> (r: Option<Floors>)
        ensures
            r == self.spec_floor(),
    {
        match self.preferred_floor_id {
            Some(code) => Floors::from_api_value(code),
            None => None,
        }
    }
}

} // verus!
