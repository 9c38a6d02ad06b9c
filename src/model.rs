use vstd::prelude::*;

verus! {

/// A calendar day number: 0001-01-01 is day 0 (see `calendar::day_number`).
/// Check-out days are exclusive.
pub type Day = u32;

/// The largest nightly rate a spot may carry, in cents.
pub const MAX_NIGHTLY_PRICE: u64 = 1_000_000_000;

/// The kind of bookable unit.
#[derive(Clone, Copy, Debug, PartialEq, Eq, Structural)]
pub enum SpotType {
    Tent,
    Rv,
    Cabin,
}

/// Lifecycle state of a reservation.
#[derive(Clone, Copy, Debug, PartialEq, Eq, Structural)]
pub enum Status {
    Hold,
    Confirmed,
    CheckedIn,
    CheckedOut,
    Cancelled,
}

/// Every way an engine operation can be refused.
#[derive(Clone, Copy, Debug, PartialEq, Eq, Structural)]
pub enum EngineError {
    /// A referenced spot, customer or reservation does not exist.
    NotFound,
    /// The check-in day is not strictly before the check-out day.
    InvalidRange,
    /// The spot is deactivated and takes no new bookings.
    SpotInactive,
    /// A blocking reservation already covers part of the range.
    Conflict,
    /// The status change is not an edge of the lifecycle.
    InvalidTransition,
    /// The operation is not permitted in the reservation's current status.
    InvalidState,
    /// Arrival or departure was attempted before the check-in day.
    TooEarly,
    /// A booking needs at least one adult.
    InvalidGuests,
    /// A spot needs a capacity of at least one and a bounded nightly price.
    InvalidSpot,
    /// A note needs non-empty text.
    EmptyNote,
    /// Another customer already uses this email address.
    DuplicateEmail,
    /// The record is still referenced by a reservation.
    InUse,
}

/// Statuses that occupy a spot for their date range.
pub open spec fn blocking(s: Status) -> bool {
    s is Hold || s is Confirmed || s is CheckedIn
}

/// Statuses with no outgoing transition.
pub open spec fn terminal(s: Status) -> bool {
    s is CheckedOut || s is Cancelled
}

/// The edges of the reservation lifecycle.
pub open spec fn transition_allowed(from: Status, to: Status) -> bool {
    match (from, to) {
        (Status::Hold, Status::Confirmed) => true,
        (Status::Hold, Status::Cancelled) => true,
        (Status::Confirmed, Status::CheckedIn) => true,
        (Status::Confirmed, Status::Cancelled) => true,
        (Status::CheckedIn, Status::CheckedOut) => true,
        _ => false,
    }
}

/// Two half-open day ranges `[a1, b1)` and `[a2, b2)` share at least one day.
pub open spec fn ranges_overlap(a1: int, b1: int, a2: int, b2: int) -> bool {
    a1 < b2 && a2 < b1
}

impl Status {
    pub fn is_blocking(&self) -> (r: bool)
        ensures
            r == blocking(*self),
    {
        match self {
            Status::Hold | Status::Confirmed | Status::CheckedIn => true,
            _ => false,
        }
    }

    pub fn is_terminal(&self) -> (r: bool)
        ensures
            r == terminal(*self),
    {
        match self {
            Status::CheckedOut | Status::Cancelled => true,
            _ => false,
        }
    }

    /// Whether the lifecycle has an edge from `self` to `to`.
    pub fn can_transition_to(&self, to: Status) -> (r: bool)
        ensures
            r == transition_allowed(*self, to),
    {
        match (*self, to) {
            (Status::Hold, Status::Confirmed) => true,
            (Status::Hold, Status::Cancelled) => true,
            (Status::Confirmed, Status::CheckedIn) => true,
            (Status::Confirmed, Status::Cancelled) => true,
            (Status::CheckedIn, Status::CheckedOut) => true,
            _ => false,
        }
    }
}

/// Executable overlap test on half-open day ranges.
pub fn overlaps(a1: Day, b1: Day, a2: Day, b2: Day) -> (r: bool)
    ensures
        r == ranges_overlap(a1 as int, b1 as int, a2 as int, b2 as int),
{
    a1 < b2 && a2 < b1
}

/// A registered customer.
pub struct Customer {
    pub id: u64,
    pub first_name: String,
    pub last_name: String,
    pub email: String,
    pub phone: String,
    pub city: Option<String>,
    pub province: Option<String>,
}

/// A bookable physical unit. Prices are in cents.
pub struct Spot {
    pub id: u64,
    pub code: String,
    pub name: String,
    pub kind: SpotType,
    pub capacity: u32,
    pub price_per_night: u64,
    pub has_electricity: bool,
    pub has_water: bool,
    pub has_sewer: bool,
    pub size: u32,
    pub is_active: bool,
    pub description: String,
    pub length_ft: Option<u32>,
    pub width_ft: Option<u32>,
    pub sun_percentage: Option<u32>,
    pub ground_type: Option<String>,
    pub amperage: Option<u32>,
    pub notes: Option<String>,
}

impl Spot {
    /// The spot's own invariant: room for someone, and a bounded rate.
    pub open spec fn valid(&self) -> bool {
        self.capacity >= 1 && self.price_per_night <= MAX_NIGHTLY_PRICE
    }

    /// An active spot with no amenities and no physical details recorded.
    pub fn new(code: String, name: String, kind: SpotType, capacity: u32, price_per_night: u64) -> (r: Spot)
        ensures
            r.code == code,
            r.name == name,
            r.kind == kind,
            r.capacity == capacity,
            r.price_per_night == price_per_night,
            r.id == 0,
            r.size == 1,
            r.is_active,
            !r.has_electricity && !r.has_water && !r.has_sewer,
            r.description@.len() == 0,
            r.length_ft is None && r.width_ft is None && r.sun_percentage is None,
            r.ground_type is None && r.amperage is None && r.notes is None,
    {
        Spot {
            id: 0,
            code,
            name,
            kind,
            capacity,
            price_per_night,
            has_electricity: false,
            has_water: false,
            has_sewer: false,
            size: 1,
            is_active: true,
            description: String::new(),
            length_ft: None,
            width_ft: None,
            sun_percentage: None,
            ground_type: None,
            amperage: None,
            notes: None,
        }
    }
}

/// A booking of one spot by one customer over `[check_in, check_out)`.
#[derive(Clone, Copy, Debug, PartialEq, Eq, Structural)]
pub struct Reservation {
    pub id: u64,
    pub spot_id: u64,
    pub customer_id: u64,
    pub check_in: Day,
    pub check_out: Day,
    pub status: Status,
    pub total_price: u64,
    pub adults: u32,
    pub children: u32,
}

/// An entry of a reservation's audit trail.
pub struct Note {
    pub id: u64,
    pub reservation_id: u64,
    pub text: String,
    pub author: String,
    pub created_at: String,
}

impl Note {
    /// A field-for-field copy.
    pub fn duplicate(&self) -> (r: Note)
        ensures
            r == *self,
    {
        Note {
            id: self.id,
            reservation_id: self.reservation_id,
            text: self.text.clone(),
            author: self.author.clone(),
            created_at: self.created_at.clone(),
        }
    }
}

} // verus!
