//! Plain data carried through the engine: trips, reservations, the
//! operational-status overlay, dispatchable events and the error
//! taxonomy shared by every operation.
use vstd::prelude::*;

verus! {

/// Seconds in the reminder look-ahead window: a trip whose departure
/// lies strictly in the future and at most this far away is "about to
/// depart", both for the periodic reminder scan and for the immediate
/// reminder sent on a last-minute booking.
pub const REMINDER_WINDOW_SECS: i64 = 7200;

/// One scheduled bus run.  Route, vehicle and times are opaque payload
/// for the engine; it reads only `trip_id`, `departure_time` (seconds
/// since an epoch), the seat `capacity` derived from the vehicle type,
/// and the `notified` reminder checkpoint.
#[derive(Clone, Copy, PartialEq, Eq, Structural, Debug)]
pub struct Trip {
    pub trip_id: u64,
    pub route_id: u64,
    pub vehicle_id: u64,
    /// Scheduled departure, in seconds.
    pub departure_time: i64,
    /// Scheduled arrival, in seconds.
    pub arrival_time: i64,
    /// Total seats of the assigned vehicle; read-only here.
    pub capacity: u32,
    /// Whether a periodic departure reminder has been delivered for
    /// this trip in the current window.
    pub notified: bool,
}

/// A booked seat.  `seat_number` is assigned at creation from a
/// strictly increasing per-trip counter and never reassigned.
#[derive(Clone, Copy, PartialEq, Eq, Structural, Debug)]
pub struct Reservation {
    pub reservation_id: u64,
    pub trip_id: u64,
    pub user_id: u64,
    pub seat_number: u32,
}

/// A trip's operational status.  `Scheduled` is the nominal state and
/// is encoded in storage by the *absence* of an overlay row.
#[derive(Clone, Copy, PartialEq, Eq, Structural, Debug)]
pub enum StatusKind {
    Scheduled,
    Delayed,
    Cancelled,
}

/// The optional overlay row recording a trip's non-nominal status.
/// Its presence is the sole source of truth for "delayed or
/// cancelled"; deleting it returns the trip to `Scheduled`, so `kind`
/// here is never `Scheduled`.
#[derive(Clone, PartialEq, Eq, Debug)]
pub struct Overlay {
    pub trip_id: u64,
    pub kind: StatusKind,
    /// Free-text explanation shown to travelers.
    pub description: Option<String>,
}

/// The errors every engine operation can surface to its caller.
/// `Internal` stands for a storage-level failure; in this in-memory
/// model it marks the one storage constraint the engine itself cannot
/// rule out (an overlay write referencing an absent trip).
#[derive(Clone, Copy, PartialEq, Eq, Structural, Debug)]
pub enum ApiError {
    /// Referenced entity absent, or the caller may not see it.
    NotFound,
    /// The caller lacks the administrative role.
    Forbidden,
    /// Duplicate booking for the same trip and user.
    Conflict,
    /// The trip's seat limit is reached.
    CapacityExceeded,
    /// Maintenance mode is on, or the trip is cancelled.
    ServiceUnavailable,
    /// Unrecognized status value.
    BadRequest,
    /// Storage or transport failure.
    Internal,
}

/// What a notification is about.  Message rendering is a collaborator
/// concern; the engine only resolves recipients and decides whether a
/// dispatch happens at all.
#[derive(Clone, PartialEq, Eq, Debug)]
pub enum Event {
    /// A trip was set to `Delayed` or `Cancelled`.
    StatusChanged { trip_id: u64, status: StatusKind, description: Option<String> },
    /// The periodic scheduler found the trip about to depart.
    PeriodicReminder { trip_id: u64 },
    /// A single traveler booked inside the reminder window.
    PersonalReminder { trip_id: u64, user_id: u64 },
}

/// A resolved dispatch: the users to reach and the event to tell them
/// about.  Handed to the external message sink by the caller;
/// delivery failures never flow back into the engine.
#[derive(Clone, PartialEq, Eq, Debug)]
pub struct Notification {
    pub recipients: Vec<u64>,
    pub event: Event,
}

/// A successful booking: the stored reservation, and the immediate
/// personal reminder to dispatch when the booking was last-minute.
#[derive(Clone, PartialEq, Eq, Debug)]
pub struct Booking {
    pub reservation: Reservation,
    pub notice: Option<Notification>,
}

/// Departure lies strictly in the future and within the reminder
/// window.
pub open spec fn in_window(departure_time: i64, now: i64) -> bool {
    now < departure_time && departure_time - now <= REMINDER_WINDOW_SECS
}

/// Runtime form of [`in_window`]; widens to avoid overflow on the
/// subtraction.
pub fn check_in_window(departure_time: i64, now: i64) -> (r: bool)
    ensures
        r == in_window(departure_time, now),
{
    now < departure_time && (departure_time as i128) - (now as i128) <= REMINDER_WINDOW_SECS as i128
}

} // verus!
