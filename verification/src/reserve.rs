//! The seat allocator and the reservation lifecycle: booking a seat
//! against capacity, a traveler cancelling their own reservation, and
//! the administrative force-delete.
//!
//! Each operation is one serialized transition on the [`Store`]; two
//! concurrent booking requests are modeled as two transitions in
//! either order, so the capacity bound holds under any interleaving.
use vstd::prelude::*;

use crate::filtering::lemma_filter_same_len_all_pass;
use crate::store::{max_seat_in, resv_in, Store};
use crate::types::{check_in_window, in_window, ApiError, Booking, Event, Notification,
    Reservation};

verus! {

/// The seat allocator's admission rule, over the values the gates
/// read: the maintenance flag, the trip's existence and status, the
/// largest seat handed out so far, the capacity, and whether this
/// user already booked.  Checked in exactly this order; the
/// trip-and-user uniqueness constraint is the final arbiter.
pub fn decide_booking(
    maintenance_on: bool,
    trip_exists: bool,
    cancelled: bool,
    max_seat: u32,
    capacity: u32,
    duplicate: bool,
) -> (r: Result<u32, ApiError>)
    ensures
        maintenance_on ==> r == Err::<u32, ApiError>(ApiError::ServiceUnavailable),
        !maintenance_on && !trip_exists ==> r == Err::<u32, ApiError>(ApiError::NotFound),
        !maintenance_on && trip_exists && cancelled ==> r == Err::<u32, ApiError>(
            ApiError::ServiceUnavailable,
        ),
        !maintenance_on && trip_exists && !cancelled && max_seat as nat + 1 > capacity as nat
            ==> r == Err::<u32, ApiError>(ApiError::CapacityExceeded),
        !maintenance_on && trip_exists && !cancelled && max_seat as nat + 1 <= capacity as nat
            && duplicate ==> r == Err::<u32, ApiError>(ApiError::Conflict),
        !maintenance_on && trip_exists && !cancelled && max_seat as nat + 1 <= capacity as nat
            && !duplicate ==> r == Ok::<u32, ApiError>((max_seat + 1) as u32),
{
    if maintenance_on {
        return Err(ApiError::ServiceUnavailable);
    }
    if !trip_exists {
        return Err(ApiError::NotFound);
    }
    if cancelled {
        return Err(ApiError::ServiceUnavailable);
    }
    let next: u64 = max_seat as u64 + 1;
    if next > capacity as u64 {
        return Err(ApiError::CapacityExceeded);
    }
    if duplicate {
        return Err(ApiError::Conflict);
    }
    Ok(next as u32)
}

/// Everything `create_reservation` promises, spelled out over the
/// store before and after the call.  The gates fire in the order the
/// booking path consults them: maintenance, trip existence, trip
/// status, capacity, duplicate booking; on success exactly one row is
/// appended, carrying the next seat of the trip's strictly increasing
/// counter, and a personal reminder is raised if and only if the
/// booking lands inside the reminder window.
pub open spec fn create_post(
    pre: Store,
    post: Store,
    trip_id: u64,
    user_id: u64,
    now: i64,
    r: Result<Booking, ApiError>,
) -> bool {
    if pre.maintenance_on {
        r == Err::<Booking, ApiError>(ApiError::ServiceUnavailable) && post == pre
    } else if !pre.has_trip(trip_id) {
        r == Err::<Booking, ApiError>(ApiError::NotFound) && post == pre
    } else if pre.status_of(trip_id) is Cancelled {
        r == Err::<Booking, ApiError>(ApiError::ServiceUnavailable) && post == pre
    } else if pre.next_seat(trip_id) > pre.trip_of(trip_id).capacity {
        r == Err::<Booking, ApiError>(ApiError::CapacityExceeded) && post == pre
    } else if pre.has_booking(trip_id, user_id) {
        r == Err::<Booking, ApiError>(ApiError::Conflict) && post == pre
    } else {
        let row = (Reservation {
            reservation_id: pre.next_reservation_id,
            trip_id: trip_id,
            user_id: user_id,
            seat_number: pre.next_seat(trip_id) as u32,
        });
        &&& match r {
            Ok(b) => {
                &&& b.reservation == row
                &&& if in_window(pre.trip_of(trip_id).departure_time, now) {
                    match b.notice {
                        Some(n) => n.recipients@ == seq![user_id] && n.event == (Event::PersonalReminder {
                            trip_id,
                            user_id,
                        }),
                        None => false,
                    }
                } else {
                    b.notice is None
                }
            },
            Err(_) => false,
        }
        &&& post.reservations@ == pre.reservations@.push(row)
        &&& post.trips@ == pre.trips@
        &&& post.overlays@ == pre.overlays@
        &&& post.maintenance_on == pre.maintenance_on
        &&& post.next_reservation_id == pre.next_reservation_id + 1
    }
}

/// A traveler's own cancellation keeps every row but the one carrying
/// both the reservation identity and the calling user.
pub open spec fn cancel_keeps(r: Reservation, reservation_id: u64, user_id: u64) -> bool {
    !(r.reservation_id == reservation_id && r.user_id == user_id)
}

/// Everything `cancel_reservation` promises: the row disappears
/// exactly when it exists *and* belongs to the caller; a wrong
/// identity and someone else's reservation are indistinguishable.
pub open spec fn cancel_post(
    pre: Store,
    post: Store,
    reservation_id: u64,
    user_id: u64,
    r: Result<(), ApiError>,
) -> bool {
    if exists|i: int|
        0 <= i < pre.reservations@.len() && !cancel_keeps(
            #[trigger] pre.reservations@[i],
            reservation_id,
            user_id,
        ) {
        &&& r == Ok::<(), ApiError>(())
        &&& post.reservations@ == pre.reservations@.filter(
            |x: Reservation| cancel_keeps(x, reservation_id, user_id),
        )
        &&& post.trips@ == pre.trips@
        &&& post.overlays@ == pre.overlays@
        &&& post.maintenance_on == pre.maintenance_on
        &&& post.next_reservation_id == pre.next_reservation_id
    } else {
        r == Err::<(), ApiError>(ApiError::NotFound) && post == pre
    }
}

/// Everything `force_delete_reservation` promises: the row with the
/// identity disappears whoever owns it, and only its absence is an
/// error.
pub open spec fn force_delete_post(
    pre: Store,
    post: Store,
    reservation_id: u64,
    r: Result<(), ApiError>,
) -> bool {
    if exists|i: int|
        0 <= i < pre.reservations@.len() && (#[trigger] pre.reservations@[i]).reservation_id
            == reservation_id {
        &&& r == Ok::<(), ApiError>(())
        &&& post.reservations@ == pre.reservations@.filter(
            |x: Reservation| x.reservation_id != reservation_id,
        )
        &&& post.trips@ == pre.trips@
        &&& post.overlays@ == pre.overlays@
        &&& post.maintenance_on == pre.maintenance_on
        &&& post.next_reservation_id == pre.next_reservation_id
    } else {
        r == Err::<(), ApiError>(ApiError::NotFound) && post == pre
    }
}

impl Store {
    /// Book a seat on a trip for a user.
    ///
    /// The maintenance gate is consulted first, then the trip's
    /// existence and status, then capacity, and last the one-booking-
    /// per-user rule.  On success the reservation carries the next
    /// seat number of the trip's strictly increasing counter, and
    /// when `now` already lies inside the reminder window the booking
    /// raises an immediate personal reminder for the caller to
    /// dispatch.
    pub fn create_reservation(&mut self, trip_id: u64, user_id: u64, now: i64) -> (r: Result<
        Booking,
        ApiError,
    >)
        requires
            old(self).wf(),
            old(self).next_reservation_id < u64::MAX,
        ensures
            final(self).wf(),
            create_post(*old(self), *final(self), trip_id, user_id, now, r),
    {
        let maintenance_on = self.maintenance_on;
        let trip_slot = self.find_trip(trip_id);
        let trip_exists = trip_slot.is_some();
        let status = self.current_status(trip_id);
        let cancelled = matches!(status, crate::types::StatusKind::Cancelled);
        let max_seat = self.max_seat_for(trip_id);
        let capacity = match trip_slot {
            Some(i) => {
                proof {
                    self.lemma_trip_index_is(i as int);
                }
                self.trips[i].capacity
            },
            None => 0,
        };
        let duplicate = self.user_has_booking(trip_id, user_id);
        let departure = match trip_slot {
            Some(i) => self.trips[i].departure_time,
            None => 0,
        };
        let seat = match decide_booking(
            maintenance_on,
            trip_exists,
            cancelled,
            max_seat,
            capacity,
            duplicate,
        ) {
            Ok(seat) => seat,
            Err(e) => {
                return Err(e);
            },
        };
        let row = Reservation {
            reservation_id: self.next_reservation_id,
            trip_id,
            user_id,
            seat_number: seat,
        };
        let ghost pre = *self;
        self.reservations.push(row);
        self.next_reservation_id = self.next_reservation_id + 1;
        proof {
            let post = *self;
            crate::store::lemma_resv_in_push(pre.reservations@, row, trip_id);
            lemma_wf_after_booking(pre, post, row);
        }
        let notice = if check_in_window(departure, now) {
            let mut recipients: Vec<u64> = Vec::new();
            recipients.push(user_id);
            proof {
                assert(recipients@ =~= seq![user_id]);
            }
            Some(Notification { recipients, event: Event::PersonalReminder { trip_id, user_id } })
        } else {
            None
        };
        Ok(Booking { reservation: row, notice })
    }

    /// Cancel the caller's own reservation.  A missing identity and a
    /// reservation owned by someone else both answer `NotFound`, by
    /// design: others' reservations cannot be probed, let alone
    /// removed.
    pub fn cancel_reservation(&mut self, reservation_id: u64, user_id: u64) -> (r: Result<
        (),
        ApiError,
    >)
        requires
            old(self).wf(),
        ensures
            final(self).wf(),
            cancel_post(*old(self), *final(self), reservation_id, user_id, r),
    {
        let ghost pred = |x: Reservation| cancel_keeps(x, reservation_id, user_id);
        let n = self.reservations.len();
        let mut kept: Vec<Reservation> = Vec::new();
        let mut i: usize = 0;
        while i < n
            invariant
                0 <= i <= n,
                n == self.reservations@.len(),
                kept@ == self.reservations@.subrange(0, i as int).filter(pred),
            decreases n - i,
        {
            let ghost rs = self.reservations@;
            proof {
                crate::filtering::lemma_filter_prefix_step(rs, i as int, pred);
            }
            let r = self.reservations[i];
            if !(r.reservation_id == reservation_id && r.user_id == user_id) {
                kept.push(r);
            }
            i += 1;
        }
        proof {
            assert(self.reservations@.subrange(0, n as int) =~= self.reservations@);
        }
        if kept.len() == self.reservations.len() {
            proof {
                lemma_filter_same_len_all_pass(self.reservations@, pred);
            }
            return Err(ApiError::NotFound);
        }
        let ghost pre = *self;
        self.reservations = kept;
        proof {
            Store::lemma_wf_after_resv_filter(pre, *self, pred);
            if !(exists|i: int|
                0 <= i < pre.reservations@.len() && !cancel_keeps(
                    #[trigger] pre.reservations@[i],
                    reservation_id,
                    user_id,
                )) {
                crate::filtering::lemma_filter_all_pass(pre.reservations@, pred);
                assert(false);
            }
        }
        Ok(())
    }

    /// Administrative removal of a reservation by identity alone.
    pub fn force_delete_reservation(&mut self, reservation_id: u64) -> (r: Result<(), ApiError>)
        requires
            old(self).wf(),
        ensures
            final(self).wf(),
            force_delete_post(*old(self), *final(self), reservation_id, r),
    {
        let ghost pred = |x: Reservation| x.reservation_id != reservation_id;
        let n = self.reservations.len();
        let mut kept: Vec<Reservation> = Vec::new();
        let mut i: usize = 0;
        while i < n
            invariant
                0 <= i <= n,
                n == self.reservations@.len(),
                kept@ == self.reservations@.subrange(0, i as int).filter(pred),
            decreases n - i,
        {
            let ghost rs = self.reservations@;
            proof {
                crate::filtering::lemma_filter_prefix_step(rs, i as int, pred);
            }
            let r = self.reservations[i];
            if r.reservation_id != reservation_id {
                kept.push(r);
            }
            i += 1;
        }
        proof {
            assert(self.reservations@.subrange(0, n as int) =~= self.reservations@);
        }
        if kept.len() == self.reservations.len() {
            proof {
                lemma_filter_same_len_all_pass(self.reservations@, pred);
            }
            return Err(ApiError::NotFound);
        }
        let ghost pre = *self;
        self.reservations = kept;
        proof {
            Store::lemma_wf_after_resv_filter(pre, *self, pred);
            if !(exists|i: int|
                0 <= i < pre.reservations@.len() && (#[trigger] pre.reservations@[i]).reservation_id
                    == reservation_id) {
                crate::filtering::lemma_filter_all_pass(pre.reservations@, pred);
                assert(false);
            }
        }
        Ok(())
    }
}

/// A fresh booking row keeps the store well-formed: its identity
/// comes off the fresh counter, its seat tops the trip's counter, and
/// all the gates were consulted.
proof fn lemma_wf_after_booking(pre: Store, post: Store, row: Reservation)
    requires
        pre.wf(),
        post.trips@ == pre.trips@,
        post.overlays@ == pre.overlays@,
        post.reservations@ == pre.reservations@.push(row),
        post.next_reservation_id == pre.next_reservation_id + 1,
        row.reservation_id == pre.next_reservation_id,
        pre.has_trip(row.trip_id),
        !(pre.status_of(row.trip_id) is Cancelled),
        !pre.has_booking(row.trip_id, row.user_id),
        row.seat_number as nat == max_seat_in(pre.resv_for(row.trip_id)) + 1,
        row.seat_number <= pre.trip_of(row.trip_id).capacity,
    ensures
        post.wf(),
{
    let rs = pre.reservations@;
    let trip_id = row.trip_id;
    broadcast use vstd::seq_lib::group_filter_ensures;

    crate::store::lemma_max_seat_in(resv_in(rs, trip_id));
    assert forall|i: int, j: int| 0 <= i < j < post.reservations@.len() implies {
        let a = #[trigger] post.reservations@[i];
        let b = #[trigger] post.reservations@[j];
        &&& a.reservation_id != b.reservation_id
        &&& !(a.trip_id == b.trip_id && a.user_id == b.user_id)
        &&& (a.trip_id == b.trip_id ==> a.seat_number != b.seat_number)
    } by {
        let a = post.reservations@[i];
        let b = post.reservations@[j];
        assert(a == rs[i]);
        if j < rs.len() {
            assert(b == rs[j]);
        } else {
            assert(b == row);
            // the appended identity tops every stored one
            assert(rs[i].reservation_id < pre.next_reservation_id);
            if a.trip_id == trip_id {
                // a second row for the same user would have been a
                // duplicate booking
                if a.user_id == row.user_id {
                    assert(pre.has_booking(trip_id, row.user_id));
                }
                // the old row's seat is bounded by the trip's old
                // maximum, which the new seat exceeds
                assert(resv_in(rs, trip_id).contains(rs[i]));
                let k = choose|k: int|
                    0 <= k < resv_in(rs, trip_id).len() && resv_in(rs, trip_id)[k] == rs[i];
                assert(resv_in(rs, trip_id)[k].seat_number <= max_seat_in(resv_in(rs, trip_id)));
            }
        }
    }
    assert forall|k: int| 0 <= k < post.reservations@.len() implies {
        let r = #[trigger] post.reservations@[k];
        &&& post.has_trip(r.trip_id)
        &&& 1 <= r.seat_number <= post.trip_of(r.trip_id).capacity
        &&& r.reservation_id < post.next_reservation_id
        &&& !(post.status_of(r.trip_id) is Cancelled)
    } by {
        let r = post.reservations@[k];
        if k < rs.len() {
            assert(r == rs[k]);
            assert(pre.has_trip(r.trip_id));
        }
        Store::lemma_trip_lookup_agrees(pre, post, r.trip_id);
        Store::lemma_overlay_lookup_agrees(pre, post, r.trip_id);
    }
    assert forall|k: int| 0 <= k < post.overlays@.len() implies post.has_trip(
        (#[trigger] post.overlays@[k]).trip_id,
    ) && !(post.overlays@[k].kind is Scheduled) by {
        Store::lemma_trip_lookup_agrees(pre, post, post.overlays@[k].trip_id);
    }
}

} // verus!
