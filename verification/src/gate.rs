//! The maintenance gate: one global boolean, read at the very start
//! of every booking and written only by an administrator.  It does
//! not affect cancellations, status changes or reads.
use vstd::prelude::*;

use crate::store::Store;
use crate::types::ApiError;

verus! {

/// Everything `set_maintenance_mode` promises: an administrator flips
/// exactly the flag, anyone else changes nothing and is refused.
pub open spec fn set_maintenance_post(
    pre: Store,
    post: Store,
    on: bool,
    actor_is_admin: bool,
    r: Result<(), ApiError>,
) -> bool {
    if actor_is_admin {
        &&& r == Ok::<(), ApiError>(())
        &&& post.maintenance_on == on
        &&& post.trips@ == pre.trips@
        &&& post.overlays@ == pre.overlays@
        &&& post.reservations@ == pre.reservations@
        &&& post.next_reservation_id == pre.next_reservation_id
    } else {
        r == Err::<(), ApiError>(ApiError::Forbidden) && post == pre
    }
}

impl Store {
    /// Whether new bookings are currently blocked.
    pub fn maintenance_mode(&self) -> (on: bool)
        ensures
            on == self.maintenance_on,
    {
        self.maintenance_on
    }

    /// Turn the maintenance gate on or off; administrators only.
    pub fn set_maintenance_mode(&mut self, on: bool, actor_is_admin: bool) -> (r: Result<
        (),
        ApiError,
    >)
        requires
            old(self).wf(),
        ensures
            final(self).wf(),
            set_maintenance_post(*old(self), *final(self), on, actor_is_admin, r),
    {
        if !actor_is_admin {
            return Err(ApiError::Forbidden);
        }
        let ghost pre = *self;
        self.maintenance_on = on;
        proof {
            let post = *self;
            assert forall|k: int| 0 <= k < post.reservations@.len() implies {
                let r = #[trigger] post.reservations@[k];
                &&& post.has_trip(r.trip_id)
                &&& 1 <= r.seat_number <= post.trip_of(r.trip_id).capacity
                &&& r.reservation_id < post.next_reservation_id
                &&& !(post.status_of(r.trip_id) is Cancelled)
            } by {
                let r = post.reservations@[k];
                Store::lemma_trip_lookup_agrees(pre, post, r.trip_id);
                Store::lemma_overlay_lookup_agrees(pre, post, r.trip_id);
            }
            assert forall|k: int| 0 <= k < post.overlays@.len() implies post.has_trip(
                (#[trigger] post.overlays@[k]).trip_id,
            ) && !(post.overlays@[k].kind is Scheduled) by {
                Store::lemma_trip_lookup_agrees(pre, post, post.overlays@[k].trip_id);
            }
        }
        Ok(())
    }
}

} // verus!
