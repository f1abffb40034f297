//! The reminder scheduler's tick: scan every trip, and for each one
//! inside the look-ahead window, still unmarked and actually holding
//! reservations, raise one periodic reminder and set the durable
//! `notified` checkpoint.  A windowed trip with no reservations stays
//! unmarked, so a later tick — after someone books — can still remind
//! before departure.  The flag is the sole checkpoint: a crashed tick
//! loses nothing but in-flight notifications, and the next tick simply
//! re-runs the scan.
use vstd::prelude::*;

use vstd::pervasive::VecAdditionalExecFns;

use crate::store::{holders_in, Store};
use crate::types::{check_in_window, in_window, Event, Notification, Reservation, Trip};

verus! {

/// A trip is due a periodic reminder: departure inside the window,
/// not yet notified, and at least one reservation to address.
pub open spec fn due(t: Trip, rs: Seq<Reservation>, now: i64) -> bool {
    in_window(t.departure_time, now) && !t.notified && holders_in(rs, t.trip_id).len() > 0
}

/// What one tick makes of a trip: due trips get their checkpoint set,
/// every other trip is untouched.
pub open spec fn mark_due(t: Trip, rs: Seq<Reservation>, now: i64) -> Trip {
    if due(t, rs, now) {
        Trip { notified: true, ..t }
    } else {
        t
    }
}

/// The identities of the due trips, in trip-table order: exactly the
/// trips one tick reminds.
pub open spec fn due_ids(ts: Seq<Trip>, rs: Seq<Reservation>, now: i64) -> Seq<u64>
    decreases ts.len(),
{
    if ts.len() == 0 {
        Seq::empty()
    } else {
        let rest = due_ids(ts.drop_last(), rs, now);
        if due(ts.last(), rs, now) {
            rest.push(ts.last().trip_id)
        } else {
            rest
        }
    }
}

/// Everything `scheduler_tick` promises: only `notified` flags move,
/// exactly the due trips are marked, and the returned notifications
/// are the due trips' reminders in order, each addressed to all of
/// that trip's holders.
pub open spec fn tick_post(pre: Store, post: Store, now: i64, notices: Seq<Notification>) -> bool {
    &&& post.overlays@ == pre.overlays@
    &&& post.reservations@ == pre.reservations@
    &&& post.maintenance_on == pre.maintenance_on
    &&& post.next_reservation_id == pre.next_reservation_id
    &&& post.trips@.len() == pre.trips@.len()
    &&& forall|i: int|
        0 <= i < pre.trips@.len() ==> #[trigger] post.trips@[i] == mark_due(
            pre.trips@[i],
            pre.reservations@,
            now,
        )
    &&& notices.len() == due_ids(pre.trips@, pre.reservations@, now).len()
    &&& forall|j: int|
        0 <= j < notices.len() ==> {
            let tid = due_ids(pre.trips@, pre.reservations@, now)[j];
            &&& (#[trigger] notices[j]).event == (Event::PeriodicReminder { trip_id: tid })
            &&& notices[j].recipients@ == holders_in(pre.reservations@, tid)
        }
}

impl Store {
    /// One pass of the periodic reminder timer over the trip table.
    /// The caller hands each returned notification to the external
    /// sink; the checkpoint is already set, so re-running the tick —
    /// after a crash or on the next interval — raises no second
    /// reminder for these trips.
    pub fn scheduler_tick(&mut self, now: i64) -> (r: Vec<Notification>)
        requires
            old(self).wf(),
        ensures
            final(self).wf(),
            tick_post(*old(self), *final(self), now, r@),
    {
        let ghost pre = *self;
        let mut notices: Vec<Notification> = Vec::new();
        let n = self.trips.len();
        let mut i: usize = 0;
        while i < n
            invariant
                0 <= i <= n,
                n == pre.trips@.len(),
                self.trips@.len() == pre.trips@.len(),
                self.overlays@ == pre.overlays@,
                self.reservations@ == pre.reservations@,
                self.maintenance_on == pre.maintenance_on,
                self.next_reservation_id == pre.next_reservation_id,
                forall|k: int|
                    0 <= k < i ==> #[trigger] self.trips@[k] == mark_due(
                        pre.trips@[k],
                        pre.reservations@,
                        now,
                    ),
                forall|k: int| i <= k < n ==> #[trigger] self.trips@[k] == pre.trips@[k],
                notices@.len() == due_ids(
                    pre.trips@.subrange(0, i as int),
                    pre.reservations@,
                    now,
                ).len(),
                forall|j: int|
                    0 <= j < notices@.len() ==> {
                        let tid = due_ids(pre.trips@.subrange(0, i as int), pre.reservations@, now)[j];
                        &&& (#[trigger] notices@[j]).event == (Event::PeriodicReminder {
                            trip_id: tid,
                        })
                        &&& notices@[j].recipients@ == holders_in(pre.reservations@, tid)
                    },
            decreases n - i,
        {
            proof {
                assert(pre.trips@.subrange(0, i + 1).drop_last() =~= pre.trips@.subrange(
                    0,
                    i as int,
                ));
                assert(pre.trips@.subrange(0, i + 1).last() == pre.trips@[i as int]);
            }
            let t = self.trips[i];
            let mut marked = false;
            if check_in_window(t.departure_time, now) && !t.notified {
                let recipients = self.holders_for(t.trip_id);
                if recipients.len() > 0 {
                    notices.push(
                        Notification {
                            recipients,
                            event: Event::PeriodicReminder { trip_id: t.trip_id },
                        },
                    );
                    let mut updated = t;
                    updated.notified = true;
                    self.trips.set(i, updated);
                    marked = true;
                }
            }
            proof {
                assert(t == pre.trips@[i as int]);
                if !marked {
                    assert(!due(pre.trips@[i as int], pre.reservations@, now));
                } else {
                    assert(due(pre.trips@[i as int], pre.reservations@, now));
                }
            }
            i += 1;
        }
        proof {
            assert(pre.trips@.subrange(0, n as int) =~= pre.trips@);
            Store::lemma_wf_after_trip_update(pre, *self);
        }
        notices
    }
}

} // verus!
