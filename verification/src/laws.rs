//! The engine's guarantees, stated once over whole transitions rather
//! than per operation: capacity safety and exact sequential filling,
//! duplicate-booking rejection, the cancellation cascade, idempotent
//! status reset, at-most-once and deferred reminders, ownership-scoped
//! cancellation, and the maintenance gate.  Each law quantifies over
//! every store and transition its operation's contract admits.
use vstd::prelude::*;

use crate::reserve::{cancel_keeps, cancel_post, create_post};
use crate::scheduler::{due, due_ids, tick_post};
use crate::status::{set_status_post, spec_parse_status, spec_status_label};
use crate::store::{holders_in, max_seat_in, Store};
use crate::types::{ApiError, Booking, Event, Notification, Reservation, StatusKind, Trip,
    in_window};

verus! {

/// The seats currently allocated on a trip, as mathematical integers.
pub open spec fn seat_values(s: Store, trip_id: u64) -> Seq<int> {
    s.resv_for(trip_id).map_values(|r: Reservation| r.seat_number as int)
}

/// The trip's seats are exactly `{1..k}`: the shape sequential
/// allocation produces when nobody has cancelled.
pub open spec fn seats_filled_to(s: Store, trip_id: u64, k: nat) -> bool {
    seat_values(s, trip_id).to_set() == vstd::set_lib::set_int_range(1, k as int + 1)
}

/// Capacity safety: a well-formed store never holds more reservations
/// for a trip than the trip has seats — under any interleaving, since
/// every operation preserves well-formedness.
pub proof fn law_capacity_never_exceeded(s: Store, trip_id: u64)
    requires
        s.wf(),
        s.has_trip(trip_id),
    ensures
        s.resv_for(trip_id).len() <= s.trip_of(trip_id).capacity,
{
    let rs = s.reservations@;
    let pred = |r: Reservation| r.trip_id == trip_id;
    let rows = s.resv_for(trip_id);
    let cap = s.trip_of(trip_id).capacity as int;
    broadcast use vstd::seq_lib::group_filter_ensures;
    broadcast use vstd::seq_lib::seq_to_set_is_finite;

    crate::filtering::lemma_filter_elements_in(rs, pred);
    crate::filtering::lemma_filter_preserves_pairwise(
        rs,
        pred,
        |a: Reservation, b: Reservation| a.trip_id == b.trip_id ==> a.seat_number != b.seat_number,
    );
    let seats = seat_values(s, trip_id);
    assert forall|i: int, j: int| 0 <= i < j < seats.len() implies seats[i] != seats[j] by {
        let p = |a: Reservation, b: Reservation| a.trip_id == b.trip_id ==> a.seat_number
            != b.seat_number;
        assert(p(rows[i], rows[j]));
        assert(rows[i].trip_id == trip_id);
        assert(rows[j].trip_id == trip_id);
    }
    assert(seats.no_duplicates());
    seats.unique_seq_to_set();
    assert forall|i: int| 0 <= i < seats.len() implies 1 <= #[trigger] seats[i] <= cap by {
        let m = choose|m: int| 0 <= m < rs.len() && rs[m] == rows[i];
        assert(1 <= rs[m].seat_number <= s.trip_of(rs[m].trip_id).capacity);
        assert(rows[i].trip_id == trip_id);
    }
    let range = vstd::set_lib::set_int_range(1, cap + 1);
    vstd::set_lib::lemma_int_range(1, cap + 1);
    assert forall|x: int| seats.to_set().contains(x) implies range.contains(x) by {
        let i = choose|i: int| 0 <= i < seats.len() && seats[i] == x;
    }
    assert(seats.to_set().subset_of(range));
    vstd::set_lib::lemma_len_subset(seats.to_set(), range);
}

/// The largest allocated seat of a trip whose seats are exactly
/// `{1..k}` is `k` itself.
proof fn lemma_max_of_filled(s: Store, trip_id: u64, k: nat)
    requires
        seats_filled_to(s, trip_id, k),
    ensures
        max_seat_in(s.resv_for(trip_id)) == k,
{
    let rows = s.resv_for(trip_id);
    let seats = seat_values(s, trip_id);
    let range = vstd::set_lib::set_int_range(1, k as int + 1);
    crate::store::lemma_max_seat_in(rows);
    if k == 0 {
        if rows.len() > 0 {
            assert(seats.to_set().contains(seats[0]));
        }
        assert(rows.len() == 0);
    } else {
        // some row carries seat k, so the maximum is at least k
        assert(range.contains(k as int));
        assert(seats.to_set().contains(k as int));
        let i = choose|i: int| 0 <= i < seats.len() && seats[i] == k as int;
        assert(rows[i].seat_number == k);
        assert(max_seat_in(rows) >= k);
        // the maximum is attained, and every seat lies in {1..k}
        let m = choose|m: int|
            0 <= m < rows.len() && (#[trigger] rows[m]).seat_number == max_seat_in(rows);
        assert(seats.to_set().contains(seats[m]));
        assert(range.contains(rows[m].seat_number as int));
        assert(max_seat_in(rows) <= k);
    }
}

/// Exact sequential filling: on a trip whose seats are exactly
/// `{1..k}`, with every gate open, the next booking takes seat `k+1`
/// while seats remain, and is refused as `CapacityExceeded` exactly
/// when the trip is full.  Applied `C` times from the empty trip this
/// yields seats `{1..C}` and only `CapacityExceeded` afterwards,
/// however the requests interleave, since every transition is
/// serialized.
pub proof fn law_capacity_exact_fill(
    pre: Store,
    post: Store,
    trip_id: u64,
    user_id: u64,
    now: i64,
    k: nat,
    r: Result<Booking, ApiError>,
)
    requires
        pre.wf(),
        !pre.maintenance_on,
        pre.has_trip(trip_id),
        !(pre.status_of(trip_id) is Cancelled),
        !pre.has_booking(trip_id, user_id),
        seats_filled_to(pre, trip_id, k),
        create_post(pre, post, trip_id, user_id, now, r),
    ensures
        k < pre.trip_of(trip_id).capacity ==> match r {
            Ok(b) => b.reservation.seat_number == k + 1 && seats_filled_to(
                post,
                trip_id,
                k + 1,
            ),
            Err(_) => false,
        },
        k >= pre.trip_of(trip_id).capacity ==> r == Err::<Booking, ApiError>(
            ApiError::CapacityExceeded,
        ) && post == pre,
{
    let cap = pre.trip_of(trip_id).capacity;
    lemma_max_of_filled(pre, trip_id, k);
    assert(pre.next_seat(trip_id) == k + 1);
    if k < cap {
        let row = (Reservation {
            reservation_id: pre.next_reservation_id,
            trip_id: trip_id,
            user_id: user_id,
            seat_number: (k + 1) as u32,
        });
        crate::store::lemma_resv_in_push(pre.reservations@, row, trip_id);
        assert(post.resv_for(trip_id) == pre.resv_for(trip_id).push(row));
        let pre_seats = seat_values(pre, trip_id);
        let post_seats = seat_values(post, trip_id);
        assert(post_seats =~= pre_seats.push(k as int + 1));
        assert(post_seats.to_set() =~= vstd::set_lib::set_int_range(1, k as int + 2)) by {
            assert forall|x: int| post_seats.to_set().contains(x) implies
                vstd::set_lib::set_int_range(1, k as int + 2).contains(x) by {
                let i = choose|i: int| 0 <= i < post_seats.len() && post_seats[i] == x;
                if i < pre_seats.len() {
                    assert(pre_seats.to_set().contains(x));
                }
            }
            assert forall|x: int| vstd::set_lib::set_int_range(1, k as int + 2).contains(x) implies
                post_seats.to_set().contains(x) by {
                if x <= k as int {
                    assert(pre_seats.to_set().contains(x));
                    let i = choose|i: int| 0 <= i < pre_seats.len() && pre_seats[i] == x;
                    assert(post_seats[i] == x);
                } else {
                    assert(post_seats[pre_seats.len() as int] == x);
                }
            }
        }
    }
}

/// Duplicate booking: when the caller already holds a seat on the
/// trip and every earlier gate passes, the request answers `Conflict`
/// and the store is unchanged — no second row appears.
pub proof fn law_duplicate_booking(
    pre: Store,
    post: Store,
    trip_id: u64,
    user_id: u64,
    now: i64,
    r: Result<Booking, ApiError>,
)
    requires
        !pre.maintenance_on,
        pre.has_trip(trip_id),
        !(pre.status_of(trip_id) is Cancelled),
        pre.next_seat(trip_id) <= pre.trip_of(trip_id).capacity,
        pre.has_booking(trip_id, user_id),
        create_post(pre, post, trip_id, user_id, now, r),
    ensures
        r == Err::<Booking, ApiError>(ApiError::Conflict),
        post == pre,
{
}

/// Cancellation cascade: after a trip is set to `Cancelled`, none of
/// its reservation rows remain, and a booking attempted on it answers
/// `ServiceUnavailable` — until an administrator resets the trip.
pub proof fn law_cancellation_cascade(
    pre: Store,
    mid: Store,
    post: Store,
    trip_id: u64,
    user_id: u64,
    description: Option<String>,
    now: i64,
    r1: Result<Option<Notification>, ApiError>,
    r2: Result<Booking, ApiError>,
)
    requires
        pre.wf(),
        pre.has_trip(trip_id),
        set_status_post(pre, mid, trip_id, StatusKind::Cancelled, description, true, r1),
        create_post(mid, post, trip_id, user_id, now, r2),
    ensures
        mid.resv_for(trip_id) == Seq::<Reservation>::empty(),
        r2 == Err::<Booking, ApiError>(ApiError::ServiceUnavailable),
        post == mid,
{
    broadcast use vstd::seq_lib::group_filter_ensures;

    let pred = |x: Reservation| x.trip_id != trip_id;
    let keep = |x: Reservation| x.trip_id == trip_id;
    assert forall|i: int| 0 <= i < mid.reservations@.len() implies !keep(
        #[trigger] mid.reservations@[i],
    ) by {
        assert(pred(pre.reservations@.filter(pred)[i]));
    }
    crate::filtering::lemma_filter_none_pass(mid.reservations@, keep);
    assert(mid.resv_for(trip_id) == Seq::<Reservation>::empty());
    if !mid.maintenance_on {
        Store::lemma_trip_lookup_agrees(pre, mid, trip_id);
        assert(mid.has_trip(trip_id));
        assert(mid.status_of(trip_id) is Cancelled);
    }
}

/// Status reset idempotence: resetting an already-scheduled trip
/// succeeds and changes nothing at all.
pub proof fn law_reset_idempotent(
    pre: Store,
    post: Store,
    trip_id: u64,
    description: Option<String>,
    r: Result<Option<Notification>, ApiError>,
)
    requires
        !pre.has_overlay(trip_id),
        set_status_post(pre, post, trip_id, StatusKind::Scheduled, description, true, r),
    ensures
        r == Ok::<Option<Notification>, ApiError>(None),
        post == pre,
{
}

/// Some trip in the table is due and carries this identity.
pub open spec fn id_is_due(ts: Seq<Trip>, rs: Seq<Reservation>, now: i64, tid: u64) -> bool {
    exists|i: int| 0 <= i < ts.len() && due(#[trigger] ts[i], rs, now) && ts[i].trip_id == tid
}

/// Every identity in `due_ids` belongs to a due trip, and every due
/// trip's identity is listed.
proof fn lemma_due_ids_members(ts: Seq<Trip>, rs: Seq<Reservation>, now: i64)
    ensures
        forall|j: int|
            0 <= j < due_ids(ts, rs, now).len() ==> id_is_due(
                ts,
                rs,
                now,
                #[trigger] due_ids(ts, rs, now)[j],
            ),
        forall|i: int|
            0 <= i < ts.len() && due(#[trigger] ts[i], rs, now) ==> due_ids(
                ts,
                rs,
                now,
            ).contains(ts[i].trip_id),
    decreases ts.len(),
{
    if ts.len() > 0 {
        lemma_due_ids_members(ts.drop_last(), rs, now);
        let rest = due_ids(ts.drop_last(), rs, now);
        assert forall|j: int| 0 <= j < due_ids(ts, rs, now).len() implies id_is_due(
            ts,
            rs,
            now,
            #[trigger] due_ids(ts, rs, now)[j],
        ) by {
            if j < rest.len() {
                assert(id_is_due(ts.drop_last(), rs, now, rest[j]));
                let i = choose|i: int|
                    0 <= i < ts.drop_last().len() && due(#[trigger] ts.drop_last()[i], rs, now)
                        && ts.drop_last()[i].trip_id == rest[j];
                assert(ts[i] == ts.drop_last()[i]);
                assert(due(ts[i], rs, now) && ts[i].trip_id == due_ids(ts, rs, now)[j]);
            } else {
                assert(due(ts.last(), rs, now));
                assert(ts[ts.len() - 1] == ts.last());
                assert(due(ts[ts.len() - 1], rs, now));
                assert(ts[ts.len() - 1].trip_id == due_ids(ts, rs, now)[j]);
            }
        }
        assert forall|i: int| 0 <= i < ts.len() && due(#[trigger] ts[i], rs, now) implies due_ids(
            ts,
            rs,
            now,
        ).contains(ts[i].trip_id) by {
            if i < ts.len() - 1 {
                assert(ts.drop_last()[i] == ts[i]);
                assert(rest.contains(ts[i].trip_id));
                let j = choose|j: int| 0 <= j < rest.len() && rest[j] == ts[i].trip_id;
                assert(due_ids(ts, rs, now)[j] == ts[i].trip_id);
            } else {
                assert(ts.last() == ts[i]);
                assert(due_ids(ts, rs, now).last() == ts[i].trip_id);
            }
        }
    }
}

/// With unique trip identities, `due_ids` lists no identity twice.
proof fn lemma_due_ids_distinct(ts: Seq<Trip>, rs: Seq<Reservation>, now: i64)
    requires
        forall|i: int, j: int|
            0 <= i < j < ts.len() ==> (#[trigger] ts[i]).trip_id != (#[trigger] ts[j]).trip_id,
    ensures
        forall|a: int, b: int|
            0 <= a < b < due_ids(ts, rs, now).len() ==> due_ids(ts, rs, now)[a] != due_ids(
                ts,
                rs,
                now,
            )[b],
    decreases ts.len(),
{
    if ts.len() > 0 {
        assert(forall|i: int| 0 <= i < ts.len() - 1 ==> ts.drop_last()[i] == #[trigger] ts[i]);
        lemma_due_ids_distinct(ts.drop_last(), rs, now);
        lemma_due_ids_members(ts.drop_last(), rs, now);
        let rest = due_ids(ts.drop_last(), rs, now);
        assert forall|a: int, b: int| 0 <= a < b < due_ids(ts, rs, now).len() implies due_ids(
            ts,
            rs,
            now,
        )[a] != due_ids(ts, rs, now)[b] by {
            if b < rest.len() {
                assert(rest[a] != rest[b]);
            } else {
                // the appended identity is the last trip's, which no
                // earlier due trip shares
                assert(due_ids(ts, rs, now)[b] == ts.last().trip_id);
                assert(id_is_due(ts.drop_last(), rs, now, rest[a]));
                let i = choose|i: int|
                    0 <= i < ts.drop_last().len() && due(#[trigger] ts.drop_last()[i], rs, now)
                        && ts.drop_last()[i].trip_id == rest[a];
                assert(ts[i].trip_id != ts[ts.len() - 1].trip_id);
            }
        }
    }
}

/// Reminder at-most-once: a trip inside the window holding at least
/// one reservation is marked `notified` by the tick that reminds it,
/// and whatever later tick runs — any time, any bookings in between —
/// raises no second reminder for it, as long as nothing cleared the
/// flag.
pub proof fn law_reminder_at_most_once(
    pre: Store,
    mid: Store,
    post: Store,
    i: int,
    now1: i64,
    now2: i64,
    notices1: Seq<Notification>,
    notices2: Seq<Notification>,
)
    requires
        pre.wf(),
        0 <= i < pre.trips@.len(),
        due(pre.trips@[i], pre.reservations@, now1),
        tick_post(pre, mid, now1, notices1),
        mid.wf(),
        tick_post(mid, post, now2, notices2),
    ensures
        mid.trips@[i].notified,
        // the first tick reminds the trip exactly once
        exists|j: int|
            0 <= j < notices1.len() && (#[trigger] notices1[j]).event == (Event::PeriodicReminder {
                trip_id: pre.trips@[i].trip_id,
            }) && notices1[j].recipients@ == holders_in(pre.reservations@, pre.trips@[i].trip_id),
        forall|j1: int, j2: int|
            0 <= j1 < j2 < notices1.len() && (#[trigger] notices1[j1]).event == (Event::PeriodicReminder {
                trip_id: pre.trips@[i].trip_id,
            }) ==> (#[trigger] notices1[j2]).event != (Event::PeriodicReminder {
                trip_id: pre.trips@[i].trip_id,
            }),
        // the second tick stays silent about it
        forall|j: int|
            0 <= j < notices2.len() ==> (#[trigger] notices2[j]).event != (Event::PeriodicReminder {
                trip_id: pre.trips@[i].trip_id,
            }),
{
    let tid = pre.trips@[i].trip_id;
    lemma_due_ids_members(pre.trips@, pre.reservations@, now1);
    lemma_due_ids_distinct(pre.trips@, pre.reservations@, now1);
    let ids1 = due_ids(pre.trips@, pre.reservations@, now1);
    assert(ids1.contains(tid));
    let j = choose|j: int| 0 <= j < ids1.len() && ids1[j] == tid;
    assert(notices1[j].event == (Event::PeriodicReminder { trip_id: tid }));
    assert(notices1[j].recipients@ == holders_in(pre.reservations@, tid));
    assert forall|j1: int, j2: int|
        0 <= j1 < j2 < notices1.len() && (#[trigger] notices1[j1]).event == (Event::PeriodicReminder {
            trip_id: tid,
        }) implies (#[trigger] notices1[j2]).event != (Event::PeriodicReminder {
        trip_id: tid,
    }) by {
        assert(ids1[j1] != ids1[j2]);
    }
    lemma_due_ids_members(mid.trips@, mid.reservations@, now2);
    assert forall|j2: int| 0 <= j2 < notices2.len() implies (#[trigger] notices2[j2]).event != (
    Event::PeriodicReminder { trip_id: tid }) by {
        let ids2 = due_ids(mid.trips@, mid.reservations@, now2);
        if notices2[j2].event == (Event::PeriodicReminder { trip_id: tid }) {
            assert(ids2[j2] == tid);
            assert(id_is_due(mid.trips@, mid.reservations@, now2, tid));
            let m = choose|m: int|
                0 <= m < mid.trips@.len() && due(#[trigger] mid.trips@[m], mid.reservations@, now2)
                    && mid.trips@[m].trip_id == ids2[j2];
            // unique identities force the due trip to be ours, which
            // is already marked
            if m != i {
                if m < i {
                    assert(pre.trips@[m].trip_id != pre.trips@[i].trip_id);
                } else {
                    assert(pre.trips@[i].trip_id != pre.trips@[m].trip_id);
                }
                assert(mid.trips@[m].trip_id == pre.trips@[m].trip_id);
            }
            assert(mid.trips@[i].notified);
        }
    }
}

/// Reminder deferral, first half: a windowed trip with no
/// reservations is left unmarked and unreminded by a tick.
pub proof fn law_reminder_deferral_empty(
    pre: Store,
    post: Store,
    i: int,
    now: i64,
    notices: Seq<Notification>,
)
    requires
        pre.wf(),
        0 <= i < pre.trips@.len(),
        holders_in(pre.reservations@, pre.trips@[i].trip_id).len() == 0,
        tick_post(pre, post, now, notices),
    ensures
        post.trips@[i] == pre.trips@[i],
        forall|j: int|
            0 <= j < notices.len() ==> (#[trigger] notices[j]).event != (Event::PeriodicReminder {
                trip_id: pre.trips@[i].trip_id,
            }),
{
    let tid = pre.trips@[i].trip_id;
    lemma_due_ids_members(pre.trips@, pre.reservations@, now);
    assert(!due(pre.trips@[i], pre.reservations@, now));
    assert forall|j: int| 0 <= j < notices.len() implies (#[trigger] notices[j]).event != (
    Event::PeriodicReminder { trip_id: tid }) by {
        let ids = due_ids(pre.trips@, pre.reservations@, now);
        if notices[j].event == (Event::PeriodicReminder { trip_id: tid }) {
            assert(ids[j] == tid);
            assert(id_is_due(pre.trips@, pre.reservations@, now, tid));
            let m = choose|m: int|
                0 <= m < pre.trips@.len() && due(#[trigger] pre.trips@[m], pre.reservations@, now)
                    && pre.trips@[m].trip_id == ids[j];
            if m != i {
                if m < i {
                    assert(pre.trips@[m].trip_id != pre.trips@[i].trip_id);
                } else {
                    assert(pre.trips@[i].trip_id != pre.trips@[m].trip_id);
                }
            }
        }
    }
}

/// Reminder deferral, second half: once a booking lands on the still-
/// unmarked windowed trip, the next tick reminds it and sets the
/// checkpoint.
pub proof fn law_reminder_deferral_books(
    pre: Store,
    mid: Store,
    post: Store,
    i: int,
    trip_id: u64,
    user_id: u64,
    now0: i64,
    now: i64,
    b: Booking,
    notices: Seq<Notification>,
)
    requires
        pre.wf(),
        0 <= i < pre.trips@.len(),
        pre.trips@[i].trip_id == trip_id,
        !pre.trips@[i].notified,
        in_window(pre.trips@[i].departure_time, now),
        create_post(pre, mid, trip_id, user_id, now0, Ok(b)),
        tick_post(mid, post, now, notices),
    ensures
        exists|j: int|
            0 <= j < notices.len() && (#[trigger] notices[j]).event == (Event::PeriodicReminder {
                trip_id,
            }),
        post.trips@[i].notified,
{
    let row = b.reservation;
    crate::store::lemma_resv_in_push(pre.reservations@, row, trip_id);
    assert(holders_in(mid.reservations@, trip_id) =~= holders_in(
        pre.reservations@,
        trip_id,
    ).push(user_id));
    assert(mid.trips@[i] == pre.trips@[i]);
    assert(due(mid.trips@[i], mid.reservations@, now));
    lemma_due_ids_members(mid.trips@, mid.reservations@, now);
    let ids = due_ids(mid.trips@, mid.reservations@, now);
    assert(ids.contains(trip_id));
    let j = choose|j: int| 0 <= j < ids.len() && ids[j] == trip_id;
    assert(notices[j].event == (Event::PeriodicReminder { trip_id }));
}

/// Ownership-scoped cancellation: cancelling someone else's
/// reservation answers `NotFound` and removes nothing.
pub proof fn law_ownership_scoped_cancellation(
    pre: Store,
    post: Store,
    i: int,
    caller: u64,
    r: Result<(), ApiError>,
)
    requires
        pre.wf(),
        0 <= i < pre.reservations@.len(),
        pre.reservations@[i].user_id != caller,
        cancel_post(pre, post, pre.reservations@[i].reservation_id, caller, r),
    ensures
        r == Err::<(), ApiError>(ApiError::NotFound),
        post == pre,
{
    let rid = pre.reservations@[i].reservation_id;
    assert forall|k: int| 0 <= k < pre.reservations@.len() implies cancel_keeps(
        #[trigger] pre.reservations@[k],
        rid,
        caller,
    ) by {
        if k != i {
            if k < i {
                assert(pre.reservations@[k].reservation_id
                    != pre.reservations@[i].reservation_id);
            } else {
                assert(pre.reservations@[i].reservation_id
                    != pre.reservations@[k].reservation_id);
            }
        }
    }
}

/// Maintenance gate: with maintenance mode on, a booking answers
/// `ServiceUnavailable` whatever the trip, its capacity or the caller.
pub proof fn law_maintenance_gate(
    pre: Store,
    post: Store,
    trip_id: u64,
    user_id: u64,
    now: i64,
    r: Result<Booking, ApiError>,
)
    requires
        pre.maintenance_on,
        create_post(pre, post, trip_id, user_id, now, r),
    ensures
        r == Err::<Booking, ApiError>(ApiError::ServiceUnavailable),
        post == pre,
{
}

/// The status words round-trip: parsing a status's label yields the
/// status, tying the sum type to its storage encoding.
pub proof fn law_status_label_roundtrip(k: StatusKind)
    ensures
        spec_parse_status(spec_status_label(k)) == Some(k),
{
    reveal_strlit("scheduled");
    reveal_strlit("delayed");
    reveal_strlit("cancelled");
    assert("scheduled"@.len() == 9);
    assert("delayed"@.len() == 7);
    assert("cancelled"@.len() == 9);
    assert("scheduled"@[0] == 's');
    assert("cancelled"@[0] == 'c');
}

} // verus!
