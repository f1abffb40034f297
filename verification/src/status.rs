//! The trip status machine: `Scheduled` (no overlay row) ⇄ `Delayed`
//! ⇄ `Cancelled`, every state reachable from every other.  Setting a
//! non-nominal status upserts the overlay row, notifies every current
//! reservation holder, and — for a cancellation only — then purges the
//! trip's reservations, with the notification built from the list as
//! it stood before the purge.  Resetting to `Scheduled` deletes the
//! overlay row and is an idempotent no-op on an already-nominal trip.
use vstd::prelude::*;

use vstd::pervasive::VecAdditionalExecFns;

use crate::dispatch::trip_event_post;
use crate::store::Store;
use crate::types::{ApiError, Event, Notification, Overlay, Reservation, StatusKind};

verus! {

/// The storage encoding of a status value, as the transport hands it
/// in.  Anything but the three known words is refused.
pub open spec fn spec_parse_status(s: Seq<char>) -> Option<StatusKind> {
    if s == "scheduled"@ {
        Some(StatusKind::Scheduled)
    } else if s == "delayed"@ {
        Some(StatusKind::Delayed)
    } else if s == "cancelled"@ {
        Some(StatusKind::Cancelled)
    } else {
        None
    }
}

/// Runtime form of [`spec_parse_status`].
pub fn parse_status(s: &str) -> (r: Option<StatusKind>)
    ensures
        r == spec_parse_status(s@),
{
    let v = s.to_owned();
    if v == "scheduled".to_owned() {
        Some(StatusKind::Scheduled)
    } else if v == "delayed".to_owned() {
        Some(StatusKind::Delayed)
    } else if v == "cancelled".to_owned() {
        Some(StatusKind::Cancelled)
    } else {
        None
    }
}

/// The word a status is written as, inverse of [`spec_parse_status`].
pub open spec fn spec_status_label(k: StatusKind) -> Seq<char> {
    match k {
        StatusKind::Scheduled => "scheduled"@,
        StatusKind::Delayed => "delayed"@,
        StatusKind::Cancelled => "cancelled"@,
    }
}

/// Runtime form of [`spec_status_label`].
pub fn status_label(k: StatusKind) -> (r: &'static str)
    ensures
        r@ == spec_status_label(k),
{
    match k {
        StatusKind::Scheduled => "scheduled",
        StatusKind::Delayed => "delayed",
        StatusKind::Cancelled => "cancelled",
    }
}

/// Everything `set_trip_status` promises.  An administrator resets a
/// trip to nominal by deleting its overlay row (a no-op when none
/// exists), or records a delay or cancellation by upserting it; a
/// cancellation additionally purges the trip's reservations, after
/// the notification was resolved against the pre-purge holder list.
/// A non-nominal write on an unknown trip surfaces the storage
/// referential failure.
pub open spec fn set_status_post(
    pre: Store,
    post: Store,
    trip_id: u64,
    target: StatusKind,
    description: Option<String>,
    actor_is_admin: bool,
    r: Result<Option<Notification>, ApiError>,
) -> bool {
    if !actor_is_admin {
        r == Err::<Option<Notification>, ApiError>(ApiError::Forbidden) && post == pre
    } else if target is Scheduled {
        &&& r == Ok::<Option<Notification>, ApiError>(None)
        &&& post.trips@ == pre.trips@
        &&& post.reservations@ == pre.reservations@
        &&& post.maintenance_on == pre.maintenance_on
        &&& post.next_reservation_id == pre.next_reservation_id
        &&& !post.has_overlay(trip_id)
        &&& post.status_of(trip_id) is Scheduled
        &&& forall|t: u64| t != trip_id ==> #[trigger] post.status_of(t) == pre.status_of(t)
        &&& (!pre.has_overlay(trip_id) ==> post == pre)
    } else if !pre.has_trip(trip_id) {
        r == Err::<Option<Notification>, ApiError>(ApiError::Internal) && post == pre
    } else {
        &&& post.trips@ == pre.trips@
        &&& post.maintenance_on == pre.maintenance_on
        &&& post.next_reservation_id == pre.next_reservation_id
        &&& post.has_overlay(trip_id)
        &&& post.overlay_of(trip_id) == (Overlay { trip_id, kind: target, description })
        &&& post.status_of(trip_id) == target
        &&& forall|t: u64| t != trip_id ==> #[trigger] post.status_of(t) == pre.status_of(t)
        &&& match r {
            Ok(n) => trip_event_post(
                pre,
                trip_id,
                Event::StatusChanged { trip_id, status: target, description },
                n,
            ),
            Err(_) => false,
        }
        &&& if target is Cancelled {
            post.reservations@ == pre.reservations@.filter(
                |x: Reservation| x.trip_id != trip_id,
            )
        } else {
            post.reservations@ == pre.reservations@
        }
    }
}

/// Everything `set_trip_status_str` promises: the privilege check
/// comes first, an unrecognized status word is refused, and a known
/// one behaves as [`set_status_post`] says.
pub open spec fn set_status_str_post(
    pre: Store,
    post: Store,
    trip_id: u64,
    status: Seq<char>,
    description: Option<String>,
    actor_is_admin: bool,
    r: Result<Option<Notification>, ApiError>,
) -> bool {
    if !actor_is_admin {
        r == Err::<Option<Notification>, ApiError>(ApiError::Forbidden) && post == pre
    } else {
        match spec_parse_status(status) {
            Some(k) => set_status_post(pre, post, trip_id, k, description, true, r),
            None => r == Err::<Option<Notification>, ApiError>(ApiError::BadRequest) && post
                == pre,
        }
    }
}

/// Appending an overlay row for a trip that had none: other trips
/// keep their status, the new row is the trip's row.
proof fn lemma_overlay_push_effects(pre: Store, post: Store, row: Overlay)
    requires
        pre.wf(),
        post.overlays@ == pre.overlays@.push(row),
        !pre.has_overlay(row.trip_id),
    ensures
        forall|i: int, j: int|
            0 <= i < j < post.overlays@.len() ==> (#[trigger] post.overlays@[i]).trip_id
                != (#[trigger] post.overlays@[j]).trip_id,
        forall|k: int|
            0 <= k < post.overlays@.len() ==> #[trigger] post.overlays@[k] == row || exists|m: int|
                0 <= m < pre.overlays@.len() && pre.overlays@[m] == post.overlays@[k],
        post.has_overlay(row.trip_id),
        post.overlay_of(row.trip_id) == row,
        forall|t: u64| t != row.trip_id ==> #[trigger] post.status_of(t) == pre.status_of(t),
{
    let n = pre.overlays@.len() as int;
    assert forall|i: int, j: int| 0 <= i < j < post.overlays@.len() implies (
    #[trigger] post.overlays@[i]).trip_id != (#[trigger] post.overlays@[j]).trip_id by {
        if j < n {
            assert(pre.overlays@[i].trip_id != pre.overlays@[j].trip_id);
        } else {
            assert(post.overlays@[j] == row);
            assert(post.overlays@[i] == pre.overlays@[i]);
            if pre.overlays@[i].trip_id == row.trip_id {
                assert(pre.has_overlay(row.trip_id));
            }
        }
    }
    assert(post.overlays@[n] == row);
    assert(post.has_overlay(row.trip_id));
    let k = post.overlay_index(row.trip_id);
    assert(post.overlays@[k].trip_id == row.trip_id);
    if k < n {
        assert(pre.overlays@[k].trip_id == row.trip_id);
        assert(pre.has_overlay(row.trip_id));
    }
    assert(post.overlay_of(row.trip_id) == row);
    assert forall|t: u64| t != row.trip_id implies #[trigger] post.status_of(t) == pre.status_of(
        t,
    ) by {
        if pre.has_overlay(t) {
            let i = choose|i: int| 0 <= i < n && pre.overlays@[i].trip_id == t;
            assert(post.overlays@[i].trip_id == t);
            assert(post.has_overlay(t));
            let kp = post.overlay_index(t);
            assert(post.overlays@[kp].trip_id == t);
            assert(kp < n);
            assert(pre.overlays@[kp].trip_id == t);
            pre.lemma_overlay_index_is(kp);
            assert(post.overlay_of(t) == pre.overlay_of(t));
        } else if post.has_overlay(t) {
            let i = choose|i: int|
                0 <= i < post.overlays@.len() && post.overlays@[i].trip_id == t;
            assert(i != n);
            assert(pre.overlays@[i].trip_id == t);
            assert(pre.has_overlay(t));
        }
    }
}

/// Rewriting the overlay row a trip already had: other trips keep
/// their status, the new row is the trip's row.
proof fn lemma_overlay_update_effects(pre: Store, post: Store, i: int, row: Overlay)
    requires
        pre.wf(),
        0 <= i < pre.overlays@.len(),
        pre.overlays@[i].trip_id == row.trip_id,
        post.overlays@ == pre.overlays@.update(i, row),
    ensures
        forall|a: int, b: int|
            0 <= a < b < post.overlays@.len() ==> (#[trigger] post.overlays@[a]).trip_id
                != (#[trigger] post.overlays@[b]).trip_id,
        forall|k: int|
            0 <= k < post.overlays@.len() ==> #[trigger] post.overlays@[k] == row || exists|m: int|
                0 <= m < pre.overlays@.len() && pre.overlays@[m] == post.overlays@[k],
        post.has_overlay(row.trip_id),
        post.overlay_of(row.trip_id) == row,
        forall|t: u64| t != row.trip_id ==> #[trigger] post.status_of(t) == pre.status_of(t),
{
    let n = pre.overlays@.len() as int;
    assert forall|a: int, b: int| 0 <= a < b < post.overlays@.len() implies (
    #[trigger] post.overlays@[a]).trip_id != (#[trigger] post.overlays@[b]).trip_id by {
        assert(pre.overlays@[a].trip_id != pre.overlays@[b].trip_id);
        if a == i {
            assert(post.overlays@[b] == pre.overlays@[b]);
        } else if b == i {
            assert(post.overlays@[a] == pre.overlays@[a]);
        }
    }
    assert(post.overlays@[i] == row);
    assert(post.has_overlay(row.trip_id));
    let k = post.overlay_index(row.trip_id);
    assert(post.overlays@[k].trip_id == row.trip_id);
    if k != i {
        assert(post.overlays@[k] == pre.overlays@[k]);
        if k < i {
            assert(pre.overlays@[k].trip_id != pre.overlays@[i].trip_id);
        } else {
            assert(pre.overlays@[i].trip_id != pre.overlays@[k].trip_id);
        }
    }
    assert(post.overlay_of(row.trip_id) == row);
    assert forall|t: u64| t != row.trip_id implies #[trigger] post.status_of(t) == pre.status_of(
        t,
    ) by {
        if pre.has_overlay(t) {
            let a = choose|a: int| 0 <= a < n && pre.overlays@[a].trip_id == t;
            assert(a != i);
            assert(post.overlays@[a].trip_id == t);
            assert(post.has_overlay(t));
            let kp = post.overlay_index(t);
            assert(post.overlays@[kp].trip_id == t);
            assert(kp != i);
            assert(pre.overlays@[kp].trip_id == t);
            pre.lemma_overlay_index_is(kp);
            assert(post.overlay_of(t) == pre.overlay_of(t));
        } else if post.has_overlay(t) {
            let a = choose|a: int|
                0 <= a < post.overlays@.len() && post.overlays@[a].trip_id == t;
            assert(a != i);
            assert(pre.overlays@[a].trip_id == t);
            assert(pre.has_overlay(t));
        }
    }
}

/// Deleting a trip's overlay row: the trip reads as nominal again,
/// other trips keep their status.
proof fn lemma_overlay_remove_effects(pre: Store, post: Store, i: int)
    requires
        pre.wf(),
        0 <= i < pre.overlays@.len(),
        post.overlays@ == pre.overlays@.remove(i),
    ensures
        forall|a: int, b: int|
            0 <= a < b < post.overlays@.len() ==> (#[trigger] post.overlays@[a]).trip_id
                != (#[trigger] post.overlays@[b]).trip_id,
        forall|k: int|
            0 <= k < post.overlays@.len() ==> exists|m: int|
                0 <= m < pre.overlays@.len() && pre.overlays@[m] == #[trigger] post.overlays@[k],
        !post.has_overlay(pre.overlays@[i].trip_id),
        forall|t: u64|
            t != pre.overlays@[i].trip_id ==> #[trigger] post.status_of(t) == pre.status_of(t),
{
    let n = pre.overlays@.len() as int;
    let tid = pre.overlays@[i].trip_id;
    assert forall|k: int| 0 <= k < post.overlays@.len() implies exists|m: int|
        0 <= m < pre.overlays@.len() && pre.overlays@[m] == #[trigger] post.overlays@[k] by {
        if k < i {
            assert(pre.overlays@[k] == post.overlays@[k]);
        } else {
            assert(pre.overlays@[k + 1] == post.overlays@[k]);
        }
    }
    assert forall|a: int, b: int| 0 <= a < b < post.overlays@.len() implies (
    #[trigger] post.overlays@[a]).trip_id != (#[trigger] post.overlays@[b]).trip_id by {
        let pa: int = if a < i { a } else { a + 1 };
        let pb: int = if b < i { b } else { b + 1 };
        assert(post.overlays@[a] == pre.overlays@[pa]);
        assert(post.overlays@[b] == pre.overlays@[pb]);
        assert(pre.overlays@[pa].trip_id != pre.overlays@[pb].trip_id);
    }
    assert(!post.has_overlay(tid)) by {
        if post.has_overlay(tid) {
            let k = choose|k: int|
                0 <= k < post.overlays@.len() && post.overlays@[k].trip_id == tid;
            let pk: int = if k < i { k } else { k + 1 };
            assert(post.overlays@[k] == pre.overlays@[pk]);
            assert(pk != i);
            if pk < i {
                assert(pre.overlays@[pk].trip_id != pre.overlays@[i].trip_id);
            } else {
                assert(pre.overlays@[i].trip_id != pre.overlays@[pk].trip_id);
            }
        }
    }
    assert forall|t: u64| t != tid implies #[trigger] post.status_of(t) == pre.status_of(t) by {
        if pre.has_overlay(t) {
            let a = choose|a: int| 0 <= a < n && pre.overlays@[a].trip_id == t;
            assert(a != i);
            let ka: int = if a < i { a } else { a - 1 };
            assert(post.overlays@[ka] == pre.overlays@[a]);
            assert(post.has_overlay(t));
            let kp = post.overlay_index(t);
            assert(post.overlays@[kp].trip_id == t);
            let pk: int = if kp < i { kp } else { kp + 1 };
            assert(post.overlays@[kp] == pre.overlays@[pk]);
            pre.lemma_overlay_index_is(pk);
            assert(post.overlay_of(t) == pre.overlay_of(t));
        } else if post.has_overlay(t) {
            let k = choose|k: int|
                0 <= k < post.overlays@.len() && post.overlays@[k].trip_id == t;
            let pk: int = if k < i { k } else { k + 1 };
            assert(post.overlays@[k] == pre.overlays@[pk]);
            assert(pre.has_overlay(t));
        }
    }
}

/// A clone of the optional free-text description, equal to the
/// original.
fn clone_description(d: &Option<String>) -> (r: Option<String>)
    ensures
        r == *d,
{
    match d {
        Some(s) => Some(s.clone()),
        None => None,
    }
}

impl Store {
    /// The one transition the status machine needs beyond the overlay
    /// edits themselves: everything it changed keeps the store
    /// well-formed.
    proof fn lemma_wf_after_status_change(pre: Store, post: Store, trip_id: u64)
        requires
            pre.wf(),
            post.trips@ == pre.trips@,
            post.next_reservation_id == pre.next_reservation_id,
            forall|a: int, b: int|
                0 <= a < b < post.overlays@.len() ==> (#[trigger] post.overlays@[a]).trip_id
                    != (#[trigger] post.overlays@[b]).trip_id,
            forall|k: int|
                0 <= k < post.overlays@.len() ==> pre.has_trip(
                    (#[trigger] post.overlays@[k]).trip_id,
                ) && !(post.overlays@[k].kind is Scheduled),
            forall|t: u64| t != trip_id ==> #[trigger] post.status_of(t) == pre.status_of(t),
            if post.status_of(trip_id) is Cancelled {
                post.reservations@ == pre.reservations@.filter(
                    |x: Reservation| x.trip_id != trip_id,
                )
            } else {
                post.reservations@ == pre.reservations@
            },
        ensures
            post.wf(),
    {
        assert forall|k: int| 0 <= k < post.overlays@.len() implies post.has_trip(
            (#[trigger] post.overlays@[k]).trip_id,
        ) && !(post.overlays@[k].kind is Scheduled) by {
            Store::lemma_trip_lookup_agrees(pre, post, post.overlays@[k].trip_id);
        }
        if post.status_of(trip_id) is Cancelled {
            let pred = |x: Reservation| x.trip_id != trip_id;
            let rs = pre.reservations@;
            crate::filtering::lemma_filter_preserves_pairwise(
                rs,
                pred,
                |a: Reservation, b: Reservation| a.reservation_id != b.reservation_id,
            );
            crate::filtering::lemma_filter_preserves_pairwise(
                rs,
                pred,
                |a: Reservation, b: Reservation| !(a.trip_id == b.trip_id && a.user_id
                    == b.user_id),
            );
            crate::filtering::lemma_filter_preserves_pairwise(
                rs,
                pred,
                |a: Reservation, b: Reservation| a.trip_id == b.trip_id ==> a.seat_number
                    != b.seat_number,
            );
            crate::filtering::lemma_filter_elements_in(rs, pred);
            broadcast use vstd::seq_lib::group_filter_ensures;

            assert forall|k: int| 0 <= k < post.reservations@.len() implies {
                let r = #[trigger] post.reservations@[k];
                &&& post.has_trip(r.trip_id)
                &&& 1 <= r.seat_number <= post.trip_of(r.trip_id).capacity
                &&& r.reservation_id < post.next_reservation_id
                &&& !(post.status_of(r.trip_id) is Cancelled)
            } by {
                let r = post.reservations@[k];
                let m = choose|m: int| 0 <= m < rs.len() && rs[m] == post.reservations@[k];
                assert(pre.has_trip(r.trip_id));
                Store::lemma_trip_lookup_agrees(pre, post, r.trip_id);
                assert(pred(r));
                assert(r.trip_id != trip_id);
                assert(post.status_of(r.trip_id) == pre.status_of(r.trip_id));
            }
            assert forall|i: int, j: int|
                0 <= i < j < post.reservations@.len() && (#[trigger] post.reservations@[i]).trip_id
                == (#[trigger] post.reservations@[j]).trip_id implies post.reservations@[i].seat_number
                != post.reservations@[j].seat_number by {
                let p = |a: Reservation, b: Reservation| a.trip_id == b.trip_id ==> a.seat_number
                    != b.seat_number;
                assert(p(rs.filter(pred)[i], rs.filter(pred)[j]));
            }
        } else {
            assert forall|k: int| 0 <= k < post.reservations@.len() implies {
                let r = #[trigger] post.reservations@[k];
                &&& post.has_trip(r.trip_id)
                &&& 1 <= r.seat_number <= post.trip_of(r.trip_id).capacity
                &&& r.reservation_id < post.next_reservation_id
                &&& !(post.status_of(r.trip_id) is Cancelled)
            } by {
                let r = post.reservations@[k];
                assert(pre.has_trip(r.trip_id));
                Store::lemma_trip_lookup_agrees(pre, post, r.trip_id);
                if r.trip_id != trip_id {
                    assert(post.status_of(r.trip_id) == pre.status_of(r.trip_id));
                }
            }
        }
    }

    /// Drive a trip's status.  Administrators only; `Scheduled`
    /// deletes the overlay row (idempotently), `Delayed` and
    /// `Cancelled` upsert it and notify every current holder, and a
    /// cancellation then purges the trip's reservations — the
    /// notification keeps the pre-purge recipient list.
    pub fn set_trip_status(
        &mut self,
        trip_id: u64,
        target: StatusKind,
        description: Option<String>,
        actor_is_admin: bool,
    ) -> (r: Result<Option<Notification>, ApiError>)
        requires
            old(self).wf(),
        ensures
            final(self).wf(),
            set_status_post(
                *old(self),
                *final(self),
                trip_id,
                target,
                description,
                actor_is_admin,
                r,
            ),
    {
        if !actor_is_admin {
            return Err(ApiError::Forbidden);
        }
        if matches!(target, StatusKind::Scheduled) {
            match self.find_overlay(trip_id) {
                None => {
                    return Ok(None);
                },
                Some(i) => {
                    proof {
                        self.lemma_overlay_index_is(i as int);
                    }
                    let ghost pre = *self;
                    self.overlays.remove(i);
                    proof {
                        lemma_overlay_remove_effects(pre, *self, i as int);
                        assert forall|k: int| 0 <= k < self.overlays@.len() implies pre.has_trip(
                            (#[trigger] self.overlays@[k]).trip_id,
                        ) && !(self.overlays@[k].kind is Scheduled) by {
                            let m = choose|m: int|
                                0 <= m < pre.overlays@.len() && pre.overlays@[m]
                                    == self.overlays@[k];
                        }
                        Store::lemma_wf_after_status_change(pre, *self, trip_id);
                    }
                    return Ok(None);
                },
            }
        }
        // a non-nominal status: the overlay write references the trip
        let trip_exists = match self.find_trip(trip_id) {
            Some(_) => true,
            None => false,
        };
        if !trip_exists {
            return Err(ApiError::Internal);
        }
        let event_desc = clone_description(&description);
        let row = Overlay { trip_id, kind: target, description };
        let ghost grow = row;
        let ghost pre = *self;
        match self.find_overlay(trip_id) {
            Some(i) => {
                proof {
                    self.lemma_overlay_index_is(i as int);
                }
                self.overlays.set(i, row);
                proof {
                    lemma_overlay_update_effects(pre, *self, i as int, grow);
                }
            },
            None => {
                self.overlays.push(row);
                proof {
                    lemma_overlay_push_effects(pre, *self, grow);
                }
            },
        }
        let ghost mid = *self;
        // resolve the notification against the holder list as it
        // stands before any purge
        let notice = self.dispatch(
            Event::StatusChanged { trip_id, status: target, description: event_desc },
        );
        let cancelling = matches!(target, StatusKind::Cancelled);
        if cancelling {
            let ghost pred = |x: Reservation| x.trip_id != trip_id;
            let n = self.reservations.len();
            let mut kept: Vec<Reservation> = Vec::new();
            let mut k: usize = 0;
            while k < n
                invariant
                    0 <= k <= n,
                    n == self.reservations@.len(),
                    kept@ == self.reservations@.subrange(0, k as int).filter(pred),
                decreases n - k,
            {
                let ghost rs = self.reservations@;
                proof {
                    crate::filtering::lemma_filter_prefix_step(rs, k as int, pred);
                }
                let r = self.reservations[k];
                if r.trip_id != trip_id {
                    kept.push(r);
                }
                k += 1;
            }
            proof {
                assert(self.reservations@.subrange(0, n as int) =~= self.reservations@);
            }
            self.reservations = kept;
        }
        proof {
            let post = *self;
            assert(post.overlays@ == mid.overlays@);
            assert(post.reservations@ == if cancelling {
                pre.reservations@.filter(|x: Reservation| x.trip_id != trip_id)
            } else {
                pre.reservations@
            });
            assert forall|t: u64| t != trip_id implies #[trigger] post.status_of(t)
                == pre.status_of(t) by {
                Store::lemma_overlay_lookup_agrees(mid, post, t);
            }
            Store::lemma_overlay_lookup_agrees(mid, post, trip_id);
            assert(post.has_overlay(trip_id) && post.overlay_of(trip_id) == grow);
            assert(post.status_of(trip_id) == target);
            assert forall|k: int| 0 <= k < post.overlays@.len() implies pre.has_trip(
                (#[trigger] post.overlays@[k]).trip_id,
            ) && !(post.overlays@[k].kind is Scheduled) by {
                if post.overlays@[k] != grow {
                    let m = choose|m: int|
                        0 <= m < pre.overlays@.len() && pre.overlays@[m] == post.overlays@[k];
                }
            }
            Store::lemma_wf_after_status_change(pre, post, trip_id);
        }
        Ok(notice)
    }

    /// [`Store::set_trip_status`] with the status as the transport
    /// hands it in; an unknown word is refused as a bad request.
    pub fn set_trip_status_str(
        &mut self,
        trip_id: u64,
        status: &str,
        description: Option<String>,
        actor_is_admin: bool,
    ) -> (r: Result<Option<Notification>, ApiError>)
        requires
            old(self).wf(),
        ensures
            final(self).wf(),
            set_status_str_post(
                *old(self),
                *final(self),
                trip_id,
                status@,
                description,
                actor_is_admin,
                r,
            ),
    {
        if !actor_is_admin {
            return Err(ApiError::Forbidden);
        }
        match parse_status(status) {
            Some(k) => self.set_trip_status(trip_id, k, description, true),
            None => Err(ApiError::BadRequest),
        }
    }
}

} // verus!
