//! The durable state the engine runs on: trips, the optional
//! operational-status overlay rows, reservation rows and the global
//! maintenance flag.  Every cross-request coordination point of the
//! service (capacity, the `notified` checkpoint, the maintenance
//! gate) lives here, and every operation elsewhere in the crate is a
//! verified transition on one [`Store`] value — the model of one
//! serialized transaction against the shared storage backend.
use vstd::prelude::*;

use crate::types::{Overlay, Reservation, StatusKind, Trip};

verus! {

/// The reservation rows of one trip, in storage order.
pub open spec fn resv_in(rs: Seq<Reservation>, trip_id: u64) -> Seq<Reservation> {
    rs.filter(|r: Reservation| r.trip_id == trip_id)
}

/// The users holding a seat on one trip, in storage order: the
/// recipient list of every trip-wide notification.
pub open spec fn holders_in(rs: Seq<Reservation>, trip_id: u64) -> Seq<u64> {
    resv_in(rs, trip_id).map_values(|r: Reservation| r.user_id)
}

/// Largest seat number among the given reservation rows, `0` when
/// there are none.  The seat counter for a trip moves strictly
/// upward, so the next seat to hand out is always this plus one.
pub open spec fn max_seat_in(s: Seq<Reservation>) -> nat
    decreases s.len(),
{
    if s.len() == 0 {
        0
    } else {
        let m = max_seat_in(s.drop_last());
        if s.last().seat_number as nat > m {
            s.last().seat_number as nat
        } else {
            m
        }
    }
}

/// The maximum is an upper bound on every seat, and is attained
/// unless there are no rows at all.
pub proof fn lemma_max_seat_in(s: Seq<Reservation>)
    ensures
        forall|i: int| 0 <= i < s.len() ==> (#[trigger] s[i]).seat_number <= max_seat_in(s),
        max_seat_in(s) != 0 ==> exists|i: int|
            0 <= i < s.len() && (#[trigger] s[i]).seat_number == max_seat_in(s),
    decreases s.len(),
{
    if s.len() > 0 {
        lemma_max_seat_in(s.drop_last());
        assert forall|i: int| 0 <= i < s.len() implies (#[trigger] s[i]).seat_number
            <= max_seat_in(s) by {
            if i < s.len() - 1 {
                assert(s.drop_last()[i] == s[i]);
                assert(s.drop_last()[i].seat_number <= max_seat_in(s.drop_last()));
            }
        }
        if max_seat_in(s) != 0 {
            if s.last().seat_number as nat == max_seat_in(s) {
                assert(s[s.len() - 1].seat_number == max_seat_in(s));
            } else {
                let i = choose|i: int|
                    0 <= i < s.drop_last().len() && (#[trigger] s.drop_last()[i]).seat_number
                        == max_seat_in(s.drop_last());
                assert(s[i] == s.drop_last()[i]);
                assert(s[i].seat_number == max_seat_in(s));
            }
        }
    }
}

/// How one trip's rows change when a row is appended: they grow by
/// exactly that row when it belongs to the trip, else not at all.
pub proof fn lemma_resv_in_push(rs: Seq<Reservation>, r: Reservation, trip_id: u64)
    ensures
        r.trip_id == trip_id ==> resv_in(rs.push(r), trip_id) == resv_in(rs, trip_id).push(r),
        r.trip_id != trip_id ==> resv_in(rs.push(r), trip_id) == resv_in(rs, trip_id),
{
    reveal(Seq::filter);
    assert(rs.push(r).drop_last() =~= rs);
    assert(rs.push(r).last() == r);
}

/// The prefix-step form of [`lemma_resv_in_push`], for loops walking
/// the reservation table left to right.
pub proof fn lemma_resv_in_step(rs: Seq<Reservation>, i: int, trip_id: u64)
    requires
        0 <= i < rs.len(),
    ensures
        rs[i].trip_id == trip_id ==> resv_in(rs.subrange(0, i + 1), trip_id) == resv_in(
            rs.subrange(0, i),
            trip_id,
        ).push(rs[i]),
        rs[i].trip_id != trip_id ==> resv_in(rs.subrange(0, i + 1), trip_id) == resv_in(
            rs.subrange(0, i),
            trip_id,
        ),
{
    assert(rs.subrange(0, i + 1) =~= rs.subrange(0, i).push(rs[i]));
    lemma_resv_in_push(rs.subrange(0, i), rs[i], trip_id);
}

/// The whole persisted state of the service.
pub struct Store {
    /// All known trips; created by an external collaborator, mutated
    /// here only through the `notified` flag.
    pub trips: Vec<Trip>,
    /// Non-nominal status rows, at most one per trip; absence of a
    /// row means the trip runs as scheduled.
    pub overlays: Vec<Overlay>,
    /// All live seat bookings.
    pub reservations: Vec<Reservation>,
    /// The global gate consulted before every new booking.
    pub maintenance_on: bool,
    /// Source of fresh reservation identities.
    pub next_reservation_id: u64,
}

impl Store {
    /// A trip with this identity exists.
    pub open spec fn has_trip(self, trip_id: u64) -> bool {
        exists|i: int| 0 <= i < self.trips@.len() && self.trips@[i].trip_id == trip_id
    }

    /// Position of the trip with this identity (unique under [`Store::wf`]).
    pub open spec fn trip_index(self, trip_id: u64) -> int {
        choose|i: int| 0 <= i < self.trips@.len() && self.trips@[i].trip_id == trip_id
    }

    /// The trip with this identity.
    pub open spec fn trip_of(self, trip_id: u64) -> Trip {
        self.trips@[self.trip_index(trip_id)]
    }

    /// An overlay row for this trip exists.
    pub open spec fn has_overlay(self, trip_id: u64) -> bool {
        exists|i: int| 0 <= i < self.overlays@.len() && self.overlays@[i].trip_id == trip_id
    }

    /// Position of the trip's overlay row (unique under [`Store::wf`]).
    pub open spec fn overlay_index(self, trip_id: u64) -> int {
        choose|i: int| 0 <= i < self.overlays@.len() && self.overlays@[i].trip_id == trip_id
    }

    /// The trip's overlay row.
    pub open spec fn overlay_of(self, trip_id: u64) -> Overlay {
        self.overlays@[self.overlay_index(trip_id)]
    }

    /// A trip's operational status: the overlay row where present,
    /// `Scheduled` otherwise.
    pub open spec fn status_of(self, trip_id: u64) -> StatusKind {
        if self.has_overlay(trip_id) {
            self.overlay_of(trip_id).kind
        } else {
            StatusKind::Scheduled
        }
    }

    /// The reservation rows of one trip, in storage order.
    pub open spec fn resv_for(self, trip_id: u64) -> Seq<Reservation> {
        resv_in(self.reservations@, trip_id)
    }

    /// The users currently holding a seat on the trip.
    pub open spec fn holders(self, trip_id: u64) -> Seq<u64> {
        holders_in(self.reservations@, trip_id)
    }

    /// The seat number the allocator hands out next for the trip.
    pub open spec fn next_seat(self, trip_id: u64) -> nat {
        max_seat_in(self.resv_for(trip_id)) + 1
    }

    /// This user already holds a reservation on this trip.
    pub open spec fn has_booking(self, trip_id: u64, user_id: u64) -> bool {
        exists|i: int|
            0 <= i < self.reservations@.len() && (#[trigger] self.reservations@[i]).trip_id
                == trip_id && self.reservations@[i].user_id == user_id
    }

    /// Well-formedness: the storage constraints and engine-maintained
    /// invariants every operation preserves.
    pub open spec fn wf(self) -> bool {
        // trip identities are unique
        &&& forall|i: int, j: int|
            0 <= i < j < self.trips@.len() ==> (#[trigger] self.trips@[i]).trip_id
                != (#[trigger] self.trips@[j]).trip_id
        // at most one overlay row per trip, each for an existing trip,
        // and never recording the nominal state
        &&& forall|i: int, j: int|
            0 <= i < j < self.overlays@.len() ==> (#[trigger] self.overlays@[i]).trip_id
                != (#[trigger] self.overlays@[j]).trip_id
        &&& forall|i: int|
            0 <= i < self.overlays@.len() ==> self.has_trip(
                (#[trigger] self.overlays@[i]).trip_id,
            ) && !(self.overlays@[i].kind is Scheduled)
        // reservation identities are unique
        &&& forall|i: int, j: int|
            0 <= i < j < self.reservations@.len() ==> (#[trigger] self.reservations@[i]).reservation_id
                != (#[trigger] self.reservations@[j]).reservation_id
        // a user holds at most one reservation per trip
        &&& forall|i: int, j: int|
            0 <= i < j < self.reservations@.len() ==> !((#[trigger] self.reservations@[i]).trip_id
                == (#[trigger] self.reservations@[j]).trip_id && self.reservations@[i].user_id
                == self.reservations@[j].user_id)
        // seat numbers are unique per trip
        &&& forall|i: int, j: int|
            0 <= i < j < self.reservations@.len() && (#[trigger] self.reservations@[i]).trip_id
                == (#[trigger] self.reservations@[j]).trip_id ==> self.reservations@[i].seat_number
                != self.reservations@[j].seat_number
        // every reservation sits on an existing, non-cancelled trip,
        // within capacity, with an identity below the fresh counter
        &&& forall|i: int|
            0 <= i < self.reservations@.len() ==> {
                let r = #[trigger] self.reservations@[i];
                &&& self.has_trip(r.trip_id)
                &&& 1 <= r.seat_number <= self.trip_of(r.trip_id).capacity
                &&& r.reservation_id < self.next_reservation_id
                &&& !(self.status_of(r.trip_id) is Cancelled)
            }
    }

    /// Under [`Store::wf`], any position holding the trip identity is
    /// *the* trip index.
    pub proof fn lemma_trip_index_is(self, i: int)
        requires
            self.wf(),
            0 <= i < self.trips@.len(),
        ensures
            self.trip_index(self.trips@[i].trip_id) == i,
            self.trip_of(self.trips@[i].trip_id) == self.trips@[i],
    {
        let tid = self.trips@[i].trip_id;
        assert(self.has_trip(tid));
        let k = self.trip_index(tid);
        if k != i {
            if k < i {
                assert(self.trips@[k].trip_id != self.trips@[i].trip_id);
            } else {
                assert(self.trips@[i].trip_id != self.trips@[k].trip_id);
            }
        }
    }

    /// Under [`Store::wf`], any position holding the trip identity is
    /// *the* overlay index.
    pub proof fn lemma_overlay_index_is(self, i: int)
        requires
            self.wf(),
            0 <= i < self.overlays@.len(),
        ensures
            self.overlay_index(self.overlays@[i].trip_id) == i,
            self.overlay_of(self.overlays@[i].trip_id) == self.overlays@[i],
    {
        let tid = self.overlays@[i].trip_id;
        assert(self.has_overlay(tid));
        let k = self.overlay_index(tid);
        if k != i {
            if k < i {
                assert(self.overlays@[k].trip_id != self.overlays@[i].trip_id);
            } else {
                assert(self.overlays@[i].trip_id != self.overlays@[k].trip_id);
            }
        }
    }

    /// Trip lookups agree between two stores holding the same trip
    /// table (with unique identities in it).
    pub proof fn lemma_trip_lookup_agrees(a: Store, b: Store, trip_id: u64)
        requires
            a.trips@ == b.trips@,
            forall|i: int, j: int|
                0 <= i < j < a.trips@.len() ==> (#[trigger] a.trips@[i]).trip_id
                    != (#[trigger] a.trips@[j]).trip_id,
        ensures
            a.has_trip(trip_id) == b.has_trip(trip_id),
            a.has_trip(trip_id) ==> a.trip_index(trip_id) == b.trip_index(trip_id) && a.trip_of(
                trip_id,
            ) == b.trip_of(trip_id),
    {
        if a.has_trip(trip_id) {
            let i = choose|i: int|
                0 <= i < a.trips@.len() && a.trips@[i].trip_id == trip_id;
            assert(b.trips@[i].trip_id == trip_id);
            assert(b.has_trip(trip_id));
            let ka = a.trip_index(trip_id);
            let kb = b.trip_index(trip_id);
            assert(a.trips@[kb].trip_id == trip_id);
            if ka != kb {
                if ka < kb {
                    assert(a.trips@[ka].trip_id != a.trips@[kb].trip_id);
                } else {
                    assert(a.trips@[kb].trip_id != a.trips@[ka].trip_id);
                }
            }
        } else if b.has_trip(trip_id) {
            let i = choose|i: int|
                0 <= i < b.trips@.len() && b.trips@[i].trip_id == trip_id;
            assert(a.trips@[i].trip_id == trip_id);
        }
    }

    /// Overlay lookups — and with them [`Store::status_of`] — agree
    /// between two stores holding the same overlay table (with unique
    /// trip identities in it).
    pub proof fn lemma_overlay_lookup_agrees(a: Store, b: Store, trip_id: u64)
        requires
            a.overlays@ == b.overlays@,
            forall|i: int, j: int|
                0 <= i < j < a.overlays@.len() ==> (#[trigger] a.overlays@[i]).trip_id
                    != (#[trigger] a.overlays@[j]).trip_id,
        ensures
            a.has_overlay(trip_id) == b.has_overlay(trip_id),
            a.has_overlay(trip_id) ==> a.overlay_index(trip_id) == b.overlay_index(trip_id)
                && a.overlay_of(trip_id) == b.overlay_of(trip_id),
            a.status_of(trip_id) == b.status_of(trip_id),
    {
        if a.has_overlay(trip_id) {
            let i = choose|i: int|
                0 <= i < a.overlays@.len() && a.overlays@[i].trip_id == trip_id;
            assert(b.overlays@[i].trip_id == trip_id);
            assert(b.has_overlay(trip_id));
            let ka = a.overlay_index(trip_id);
            let kb = b.overlay_index(trip_id);
            assert(a.overlays@[kb].trip_id == trip_id);
            if ka != kb {
                if ka < kb {
                    assert(a.overlays@[ka].trip_id != a.overlays@[kb].trip_id);
                } else {
                    assert(a.overlays@[kb].trip_id != a.overlays@[ka].trip_id);
                }
            }
        } else if b.has_overlay(trip_id) {
            let i = choose|i: int|
                0 <= i < b.overlays@.len() && b.overlays@[i].trip_id == trip_id;
            assert(a.overlays@[i].trip_id == trip_id);
        }
    }

    /// Removing reservation rows by any criterion keeps the store
    /// well-formed: every deletion the engine performs is a filter of
    /// the reservation table.
    pub proof fn lemma_wf_after_resv_filter(pre: Store, post: Store, pred: spec_fn(Reservation) -> bool)
        requires
            pre.wf(),
            post.trips@ == pre.trips@,
            post.overlays@ == pre.overlays@,
            post.next_reservation_id == pre.next_reservation_id,
            post.reservations@ == pre.reservations@.filter(pred),
        ensures
            post.wf(),
    {
        let rs = pre.reservations@;
        crate::filtering::lemma_filter_preserves_pairwise(
            rs,
            pred,
            |a: Reservation, b: Reservation| a.reservation_id != b.reservation_id,
        );
        crate::filtering::lemma_filter_preserves_pairwise(
            rs,
            pred,
            |a: Reservation, b: Reservation| !(a.trip_id == b.trip_id && a.user_id == b.user_id),
        );
        crate::filtering::lemma_filter_preserves_pairwise(
            rs,
            pred,
            |a: Reservation, b: Reservation| a.trip_id == b.trip_id ==> a.seat_number
                != b.seat_number,
        );
        crate::filtering::lemma_filter_elements_in(rs, pred);
        assert forall|k: int| 0 <= k < post.reservations@.len() implies {
            let r = #[trigger] post.reservations@[k];
            &&& post.has_trip(r.trip_id)
            &&& 1 <= r.seat_number <= post.trip_of(r.trip_id).capacity
            &&& r.reservation_id < post.next_reservation_id
            &&& !(post.status_of(r.trip_id) is Cancelled)
        } by {
            let r = post.reservations@[k];
            let j = choose|j: int| 0 <= j < rs.len() && rs[j] == post.reservations@[k];
            assert(pre.has_trip(r.trip_id));
            Store::lemma_trip_lookup_agrees(pre, post, r.trip_id);
            Store::lemma_overlay_lookup_agrees(pre, post, r.trip_id);
        }
        assert forall|i: int, j: int|
            0 <= i < j < post.reservations@.len() && (#[trigger] post.reservations@[i]).trip_id
            == (#[trigger] post.reservations@[j]).trip_id implies post.reservations@[i].seat_number
            != post.reservations@[j].seat_number by {
            let p = |a: Reservation, b: Reservation| a.trip_id == b.trip_id ==> a.seat_number
                != b.seat_number;
            assert(p(rs.filter(pred)[i], rs.filter(pred)[j]));
        }
        assert forall|k: int| 0 <= k < post.overlays@.len() implies post.has_trip(
            (#[trigger] post.overlays@[k]).trip_id,
        ) && !(post.overlays@[k].kind is Scheduled) by {
            Store::lemma_trip_lookup_agrees(pre, post, post.overlays@[k].trip_id);
        }
    }

    /// Rewriting trip rows without touching their identity or
    /// capacity (the scheduler flipping `notified` flags) keeps the
    /// store well-formed.
    pub proof fn lemma_wf_after_trip_update(pre: Store, post: Store)
        requires
            pre.wf(),
            post.overlays@ == pre.overlays@,
            post.reservations@ == pre.reservations@,
            post.next_reservation_id == pre.next_reservation_id,
            post.trips@.len() == pre.trips@.len(),
            forall|i: int|
                0 <= i < pre.trips@.len() ==> (#[trigger] post.trips@[i]).trip_id
                    == (#[trigger] pre.trips@[i]).trip_id && post.trips@[i].capacity
                    == pre.trips@[i].capacity,
        ensures
            post.wf(),
    {
        assert forall|i: int, j: int| 0 <= i < j < post.trips@.len() implies (
        #[trigger] post.trips@[i]).trip_id != (#[trigger] post.trips@[j]).trip_id by {
            assert(pre.trips@[i].trip_id != pre.trips@[j].trip_id);
        }
        assert forall|k: int| 0 <= k < post.overlays@.len() implies post.has_trip(
            (#[trigger] post.overlays@[k]).trip_id,
        ) && !(post.overlays@[k].kind is Scheduled) by {
            let tid = pre.overlays@[k].trip_id;
            let t = choose|t: int| 0 <= t < pre.trips@.len() && pre.trips@[t].trip_id == tid;
            assert(post.trips@[t].trip_id == tid);
        }
        assert forall|k: int| 0 <= k < post.reservations@.len() implies {
            let r = #[trigger] post.reservations@[k];
            &&& post.has_trip(r.trip_id)
            &&& 1 <= r.seat_number <= post.trip_of(r.trip_id).capacity
            &&& r.reservation_id < post.next_reservation_id
            &&& !(post.status_of(r.trip_id) is Cancelled)
        } by {
            let r = post.reservations@[k];
            assert(pre.has_trip(r.trip_id));
            let t = choose|t: int| 0 <= t < pre.trips@.len() && pre.trips@[t].trip_id == r.trip_id;
            assert(post.trips@[t].trip_id == r.trip_id);
            assert(post.has_trip(r.trip_id));
            pre.lemma_trip_index_is(t);
            let kp = post.trip_index(r.trip_id);
            assert(post.trips@[kp].trip_id == r.trip_id);
            assert(pre.trips@[kp].trip_id == r.trip_id);
            if kp != t {
                if kp < t {
                    assert(pre.trips@[kp].trip_id != pre.trips@[t].trip_id);
                } else {
                    assert(pre.trips@[t].trip_id != pre.trips@[kp].trip_id);
                }
            }
            assert(post.trip_of(r.trip_id).capacity == pre.trip_of(r.trip_id).capacity);
            Store::lemma_overlay_lookup_agrees(pre, post, r.trip_id);
        }
    }

    /// An empty store: no trips, no bookings, maintenance off.
    pub fn new() -> (s: Store)
        ensures
            s.wf(),
            s.trips@ == Seq::<Trip>::empty(),
            s.overlays@ == Seq::<Overlay>::empty(),
            s.reservations@ == Seq::<Reservation>::empty(),
            !s.maintenance_on,
            s.next_reservation_id == 1,
    {
        Store {
            trips: Vec::new(),
            overlays: Vec::new(),
            reservations: Vec::new(),
            maintenance_on: false,
            next_reservation_id: 1,
        }
    }

    /// Register a trip created by the external trip-creation
    /// collaborator.  Refused (leaving the store unchanged) when the
    /// identity is already taken.
    pub fn add_trip(&mut self, trip: Trip) -> (added: bool)
        requires
            old(self).wf(),
        ensures
            final(self).wf(),
            added == !old(self).has_trip(trip.trip_id),
            added ==> final(self).trips@ == old(self).trips@.push(trip)
                && final(self).overlays == old(self).overlays
                && final(self).reservations == old(self).reservations
                && final(self).maintenance_on == old(self).maintenance_on
                && final(self).next_reservation_id == old(self).next_reservation_id,
            !added ==> *final(self) == *old(self),
    {
        let n = self.trips.len();
        let mut i: usize = 0;
        while i < n
            invariant
                0 <= i <= n,
                n == self.trips@.len(),
                forall|k: int| 0 <= k < i ==> (#[trigger] self.trips@[k]).trip_id != trip.trip_id,
            decreases n - i,
        {
            if self.trips[i].trip_id == trip.trip_id {
                return false;
            }
            i += 1;
        }
        proof {
            assert(!self.has_trip(trip.trip_id));
        }
        let ghost pre = *self;
        self.trips.push(trip);
        proof {
            let post = *self;
            assert forall|k: int| 0 <= k < post.overlays@.len() implies post.has_trip(
                (#[trigger] post.overlays@[k]).trip_id,
            ) && !(post.overlays@[k].kind is Scheduled) by {
                assert(pre.has_trip(pre.overlays@[k].trip_id));
                let t = choose|t: int|
                    0 <= t < pre.trips@.len() && pre.trips@[t].trip_id == pre.overlays@[k].trip_id;
                assert(post.trips@[t].trip_id == post.overlays@[k].trip_id);
            }
            assert forall|k: int| 0 <= k < post.reservations@.len() implies {
                let r = #[trigger] post.reservations@[k];
                &&& post.has_trip(r.trip_id)
                &&& 1 <= r.seat_number <= post.trip_of(r.trip_id).capacity
                &&& r.reservation_id < post.next_reservation_id
                &&& !(post.status_of(r.trip_id) is Cancelled)
            } by {
                let r = post.reservations@[k];
                assert(pre.has_trip(r.trip_id));
                // the reservation's trip is an old one, so its lookup
                // lands below the appended row
                let t = choose|t: int|
                    0 <= t < pre.trips@.len() && pre.trips@[t].trip_id == r.trip_id;
                assert(post.trips@[t].trip_id == r.trip_id);
                assert(post.has_trip(r.trip_id));
                let kp = post.trip_index(r.trip_id);
                assert(post.trips@[kp].trip_id == r.trip_id);
                assert(kp < pre.trips@.len()) by {
                    if kp == pre.trips@.len() {
                        assert(post.trips@[kp] == trip);
                        assert(pre.has_trip(trip.trip_id));
                    }
                }
                assert(post.trips@[kp] == pre.trips@[kp]);
                pre.lemma_trip_index_is(kp);
                assert(post.trip_of(r.trip_id) == pre.trip_of(r.trip_id));
                Store::lemma_overlay_lookup_agrees(pre, post, r.trip_id);
            }
        }
        true
    }

    /// Position of the trip with this identity, if any.
    pub fn find_trip(&self, trip_id: u64) -> (r: Option<usize>)
        ensures
            match r {
                Some(i) => 0 <= i < self.trips@.len() && self.trips@[i as int].trip_id == trip_id,
                None => !self.has_trip(trip_id),
            },
    {
        let n = self.trips.len();
        let mut i: usize = 0;
        while i < n
            invariant
                0 <= i <= n,
                n == self.trips@.len(),
                forall|k: int| 0 <= k < i ==> (#[trigger] self.trips@[k]).trip_id != trip_id,
            decreases n - i,
        {
            if self.trips[i].trip_id == trip_id {
                return Some(i);
            }
            i += 1;
        }
        None
    }

    /// Position of the trip's overlay row, if any.
    pub fn find_overlay(&self, trip_id: u64) -> (r: Option<usize>)
        ensures
            match r {
                Some(i) => 0 <= i < self.overlays@.len() && self.overlays@[i as int].trip_id
                    == trip_id,
                None => !self.has_overlay(trip_id),
            },
    {
        let n = self.overlays.len();
        let mut i: usize = 0;
        while i < n
            invariant
                0 <= i <= n,
                n == self.overlays@.len(),
                forall|k: int| 0 <= k < i ==> (#[trigger] self.overlays@[k]).trip_id != trip_id,
            decreases n - i,
        {
            if self.overlays[i].trip_id == trip_id {
                return Some(i);
            }
            i += 1;
        }
        None
    }

    /// A trip's current operational status, `Scheduled` when no
    /// overlay row exists.
    pub fn current_status(&self, trip_id: u64) -> (k: StatusKind)
        requires
            self.wf(),
        ensures
            k == self.status_of(trip_id),
    {
        match self.find_overlay(trip_id) {
            Some(i) => {
                proof {
                    self.lemma_overlay_index_is(i as int);
                }
                self.overlays[i].kind
            },
            None => StatusKind::Scheduled,
        }
    }

    /// The users holding a seat on the trip, in storage order.
    pub fn holders_for(&self, trip_id: u64) -> (v: Vec<u64>)
        ensures
            v@ == self.holders(trip_id),
    {
        let n = self.reservations.len();
        let mut v: Vec<u64> = Vec::new();
        let mut i: usize = 0;
        while i < n
            invariant
                0 <= i <= n,
                n == self.reservations@.len(),
                v@ == holders_in(self.reservations@.subrange(0, i as int), trip_id),
            decreases n - i,
        {
            let ghost rs = self.reservations@;
            proof {
                lemma_resv_in_step(rs, i as int, trip_id);
            }
            let r = self.reservations[i];
            if r.trip_id == trip_id {
                v.push(r.user_id);
                proof {
                    assert(resv_in(rs.subrange(0, i + 1), trip_id) == resv_in(
                        rs.subrange(0, i as int),
                        trip_id,
                    ).push(r));
                    assert(holders_in(rs.subrange(0, i + 1), trip_id) =~= holders_in(
                        rs.subrange(0, i as int),
                        trip_id,
                    ).push(r.user_id));
                }
            }
            i += 1;
        }
        proof {
            assert(self.reservations@.subrange(0, n as int) =~= self.reservations@);
        }
        v
    }

    /// Largest seat number handed out so far on the trip, `0` when it
    /// has no reservations.
    pub fn max_seat_for(&self, trip_id: u64) -> (m: u32)
        ensures
            m as nat == max_seat_in(self.resv_for(trip_id)),
    {
        let n = self.reservations.len();
        let mut m: u32 = 0;
        let mut i: usize = 0;
        while i < n
            invariant
                0 <= i <= n,
                n == self.reservations@.len(),
                m as nat == max_seat_in(resv_in(self.reservations@.subrange(0, i as int), trip_id)),
            decreases n - i,
        {
            let ghost rs = self.reservations@;
            proof {
                lemma_resv_in_step(rs, i as int, trip_id);
                if rs[i as int].trip_id == trip_id {
                    let base = resv_in(rs.subrange(0, i as int), trip_id);
                    assert(base.push(rs[i as int]).drop_last() =~= base);
                    assert(base.push(rs[i as int]).last() == rs[i as int]);
                }
            }
            let r = self.reservations[i];
            if r.trip_id == trip_id && r.seat_number > m {
                m = r.seat_number;
            }
            i += 1;
        }
        proof {
            assert(self.reservations@.subrange(0, n as int) =~= self.reservations@);
        }
        m
    }

    /// The capacity store: a trip's total seat count, reached through
    /// its vehicle's type and read-only for the engine.
    pub fn capacity_of(&self, trip_id: u64) -> (r: Option<u32>)
        requires
            self.wf(),
        ensures
            match r {
                Some(c) => self.has_trip(trip_id) && c == self.trip_of(trip_id).capacity,
                None => !self.has_trip(trip_id),
            },
    {
        match self.find_trip(trip_id) {
            Some(i) => {
                proof {
                    self.lemma_trip_index_is(i as int);
                }
                Some(self.trips[i].capacity)
            },
            None => None,
        }
    }

    /// All reservations held by one user, in storage order: the
    /// traveler's own bookings listing.
    pub fn reservations_of_user(&self, user_id: u64) -> (v: Vec<Reservation>)
        ensures
            v@ == self.reservations@.filter(|r: Reservation| r.user_id == user_id),
    {
        let ghost pred = |r: Reservation| r.user_id == user_id;
        let n = self.reservations.len();
        let mut v: Vec<Reservation> = Vec::new();
        let mut i: usize = 0;
        while i < n
            invariant
                0 <= i <= n,
                n == self.reservations@.len(),
                v@ == self.reservations@.subrange(0, i as int).filter(pred),
            decreases n - i,
        {
            proof {
                crate::filtering::lemma_filter_prefix_step(self.reservations@, i as int, pred);
            }
            let r = self.reservations[i];
            if r.user_id == user_id {
                v.push(r);
            }
            i += 1;
        }
        proof {
            assert(self.reservations@.subrange(0, n as int) =~= self.reservations@);
        }
        v
    }

    /// Whether the user already holds a seat on the trip.
    pub fn user_has_booking(&self, trip_id: u64, user_id: u64) -> (b: bool)
        ensures
            b == self.has_booking(trip_id, user_id),
    {
        let n = self.reservations.len();
        let mut i: usize = 0;
        while i < n
            invariant
                0 <= i <= n,
                n == self.reservations@.len(),
                forall|k: int|
                    0 <= k < i ==> !((#[trigger] self.reservations@[k]).trip_id == trip_id
                        && self.reservations@[k].user_id == user_id),
            decreases n - i,
        {
            let r = self.reservations[i];
            if r.trip_id == trip_id && r.user_id == user_id {
                return true;
            }
            i += 1;
        }
        false
    }
}

} // verus!
