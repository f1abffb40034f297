use shuttle_core::reserve::decide_booking;
use shuttle_core::store::Store;
use shuttle_core::types::{ApiError, Booking, StatusKind, Trip};

fn trip(id: u64, departure: i64, capacity: u32) -> Trip {
    Trip {
        trip_id: id,
        route_id: 10,
        vehicle_id: 20,
        departure_time: departure,
        arrival_time: departure + 3600,
        capacity,
        notified: false,
    }
}

const FAR: i64 = 1_000_000_000;

fn store_with_trip(capacity: u32) -> Store {
    let mut s = Store::new();
    assert!(s.add_trip(trip(1, FAR, capacity)));
    s
}

#[test]
fn capacity_exact_fill_and_overflow() {
    // capacity 3, five distinct users: exactly 3 successes with seats
    // {1,2,3}, then only CapacityExceeded
    let mut s = store_with_trip(3);
    let mut seats = Vec::new();
    let mut failures = 0;
    for user in 1..=5u64 {
        match s.create_reservation(1, user, 0) {
            Ok(b) => seats.push(b.reservation.seat_number),
            Err(e) => {
                assert_eq!(e, ApiError::CapacityExceeded);
                failures += 1;
            }
        }
    }
    seats.sort();
    assert_eq!(seats, vec![1, 2, 3]);
    assert_eq!(failures, 2);
    assert_eq!(s.holders_for(1).len(), 3);
}

#[test]
fn duplicate_booking_conflicts() {
    let mut s = store_with_trip(3);
    let first = s.create_reservation(1, 7, 0).unwrap();
    assert_eq!(first.reservation.seat_number, 1);
    let second = s.create_reservation(1, 7, 0);
    assert_eq!(second.unwrap_err(), ApiError::Conflict);
    assert_eq!(s.reservations_of_user(7).len(), 1);
}

#[test]
fn booking_unknown_trip_not_found() {
    let mut s = Store::new();
    assert_eq!(s.create_reservation(99, 1, 0).unwrap_err(), ApiError::NotFound);
}

#[test]
fn seat_counter_never_reuses_freed_seats() {
    // the per-trip counter moves strictly upward: freeing seat 2 of 3
    // does not reopen the trip
    let mut s = store_with_trip(3);
    let _a = s.create_reservation(1, 1, 0).unwrap();
    let b = s.create_reservation(1, 2, 0).unwrap();
    let _c = s.create_reservation(1, 3, 0).unwrap();
    s.cancel_reservation(b.reservation.reservation_id, 2).unwrap();
    assert_eq!(s.create_reservation(1, 4, 0).unwrap_err(), ApiError::CapacityExceeded);
    assert_eq!(s.max_seat_for(1), 3);
}

#[test]
fn cancellation_cascade_purges_and_blocks() {
    let mut s = store_with_trip(5);
    s.create_reservation(1, 1, 0).unwrap();
    s.create_reservation(1, 2, 0).unwrap();
    let notice = s
        .set_trip_status(1, StatusKind::Cancelled, Some("storm".to_string()), true)
        .unwrap()
        .expect("two holders should be notified");
    assert_eq!(notice.recipients, vec![1, 2]);
    assert_eq!(s.holders_for(1).len(), 0);
    assert_eq!(s.current_status(1), StatusKind::Cancelled);
    assert_eq!(s.create_reservation(1, 3, 0).unwrap_err(), ApiError::ServiceUnavailable);
    // reset makes the trip bookable again
    s.set_trip_status(1, StatusKind::Scheduled, None, true).unwrap();
    assert_eq!(s.current_status(1), StatusKind::Scheduled);
    let again = s.create_reservation(1, 3, 0).unwrap();
    assert_eq!(again.reservation.seat_number, 1);
}

#[test]
fn status_reset_is_idempotent() {
    let mut s = store_with_trip(2);
    s.create_reservation(1, 9, 0).unwrap();
    let r = s.set_trip_status(1, StatusKind::Scheduled, None, true);
    assert_eq!(r, Ok(None));
    assert_eq!(s.current_status(1), StatusKind::Scheduled);
    assert_eq!(s.holders_for(1), vec![9]);
}

#[test]
fn delayed_status_notifies_without_purging() {
    let mut s = store_with_trip(2);
    s.create_reservation(1, 4, 0).unwrap();
    let notice = s
        .set_trip_status(1, StatusKind::Delayed, Some("fog".to_string()), true)
        .unwrap()
        .expect("one holder should be notified");
    assert_eq!(notice.recipients, vec![4]);
    assert_eq!(s.current_status(1), StatusKind::Delayed);
    assert_eq!(s.holders_for(1), vec![4]);
}

#[test]
fn status_change_without_holders_is_silent() {
    let mut s = store_with_trip(2);
    let r = s.set_trip_status(1, StatusKind::Delayed, None, true).unwrap();
    assert!(r.is_none());
}

#[test]
fn status_change_requires_admin() {
    let mut s = store_with_trip(2);
    let r = s.set_trip_status(1, StatusKind::Cancelled, None, false);
    assert_eq!(r.unwrap_err(), ApiError::Forbidden);
    assert_eq!(s.current_status(1), StatusKind::Scheduled);
}

#[test]
fn status_write_on_unknown_trip_is_internal() {
    let mut s = Store::new();
    let r = s.set_trip_status(42, StatusKind::Delayed, None, true);
    assert_eq!(r.unwrap_err(), ApiError::Internal);
    // a reset on an unknown trip deletes nothing and succeeds
    assert_eq!(s.set_trip_status(42, StatusKind::Scheduled, None, true), Ok(None));
}

#[test]
fn status_words_parse_and_round_trip() {
    let mut s = store_with_trip(2);
    s.create_reservation(1, 5, 0).unwrap();
    let r = s.set_trip_status_str(1, "delayed", None, true).unwrap();
    assert!(r.is_some());
    assert_eq!(s.current_status(1), StatusKind::Delayed);
    let bad = s.set_trip_status_str(1, "vanished", None, true);
    assert_eq!(bad.unwrap_err(), ApiError::BadRequest);
    assert_eq!(s.current_status(1), StatusKind::Delayed);
    for k in [StatusKind::Scheduled, StatusKind::Delayed, StatusKind::Cancelled] {
        assert_eq!(shuttle_core::status::parse_status(shuttle_core::status::status_label(k)), Some(k));
    }
    assert_eq!(shuttle_core::status::parse_status("SCHEDULED"), None);
}

#[test]
fn cancel_own_reservation_succeeds() {
    let mut s = store_with_trip(3);
    let b = s.create_reservation(1, 8, 0).unwrap();
    assert_eq!(s.cancel_reservation(b.reservation.reservation_id, 8), Ok(()));
    assert!(s.reservations_of_user(8).is_empty());
}

#[test]
fn cancel_someone_elses_reservation_is_not_found() {
    let mut s = store_with_trip(3);
    let b = s.create_reservation(1, 8, 0).unwrap();
    let r = s.cancel_reservation(b.reservation.reservation_id, 9);
    assert_eq!(r.unwrap_err(), ApiError::NotFound);
    // the reservation is intact
    assert_eq!(s.reservations_of_user(8).len(), 1);
    assert!(s.user_has_booking(1, 8));
}

#[test]
fn cancel_unknown_reservation_is_not_found() {
    let mut s = store_with_trip(3);
    assert_eq!(s.cancel_reservation(777, 8).unwrap_err(), ApiError::NotFound);
}

#[test]
fn force_delete_ignores_ownership() {
    let mut s = store_with_trip(3);
    let b = s.create_reservation(1, 8, 0).unwrap();
    assert_eq!(s.force_delete_reservation(b.reservation.reservation_id), Ok(()));
    assert!(!s.user_has_booking(1, 8));
    assert_eq!(s.force_delete_reservation(b.reservation.reservation_id).unwrap_err(), ApiError::NotFound);
}

#[test]
fn maintenance_gate_blocks_only_bookings() {
    let mut s = store_with_trip(3);
    let b = s.create_reservation(1, 1, 0).unwrap();
    assert_eq!(s.set_maintenance_mode(true, false).unwrap_err(), ApiError::Forbidden);
    assert!(!s.maintenance_mode());
    s.set_maintenance_mode(true, true).unwrap();
    assert!(s.maintenance_mode());
    // blocked regardless of capacity or caller
    assert_eq!(s.create_reservation(1, 2, 0).unwrap_err(), ApiError::ServiceUnavailable);
    assert_eq!(s.create_reservation(99, 3, 0).unwrap_err(), ApiError::ServiceUnavailable);
    // cancellation and status changes ignore maintenance mode
    assert_eq!(s.cancel_reservation(b.reservation.reservation_id, 1), Ok(()));
    assert!(s.set_trip_status(1, StatusKind::Delayed, None, true).is_ok());
    s.set_maintenance_mode(false, true).unwrap();
    assert!(s.create_reservation(1, 2, 0).is_ok());
}

#[test]
fn decide_booking_gate_order() {
    // maintenance wins over everything
    assert_eq!(
        decide_booking(true, false, false, 0, 0, false),
        Err(ApiError::ServiceUnavailable)
    );
    assert_eq!(decide_booking(false, false, false, 0, 5, false), Err(ApiError::NotFound));
    assert_eq!(
        decide_booking(false, true, true, 0, 5, false),
        Err(ApiError::ServiceUnavailable)
    );
    assert_eq!(
        decide_booking(false, true, false, 5, 5, true),
        Err(ApiError::CapacityExceeded)
    );
    assert_eq!(decide_booking(false, true, false, 2, 5, true), Err(ApiError::Conflict));
    assert_eq!(decide_booking(false, true, false, 2, 5, false), Ok(3));
    assert_eq!(decide_booking(false, true, false, 0, 1, false), Ok(1));
}

#[test]
fn add_trip_refuses_duplicate_identity() {
    let mut s = Store::new();
    assert!(s.add_trip(trip(1, FAR, 3)));
    assert!(!s.add_trip(trip(1, FAR + 5, 9)));
    assert_eq!(s.trips.len(), 1);
}

#[test]
fn booking_result_carries_row_values() {
    let mut s = store_with_trip(2);
    let b: Booking = s.create_reservation(1, 31, 0).unwrap();
    assert_eq!(b.reservation.trip_id, 1);
    assert_eq!(b.reservation.user_id, 31);
    assert_eq!(b.reservation.seat_number, 1);
    assert!(b.notice.is_none());
    let b2 = s.create_reservation(1, 32, 0).unwrap();
    assert!(b2.reservation.reservation_id > b.reservation.reservation_id);
    assert_eq!(b2.reservation.seat_number, 2);
}

#[test]
fn capacity_store_reads_through_the_trip() {
    let mut s = store_with_trip(7);
    assert_eq!(s.capacity_of(1), Some(7));
    assert_eq!(s.capacity_of(2), None);
    // bookings never change it
    s.create_reservation(1, 1, 0).unwrap();
    assert_eq!(s.capacity_of(1), Some(7));
}
