use shuttle_core::store::Store;
use shuttle_core::types::{check_in_window, Event, StatusKind, Trip, REMINDER_WINDOW_SECS};

fn trip(id: u64, departure: i64) -> Trip {
    Trip {
        trip_id: id,
        route_id: 10,
        vehicle_id: 20,
        departure_time: departure,
        arrival_time: departure + 3600,
        capacity: 10,
        notified: false,
    }
}

#[test]
fn window_bounds() {
    assert!(check_in_window(1, 0));
    assert!(check_in_window(REMINDER_WINDOW_SECS, 0));
    assert!(!check_in_window(REMINDER_WINDOW_SECS + 1, 0));
    assert!(!check_in_window(0, 0));
    assert!(!check_in_window(-5, 0));
    // widened arithmetic keeps extreme clocks safe
    assert!(!check_in_window(i64::MAX, i64::MIN));
}

#[test]
fn reminder_sent_at_most_once() {
    let mut s = Store::new();
    s.add_trip(trip(1, 3600));
    s.create_reservation(1, 5, 0).unwrap();
    let notices = s.scheduler_tick(0);
    assert_eq!(notices.len(), 1);
    assert_eq!(notices[0].event, Event::PeriodicReminder { trip_id: 1 });
    assert_eq!(notices[0].recipients, vec![5]);
    assert!(s.trips[0].notified);
    // a later tick before departure stays silent
    let again = s.scheduler_tick(60);
    assert!(again.is_empty());
}

#[test]
fn reminder_deferred_until_someone_books() {
    let mut s = Store::new();
    s.add_trip(trip(1, 3600));
    let none_yet = s.scheduler_tick(0);
    assert!(none_yet.is_empty());
    assert!(!s.trips[0].notified);
    s.create_reservation(1, 6, 0).unwrap();
    let notices = s.scheduler_tick(60);
    assert_eq!(notices.len(), 1);
    assert_eq!(notices[0].event, Event::PeriodicReminder { trip_id: 1 });
    assert_eq!(notices[0].recipients, vec![6]);
    assert!(s.trips[0].notified);
}

#[test]
fn tick_scans_only_the_window() {
    let mut s = Store::new();
    s.add_trip(trip(1, 100));                          // inside
    s.add_trip(trip(2, REMINDER_WINDOW_SECS + 500));   // beyond the window
    s.add_trip(trip(3, -100));                         // departed
    s.create_reservation(1, 1, 0).unwrap();
    s.create_reservation(2, 1, 0).unwrap();
    s.create_reservation(3, 1, i64::MIN / 2).unwrap();
    let notices = s.scheduler_tick(0);
    assert_eq!(notices.len(), 1);
    assert_eq!(notices[0].event, Event::PeriodicReminder { trip_id: 1 });
    assert!(s.trips[0].notified);
    assert!(!s.trips[1].notified);
    assert!(!s.trips[2].notified);
}

#[test]
fn tick_reminds_several_due_trips_in_order() {
    let mut s = Store::new();
    s.add_trip(trip(1, 100));
    s.add_trip(trip(2, 200));
    s.create_reservation(1, 1, 0).unwrap();
    s.create_reservation(2, 2, 0).unwrap();
    s.create_reservation(2, 3, 0).unwrap();
    let notices = s.scheduler_tick(0);
    assert_eq!(notices.len(), 2);
    assert_eq!(notices[0].event, Event::PeriodicReminder { trip_id: 1 });
    assert_eq!(notices[1].event, Event::PeriodicReminder { trip_id: 2 });
    assert_eq!(notices[1].recipients, vec![2, 3]);
}

#[test]
fn last_minute_booking_raises_personal_reminder() {
    let mut s = Store::new();
    s.add_trip(trip(1, 7000));
    let b = s.create_reservation(1, 9, 0).unwrap();
    let n = b.notice.expect("booking inside the window is last-minute");
    assert_eq!(n.event, Event::PersonalReminder { trip_id: 1, user_id: 9 });
    assert_eq!(n.recipients, vec![9]);
    // a booking well before the window raises none
    let mut s2 = Store::new();
    s2.add_trip(trip(1, 100_000));
    assert!(s2.create_reservation(1, 9, 0).unwrap().notice.is_none());
}

#[test]
fn dispatch_resolves_recipients() {
    let mut s = Store::new();
    s.add_trip(trip(1, 100_000));
    // trip-wide events with no holders are silent
    assert!(s.dispatch(Event::PeriodicReminder { trip_id: 1 }).is_none());
    assert!(s
        .dispatch(Event::StatusChanged {
            trip_id: 1,
            status: StatusKind::Delayed,
            description: None,
        })
        .is_none());
    s.create_reservation(1, 2, 0).unwrap();
    s.create_reservation(1, 3, 0).unwrap();
    let n = s.dispatch(Event::PeriodicReminder { trip_id: 1 }).unwrap();
    assert_eq!(n.recipients, vec![2, 3]);
    // personal reminders always reach exactly their one traveler
    let p = s
        .dispatch(Event::PersonalReminder { trip_id: 1, user_id: 3 })
        .unwrap();
    assert_eq!(p.recipients, vec![3]);
}

#[test]
fn cancelled_trip_is_never_reminded() {
    let mut s = Store::new();
    s.add_trip(trip(1, 3600));
    s.create_reservation(1, 5, 0).unwrap();
    s.set_trip_status(1, StatusKind::Cancelled, None, true).unwrap();
    // the cascade removed the holders, so the tick stays silent
    let notices = s.scheduler_tick(0);
    assert!(notices.is_empty());
    assert!(!s.trips[0].notified);
}
