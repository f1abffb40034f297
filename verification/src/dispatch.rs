//! The notification dispatcher: resolves an event's recipient set and
//! decides whether anything is sent at all.  Building the concrete
//! message and delivering it belong to the external sink; a dispatch
//! with no recipients is a no-op, and delivery failures never reach
//! the engine.
use vstd::prelude::*;

use crate::store::Store;
use crate::types::{Event, Notification};

verus! {

/// Everything `dispatch` promises.  Trip-wide events reach every
/// current reservation holder and are dropped when there is none; a
/// personal reminder always reaches exactly its one traveler.
pub open spec fn dispatch_post(s: Store, event: Event, r: Option<Notification>) -> bool {
    match event {
        Event::StatusChanged { trip_id, .. } => trip_event_post(s, trip_id, event, r),
        Event::PeriodicReminder { trip_id } => trip_event_post(s, trip_id, event, r),
        Event::PersonalReminder { trip_id: _, user_id } => match r {
            Some(n) => n.recipients@ == seq![user_id] && n.event == event,
            None => false,
        },
    }
}

/// The trip-wide half of [`dispatch_post`]: all holders, or silence.
pub open spec fn trip_event_post(s: Store, trip_id: u64, event: Event, r: Option<
    Notification,
>) -> bool {
    if s.holders(trip_id).len() == 0 {
        r is None
    } else {
        match r {
            Some(n) => n.recipients@ == s.holders(trip_id) && n.event == event,
            None => false,
        }
    }
}

impl Store {
    /// Resolve an event into the notification to hand to the external
    /// message sink, or `None` when there is nobody to tell.
    pub fn dispatch(&self, event: Event) -> (r: Option<Notification>)
        ensures
            dispatch_post(*self, event, r),
    {
        let trip_id = match &event {
            Event::StatusChanged { trip_id, .. } => *trip_id,
            Event::PeriodicReminder { trip_id } => *trip_id,
            Event::PersonalReminder { trip_id, user_id } => {
                let mut recipients: Vec<u64> = Vec::new();
                recipients.push(*user_id);
                proof {
                    assert(recipients@ =~= seq![*user_id]);
                }
                return Some(Notification { recipients, event });
            },
        };
        let recipients = self.holders_for(trip_id);
        if recipients.len() == 0 {
            None
        } else {
            Some(Notification { recipients, event })
        }
    }
}

} // verus!
