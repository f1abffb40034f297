//! Reservation allocation and notification consistency engine for a
//! shuttle-bus service.
//!
//! Travelers book seats on scheduled trips, administrators drive trip
//! status and a global maintenance switch, and a periodic scheduler
//! reminds travelers shortly before departure.  The engine is modeled
//! as a single durable [`store::Store`] value; every operation is a
//! verified transition on it.  Transport, persistence and outbound
//! message delivery are collaborators around the engine: they hand in
//! plain values and perform the [`types::Notification`] actions the
//! engine returns.
#![verifier::loop_isolation(false)]

pub mod dispatch;
pub mod filtering;
pub mod gate;
pub mod laws;
pub mod reserve;
pub mod scheduler;
pub mod status;
pub mod store;
pub mod types;
