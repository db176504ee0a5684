//! The worker: reservations, finding workers and reaching consensus.
pub mod broadcast;
pub mod consensus;
pub mod model;
pub mod proto;
