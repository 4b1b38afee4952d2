//! Trigger bookkeeping for an amateur-radio spotting alert service: trigger
//! identity, profile reconciliation, callsign notes and the small decisions
//! a command-line client takes around them.

pub mod catalog;
pub mod display;
pub mod json;
pub mod notes;
pub mod options;
pub mod profile;
pub mod request;
pub mod session;
pub mod text;
pub mod trigger;
