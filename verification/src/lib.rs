//! Decision logic of a desktop calendar notifier: reminder lists,
//! notification windows, the local store model, token bookkeeping,
//! the OAuth loopback protocol and the Calendar API event mapping.

pub mod text;

pub mod reminders;
pub mod table;
pub mod store;
pub mod order;
pub mod secrets;
pub mod auth;
pub mod google;
pub mod commands;
pub mod scheduler;
pub mod laws;
