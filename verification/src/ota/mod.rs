//! Over-the-air firmware updates: trigger messages, download addresses, and
//! the progress of an update.

pub mod message;
pub mod state;
pub mod update;
pub mod url;
