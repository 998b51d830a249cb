//! The data types shared by the collectors, the reducer and the clients.

pub mod events;
pub mod pane_view;
pub mod project;
pub mod raw_signals;
