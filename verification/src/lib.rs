//! Mission Control: a read-only birds-eye view over coding-agent panes.
//!
//! The collectors turn what herdr, pi session files and project directories
//! say into raw signals; the reducer joins them into one `PaneView` per pane
//! with flags and an attention level; the state store numbers the events
//! that a poll emits; the transport answers the JSON-RPC methods. Reading
//! files and sockets is left to the caller, which hands over plain values.

pub mod text;
pub mod lines;
pub mod json;
pub mod time;
pub mod schema;
pub mod collector;
pub mod state;
pub mod config;
pub mod path_map;
pub mod reducer;
pub mod transport;
pub mod daemon;
pub mod diagnose;
pub mod status;
pub mod render;
