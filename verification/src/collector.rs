//! The collectors: pi sessions, project directories and herdr panes.

pub mod herdr;
pub mod pi;
pub mod project;
