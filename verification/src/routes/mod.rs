//! The answers to requests.
pub mod runs_by_label;
