//! The decisions behind each endpoint.
pub mod label_selector;
pub mod run_archive;
pub mod run_discovery;
pub mod run_event_stream;
pub mod runs_by_label;
pub mod step_log_stream;
