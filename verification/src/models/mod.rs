//! What is sent to clients.
pub mod run_stream;
pub mod run_summary;
