//! Run discovery and log streaming for Tekton pipelines.
//!
//! The crate holds the decisions of the service: how label selectors are
//! read, how a run is put together from the cluster's or the archive's JSON,
//! and what is sent to a client when. Everything here is verified; talking to
//! the cluster, to Postgres, to Loki and to HTTP clients is left to the
//! program around it.
pub mod db;
pub mod handlers;
pub mod json;
pub mod laws;
pub mod lookup;
pub mod models;
pub mod order;
pub mod routes;
pub mod text;
