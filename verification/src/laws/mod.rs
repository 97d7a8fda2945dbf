//! What the operations are for, as laws: each one says how the result of an
//! operation follows from what it was given, or how two results relate.
//!
//! A law speaks of a function by its contract: `call_ensures(f, args, r)` says
//! that `r` is a result of `f` for the arguments.
pub mod archive;
pub mod cluster;
pub mod discovery;
pub mod json;
pub mod listing;
pub mod lists;
pub mod log;
pub mod records;
pub mod status;
pub mod stream;
pub mod text;
