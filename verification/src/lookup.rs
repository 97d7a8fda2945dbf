//! Work that has to ask for something before it can go on.
//!
//! A lookup is given everything that was answered so far. It either says what
//! has to be asked for next, or it is done.
use vstd::prelude::*;

verus! {

/// How far a lookup has come.
#[derive(Debug)]
pub enum Lookup<Q, T> {
    /// Ask for this, and come back with the answer behind the earlier ones.
    Ask(Q),
    /// Nothing more has to be asked for.
    Done(T),
}

} // verus!
