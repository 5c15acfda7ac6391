//! What polling an operation gives.

use vstd::prelude::*;

verus! {

/// The outcome of one poll.
#[derive(Debug, PartialEq, Eq, Structural)]
pub enum Polled<T> {
    Ready(T),
    Pending,
}

} // verus!
