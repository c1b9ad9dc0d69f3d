//! Verified core of a turn-based board game's multiplayer session layer.
//!
//! The crate covers the wire codec (a textual envelope carrying JSON
//! payloads), the per-connection handshake state machine, the match
//! lifecycle with its quorum rule, and the persistent profile store.
//! Transport and file I/O live outside; they hand this crate plain bytes
//! and values and perform the actions it decides on.

pub mod bytes;
pub mod client;
pub mod codec;
pub mod game;
pub mod json;
pub mod packets;
pub mod server;
pub mod session;

use vstd::prelude::*;

verus! {

/// A plain pair of values.
pub struct Pair<F, S>(pub F, pub S);

impl<F, S> Pair<F, S> {
    pub fn new(first: F, second: S) -> (r: Self)
        ensures
            r.0 == first,
            r.1 == second,
    {
        Pair(first, second)
    }
}

} // verus!
