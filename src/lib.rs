//! The protocol skeleton of a replay-protected two-message handshake and the
//! harness pieces that feed it captured or adversarial bytes: framing and
//! parsing, the responder's and initiator's verdicts, per-peer anti-replay
//! timestamps, the per-attempt state machine, and a chunk-size predicate.

use vstd::prelude::*;

pub mod bytes;
pub mod chunk;
pub mod handshake;
pub mod keys;
pub mod state;
pub mod timestamp;
pub mod transport;

verus! {

} // verus!
