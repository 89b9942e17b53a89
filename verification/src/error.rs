use vstd::prelude::*;

verus! {

/// The failure taxonomy of the round engine.
///
/// `NotFound` is the only error a caller ever has to act on: an unknown
/// question index or participant id. The remaining kinds describe
/// best-effort side work (event delivery, ranking persistence) whose
/// failure is logged by the surrounding program and never surfaced.
#[derive(Clone, Copy, Debug, PartialEq, Eq, Structural)]
pub enum OsakanaError {
    NotFound,
    SerializationFailure,
    IoFailure,
    ChannelFailure,
}

} // verus!
