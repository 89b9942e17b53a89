//! The live-round engine of a multiplayer kanji quiz: the authoritative
//! in-memory state of the current question set, per-participant combo
//! streaks and the running countdown, the answer-judging transition, and
//! the fan-out of state-change events to any number of subscribers.
//!
//! Everything here is verified. The surrounding program owns the lock,
//! the clock task and the HTTP edges, and calls in with plain values;
//! the contracts state exactly what each call returns and changes.

pub mod domain;
pub mod error;
pub mod game;
pub mod kanji;
pub mod questions;
pub mod ranking;
pub mod sse_event;
pub mod strutil;
pub mod user;
