use vstd::prelude::*;

use crate::questions::Questions;
use crate::user::User;
use tokio::sync::broadcast;

verus! {

#[verifier::external_type_specification]
#[verifier::external_body]
#[verifier::reject_recursive_types(T)]
pub struct ExSender<T>(broadcast::Sender<T>);

/// A state-change notification fanned out to every attached subscriber:
/// the freshly reshuffled round, the countdown's standing (both clocks,
/// so a subscriber can render the remaining percentage at full
/// resolution), the outcome of a judged answer, or the grown ranking
/// list.
#[derive(Clone)]
pub enum SseEvent {
    ReloadQuestions { questions: Questions },
    RemainingTimePercentage { remaining_ms: u64, total_ms: u64 },
    Answer { index: usize, is_correct: bool },
    UpdateRanking { ranking: Vec<User> },
}

impl SseEvent {
    /// Relies on tokio's `broadcast::Sender::send`: the event reaches
    /// every receiver attached right now, in send order; with none
    /// attached the send fails, which the engine deliberately ignores
    /// rather than surfacing.
    #[verifier::external_body]
    pub fn send_by(self, tx: &broadcast::Sender<SseEvent>) {
        let _ = tx.send(self);
    }
}

} // verus!
