use vstd::prelude::*;

use crate::questions::Question;

verus! {

/// The read-only snapshot of the current round handed to a display.
#[derive(Debug)]
pub struct GetCurrentQuestionsResponse {
    pub current_questions: Vec<Question>,
}

/// A round-length reconfiguration: the new duration in seconds.
#[derive(Debug)]
pub struct UpdateQuestionsTotalTimeRequest {
    pub time: u64,
}

} // verus!
