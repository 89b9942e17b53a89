use vstd::prelude::*;

verus! {

/// An answer submission as a request handler hands it in: who answers,
/// which question, and the kanji identifier they chose.
#[derive(Debug)]
pub struct ReceiveAnswerRequest {
    pub user_id: String,
    pub question_index: usize,
    pub kanji_unicode: String,
}

/// What the answerer learns back: the verdict and their resulting streak.
#[derive(Debug)]
pub struct Response {
    pub is_correct: bool,
    pub combo: u32,
}

} // verus!
