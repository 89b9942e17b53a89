use vstd::prelude::*;

verus! {

/// An answer submission in the handheld client's shape: the question and
/// the numeric kanji code point it chose.
#[derive(Debug)]
pub struct ReceiveAnswerRequest {
    pub question_index: usize,
    pub kanji_id: u32,
}

/// The bare verdict the handheld client gets back.
#[derive(Debug)]
pub struct Response {
    pub result: bool,
}

} // verus!
