//! The answer record: free text bound to exactly one question.

use vstd::prelude::*;

verus! {

/// An answer as served: `id` is assigned by the store, `question_id` names
/// the question it answers (absent only in a not-yet-validated payload).
#[derive(Debug, Clone)]
pub struct Answer {
    pub id: Option<i32>,
    pub answer: String,
    pub question_id: Option<i32>,
}

/// Mathematical model of an answer.
pub struct AnswerView {
    pub id: Option<int>,
    pub answer: Seq<char>,
    pub question_id: Option<int>,
}

impl View for Answer {
    type V = AnswerView;

    open spec fn view(&self) -> AnswerView {
        AnswerView {
            id: match self.id {
                Some(i) => Some(i as int),
                None => None,
            },
            answer: self.answer@,
            question_id: match self.question_id {
                Some(i) => Some(i as int),
                None => None,
            },
        }
    }
}

impl Answer {
    /// Builds an answer payload; the store assigns the id, so none is kept.
    pub fn new(_id: Option<i32>, answer: &str, question_id: Option<i32>) -> (a: Self)
        ensures
            a.id is None,
            a@.answer == answer@,
            a.question_id == question_id,
    {
        Self { id: None, answer: answer.to_owned(), question_id }
    }
}

} // verus!
