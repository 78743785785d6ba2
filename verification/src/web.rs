//! The data behind the one templated HTML page: the question it embeds.

use vstd::prelude::*;
use crate::question::Question;

verus! {

/// What the index page renders: one question.
#[derive(Debug, Clone)]
pub struct IndexTemplate {
    pub question: Question,
}

impl IndexTemplate {
    /// Wraps the question the page will embed.
    pub fn new(question: Question) -> (t: Self)
        ensures
            t.question == question,
    {
        Self { question }
    }
}

} // verus!
