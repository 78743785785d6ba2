//! Error kinds for the question bank, and the `{status, error}` body that the
//! API layer serves for a failed request.

use vstd::prelude::*;

verus! {

/// Everything that can go wrong inside the question bank.
#[derive(Debug, Clone, PartialEq, Eq, Structural)]
pub enum QuestionBankErr {
    /// The question (or the question an answer belongs to) with this id is absent.
    NotFound(i32),
    /// The pagination offset lies beyond the stored questions.
    PaginationInvalid,
    /// The payload fails a required-field invariant (an answer without a question id).
    Unprocessable,
    /// The target of an update is missing.
    NoPayload,
    /// The store itself failed (its id space is exhausted).
    IoError,
}

impl QuestionBankErr {
    /// The wording served for each error kind.
    pub open spec fn message_spec(self) -> Seq<char> {
        match self {
            QuestionBankErr::NotFound(_) => "Question doesn't exist"@,
            QuestionBankErr::PaginationInvalid => "Invalid query parameter values"@,
            QuestionBankErr::Unprocessable => "Question payload unprocessable"@,
            QuestionBankErr::NoPayload => "Missing question payload"@,
            QuestionBankErr::IoError => "Questionbank io failed"@,
        }
    }

    /// Renders the error as the string served in an error body.
    pub fn message(&self) -> (r: String)
        ensures
            r@ == self.message_spec(),
    {
        match self {
            QuestionBankErr::NotFound(_) => "Question doesn't exist".to_owned(),
            QuestionBankErr::PaginationInvalid => "Invalid query parameter values".to_owned(),
            QuestionBankErr::Unprocessable => "Question payload unprocessable".to_owned(),
            QuestionBankErr::NoPayload => "Missing question payload".to_owned(),
            QuestionBankErr::IoError => "Questionbank io failed".to_owned(),
        }
    }

    /// The HTTP status an update request answers with for this error:
    /// an unprocessable payload is 422, a missing target 404, anything else 400.
    pub fn update_status(&self) -> (s: u16)
        ensures
            s == 422 <==> self is Unprocessable,
            s == 404 <==> self is NoPayload,
            self !is Unprocessable && self !is NoPayload ==> s == 400,
    {
        match self {
            QuestionBankErr::Unprocessable => 422,
            QuestionBankErr::NoPayload => 404,
            _ => 400,
        }
    }
}

/// The body of an error response: an HTTP status and the error wording.
#[derive(Debug, Clone)]
pub struct QuestionBankError {
    pub status: u16,
    pub error: String,
}

impl QuestionBankError {
    /// Builds the error body served for a failed request.
    pub fn response(status: u16, error: &QuestionBankErr) -> (r: QuestionBankError)
        ensures
            r.status == status,
            r.error@ == error.message_spec(),
    {
        QuestionBankError { status, error: error.message() }
    }
}

} // verus!
