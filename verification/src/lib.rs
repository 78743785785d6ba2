//! A question-bank library: questions with tags and answers, stored in three
//! relational-style tables (questions, tags, and a question/tag junction
//! table) plus an answer table, with paginated retrieval and full CRUD.

mod answer;
mod errors;
mod laws;
mod model;
mod pagination;
mod question;
mod questionbank;
mod rows;
mod view;
mod web;

pub use answer::Answer;
pub use answer::AnswerView;
pub use errors::QuestionBankErr;
pub use errors::QuestionBankError;
pub use laws::lemma_add_then_get;
pub use laws::lemma_delete_then_get;
pub use laws::lemma_update_replaces_tags;
pub use model::first_answer_of;
pub use model::BankView;
pub use pagination::Pagination;
pub use question::Question;
pub use question::QuestionView;
pub use questionbank::QuestionBank;
pub use rows::AnswerRow;
pub use rows::AnswerRowView;
pub use rows::LinkRow;
pub use rows::LinkRowView;
pub use rows::QuestionRow;
pub use rows::QuestionRowView;
pub use rows::TagRow;
pub use rows::TagRowView;
pub use view::answer_display;
pub use view::format_tags;
pub use view::joined_tags;
pub use view::question_request_url;
pub use view::QuestionProps;
pub use view::QuestionStruct;
pub use web::IndexTemplate;
