//! The rows of the four store tables: questions, tags, the question/tag
//! junction table, and answers.

use vstd::prelude::*;

verus! {

/// A row of the questions table.
#[derive(Debug, Clone)]
pub struct QuestionRow {
    pub id: i32,
    pub title: String,
    pub content: String,
}

/// A row of the tags table. Tag names are not deduplicated: every insert
/// makes a fresh row, even under a name that already exists.
#[derive(Debug, Clone)]
pub struct TagRow {
    pub id: i32,
    pub name: String,
}

/// A row of the junction table linking a question to a tag.
#[derive(Debug, Clone, Copy)]
pub struct LinkRow {
    pub question_id: i32,
    pub tag_id: i32,
}

/// A row of the answers table.
#[derive(Debug, Clone)]
pub struct AnswerRow {
    pub id: i32,
    pub answer: String,
    pub question_id: i32,
}

/// Model of a question row.
pub struct QuestionRowView {
    pub id: int,
    pub title: Seq<char>,
    pub content: Seq<char>,
}

/// Model of a tag row.
pub struct TagRowView {
    pub id: int,
    pub name: Seq<char>,
}

/// Model of a junction row.
pub struct LinkRowView {
    pub question_id: int,
    pub tag_id: int,
}

/// Model of an answer row.
pub struct AnswerRowView {
    pub id: int,
    pub answer: Seq<char>,
    pub question_id: int,
}

impl View for QuestionRow {
    type V = QuestionRowView;

    open spec fn view(&self) -> QuestionRowView {
        QuestionRowView { id: self.id as int, title: self.title@, content: self.content@ }
    }
}

impl DeepView for QuestionRow {
    type V = QuestionRowView;

    open spec fn deep_view(&self) -> QuestionRowView {
        self@
    }
}

impl View for TagRow {
    type V = TagRowView;

    open spec fn view(&self) -> TagRowView {
        TagRowView { id: self.id as int, name: self.name@ }
    }
}

impl DeepView for TagRow {
    type V = TagRowView;

    open spec fn deep_view(&self) -> TagRowView {
        self@
    }
}

impl View for LinkRow {
    type V = LinkRowView;

    open spec fn view(&self) -> LinkRowView {
        LinkRowView { question_id: self.question_id as int, tag_id: self.tag_id as int }
    }
}

impl DeepView for LinkRow {
    type V = LinkRowView;

    open spec fn deep_view(&self) -> LinkRowView {
        self@
    }
}

impl View for AnswerRow {
    type V = AnswerRowView;

    open spec fn view(&self) -> AnswerRowView {
        AnswerRowView {
            id: self.id as int,
            answer: self.answer@,
            question_id: self.question_id as int,
        }
    }
}

impl DeepView for AnswerRow {
    type V = AnswerRowView;

    open spec fn deep_view(&self) -> AnswerRowView {
        self@
    }
}

} // verus!
