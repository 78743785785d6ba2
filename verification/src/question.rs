//! The question record exposed by the library: an identifier, a title, some
//! content, and an optional list of tag names.

use vstd::prelude::*;

verus! {

/// A question as stored and served: `tags` is `None` when the question has no
/// tags at all (a stored question with zero linked tags reads back as `None`).
#[derive(Debug, Clone)]
pub struct Question {
    pub id: i32,
    pub title: String,
    pub content: String,
    pub tags: Option<Vec<String>>,
}

/// Mathematical model of a question: title and content as character
/// sequences, tags as a sequence of tag names (empty when absent).
pub struct QuestionView {
    pub id: int,
    pub title: Seq<char>,
    pub content: Seq<char>,
    pub tags: Seq<Seq<char>>,
}

impl View for Question {
    type V = QuestionView;

    open spec fn view(&self) -> QuestionView {
        QuestionView {
            id: self.id as int,
            title: self.title@,
            content: self.content@,
            tags: match self.tags {
                Some(ts) => ts.deep_view(),
                None => Seq::empty(),
            },
        }
    }
}

impl Question {
    /// Builds a question from its parts; an empty tag slice becomes `None`.
    pub fn new(id: i32, title: &str, content: &str, tags: &[&str]) -> (q: Self)
        ensures
            q@.id == id as int,
            q@.title == title@,
            q@.content == content@,
            q@.tags == tags.deep_view(),
            q.tags is Some <==> tags@.len() > 0,
    {
        let mut tag_vec: Vec<String> = Vec::new();
        let mut i: usize = 0;
        while i < tags.len()
            invariant
                i <= tags@.len(),
                tag_vec.deep_view() == tags.deep_view().take(i as int),
            decreases tags@.len() - i,
        {
            assert(tags.deep_view().take(i + 1).drop_last() == tags.deep_view().take(i as int));
            tag_vec.push(tags[i].to_owned());
            i = i + 1;
        }
        assert(tags.deep_view().take(tags@.len() as int) == tags.deep_view());
        let tags: Option<Vec<String>> = if tag_vec.is_empty() {
            None
        } else {
            Some(tag_vec)
        };
        Self { id, title: title.to_owned(), content: content.to_owned(), tags }
    }
}

} // verus!
