//! Data the browser view works with: a question as the client receives it,
//! the view component's properties, and the tag formatting shown under a
//! question.

use vstd::prelude::*;
use vstd::string::StringExecFns;

verus! {

/// A question as the client fetches it: the server's question fields plus the
/// answer text, when one is stored.
#[derive(Debug, Clone)]
pub struct QuestionStruct {
    pub id: u32,
    pub title: String,
    pub content: String,
    pub tags: Option<Vec<String>>,
    pub answer: Option<String>,
}

/// The properties handed to the view component: the questions to render.
#[derive(Debug, Clone)]
pub struct QuestionProps {
    pub question: Vec<QuestionStruct>,
}

/// The tag names joined with a comma and a space between each two.
pub open spec fn joined_tags(tags: Seq<Seq<char>>) -> Seq<char>
    decreases tags.len(),
{
    if tags.len() == 0 {
        Seq::empty()
    } else if tags.len() == 1 {
        tags[0]
    } else {
        joined_tags(tags.drop_last()) + ", "@ + tags.last()
    }
}

/// The URL the client fetches: the question list, or one question by key.
pub fn question_request_url(key: Option<&String>) -> (r: String)
    ensures
        match key {
            None => r@ == "http://localhost:3000/api/v1/questions"@,
            Some(k) => r@ == "http://localhost:3000/api/v1/questions/"@ + k@,
        },
{
    match key {
        None => "http://localhost:3000/api/v1/questions".to_owned(),
        Some(k) => {
            let mut url = "http://localhost:3000/api/v1/questions/".to_owned();
            url.append(k.as_str());
            url
        },
    }
}

/// The answer line the view shows: the stored text with a full stop, or a
/// placeholder when no answer is stored yet.
pub fn answer_display(answer: &Option<String>) -> (r: String)
    ensures
        match answer {
            Some(a) => r@ == a@ + "."@,
            None => r@ == "No Answer yet."@,
        },
{
    match answer {
        Some(a) => {
            let mut line = a.clone();
            line.append(".");
            line
        },
        None => "No Answer yet.".to_owned(),
    }
}

/// Renders a tag list for display: the names separated by ", ".
pub fn format_tags(tags: &Vec<String>) -> (r: String)
    ensures
        r@ == joined_tags(tags.deep_view()),
{
    let mut out = String::new();
    let mut i: usize = 0;
    while i < tags.len()
        invariant
            i <= tags.len(),
            out@ == joined_tags(tags.deep_view().take(i as int)),
        decreases tags.len() - i,
    {
        proof {
            assert(tags.deep_view().take(i as int + 1).drop_last() =~= tags.deep_view().take(
                i as int,
            ));
            assert(tags.deep_view().take(i as int + 1).last() == tags.deep_view()[i as int]);
        }
        if i > 0 {
            out.append(", ");
        }
        out.append(tags[i].as_str());
        i = i + 1;
    }
    proof {
        assert(tags.deep_view().take(tags.len() as int) =~= tags.deep_view());
    }
    out
}

} // verus!
