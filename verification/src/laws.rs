//! Laws of the question bank, proved once and for all over the store model:
//! what a round trip through add and get yields, what a delete cascades to,
//! and how an update replaces a question's tag set.

use vstd::prelude::*;
use crate::model::{
    first_answer_of, lemma_has_question_same, lemma_links_without_sub, BankView,
};

verus! {

/// Adding a question and then getting it under the returned id yields its
/// title, its content and exactly the tag names that went in, in order — so
/// in particular the same tag set.
pub proof fn lemma_add_then_get(
    b: BankView,
    title: Seq<char>,
    content: Seq<char>,
    tags: Seq<Seq<char>>,
)
    requires
        b.wf(),
        b.can_add_question(tags.len()),
    ensures
        ({
            let post = b.add_q(title, content, tags);
            let id = b.next_question_id;
            &&& post.wf()
            &&& post.has_question(id)
            &&& post.question_row(id).title == title
            &&& post.question_row(id).content == content
            &&& post.tags_of(id) == tags
        }),
{
    let id = b.next_question_id;
    b.lemma_push_q(title, content);
    let mid = b.push_q(title, content);
    mid.lemma_with_tags(id, tags);
    let post = b.add_q(title, content, tags);
    lemma_has_question_same(mid, post, id);
    assert(Seq::<Seq<char>>::empty() + tags =~= tags);
    assert forall|i: int| 0 <= i < post.questions.len() && (#[trigger] post.questions[i]).id == id
        implies post.questions[i] == mid.question_row(id) by {
        mid.lemma_question_at(i);
    }
    let m = post.question_index(id);
    assert(0 <= m < post.questions.len() && post.questions[m].id == id);
}

/// Deleting a question makes a later get of the same id fail, and the delete
/// cascades: no junction row of the question survives and its answer lookup
/// comes back empty.
pub proof fn lemma_delete_then_get(b: BankView, qid: int)
    requires
        b.wf(),
    ensures
        ({
            let post = b.delete_q(qid);
            &&& post.wf()
            &&& !post.has_question(qid)
            &&& forall|i: int|
                0 <= i < post.links.len() ==> (#[trigger] post.links[i]).question_id != qid
            &&& first_answer_of(post.answers, qid) is None
        }),
{
    b.lemma_delete_q(qid);
    lemma_links_without_sub(b.links, qid);
}

/// Updating a question replaces its tag set entirely: afterwards its tag list
/// is exactly the new names, so a tag borne before but absent from the new
/// set no longer appears; every other question's tag list stays put.
pub proof fn lemma_update_replaces_tags(
    b: BankView,
    qid: int,
    title: Seq<char>,
    content: Seq<char>,
    tags: Seq<Seq<char>>,
)
    requires
        b.wf(),
        b.has_question(qid),
        b.can_add_tags(tags.len()),
    ensures
        ({
            let post = b.update_q(qid, title, content, tags);
            &&& post.wf()
            &&& post.tags_of(qid) == tags
            &&& forall|t: Seq<char>|
                b.tags_of(qid).contains(t) && !tags.contains(t) ==> !(
                #[trigger] post.tags_of(qid).contains(t))
            &&& forall|q2: int| q2 != qid ==> #[trigger] post.tags_of(q2) == b.tags_of(q2)
        }),
{
    b.lemma_replace_q(qid, title, content);
    let m1 = b.replace_q(qid, title, content);
    m1.lemma_drop_links(qid);
    let m2 = m1.drop_links(qid);
    lemma_has_question_same(m1, m2, qid);
    m2.lemma_with_tags(qid, tags);
    assert(Seq::<Seq<char>>::empty() + tags =~= tags);
}

} // verus!
