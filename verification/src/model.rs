//! Mathematical model of the store: the four tables as sequences of row
//! models, the id counters, the well-formedness invariant, and the effect of
//! every operation as a pure function on that model.

use vstd::prelude::*;
use crate::rows::{AnswerRowView, LinkRowView, QuestionRowView, TagRowView};

verus! {

/// The whole store at the model level. Rows appear in insertion order, which
/// for questions, tags and answers is ascending id order.
#[verifier::ext_equal]
pub struct BankView {
    pub questions: Seq<QuestionRowView>,
    pub tags: Seq<TagRowView>,
    pub links: Seq<LinkRowView>,
    pub answers: Seq<AnswerRowView>,
    pub next_question_id: int,
    pub next_tag_id: int,
    pub next_answer_id: int,
}

/// Whether some tag row carries this id.
pub open spec fn has_tag_in(tags: Seq<TagRowView>, tid: int) -> bool {
    exists|i: int| 0 <= i < tags.len() && (#[trigger] tags[i]).id == tid
}

/// The name of the tag row carrying this id (ids are unique in a well-formed
/// store, so the row is determined).
pub open spec fn tag_name(tags: Seq<TagRowView>, tid: int) -> Seq<char> {
    if has_tag_in(tags, tid) {
        tags[choose|i: int| 0 <= i < tags.len() && (#[trigger] tags[i]).id == tid].name
    } else {
        Seq::empty()
    }
}

/// The tag names linked to question `qid`, in junction-row order.
pub open spec fn tags_of_links(
    links: Seq<LinkRowView>,
    tags: Seq<TagRowView>,
    qid: int,
) -> Seq<Seq<char>>
    decreases links.len(),
{
    if links.len() == 0 {
        Seq::empty()
    } else {
        let rest = tags_of_links(links.drop_last(), tags, qid);
        if links.last().question_id == qid {
            rest.push(tag_name(tags, links.last().tag_id))
        } else {
            rest
        }
    }
}

/// The junction rows that survive deleting question `qid`.
pub open spec fn links_without(links: Seq<LinkRowView>, qid: int) -> Seq<LinkRowView>
    decreases links.len(),
{
    if links.len() == 0 {
        Seq::empty()
    } else {
        let rest = links_without(links.drop_last(), qid);
        if links.last().question_id != qid {
            rest.push(links.last())
        } else {
            rest
        }
    }
}

/// The question rows that survive deleting question `qid`.
pub open spec fn questions_without(qs: Seq<QuestionRowView>, qid: int) -> Seq<QuestionRowView>
    decreases qs.len(),
{
    if qs.len() == 0 {
        Seq::empty()
    } else {
        let rest = questions_without(qs.drop_last(), qid);
        if qs.last().id != qid {
            rest.push(qs.last())
        } else {
            rest
        }
    }
}

/// The answer rows that survive deleting question `qid`.
pub open spec fn answers_without(answers: Seq<AnswerRowView>, qid: int) -> Seq<AnswerRowView>
    decreases answers.len(),
{
    if answers.len() == 0 {
        Seq::empty()
    } else {
        let rest = answers_without(answers.drop_last(), qid);
        if answers.last().question_id != qid {
            rest.push(answers.last())
        } else {
            rest
        }
    }
}

/// The first stored answer for question `qid`, if any (the one a fetch-one
/// lookup returns).
pub open spec fn first_answer_of(answers: Seq<AnswerRowView>, qid: int) -> Option<AnswerRowView>
    decreases answers.len(),
{
    if answers.len() == 0 {
        None
    } else if answers[0].question_id == qid {
        Some(answers[0])
    } else {
        first_answer_of(answers.drop_first(), qid)
    }
}

/// The answer rows with the first answer of question `qid` rewritten to carry
/// `content`; unchanged when the question has no answer.
pub open spec fn update_first_answer(
    answers: Seq<AnswerRowView>,
    qid: int,
    content: Seq<char>,
) -> Seq<AnswerRowView>
    decreases answers.len(),
{
    if answers.len() == 0 {
        Seq::empty()
    } else if answers[0].question_id == qid {
        seq![
            AnswerRowView { id: answers[0].id, answer: content, question_id: answers[0].question_id },
        ] + answers.drop_first()
    } else {
        seq![answers[0]] + update_first_answer(answers.drop_first(), qid, content)
    }
}

/// The tag rows a single insert-per-name sequence creates, ids counting up
/// from `start`.
pub open spec fn new_tag_rows(start: int, names: Seq<Seq<char>>) -> Seq<TagRowView> {
    Seq::new(names.len(), |i: int| TagRowView { id: start + i, name: names[i] })
}

/// The junction rows linking question `qid` to `n` tags whose ids count up
/// from `start`.
pub open spec fn new_link_rows(qid: int, start: int, n: nat) -> Seq<LinkRowView> {
    Seq::new(n, |i: int| LinkRowView { question_id: qid, tag_id: start + i })
}

impl BankView {
    /// The store as created: no rows, every id counter at 1.
    pub open spec fn empty() -> BankView {
        BankView {
            questions: Seq::empty(),
            tags: Seq::empty(),
            links: Seq::empty(),
            answers: Seq::empty(),
            next_question_id: 1,
            next_tag_id: 1,
            next_answer_id: 1,
        }
    }

    /// Whether a question row carries this id.
    pub open spec fn has_question(self, qid: int) -> bool {
        exists|i: int| 0 <= i < self.questions.len() && (#[trigger] self.questions[i]).id == qid
    }

    /// The index of the question row carrying this id.
    pub open spec fn question_index(self, qid: int) -> int {
        choose|i: int| 0 <= i < self.questions.len() && (#[trigger] self.questions[i]).id == qid
    }

    /// The question row carrying this id.
    pub open spec fn question_row(self, qid: int) -> QuestionRowView
        recommends
            self.has_question(qid),
    {
        self.questions[self.question_index(qid)]
    }

    /// The tag names of question `qid`, in junction-row order.
    pub open spec fn tags_of(self, qid: int) -> Seq<Seq<char>> {
        tags_of_links(self.links, self.tags, qid)
    }

    /// Well-formedness: id counters in range; question, tag and answer ids
    /// ascending (hence unique) and below their counters; junction rows unique
    /// as pairs and pointing at existing questions and tags; answers pointing
    /// at existing questions.
    pub open spec fn wf(self) -> bool {
        &&& 1 <= self.next_question_id <= i32::MAX as int
        &&& 1 <= self.next_tag_id <= i32::MAX as int
        &&& 1 <= self.next_answer_id <= i32::MAX as int
        &&& forall|i: int|
            0 <= i < self.questions.len() ==> 1 <= (#[trigger] self.questions[i]).id
                < self.next_question_id
        &&& forall|i: int, j: int|
            0 <= i < j < self.questions.len() ==> (#[trigger] self.questions[i]).id < (
            #[trigger] self.questions[j]).id
        &&& forall|i: int|
            0 <= i < self.tags.len() ==> 1 <= (#[trigger] self.tags[i]).id < self.next_tag_id
        &&& forall|i: int, j: int|
            0 <= i < j < self.tags.len() ==> (#[trigger] self.tags[i]).id < (
            #[trigger] self.tags[j]).id
        &&& forall|i: int|
            0 <= i < self.links.len() ==> self.has_question(
                (#[trigger] self.links[i]).question_id,
            )
        &&& forall|i: int|
            0 <= i < self.links.len() ==> has_tag_in(self.tags, (#[trigger] self.links[i]).tag_id)
        &&& forall|i: int, j: int|
            0 <= i < j < self.links.len() ==> !((#[trigger] self.links[i]).question_id == (
            #[trigger] self.links[j]).question_id && self.links[i].tag_id == self.links[j].tag_id)
        &&& forall|i: int|
            0 <= i < self.answers.len() ==> 1 <= (#[trigger] self.answers[i]).id
                < self.next_answer_id
        &&& forall|i: int, j: int|
            0 <= i < j < self.answers.len() ==> (#[trigger] self.answers[i]).id < (
            #[trigger] self.answers[j]).id
        &&& forall|i: int|
            0 <= i < self.answers.len() ==> self.has_question(
                (#[trigger] self.answers[i]).question_id,
            )
    }

    /// Room for one more question row and `n` more tag rows.
    pub open spec fn can_add_question(self, n: nat) -> bool {
        self.next_question_id < i32::MAX as int && self.next_tag_id + n <= i32::MAX as int
    }

    /// Room for `n` more tag rows.
    pub open spec fn can_add_tags(self, n: nat) -> bool {
        self.next_tag_id + n <= i32::MAX as int
    }

    /// Room for one more answer row.
    pub open spec fn can_add_answer(self) -> bool {
        self.next_answer_id < i32::MAX as int
    }

    /// The store after inserting one question row under the next id.
    pub open spec fn push_q(self, title: Seq<char>, content: Seq<char>) -> BankView {
        BankView {
            questions: self.questions.push(
                QuestionRowView { id: self.next_question_id, title, content },
            ),
            tags: self.tags,
            links: self.links,
            answers: self.answers,
            next_question_id: self.next_question_id + 1,
            next_tag_id: self.next_tag_id,
            next_answer_id: self.next_answer_id,
        }
    }

    /// The store after inserting one fresh tag row per name (no
    /// deduplication) and linking each to question `qid`.
    pub open spec fn with_tags(self, qid: int, names: Seq<Seq<char>>) -> BankView {
        BankView {
            questions: self.questions,
            tags: self.tags + new_tag_rows(self.next_tag_id, names),
            links: self.links + new_link_rows(qid, self.next_tag_id, names.len()),
            answers: self.answers,
            next_question_id: self.next_question_id,
            next_tag_id: self.next_tag_id + names.len(),
            next_answer_id: self.next_answer_id,
        }
    }

    /// The store with question `qid`'s title and content overwritten in place.
    pub open spec fn replace_q(self, qid: int, title: Seq<char>, content: Seq<char>) -> BankView {
        BankView {
            questions: self.questions.update(
                self.question_index(qid),
                QuestionRowView { id: qid, title, content },
            ),
            tags: self.tags,
            links: self.links,
            answers: self.answers,
            next_question_id: self.next_question_id,
            next_tag_id: self.next_tag_id,
            next_answer_id: self.next_answer_id,
        }
    }

    /// The store with question `qid`'s junction rows dropped.
    pub open spec fn drop_links(self, qid: int) -> BankView {
        BankView {
            questions: self.questions,
            tags: self.tags,
            links: links_without(self.links, qid),
            answers: self.answers,
            next_question_id: self.next_question_id,
            next_tag_id: self.next_tag_id,
            next_answer_id: self.next_answer_id,
        }
    }

    /// The store after adding a question: one question row under the next id,
    /// one fresh tag row per name (no deduplication), one junction row per
    /// tag.
    pub open spec fn add_q(self, title: Seq<char>, content: Seq<char>, tags: Seq<Seq<char>>) -> BankView {
        self.push_q(title, content).with_tags(self.next_question_id, tags)
    }

    /// The store after deleting a question: its row, its junction rows and its
    /// answers are gone; tag rows stay (the store never garbage-collects
    /// them).
    pub open spec fn delete_q(self, qid: int) -> BankView {
        BankView {
            questions: questions_without(self.questions, qid),
            tags: self.tags,
            links: links_without(self.links, qid),
            answers: answers_without(self.answers, qid),
            next_question_id: self.next_question_id,
            next_tag_id: self.next_tag_id,
            next_answer_id: self.next_answer_id,
        }
    }

    /// The store after updating a question: title and content overwritten in
    /// place, the old junction rows dropped, fresh tag and junction rows for
    /// the new tag set; old tag rows stay behind as orphans.
    pub open spec fn update_q(
        self,
        qid: int,
        title: Seq<char>,
        content: Seq<char>,
        tags: Seq<Seq<char>>,
    ) -> BankView {
        self.replace_q(qid, title, content).drop_links(qid).with_tags(qid, tags)
    }

    /// The store after adding an answer to question `qid`.
    pub open spec fn add_a(self, answer: Seq<char>, qid: int) -> BankView {
        BankView {
            questions: self.questions,
            tags: self.tags,
            links: self.links,
            answers: self.answers.push(
                AnswerRowView { id: self.next_answer_id, answer, question_id: qid },
            ),
            next_question_id: self.next_question_id,
            next_tag_id: self.next_tag_id,
            next_answer_id: self.next_answer_id + 1,
        }
    }

    /// The store after deleting every answer of question `qid`.
    pub open spec fn delete_a(self, qid: int) -> BankView {
        BankView {
            questions: self.questions,
            tags: self.tags,
            links: self.links,
            answers: answers_without(self.answers, qid),
            next_question_id: self.next_question_id,
            next_tag_id: self.next_tag_id,
            next_answer_id: self.next_answer_id,
        }
    }

    /// The store after overwriting the first answer of question `qid`.
    pub open spec fn update_a(self, qid: int, content: Seq<char>) -> BankView {
        BankView {
            questions: self.questions,
            tags: self.tags,
            links: self.links,
            answers: update_first_answer(self.answers, qid, content),
            next_question_id: self.next_question_id,
            next_tag_id: self.next_tag_id,
            next_answer_id: self.next_answer_id,
        }
    }

    /// In a well-formed store, the row at index `i` is the one its id looks
    /// up: ids are unique, so `question_index` lands back on `i`.
    pub proof fn lemma_question_at(self, i: int)
        requires
            self.wf(),
            0 <= i < self.questions.len(),
        ensures
            self.has_question(self.questions[i].id),
            self.question_index(self.questions[i].id) == i,
            self.question_row(self.questions[i].id) == self.questions[i],
    {
        let qid = self.questions[i].id;
        assert(0 <= i < self.questions.len() && (self.questions[i]).id == qid);
        let j = choose|j: int|
            0 <= j < self.questions.len() && (#[trigger] self.questions[j]).id == qid;
        if i < j {
            assert(self.questions[i].id < self.questions[j].id);
        } else if j < i {
            assert(self.questions[j].id < self.questions[i].id);
        }
    }
}

/// Appending an answer row: a fetch-one lookup still finds what it found, and
/// finds the new row where it found nothing.
pub proof fn lemma_first_answer_push(answers: Seq<AnswerRowView>, qid: int, x: AnswerRowView)
    ensures
        first_answer_of(answers.push(x), qid) == if first_answer_of(answers, qid) is Some {
            first_answer_of(answers, qid)
        } else if x.question_id == qid {
            Some(x)
        } else {
            None
        },
    decreases answers.len(),
{
    if answers.len() == 0 {
        assert(answers.push(x)[0] == x);
        assert(answers.push(x).drop_first() =~= Seq::<AnswerRowView>::empty());
    } else {
        assert(answers.push(x)[0] == answers[0]);
        assert(answers.push(x).drop_first() =~= answers.drop_first().push(x));
        lemma_first_answer_push(answers.drop_first(), qid, x);
    }
}

/// A question-existence fact carries over between stores with the same
/// question rows.
pub proof fn lemma_has_question_same(a: BankView, b: BankView, qid: int)
    requires
        a.questions == b.questions,
        a.has_question(qid),
    ensures
        b.has_question(qid),
{
    let i = choose|i: int| 0 <= i < a.questions.len() && (#[trigger] a.questions[i]).id == qid;
    assert(0 <= i < b.questions.len() && (b.questions[i]).id == qid);
}

impl BankView {
    /// Inserting a question row: the store stays well-formed, the new row sits
    /// under the fresh id with no tags yet, and every old question is still
    /// there.
    pub proof fn lemma_push_q(self, title: Seq<char>, content: Seq<char>)
        requires
            self.wf(),
            self.next_question_id < i32::MAX as int,
        ensures
            ({
                let post = self.push_q(title, content);
                &&& post.wf()
                &&& post.has_question(self.next_question_id)
                &&& post.question_row(self.next_question_id) == (QuestionRowView {
                    id: self.next_question_id,
                    title,
                    content,
                })
                &&& post.tags_of(self.next_question_id) == Seq::<Seq<char>>::empty()
                &&& forall|q2: int|
                    #[trigger] post.has_question(q2) <==> (self.has_question(q2) || q2
                        == self.next_question_id)
                &&& forall|q2: int|
                    q2 != self.next_question_id && self.has_question(q2)
                        ==> #[trigger] post.question_row(q2) == self.question_row(q2)
            }),
    {
        let post = self.push_q(title, content);
        let len = self.questions.len() as int;
        assert forall|q2: int| #[trigger] post.has_question(q2) implies (self.has_question(q2)
            || q2 == self.next_question_id) by {
            let i = choose|i: int|
                0 <= i < post.questions.len() && (#[trigger] post.questions[i]).id == q2;
            if i < len {
                assert(post.questions[i] == self.questions[i]);
            }
        }
        assert forall|q2: int| self.has_question(q2) implies post.has_question(q2) by {
            let i = choose|i: int|
                0 <= i < self.questions.len() && (#[trigger] self.questions[i]).id == q2;
            assert(post.questions[i] == self.questions[i]);
        }
        assert(post.questions[len] == QuestionRowView { id: self.next_question_id, title, content });
        assert(post.has_question(self.next_question_id));
        assert forall|i: int| 0 <= i < post.questions.len() implies 1 <= (
        #[trigger] post.questions[i]).id < post.next_question_id by {
            if i < len {
                assert(post.questions[i] == self.questions[i]);
            }
        }
        assert forall|i: int, j: int| 0 <= i < j < post.questions.len() implies (
        #[trigger] post.questions[i]).id < (#[trigger] post.questions[j]).id by {
            if i < len {
                assert(post.questions[i] == self.questions[i]);
            }
            if j < len {
                assert(post.questions[j] == self.questions[j]);
            }
        }
        assert forall|i: int| 0 <= i < post.links.len() implies post.has_question(
            (#[trigger] post.links[i]).question_id,
        ) by {
            assert(self.has_question(self.links[i].question_id));
        }
        assert forall|i: int| 0 <= i < post.answers.len() implies post.has_question(
            (#[trigger] post.answers[i]).question_id,
        ) by {
            assert(self.has_question(self.answers[i].question_id));
        }
        assert(post.wf());
        post.lemma_question_at(len);
        assert forall|k: int| 0 <= k < self.links.len() implies (
        #[trigger] self.links[k]).question_id != self.next_question_id by {
            assert(self.has_question(self.links[k].question_id));
            let i = choose|i: int|
                0 <= i < self.questions.len() && (#[trigger] self.questions[i]).id
                    == self.links[k].question_id;
            assert(self.questions[i].id < self.next_question_id);
        }
        lemma_tags_of_links_absent(self.links, self.tags, self.next_question_id);
        assert forall|q2: int| q2 != self.next_question_id && self.has_question(q2)
            implies #[trigger] post.question_row(q2) == self.question_row(q2) by {
            let i = self.question_index(q2);
            assert(0 <= i < self.questions.len() && self.questions[i].id == q2);
            self.lemma_question_at(i);
            assert(post.questions[i] == self.questions[i]);
            post.lemma_question_at(i);
        }
    }

    /// Inserting fresh tag rows and linking them: the store stays well-formed,
    /// the linked question's tag list grows by exactly the new names, and no
    /// other question's tag list moves.
    pub proof fn lemma_with_tags(self, qid: int, names: Seq<Seq<char>>)
        requires
            self.wf(),
            self.has_question(qid),
            self.can_add_tags(names.len()),
        ensures
            ({
                let post = self.with_tags(qid, names);
                &&& post.wf()
                &&& post.tags_of(qid) == self.tags_of(qid) + names
                &&& forall|q2: int|
                    q2 != qid ==> #[trigger] post.tags_of(q2) == self.tags_of(q2)
            }),
    {
        let post = self.with_tags(qid, names);
        let start = self.next_tag_id;
        let n = names.len();
        let nt = new_tag_rows(start, names);
        let nl = new_link_rows(qid, start, n);
        let tlen = self.tags.len() as int;
        let llen = self.links.len() as int;

        assert(unique_tag_ids(self.tags));
        lemma_combined_tags_unique(self.tags, start, names);

        assert forall|i: int| 0 <= i < post.tags.len() implies 1 <= (#[trigger] post.tags[i]).id
            < post.next_tag_id by {
            if i < tlen {
                assert(post.tags[i] == self.tags[i]);
            } else {
                assert(post.tags[i] == nt[i - tlen]);
            }
        }
        assert forall|i: int, j: int| 0 <= i < j < post.tags.len() implies (
        #[trigger] post.tags[i]).id < (#[trigger] post.tags[j]).id by {
            if i < tlen {
                assert(post.tags[i] == self.tags[i]);
            } else {
                assert(post.tags[i] == nt[i - tlen]);
            }
            if j < tlen {
                assert(post.tags[j] == self.tags[j]);
            } else {
                assert(post.tags[j] == nt[j - tlen]);
            }
        }
        assert forall|k: int| 0 <= k < llen implies has_tag_in(
            self.tags,
            (#[trigger] self.links[k]).tag_id,
        ) && (self.links[k]).tag_id < start by {
            assert(has_tag_in(self.tags, self.links[k].tag_id));
            let t = choose|t: int|
                0 <= t < self.tags.len() && (#[trigger] self.tags[t]).id == self.links[k].tag_id;
            assert(self.tags[t].id < start);
        }
        assert forall|i: int| 0 <= i < post.links.len() implies post.has_question(
            (#[trigger] post.links[i]).question_id,
        ) by {
            if i < llen {
                assert(post.links[i] == self.links[i]);
                assert(self.has_question(self.links[i].question_id));
                lemma_has_question_same(self, post, self.links[i].question_id);
            } else {
                assert(post.links[i] == nl[i - llen]);
                lemma_has_question_same(self, post, qid);
            }
        }
        assert forall|i: int| 0 <= i < post.answers.len() implies post.has_question(
            (#[trigger] post.answers[i]).question_id,
        ) by {
            assert(self.has_question(self.answers[i].question_id));
            lemma_has_question_same(self, post, self.answers[i].question_id);
        }
        assert forall|i: int| 0 <= i < post.links.len() implies has_tag_in(
            post.tags,
            (#[trigger] post.links[i]).tag_id,
        ) by {
            if i < llen {
                assert(post.links[i] == self.links[i]);
                let t = choose|t: int|
                    0 <= t < self.tags.len() && (#[trigger] self.tags[t]).id
                        == self.links[i].tag_id;
                assert(post.tags[t] == self.tags[t]);
                assert(0 <= t < post.tags.len() && (post.tags[t]).id == post.links[i].tag_id);
            } else {
                let m = i - llen;
                assert(post.links[i] == nl[m]);
                assert(post.tags[tlen + m] == nt[m]);
                assert(0 <= tlen + m < post.tags.len() && (post.tags[tlen + m]).id
                    == post.links[i].tag_id);
            }
        }
        assert forall|i: int, j: int| 0 <= i < j < post.links.len() implies !((
        #[trigger] post.links[i]).question_id == (#[trigger] post.links[j]).question_id
            && post.links[i].tag_id == post.links[j].tag_id) by {
            if j < llen {
                assert(post.links[i] == self.links[i]);
                assert(post.links[j] == self.links[j]);
            } else if i < llen {
                assert(post.links[i] == self.links[i]);
                assert(post.links[j] == nl[j - llen]);
            } else {
                assert(post.links[i] == nl[i - llen]);
                assert(post.links[j] == nl[j - llen]);
            }
        }
        assert(post.wf());

        lemma_tags_of_links_concat(self.links, nl, post.tags, qid);
        assert forall|k: int, m: int| 0 <= k < self.links.len() && 0 <= m < nt.len() implies (
        #[trigger] self.links[k]).tag_id != (#[trigger] nt[m]).id by {
            assert(nt[m].id == start + m);
        }
        lemma_tags_of_links_tags_grow(self.links, self.tags, nt, qid);
        assert forall|i: int| 0 <= i < n implies tag_name(post.tags, start + i) == names[i] by {
            assert(post.tags[tlen + i] == nt[i]);
            assert(nt[i].id == start + i);
            assert(nt[i].name == names[i]);
            lemma_tag_name_at(post.tags, tlen + i);
        }
        lemma_tags_of_new_links(qid, start, n, post.tags, names);
        assert(names.take(n as int) =~= names);
        assert(post.tags_of(qid) == self.tags_of(qid) + names);
        assert forall|q2: int| q2 != qid implies #[trigger] post.tags_of(q2) == self.tags_of(
            q2,
        ) by {
            lemma_tags_of_links_concat(self.links, nl, post.tags, q2);
            lemma_tags_of_links_tags_grow(self.links, self.tags, nt, q2);
            assert forall|m: int| 0 <= m < nl.len() implies (#[trigger] nl[m]).question_id
                != q2 by {
                assert(nl[m].question_id == qid);
            }
            lemma_tags_of_links_absent(nl, post.tags, q2);
            assert(self.tags_of(q2) + Seq::<Seq<char>>::empty() =~= self.tags_of(q2));
        }
    }

    /// Overwriting a question row in place: the store stays well-formed, ids
    /// and every other row stay put, and no tag list moves.
    pub proof fn lemma_replace_q(self, qid: int, title: Seq<char>, content: Seq<char>)
        requires
            self.wf(),
            self.has_question(qid),
        ensures
            ({
                let post = self.replace_q(qid, title, content);
                &&& post.wf()
                &&& forall|q2: int| #[trigger] post.has_question(q2) <==> self.has_question(q2)
                &&& post.question_row(qid) == (QuestionRowView { id: qid, title, content })
                &&& forall|q2: int|
                    q2 != qid && self.has_question(q2) ==> #[trigger] post.question_row(q2)
                        == self.question_row(q2)
            }),
    {
        let post = self.replace_q(qid, title, content);
        let m = self.question_index(qid);
        assert(0 <= m < self.questions.len() && self.questions[m].id == qid);
        assert forall|i: int| 0 <= i < post.questions.len() implies (
        #[trigger] post.questions[i]).id == self.questions[i].id by {
            if i != m {
                assert(post.questions[i] == self.questions[i]);
            }
        }
        assert forall|q2: int| #[trigger] post.has_question(q2) <==> self.has_question(q2) by {
            if self.has_question(q2) {
                let i = choose|i: int|
                    0 <= i < self.questions.len() && (#[trigger] self.questions[i]).id == q2;
                assert(post.questions[i].id == q2);
            }
            if post.has_question(q2) {
                let i = choose|i: int|
                    0 <= i < post.questions.len() && (#[trigger] post.questions[i]).id == q2;
                assert(self.questions[i].id == q2);
            }
        }
        assert forall|i: int| 0 <= i < post.links.len() implies post.has_question(
            (#[trigger] post.links[i]).question_id,
        ) by {
            assert(self.has_question(self.links[i].question_id));
        }
        assert forall|i: int| 0 <= i < post.answers.len() implies post.has_question(
            (#[trigger] post.answers[i]).question_id,
        ) by {
            assert(self.has_question(self.answers[i].question_id));
        }
        assert(post.wf());
        post.lemma_question_at(m);
        assert(post.questions[m] == QuestionRowView { id: qid, title, content });
        assert forall|q2: int| q2 != qid && self.has_question(q2)
            implies #[trigger] post.question_row(q2) == self.question_row(q2) by {
            let i = self.question_index(q2);
            assert(0 <= i < self.questions.len() && self.questions[i].id == q2);
            self.lemma_question_at(i);
            assert(i != m);
            assert(post.questions[i] == self.questions[i]);
            post.lemma_question_at(i);
        }
    }

    /// Dropping a question's junction rows: the store stays well-formed, its
    /// tag list empties, and no other tag list moves.
    pub proof fn lemma_drop_links(self, qid: int)
        requires
            self.wf(),
        ensures
            ({
                let post = self.drop_links(qid);
                &&& post.wf()
                &&& post.tags_of(qid) == Seq::<Seq<char>>::empty()
                &&& forall|q2: int|
                    q2 != qid ==> #[trigger] post.tags_of(q2) == self.tags_of(q2)
            }),
    {
        let post = self.drop_links(qid);
        lemma_links_without_sub(self.links, qid);
        lemma_links_without_unique(self.links, qid);
        assert forall|i: int| 0 <= i < post.links.len() implies post.has_question(
            (#[trigger] post.links[i]).question_id,
        ) && has_tag_in(post.tags, post.links[i].tag_id) by {
            assert(self.links.contains(post.links[i]));
            let k = choose|k: int| 0 <= k < self.links.len() && self.links[k] == post.links[i];
            assert(self.has_question(self.links[k].question_id));
            lemma_has_question_same(self, post, self.links[k].question_id);
            assert(has_tag_in(self.tags, self.links[k].tag_id));
        }
        assert forall|i: int| 0 <= i < post.answers.len() implies post.has_question(
            (#[trigger] post.answers[i]).question_id,
        ) by {
            assert(self.has_question(self.answers[i].question_id));
            lemma_has_question_same(self, post, self.answers[i].question_id);
        }
        assert(post.wf());
        lemma_tags_of_links_absent(post.links, post.tags, qid);
        assert forall|q2: int| q2 != qid implies #[trigger] post.tags_of(q2) == self.tags_of(
            q2,
        ) by {
            lemma_tags_of_links_without(self.links, self.tags, qid, q2);
        }
    }

    /// Deleting a question: the store stays well-formed, the question is gone
    /// together with its junction rows and answers, and every other question,
    /// its row and its tag list stay put.
    pub proof fn lemma_delete_q(self, qid: int)
        requires
            self.wf(),
        ensures
            ({
                let post = self.delete_q(qid);
                &&& post.wf()
                &&& !post.has_question(qid)
                &&& forall|q2: int|
                    q2 != qid ==> (#[trigger] post.has_question(q2) <==> self.has_question(q2))
                &&& forall|q2: int|
                    q2 != qid && self.has_question(q2) ==> #[trigger] post.question_row(q2)
                        == self.question_row(q2)
                &&& first_answer_of(post.answers, qid) is None
                &&& forall|q2: int|
                    q2 != qid ==> #[trigger] post.tags_of(q2) == self.tags_of(q2)
            }),
    {
        let post = self.delete_q(qid);
        lemma_questions_without_sub(self.questions, qid);
        lemma_questions_without_keep(self.questions, qid);
        lemma_questions_without_sorted(self.questions, qid);
        lemma_links_without_sub(self.links, qid);
        lemma_links_without_unique(self.links, qid);
        lemma_answers_without_sub(self.answers, qid);
        lemma_answers_without_sorted(self.answers, qid);
        lemma_first_answer_of_without(self.answers, qid);
        assert forall|i: int| 0 <= i < post.questions.len() implies 1 <= (
        #[trigger] post.questions[i]).id < post.next_question_id by {
            assert(self.questions.contains(post.questions[i]));
            let k = choose|k: int|
                0 <= k < self.questions.len() && self.questions[k] == post.questions[i];
            assert(1 <= self.questions[k].id < self.next_question_id);
        }
        assert forall|q2: int| q2 != qid implies ((#[trigger] post.has_question(q2))
            <==> self.has_question(q2)) by {
            if self.has_question(q2) {
                let i = choose|i: int|
                    0 <= i < self.questions.len() && (#[trigger] self.questions[i]).id == q2;
                assert(post.questions.contains(self.questions[i]));
                let k = choose|k: int|
                    0 <= k < post.questions.len() && post.questions[k] == self.questions[i];
                assert(post.questions[k].id == q2);
            }
            if post.has_question(q2) {
                let i = choose|i: int|
                    0 <= i < post.questions.len() && (#[trigger] post.questions[i]).id == q2;
                assert(self.questions.contains(post.questions[i]));
                let k = choose|k: int|
                    0 <= k < self.questions.len() && self.questions[k] == post.questions[i];
                assert(self.questions[k].id == q2);
            }
        }
        assert(!post.has_question(qid));
        assert forall|i: int| 0 <= i < post.links.len() implies post.has_question(
            (#[trigger] post.links[i]).question_id,
        ) && has_tag_in(post.tags, post.links[i].tag_id) by {
            assert(self.links.contains(post.links[i]));
            let k = choose|k: int| 0 <= k < self.links.len() && self.links[k] == post.links[i];
            assert(self.has_question(self.links[k].question_id));
            assert(has_tag_in(self.tags, self.links[k].tag_id));
            assert(post.links[i].question_id != qid);
        }
        assert forall|i: int| 0 <= i < post.answers.len() implies 1 <= (
        #[trigger] post.answers[i]).id < post.next_answer_id && post.has_question(
            post.answers[i].question_id,
        ) by {
            assert(self.answers.contains(post.answers[i]));
            let k = choose|k: int| 0 <= k < self.answers.len() && self.answers[k] == post.answers[i];
            assert(1 <= self.answers[k].id < self.next_answer_id);
            assert(self.has_question(self.answers[k].question_id));
            assert(post.answers[i].question_id != qid);
        }
        assert(post.wf());
        assert forall|q2: int| q2 != qid && self.has_question(q2)
            implies #[trigger] post.question_row(q2) == self.question_row(q2) by {
            let i = self.question_index(q2);
            assert(0 <= i < self.questions.len() && self.questions[i].id == q2);
            self.lemma_question_at(i);
            assert(post.questions.contains(self.questions[i]));
            let k = choose|k: int|
                0 <= k < post.questions.len() && post.questions[k] == self.questions[i];
            post.lemma_question_at(k);
        }
        assert forall|q2: int| q2 != qid implies #[trigger] post.tags_of(q2) == self.tags_of(
            q2,
        ) by {
            lemma_tags_of_links_without(self.links, self.tags, qid, q2);
        }
    }

    /// Adding an answer row: the store stays well-formed; a fetch-one lookup
    /// still finds what it found, and finds the new row where it found
    /// nothing.
    pub proof fn lemma_add_a(self, answer: Seq<char>, qid: int)
        requires
            self.wf(),
            self.has_question(qid),
            self.can_add_answer(),
        ensures
            ({
                let post = self.add_a(answer, qid);
                &&& post.wf()
                &&& first_answer_of(post.answers, qid) == if first_answer_of(self.answers, qid) is Some {
                    first_answer_of(self.answers, qid)
                } else {
                    Some(AnswerRowView { id: self.next_answer_id, answer, question_id: qid })
                }
                &&& forall|q2: int|
                    q2 != qid ==> #[trigger] first_answer_of(post.answers, q2) == first_answer_of(
                        self.answers,
                        q2,
                    )
            }),
    {
        let post = self.add_a(answer, qid);
        let row = AnswerRowView { id: self.next_answer_id, answer, question_id: qid };
        let alen = self.answers.len() as int;
        assert forall|i: int| 0 <= i < post.answers.len() implies 1 <= (
        #[trigger] post.answers[i]).id < post.next_answer_id && post.has_question(
            post.answers[i].question_id,
        ) by {
            if i < alen {
                assert(post.answers[i] == self.answers[i]);
                assert(self.has_question(self.answers[i].question_id));
                lemma_has_question_same(self, post, self.answers[i].question_id);
            } else {
                assert(post.answers[i] == row);
                lemma_has_question_same(self, post, qid);
            }
        }
        assert forall|i: int, j: int| 0 <= i < j < post.answers.len() implies (
        #[trigger] post.answers[i]).id < (#[trigger] post.answers[j]).id by {
            if i < alen {
                assert(post.answers[i] == self.answers[i]);
            }
            if j < alen {
                assert(post.answers[j] == self.answers[j]);
            }
        }
        assert forall|i: int| 0 <= i < post.links.len() implies post.has_question(
            (#[trigger] post.links[i]).question_id,
        ) by {
            assert(self.has_question(self.links[i].question_id));
            lemma_has_question_same(self, post, self.links[i].question_id);
        }
        assert(post.wf());
        lemma_first_answer_push(self.answers, qid, row);
        assert forall|q2: int| q2 != qid implies #[trigger] first_answer_of(post.answers, q2)
            == first_answer_of(self.answers, q2) by {
            lemma_first_answer_push(self.answers, q2, row);
        }
    }

    /// Deleting a question's answers: the store stays well-formed and the
    /// question has no answer left.
    pub proof fn lemma_delete_a(self, qid: int)
        requires
            self.wf(),
        ensures
            ({
                let post = self.delete_a(qid);
                &&& post.wf()
                &&& first_answer_of(post.answers, qid) is None
            }),
    {
        let post = self.delete_a(qid);
        lemma_answers_without_sub(self.answers, qid);
        lemma_answers_without_sorted(self.answers, qid);
        lemma_first_answer_of_without(self.answers, qid);
        assert forall|i: int| 0 <= i < post.answers.len() implies 1 <= (
        #[trigger] post.answers[i]).id < post.next_answer_id && post.has_question(
            post.answers[i].question_id,
        ) by {
            assert(self.answers.contains(post.answers[i]));
            let k = choose|k: int| 0 <= k < self.answers.len() && self.answers[k] == post.answers[i];
            assert(1 <= self.answers[k].id < self.next_answer_id);
            assert(self.has_question(self.answers[k].question_id));
            lemma_has_question_same(self, post, self.answers[k].question_id);
        }
        assert forall|i: int| 0 <= i < post.links.len() implies post.has_question(
            (#[trigger] post.links[i]).question_id,
        ) by {
            assert(self.has_question(self.links[i].question_id));
            lemma_has_question_same(self, post, self.links[i].question_id);
        }
        assert(post.wf());
    }
}

/// Pairwise-distinct tag ids.
pub open spec fn unique_tag_ids(tags: Seq<TagRowView>) -> bool {
    forall|i: int, j: int|
        0 <= i < j < tags.len() ==> (#[trigger] tags[i]).id != (#[trigger] tags[j]).id
}

/// With unique ids, the row at index `i` is the one its id names.
pub proof fn lemma_tag_name_at(tags: Seq<TagRowView>, i: int)
    requires
        unique_tag_ids(tags),
        0 <= i < tags.len(),
    ensures
        has_tag_in(tags, tags[i].id),
        tag_name(tags, tags[i].id) == tags[i].name,
{
    let tid = tags[i].id;
    assert(0 <= i < tags.len() && (tags[i]).id == tid);
    let j = choose|j: int| 0 <= j < tags.len() && (#[trigger] tags[j]).id == tid;
    if i < j {
        assert(tags[i].id != tags[j].id);
    } else if j < i {
        assert(tags[j].id != tags[i].id);
    }
}

/// A name looked up among the first rows is untouched by rows appended after
/// them, as long as the appended rows carry other ids.
pub proof fn lemma_tag_name_prefix(t1: Seq<TagRowView>, t2: Seq<TagRowView>, tid: int)
    requires
        unique_tag_ids(t1),
        has_tag_in(t1, tid),
        forall|m: int| 0 <= m < t2.len() ==> (#[trigger] t2[m]).id != tid,
    ensures
        has_tag_in(t1 + t2, tid),
        tag_name(t1 + t2, tid) == tag_name(t1, tid),
{
    let both = t1 + t2;
    let i = choose|i: int| 0 <= i < t1.len() && (#[trigger] t1[i]).id == tid;
    assert(both[i] == t1[i]);
    assert(0 <= i < both.len() && (both[i]).id == tid);
    let j = choose|j: int| 0 <= j < both.len() && (#[trigger] both[j]).id == tid;
    if j >= t1.len() {
        assert(both[j] == t2[j - t1.len()]);
    } else {
        assert(both[j] == t1[j]);
        if i < j {
            assert(t1[i].id != t1[j].id);
        } else if j < i {
            assert(t1[j].id != t1[i].id);
        }
    }
}

/// Splitting a tag lookup list across a concatenation of junction rows.
pub proof fn lemma_tags_of_links_concat(
    l1: Seq<LinkRowView>,
    l2: Seq<LinkRowView>,
    tags: Seq<TagRowView>,
    qid: int,
)
    ensures
        tags_of_links(l1 + l2, tags, qid) == tags_of_links(l1, tags, qid) + tags_of_links(
            l2,
            tags,
            qid,
        ),
    decreases l2.len(),
{
    if l2.len() == 0 {
        assert(l1 + l2 =~= l1);
        assert(tags_of_links(l1, tags, qid) + tags_of_links(l2, tags, qid) =~= tags_of_links(
            l1,
            tags,
            qid,
        ));
    } else {
        lemma_tags_of_links_concat(l1, l2.drop_last(), tags, qid);
        assert((l1 + l2).drop_last() =~= l1 + l2.drop_last());
        assert((l1 + l2).last() == l2.last());
        if l2.last().question_id == qid {
            let name = tag_name(tags, l2.last().tag_id);
            assert((tags_of_links(l1, tags, qid) + tags_of_links(l2.drop_last(), tags, qid)).push(
                name,
            ) =~= tags_of_links(l1, tags, qid) + tags_of_links(l2.drop_last(), tags, qid).push(
                name,
            ));
        }
    }
}

/// Junction rows that all belong to other questions contribute no tag names.
pub proof fn lemma_tags_of_links_absent(links: Seq<LinkRowView>, tags: Seq<TagRowView>, qid: int)
    requires
        forall|i: int| 0 <= i < links.len() ==> (#[trigger] links[i]).question_id != qid,
    ensures
        tags_of_links(links, tags, qid) == Seq::<Seq<char>>::empty(),
    decreases links.len(),
{
    if links.len() != 0 {
        assert(links.drop_last()[links.len() - 1 - 1] == links[links.len() - 2] || true);
        lemma_tags_of_links_absent(links.drop_last(), tags, qid);
        assert(links.last() == links[links.len() - 1]);
    }
}

/// Tag rows appended under fresh ids change no existing lookup.
pub proof fn lemma_tags_of_links_tags_grow(
    links: Seq<LinkRowView>,
    t1: Seq<TagRowView>,
    t2: Seq<TagRowView>,
    qid: int,
)
    requires
        unique_tag_ids(t1),
        forall|k: int| 0 <= k < links.len() ==> has_tag_in(t1, (#[trigger] links[k]).tag_id),
        forall|k: int, m: int|
            0 <= k < links.len() && 0 <= m < t2.len() ==> (#[trigger] links[k]).tag_id != (
            #[trigger] t2[m]).id,
    ensures
        tags_of_links(links, t1 + t2, qid) == tags_of_links(links, t1, qid),
    decreases links.len(),
{
    if links.len() != 0 {
        lemma_tags_of_links_tags_grow(links.drop_last(), t1, t2, qid);
        assert(links.last() == links[links.len() - 1]);
        if links.last().question_id == qid {
            lemma_tag_name_prefix(t1, t2, links.last().tag_id);
        }
    }
}

/// The tag names of freshly linked tags: link `i` looks up name `names[i]`.
pub proof fn lemma_tags_of_new_links(
    qid: int,
    start: int,
    k: nat,
    tags: Seq<TagRowView>,
    names: Seq<Seq<char>>,
)
    requires
        k <= names.len(),
        forall|i: int| 0 <= i < k ==> tag_name(tags, start + i) == names[i],
    ensures
        tags_of_links(new_link_rows(qid, start, k), tags, qid) == names.take(k as int),
    decreases k,
{
    if k == 0 {
        assert(names.take(0) =~= Seq::<Seq<char>>::empty());
    } else {
        lemma_tags_of_new_links(qid, start, (k - 1) as nat, tags, names);
        let full = new_link_rows(qid, start, k);
        assert(full.drop_last() =~= new_link_rows(qid, start, (k - 1) as nat));
        assert(full.last() == LinkRowView { question_id: qid, tag_id: start + k - 1 });
        assert(names.take(k as int) =~= names.take(k as int - 1).push(names[k as int - 1]));
    }
}

/// Appending rows with fresh ascending ids keeps tag ids unique.
pub proof fn lemma_combined_tags_unique(t1: Seq<TagRowView>, start: int, names: Seq<Seq<char>>)
    requires
        unique_tag_ids(t1),
        forall|i: int| 0 <= i < t1.len() ==> (#[trigger] t1[i]).id < start,
    ensures
        unique_tag_ids(t1 + new_tag_rows(start, names)),
{
    let both = t1 + new_tag_rows(start, names);
    assert forall|i: int, j: int| 0 <= i < j < both.len() implies (#[trigger] both[i]).id != (
    #[trigger] both[j]).id by {
        if i < t1.len() {
            assert(both[i] == t1[i]);
        } else {
            assert(both[i] == new_tag_rows(start, names)[i - t1.len()]);
        }
        if j < t1.len() {
            assert(both[j] == t1[j]);
        } else {
            assert(both[j] == new_tag_rows(start, names)[j - t1.len()]);
        }
    }
}

/// Every surviving junction row was already in the list and belongs to
/// another question.
pub proof fn lemma_links_without_sub(links: Seq<LinkRowView>, qid: int)
    ensures
        forall|i: int|
            0 <= i < links_without(links, qid).len() ==> (#[trigger] links_without(links, qid)[i]).question_id
                != qid && links.contains(links_without(links, qid)[i]),
    decreases links.len(),
{
    if links.len() != 0 {
        let rest = links.drop_last();
        lemma_links_without_sub(rest, qid);
        let out = links_without(links, qid);
        let out_rest = links_without(rest, qid);
        assert forall|i: int| 0 <= i < out.len() implies (#[trigger] out[i]).question_id != qid
            && links.contains(out[i]) by {
            if links.last().question_id != qid && i == out.len() - 1 {
                assert(out[i] == links.last());
                assert(links[links.len() - 1] == links.last());
            } else {
                assert(out[i] == out_rest[i]);
                assert(rest.contains(out_rest[i]));
                let j = choose|j: int| 0 <= j < rest.len() && rest[j] == out_rest[i];
                assert(links[j] == out[i]);
            }
        }
    }
}

/// Deleting a question's junction rows keeps the remaining pairs unique.
pub proof fn lemma_links_without_unique(links: Seq<LinkRowView>, qid: int)
    requires
        forall|i: int, j: int|
            0 <= i < j < links.len() ==> !((#[trigger] links[i]).question_id == (
            #[trigger] links[j]).question_id && links[i].tag_id == links[j].tag_id),
    ensures
        forall|i: int, j: int|
            0 <= i < j < links_without(links, qid).len() ==> !((#[trigger] links_without(
                links,
                qid,
            )[i]).question_id == (#[trigger] links_without(links, qid)[j]).question_id
                && links_without(links, qid)[i].tag_id == links_without(links, qid)[j].tag_id),
    decreases links.len(),
{
    if links.len() != 0 {
        let rest = links.drop_last();
        lemma_links_without_unique(rest, qid);
        lemma_links_without_sub(rest, qid);
        let out = links_without(links, qid);
        let out_rest = links_without(rest, qid);
        assert forall|i: int, j: int| 0 <= i < j < out.len() implies !((#[trigger] out[i]).question_id
            == (#[trigger] out[j]).question_id && out[i].tag_id == out[j].tag_id) by {
            if links.last().question_id != qid && j == out.len() - 1 {
                assert(out[j] == links.last());
                assert(out[i] == out_rest[i]);
                assert(rest.contains(out_rest[i]));
                let m = choose|m: int| 0 <= m < rest.len() && rest[m] == out_rest[i];
                assert(links[m] == out[i]);
                assert(links[links.len() - 1] == links.last());
            } else {
                assert(out[i] == out_rest[i]);
                assert(out[j] == out_rest[j]);
            }
        }
    }
}

/// Every surviving question row was already in the list and carries
/// another id.
pub proof fn lemma_questions_without_sub(qs: Seq<QuestionRowView>, qid: int)
    ensures
        forall|i: int|
            0 <= i < questions_without(qs, qid).len() ==> (#[trigger] questions_without(
                qs,
                qid,
            )[i]).id != qid && qs.contains(questions_without(qs, qid)[i]),
    decreases qs.len(),
{
    if qs.len() != 0 {
        let rest = qs.drop_last();
        lemma_questions_without_sub(rest, qid);
        let out = questions_without(qs, qid);
        let out_rest = questions_without(rest, qid);
        assert forall|i: int| 0 <= i < out.len() implies (#[trigger] out[i]).id != qid
            && qs.contains(out[i]) by {
            if qs.last().id != qid && i == out.len() - 1 {
                assert(out[i] == qs.last());
                assert(qs[qs.len() - 1] == qs.last());
            } else {
                assert(out[i] == out_rest[i]);
                assert(rest.contains(out_rest[i]));
                let j = choose|j: int| 0 <= j < rest.len() && rest[j] == out_rest[i];
                assert(qs[j] == out[i]);
            }
        }
    }
}

/// Every question row with another id survives.
pub proof fn lemma_questions_without_keep(qs: Seq<QuestionRowView>, qid: int)
    ensures
        forall|j: int|
            0 <= j < qs.len() && (#[trigger] qs[j]).id != qid ==> questions_without(
                qs,
                qid,
            ).contains(qs[j]),
    decreases qs.len(),
{
    if qs.len() != 0 {
        let rest = qs.drop_last();
        lemma_questions_without_keep(rest, qid);
        let out = questions_without(qs, qid);
        let out_rest = questions_without(rest, qid);
        assert forall|j: int| 0 <= j < qs.len() && (#[trigger] qs[j]).id != qid implies out.contains(
            qs[j],
        ) by {
            if j == qs.len() - 1 {
                assert(out[out.len() - 1] == qs[j]);
            } else {
                assert(rest[j] == qs[j]);
                assert(out_rest.contains(rest[j]));
                let m = choose|m: int| 0 <= m < out_rest.len() && out_rest[m] == rest[j];
                assert(out[m] == qs[j]);
            }
        }
    }
}

/// Deletion keeps the question rows sorted by id.
pub proof fn lemma_questions_without_sorted(qs: Seq<QuestionRowView>, qid: int)
    requires
        forall|i: int, j: int|
            0 <= i < j < qs.len() ==> (#[trigger] qs[i]).id < (#[trigger] qs[j]).id,
    ensures
        forall|i: int, j: int|
            0 <= i < j < questions_without(qs, qid).len() ==> (#[trigger] questions_without(
                qs,
                qid,
            )[i]).id < (#[trigger] questions_without(qs, qid)[j]).id,
    decreases qs.len(),
{
    if qs.len() != 0 {
        let rest = qs.drop_last();
        lemma_questions_without_sorted(rest, qid);
        lemma_questions_without_sub(rest, qid);
        let out = questions_without(qs, qid);
        let out_rest = questions_without(rest, qid);
        assert forall|i: int, j: int| 0 <= i < j < out.len() implies (#[trigger] out[i]).id < (
        #[trigger] out[j]).id by {
            if qs.last().id != qid && j == out.len() - 1 {
                assert(out[j] == qs.last());
                assert(out[i] == out_rest[i]);
                assert(rest.contains(out_rest[i]));
                let m = choose|m: int| 0 <= m < rest.len() && rest[m] == out_rest[i];
                assert(qs[m].id < qs[qs.len() - 1].id);
                assert(qs[qs.len() - 1] == qs.last());
            } else {
                assert(out[i] == out_rest[i]);
                assert(out[j] == out_rest[j]);
            }
        }
    }
}

/// Every surviving answer row was already in the list and belongs to
/// another question.
pub proof fn lemma_answers_without_sub(answers: Seq<AnswerRowView>, qid: int)
    ensures
        forall|i: int|
            0 <= i < answers_without(answers, qid).len() ==> (#[trigger] answers_without(
                answers,
                qid,
            )[i]).question_id != qid && answers.contains(answers_without(answers, qid)[i]),
    decreases answers.len(),
{
    if answers.len() != 0 {
        let rest = answers.drop_last();
        lemma_answers_without_sub(rest, qid);
        let out = answers_without(answers, qid);
        let out_rest = answers_without(rest, qid);
        assert forall|i: int| 0 <= i < out.len() implies (#[trigger] out[i]).question_id != qid
            && answers.contains(out[i]) by {
            if answers.last().question_id != qid && i == out.len() - 1 {
                assert(out[i] == answers.last());
                assert(answers[answers.len() - 1] == answers.last());
            } else {
                assert(out[i] == out_rest[i]);
                assert(rest.contains(out_rest[i]));
                let j = choose|j: int| 0 <= j < rest.len() && rest[j] == out_rest[i];
                assert(answers[j] == out[i]);
            }
        }
    }
}

/// No answer of question `qid` survives deleting the question's answers.
pub proof fn lemma_first_answer_of_without(answers: Seq<AnswerRowView>, qid: int)
    ensures
        first_answer_of(answers_without(answers, qid), qid) is None,
{
    lemma_answers_without_sub(answers, qid);
    lemma_first_answer_absent(answers_without(answers, qid), qid);
}

/// With no matching row, the fetch-one lookup comes back empty.
pub proof fn lemma_first_answer_absent(answers: Seq<AnswerRowView>, qid: int)
    requires
        forall|i: int| 0 <= i < answers.len() ==> (#[trigger] answers[i]).question_id != qid,
    ensures
        first_answer_of(answers, qid) is None,
    decreases answers.len(),
{
    if answers.len() != 0 {
        assert forall|i: int| 0 <= i < answers.drop_first().len() implies (
        #[trigger] answers.drop_first()[i]).question_id != qid by {
            assert(answers.drop_first()[i] == answers[i + 1]);
        }
        lemma_first_answer_absent(answers.drop_first(), qid);
    }
}

/// The fetch-one lookup returns the first matching row.
pub proof fn lemma_first_answer_at(answers: Seq<AnswerRowView>, qid: int, m: int)
    requires
        0 <= m < answers.len(),
        answers[m].question_id == qid,
        forall|k: int| 0 <= k < m ==> (#[trigger] answers[k]).question_id != qid,
    ensures
        first_answer_of(answers, qid) == Some(answers[m]),
    decreases m,
{
    if m == 0 {
    } else {
        assert forall|k: int| 0 <= k < m - 1 implies (
        #[trigger] answers.drop_first()[k]).question_id != qid by {
            assert(answers.drop_first()[k] == answers[k + 1]);
        }
        assert(answers.drop_first()[m - 1] == answers[m]);
        lemma_first_answer_at(answers.drop_first(), qid, m - 1);
    }
}

/// Overwriting the first matching row rewrites exactly the row at its index.
pub proof fn lemma_update_first_at(
    answers: Seq<AnswerRowView>,
    qid: int,
    content: Seq<char>,
    m: int,
)
    requires
        0 <= m < answers.len(),
        answers[m].question_id == qid,
        forall|k: int| 0 <= k < m ==> (#[trigger] answers[k]).question_id != qid,
    ensures
        update_first_answer(answers, qid, content) == answers.update(
            m,
            AnswerRowView { id: answers[m].id, answer: content, question_id: qid },
        ),
    decreases m,
{
    let row = AnswerRowView { id: answers[m].id, answer: content, question_id: qid };
    if m == 0 {
        assert(seq![row] + answers.drop_first() =~= answers.update(0, row));
    } else {
        assert forall|k: int| 0 <= k < m - 1 implies (
        #[trigger] answers.drop_first()[k]).question_id != qid by {
            assert(answers.drop_first()[k] == answers[k + 1]);
        }
        assert(answers.drop_first()[m - 1] == answers[m]);
        lemma_update_first_at(answers.drop_first(), qid, content, m - 1);
        assert(seq![answers[0]] + answers.drop_first().update(m - 1, row) =~= answers.update(
            m,
            row,
        ));
    }
}

/// Appending one junction row appends its tag name when it links `qid`.
pub proof fn lemma_tags_of_links_push(
    links: Seq<LinkRowView>,
    tags: Seq<TagRowView>,
    qid: int,
    l: LinkRowView,
)
    ensures
        tags_of_links(links.push(l), tags, qid) == if l.question_id == qid {
            tags_of_links(links, tags, qid).push(tag_name(tags, l.tag_id))
        } else {
            tags_of_links(links, tags, qid)
        },
{
    assert(links.push(l).drop_last() =~= links);
    assert(links.push(l).last() == l);
}

/// Dropping one question's junction rows leaves every other question's tag
/// list untouched.
pub proof fn lemma_tags_of_links_without(
    links: Seq<LinkRowView>,
    tags: Seq<TagRowView>,
    qid: int,
    q2: int,
)
    requires
        q2 != qid,
    ensures
        tags_of_links(links_without(links, qid), tags, q2) == tags_of_links(links, tags, q2),
    decreases links.len(),
{
    if links.len() != 0 {
        lemma_tags_of_links_without(links.drop_last(), tags, qid, q2);
        assert(links.last() == links[links.len() - 1]);
        if links.last().question_id != qid {
            lemma_tags_of_links_push(
                links_without(links.drop_last(), qid),
                tags,
                q2,
                links.last(),
            );
        }
    }
}

/// Deletion keeps the answer rows sorted by id.
pub proof fn lemma_answers_without_sorted(answers: Seq<AnswerRowView>, qid: int)
    requires
        forall|i: int, j: int|
            0 <= i < j < answers.len() ==> (#[trigger] answers[i]).id < (#[trigger] answers[j]).id,
    ensures
        forall|i: int, j: int|
            0 <= i < j < answers_without(answers, qid).len() ==> (#[trigger] answers_without(
                answers,
                qid,
            )[i]).id < (#[trigger] answers_without(answers, qid)[j]).id,
    decreases answers.len(),
{
    if answers.len() != 0 {
        let rest = answers.drop_last();
        lemma_answers_without_sorted(rest, qid);
        lemma_answers_without_sub(rest, qid);
        let out = answers_without(answers, qid);
        let out_rest = answers_without(rest, qid);
        assert forall|i: int, j: int| 0 <= i < j < out.len() implies (#[trigger] out[i]).id < (
        #[trigger] out[j]).id by {
            if answers.last().question_id != qid && j == out.len() - 1 {
                assert(out[j] == answers.last());
                assert(out[i] == out_rest[i]);
                assert(rest.contains(out_rest[i]));
                let m = choose|m: int| 0 <= m < rest.len() && rest[m] == out_rest[i];
                assert(answers[m].id < answers[answers.len() - 1].id);
                assert(answers[answers.len() - 1] == answers.last());
            } else {
                assert(out[i] == out_rest[i]);
                assert(out[j] == out_rest[j]);
            }
        }
    }
}

} // verus!
