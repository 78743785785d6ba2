//! The question bank: the store itself, held in memory as the four tables,
//! with paginated retrieval and full CRUD over questions and their tags.

use vstd::prelude::*;
use crate::answer::Answer;
use crate::errors::QuestionBankErr;
use crate::model::{
    first_answer_of, has_tag_in, lemma_first_answer_absent, lemma_first_answer_at,
    lemma_has_question_same, lemma_update_first_at, new_link_rows, new_tag_rows, tag_name,
    tags_of_links, BankView,
};
use crate::pagination::Pagination;
use crate::question::Question;
use crate::rows::{AnswerRow, AnswerRowView, LinkRow, QuestionRow, TagRow};

verus! {

/// The store: question, tag, junction and answer tables, with the id each
/// table hands out next. Ids are generated ascending from 1, so each table
/// holds its rows in ascending id order.
#[derive(Debug)]
pub struct QuestionBank {
    questions: Vec<QuestionRow>,
    tags: Vec<TagRow>,
    links: Vec<LinkRow>,
    answers: Vec<AnswerRow>,
    next_question_id: i32,
    next_tag_id: i32,
    next_answer_id: i32,
}

impl View for QuestionBank {
    type V = BankView;

    closed spec fn view(&self) -> BankView {
        BankView {
            questions: self.questions.deep_view(),
            tags: self.tags.deep_view(),
            links: self.links.deep_view(),
            answers: self.answers.deep_view(),
            next_question_id: self.next_question_id as int,
            next_tag_id: self.next_tag_id as int,
            next_answer_id: self.next_answer_id as int,
        }
    }
}

/// Relies on fastrand::usize: a draw from the given range, which panics only
/// on an empty range; `0..n` with `n >= 1` is nonempty, so the draw returns a
/// value below `n`. Nothing else holds of the result: it is random.
#[verifier::external_body]
pub(crate) fn random_index(n: usize) -> (r: usize)
    requires
        n >= 1,
    ensures
        r < n,
{
    fastrand::usize(0..n)
}

impl QuestionBank {
    /// Creates an empty question bank.
    pub fn new() -> (bank: Self)
        ensures
            bank@ == BankView::empty(),
            bank@.wf(),
    {
        let bank = Self {
            questions: Vec::new(),
            tags: Vec::new(),
            links: Vec::new(),
            answers: Vec::new(),
            next_question_id: 1,
            next_tag_id: 1,
            next_answer_id: 1,
        };
        proof {
            assert(bank@.questions =~= Seq::<crate::rows::QuestionRowView>::empty());
            assert(bank@.tags =~= Seq::<crate::rows::TagRowView>::empty());
            assert(bank@.links =~= Seq::<crate::rows::LinkRowView>::empty());
            assert(bank@.answers =~= Seq::<crate::rows::AnswerRowView>::empty());
            assert(bank@ =~= BankView::empty());
        }
        bank
    }

    /// Looks a tag name up by tag id.
    fn tag_lookup(&self, tid: i32) -> (name: String)
        requires
            self@.wf(),
            has_tag_in(self@.tags, tid as int),
        ensures
            name@ == tag_name(self@.tags, tid as int),
    {
        let mut j: usize = 0;
        loop
            invariant
                self@.wf(),
                has_tag_in(self@.tags, tid as int),
                j <= self.tags.len(),
                forall|k: int| 0 <= k < j ==> (#[trigger] self@.tags[k]).id != tid as int,
            decreases self.tags.len() - j,
        {
            proof {
                let m = choose|m: int|
                    0 <= m < self@.tags.len() && (#[trigger] self@.tags[m]).id == tid as int;
                assert(m >= j);
            }
            if self.tags[j].id == tid {
                proof {
                    crate::model::lemma_tag_name_at(self@.tags, j as int);
                }
                return self.tags[j].name.clone();
            }
            j = j + 1;
        }
    }

    /// Collects the tag names linked to a question, in junction-row order.
    fn collect_tags(&self, qid: i32) -> (out: Vec<String>)
        requires
            self@.wf(),
        ensures
            out.deep_view() == self@.tags_of(qid as int),
    {
        let mut out: Vec<String> = Vec::new();
        let mut i: usize = 0;
        while i < self.links.len()
            invariant
                self@.wf(),
                i <= self.links.len(),
                out.deep_view() == tags_of_links(
                    self@.links.take(i as int),
                    self@.tags,
                    qid as int,
                ),
            decreases self.links.len() - i,
        {
            proof {
                assert(self@.links.take(i as int + 1).drop_last() =~= self@.links.take(i as int));
                assert(self@.links.take(i as int + 1).last() == self@.links[i as int]);
            }
            let ghost prev = out.deep_view();
            if self.links[i].question_id == qid {
                let name = self.tag_lookup(self.links[i].tag_id);
                out.push(name);
                proof {
                    assert(out.deep_view() =~= prev.push(name@));
                }
            }
            i = i + 1;
        }
        proof {
            assert(self@.links.take(self.links.len() as int) =~= self@.links);
        }
        out
    }

    /// Builds the served question for the stored row at `i`: the row's fields
    /// plus its tag names, which come back as `None` when there are none.
    fn build_question(&self, i: usize) -> (q: Question)
        requires
            self@.wf(),
            i < self@.questions.len(),
        ensures
            q@.id == self@.questions[i as int].id,
            q@.title == self@.questions[i as int].title,
            q@.content == self@.questions[i as int].content,
            q@.tags == self@.tags_of(self@.questions[i as int].id),
            q.tags is Some <==> self@.tags_of(self@.questions[i as int].id).len() > 0,
            self@.has_question(q@.id),
            self@.question_row(q@.id) == self@.questions[i as int],
    {
        let row = &self.questions[i];
        let ts = self.collect_tags(row.id);
        proof {
            self@.lemma_question_at(i as int);
            if ts.deep_view().len() == 0 {
                assert(self@.tags_of(row.id as int) =~= Seq::<Seq<char>>::empty());
            }
        }
        let tags: Option<Vec<String>> = if ts.is_empty() {
            None
        } else {
            Some(ts)
        };
        Question { id: row.id, title: row.title.clone(), content: row.content.clone(), tags }
    }

    /// Finds the position of the question row carrying this id.
    fn find_question(&self, index: i32) -> (r: Option<usize>)
        ensures
            r is Some <==> self@.has_question(index as int),
            match r {
                Some(m) => m < self@.questions.len() && self@.questions[m as int].id
                    == index as int,
                None => !self@.has_question(index as int),
            },
    {
        let mut i: usize = 0;
        while i < self.questions.len()
            invariant
                i <= self.questions.len(),
                forall|k: int| 0 <= k < i ==> (#[trigger] self@.questions[k]).id != index as int,
            decreases self.questions.len() - i,
        {
            if self.questions[i].id == index {
                proof {
                    assert(self@.questions[i as int].id == index as int);
                }
                return Some(i);
            }
            i = i + 1;
        }
        None
    }

    /// Retrieves a question by id, with its tag names; absent ids are
    /// rejected.
    pub fn get(&self, index: i32) -> (r: Result<Question, QuestionBankErr>)
        requires
            self@.wf(),
        ensures
            r is Ok <==> self@.has_question(index as int),
            match r {
                Ok(q) => {
                    &&& q@.id == index as int
                    &&& q@.title == self@.question_row(index as int).title
                    &&& q@.content == self@.question_row(index as int).content
                    &&& q@.tags == self@.tags_of(index as int)
                    &&& (q.tags is Some <==> self@.tags_of(index as int).len() > 0)
                },
                Err(e) => e == QuestionBankErr::NotFound(index),
            },
    {
        match self.find_question(index) {
            Some(i) => Ok(self.build_question(i)),
            None => Err(QuestionBankErr::NotFound(index)),
        }
    }

    /// Retrieves one page of questions, ordered by ascending id: page numbers
    /// start at 1, the page holds `min(limit, total - (page-1)*limit)` rows,
    /// and an offset beyond the stored total is rejected.
    pub fn paginated_get(&self, page: u64, limit: u64) -> (r: Result<
        Vec<Question>,
        QuestionBankErr,
    >)
        requires
            self@.wf(),
            page >= 1,
        ensures
            ({
                let total = self@.questions.len() as int;
                let off = (page - 1) * limit;
                &&& (r is Ok <==> off <= total)
                &&& match r {
                    Ok(v) => {
                        &&& v@.len() == vstd::math::min(limit as int, total - off)
                        &&& forall|i: int|
                            0 <= i < v@.len() ==> {
                                let row = self@.questions[off + i];
                                &&& (#[trigger] v@[i])@.id == row.id
                                &&& v@[i]@.title == row.title
                                &&& v@[i]@.content == row.content
                                &&& v@[i]@.tags == self@.tags_of(row.id)
                                &&& (v@[i].tags is Some <==> self@.tags_of(row.id).len() > 0)
                            }
                        &&& forall|i: int, j: int|
                            0 <= i < j < v@.len() ==> (#[trigger] v@[i])@.id < (
                            #[trigger] v@[j])@.id
                    },
                    Err(e) => e == QuestionBankErr::PaginationInvalid,
                }
            }),
    {
        let p = Pagination { page, limit };
        let (start, count) = match p.window(self.questions.len()) {
            Ok(w) => w,
            Err(e) => {
                return Err(e);
            },
        };
        let mut out: Vec<Question> = Vec::new();
        let mut k: usize = 0;
        while k < count
            invariant
                self@.wf(),
                k <= count,
                start + count <= self.questions.len(),
                out@.len() == k,
                forall|i: int|
                    0 <= i < k ==> {
                        let row = self@.questions[start + i];
                        &&& (#[trigger] out@[i])@.id == row.id
                        &&& out@[i]@.title == row.title
                        &&& out@[i]@.content == row.content
                        &&& out@[i]@.tags == self@.tags_of(row.id)
                        &&& (out@[i].tags is Some <==> self@.tags_of(row.id).len() > 0)
                    },
            decreases count - k,
        {
            let q = self.build_question(start + k);
            out.push(q);
            k = k + 1;
        }
        proof {
            assert forall|i: int, j: int| 0 <= i < j < out@.len() implies (#[trigger] out@[i])@.id
                < (#[trigger] out@[j])@.id by {
                assert(self@.questions[start + i].id < self@.questions[start + j].id);
            }
        }
        Ok(out)
    }

    /// Serves one question drawn at random, or nothing from an empty bank.
    pub fn get_random(&self) -> (r: Option<Question>)
        requires
            self@.wf(),
        ensures
            r is Some <==> self@.questions.len() > 0,
            match r {
                Some(q) => {
                    &&& self@.has_question(q@.id)
                    &&& q@.title == self@.question_row(q@.id).title
                    &&& q@.content == self@.question_row(q@.id).content
                    &&& q@.tags == self@.tags_of(q@.id)
                    &&& (q.tags is Some <==> self@.tags_of(q@.id).len() > 0)
                },
                None => self@.questions.len() == 0,
            },
    {
        if self.questions.is_empty() {
            return None;
        }
        let i = random_index(self.questions.len());
        Some(self.build_question(i))
    }

    /// Inserts one fresh tag row per name and links each to question `qid`
    /// (the insert-tag-then-link sequence; names are never deduplicated).
    fn add_tag_rows(&mut self, qid: i32, ts: &Vec<String>)
        requires
            old(self)@.wf(),
            old(self)@.has_question(qid as int),
            old(self)@.can_add_tags(ts.deep_view().len()),
        ensures
            final(self)@ == old(self)@.with_tags(qid as int, ts.deep_view()),
            final(self)@.wf(),
    {
        let ghost pre = self@;
        let ghost names = ts.deep_view();
        let n = ts.len();
        let mut k: usize = 0;
        while k < n
            invariant
                k <= n,
                n == ts.len(),
                names == ts.deep_view(),
                pre.wf(),
                pre.next_tag_id + names.len() <= i32::MAX as int,
                self@.questions == pre.questions,
                self@.answers == pre.answers,
                self@.tags == pre.tags + new_tag_rows(pre.next_tag_id, names.take(k as int)),
                self@.links == pre.links + new_link_rows(qid as int, pre.next_tag_id, k as nat),
                self@.next_tag_id == pre.next_tag_id + k,
                self@.next_question_id == pre.next_question_id,
                self@.next_answer_id == pre.next_answer_id,
            decreases n - k,
        {
            let ghost tags0 = self@.tags;
            let ghost links0 = self@.links;
            let ghost k0 = k as int;
            let tid = self.next_tag_id;
            self.tags.push(TagRow { id: tid, name: ts[k].clone() });
            self.links.push(LinkRow { question_id: qid, tag_id: tid });
            self.next_tag_id = tid + 1;
            k = k + 1;
            proof {
                assert(self@.tags =~= tags0.push(
                    crate::rows::TagRowView { id: tid as int, name: names[k0] },
                ));
                assert(self@.links =~= links0.push(
                    crate::rows::LinkRowView { question_id: qid as int, tag_id: tid as int },
                ));
                assert(self@.tags =~= pre.tags + new_tag_rows(
                    pre.next_tag_id,
                    names.take(k as int),
                ));
                assert(self@.links =~= pre.links + new_link_rows(
                    qid as int,
                    pre.next_tag_id,
                    k as nat,
                ));
            }
        }
        proof {
            assert(names.take(n as int) =~= names);
            assert(self@ =~= pre.with_tags(qid as int, names));
            pre.lemma_with_tags(qid as int, names);
        }
    }

    /// Adds a question: inserts its row under a freshly generated id, then
    /// one fresh tag row and one junction row per tag name, and returns the
    /// generated id. Fails only when the store's id space is exhausted, in
    /// which case nothing changes.
    pub fn add(&mut self, question: Question) -> (r: Result<i32, QuestionBankErr>)
        requires
            old(self)@.wf(),
        ensures
            final(self)@.wf(),
            r is Ok <==> old(self)@.can_add_question(question@.tags.len()),
            match r {
                Ok(id) => {
                    &&& id as int == old(self)@.next_question_id
                    &&& final(self)@ == old(self)@.add_q(
                        question@.title,
                        question@.content,
                        question@.tags,
                    )
                },
                Err(e) => {
                    &&& e == QuestionBankErr::IoError
                    &&& final(self)@ == old(self)@
                },
            },
    {
        let ghost pre = self@;
        let n: usize = match &question.tags {
            Some(ts) => ts.len(),
            None => 0,
        };
        proof {
            assert(n == question@.tags.len());
        }
        if self.next_question_id == i32::MAX {
            return Err(QuestionBankErr::IoError);
        }
        if n > (i32::MAX - self.next_tag_id) as usize {
            return Err(QuestionBankErr::IoError);
        }
        let Question { id: _, title, content, tags } = question;
        let qid = self.next_question_id;
        self.questions.push(
            QuestionRow { id: qid, title: title.clone(), content: content.clone() },
        );
        self.next_question_id = qid + 1;
        proof {
            assert(self@.questions =~= pre.questions.push(
                crate::rows::QuestionRowView { id: qid as int, title: title@, content: content@ },
            ));
            assert(self@ =~= pre.push_q(title@, content@));
            pre.lemma_push_q(title@, content@);
        }
        let ghost mid = self@;
        match &tags {
            Some(ts) => {
                self.add_tag_rows(qid, ts);
            },
            None => {
                proof {
                    assert(new_tag_rows(mid.next_tag_id, Seq::<Seq<char>>::empty())
                        =~= Seq::<crate::rows::TagRowView>::empty());
                    assert(new_link_rows(qid as int, mid.next_tag_id, 0)
                        =~= Seq::<crate::rows::LinkRowView>::empty());
                    assert(self@ =~= mid.with_tags(qid as int, Seq::<Seq<char>>::empty()));
                    mid.lemma_with_tags(qid as int, Seq::<Seq<char>>::empty());
                }
            },
        }
        proof {
            assert(self@ == pre.add_q(title@, content@, question@.tags));
        }
        Ok(qid)
    }

    /// Removes a question by id: its row goes, and the delete cascades to its
    /// junction rows and its answers. The delete is checkless, so an absent
    /// id is not an error and deleting twice is deleting once.
    pub fn delete(&mut self, index: i32) -> (r: Result<(), QuestionBankErr>)
        requires
            old(self)@.wf(),
        ensures
            final(self)@.wf(),
            r is Ok,
            final(self)@ == old(self)@.delete_q(index as int),
    {
        let ghost pre = self@;
        let mut qs: Vec<QuestionRow> = Vec::new();
        let mut i: usize = 0;
        while i < self.questions.len()
            invariant
                i <= self.questions.len(),
                self@ == pre,
                qs.deep_view() == crate::model::questions_without(
                    self@.questions.take(i as int),
                    index as int,
                ),
            decreases self.questions.len() - i,
        {
            proof {
                assert(self@.questions.take(i as int + 1).drop_last() =~= self@.questions.take(
                    i as int,
                ));
                assert(self@.questions.take(i as int + 1).last() == self@.questions[i as int]);
            }
            let ghost prev = qs.deep_view();
            let row = &self.questions[i];
            if row.id != index {
                qs.push(
                    QuestionRow {
                        id: row.id,
                        title: row.title.clone(),
                        content: row.content.clone(),
                    },
                );
                proof {
                    assert(qs.deep_view() =~= prev.push(self@.questions[i as int]));
                }
            }
            i = i + 1;
        }
        let mut ls: Vec<LinkRow> = Vec::new();
        let mut j: usize = 0;
        while j < self.links.len()
            invariant
                j <= self.links.len(),
                self@ == pre,
                ls.deep_view() == crate::model::links_without(
                    self@.links.take(j as int),
                    index as int,
                ),
            decreases self.links.len() - j,
        {
            proof {
                assert(self@.links.take(j as int + 1).drop_last() =~= self@.links.take(j as int));
                assert(self@.links.take(j as int + 1).last() == self@.links[j as int]);
            }
            let ghost prev = ls.deep_view();
            let link = self.links[j];
            if link.question_id != index {
                ls.push(link);
                proof {
                    assert(ls.deep_view() =~= prev.push(self@.links[j as int]));
                }
            }
            j = j + 1;
        }
        let mut ans: Vec<AnswerRow> = Vec::new();
        let mut h: usize = 0;
        while h < self.answers.len()
            invariant
                h <= self.answers.len(),
                self@ == pre,
                ans.deep_view() == crate::model::answers_without(
                    self@.answers.take(h as int),
                    index as int,
                ),
            decreases self.answers.len() - h,
        {
            proof {
                assert(self@.answers.take(h as int + 1).drop_last() =~= self@.answers.take(
                    h as int,
                ));
                assert(self@.answers.take(h as int + 1).last() == self@.answers[h as int]);
            }
            let ghost prev = ans.deep_view();
            let row = &self.answers[h];
            if row.question_id != index {
                ans.push(
                    AnswerRow {
                        id: row.id,
                        answer: row.answer.clone(),
                        question_id: row.question_id,
                    },
                );
                proof {
                    assert(ans.deep_view() =~= prev.push(self@.answers[h as int]));
                }
            }
            h = h + 1;
        }
        proof {
            assert(self@.questions.take(self.questions.len() as int) =~= self@.questions);
            assert(self@.links.take(self.links.len() as int) =~= self@.links);
            assert(self@.answers.take(self.answers.len() as int) =~= self@.answers);
        }
        self.questions = qs;
        self.links = ls;
        self.answers = ans;
        proof {
            assert(self@ =~= pre.delete_q(index as int));
            pre.lemma_delete_q(index as int);
        }
        Ok(())
    }

    /// Updates a question by id: overwrites its title and content, drops its
    /// old tag linkage entirely, and inserts the new tag set as fresh tag and
    /// junction rows. A missing target is rejected; an exhausted tag id space
    /// leaves the store unchanged.
    pub fn update(&mut self, index: i32, question: Question) -> (r: Result<
        Question,
        QuestionBankErr,
    >)
        requires
            old(self)@.wf(),
        ensures
            final(self)@.wf(),
            r is Ok <==> old(self)@.has_question(index as int) && old(self)@.can_add_tags(
                question@.tags.len(),
            ),
            match r {
                Ok(q) => {
                    &&& final(self)@ == old(self)@.update_q(
                        index as int,
                        question@.title,
                        question@.content,
                        question@.tags,
                    )
                    &&& q@.id == index as int
                    &&& q@.title == question@.title
                    &&& q@.content == question@.content
                    &&& q@.tags == question@.tags
                },
                Err(e) => {
                    &&& final(self)@ == old(self)@
                    &&& e == (if !old(self)@.has_question(index as int) {
                        QuestionBankErr::NoPayload
                    } else {
                        QuestionBankErr::IoError
                    })
                },
            },
    {
        let ghost pre = self@;
        let m = match self.find_question(index) {
            Some(m) => m,
            None => {
                return Err(QuestionBankErr::NoPayload);
            },
        };
        let n: usize = match &question.tags {
            Some(ts) => ts.len(),
            None => 0,
        };
        proof {
            assert(n == question@.tags.len());
        }
        if n > (i32::MAX - self.next_tag_id) as usize {
            return Err(QuestionBankErr::IoError);
        }
        let Question { id: _, title, content, tags } = question;
        self.questions[m] = QuestionRow {
            id: index,
            title: title.clone(),
            content: content.clone(),
        };
        proof {
            pre.lemma_question_at(m as int);
            assert(self@.questions =~= pre.questions.update(
                m as int,
                crate::rows::QuestionRowView { id: index as int, title: title@, content: content@ },
            ));
            assert(self@ =~= pre.replace_q(index as int, title@, content@));
            pre.lemma_replace_q(index as int, title@, content@);
        }
        let ghost mid1 = self@;
        let mut ls: Vec<LinkRow> = Vec::new();
        let mut j: usize = 0;
        while j < self.links.len()
            invariant
                j <= self.links.len(),
                self@ == mid1,
                ls.deep_view() == crate::model::links_without(
                    self@.links.take(j as int),
                    index as int,
                ),
            decreases self.links.len() - j,
        {
            proof {
                assert(self@.links.take(j as int + 1).drop_last() =~= self@.links.take(j as int));
                assert(self@.links.take(j as int + 1).last() == self@.links[j as int]);
            }
            let ghost prev = ls.deep_view();
            let link = self.links[j];
            if link.question_id != index {
                ls.push(link);
                proof {
                    assert(ls.deep_view() =~= prev.push(self@.links[j as int]));
                }
            }
            j = j + 1;
        }
        proof {
            assert(self@.links.take(self.links.len() as int) =~= self@.links);
        }
        self.links = ls;
        proof {
            assert(self@ =~= mid1.drop_links(index as int));
            mid1.lemma_drop_links(index as int);
        }
        let ghost mid2 = self@;
        proof {
            crate::model::lemma_has_question_same(mid1, mid2, index as int);
        }
        match &tags {
            Some(ts) => {
                self.add_tag_rows(index, ts);
            },
            None => {
                proof {
                    assert(new_tag_rows(mid2.next_tag_id, Seq::<Seq<char>>::empty())
                        =~= Seq::<crate::rows::TagRowView>::empty());
                    assert(new_link_rows(index as int, mid2.next_tag_id, 0)
                        =~= Seq::<crate::rows::LinkRowView>::empty());
                    assert(self@ =~= mid2.with_tags(index as int, Seq::<Seq<char>>::empty()));
                    mid2.lemma_with_tags(index as int, Seq::<Seq<char>>::empty());
                }
            },
        }
        proof {
            assert(self@ == pre.update_q(index as int, title@, content@, (match tags {
                Some(ts) => ts.deep_view(),
                None => Seq::<Seq<char>>::empty(),
            })));
        }
        Ok(Question { id: index, title, content, tags })
    }

    /// Retrieves the answer stored for a question: the first matching row, as
    /// a fetch-one lookup returns it. A question without an answer is
    /// rejected.
    pub fn get_answer(&self, question_id: i32) -> (r: Result<Answer, QuestionBankErr>)
        requires
            self@.wf(),
        ensures
            r is Ok <==> first_answer_of(self@.answers, question_id as int) is Some,
            match r {
                Ok(a) => match first_answer_of(self@.answers, question_id as int) {
                    Some(row) => {
                        &&& a@.id == Some(row.id)
                        &&& a@.answer == row.answer
                        &&& a@.question_id == Some(row.question_id)
                        &&& row.question_id == question_id as int
                    },
                    None => false,
                },
                Err(e) => e == QuestionBankErr::NotFound(question_id),
            },
    {
        let mut i: usize = 0;
        while i < self.answers.len()
            invariant
                i <= self.answers.len(),
                forall|k: int|
                    0 <= k < i ==> (#[trigger] self@.answers[k]).question_id != question_id as int,
            decreases self.answers.len() - i,
        {
            if self.answers[i].question_id == question_id {
                proof {
                    lemma_first_answer_at(self@.answers, question_id as int, i as int);
                }
                let row = &self.answers[i];
                return Ok(
                    Answer {
                        id: Some(row.id),
                        answer: row.answer.clone(),
                        question_id: Some(row.question_id),
                    },
                );
            }
            i = i + 1;
        }
        proof {
            lemma_first_answer_absent(self@.answers, question_id as int);
        }
        Err(QuestionBankErr::NotFound(question_id))
    }

    /// Adds an answer bound to a question id. The payload must carry a
    /// question id, the question must exist, and the store must have room for
    /// one more id; whether the question already has an answer is never
    /// checked, so a question can accumulate several.
    pub fn add_answer(&mut self, answer: Answer) -> (r: Result<(), QuestionBankErr>)
        requires
            old(self)@.wf(),
        ensures
            final(self)@.wf(),
            match answer.question_id {
                None => final(self)@ == old(self)@ && match r {
                    Ok(_) => false,
                    Err(e) => e == QuestionBankErr::Unprocessable,
                },
                Some(qid) => {
                    &&& (r is Ok <==> old(self)@.has_question(qid as int)
                        && old(self)@.can_add_answer())
                    &&& match r {
                        Ok(_) => final(self)@ == old(self)@.add_a(answer@.answer, qid as int),
                        Err(e) => {
                            &&& final(self)@ == old(self)@
                            &&& e == (if !old(self)@.has_question(qid as int) {
                                QuestionBankErr::NotFound(qid)
                            } else {
                                QuestionBankErr::IoError
                            })
                        },
                    }
                },
            },
    {
        let ghost pre = self@;
        let Answer { id: _, answer: content, question_id } = answer;
        let qid = match question_id {
            Some(q) => q,
            None => {
                return Err(QuestionBankErr::Unprocessable);
            },
        };
        if self.find_question(qid).is_none() {
            return Err(QuestionBankErr::NotFound(qid));
        }
        if self.next_answer_id == i32::MAX {
            return Err(QuestionBankErr::IoError);
        }
        let aid = self.next_answer_id;
        self.answers.push(AnswerRow { id: aid, answer: content, question_id: qid });
        self.next_answer_id = aid + 1;
        proof {
            assert(self@.answers =~= pre.answers.push(
                AnswerRowView {
                    id: aid as int,
                    answer: answer@.answer,
                    question_id: qid as int,
                },
            ));
            assert(self@ =~= pre.add_a(answer@.answer, qid as int));
            pre.lemma_add_a(answer@.answer, qid as int);
        }
        Ok(())
    }

    /// Removes every answer of a question; removing where none is stored is
    /// not an error.
    pub fn delete_answer(&mut self, question_id: i32) -> (r: Result<(), QuestionBankErr>)
        requires
            old(self)@.wf(),
        ensures
            final(self)@.wf(),
            r is Ok,
            final(self)@ == old(self)@.delete_a(question_id as int),
    {
        let ghost pre = self@;
        let mut ans: Vec<AnswerRow> = Vec::new();
        let mut h: usize = 0;
        while h < self.answers.len()
            invariant
                h <= self.answers.len(),
                self@ == pre,
                ans.deep_view() == crate::model::answers_without(
                    self@.answers.take(h as int),
                    question_id as int,
                ),
            decreases self.answers.len() - h,
        {
            proof {
                assert(self@.answers.take(h as int + 1).drop_last() =~= self@.answers.take(
                    h as int,
                ));
                assert(self@.answers.take(h as int + 1).last() == self@.answers[h as int]);
            }
            let ghost prev = ans.deep_view();
            let row = &self.answers[h];
            if row.question_id != question_id {
                ans.push(
                    AnswerRow {
                        id: row.id,
                        answer: row.answer.clone(),
                        question_id: row.question_id,
                    },
                );
                proof {
                    assert(ans.deep_view() =~= prev.push(self@.answers[h as int]));
                }
            }
            h = h + 1;
        }
        proof {
            assert(self@.answers.take(self.answers.len() as int) =~= self@.answers);
        }
        self.answers = ans;
        proof {
            assert(self@ =~= pre.delete_a(question_id as int));
            pre.lemma_delete_a(question_id as int);
        }
        Ok(())
    }

    /// Updates the answer stored for a question: overwrites the first
    /// matching row's text and returns the row as served afterwards. A
    /// question without an answer is rejected.
    pub fn update_answer(&mut self, question_id: i32, answer: Answer) -> (r: Result<
        Answer,
        QuestionBankErr,
    >)
        requires
            old(self)@.wf(),
        ensures
            final(self)@.wf(),
            r is Ok <==> first_answer_of(old(self)@.answers, question_id as int) is Some,
            match r {
                Ok(a) => {
                    &&& final(self)@ == old(self)@.update_a(question_id as int, answer@.answer)
                    &&& match first_answer_of(old(self)@.answers, question_id as int) {
                        Some(row) => {
                            &&& a@.id == Some(row.id)
                            &&& a@.answer == answer@.answer
                            &&& a@.question_id == Some(row.question_id)
                        },
                        None => false,
                    }
                },
                Err(e) => {
                    &&& final(self)@ == old(self)@
                    &&& e == QuestionBankErr::NotFound(question_id)
                },
            },
    {
        let ghost pre = self@;
        let Answer { id: _, answer: content, question_id: _ } = answer;
        let mut i: usize = 0;
        while i < self.answers.len()
            invariant
                i <= self.answers.len(),
                self@ == pre,
                pre.wf(),
                pre == old(self)@,
                content@ == answer@.answer,
                forall|k: int|
                    0 <= k < i ==> (#[trigger] self@.answers[k]).question_id != question_id as int,
            decreases self.answers.len() - i,
        {
            if self.answers[i].question_id == question_id {
                let aid = self.answers[i].id;
                let ghost row = AnswerRowView {
                    id: aid as int,
                    answer: content@,
                    question_id: question_id as int,
                };
                self.answers[i] = AnswerRow {
                    id: aid,
                    answer: content.clone(),
                    question_id,
                };
                proof {
                    lemma_first_answer_at(pre.answers, question_id as int, i as int);
                    lemma_update_first_at(pre.answers, question_id as int, content@, i as int);
                    assert(self@.answers =~= pre.answers.update(i as int, row));
                    assert(self@ =~= pre.update_a(question_id as int, content@));
                    assert forall|x: int| 0 <= x < self@.answers.len() implies 1 <= (
                    #[trigger] self@.answers[x]).id < self@.next_answer_id && self@.has_question(
                        self@.answers[x].question_id,
                    ) by {
                        if x != i {
                            assert(self@.answers[x] == pre.answers[x]);
                        }
                        assert(pre.has_question(pre.answers[x].question_id));
                        lemma_has_question_same(pre, self@, pre.answers[x].question_id);
                        assert(self@.answers[x].question_id == pre.answers[x].question_id);
                    }
                    assert forall|x: int, y: int| 0 <= x < y < self@.answers.len() implies (
                    #[trigger] self@.answers[x]).id < (#[trigger] self@.answers[y]).id by {
                        assert(self@.answers[x].id == pre.answers[x].id);
                        assert(self@.answers[y].id == pre.answers[y].id);
                    }
                    assert forall|x: int| 0 <= x < self@.links.len() implies self@.has_question(
                        (#[trigger] self@.links[x]).question_id,
                    ) by {
                        assert(pre.has_question(pre.links[x].question_id));
                        lemma_has_question_same(pre, self@, pre.links[x].question_id);
                    }
                    assert(self@.wf());
                }
                return Ok(
                    Answer { id: Some(aid), answer: content, question_id: Some(question_id) },
                );
            }
            i = i + 1;
        }
        proof {
            lemma_first_answer_absent(pre.answers, question_id as int);
        }
        Err(QuestionBankErr::NotFound(question_id))
    }
}

} // verus!
