use questionbank::Answer;
use questionbank::Question;
use questionbank::QuestionBank;
use questionbank::QuestionBankErr;

fn add_plain(bank: &mut QuestionBank, title: &str) -> i32 {
    bank.add(Question::new(0, title, "content", &[])).unwrap()
}

#[test]
fn add_returns_ascending_generated_ids() {
    let mut bank = QuestionBank::new();
    assert_eq!(add_plain(&mut bank, "a"), 1);
    assert_eq!(add_plain(&mut bank, "b"), 2);
    assert_eq!(add_plain(&mut bank, "c"), 3);
}

#[test]
fn get_round_trips_title_content_and_tags() {
    let mut bank = QuestionBank::new();
    let id = bank
        .add(Question::new(0, "t", "c", &["a", "b"]))
        .unwrap();
    let got = bank.get(id).unwrap();
    assert_eq!(got.id, id);
    assert_eq!(got.title, "t");
    assert_eq!(got.content, "c");
    assert_eq!(got.tags, Some(vec!["a".to_string(), "b".to_string()]));
}

#[test]
fn get_of_question_without_tags_yields_none() {
    let mut bank = QuestionBank::new();
    let id = add_plain(&mut bank, "t");
    let got = bank.get(id).unwrap();
    assert_eq!(got.tags, None);
}

#[test]
fn get_of_absent_id_fails_with_not_found() {
    let bank = QuestionBank::new();
    assert_eq!(bank.get(1).unwrap_err(), QuestionBankErr::NotFound(1));
    let mut bank = QuestionBank::new();
    add_plain(&mut bank, "t");
    assert_eq!(bank.get(9).unwrap_err(), QuestionBankErr::NotFound(9));
}

#[test]
fn duplicate_tag_names_make_fresh_rows() {
    let mut bank = QuestionBank::new();
    let a = bank.add(Question::new(0, "a", "c", &["geo"])).unwrap();
    let b = bank.add(Question::new(0, "b", "c", &["geo"])).unwrap();
    assert_eq!(bank.get(a).unwrap().tags, Some(vec!["geo".to_string()]));
    assert_eq!(bank.get(b).unwrap().tags, Some(vec!["geo".to_string()]));
}

#[test]
fn paginated_get_returns_the_window_in_ascending_id_order() {
    let mut bank = QuestionBank::new();
    for t in ["a", "b", "c", "d", "e"] {
        add_plain(&mut bank, t);
    }
    let page1 = bank.paginated_get(1, 2).unwrap();
    assert_eq!(page1.iter().map(|q| q.id).collect::<Vec<_>>(), vec![1, 2]);
    let page2 = bank.paginated_get(2, 2).unwrap();
    assert_eq!(page2.iter().map(|q| q.id).collect::<Vec<_>>(), vec![3, 4]);
    let page3 = bank.paginated_get(3, 2).unwrap();
    assert_eq!(page3.iter().map(|q| q.id).collect::<Vec<_>>(), vec![5]);
    assert_eq!(page3[0].title, "e");
}

#[test]
fn paginated_get_length_is_min_of_limit_and_what_is_left() {
    let mut bank = QuestionBank::new();
    for t in ["a", "b", "c", "d", "e"] {
        add_plain(&mut bank, t);
    }
    assert_eq!(bank.paginated_get(1, 10).unwrap().len(), 5);
    assert_eq!(bank.paginated_get(1, 3).unwrap().len(), 3);
    assert_eq!(bank.paginated_get(2, 3).unwrap().len(), 2);
    // the offset may land exactly on the total: an empty page, not an error
    assert_eq!(bank.paginated_get(6, 1).unwrap().len(), 0);
}

#[test]
fn paginated_get_beyond_the_total_fails_with_pagination_invalid() {
    let mut bank = QuestionBank::new();
    for t in ["a", "b", "c", "d", "e"] {
        add_plain(&mut bank, t);
    }
    assert_eq!(
        bank.paginated_get(7, 1).unwrap_err(), QuestionBankErr::PaginationInvalid);
    assert_eq!(bank.paginated_get(4, 2).unwrap_err(), QuestionBankErr::PaginationInvalid);
    // an offset too large for the machine word is beyond any total
    assert_eq!(bank.paginated_get(u64::MAX, u64::MAX).unwrap_err(), QuestionBankErr::PaginationInvalid);
}

#[test]
fn delete_removes_question_and_cascades_to_junction_and_answer() {
    let mut bank = QuestionBank::new();
    let keep = bank.add(Question::new(0, "keep", "c", &["k"])).unwrap();
    let gone = bank.add(Question::new(0, "gone", "c", &["g"])).unwrap();
    bank.add_answer(Answer::new(None, "an answer", Some(gone)))
        .unwrap();
    bank.delete(gone).unwrap();
    assert_eq!(bank.get(gone).unwrap_err(), QuestionBankErr::NotFound(gone));
    assert_eq!(bank.get_answer(gone).unwrap_err(), QuestionBankErr::NotFound(gone));
    // the other question and its tags are untouched
    let kept = bank.get(keep).unwrap();
    assert_eq!(kept.title, "keep");
    assert_eq!(kept.tags, Some(vec!["k".to_string()]));
}

#[test]
fn delete_is_checkless_so_deleting_twice_is_deleting_once() {
    let mut bank = QuestionBank::new();
    // an absent id is not an error
    assert!(bank.delete(3).is_ok());
    let keep = add_plain(&mut bank, "keep");
    let gone = add_plain(&mut bank, "gone");
    bank.delete(gone).unwrap();
    bank.delete(gone).unwrap();
    assert_eq!(bank.get(gone).unwrap_err(), QuestionBankErr::NotFound(gone));
    assert_eq!(bank.get(keep).unwrap().title, "keep");
}

#[test]
fn update_replaces_title_content_and_the_whole_tag_set() {
    let mut bank = QuestionBank::new();
    let id = bank.add(Question::new(0, "t", "c", &["x", "y"])).unwrap();
    let updated = bank
        .update(id, Question::new(0, "t2", "c2", &["z"]))
        .unwrap();
    assert_eq!(updated.title, "t2");
    let got = bank.get(id).unwrap();
    assert_eq!(got.title, "t2");
    assert_eq!(got.content, "c2");
    // tags present before but absent from the new set no longer appear
    assert_eq!(got.tags, Some(vec!["z".to_string()]));
}

#[test]
fn update_to_an_empty_tag_set_clears_the_tags() {
    let mut bank = QuestionBank::new();
    let id = bank.add(Question::new(0, "t", "c", &["x"])).unwrap();
    bank.update(id, Question::new(0, "t", "c", &[])).unwrap();
    assert_eq!(bank.get(id).unwrap().tags, None);
}

#[test]
fn update_of_absent_id_fails_with_no_payload() {
    let mut bank = QuestionBank::new();
    assert_eq!(
        bank.update(5, Question::new(0, "t", "c", &[])).unwrap_err(), QuestionBankErr::NoPayload);
}

#[test]
fn update_leaves_other_questions_tags_alone() {
    let mut bank = QuestionBank::new();
    let other = bank.add(Question::new(0, "o", "c", &["keep"])).unwrap();
    let id = bank.add(Question::new(0, "t", "c", &["x"])).unwrap();
    bank.update(id, Question::new(0, "t", "c", &["z"])).unwrap();
    assert_eq!(bank.get(other).unwrap().tags, Some(vec!["keep".to_string()]));
}

#[test]
fn example_scenario_capital_of_france() {
    let mut bank = QuestionBank::new();
    for n in ["q1", "q2", "q3", "q4", "q5", "q6"] {
        add_plain(&mut bank, n);
    }
    let id = bank
        .add(Question::new(
            0,
            "Capital",
            "Capital of France?",
            &["geo"],
        ))
        .unwrap();
    assert_eq!(id, 7);
    let got = bank.get(7).unwrap();
    assert_eq!(got.id, 7);
    assert_eq!(got.title, "Capital");
    assert_eq!(got.content, "Capital of France?");
    assert_eq!(got.tags, Some(vec!["geo".to_string()]));
    bank.add_answer(Answer::new(None, "Paris", Some(7))).unwrap();
    let answer = bank.get_answer(7).unwrap();
    assert_eq!(answer.answer, "Paris");
    assert_eq!(answer.question_id, Some(7));
}

#[test]
fn get_random_is_none_only_on_an_empty_bank() {
    let bank = QuestionBank::new();
    assert!(bank.get_random().is_none());
    let mut bank = QuestionBank::new();
    let id = bank.add(Question::new(0, "only", "c", &["t"])).unwrap();
    let q = bank.get_random().unwrap();
    assert_eq!(q.id, id);
    assert_eq!(q.title, "only");
    assert_eq!(q.tags, Some(vec!["t".to_string()]));
}

#[test]
fn get_random_draws_one_of_the_stored_questions() {
    let mut bank = QuestionBank::new();
    for t in ["a", "b", "c"] {
        add_plain(&mut bank, t);
    }
    for _ in 0..32 {
        let q = bank.get_random().unwrap();
        assert!((1..=3).contains(&q.id));
        assert!(["a", "b", "c"].contains(&q.title.as_str()));
    }
}
