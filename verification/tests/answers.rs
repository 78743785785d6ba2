use questionbank::Answer;
use questionbank::Question;
use questionbank::QuestionBank;
use questionbank::QuestionBankErr;

fn bank_with_one_question() -> (QuestionBank, i32) {
    let mut bank = QuestionBank::new();
    let id = bank.add(Question::new(0, "t", "c", &[])).unwrap();
    (bank, id)
}

#[test]
fn add_answer_then_get_answer_round_trips() {
    let (mut bank, id) = bank_with_one_question();
    bank.add_answer(Answer::new(None, "forty-two", Some(id))).unwrap();
    let got = bank.get_answer(id).unwrap();
    assert_eq!(got.answer, "forty-two");
    assert_eq!(got.question_id, Some(id));
    assert_eq!(got.id, Some(1));
}

#[test]
fn get_answer_without_one_stored_fails_with_not_found() {
    let (bank, id) = bank_with_one_question();
    assert_eq!(bank.get_answer(id).unwrap_err(), QuestionBankErr::NotFound(id));
}

#[test]
fn add_answer_without_question_id_fails_with_unprocessable() {
    let (mut bank, _) = bank_with_one_question();
    assert_eq!(bank.add_answer(Answer::new(None, "a", None)).unwrap_err(), QuestionBankErr::Unprocessable);
}

#[test]
fn add_answer_to_absent_question_fails_with_not_found() {
    let (mut bank, _) = bank_with_one_question();
    assert_eq!(bank.add_answer(Answer::new(None, "a", Some(9))).unwrap_err(), QuestionBankErr::NotFound(9));
}

#[test]
fn a_question_can_accumulate_answers_and_get_serves_the_first() {
    let (mut bank, id) = bank_with_one_question();
    bank.add_answer(Answer::new(None, "first", Some(id))).unwrap();
    bank.add_answer(Answer::new(None, "second", Some(id))).unwrap();
    assert_eq!(bank.get_answer(id).unwrap().answer, "first");
}

#[test]
fn update_answer_overwrites_the_stored_text() {
    let (mut bank, id) = bank_with_one_question();
    bank.add_answer(Answer::new(None, "old", Some(id))).unwrap();
    let updated = bank.update_answer(id, Answer::new(None, "new", None)).unwrap();
    assert_eq!(updated.answer, "new");
    assert_eq!(updated.question_id, Some(id));
    assert_eq!(bank.get_answer(id).unwrap().answer, "new");
}

#[test]
fn update_answer_without_one_stored_fails_with_not_found() {
    let (mut bank, id) = bank_with_one_question();
    assert_eq!(
        bank.update_answer(id, Answer::new(None, "new", None)).unwrap_err(), QuestionBankErr::NotFound(id));
}

#[test]
fn delete_answer_removes_it_and_leaves_the_question() {
    let (mut bank, id) = bank_with_one_question();
    bank.add_answer(Answer::new(None, "a", Some(id))).unwrap();
    bank.delete_answer(id).unwrap();
    assert_eq!(bank.get_answer(id).unwrap_err(), QuestionBankErr::NotFound(id));
    assert!(bank.get(id).is_ok());
}

#[test]
fn delete_answer_where_none_is_stored_is_not_an_error() {
    let (mut bank, id) = bank_with_one_question();
    assert!(bank.delete_answer(id).is_ok());
}

#[test]
fn answer_new_never_keeps_an_id() {
    let a = Answer::new(Some(5), "text", Some(2));
    assert_eq!(a.id, None);
    assert_eq!(a.answer, "text");
    assert_eq!(a.question_id, Some(2));
}
