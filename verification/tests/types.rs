use questionbank::format_tags;
use questionbank::IndexTemplate;
use questionbank::Pagination;
use questionbank::Question;
use questionbank::QuestionBankErr;
use questionbank::QuestionBankError;

#[test]
fn question_new_keeps_fields_and_drops_empty_tags() {
    let q = Question::new(5, "Title", "Content!", &["history", "math"]);
    assert_eq!(q.id, 5);
    assert_eq!(q.title, "Title");
    assert_eq!(q.content, "Content!");
    assert_eq!(q.tags, Some(vec!["history".to_string(), "math".to_string()]));
    let bare = Question::new(1, "t", "c", &[]);
    assert_eq!(bare.tags, None);
}

#[test]
fn format_tags_joins_names_with_comma_and_space() {
    let tags = vec!["history".to_string(), "math".to_string()];
    assert_eq!(format_tags(&tags), "history, math");
    assert_eq!(format_tags(&vec!["solo".to_string()]), "solo");
    assert_eq!(format_tags(&Vec::new()), "");
    let three = vec!["a".to_string(), "b".to_string(), "c".to_string()];
    assert_eq!(format_tags(&three), "a, b, c");
}

#[test]
fn error_messages_name_each_kind() {
    assert_eq!(QuestionBankErr::NotFound(3).message(), "Question doesn't exist");
    assert_eq!(
        QuestionBankErr::PaginationInvalid.message(),
        "Invalid query parameter values"
    );
    assert_eq!(
        QuestionBankErr::Unprocessable.message(),
        "Question payload unprocessable"
    );
    assert_eq!(QuestionBankErr::NoPayload.message(), "Missing question payload");
    assert_eq!(QuestionBankErr::IoError.message(), "Questionbank io failed");
}

#[test]
fn update_status_maps_each_error_to_its_code() {
    assert_eq!(QuestionBankErr::Unprocessable.update_status(), 422);
    assert_eq!(QuestionBankErr::NoPayload.update_status(), 404);
    assert_eq!(QuestionBankErr::NotFound(1).update_status(), 400);
    assert_eq!(QuestionBankErr::PaginationInvalid.update_status(), 400);
    assert_eq!(QuestionBankErr::IoError.update_status(), 400);
}

#[test]
fn response_carries_status_and_wording() {
    let body = QuestionBankError::response(404, &QuestionBankErr::NotFound(7));
    assert_eq!(body.status, 404);
    assert_eq!(body.error, "Question doesn't exist");
}

#[test]
fn pagination_window_computes_offset_and_count() {
    let p = Pagination { page: 2, limit: 3 };
    assert_eq!(p.window(8).unwrap(), (3, 3));
    assert_eq!(p.window(4).unwrap(), (3, 1));
    assert_eq!(p.window(3).unwrap(), (3, 0));
    assert_eq!(p.window(2).unwrap_err(), QuestionBankErr::PaginationInvalid);
    let first = Pagination { page: 1, limit: 10 };
    assert_eq!(first.window(4).unwrap(), (0, 4));
}

#[test]
fn question_request_url_targets_the_list_or_one_question() {
    assert_eq!(
        questionbank::question_request_url(None),
        "http://localhost:3000/api/v1/questions"
    );
    let key = "7".to_string();
    assert_eq!(
        questionbank::question_request_url(Some(&key)),
        "http://localhost:3000/api/v1/questions/7"
    );
}

#[test]
fn answer_display_shows_the_text_or_a_placeholder() {
    assert_eq!(
        questionbank::answer_display(&Some("Paris".to_string())),
        "Paris."
    );
    assert_eq!(questionbank::answer_display(&None), "No Answer yet.");
}

#[test]
fn index_template_wraps_the_question() {
    let t = IndexTemplate::new(Question::new(1, "t", "c", &[]));
    assert_eq!(t.question.title, "t");
}
