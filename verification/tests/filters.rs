use restful_rust::filters::{json_body, list_options, BodyError, MAX_CONTENT_LENGTH};
use restful_rust::schema::{DateTime, Game, Genre, ListOptions};

#[test]
fn list_options_correct_query() {
    let options = list_options("offset=5&limit=10").unwrap();

    assert_eq!(options, ListOptions { offset: Some(5), limit: Some(10) });
}

#[test]
fn list_options_incorrect_query() {
    let options = list_options("wrongparam1=5&wrongparam2=10").unwrap();

    assert_eq!(options, ListOptions { offset: None, limit: None });
}

#[test]
fn json_body_correct() {
    let body = json_body(Some(1024 * 16), r#"{"id":42,"title":"Test","rating":45,"genre":"ROLE_PLAYING","description":"Short description...","releaseDate":"2019-09-18T00:00:00"}"#).unwrap();

    assert_eq!(
        body,
        Game {
            id: 42,
            title: String::from("Test"),
            rating: 45,
            genre: Genre::RolePlaying,
            description: Some(String::from("Short description...")),
            release_date: DateTime { year: 2019, month: 9, day: 18, hour: 0, minute: 0, second: 0 },
        }
    );
}

#[test]
#[should_panic]
fn json_body_payload_too_large() {
    json_body(Some(1024 * 36), "").unwrap();
}

#[test]
#[should_panic]
fn json_incorrect_body() {
    json_body(Some(1024 * 16), r#"{"id": 1}"#).unwrap();
}

#[test]
fn list_options_empty_query_defaults() {
    let options = list_options("").unwrap();
    assert_eq!(options, ListOptions { offset: None, limit: None });
}

#[test]
fn list_options_rejects_malformed_values() {
    assert_eq!(list_options("offset=a&limit=b"), None);
    assert_eq!(list_options("offset="), None);
    assert_eq!(list_options("offset"), None);
    assert_eq!(list_options("limit=99999999999999999999999999"), None);
}

#[test]
fn list_options_rejects_repeated_keys() {
    assert_eq!(list_options("offset=1&offset=2"), None);
    assert_eq!(list_options("limit=1&limit=1"), None);
}

#[test]
fn list_options_accepts_signed_and_padded_values() {
    let options = list_options("offset=+5&limit=007").unwrap();
    assert_eq!(options, ListOptions { offset: Some(5), limit: Some(7) });
}

#[test]
fn json_body_needs_a_declared_length() {
    assert_eq!(
        json_body(None, r#"{"id":1}"#),
        Err(BodyError::MissingLength)
    );
}

#[test]
fn json_body_cap_is_inclusive() {
    let body = r#"{"id":4,"title":"x","rating":1,"genre":"SHOOTER","description":null,"releaseDate":"2000-01-01T00:00:00"}"#;
    assert!(json_body(Some(MAX_CONTENT_LENGTH), body).is_ok());
    assert_eq!(
        json_body(Some(MAX_CONTENT_LENGTH + 1), body),
        Err(BodyError::PayloadTooLarge)
    );
}

#[test]
fn json_body_reports_validation_errors() {
    let bad_rating = r#"{"id":4,"title":"x","rating":101,"genre":"SHOOTER","description":null,"releaseDate":"2000-01-01T00:00:00"}"#;
    assert_eq!(json_body(Some(1024), bad_rating), Err(BodyError::RatingOutOfRange));
    let bad_date = r#"{"id":4,"title":"x","rating":11,"genre":"SHOOTER","description":null,"releaseDate":"2000-04-31T00:00:00"}"#;
    assert_eq!(json_body(Some(1024), bad_date), Err(BodyError::InvalidDate));
    assert_eq!(json_body(Some(1024), "not json"), Err(BodyError::Malformed));
}
