use restful_rust::codec::game_to_json;
use restful_rust::routes::{handle_request, Method, Request};
use restful_rust::schema::{DateTime, Game, Genre};

// Mocked dataset for each test

fn mocked_db() -> Vec<Game> {
    vec![
        Game {
            id: 1,
            title: String::from("Crappy title"),
            rating: 35,
            genre: Genre::RolePlaying,
            description: Some(String::from("Test description...")),
            release_date: DateTime { year: 2011, month: 9, day: 22, hour: 0, minute: 0, second: 0 },
        },
        Game {
            id: 2,
            title: String::from("Decent game"),
            rating: 84,
            genre: Genre::Strategy,
            description: None,
            release_date: DateTime { year: 2014, month: 3, day: 11, hour: 0, minute: 0, second: 0 },
        },
    ]
}

fn mocked_game() -> Game {
    Game {
        id: 3,
        title: String::from("Another game"),
        rating: 65,
        description: None,
        genre: Genre::Strategy,
        release_date: DateTime { year: 2016, month: 3, day: 11, hour: 0, minute: 0, second: 0 },
    }
}

fn request(method: Method, path: &str, query: &str) -> Request {
    Request {
        method,
        path: String::from(path),
        query: String::from(query),
        content_length: None,
        body: String::new(),
    }
}

fn request_with_body(method: Method, path: &str, body: String) -> Request {
    Request {
        method,
        path: String::from(path),
        query: String::new(),
        content_length: Some(body.len() as u64),
        body,
    }
}

#[test]
fn get_list_of_games_200() {
    let mut db = mocked_db();

    let res = handle_request(&mut db, &request(Method::Get, "/games", ""));

    assert_eq!(res.status.code(), 200);

    let expected_json_body = r#"[{"id":1,"title":"Crappy title","rating":35,"genre":"ROLE_PLAYING","description":"Test description...","releaseDate":"2011-09-22T00:00:00"},{"id":2,"title":"Decent game","rating":84,"genre":"STRATEGY","description":null,"releaseDate":"2014-03-11T00:00:00"}]"#;
    assert_eq!(res.body, expected_json_body);
}

#[test]
fn get_list_of_games_with_options_200() {
    let mut db = mocked_db();

    let res = handle_request(&mut db, &request(Method::Get, "/games", "offset=1&limit=5"));

    assert_eq!(res.status.code(), 200);

    let expected_json_body = r#"[{"id":2,"title":"Decent game","rating":84,"genre":"STRATEGY","description":null,"releaseDate":"2014-03-11T00:00:00"}]"#;
    assert_eq!(res.body, expected_json_body);
}

#[test]
fn get_empty_list_with_offset_overshot_200() {
    let mut db = mocked_db();

    let res = handle_request(&mut db, &request(Method::Get, "/games", "offset=5&limit=5"));

    assert_eq!(res.status.code(), 200);

    let expected_json_body = r#"[]"#;
    assert_eq!(res.body, expected_json_body);
}

#[test]
fn get_incorrect_options_400() {
    let mut db = mocked_db();

    let res = handle_request(&mut db, &request(Method::Get, "/games", "offset=a&limit=b"));

    assert_eq!(res.status.code(), 400);
}

#[test]
fn get_wrong_path_405() {
    let mut db = mocked_db();

    let res = handle_request(&mut db, &request(Method::Get, "/games/42", ""));

    assert_eq!(res.status.code(), 405);
}

#[test]
fn post_json_201() {
    let mut db = mocked_db();

    let body = game_to_json(&mocked_game()).unwrap();
    let res = handle_request(&mut db, &request_with_body(Method::Post, "/games", body));

    assert_eq!(res.status.code(), 201);
    assert_eq!(db.len(), 3);
}

#[test]
fn post_too_long_content_413() {
    let mut db = mocked_db();

    let req = Request {
        method: Method::Post,
        path: String::from("/games"),
        query: String::new(),
        content_length: Some(1024 * 36),
        body: String::new(),
    };
    let res = handle_request(&mut db, &req);

    assert_eq!(res.status.code(), 413);
}

#[test]
fn post_wrong_payload_400() {
    let mut db = mocked_db();

    let res = handle_request(
        &mut db,
        &request_with_body(Method::Post, "/games", String::from(r#"{"id":4}"#)),
    );

    assert_eq!(res.status.code(), 400);
}

#[test]
fn post_wrong_path_405() {
    let mut db = mocked_db();

    let body = game_to_json(&mocked_game()).unwrap();
    let res = handle_request(&mut db, &request_with_body(Method::Post, "/games/42", body));

    assert_eq!(res.status.code(), 405);
}

#[test]
fn put_json_200() {
    let mut db = mocked_db();

    let body = game_to_json(&mocked_game()).unwrap();
    let res = handle_request(&mut db, &request_with_body(Method::Put, "/games/2", body));

    assert_eq!(res.status.code(), 200);

    let title = &db[1].title;
    assert_eq!(title, "Another game");
}

#[test]
fn put_wrong_id_404() {
    let mut db = mocked_db();

    let body = game_to_json(&mocked_game()).unwrap();
    let res = handle_request(&mut db, &request_with_body(Method::Put, "/games/42", body));

    assert_eq!(res.status.code(), 404);
}

#[test]
fn put_wrong_payload_400() {
    let mut db = mocked_db();

    let req = Request {
        method: Method::Put,
        path: String::from("/games/2"),
        query: String::new(),
        content_length: Some(1024 * 16),
        body: String::from(r#"{"id":2"#),
    };
    let res = handle_request(&mut db, &req);

    assert_eq!(res.status.code(), 400);
}

#[test]
fn put_too_long_content_413() {
    let mut db = mocked_db();

    let req = Request {
        method: Method::Put,
        path: String::from("/games/2"),
        query: String::new(),
        content_length: Some(1024 * 36),
        body: String::new(),
    };
    let res = handle_request(&mut db, &req);

    assert_eq!(res.status.code(), 413);
}

#[test]
fn delete_wrong_id_404() {
    let mut db = mocked_db();

    let res = handle_request(&mut db, &request(Method::Delete, "/games/42", ""));

    assert_eq!(res.status.code(), 404);
}

#[test]
fn delete_game_204() {
    let mut db = mocked_db();

    let res = handle_request(&mut db, &request(Method::Delete, "/games/1", ""));

    assert_eq!(res.status.code(), 204);
    assert_eq!(db.len(), 1);
}

#[test]
fn put_out_of_range_rating_400() {
    let mut db = mocked_db();

    let body = String::from(
        r#"{"id":2,"title":"Decent game","rating":120,"genre":"STRATEGY","description":null,"releaseDate":"2014-03-11T00:00:00"}"#,
    );
    let res = handle_request(&mut db, &request_with_body(Method::Put, "/games/2", body));

    assert_eq!(res.status.code(), 400);
    assert_eq!(db[1].rating, 84);
}

#[test]
fn post_duplicate_id_400() {
    let mut db = mocked_db();

    let mut duplicate = mocked_game();
    duplicate.id = 2;
    let body = game_to_json(&duplicate).unwrap();
    let res = handle_request(&mut db, &request_with_body(Method::Post, "/games", body));

    assert_eq!(res.status.code(), 400);
    assert_eq!(db.len(), 2);
}

#[test]
fn unknown_path_404() {
    let mut db = mocked_db();

    let res = handle_request(&mut db, &request(Method::Get, "/tournaments", ""));
    assert_eq!(res.status.code(), 404);

    let res = handle_request(&mut db, &request(Method::Get, "/games/abc", ""));
    assert_eq!(res.status.code(), 404);

    let res = handle_request(&mut db, &request(Method::Get, "/games/", ""));
    assert_eq!(res.status.code(), 404);
}

#[test]
fn unknown_method_405() {
    let mut db = mocked_db();

    let res = handle_request(&mut db, &request(Method::Other, "/games", ""));
    assert_eq!(res.status.code(), 405);

    let res = handle_request(&mut db, &request(Method::Other, "/games/1", ""));
    assert_eq!(res.status.code(), 405);
    assert_eq!(db.len(), 2);
}

#[test]
fn path_id_parses_like_a_number_segment() {
    let mut db = mocked_db();

    // a signed, zero-padded segment still names record 1
    let res = handle_request(&mut db, &request(Method::Delete, "/games/+01", ""));
    assert_eq!(res.status.code(), 204);
    assert_eq!(db.len(), 1);
}

#[test]
fn create_then_list_shows_the_new_record_last() {
    let mut db = mocked_db();

    let body = game_to_json(&mocked_game()).unwrap();
    let created = handle_request(&mut db, &request_with_body(Method::Post, "/games", body));
    assert_eq!(created.status.code(), 201);

    let listed = handle_request(&mut db, &request(Method::Get, "/games", ""));
    assert_eq!(listed.status.code(), 200);
    let expected_tail = r#"{"id":3,"title":"Another game","rating":65,"genre":"STRATEGY","description":null,"releaseDate":"2016-03-11T00:00:00"}]"#;
    assert!(listed.body.ends_with(expected_tail));
    assert_eq!(listed.body.matches("\"id\":3").count(), 1);
}
