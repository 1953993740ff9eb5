use restful_rust::codec::{game_from_json, game_to_json, genre_from_json, genre_to_json, DecodeError};
use restful_rust::schema::{example_db, DateTime, Game, Genre};
use restful_rust::validators::{validate_game, validate_rating, ValidateError};

fn date(year: u16, month: u8, day: u8) -> DateTime {
    DateTime { year, month, day, hour: 0, minute: 0, second: 0 }
}

#[test]
fn game_serialize_correctly() {
    let game = Game {
        id: 1,
        title: String::from("Test"),
        rating: 90,
        genre: Genre::Shooter,
        description: None,
        release_date: date(2019, 11, 12),
    };

    let encoded = game_to_json(&game).unwrap();
    assert_eq!(
        encoded,
        r#"{"id":1,"title":"Test","rating":90,"genre":"SHOOTER","description":null,"releaseDate":"2019-11-12T00:00:00"}"#
    );
}

#[test]
fn game_deserialize_correctly() {
    let data = r#"{"id":3,"title":"Another game","rating":65,"genre":"STRATEGY","description":null,"releaseDate":"2016-03-11T00:00:00"}"#;
    let game: Game = game_from_json(data).unwrap();
    let expected_game = Game {
        id: 3,
        title: String::from("Another game"),
        rating: 65,
        genre: Genre::Strategy,
        description: None,
        release_date: date(2016, 3, 11),
    };

    assert_eq!(game, expected_game);
}

#[test]
fn game_error_when_wrong_rating_passed() {
    let data = r#"{"id":3,"title":"Another game","rating":120,"genre":"STRATEGY","description":null,"releaseDate":"2016-03-11T00:00:00"}"#;
    let err = game_from_json(data).unwrap_err();

    assert_eq!(err, DecodeError::RatingOutOfRange);
}

#[test]
fn genre_serialize_correctly() {
    assert_eq!(genre_to_json(&Genre::Shooter), r#""SHOOTER""#);
    assert_eq!(genre_to_json(&Genre::RolePlaying), r#""ROLE_PLAYING""#);
    assert_eq!(genre_to_json(&Genre::Strategy), r#""STRATEGY""#);
}

#[test]
fn genre_deserialize_correctly() {
    let genre = genre_from_json(r#""SHOOTER""#).unwrap();
    assert_eq!(genre, Genre::Shooter);

    let genre = genre_from_json(r#""ROLE_PLAYING""#).unwrap();
    assert_eq!(genre, Genre::RolePlaying);
}

#[test]
fn genre_error_when_wrong_rating_passed() {
    let err = genre_from_json(r#""SPORT""#).unwrap_err();

    assert_eq!(err, DecodeError::Malformed);
}

#[test]
fn example_db_holds_three_records() {
    let db = example_db();
    assert_eq!(db.len(), 3);
    assert_eq!(db[0].id, 1);
    assert_eq!(db[0].title, "Dark Souls");
    assert_eq!(db[1].id, 2);
    assert_eq!(db[2].id, 3);
    assert_eq!(db[2].rating, 89);
}

#[test]
fn rating_validator_bounds() {
    assert!(validate_rating(0));
    assert!(validate_rating(100));
    assert!(!validate_rating(101));
    assert!(!validate_rating(255));
}

#[test]
fn validate_game_reports_first_failure() {
    let mut game = Game {
        id: 9,
        title: String::from("Edge"),
        rating: 101,
        genre: Genre::Strategy,
        description: None,
        release_date: date(2019, 2, 29),
    };
    assert_eq!(validate_game(&game), Err(ValidateError::RatingOutOfRange));
    game.rating = 100;
    assert_eq!(validate_game(&game), Err(ValidateError::InvalidDate));
    game.release_date = date(2020, 2, 29);
    assert_eq!(validate_game(&game), Ok(()));
}

#[test]
fn date_validity_follows_the_calendar() {
    assert!(date(2020, 2, 29).is_valid());
    assert!(!date(2019, 2, 29).is_valid());
    assert!(date(2000, 2, 29).is_valid());
    assert!(!date(1900, 2, 29).is_valid());
    assert!(date(2021, 4, 30).is_valid());
    assert!(!date(2021, 4, 31).is_valid());
    assert!(!date(2021, 13, 1).is_valid());
    assert!(!date(2021, 0, 1).is_valid());
    assert!(!date(2021, 1, 0).is_valid());
    let mut d = date(2021, 6, 15);
    d.hour = 24;
    assert!(!d.is_valid());
}

#[test]
fn round_trip_preserves_a_valid_game() {
    let game = Game {
        id: 77,
        title: String::from("A \"quoted\" name \\ with\nescapes\tand control \u{1}"),
        rating: 55,
        genre: Genre::RolePlaying,
        description: Some(String::from("multi-line\r\ndescription")),
        release_date: DateTime { year: 1999, month: 12, day: 31, hour: 23, minute: 59, second: 59 },
    };
    let encoded = game_to_json(&game).unwrap();
    let decoded = game_from_json(&encoded).unwrap();
    assert_eq!(decoded, game);
}

#[test]
fn out_of_range_rating_fails_encode_and_decode() {
    let game = Game {
        id: 5,
        title: String::from("Too good"),
        rating: 120,
        genre: Genre::Shooter,
        description: None,
        release_date: date(2018, 1, 1),
    };
    assert_eq!(game_to_json(&game), Err(ValidateError::RatingOutOfRange));
    let data = r#"{"id":5,"title":"Too good","rating":120,"genre":"SHOOTER","description":null,"releaseDate":"2018-01-01T00:00:00"}"#;
    assert_eq!(game_from_json(data), Err(DecodeError::RatingOutOfRange));
}

#[test]
fn decode_accepts_any_member_order_and_whitespace() {
    let data = " { \"releaseDate\" : \"2016-03-11T00:00:00\" , \"genre\" : \"STRATEGY\" , \"rating\" : 65 , \"description\" : \"fine\" , \"title\" : \"Another game\" , \"id\" : 3 } ";
    let game = game_from_json(data).unwrap();
    assert_eq!(game.id, 3);
    assert_eq!(game.title, "Another game");
    assert_eq!(game.description, Some(String::from("fine")));
}

#[test]
fn decode_unescapes_unicode_escapes() {
    let data = r#"{"id":1,"title":"\u0041\u00e9\u4E2d raw é\t\"x\"","rating":1,"genre":"SHOOTER","description":null,"releaseDate":"2000-01-01T00:00:00"}"#;
    let game = game_from_json(data).unwrap();
    assert_eq!(game.title, "A\u{e9}\u{4e2d} raw \u{e9}\t\"x\"");
}

#[test]
fn decode_rejects_surrogate_escapes() {
    let data = r#"{"id":1,"title":"\ud800","rating":1,"genre":"SHOOTER","description":null,"releaseDate":"2000-01-01T00:00:00"}"#;
    assert_eq!(game_from_json(data), Err(DecodeError::Malformed));
}

#[test]
fn decode_rejects_bad_shapes() {
    assert_eq!(game_from_json(""), Err(DecodeError::Malformed));
    assert_eq!(game_from_json("{}"), Err(DecodeError::Malformed));
    assert_eq!(game_from_json(r#"{"id":1}"#), Err(DecodeError::Malformed));
    // duplicate member
    assert_eq!(
        game_from_json(
            r#"{"id":1,"id":2,"title":"x","rating":1,"genre":"SHOOTER","description":null,"releaseDate":"2000-01-01T00:00:00"}"#
        ),
        Err(DecodeError::Malformed)
    );
    // unknown member
    assert_eq!(
        game_from_json(
            r#"{"id":1,"title":"x","rating":1,"genre":"SHOOTER","description":null,"releaseDate":"2000-01-01T00:00:00","extra":1}"#
        ),
        Err(DecodeError::Malformed)
    );
    // trailing text
    assert_eq!(
        game_from_json(
            r#"{"id":1,"title":"x","rating":1,"genre":"SHOOTER","description":null,"releaseDate":"2000-01-01T00:00:00"} x"#
        ),
        Err(DecodeError::Malformed)
    );
    // rating above the wire type
    assert_eq!(
        game_from_json(
            r#"{"id":1,"title":"x","rating":300,"genre":"SHOOTER","description":null,"releaseDate":"2000-01-01T00:00:00"}"#
        ),
        Err(DecodeError::Malformed)
    );
    // impossible calendar date
    assert_eq!(
        game_from_json(
            r#"{"id":1,"title":"x","rating":1,"genre":"SHOOTER","description":null,"releaseDate":"2019-02-29T00:00:00"}"#
        ),
        Err(DecodeError::InvalidDate)
    );
    // leading zero in a number
    assert_eq!(
        game_from_json(
            r#"{"id":01,"title":"x","rating":1,"genre":"SHOOTER","description":null,"releaseDate":"2000-01-01T00:00:00"}"#
        ),
        Err(DecodeError::Malformed)
    );
}
