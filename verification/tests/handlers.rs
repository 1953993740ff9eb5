use restful_rust::handlers::{create_game, delete_game, list_games, update_game, Status};
use restful_rust::schema::{DateTime, Game, Genre, ListOptions};

fn sample(id: u64, title: &str, rating: u8) -> Game {
    Game {
        id,
        title: String::from(title),
        rating,
        genre: Genre::Shooter,
        description: None,
        release_date: DateTime { year: 2015, month: 5, day: 5, hour: 0, minute: 0, second: 0 },
    }
}

fn store() -> Vec<Game> {
    vec![sample(1, "one", 10), sample(2, "two", 20), sample(3, "three", 30)]
}

#[test]
fn list_slices_by_offset_and_limit() {
    let games = store();
    let opts = |offset, limit| ListOptions { offset, limit };

    let all = list_games(&games, &opts(None, None));
    assert_eq!(all.len(), 3);
    assert_eq!(all[0].id, 1);
    assert_eq!(all[2].id, 3);

    let sliced = list_games(&games, &opts(Some(1), Some(1)));
    assert_eq!(sliced.len(), 1);
    assert_eq!(sliced[0].id, 2);

    let overshot = list_games(&games, &opts(Some(3), Some(5)));
    assert_eq!(overshot.len(), 0);

    let zero_limit = list_games(&games, &opts(None, Some(0)));
    assert_eq!(zero_limit.len(), 0);

    let empty: Vec<Game> = Vec::new();
    assert_eq!(list_games(&empty, &opts(None, None)).len(), 0);
}

#[test]
fn create_appends_or_rejects_duplicates() {
    let mut games = store();

    let status = create_game(&mut games, sample(4, "four", 40));
    assert_eq!(status, Status::Created);
    assert_eq!(games.len(), 4);
    assert_eq!(games[3].id, 4);

    let status = create_game(&mut games, sample(2, "again", 1));
    assert_eq!(status, Status::BadRequest);
    assert_eq!(games.len(), 4);
    assert_eq!(games[1].title, "two");
}

#[test]
fn update_replaces_every_field_of_the_match() {
    let mut games = store();

    let status = update_game(&mut games, 2, sample(9, "renamed", 99));
    assert_eq!(status, Status::Okay);
    assert_eq!(games.len(), 3);
    assert_eq!(games[1].id, 9);
    assert_eq!(games[1].title, "renamed");
    assert_eq!(games[1].rating, 99);

    let before = games.clone();
    let status = update_game(&mut games, 42, sample(42, "ghost", 1));
    assert_eq!(status, Status::NotFound);
    assert_eq!(games, before);
}

#[test]
fn delete_removes_exactly_the_matching_records() {
    let mut games = store();

    let status = delete_game(&mut games, 2);
    assert_eq!(status, Status::NoContent);
    assert_eq!(games.len(), 2);
    assert_eq!(games[0].id, 1);
    assert_eq!(games[1].id, 3);

    let status = delete_game(&mut games, 2);
    assert_eq!(status, Status::NotFound);
    assert_eq!(games.len(), 2);
}

#[test]
fn delete_is_defensive_about_repeated_ids() {
    let mut games = vec![sample(7, "a", 1), sample(8, "b", 2), sample(7, "c", 3)];

    let status = delete_game(&mut games, 7);
    assert_eq!(status, Status::NoContent);
    assert_eq!(games.len(), 1);
    assert_eq!(games[0].id, 8);
}

#[test]
fn status_codes_match_their_meanings() {
    assert_eq!(Status::Okay.code(), 200);
    assert_eq!(Status::Created.code(), 201);
    assert_eq!(Status::NoContent.code(), 204);
    assert_eq!(Status::BadRequest.code(), 400);
    assert_eq!(Status::NotFound.code(), 404);
    assert_eq!(Status::MethodNotAllowed.code(), 405);
    assert_eq!(Status::PayloadTooLarge.code(), 413);
    assert_eq!(Status::InternalServerError.code(), 500);
}
