//! Record schema: the `Game` entity, its `Genre` enumeration, the
//! timestamp it carries, pagination options, and the example store.

use vstd::prelude::*;

verus! {

/// A calendar timestamp with second precision, the shape that the wire
/// format `YYYY-MM-DDTHH:MM:SS` carries.
#[derive(Clone, Copy, Debug, PartialEq, Eq, Structural)]
pub struct DateTime {
    pub year: u16,
    pub month: u8,
    pub day: u8,
    pub hour: u8,
    pub minute: u8,
    pub second: u8,
}

pub open spec fn is_leap_year(y: int) -> bool {
    (y % 4 == 0 && y % 100 != 0) || y % 400 == 0
}

pub open spec fn days_in_month(y: int, m: int) -> int {
    if m == 2 {
        if is_leap_year(y) {
            29
        } else {
            28
        }
    } else if m == 4 || m == 6 || m == 9 || m == 11 {
        30
    } else {
        31
    }
}

/// A `DateTime` is valid when it names a real calendar date with a
/// four-digit year and a time of day within bounds.
pub open spec fn valid_date(d: DateTime) -> bool {
    &&& d.year <= 9999
    &&& 1 <= d.month && d.month <= 12
    &&& 1 <= d.day && d.day <= days_in_month(d.year as int, d.month as int)
    &&& d.hour < 24
    &&& d.minute < 60
    &&& d.second < 60
}

impl DateTime {
    pub fn is_valid(&self) -> (r: bool)
        ensures
            r == valid_date(*self),
    {
        let leap: bool = (self.year % 4 == 0 && self.year % 100 != 0) || self.year % 400 == 0;
        let days: u8 = if self.month == 2 {
            if leap {
                29
            } else {
                28
            }
        } else if self.month == 4 || self.month == 6 || self.month == 9 || self.month == 11 {
            30
        } else {
            31
        };
        self.year <= 9999 && self.month >= 1 && self.month <= 12 && self.day >= 1 && self.day
            <= days && self.hour < 24 && self.minute < 60 && self.second < 60
    }
}

/// The closed set of game genres; on the wire they appear as
/// upper-snake-case tokens.
#[derive(Clone, Copy, Debug, PartialEq, Eq, Structural)]
pub enum Genre {
    RolePlaying,
    Strategy,
    Shooter,
}

/// A single game record. `id` is the caller-supplied unique key.
#[derive(Debug, PartialEq)]
pub struct Game {
    pub id: u64,
    pub title: String,
    pub rating: u8,
    pub genre: Genre,
    pub description: Option<String>,
    pub release_date: DateTime,
}

/// The mathematical value of a `Game`: text fields become character
/// sequences, everything else is carried as it stands.
#[verifier::ext_equal]
pub ghost struct GameView {
    pub id: u64,
    pub title: Seq<char>,
    pub rating: u8,
    pub genre: Genre,
    pub description: Option<Seq<char>>,
    pub release_date: DateTime,
}

impl View for Game {
    type V = GameView;

    open spec fn view(&self) -> GameView {
        GameView {
            id: self.id,
            title: self.title@,
            rating: self.rating,
            genre: self.genre,
            description: self.description.deep_view(),
            release_date: self.release_date,
        }
    }
}

impl DeepView for Game {
    type V = GameView;

    open spec fn deep_view(&self) -> GameView {
        self.view()
    }
}

impl Clone for Game {
    fn clone(&self) -> (res: Self)
        ensures
            res@ == self@,
    {
        let description: Option<String> = match &self.description {
            Some(text) => Some(text.clone()),
            None => None,
        };
        let res = Game {
            id: self.id,
            title: self.title.clone(),
            rating: self.rating,
            genre: self.genre,
            description,
            release_date: self.release_date,
        };
        proof {
            assert(res@ =~= self@);
        }
        res
    }
}

/// Pagination options parsed from the query string; a missing field
/// means "no offset" or "no limit".
#[derive(Clone, Copy, Debug, PartialEq, Eq)]
pub struct ListOptions {
    pub offset: Option<usize>,
    pub limit: Option<usize>,
}

/// The store: an ordered sequence of games, insertion order being the
/// order responses list them.
pub type Db = Vec<Game>;

pub open spec fn example_games() -> Seq<GameView> {
    seq![
        GameView {
            id: 1,
            title: "Dark Souls"@,
            rating: 91,
            genre: Genre::RolePlaying,
            description: Some(
                "Takes place in the fictional kingdom of Lordran, where players assume the role of a cursed undead character who begins a pilgrimage to discover the fate of their kind."@,
            ),
            release_date: DateTime { year: 2011, month: 9, day: 22, hour: 0, minute: 0, second: 0 },
        },
        GameView {
            id: 2,
            title: "Dark Souls 2"@,
            rating: 87,
            genre: Genre::RolePlaying,
            description: None,
            release_date: DateTime { year: 2014, month: 3, day: 11, hour: 0, minute: 0, second: 0 },
        },
        GameView {
            id: 3,
            title: "Dark Souls 3"@,
            rating: 89,
            genre: Genre::RolePlaying,
            description: Some(
                "The latest chapter in the series with its trademark sword and sorcery combat and rewarding action RPG gameplay."@,
            ),
            release_date: DateTime { year: 2016, month: 3, day: 24, hour: 0, minute: 0, second: 0 },
        },
    ]
}

/// Mocked data that the process starts with, in place of a database.
pub fn example_db() -> (db: Vec<Game>)
    ensures
        db.deep_view() == example_games(),
{
    let mut db: Vec<Game> = Vec::new();
    db.push(Game {
        id: 1,
        title: "Dark Souls".to_owned(),
        rating: 91,
        genre: Genre::RolePlaying,
        description: Some(
            "Takes place in the fictional kingdom of Lordran, where players assume the role of a cursed undead character who begins a pilgrimage to discover the fate of their kind.".to_owned(),
        ),
        release_date: DateTime { year: 2011, month: 9, day: 22, hour: 0, minute: 0, second: 0 },
    });
    db.push(Game {
        id: 2,
        title: "Dark Souls 2".to_owned(),
        rating: 87,
        genre: Genre::RolePlaying,
        description: None,
        release_date: DateTime { year: 2014, month: 3, day: 11, hour: 0, minute: 0, second: 0 },
    });
    db.push(Game {
        id: 3,
        title: "Dark Souls 3".to_owned(),
        rating: 89,
        genre: Genre::RolePlaying,
        description: Some(
            "The latest chapter in the series with its trademark sword and sorcery combat and rewarding action RPG gameplay.".to_owned(),
        ),
        release_date: DateTime { year: 2016, month: 3, day: 24, hour: 0, minute: 0, second: 0 },
    });
    proof {
        assert(db.deep_view() =~= example_games());
    }
    db
}

} // verus!
