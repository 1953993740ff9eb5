//! Handlers: the four CRUD operations on the store, each a total
//! function from the store and its typed inputs to the new store and a
//! status code.

use vstd::prelude::*;

use crate::schema::{Game, GameView, ListOptions};

verus! {

/// HTTP status of a reply.
#[derive(Clone, Copy, Debug, PartialEq, Eq, Structural)]
pub enum Status {
    Okay,
    Created,
    NoContent,
    BadRequest,
    NotFound,
    MethodNotAllowed,
    PayloadTooLarge,
    InternalServerError,
}

impl Status {
    pub open spec fn spec_code(self) -> u16 {
        match self {
            Status::Okay => 200,
            Status::Created => 201,
            Status::NoContent => 204,
            Status::BadRequest => 400,
            Status::NotFound => 404,
            Status::MethodNotAllowed => 405,
            Status::PayloadTooLarge => 413,
            Status::InternalServerError => 500,
        }
    }

    pub fn code(&self) -> (c: u16)
        ensures
            c == self.spec_code(),
    {
        match self {
            Status::Okay => 200,
            Status::Created => 201,
            Status::NoContent => 204,
            Status::BadRequest => 400,
            Status::NotFound => 404,
            Status::MethodNotAllowed => 405,
            Status::PayloadTooLarge => 413,
            Status::InternalServerError => 500,
        }
    }
}

/// Whether some record in the store carries the given id.
pub open spec fn contains_id(games: Seq<GameView>, id: u64) -> bool {
    exists|i: int| 0 <= i < games.len() && games[i].id == id
}

/// No two records in the store share an id.
pub open spec fn unique_ids(games: Seq<GameView>) -> bool {
    forall|i: int, j: int| 0 <= i < j < games.len() ==> games[i].id != games[j].id
}

/// The slice of the store that a listing returns: skip `offset` records
/// (default none), then take up to `limit` records (default all), both
/// clipped to the store's bounds.
pub open spec fn list_slice(games: Seq<GameView>, options: ListOptions) -> Seq<GameView> {
    let len = games.len() as int;
    let offset = match options.offset {
        Some(o) => o as int,
        None => 0,
    };
    let limit = match options.limit {
        Some(l) => l as int,
        None => len,
    };
    let start = if offset <= len {
        offset
    } else {
        len
    };
    let end = if start + limit <= len {
        start + limit
    } else {
        len
    };
    games.subrange(start, end)
}

/// Index of the first record carrying the given id; meaningful only
/// when some record does.
pub open spec fn first_index_with_id(games: Seq<GameView>, id: u64) -> int
    decreases games.len(),
{
    if games.len() == 0 {
        0
    } else if games[0].id == id {
        0
    } else {
        1 + first_index_with_id(games.drop_first(), id)
    }
}

/// When the id is present, its first index is in bounds, carries the
/// id, and nothing before it does.
pub proof fn lemma_first_index_with_id(games: Seq<GameView>, id: u64)
    requires
        contains_id(games, id),
    ensures
        0 <= first_index_with_id(games, id) < games.len(),
        games[first_index_with_id(games, id)].id == id,
        forall|j: int| 0 <= j < first_index_with_id(games, id) ==> games[j].id != id,
    decreases games.len(),
{
    if games.len() > 0 && games[0].id != id {
        let rest = games.drop_first();
        assert(contains_id(rest, id)) by {
            let w = choose|i: int| 0 <= i < games.len() && games[i].id == id;
            assert(rest[w - 1] == games[w]);
        }
        lemma_first_index_with_id(rest, id);
        let fi = first_index_with_id(games, id);
        assert(games[fi] == rest[fi - 1]);
        assert forall|j: int| 0 <= j < fi implies games[j].id != id by {
            if j > 0 {
                assert(games[j] == rest[j - 1]);
            }
        }
    }
}

/// Law: an offset at or past the end of the store yields an empty
/// listing, whatever the limit.
pub proof fn lemma_list_offset_overshoot(games: Seq<GameView>, options: ListOptions)
    requires
        options.offset is Some,
        options.offset->Some_0 >= games.len(),
    ensures
        list_slice(games, options) == Seq::<GameView>::empty(),
{
    assert(list_slice(games, options) =~= Seq::<GameView>::empty());
}

/// The store after all records with the given id are removed.
pub open spec fn remove_id(games: Seq<GameView>, id: u64) -> Seq<GameView> {
    games.filter(|g: GameView| g.id != id)
}

/// Index of the first record with the given id, if any, with everything
/// before it known to carry another id.
fn find_index(games: &Vec<Game>, id: u64) -> (r: Option<usize>)
    ensures
        match r {
            Some(i) => {
                &&& i < games.deep_view().len()
                &&& games.deep_view()[i as int].id == id
                &&& forall|j: int| 0 <= j < i ==> games.deep_view()[j].id != id
            },
            None => !contains_id(games.deep_view(), id),
        },
{
    let mut i: usize = 0;
    while i < games.len()
        invariant
            i <= games.len(),
            forall|j: int| 0 <= j < i ==> games.deep_view()[j].id != id,
        decreases games.len() - i,
    {
        if games[i].id == id {
            return Some(i);
        }
        i += 1;
    }
    None
}

/// `GET /games`: the records of the requested slice, in store order.
pub fn list_games(games: &Vec<Game>, options: &ListOptions) -> (r: Vec<Game>)
    ensures
        r.deep_view() == list_slice(games.deep_view(), *options),
{
    let len = games.len();
    let offset = match options.offset {
        Some(o) => o,
        None => 0,
    };
    let limit = match options.limit {
        Some(l) => l,
        None => usize::MAX,
    };
    let start = if offset <= len {
        offset
    } else {
        len
    };
    let mut out: Vec<Game> = Vec::new();
    let mut i: usize = start;
    while i < len && out.len() < limit
        invariant
            start <= i <= len,
            len == games.deep_view().len(),
            out.len() == i - start,
            out.len() <= limit,
            out.deep_view() =~= games.deep_view().subrange(start as int, i as int),
        decreases len - i,
    {
        out.push(games[i].clone());
        proof {
            assert(out.deep_view() =~= games.deep_view().subrange(start as int, i + 1 as int));
        }
        i += 1;
    }
    proof {
        assert(out.deep_view() =~= list_slice(games.deep_view(), *options));
    }
    out
}

/// `POST /games`: append the new record, unless its id is taken.
pub fn create_game(games: &mut Vec<Game>, new_game: Game) -> (status: Status)
    ensures
        contains_id(old(games).deep_view(), new_game.id) ==> {
            &&& *final(games) == *old(games)
            &&& status == Status::BadRequest
        },
        !contains_id(old(games).deep_view(), new_game.id) ==> {
            &&& final(games).deep_view() == old(games).deep_view().push(new_game@)
            &&& status == Status::Created
        },
{
    match find_index(games, new_game.id) {
        Some(_) => Status::BadRequest,
        None => {
            let ghost before = games.deep_view();
            let ghost new_view = new_game@;
            games.push(new_game);
            proof {
                assert(games.deep_view() =~= before.push(new_view));
            }
            Status::Created
        },
    }
}

/// `PUT /games/{id}`: replace every field of the first record whose id
/// matches the path id; the body's own id is kept as given.
pub fn update_game(games: &mut Vec<Game>, id: u64, updated_game: Game) -> (status: Status)
    ensures
        !contains_id(old(games).deep_view(), id) ==> {
            &&& *final(games) == *old(games)
            &&& status == Status::NotFound
        },
        contains_id(old(games).deep_view(), id) ==> {
            &&& status == Status::Okay
            &&& final(games).deep_view() == old(games).deep_view().update(
                first_index_with_id(old(games).deep_view(), id),
                updated_game@,
            )
        },
{
    match find_index(games, id) {
        Some(i) => {
            let ghost before = games.deep_view();
            let ghost new_view = updated_game@;
            proof {
                lemma_first_index_with_id(before, id);
                let fi = first_index_with_id(before, id);
                assert(i as int == fi) by {
                    if (i as int) < fi {
                        assert(before[i as int].id != id);
                    }
                    if fi < i as int {
                        assert(before[fi].id != id);
                    }
                }
            }
            games[i] = updated_game;
            proof {
                assert(games.deep_view() =~= before.update(
                    first_index_with_id(before, id),
                    new_view,
                ));
            }
            Status::Okay
        },
        None => Status::NotFound,
    }
}

/// `DELETE /games/{id}`: remove every record with the id; report
/// whether any was there to remove.
pub fn delete_game(games: &mut Vec<Game>, id: u64) -> (status: Status)
    ensures
        final(games).deep_view() == remove_id(old(games).deep_view(), id),
        status == if contains_id(old(games).deep_view(), id) {
            Status::NoContent
        } else {
            Status::NotFound
        },
{
    let ghost all = games.deep_view();
    let mut kept: Vec<Game> = Vec::new();
    let mut found = false;
    let mut i: usize = 0;
    proof {
        assert(all.take(0) =~= Seq::<GameView>::empty());
        assert(kept.deep_view() =~= Seq::<GameView>::empty());
        assert(Seq::<GameView>::empty().filter(|g: GameView| g.id != id)
            =~= Seq::<GameView>::empty()) by {
            reveal(Seq::filter);
        }
    }
    while i < games.len()
        invariant
            i <= games.len(),
            all == games.deep_view(),
            kept.deep_view() == remove_id(all.take(i as int), id),
            found == exists|j: int| 0 <= j < i && all[j].id == id,
        decreases games.len() - i,
    {
        proof {
            assert(all.take(i + 1 as int) =~= all.take(i as int).push(all[i as int]));
            lemma_filter_push(all.take(i as int), |g: GameView| g.id != id, all[i as int]);
        }
        if games[i].id == id {
            found = true;
        } else {
            let ghost kept_before = kept.deep_view();
            kept.push(games[i].clone());
            proof {
                assert(kept.deep_view() =~= kept_before.push(all[i as int]));
            }
        }
        i += 1;
    }
    proof {
        assert(all.take(games.deep_view().len() as int) =~= all);
    }
    *games = kept;
    if found {
        Status::NoContent
    } else {
        Status::NotFound
    }
}

proof fn lemma_filter_push(s: Seq<GameView>, pred: spec_fn(GameView) -> bool, x: GameView)
    ensures
        s.push(x).filter(pred) == if pred(x) {
            s.filter(pred).push(x)
        } else {
            s.filter(pred)
        },
{
    reveal(Seq::filter);
    assert(s.push(x).drop_last() =~= s);
    assert(s.push(x).last() == x);
}

/// Law: creating a record on a store that lacks its id and then listing
/// with no pagination shows the whole store, with the new record at the
/// end and its id nowhere else.
pub proof fn lemma_create_then_list(games: Seq<GameView>, new_game: GameView)
    requires
        !contains_id(games, new_game.id),
    ensures
        ({
            let listed = list_slice(games.push(new_game), ListOptions { offset: None, limit: None });
            &&& listed == games.push(new_game)
            &&& listed.len() == games.len() + 1
            &&& listed[listed.len() - 1] == new_game
            &&& forall|i: int| 0 <= i < listed.len() - 1 ==> listed[i].id != new_game.id
        }),
{
    let after = games.push(new_game);
    let listed = list_slice(after, ListOptions { offset: None, limit: None });
    assert(listed =~= after);
}

/// Law: the store's invariant that ids are unique is kept by a create
/// that checked for the id first, as the create handler does.
pub proof fn lemma_create_preserves_unique_ids(games: Seq<GameView>, new_game: GameView)
    requires
        unique_ids(games),
        !contains_id(games, new_game.id),
    ensures
        unique_ids(games.push(new_game)),
{
    let after = games.push(new_game);
    assert forall|i: int, j: int| 0 <= i < j < after.len() implies after[i].id != after[j].id by {
        if j == after.len() - 1 {
            assert(after[i] == games[i]);
        } else {
            assert(after[i] == games[i] && after[j] == games[j]);
        }
    }
}

/// Law: on a store with unique ids, deleting an id that is present
/// removes exactly one record, and deleting an absent id removes none.
pub proof fn lemma_delete_exact(games: Seq<GameView>, id: u64)
    requires
        unique_ids(games),
    ensures
        contains_id(games, id) ==> remove_id(games, id).len() == games.len() - 1,
        !contains_id(games, id) ==> remove_id(games, id) == games,
    decreases games.len(),
{
    reveal(Seq::filter);
    if games.len() == 0 {
        assert(remove_id(games, id) =~= games);
    } else {
        let prefix = games.drop_last();
        let last = games.last();
        assert(unique_ids(prefix));
        lemma_delete_exact(prefix, id);
        if last.id == id {
            assert(forall|j: int| 0 <= j < prefix.len() ==> prefix[j] == games[j]);
            assert(!contains_id(prefix, id));
            assert(remove_id(games, id) == remove_id(prefix, id));
        } else {
            assert(remove_id(games, id) == remove_id(prefix, id).push(last));
            if contains_id(games, id) {
                let w = choose|i: int| 0 <= i < games.len() && games[i].id == id;
                assert(games[w] == prefix[w]);
                assert(contains_id(prefix, id));
            } else {
                assert(!contains_id(prefix, id));
                assert(remove_id(games, id) =~= games);
            }
        }
    }
}

} // verus!
