//! Router: dispatch by method and path, apply the filters, run the
//! handler on the store, and shape the reply.
//!
//! - `GET /games`: list the store, with optional pagination
//! - `POST /games`: create a new record
//! - `PUT /games/{id}`: update one record
//! - `DELETE /games/{id}`: delete one record

use vstd::prelude::*;

use crate::codec::{games_to_json, spec_games_chars, spec_validate_all, str_to_chars};
use crate::filters::{
    body_error_status, json_body, list_options, parse_u64_region, region_eq_str,
    spec_body_error_status, spec_json_body, spec_parse_query, spec_parse_u64_value,
};
use crate::handlers::{
    contains_id, create_game, delete_game, first_index_with_id, list_games, list_slice, remove_id,
    update_game, Status,
};
use crate::schema::{Game, GameView};

verus! {

/// An HTTP request method; every verb the routes do not use collapses
/// to `Other`.
#[derive(Clone, Copy, Debug, PartialEq, Eq, Structural)]
pub enum Method {
    Get,
    Post,
    Put,
    Delete,
    Other,
}

/// What the router needs of a request: the method, the path, the raw
/// query string, the declared body length, and the body text.
#[derive(Debug)]
pub struct Request {
    pub method: Method,
    pub path: String,
    pub query: String,
    pub content_length: Option<u64>,
    pub body: String,
}

#[verifier::ext_equal]
pub ghost struct RequestView {
    pub method: Method,
    pub path: Seq<char>,
    pub query: Seq<char>,
    pub content_length: Option<u64>,
    pub body: Seq<char>,
}

impl View for Request {
    type V = RequestView;

    open spec fn view(&self) -> RequestView {
        RequestView {
            method: self.method,
            path: self.path@,
            query: self.query@,
            content_length: self.content_length,
            body: self.body@,
        }
    }
}

/// A reply: the status code and the body text, which is empty for
/// everything but a listing.
#[derive(Debug)]
pub struct Response {
    pub status: Status,
    pub body: String,
}

/// Where a path leads.
#[derive(Clone, Copy, Debug, PartialEq, Eq, Structural)]
pub enum Route {
    GamesIndex,
    GamesId(u64),
    Unmatched,
}

/// `/games` is the collection, `/games/<number>` one record; all else
/// falls through to the not-found reply.
pub open spec fn spec_route(path: Seq<char>) -> Route {
    if path == "/games"@ {
        Route::GamesIndex
    } else if path.len() >= 7 && path.subrange(0, 7) == "/games/"@ && spec_parse_u64_value(
        path.subrange(7, path.len() as int),
    ) is Some {
        Route::GamesId(spec_parse_u64_value(path.subrange(7, path.len() as int))->Some_0)
    } else {
        Route::Unmatched
    }
}

fn route_of(path: &str) -> (r: Route)
    ensures
        r == spec_route(path@),
{
    let chars = str_to_chars(path);
    proof {
        assert(chars@.subrange(0, chars@.len() as int) =~= path@);
    }
    if region_eq_str(&chars, 0, chars.len(), "/games") {
        Route::GamesIndex
    } else if chars.len() >= 7 && region_eq_str(&chars, 0, 7, "/games/") {
        match parse_u64_region(&chars, 7, chars.len()) {
            Some(id) => Route::GamesId(id),
            None => Route::Unmatched,
        }
    } else {
        Route::Unmatched
    }
}

/// A reply that carries a status code and nothing else.
pub open spec fn spec_status_body(status: Status) -> (Status, Seq<char>) {
    (status, Seq::<char>::empty())
}

/// The whole service as one step: from the store and a request to the
/// new store, the reply's status and the reply's body.
pub open spec fn spec_handle(store: Seq<GameView>, req: RequestView) -> (
    Seq<GameView>,
    (Status, Seq<char>),
) {
    match spec_route(req.path) {
        Route::GamesIndex => match req.method {
            Method::Get => match spec_parse_query(req.query) {
                Some(options) => {
                    let listed = list_slice(store, options);
                    if spec_validate_all(listed) is None {
                        (store, (Status::Okay, spec_games_chars(listed)))
                    } else {
                        (store, spec_status_body(Status::InternalServerError))
                    }
                },
                None => (store, spec_status_body(Status::BadRequest)),
            },
            Method::Post => match spec_json_body(req.content_length, req.body) {
                Ok(g) => if contains_id(store, g.id) {
                    (store, spec_status_body(Status::BadRequest))
                } else {
                    (store.push(g), spec_status_body(Status::Created))
                },
                Err(e) => (store, spec_status_body(spec_body_error_status(e))),
            },
            _ => (store, spec_status_body(Status::MethodNotAllowed)),
        },
        Route::GamesId(id) => match req.method {
            Method::Put => match spec_json_body(req.content_length, req.body) {
                Ok(g) => if contains_id(store, id) {
                    (
                        store.update(first_index_with_id(store, id), g),
                        spec_status_body(Status::Okay),
                    )
                } else {
                    (store, spec_status_body(Status::NotFound))
                },
                Err(e) => (store, spec_status_body(spec_body_error_status(e))),
            },
            Method::Delete => (
                remove_id(store, id),
                spec_status_body(
                    if contains_id(store, id) {
                        Status::NoContent
                    } else {
                        Status::NotFound
                    },
                ),
            ),
            _ => (store, spec_status_body(Status::MethodNotAllowed)),
        },
        Route::Unmatched => (store, spec_status_body(Status::NotFound)),
    }
}

/// Serve one request against the store: route, filter, handle, reply.
pub fn handle_request(games: &mut Vec<Game>, req: &Request) -> (resp: Response)
    ensures
        ({
            let outcome = spec_handle(old(games).deep_view(), req@);
            &&& final(games).deep_view() == outcome.0
            &&& resp.status == outcome.1.0
            &&& resp.body@ == outcome.1.1
        }),
{
    match route_of(req.path.as_str()) {
        Route::GamesIndex => match req.method {
            Method::Get => match list_options(req.query.as_str()) {
                Some(options) => {
                    let listed = list_games(games, &options);
                    match games_to_json(&listed) {
                        Ok(body) => Response { status: Status::Okay, body },
                        Err(_) => Response {
                            status: Status::InternalServerError,
                            body: String::new(),
                        },
                    }
                },
                None => Response { status: Status::BadRequest, body: String::new() },
            },
            Method::Post => match json_body(req.content_length, req.body.as_str()) {
                Ok(new_game) => {
                    let status = create_game(games, new_game);
                    Response { status, body: String::new() }
                },
                Err(e) => Response { status: body_error_status(&e), body: String::new() },
            },
            _ => Response { status: Status::MethodNotAllowed, body: String::new() },
        },
        Route::GamesId(id) => match req.method {
            Method::Put => match json_body(req.content_length, req.body.as_str()) {
                Ok(updated_game) => {
                    let status = update_game(games, id, updated_game);
                    Response { status, body: String::new() }
                },
                Err(e) => Response { status: body_error_status(&e), body: String::new() },
            },
            Method::Delete => {
                let status = delete_game(games, id);
                Response { status, body: String::new() }
            },
            _ => Response { status: Status::MethodNotAllowed, body: String::new() },
        },
        Route::Unmatched => Response { status: Status::NotFound, body: String::new() },
    }
}

} // verus!
