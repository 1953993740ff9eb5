//! Validators: the bounded-range check on `rating` and the record-level
//! validation step applied after decoding and before encoding.

use vstd::prelude::*;

use crate::schema::{valid_date, Game, GameView};

verus! {

/// Why a record fails validation.
#[derive(Clone, Copy, Debug, PartialEq, Eq, Structural)]
pub enum ValidateError {
    RatingOutOfRange,
    InvalidDate,
}

/// The rating bound: a rating is acceptable iff it is at most 100.
pub open spec fn rating_in_range(value: u8) -> bool {
    value <= 100
}

/// The validation verdict on a record: the rating bound is checked
/// first, then the calendar validity of the release date.
pub open spec fn spec_validate(g: GameView) -> Option<ValidateError> {
    if !rating_in_range(g.rating) {
        Some(ValidateError::RatingOutOfRange)
    } else if !valid_date(g.release_date) {
        Some(ValidateError::InvalidDate)
    } else {
        None
    }
}

/// A record is valid when validation has nothing to report.
pub open spec fn valid_game(g: GameView) -> bool {
    spec_validate(g) is None
}

/// Succeeds iff `0 <= value <= 100`.
pub fn validate_rating(value: u8) -> (r: bool)
    ensures
        r == rating_in_range(value),
{
    value <= 100
}

/// The explicit validation step: applied to incoming records after
/// decode and to outgoing records before encode.
pub fn validate_game(g: &Game) -> (r: Result<(), ValidateError>)
    ensures
        match r {
            Ok(_) => spec_validate(g@) is None,
            Err(e) => spec_validate(g@) == Some(e),
        },
{
    if !validate_rating(g.rating) {
        Err(ValidateError::RatingOutOfRange)
    } else if !g.release_date.is_valid() {
        Err(ValidateError::InvalidDate)
    } else {
        Ok(())
    }
}

} // verus!
