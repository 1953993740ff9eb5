//! Filters: pagination option parsing from the query string, and the
//! JSON body filter with its declared-length cap.

use vstd::prelude::*;

use crate::codec::{
    digit_val, digit_val_exec, digits_value, game_from_json, is_digit, is_digit_exec, spec_decode_game,
    str_to_chars, DecodeError,
};
use crate::handlers::Status;
use crate::schema::{Game, GameView};

pub use crate::schema::ListOptions;

verus! {

/// The cap on a request body's declared length: 32 KiB.
pub const MAX_CONTENT_LENGTH: u64 = 32 * 1024;

/// Index of the first occurrence of `c` at or after `from`, or the
/// length of `s` if there is none.
pub open spec fn find_char(s: Seq<char>, from: int, c: char) -> int
    decreases s.len() - from,
{
    if 0 <= from < s.len() {
        if s[from] == c {
            from
        } else {
            find_char(s, from + 1, c)
        }
    } else {
        from
    }
}

proof fn lemma_find_char(s: Seq<char>, from: int, c: char)
    requires
        0 <= from <= s.len(),
    ensures
        from <= find_char(s, from, c) <= s.len(),
    decreases s.len() - from,
{
    if from < s.len() && s[from] != c {
        lemma_find_char(s, from + 1, c);
    }
}

fn find_char_from(s: &Vec<char>, from: usize, c: char) -> (r: usize)
    requires
        from <= s@.len(),
    ensures
        r as int == find_char(s@, from as int, c),
        from <= r <= s@.len(),
{
    let mut r = from;
    while r < s.len() && s[r] != c
        invariant
            from <= r <= s@.len(),
            find_char(s@, from as int, c) == find_char(s@, r as int, c),
        decreases s@.len() - r,
    {
        r += 1;
    }
    r
}

pub(crate) fn region_eq_str(s: &Vec<char>, from: usize, to: usize, lit: &str) -> (r: bool)
    requires
        from <= to <= s@.len(),
    ensures
        r == (s@.subrange(from as int, to as int) == lit@),
{
    let lv = str_to_chars(lit);
    let n = to - from;
    if n != lv.len() {
        return false;
    }
    let mut k: usize = 0;
    while k < n
        invariant
            k <= n,
            n == to - from,
            from <= to <= s@.len(),
            lv@ == lit@,
            n == lv@.len(),
            forall|x: int| 0 <= x < k ==> s@.subrange(from as int, to as int)[x] == lit@[x],
        decreases n - k,
    {
        proof {
            assert(s@.subrange(from as int, to as int)[k as int] == s@[from + k]);
        }
        if s[from + k] != lv[k] {
            return false;
        }
        k += 1;
    }
    proof {
        assert(s@.subrange(from as int, to as int) =~= lit@);
    }
    true
}

pub open spec fn all_digits(s: Seq<char>) -> bool {
    forall|k: int| 0 <= k < s.len() ==> is_digit(#[trigger] s[k])
}

/// The number a query value or a path segment denotes: an optional
/// plus sign followed by decimal digits, of any length.
pub open spec fn spec_parse_uint(s: Seq<char>) -> Option<int> {
    let digits = if s.len() > 0 && s[0] == '+' {
        s.drop_first()
    } else {
        s
    };
    if digits.len() == 0 {
        None
    } else if !all_digits(digits) {
        None
    } else {
        Some(digits_value(digits, 0, digits.len() as int))
    }
}


pub open spec fn spec_parse_usize(s: Seq<char>) -> Option<usize> {
    match spec_parse_uint(s) {
        Some(v) => if v <= usize::MAX {
            Some(v as usize)
        } else {
            None
        },
        None => None,
    }
}

pub open spec fn spec_parse_u64_value(s: Seq<char>) -> Option<u64> {
    match spec_parse_uint(s) {
        Some(v) => if v <= u64::MAX {
            Some(v as u64)
        } else {
            None
        },
        None => None,
    }
}

fn parse_usize_region(s: &Vec<char>, from: usize, to: usize) -> (r: Option<usize>)
    requires
        from <= to <= s@.len(),
    ensures
        r == spec_parse_usize(s@.subrange(from as int, to as int)),
{
    let ghost whole = s@.subrange(from as int, to as int);
    let mut k = from;
    if k < to && s[k] == '+' {
        proof {
            assert(whole[0] == s@[from as int]);
        }
        k += 1;
    }
    let ghost digits = s@.subrange(k as int, to as int);
    proof {
        if whole.len() > 0 && whole[0] == '+' {
            assert(digits =~= whole.drop_first());
        } else {
            assert(digits =~= whole);
        }
    }
    if k >= to {
        return None;
    }
    let mut acc: usize = 0;
    let mut m = k;
    while m < to
        invariant
            from <= k <= m <= to <= s@.len(),
            whole == s@.subrange(from as int, to as int),
            digits == s@.subrange(k as int, to as int),
            digits == (if whole.len() > 0 && whole[0] == '+' {
                whole.drop_first()
            } else {
                whole
            }),
            digits.len() > 0,
            forall|x: int| 0 <= x < m - k ==> is_digit(#[trigger] digits[x]),
            acc as int == digits_value(digits, 0, m - k),
        decreases to - m,
    {
        let c = s[m];
        proof {
            assert(digits[m - k] == s@[m as int]);
        }
        if !is_digit_exec(c) {
            proof {
                assert(!all_digits(digits)) by {
                    assert(0 <= m - k < digits.len() && !is_digit(digits[m - k]));
                }
                assert(spec_parse_uint(whole) is None);
            }
            return None;
        }
        let d = digit_val_exec(c);
        if acc > (usize::MAX - (d as usize)) / 10 {
            proof {
                if all_digits(digits) {
                    assert(digits_value(digits, 0, m - k + 1) == acc * 10 + digit_val(
                        digits[m - k],
                    ));
                    assert(digits_value(digits, 0, m - k + 1) > usize::MAX);
                    crate::codec::lemma_digits_value_mono(digits, 0, m - k + 1, digits.len() as int);
                    assert(spec_parse_uint(whole) == Some(
                        digits_value(digits, 0, digits.len() as int),
                    ));
                    assert(digits_value(digits, 0, digits.len() as int) > usize::MAX);
                } else {
                    assert(spec_parse_uint(whole) is None);
                }
            }
            return None;
        }
        acc = acc * 10 + (d as usize);
        m += 1;
    }
    proof {
        assert(digits.len() == to - k);
        assert(all_digits(digits));
    }
    Some(acc)
}

pub(crate) fn parse_u64_region(s: &Vec<char>, from: usize, to: usize) -> (r: Option<u64>)
    requires
        from <= to <= s@.len(),
    ensures
        r == spec_parse_u64_value(s@.subrange(from as int, to as int)),
{
    let ghost whole = s@.subrange(from as int, to as int);
    let mut k = from;
    if k < to && s[k] == '+' {
        proof {
            assert(whole[0] == s@[from as int]);
        }
        k += 1;
    }
    let ghost digits = s@.subrange(k as int, to as int);
    proof {
        if whole.len() > 0 && whole[0] == '+' {
            assert(digits =~= whole.drop_first());
        } else {
            assert(digits =~= whole);
        }
    }
    if k >= to {
        return None;
    }
    let mut acc: u64 = 0;
    let mut m = k;
    while m < to
        invariant
            from <= k <= m <= to <= s@.len(),
            whole == s@.subrange(from as int, to as int),
            digits == s@.subrange(k as int, to as int),
            digits == (if whole.len() > 0 && whole[0] == '+' {
                whole.drop_first()
            } else {
                whole
            }),
            digits.len() > 0,
            forall|x: int| 0 <= x < m - k ==> is_digit(#[trigger] digits[x]),
            acc as int == digits_value(digits, 0, m - k),
        decreases to - m,
    {
        let c = s[m];
        proof {
            assert(digits[m - k] == s@[m as int]);
        }
        if !is_digit_exec(c) {
            proof {
                assert(!all_digits(digits)) by {
                    assert(0 <= m - k < digits.len() && !is_digit(digits[m - k]));
                }
                assert(spec_parse_uint(whole) is None);
            }
            return None;
        }
        let d = digit_val_exec(c);
        if acc > (u64::MAX - (d as u64)) / 10 {
            proof {
                if all_digits(digits) {
                    assert(digits_value(digits, 0, m - k + 1) == acc * 10 + digit_val(
                        digits[m - k],
                    ));
                    assert(digits_value(digits, 0, m - k + 1) > u64::MAX);
                    crate::codec::lemma_digits_value_mono(digits, 0, m - k + 1, digits.len() as int);
                    assert(spec_parse_uint(whole) == Some(
                        digits_value(digits, 0, digits.len() as int),
                    ));
                    assert(digits_value(digits, 0, digits.len() as int) > u64::MAX);
                } else {
                    assert(spec_parse_uint(whole) is None);
                }
            }
            return None;
        }
        acc = acc * 10 + (d as u64);
        m += 1;
    }
    proof {
        assert(digits.len() == to - k);
        assert(all_digits(digits));
    }
    Some(acc)
}

/// One pagination pair after another: each pair is the text up to the
/// next `&`, split at its first `=`; `offset` and `limit` must each
/// appear at most once with a numeric value, other keys are ignored.
pub open spec fn spec_query_step(
    q: Seq<char>,
    i: int,
    offset: Option<usize>,
    limit: Option<usize>,
) -> Option<ListOptions>
    decreases q.len() - i,
{
    if !(0 <= i <= q.len()) {
        None
    } else {
        let j = find_char(q, i, '&');
        let e0 = find_char(q, i, '=');
        let e = if e0 < j {
            e0
        } else {
            j
        };
        let key = q.subrange(i, e);
        let value = if e < j {
            q.subrange(e + 1, j)
        } else {
            Seq::<char>::empty()
        };
        let step = if key == "offset"@ {
            if offset is Some {
                None
            } else {
                match spec_parse_usize(value) {
                    Some(v) => Some((Some(v), limit)),
                    None => None,
                }
            }
        } else if key == "limit"@ {
            if limit is Some {
                None
            } else {
                match spec_parse_usize(value) {
                    Some(v) => Some((offset, Some(v))),
                    None => None,
                }
            }
        } else {
            Some((offset, limit))
        };
        match step {
            None => None,
            Some(p) => if j >= q.len() {
                Some(ListOptions { offset: p.0, limit: p.1 })
            } else if i <= j {
                spec_query_step(q, j + 1, p.0, p.1)
            } else {
                None
            },
        }
    }
}

/// The pagination options a query string carries, or nothing when a
/// recognised key has an unusable or repeated value.
pub open spec fn spec_parse_query(q: Seq<char>) -> Option<ListOptions> {
    spec_query_step(q, 0, None, None)
}

/// Parse the pagination options of a query string; `None` rejects the
/// request.
pub fn list_options(query: &str) -> (r: Option<ListOptions>)
    ensures
        r == spec_parse_query(query@),
{
    let q = str_to_chars(query);
    let mut i: usize = 0;
    let mut offset: Option<usize> = None;
    let mut limit: Option<usize> = None;
    let mut done: Option<Option<ListOptions>> = None;
    while done.is_none()
        invariant
            i <= q@.len(),
            q@ == query@,
            match done {
                Some(res) => res == spec_parse_query(query@),
                None => spec_parse_query(query@) == spec_query_step(
                    q@,
                    i as int,
                    offset,
                    limit,
                ),
            },
        decreases q@.len() - i, (if done is Some {
            0int
        } else {
            1int
        }),
    {
        let j = find_char_from(&q, i, '&');
        let e0 = find_char_from(&q, i, '=');
        let e = if e0 < j {
            e0
        } else {
            j
        };
        proof {
            lemma_find_char(q@, i as int, '&');
            lemma_find_char(q@, i as int, '=');
        }
        let mut new_offset = offset;
        let mut new_limit = limit;
        let mut failed = false;
        if region_eq_str(&q, i, e, "offset") {
            if offset.is_some() {
                failed = true;
            } else {
                let pv: Option<usize> = if e < j {
                    parse_usize_region(&q, e + 1, j)
                } else {
                    proof {
                        assert(spec_parse_usize(Seq::<char>::empty()) is None);
                    }
                    None
                };
                match pv {
                    Some(v) => {
                        new_offset = Some(v);
                    },
                    None => {
                        failed = true;
                    },
                }
            }
        } else if region_eq_str(&q, i, e, "limit") {
            if limit.is_some() {
                failed = true;
            } else {
                let pv: Option<usize> = if e < j {
                    parse_usize_region(&q, e + 1, j)
                } else {
                    proof {
                        assert(spec_parse_usize(Seq::<char>::empty()) is None);
                    }
                    None
                };
                match pv {
                    Some(v) => {
                        new_limit = Some(v);
                    },
                    None => {
                        failed = true;
                    },
                }
            }
        }
        if failed {
            done = Some(None);
        } else if j >= q.len() {
            done = Some(Some(ListOptions { offset: new_offset, limit: new_limit }));
        } else {
            offset = new_offset;
            limit = new_limit;
            i = j + 1;
        }
    }
    match done {
        Some(r) => r,
        None => None,
    }
}

/// Why a request body is refused.
#[derive(Clone, Copy, Debug, PartialEq, Eq, Structural)]
pub enum BodyError {
    MissingLength,
    PayloadTooLarge,
    Malformed,
    RatingOutOfRange,
    InvalidDate,
}

/// The status each body error answers with: an oversized declared
/// length is its own condition, everything else is a bad request.
pub open spec fn spec_body_error_status(e: BodyError) -> Status {
    match e {
        BodyError::PayloadTooLarge => Status::PayloadTooLarge,
        _ => Status::BadRequest,
    }
}

pub fn body_error_status(e: &BodyError) -> (s: Status)
    ensures
        s == spec_body_error_status(*e),
{
    match e {
        BodyError::PayloadTooLarge => Status::PayloadTooLarge,
        _ => Status::BadRequest,
    }
}

/// The verdict of the body filter: the declared length must be there
/// and under the cap, and the body must decode and validate.
pub open spec fn spec_json_body(content_length: Option<u64>, body: Seq<char>) -> Result<
    GameView,
    BodyError,
> {
    match content_length {
        None => Err(BodyError::MissingLength),
        Some(n) => if n > MAX_CONTENT_LENGTH {
            Err(BodyError::PayloadTooLarge)
        } else {
            match spec_decode_game(body) {
                Ok(g) => Ok(g),
                Err(DecodeError::Malformed) => Err(BodyError::Malformed),
                Err(DecodeError::RatingOutOfRange) => Err(BodyError::RatingOutOfRange),
                Err(DecodeError::InvalidDate) => Err(BodyError::InvalidDate),
            }
        },
    }
}

/// The body filter: reject an oversized or undeclared length before
/// parsing, then decode the body strictly against the record schema.
pub fn json_body(content_length: Option<u64>, body: &str) -> (r: Result<Game, BodyError>)
    ensures
        match r {
            Ok(g) => spec_json_body(content_length, body@) == Ok::<GameView, BodyError>(g@),
            Err(e) => spec_json_body(content_length, body@) == Err::<GameView, BodyError>(e),
        },
{
    match content_length {
        None => Err(BodyError::MissingLength),
        Some(n) => {
            if n > MAX_CONTENT_LENGTH {
                Err(BodyError::PayloadTooLarge)
            } else {
                match game_from_json(body) {
                    Ok(g) => Ok(g),
                    Err(DecodeError::Malformed) => Err(BodyError::Malformed),
                    Err(DecodeError::RatingOutOfRange) => Err(BodyError::RatingOutOfRange),
                    Err(DecodeError::InvalidDate) => Err(BodyError::InvalidDate),
                }
            }
        },
    }
}

} // verus!
