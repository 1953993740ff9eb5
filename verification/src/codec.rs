//! JSON codec for the wire schema: encoding a record to its JSON text
//! and decoding JSON text back into a record.
//!
//! The wire shape is
//! `{"id": uint, "title": string, "rating": uint, "genre": token,
//!   "description": string|null, "releaseDate": "YYYY-MM-DDTHH:MM:SS"}`
//! with field order insignificant on the way in and fixed on the way
//! out.

use vstd::prelude::*;

use crate::schema::{DateTime, Game, GameView, Genre};
use crate::validators::{spec_validate, valid_game, validate_game, ValidateError};

verus! {

broadcast use vstd::string::group_string_axioms;

/// Every character of a `&str`, in order.
pub fn str_to_chars(s: &str) -> (out: Vec<char>)
    ensures
        out@ == s@,
{
    let mut out: Vec<char> = Vec::new();
    for c in it: s.chars()
        invariant
            it.seq() == s@,
            out@ == it.seq().take(it.index()),
    {
        out.push(c);
        proof {
            assert(out@ =~= it.seq().take(it.index() + 1));
        }
    }
    proof {
        assert(out@ =~= s@);
    }
    out
}

/// Relies on `String`'s `FromIterator<char>`, through
/// `Iterator::collect`: collecting characters yields the string of
/// exactly those characters, in order.
#[verifier::external_body]
pub(crate) fn chars_to_string(v: &Vec<char>) -> (r: String)
    ensures
        r@ == v@,
{
    v.iter().collect()
}

/// Appends every character of `s` to `out`.
fn append_str(out: &mut Vec<char>, s: &str)
    ensures
        final(out)@ == old(out)@ + s@,
{
    for c in it: s.chars()
        invariant
            it.seq() == s@,
            out@ == old(out)@ + it.seq().take(it.index()),
    {
        out.push(c);
        proof {
            assert(out@ =~= old(out)@ + it.seq().take(it.index() + 1));
        }
    }
    proof {
        assert(out@ =~= old(out)@ + s@);
    }
}

pub open spec fn digit_char(d: int) -> char {
    ((48 + d) as u8) as char
}

pub open spec fn is_digit(c: char) -> bool {
    48 <= (c as u32) && (c as u32) <= 57
}

pub open spec fn digit_val(c: char) -> int {
    c as u32 - 48
}

/// Decimal digits of a non-negative number, most significant first,
/// with no leading zero except for the number zero itself.
pub open spec fn spec_digits(n: int) -> Seq<char>
    decreases n,
{
    if n < 10 {
        seq![digit_char(n)]
    } else {
        spec_digits(n / 10).push(digit_char(n % 10))
    }
}

fn digit_char_exec(d: u8) -> (c: char)
    requires
        d < 10,
    ensures
        c == digit_char(d as int),
{
    (48 + d) as char
}

/// Appends the decimal digits of `n`.
fn push_u64_digits(n: u64, out: &mut Vec<char>)
    ensures
        final(out)@ == old(out)@ + spec_digits(n as int),
    decreases n,
{
    if n < 10 {
        out.push(digit_char_exec(n as u8));
        proof {
            assert(final(out)@ =~= old(out)@ + spec_digits(n as int));
        }
    } else {
        push_u64_digits(n / 10, out);
        out.push(digit_char_exec((n % 10) as u8));
        proof {
            assert(final(out)@ =~= old(out)@ + spec_digits(n as int));
        }
    }
}

pub open spec fn spec_pad2(n: int) -> Seq<char> {
    seq![digit_char(n / 10), digit_char(n % 10)]
}

pub open spec fn spec_pad4(n: int) -> Seq<char> {
    seq![
        digit_char(n / 1000),
        digit_char(n / 100 % 10),
        digit_char(n / 10 % 10),
        digit_char(n % 10),
    ]
}

fn push_pad2(n: u8, out: &mut Vec<char>)
    requires
        n < 100,
    ensures
        final(out)@ == old(out)@ + spec_pad2(n as int),
{
    out.push(digit_char_exec(n / 10));
    out.push(digit_char_exec(n % 10));
    proof {
        assert(final(out)@ =~= old(out)@ + spec_pad2(n as int));
    }
}

fn push_pad4(n: u16, out: &mut Vec<char>)
    requires
        n <= 9999,
    ensures
        final(out)@ == old(out)@ + spec_pad4(n as int),
{
    out.push(digit_char_exec((n / 1000) as u8));
    out.push(digit_char_exec((n / 100 % 10) as u8));
    out.push(digit_char_exec((n / 10 % 10) as u8));
    out.push(digit_char_exec((n % 10) as u8));
    proof {
        assert(final(out)@ =~= old(out)@ + spec_pad4(n as int));
    }
}

/// The wire shape of a timestamp: `YYYY-MM-DDTHH:MM:SS`.
pub open spec fn spec_date_chars(d: DateTime) -> Seq<char> {
    spec_pad4(d.year as int) + seq!['-'] + spec_pad2(d.month as int) + seq!['-'] + spec_pad2(
        d.day as int,
    ) + seq!['T'] + spec_pad2(d.hour as int) + seq![':'] + spec_pad2(d.minute as int) + seq![':']
        + spec_pad2(d.second as int)
}

/// Whether every field of the timestamp fits its fixed-width decimal
/// slot; any valid date does.
pub open spec fn date_fits(d: DateTime) -> bool {
    d.year <= 9999 && d.month < 100 && d.day < 100 && d.hour < 100 && d.minute < 100 && d.second
        < 100
}

fn push_date_chars(d: &DateTime, out: &mut Vec<char>)
    requires
        date_fits(*d),
    ensures
        final(out)@ == old(out)@ + spec_date_chars(*d),
{
    push_pad4(d.year, out);
    out.push('-');
    push_pad2(d.month, out);
    out.push('-');
    push_pad2(d.day, out);
    out.push('T');
    push_pad2(d.hour, out);
    out.push(':');
    push_pad2(d.minute, out);
    out.push(':');
    push_pad2(d.second, out);
    proof {
        assert(final(out)@ =~= old(out)@ + spec_date_chars(*d));
    }
}

pub open spec fn hex_char(d: int) -> char {
    if d < 10 {
        digit_char(d)
    } else {
        ((87 + d) as u8) as char
    }
}

fn hex_char_exec(d: u8) -> (c: char)
    requires
        d < 16,
    ensures
        c == hex_char(d as int),
{
    if d < 10 {
        (48 + d) as char
    } else {
        (87 + d) as char
    }
}

/// A character that stands for itself inside a JSON string literal.
pub open spec fn plain_char(c: char) -> bool {
    c != '"' && c != '\\' && (c as u32) >= 32
}

/// How one character appears inside a JSON string literal: the short
/// escapes for quote, backslash and the named control characters, a
/// `\u00XX` escape for the remaining control characters, and the
/// character itself otherwise.
pub open spec fn escape_char(c: char) -> Seq<char> {
    if c == '"' {
        seq!['\\', '"']
    } else if c == '\\' {
        seq!['\\', '\\']
    } else if c == '\u{8}' {
        seq!['\\', 'b']
    } else if c == '\t' {
        seq!['\\', 't']
    } else if c == '\n' {
        seq!['\\', 'n']
    } else if c == '\u{c}' {
        seq!['\\', 'f']
    } else if c == '\r' {
        seq!['\\', 'r']
    } else if (c as u32) < 32 {
        seq!['\\', 'u', '0', '0', hex_char((c as u32) as int / 16), hex_char((c as u32) as int % 16)]
    } else {
        seq![c]
    }
}

pub open spec fn spec_escape(s: Seq<char>) -> Seq<char>
    decreases s.len(),
{
    if s.len() == 0 {
        Seq::empty()
    } else {
        escape_char(s[0]) + spec_escape(s.drop_first())
    }
}

proof fn lemma_escape_append(a: Seq<char>, b: Seq<char>)
    ensures
        spec_escape(a + b) == spec_escape(a) + spec_escape(b),
    decreases a.len(),
{
    if a.len() == 0 {
        assert(a + b =~= b);
        assert(spec_escape(a) + spec_escape(b) =~= spec_escape(b));
    } else {
        assert((a + b).drop_first() =~= a.drop_first() + b);
        lemma_escape_append(a.drop_first(), b);
        assert((a + b)[0] == a[0]);
        assert(escape_char(a[0]) + (spec_escape(a.drop_first()) + spec_escape(b)) =~= (escape_char(
            a[0],
        ) + spec_escape(a.drop_first())) + spec_escape(b));
    }
}

fn push_escaped_char(c: char, out: &mut Vec<char>)
    ensures
        final(out)@ == old(out)@ + escape_char(c),
{
    if c == '"' {
        out.push('\\');
        out.push('"');
        proof {
            assert(final(out)@ =~= old(out)@ + escape_char(c));
        }
    } else if c == '\\' {
        out.push('\\');
        out.push('\\');
        proof {
            assert(final(out)@ =~= old(out)@ + escape_char(c));
        }
    } else {
        let code: u32 = c as u32;
        if c == '\u{8}' {
            out.push('\\');
            out.push('b');
            proof {
                assert(final(out)@ =~= old(out)@ + escape_char(c));
            }
        } else if c == '\t' {
            out.push('\\');
            out.push('t');
            proof {
                assert(final(out)@ =~= old(out)@ + escape_char(c));
            }
        } else if c == '\n' {
            out.push('\\');
            out.push('n');
            proof {
                assert(final(out)@ =~= old(out)@ + escape_char(c));
            }
        } else if c == '\u{c}' {
            out.push('\\');
            out.push('f');
            proof {
                assert(final(out)@ =~= old(out)@ + escape_char(c));
            }
        } else if c == '\r' {
            out.push('\\');
            out.push('r');
            proof {
                assert(final(out)@ =~= old(out)@ + escape_char(c));
            }
        } else if code < 32 {
            out.push('\\');
            out.push('u');
            out.push('0');
            out.push('0');
            out.push(hex_char_exec((code / 16) as u8));
            out.push(hex_char_exec((code % 16) as u8));
            proof {
                assert(final(out)@ =~= old(out)@ + escape_char(c));
            }
        } else {
            out.push(c);
            proof {
                assert(final(out)@ =~= old(out)@ + escape_char(c));
            }
        }
    }
}

fn push_escaped(s: &Vec<char>, out: &mut Vec<char>)
    ensures
        final(out)@ == old(out)@ + spec_escape(s@),
{
    let mut i: usize = 0;
    while i < s.len()
        invariant
            i <= s@.len(),
            out@ == old(out)@ + spec_escape(s@.take(i as int)),
        decreases s@.len() - i,
    {
        proof {
            assert(s@.take(i + 1 as int) =~= s@.take(i as int) + seq![s@[i as int]]);
            lemma_escape_append(s@.take(i as int), seq![s@[i as int]]);
            assert(seq![s@[i as int]].drop_first() =~= Seq::<char>::empty());
            assert(spec_escape(Seq::<char>::empty()) =~= Seq::<char>::empty());
            assert(spec_escape(seq![s@[i as int]]) == escape_char(s@[i as int]) + spec_escape(
                Seq::<char>::empty(),
            ));
            assert(spec_escape(seq![s@[i as int]]) =~= escape_char(s@[i as int]));
        }
        push_escaped_char(s[i], out);
        proof {
            assert(out@ =~= old(out)@ + spec_escape(s@.take(i + 1 as int)));
        }
        i += 1;
    }
    proof {
        assert(s@.take(s@.len() as int) =~= s@);
    }
}

/// The wire shape of a text value: quoted and escaped.
pub open spec fn spec_json_string(s: Seq<char>) -> Seq<char> {
    seq!['"'] + spec_escape(s) + seq!['"']
}

fn push_json_str(s: &str, out: &mut Vec<char>)
    ensures
        final(out)@ == old(out)@ + spec_json_string(s@),
{
    let chars = str_to_chars(s);
    out.push('"');
    push_escaped(&chars, out);
    out.push('"');
    proof {
        assert(final(out)@ =~= old(out)@ + spec_json_string(s@));
    }
}

/// The wire token of a genre.
pub open spec fn genre_chars(g: Genre) -> Seq<char> {
    match g {
        Genre::RolePlaying => "ROLE_PLAYING"@,
        Genre::Strategy => "STRATEGY"@,
        Genre::Shooter => "SHOOTER"@,
    }
}

fn push_genre_chars(g: &Genre, out: &mut Vec<char>)
    ensures
        final(out)@ == old(out)@ + genre_chars(*g),
{
    match g {
        Genre::RolePlaying => append_str(out, "ROLE_PLAYING"),
        Genre::Strategy => append_str(out, "STRATEGY"),
        Genre::Shooter => append_str(out, "SHOOTER"),
    }
}

/// The full wire shape of one record, fields in declaration order.
pub open spec fn spec_game_chars(g: GameView) -> Seq<char> {
    "{\"id\":"@ + spec_digits(g.id as int) + ",\"title\":"@ + spec_json_string(g.title)
        + ",\"rating\":"@ + spec_digits(g.rating as int) + ",\"genre\":\""@ + genre_chars(g.genre)
        + "\",\"description\":"@ + (match g.description {
        Some(d) => spec_json_string(d),
        None => "null"@,
    }) + ",\"releaseDate\":\""@ + spec_date_chars(g.release_date) + "\"}"@
}

fn push_game_chars(g: &Game, out: &mut Vec<char>)
    requires
        date_fits(g.release_date),
    ensures
        final(out)@ == old(out)@ + spec_game_chars(g@),
{
    append_str(out, "{\"id\":");
    push_u64_digits(g.id, out);
    append_str(out, ",\"title\":");
    push_json_str(g.title.as_str(), out);
    append_str(out, ",\"rating\":");
    push_u64_digits(g.rating as u64, out);
    append_str(out, ",\"genre\":\"");
    push_genre_chars(&g.genre, out);
    append_str(out, "\",\"description\":");
    match &g.description {
        Some(d) => push_json_str(d.as_str(), out),
        None => append_str(out, "null"),
    }
    append_str(out, ",\"releaseDate\":\"");
    push_date_chars(&g.release_date, out);
    append_str(out, "\"}");
    proof {
        assert(final(out)@ =~= old(out)@ + spec_game_chars(g@));
    }
}

/// Encode one record; a record that fails validation fails to encode.
pub fn game_to_json(g: &Game) -> (r: Result<String, ValidateError>)
    ensures
        match r {
            Ok(s) => valid_game(g@) && s@ == spec_game_chars(g@),
            Err(e) => spec_validate(g@) == Some(e),
        },
{
    match validate_game(g) {
        Err(e) => Err(e),
        Ok(_) => {
            let mut out: Vec<char> = Vec::new();
            push_game_chars(g, &mut out);
            Ok(chars_to_string(&out))
        },
    }
}

/// The body of an encoded listing: records joined by commas.
pub open spec fn spec_games_body(s: Seq<GameView>) -> Seq<char>
    decreases s.len(),
{
    if s.len() == 0 {
        Seq::empty()
    } else if s.len() == 1 {
        spec_game_chars(s[0])
    } else {
        spec_games_body(s.drop_last()) + seq![','] + spec_game_chars(s.last())
    }
}

/// The wire shape of a listing: a JSON array of records in order.
pub open spec fn spec_games_chars(s: Seq<GameView>) -> Seq<char> {
    seq!['['] + spec_games_body(s) + seq![']']
}

/// The first validation failure over a sequence of records, if any.
pub open spec fn spec_validate_all(s: Seq<GameView>) -> Option<ValidateError>
    decreases s.len(),
{
    if s.len() == 0 {
        None
    } else if spec_validate(s[0]) is Some {
        spec_validate(s[0])
    } else {
        spec_validate_all(s.drop_first())
    }
}

/// Encode a listing; any record that fails validation fails the whole
/// encoding with its own error.
pub fn games_to_json(games: &Vec<Game>) -> (r: Result<String, ValidateError>)
    ensures
        match r {
            Ok(s) => spec_validate_all(games.deep_view()) is None && s@ == spec_games_chars(
                games.deep_view(),
            ),
            Err(e) => spec_validate_all(games.deep_view()) == Some(e),
        },
{
    let ghost vs = games.deep_view();
    proof {
        assert(vs.skip(0) =~= vs);
    }
    let mut i: usize = 0;
    while i < games.len()
        invariant
            i <= vs.len(),
            vs == games.deep_view(),
            spec_validate_all(vs) == spec_validate_all(vs.skip(i as int)),
            forall|j: int| 0 <= j < i ==> valid_game(vs[j]),
        decreases vs.len() - i,
    {
        proof {
            assert(vs.skip(i as int).drop_first() =~= vs.skip(i + 1 as int));
            assert(vs.skip(i as int)[0] == vs[i as int]);
        }
        if let Err(e) = validate_game(&games[i]) {
            return Err(e);
        }
        i += 1;
    }
    proof {
        assert(vs.skip(vs.len() as int) =~= Seq::<GameView>::empty());
    }
    let mut out: Vec<char> = Vec::new();
    out.push('[');
    let mut k: usize = 0;
    while k < games.len()
        invariant
            k <= vs.len(),
            vs == games.deep_view(),
            forall|j: int| 0 <= j < vs.len() ==> valid_game(vs[j]),
            out@ == seq!['['] + spec_games_body(vs.take(k as int)),
        decreases vs.len() - k,
    {
        if k > 0 {
            out.push(',');
        }
        proof {
            assert(vs.take(k + 1 as int).drop_last() =~= vs.take(k as int));
            assert(vs.take(k + 1 as int).last() == vs[k as int]);
            assert(valid_game(vs[k as int]));
        }
        push_game_chars(&games[k], &mut out);
        proof {
            assert(out@ =~= seq!['['] + spec_games_body(vs.take(k + 1 as int)));
        }
        k += 1;
    }
    out.push(']');
    proof {
        assert(vs.take(vs.len() as int) =~= vs);
        assert(out@ =~= spec_games_chars(vs));
    }
    Ok(chars_to_string(&out))
}

// ---------------------------------------------------------------------
// Decoding
// ---------------------------------------------------------------------

/// Why a JSON text fails to decode into a record.
#[derive(Clone, Copy, Debug, PartialEq, Eq, Structural)]
pub enum DecodeError {
    /// The text is not a well-formed record of the wire schema.
    Malformed,
    /// The record parses but its rating is over the bound.
    RatingOutOfRange,
    /// The record parses but its timestamp is no calendar date.
    InvalidDate,
}

pub open spec fn is_ws(c: char) -> bool {
    c == ' ' || c == '\t' || c == '\n' || c == '\r'
}

/// First position at or after `i` that does not hold whitespace.
pub open spec fn spec_skip_ws(s: Seq<char>, i: int) -> int
    decreases s.len() - i,
{
    if 0 <= i < s.len() && is_ws(s[i]) {
        spec_skip_ws(s, i + 1)
    } else {
        i
    }
}


/// First position at or after `i` that does not hold a decimal digit.
pub open spec fn digit_run_end(s: Seq<char>, i: int) -> int
    decreases s.len() - i,
{
    if 0 <= i < s.len() && is_digit(s[i]) {
        digit_run_end(s, i + 1)
    } else {
        i
    }
}

proof fn lemma_digit_run(s: Seq<char>, i: int)
    requires
        0 <= i <= s.len(),
    ensures
        i <= digit_run_end(s, i) <= s.len(),
        forall|k: int| i <= k < digit_run_end(s, i) ==> is_digit(s[k]),
        digit_run_end(s, i) < s.len() ==> !is_digit(s[digit_run_end(s, i)]),
    decreases s.len() - i,
{
    if i < s.len() && is_digit(s[i]) {
        lemma_digit_run(s, i + 1);
    }
}

/// The number the digits at positions `[i, j)` denote.
pub open spec fn digits_value(s: Seq<char>, i: int, j: int) -> int
    decreases j - i,
{
    if i >= j {
        0
    } else {
        digits_value(s, i, j - 1) * 10 + digit_val(s[j - 1])
    }
}

pub(crate) proof fn lemma_digits_value_nonneg(s: Seq<char>, i: int, j: int)
    requires
        forall|k: int| i <= k < j ==> is_digit(s[k]),
    ensures
        digits_value(s, i, j) >= 0,
    decreases j - i,
{
    if i < j {
        lemma_digits_value_nonneg(s, i, j - 1);
    }
}

pub(crate) proof fn lemma_digits_value_mono(s: Seq<char>, i: int, k: int, j: int)
    requires
        i <= k <= j,
        forall|m: int| i <= m < j ==> is_digit(s[m]),
    ensures
        digits_value(s, i, k) <= digits_value(s, i, j),
    decreases j - k,
{
    if k < j {
        lemma_digits_value_mono(s, i, k, j - 1);
        lemma_digits_value_nonneg(s, i, j - 1);
    }
}

/// A decimal number: a maximal digit run with no redundant leading
/// zero, whose value fits an unsigned 64-bit integer.
pub open spec fn spec_parse_u64(s: Seq<char>, i: int) -> Option<(u64, int)> {
    let j = digit_run_end(s, i);
    if j == i {
        None
    } else if s[i] == '0' && j > i + 1 {
        None
    } else if digits_value(s, i, j) > u64::MAX {
        None
    } else {
        Some((digits_value(s, i, j) as u64, j))
    }
}

pub open spec fn is_hex(c: char) -> bool {
    is_digit(c) || (97 <= (c as u32) && (c as u32) <= 102) || (65 <= (c as u32) && (c as u32)
        <= 70)
}

pub open spec fn hex_val(c: char) -> int {
    if is_digit(c) {
        digit_val(c)
    } else if 97 <= (c as u32) && (c as u32) <= 102 {
        c as u32 - 87
    } else {
        c as u32 - 55
    }
}

/// The character an escape stands for; `i` points just after the
/// backslash. The short escapes, plus `\uXXXX` for scalar code points.
pub open spec fn spec_parse_escape(s: Seq<char>, i: int) -> Option<(char, int)> {
    if i < 0 || i >= s.len() {
        None
    } else {
        let c = s[i];
        if c == '"' {
            Some(('"', i + 1))
        } else if c == '\\' {
            Some(('\\', i + 1))
        } else if c == '/' {
            Some(('/', i + 1))
        } else if c == 'b' {
            Some(('\u{8}', i + 1))
        } else if c == 'f' {
            Some(('\u{c}', i + 1))
        } else if c == 'n' {
            Some(('\n', i + 1))
        } else if c == 'r' {
            Some(('\r', i + 1))
        } else if c == 't' {
            Some(('\t', i + 1))
        } else if c == 'u' {
            if i + 5 <= s.len() && is_hex(s[i + 1]) && is_hex(s[i + 2]) && is_hex(s[i + 3])
                && is_hex(s[i + 4]) {
                let code = hex_val(s[i + 1]) * 4096 + hex_val(s[i + 2]) * 256 + hex_val(s[i + 3])
                    * 16 + hex_val(s[i + 4]);
                if 0xD800 <= code < 0xE000 {
                    None
                } else {
                    Some(((code as u32) as char, i + 5))
                }
            } else {
                None
            }
        } else {
            None
        }
    }
}

/// The body of a JSON string from position `i` (just after the opening
/// quote) to its closing quote: unescaped content and the position
/// after the quote.
pub open spec fn spec_parse_string_rest(s: Seq<char>, i: int) -> Option<(Seq<char>, int)>
    decreases s.len() - i,
{
    if i < 0 || i >= s.len() {
        None
    } else if s[i] == '"' {
        Some((Seq::empty(), i + 1))
    } else if s[i] == '\\' {
        match spec_parse_escape(s, i + 1) {
            None => None,
            Some((c, j)) => if i < j <= s.len() {
                match spec_parse_string_rest(s, j) {
                    None => None,
                    Some((rest, k)) => Some((seq![c] + rest, k)),
                }
            } else {
                None
            },
        }
    } else if (s[i] as u32) < 32 {
        None
    } else {
        match spec_parse_string_rest(s, i + 1) {
            None => None,
            Some((rest, k)) => Some((seq![s[i]] + rest, k)),
        }
    }
}

/// A quoted JSON string starting at `i`.
pub open spec fn spec_parse_string(s: Seq<char>, i: int) -> Option<(Seq<char>, int)> {
    if 0 <= i < s.len() && s[i] == '"' {
        spec_parse_string_rest(s, i + 1)
    } else {
        None
    }
}

proof fn lemma_parse_string_rest_bounds(s: Seq<char>, i: int)
    requires
        0 <= i <= s.len(),
    ensures
        match spec_parse_string_rest(s, i) {
            Some((v, j)) => i < j <= s.len(),
            None => true,
        },
    decreases s.len() - i,
{
    if i < s.len() {
        if s[i] == '"' {
        } else if s[i] == '\\' {
            match spec_parse_escape(s, i + 1) {
                None => {},
                Some((c, j)) => {
                    if i < j <= s.len() {
                        lemma_parse_string_rest_bounds(s, j);
                    }
                },
            }
        } else {
            lemma_parse_string_rest_bounds(s, i + 1);
        }
    }
}

fn is_ws_exec(c: char) -> (r: bool)
    ensures
        r == is_ws(c),
{
    c == ' ' || c == '\t' || c == '\n' || c == '\r'
}

pub(crate) fn is_digit_exec(c: char) -> (r: bool)
    ensures
        r == is_digit(c),
{
    let code = c as u32;
    48 <= code && code <= 57
}

pub(crate) fn digit_val_exec(c: char) -> (d: u8)
    requires
        is_digit(c),
    ensures
        d as int == digit_val(c),
{
    ((c as u32) - 48) as u8
}

fn skip_ws(s: &Vec<char>, i: usize) -> (j: usize)
    requires
        i <= s@.len(),
    ensures
        j as int == spec_skip_ws(s@, i as int),
        i <= j <= s@.len(),
{
    let mut j = i;
    while j < s.len() && is_ws_exec(s[j])
        invariant
            i <= j <= s@.len(),
            spec_skip_ws(s@, i as int) == spec_skip_ws(s@, j as int),
        decreases s@.len() - j,
    {
        j += 1;
    }
    j
}

fn parse_u64(s: &Vec<char>, i: usize) -> (r: Option<(u64, usize)>)
    requires
        i <= s@.len(),
    ensures
        ({
            let sp = spec_parse_u64(s@, i as int);
            match r {
                Some(p) => sp == Some((p.0, p.1 as int)) && i < p.1 <= s@.len(),
                None => sp is None,
            }
        }),
{
    proof {
        lemma_digit_run(s@, i as int);
    }
    let ghost end = digit_run_end(s@, i as int);
    let mut j = i;
    while j < s.len() && is_digit_exec(s[j])
        invariant
            i <= j <= s@.len(),
            digit_run_end(s@, i as int) == digit_run_end(s@, j as int),
        decreases s@.len() - j,
    {
        j += 1;
    }
    proof {
        assert(j as int == end);
    }
    if j == i {
        return None;
    }
    if s[i] == '0' && j > i + 1 {
        return None;
    }
    let mut acc: u64 = 0;
    let mut k = i;
    while k < j
        invariant
            i <= k <= j <= s@.len(),
            end == j as int,
            end == digit_run_end(s@, i as int),
            forall|m: int| i <= m < end ==> is_digit(s@[m]),
            acc as int == digits_value(s@, i as int, k as int),
        decreases j - k,
    {
        let d = digit_val_exec(s[k]);
        if acc > (u64::MAX - (d as u64)) / 10 {
            proof {
                assert(digits_value(s@, i as int, k + 1 as int) > u64::MAX);
                lemma_digits_value_mono(s@, i as int, k + 1 as int, end);
            }
            return None;
        }
        acc = acc * 10 + (d as u64);
        k += 1;
    }
    Some((acc, j))
}

fn is_hex_exec(c: char) -> (r: bool)
    ensures
        r == is_hex(c),
{
    let code = c as u32;
    (48 <= code && code <= 57) || (97 <= code && code <= 102) || (65 <= code && code <= 70)
}

fn hex_val_exec(c: char) -> (d: u8)
    requires
        is_hex(c),
    ensures
        d as int == hex_val(c),
{
    let code = c as u32;
    if 48 <= code && code <= 57 {
        (code - 48) as u8
    } else if 97 <= code && code <= 102 {
        (code - 87) as u8
    } else {
        (code - 55) as u8
    }
}

/// Relies on `char::from_u32`: `Some` exactly on Unicode scalar values,
/// yielding the character with that code point.
#[verifier::external_body]
fn char_from_u32(code: u32) -> (r: Option<char>)
    ensures
        r == if vstd::utf8::is_scalar(code) {
            Some(code as char)
        } else {
            None::<char>
        },
{
    char::from_u32(code)
}

fn parse_escape(s: &Vec<char>, i: usize) -> (r: Option<(char, usize)>)
    requires
        i <= s@.len(),
    ensures
        ({
            let sp = spec_parse_escape(s@, i as int);
            match r {
                Some(p) => sp == Some((p.0, p.1 as int)) && i < p.1 <= s@.len(),
                None => sp is None,
            }
        }),
{
    if i >= s.len() {
        return None;
    }
    let c = s[i];
    if c == '"' {
        Some(('"', i + 1))
    } else if c == '\\' {
        Some(('\\', i + 1))
    } else if c == '/' {
        Some(('/', i + 1))
    } else if c == 'b' {
        Some(('\u{8}', i + 1))
    } else if c == 'f' {
        Some(('\u{c}', i + 1))
    } else if c == 'n' {
        Some(('\n', i + 1))
    } else if c == 'r' {
        Some(('\r', i + 1))
    } else if c == 't' {
        Some(('\t', i + 1))
    } else if c == 'u' {
        if s.len() < 5 || i > s.len() - 5 {
            return None;
        }
        if !(is_hex_exec(s[i + 1]) && is_hex_exec(s[i + 2]) && is_hex_exec(s[i + 3]) && is_hex_exec(
            s[i + 4],
        )) {
            return None;
        }
        let code: u32 = (hex_val_exec(s[i + 1]) as u32) * 4096 + (hex_val_exec(s[i + 2]) as u32)
            * 256 + (hex_val_exec(s[i + 3]) as u32) * 16 + (hex_val_exec(s[i + 4]) as u32);
        if 0xD800 <= code && code < 0xE000 {
            return None;
        }
        match char_from_u32(code) {
            Some(ch) => Some((ch, i + 5)),
            None => None,
        }
    } else {
        None
    }
}

fn parse_string(s: &Vec<char>, i: usize) -> (r: Option<(Vec<char>, usize)>)
    requires
        i <= s@.len(),
    ensures
        ({
            let sp = spec_parse_string(s@, i as int);
            match r {
                Some(p) => sp == Some((p.0@, p.1 as int)) && i < p.1 <= s@.len(),
                None => sp is None,
            }
        }),
{
    if i >= s.len() || s[i] != '"' {
        return None;
    }
    let ghost start = (i + 1) as int;
    let mut out: Vec<char> = Vec::new();
    let mut j: usize = i + 1;
    proof {
        assert(out@ =~= Seq::<char>::empty());
    }
    while j < s.len()
        invariant
            i + 1 <= j <= s@.len(),
            start == i + 1,
            i < s@.len() && s@[i as int] == '"',
            spec_parse_string_rest(s@, start) == match spec_parse_string_rest(s@, j as int) {
                Some((rest, k)) => Some((out@ + rest, k)),
                None => None::<(Seq<char>, int)>,
            },
        decreases s@.len() - j,
    {
        let c = s[j];
        if c == '"' {
            proof {
                assert(spec_parse_string_rest(s@, j as int) == Some(
                    (Seq::<char>::empty(), j + 1 as int),
                ));
                assert(out@ + Seq::<char>::empty() =~= out@);
            }
            return Some((out, j + 1));
        } else if c == '\\' {
            match parse_escape(s, j + 1) {
                None => {
                    return None;
                },
                Some((ch, j2)) => {
                    proof {
                        let tail = spec_parse_string_rest(s@, j2 as int);
                        if tail is Some {
                            let pair = tail->Some_0;
                            assert(out@ + (seq![ch] + pair.0) =~= out@.push(ch) + pair.0);
                        }
                    }
                    out.push(ch);
                    j = j2;
                },
            }
        } else {
            let code = c as u32;
            if code < 32 {
                return None;
            }
            proof {
                let tail = spec_parse_string_rest(s@, j + 1 as int);
                if tail is Some {
                    let pair = tail->Some_0;
                    assert(out@ + (seq![c] + pair.0) =~= out@.push(c) + pair.0);
                }
            }
            out.push(c);
            j += 1;
        }
    }
    None
}

/// The genre a wire token names.
pub open spec fn spec_genre_of(s: Seq<char>) -> Option<Genre> {
    if s == "ROLE_PLAYING"@ {
        Some(Genre::RolePlaying)
    } else if s == "STRATEGY"@ {
        Some(Genre::Strategy)
    } else if s == "SHOOTER"@ {
        Some(Genre::Shooter)
    } else {
        None
    }
}

/// The timestamp a wire string of the shape `YYYY-MM-DDTHH:MM:SS`
/// carries; calendar validity is not checked here.
pub open spec fn spec_date_of(s: Seq<char>) -> Option<DateTime> {
    if s.len() == 19 && is_digit(s[0]) && is_digit(s[1]) && is_digit(s[2]) && is_digit(s[3]) && s[4]
        == '-' && is_digit(s[5]) && is_digit(s[6]) && s[7] == '-' && is_digit(s[8]) && is_digit(
        s[9],
    ) && s[10] == 'T' && is_digit(s[11]) && is_digit(s[12]) && s[13] == ':' && is_digit(s[14])
        && is_digit(s[15]) && s[16] == ':' && is_digit(s[17]) && is_digit(s[18]) {
        Some(
            DateTime {
                year: (digit_val(s[0]) * 1000 + digit_val(s[1]) * 100 + digit_val(s[2]) * 10
                    + digit_val(s[3])) as u16,
                month: (digit_val(s[5]) * 10 + digit_val(s[6])) as u8,
                day: (digit_val(s[8]) * 10 + digit_val(s[9])) as u8,
                hour: (digit_val(s[11]) * 10 + digit_val(s[12])) as u8,
                minute: (digit_val(s[14]) * 10 + digit_val(s[15])) as u8,
                second: (digit_val(s[17]) * 10 + digit_val(s[18])) as u8,
            },
        )
    } else {
        None
    }
}

fn chars_eq_str(v: &Vec<char>, s: &str) -> (r: bool)
    ensures
        r == (v@ == s@),
{
    let sv = str_to_chars(s);
    if v.len() != sv.len() {
        return false;
    }
    let mut i: usize = 0;
    while i < v.len()
        invariant
            i <= v@.len(),
            v@.len() == sv@.len(),
            sv@ == s@,
            forall|k: int| 0 <= k < i ==> v@[k] == s@[k],
        decreases v@.len() - i,
    {
        if v[i] != sv[i] {
            return false;
        }
        i += 1;
    }
    proof {
        assert(v@ =~= s@);
    }
    true
}

fn genre_from_chars(v: &Vec<char>) -> (r: Option<Genre>)
    ensures
        r == spec_genre_of(v@),
{
    if chars_eq_str(v, "ROLE_PLAYING") {
        Some(Genre::RolePlaying)
    } else if chars_eq_str(v, "STRATEGY") {
        Some(Genre::Strategy)
    } else if chars_eq_str(v, "SHOOTER") {
        Some(Genre::Shooter)
    } else {
        None
    }
}

fn date_from_chars(v: &Vec<char>) -> (r: Option<DateTime>)
    ensures
        r == spec_date_of(v@),
{
    if v.len() != 19 {
        return None;
    }
    if !(is_digit_exec(v[0]) && is_digit_exec(v[1]) && is_digit_exec(v[2]) && is_digit_exec(v[3])
        && v[4] == '-' && is_digit_exec(v[5]) && is_digit_exec(v[6]) && v[7] == '-' && is_digit_exec(
        v[8],
    ) && is_digit_exec(v[9]) && v[10] == 'T' && is_digit_exec(v[11]) && is_digit_exec(v[12]) && v[13]
        == ':' && is_digit_exec(v[14]) && is_digit_exec(v[15]) && v[16] == ':' && is_digit_exec(
        v[17],
    ) && is_digit_exec(v[18])) {
        return None;
    }
    let year: u16 = (digit_val_exec(v[0]) as u16) * 1000 + (digit_val_exec(v[1]) as u16) * 100 + (
    digit_val_exec(v[2]) as u16) * 10 + (digit_val_exec(v[3]) as u16);
    let month: u8 = digit_val_exec(v[5]) * 10 + digit_val_exec(v[6]);
    let day: u8 = digit_val_exec(v[8]) * 10 + digit_val_exec(v[9]);
    let hour: u8 = digit_val_exec(v[11]) * 10 + digit_val_exec(v[12]);
    let minute: u8 = digit_val_exec(v[14]) * 10 + digit_val_exec(v[15]);
    let second: u8 = digit_val_exec(v[17]) * 10 + digit_val_exec(v[18]);
    Some(DateTime { year, month, day, hour, minute, second })
}

/// What has been collected of a record while its members are read.
#[verifier::ext_equal]
pub ghost struct PartialGameView {
    pub id: Option<u64>,
    pub title: Option<Seq<char>>,
    pub rating: Option<u8>,
    pub genre: Option<Genre>,
    pub description: Option<Option<Seq<char>>>,
    pub release_date: Option<DateTime>,
}

pub open spec fn empty_partial() -> PartialGameView {
    PartialGameView {
        id: None,
        title: None,
        rating: None,
        genre: None,
        description: None,
        release_date: None,
    }
}

/// Executable twin of `PartialGameView`.
pub struct PartialGame {
    pub id: Option<u64>,
    pub title: Option<Vec<char>>,
    pub rating: Option<u8>,
    pub genre: Option<Genre>,
    pub description: Option<Option<Vec<char>>>,
    pub release_date: Option<DateTime>,
}

impl View for PartialGame {
    type V = PartialGameView;

    open spec fn view(&self) -> PartialGameView {
        PartialGameView {
            id: self.id,
            title: match self.title {
                Some(t) => Some(t@),
                None => None,
            },
            rating: self.rating,
            genre: self.genre,
            description: match self.description {
                Some(Some(d)) => Some(Some(d@)),
                Some(None) => Some(None),
                None => None,
            },
            release_date: self.release_date,
        }
    }
}

/// One member's value, parsed according to its key and recorded in the
/// partial record; a key seen twice, or an unknown key, is an error.
pub open spec fn spec_parse_member_value(
    s: Seq<char>,
    i: int,
    key: Seq<char>,
    acc: PartialGameView,
) -> Option<(PartialGameView, int)> {
    if key == "id"@ {
        if acc.id is Some {
            None
        } else {
            match spec_parse_u64(s, i) {
                Some((v, j)) => Some((PartialGameView { id: Some(v), ..acc }, j)),
                None => None,
            }
        }
    } else if key == "title"@ {
        if acc.title is Some {
            None
        } else {
            match spec_parse_string(s, i) {
                Some((v, j)) => Some((PartialGameView { title: Some(v), ..acc }, j)),
                None => None,
            }
        }
    } else if key == "rating"@ {
        if acc.rating is Some {
            None
        } else {
            match spec_parse_u64(s, i) {
                Some((v, j)) => if v <= 255 {
                    Some((PartialGameView { rating: Some(v as u8), ..acc }, j))
                } else {
                    None
                },
                None => None,
            }
        }
    } else if key == "genre"@ {
        if acc.genre is Some {
            None
        } else {
            match spec_parse_string(s, i) {
                Some((v, j)) => match spec_genre_of(v) {
                    Some(g) => Some((PartialGameView { genre: Some(g), ..acc }, j)),
                    None => None,
                },
                None => None,
            }
        }
    } else if key == "description"@ {
        if acc.description is Some {
            None
        } else if i + 4 <= s.len() && s.subrange(i, i + 4) == "null"@ {
            Some((PartialGameView { description: Some(None), ..acc }, i + 4))
        } else {
            match spec_parse_string(s, i) {
                Some((v, j)) => Some((PartialGameView { description: Some(Some(v)), ..acc }, j)),
                None => None,
            }
        }
    } else if key == "releaseDate"@ {
        if acc.release_date is Some {
            None
        } else {
            match spec_parse_string(s, i) {
                Some((v, j)) => match spec_date_of(v) {
                    Some(d) => Some((PartialGameView { release_date: Some(d), ..acc }, j)),
                    None => None,
                },
                None => None,
            }
        }
    } else {
        None
    }
}

/// The members of the record object from position `i` (just after the
/// opening brace or a comma) up to and past the closing brace.
pub open spec fn spec_parse_members(s: Seq<char>, i: int, acc: PartialGameView) -> Option<
    (PartialGameView, int),
>
    decreases s.len() - i,
{
    let i0 = spec_skip_ws(s, i);
    match spec_parse_string(s, i0) {
        None => None,
        Some((key, i1)) => {
            let i2 = spec_skip_ws(s, i1);
            if !(0 <= i2 < s.len() && s[i2] == ':') {
                None
            } else {
                let i3 = spec_skip_ws(s, i2 + 1);
                match spec_parse_member_value(s, i3, key, acc) {
                    None => None,
                    Some((acc2, i4)) => {
                        let i5 = spec_skip_ws(s, i4);
                        if 0 <= i5 < s.len() && s[i5] == ',' {
                            if i < i5 + 1 {
                                spec_parse_members(s, i5 + 1, acc2)
                            } else {
                                None
                            }
                        } else if 0 <= i5 < s.len() && s[i5] == '}' {
                            Some((acc2, i5 + 1))
                        } else {
                            None
                        }
                    },
                }
            }
        },
    }
}

/// A finished record: the required members must all be there, an absent
/// description means none.
pub open spec fn finish_partial(acc: PartialGameView) -> Option<GameView> {
    match (acc.id, acc.title, acc.rating, acc.genre, acc.release_date) {
        (Some(id), Some(title), Some(rating), Some(genre), Some(date)) => Some(
            GameView {
                id,
                title,
                rating,
                genre,
                description: match acc.description {
                    Some(d) => d,
                    None => None,
                },
                release_date: date,
            },
        ),
        _ => None,
    }
}

/// The record a whole JSON text carries: one object, surrounded only by
/// whitespace, with the wire schema's members in any order.
pub open spec fn spec_parse_game(s: Seq<char>) -> Option<GameView> {
    let i0 = spec_skip_ws(s, 0);
    if !(0 <= i0 < s.len() && s[i0] == '{') {
        None
    } else {
        let i1 = spec_skip_ws(s, i0 + 1);
        let parsed = if 0 <= i1 < s.len() && s[i1] == '}' {
            Some((empty_partial(), i1 + 1))
        } else {
            spec_parse_members(s, i1, empty_partial())
        };
        match parsed {
            None => None,
            Some((acc, j)) => {
                if spec_skip_ws(s, j) == s.len() {
                    finish_partial(acc)
                } else {
                    None
                }
            },
        }
    }
}

/// The decoding verdict on a JSON text: parse, then validate.
pub open spec fn spec_decode_game(s: Seq<char>) -> Result<GameView, DecodeError> {
    match spec_parse_game(s) {
        None => Err(DecodeError::Malformed),
        Some(g) => match spec_validate(g) {
            Some(ValidateError::RatingOutOfRange) => Err(DecodeError::RatingOutOfRange),
            Some(ValidateError::InvalidDate) => Err(DecodeError::InvalidDate),
            None => Ok(g),
        },
    }
}

fn has_null_at(s: &Vec<char>, i: usize) -> (r: bool)
    requires
        i <= s@.len(),
    ensures
        r == (i + 4 <= s@.len() && s@.subrange(i as int, i + 4 as int) == "null"@),
{
    proof {
        reveal_strlit("null");
    }
    if s.len() < 4 || i > s.len() - 4 {
        return false;
    }
    let r = s[i] == 'n' && s[i + 1] == 'u' && s[i + 2] == 'l' && s[i + 3] == 'l';
    proof {
        let sub = s@.subrange(i as int, i + 4 as int);
        assert(sub.len() == 4);
        assert(sub[0] == s@[i as int] && sub[1] == s@[i + 1 as int] && sub[2] == s@[i + 2 as int]
            && sub[3] == s@[i + 3 as int]);
        if r {
            assert(sub =~= "null"@);
        } else {
            assert(sub != "null"@);
        }
    }
    r
}

fn parse_member_value(s: &Vec<char>, i: usize, key: &Vec<char>, acc: PartialGame) -> (r: Option<
    (PartialGame, usize),
>)
    requires
        i <= s@.len(),
    ensures
        ({
            let sp = spec_parse_member_value(s@, i as int, key@, acc@);
            match r {
                Some(p) => sp == Some((p.0@, p.1 as int)) && i < p.1 <= s@.len(),
                None => sp is None,
            }
        }),
{
    if chars_eq_str(key, "id") {
        if acc.id.is_some() {
            return None;
        }
        match parse_u64(s, i) {
            Some((v, j)) => Some((PartialGame { id: Some(v), ..acc }, j)),
            None => None,
        }
    } else if chars_eq_str(key, "title") {
        if acc.title.is_some() {
            return None;
        }
        match parse_string(s, i) {
            Some((v, j)) => Some((PartialGame { title: Some(v), ..acc }, j)),
            None => None,
        }
    } else if chars_eq_str(key, "rating") {
        if acc.rating.is_some() {
            return None;
        }
        match parse_u64(s, i) {
            Some((v, j)) => if v <= 255 {
                Some((PartialGame { rating: Some(v as u8), ..acc }, j))
            } else {
                None
            },
            None => None,
        }
    } else if chars_eq_str(key, "genre") {
        if acc.genre.is_some() {
            return None;
        }
        match parse_string(s, i) {
            Some((v, j)) => match genre_from_chars(&v) {
                Some(g) => Some((PartialGame { genre: Some(g), ..acc }, j)),
                None => None,
            },
            None => None,
        }
    } else if chars_eq_str(key, "description") {
        if acc.description.is_some() {
            return None;
        }
        if has_null_at(s, i) {
            proof {
                vstd::std_specs::vec::axiom_spec_len(s);
            }
            return Some((PartialGame { description: Some(None), ..acc }, i + 4));
        }
        match parse_string(s, i) {
            Some((v, j)) => Some((PartialGame { description: Some(Some(v)), ..acc }, j)),
            None => None,
        }
    } else if chars_eq_str(key, "releaseDate") {
        if acc.release_date.is_some() {
            return None;
        }
        match parse_string(s, i) {
            Some((v, j)) => match date_from_chars(&v) {
                Some(d) => Some((PartialGame { release_date: Some(d), ..acc }, j)),
                None => None,
            },
            None => None,
        }
    } else {
        None
    }
}

fn parse_members(s: &Vec<char>, i: usize, acc: PartialGame) -> (r: Option<(PartialGame, usize)>)
    requires
        i <= s@.len(),
    ensures
        ({
            let sp = spec_parse_members(s@, i as int, acc@);
            match r {
                Some(p) => sp == Some((p.0@, p.1 as int)) && p.1 <= s@.len(),
                None => sp is None,
            }
        }),
    decreases s@.len() - i,
{
    let i0 = skip_ws(s, i);
    match parse_string(s, i0) {
        None => None,
        Some((key, i1)) => {
            let i2 = skip_ws(s, i1);
            if i2 >= s.len() || s[i2] != ':' {
                return None;
            }
            let i3 = skip_ws(s, i2 + 1);
            match parse_member_value(s, i3, &key, acc) {
                None => None,
                Some((acc2, i4)) => {
                    let i5 = skip_ws(s, i4);
                    if i5 < s.len() && s[i5] == ',' {
                        parse_members(s, i5 + 1, acc2)
                    } else if i5 < s.len() && s[i5] == '}' {
                        Some((acc2, i5 + 1))
                    } else {
                        None
                    }
                },
            }
        },
    }
}

/// Decode one record from JSON text; the text must hold exactly one
/// well-formed record, which must then pass validation.
pub fn game_from_json(s: &str) -> (r: Result<Game, DecodeError>)
    ensures
        match r {
            Ok(g) => spec_decode_game(s@) == Ok::<GameView, DecodeError>(g@),
            Err(e) => spec_decode_game(s@) == Err::<GameView, DecodeError>(e),
        },
{
    let chars = str_to_chars(s);
    match parse_game_chars(&chars) {
        None => Err(DecodeError::Malformed),
        Some(g) => match crate::validators::validate_game(&g) {
            Err(ValidateError::RatingOutOfRange) => Err(DecodeError::RatingOutOfRange),
            Err(ValidateError::InvalidDate) => Err(DecodeError::InvalidDate),
            Ok(_) => Ok(g),
        },
    }
}

fn parse_game_chars(s: &Vec<char>) -> (r: Option<Game>)
    ensures
        ({
            let sp = spec_parse_game(s@);
            match r {
                Some(g) => sp == Some(g@),
                None => sp is None,
            }
        }),
{
    let i0 = skip_ws(s, 0);
    if i0 >= s.len() || s[i0] != '{' {
        return None;
    }
    let i1 = skip_ws(s, i0 + 1);
    let empty_acc = PartialGame {
        id: None,
        title: None,
        rating: None,
        genre: None,
        description: None,
        release_date: None,
    };
    proof {
        assert(empty_acc@ =~= empty_partial());
    }
    let parsed: Option<(PartialGame, usize)> = if i1 < s.len() && s[i1] == '}' {
        Some((empty_acc, i1 + 1))
    } else {
        parse_members(s, i1, empty_acc)
    };
    match parsed {
        None => None,
        Some((acc, j)) => {
            if skip_ws(s, j) != s.len() {
                return None;
            }
            match (acc.id, acc.title, acc.rating, acc.genre, acc.release_date) {
                (Some(id), Some(title), Some(rating), Some(genre), Some(date)) => {
                    let description: Option<String> = match acc.description {
                        Some(Some(d)) => Some(chars_to_string(&d)),
                        _ => None,
                    };
                    let g = Game {
                        id,
                        title: chars_to_string(&title),
                        rating,
                        genre,
                        description,
                        release_date: date,
                    };
                    proof {
                        assert(finish_partial(
                            PartialGameView {
                                id: Some(id),
                                title: Some(title@),
                                rating: Some(rating),
                                genre: Some(genre),
                                description: match acc.description {
                                    Some(Some(d)) => Some(Some(d@)),
                                    Some(None) => Some(None),
                                    None => None,
                                },
                                release_date: Some(date),
                            },
                        ) == Some(g@));
                    }
                    Some(g)
                },
                _ => None,
            }
        },
    }
}

/// Encode one genre as its quoted wire token.
pub fn genre_to_json(g: &Genre) -> (r: String)
    ensures
        r@ == seq!['"'] + genre_chars(*g) + seq!['"'],
{
    let mut out: Vec<char> = Vec::new();
    out.push('"');
    push_genre_chars(g, &mut out);
    out.push('"');
    proof {
        assert(out@ =~= seq!['"'] + genre_chars(*g) + seq!['"']);
    }
    chars_to_string(&out)
}

/// The genre a whole JSON text names: one quoted token, surrounded only
/// by whitespace.
pub open spec fn spec_decode_genre(s: Seq<char>) -> Option<Genre> {
    let i0 = spec_skip_ws(s, 0);
    match spec_parse_string(s, i0) {
        None => None,
        Some((v, j)) => if spec_skip_ws(s, j) == s.len() {
            spec_genre_of(v)
        } else {
            None
        },
    }
}

/// Decode one genre from JSON text.
pub fn genre_from_json(s: &str) -> (r: Result<Genre, DecodeError>)
    ensures
        match r {
            Ok(g) => spec_decode_genre(s@) == Some(g),
            Err(e) => spec_decode_genre(s@) is None && e == DecodeError::Malformed,
        },
{
    let chars = str_to_chars(s);
    let i0 = skip_ws(&chars, 0);
    match parse_string(&chars, i0) {
        None => Err(DecodeError::Malformed),
        Some((v, j)) => {
            if skip_ws(&chars, j) != chars.len() {
                return Err(DecodeError::Malformed);
            }
            match genre_from_chars(&v) {
                Some(g) => Ok(g),
                None => Err(DecodeError::Malformed),
            }
        },
    }
}

} // verus!
