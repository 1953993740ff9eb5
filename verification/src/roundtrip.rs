//! The round trip: the canonical encoding of a record parses back to
//! exactly that record, so encoding then decoding a valid record is
//! the identity, and an out-of-range rating is refused on both sides.

use vstd::prelude::*;

use crate::codec::{
    date_fits, digit_char, digit_run_end, digit_val, digits_value, empty_partial, escape_char,
    finish_partial, genre_chars, hex_char, hex_val, is_digit, is_hex, plain_char, spec_date_chars,
    spec_date_of, spec_decode_game, spec_digits, spec_escape, spec_game_chars, spec_genre_of,
    spec_json_string, spec_parse_escape, spec_parse_game, spec_parse_member_value,
    spec_parse_members, spec_parse_string, spec_parse_string_rest, spec_parse_u64, spec_skip_ws,
    DecodeError, PartialGameView,
};
use crate::schema::{DateTime, GameView, Genre};
use crate::validators::valid_game;

verus! {

proof fn lemma_digits_shape(n: int)
    requires
        n >= 0,
    ensures
        spec_digits(n).len() >= 1,
        forall|k: int| 0 <= k < spec_digits(n).len() ==> is_digit(#[trigger] spec_digits(n)[k]),
        n > 0 ==> spec_digits(n)[0] != '0',
        n == 0 ==> spec_digits(n) == seq!['0'],
    decreases n,
{
    if n < 10 {
        assert(is_digit(digit_char(n)));
        if n == 0 {
            assert(spec_digits(0) =~= seq!['0']);
        }
    } else {
        lemma_digits_shape(n / 10);
        assert(is_digit(digit_char(n % 10)));
        assert(spec_digits(n)[0] == spec_digits(n / 10)[0]);
    }
}

proof fn lemma_digits_value_of(s: Seq<char>, i: int, n: int)
    requires
        n >= 0,
        0 <= i,
        i + spec_digits(n).len() <= s.len(),
        s.subrange(i, i + spec_digits(n).len()) == spec_digits(n),
    ensures
        digits_value(s, i, i + spec_digits(n).len()) == n,
    decreases n,
{
    let d = spec_digits(n);
    assert forall|k: int| 0 <= k < d.len() implies s[i + k] == d[k] by {
        assert(s.subrange(i, i + d.len())[k] == d[k]);
    }
    if n < 10 {
        assert(s[i] == digit_char(n)) by {
            assert(s.subrange(i, i + d.len())[0] == d[0]);
        }
        assert(digits_value(s, i, i + 1) == digits_value(s, i, i) * 10 + digit_val(s[i]));
        assert(digit_val(digit_char(n)) == n);
    } else {
        let dp = spec_digits(n / 10);
        assert(d == dp.push(digit_char(n % 10)));
        assert(s.subrange(i, i + dp.len()) =~= dp);
        lemma_digits_value_of(s, i, n / 10);
        assert(s[i + d.len() - 1] == digit_char(n % 10)) by {
            assert(s.subrange(i, i + d.len())[d.len() - 1] == d[d.len() - 1]);
        }
        assert(digit_val(digit_char(n % 10)) == n % 10);
        assert(digits_value(s, i, i + d.len()) == digits_value(s, i, i + d.len() - 1) * 10
            + digit_val(s[i + d.len() - 1]));
        assert(n / 10 * 10 + n % 10 == n);
    }
}

proof fn lemma_digit_run_exact(s: Seq<char>, i: int, j: int)
    requires
        0 <= i <= j <= s.len(),
        forall|k: int| i <= k < j ==> is_digit(#[trigger] s[k]),
        j == s.len() || !is_digit(s[j]),
    ensures
        digit_run_end(s, i) == j,
    decreases j - i,
{
    if i < j {
        lemma_digit_run_exact(s, i + 1, j);
    }
}

proof fn lemma_parse_u64_at(s: Seq<char>, i: int, n: u64)
    requires
        0 <= i,
        i + spec_digits(n as int).len() <= s.len(),
        s.subrange(i, i + spec_digits(n as int).len()) == spec_digits(n as int),
        i + spec_digits(n as int).len() == s.len() || !is_digit(s[i + spec_digits(n as int).len()]),
    ensures
        spec_parse_u64(s, i) == Some((n, i + spec_digits(n as int).len())),
{
    let d = spec_digits(n as int);
    lemma_digits_shape(n as int);
    assert forall|k: int| i <= k < i + d.len() implies is_digit(#[trigger] s[k]) by {
        assert(s.subrange(i, i + d.len())[k - i] == d[k - i]);
    }
    lemma_digit_run_exact(s, i, i + d.len());
    lemma_digits_value_of(s, i, n as int);
    assert(s[i] == d[0]);
    if n == 0 {
        assert(d.len() == 1);
    } else {
        assert(s[i] != '0');
    }
}

proof fn lemma_hex_of_hex_char(d: int)
    requires
        0 <= d < 16,
    ensures
        is_hex(hex_char(d)),
        hex_val(hex_char(d)) == d,
{
}

proof fn lemma_escape_plain(t: Seq<char>)
    requires
        forall|k: int| 0 <= k < t.len() ==> plain_char(#[trigger] t[k]),
    ensures
        spec_escape(t) == t,
    decreases t.len(),
{
    if t.len() > 0 {
        assert(plain_char(t[0]));
        assert(escape_char(t[0]) =~= seq![t[0]]);
        lemma_escape_plain(t.drop_first());
        assert(spec_escape(t) =~= t);
    }
}

proof fn lemma_parse_string_rest_of(s: Seq<char>, i: int, t: Seq<char>)
    requires
        0 <= i,
        i + spec_escape(t).len() + 1 <= s.len(),
        s.subrange(i, i + spec_escape(t).len()) == spec_escape(t),
        s[i + spec_escape(t).len()] == '"',
    ensures
        spec_parse_string_rest(s, i) == Some((t, i + spec_escape(t).len() + 1)),
    decreases t.len(),
{
    if t.len() == 0 {
        assert(spec_escape(t).len() == 0);
        assert(s[i] == '"');
        assert(spec_parse_string_rest(s, i) == Some((Seq::<char>::empty(), i + 1)));
        assert(t =~= Seq::<char>::empty());
    } else {
        let c = t[0];
        let rest = t.drop_first();
        let ec = escape_char(c);
        let erest = spec_escape(rest);
        assert(spec_escape(t) == ec + erest);
        let elen = spec_escape(t).len();
        assert(elen == ec.len() + erest.len());
        assert forall|k: int| 0 <= k < elen implies s[i + k] == spec_escape(t)[k] by {
            assert(s.subrange(i, i + elen)[k] == spec_escape(t)[k]);
        }
        assert forall|k: int| 0 <= k < ec.len() implies s[i + k] == ec[k] by {
            assert(spec_escape(t)[k] == ec[k]);
        }
        assert(s.subrange(i + ec.len(), i + ec.len() + erest.len()) =~= erest) by {
            assert forall|k: int| 0 <= k < erest.len() implies s.subrange(
                i + ec.len(),
                i + ec.len() + erest.len(),
            )[k] == erest[k] by {
                assert(s[i + ec.len() + k] == spec_escape(t)[ec.len() + k]);
                assert(spec_escape(t)[ec.len() + k] == erest[k]);
            }
        }
        lemma_parse_string_rest_of(s, i + ec.len(), rest);
        let end = i + elen + 1;
        assert(seq![c] + rest =~= t);
        if c == '"' {
            assert(s[i] == '\\' && s[i + 1] == '"');
            assert(spec_parse_escape(s, i + 1) == Some(('"', i + 2)));
        } else if c == '\\' {
            assert(s[i] == '\\' && s[i + 1] == '\\');
            assert(spec_parse_escape(s, i + 1) == Some(('\\', i + 2)));
        } else if c == '\u{8}' {
            assert(s[i] == '\\' && s[i + 1] == 'b');
            assert(spec_parse_escape(s, i + 1) == Some(('\u{8}', i + 2)));
        } else if c == '\t' {
            assert(s[i] == '\\' && s[i + 1] == 't');
            assert(spec_parse_escape(s, i + 1) == Some(('\t', i + 2)));
        } else if c == '\n' {
            assert(s[i] == '\\' && s[i + 1] == 'n');
            assert(spec_parse_escape(s, i + 1) == Some(('\n', i + 2)));
        } else if c == '\u{c}' {
            assert(s[i] == '\\' && s[i + 1] == 'f');
            assert(spec_parse_escape(s, i + 1) == Some(('\u{c}', i + 2)));
        } else if c == '\r' {
            assert(s[i] == '\\' && s[i + 1] == 'r');
            assert(spec_parse_escape(s, i + 1) == Some(('\r', i + 2)));
        } else if (c as u32) < 32 {
            let hi = (c as u32) as int / 16;
            let lo = (c as u32) as int % 16;
            assert(s[i] == '\\' && s[i + 1] == 'u' && s[i + 2] == '0' && s[i + 3] == '0' && s[i + 4]
                == hex_char(hi) && s[i + 5] == hex_char(lo));
            lemma_hex_of_hex_char(hi);
            lemma_hex_of_hex_char(lo);
            assert(is_digit('0')) by {
                assert(('0' as u32) == 48);
            }
            assert(digit_val('0') == 0);
            assert(hex_val('0') == 0);
            let code = hex_val(s[i + 2]) * 4096 + hex_val(s[i + 3]) * 256 + hex_val(s[i + 4]) * 16
                + hex_val(s[i + 5]);
            assert(code == hi * 16 + lo);
            assert(code == c as u32);
            assert(!(0xD800 <= code < 0xE000));
            vstd::utf8::char_u32_cast(c, code as u32);
            assert((code as u32) as char == c);
            assert(spec_parse_escape(s, i + 1) == Some((c, i + 6)));
        } else {
            assert(plain_char(c));
            assert(ec =~= seq![c]);
            assert(s[i] == c);
        }
    }
}

proof fn lemma_parse_json_string_at(s: Seq<char>, i: int, t: Seq<char>)
    requires
        0 <= i,
        i + spec_json_string(t).len() <= s.len(),
        s.subrange(i, i + spec_json_string(t).len()) == spec_json_string(t),
    ensures
        spec_parse_string(s, i) == Some((t, i + spec_json_string(t).len())),
{
    let q = spec_json_string(t);
    let elen = spec_escape(t).len() as int;
    assert(q.len() == elen + 2);
    assert forall|k: int| 0 <= k < q.len() implies s[i + k] == q[k] by {
        assert(s.subrange(i, i + q.len())[k] == q[k]);
    }
    assert(s[i] == '"') by {
        assert(s.subrange(i, i + q.len())[0] == q[0]);
    }
    assert(s[i + 1 + elen] == q[1 + elen]);
    assert(q[1 + elen] == '"');
    assert(s.subrange(i + 1, i + 1 + elen) =~= spec_escape(t)) by {
        assert forall|k: int| 0 <= k < elen implies s.subrange(i + 1, i + 1 + elen)[k]
            == spec_escape(t)[k] by {
            assert(s[i + 1 + k] == q[1 + k]);
            assert(q[1 + k] == spec_escape(t)[k]);
        }
    }
    lemma_parse_string_rest_of(s, i + 1, t);
}

proof fn lemma_plain_json_string(t: Seq<char>)
    requires
        forall|k: int| 0 <= k < t.len() ==> plain_char(#[trigger] t[k]),
    ensures
        spec_json_string(t) == seq!['"'] + t + seq!['"'],
        spec_json_string(t).len() == t.len() + 2,
        spec_escape(t) == t,
{
    lemma_escape_plain(t);
}

proof fn lemma_genre_token(g: Genre)
    ensures
        forall|k: int| 0 <= k < genre_chars(g).len() ==> plain_char(#[trigger] genre_chars(g)[k]),
        spec_escape(genre_chars(g)) == genre_chars(g),
        spec_genre_of(genre_chars(g)) == Some(g),
{
    reveal_strlit("ROLE_PLAYING");
    reveal_strlit("STRATEGY");
    reveal_strlit("SHOOTER");
    assert("ROLE_PLAYING"@.len() == 12);
    assert("STRATEGY"@.len() == 8);
    assert("SHOOTER"@.len() == 7);
    let t = genre_chars(g);
    assert forall|k: int| 0 <= k < t.len() implies plain_char(#[trigger] t[k]) by {
        match g {
            Genre::RolePlaying => {
                assert(plain_char(t[k]));
            },
            Genre::Strategy => {
                assert(plain_char(t[k]));
            },
            Genre::Shooter => {
                assert(plain_char(t[k]));
            },
        }
    }
    lemma_escape_plain(t);
}

proof fn lemma_date_chars(d: DateTime)
    requires
        date_fits(d),
    ensures
        spec_date_chars(d).len() == 19,
        forall|k: int|
            0 <= k < spec_date_chars(d).len() ==> plain_char(#[trigger] spec_date_chars(d)[k]),
        spec_escape(spec_date_chars(d)) == spec_date_chars(d),
        spec_date_of(spec_date_chars(d)) == Some(d),
{
    let y = d.year as int;
    let mo = d.month as int;
    let da = d.day as int;
    let h = d.hour as int;
    let mi = d.minute as int;
    let se = d.second as int;
    let s = spec_date_chars(d);
    let explicit = seq![
        digit_char(y / 1000),
        digit_char(y / 100 % 10),
        digit_char(y / 10 % 10),
        digit_char(y % 10),
        '-',
        digit_char(mo / 10),
        digit_char(mo % 10),
        '-',
        digit_char(da / 10),
        digit_char(da % 10),
        'T',
        digit_char(h / 10),
        digit_char(h % 10),
        ':',
        digit_char(mi / 10),
        digit_char(mi % 10),
        ':',
        digit_char(se / 10),
        digit_char(se % 10),
    ];
    assert(s =~= explicit);
    assert forall|k: int| 0 <= k < s.len() implies plain_char(#[trigger] s[k]) by {
        assert(s[k] == explicit[k]);
        assert(plain_char(explicit[k]));
    }
    lemma_escape_plain(s);
    assert(y / 1000 * 1000 + y / 100 % 10 * 100 + y / 10 % 10 * 10 + y % 10 == y) by {
        assert(y / 10 * 10 + y % 10 == y);
        assert(y / 100 * 10 + y / 10 % 10 == y / 10) by {
            assert(y / 10 / 10 == y / 100);
        }
        assert(y / 1000 * 10 + y / 100 % 10 == y / 100) by {
            assert(y / 100 / 10 == y / 1000);
        }
    }
    assert(mo / 10 * 10 + mo % 10 == mo);
    assert(da / 10 * 10 + da % 10 == da);
    assert(h / 10 * 10 + h % 10 == h);
    assert(mi / 10 * 10 + mi % 10 == mi);
    assert(se / 10 * 10 + se % 10 == se);
    assert(spec_date_of(s) == Some(d)) by {
        assert(is_digit(s[0]) && is_digit(s[1]) && is_digit(s[2]) && is_digit(s[3]));
        assert(s[4] == '-' && s[7] == '-' && s[10] == 'T' && s[13] == ':' && s[16] == ':');
        assert(is_digit(s[5]) && is_digit(s[6]) && is_digit(s[8]) && is_digit(s[9]));
        assert(is_digit(s[11]) && is_digit(s[12]) && is_digit(s[14]) && is_digit(s[15]));
        assert(is_digit(s[17]) && is_digit(s[18]));
        assert(digit_val(s[0]) * 1000 + digit_val(s[1]) * 100 + digit_val(s[2]) * 10 + digit_val(
            s[3],
        ) == y);
        assert(digit_val(s[5]) * 10 + digit_val(s[6]) == mo);
        assert(digit_val(s[8]) * 10 + digit_val(s[9]) == da);
        assert(digit_val(s[11]) * 10 + digit_val(s[12]) == h);
        assert(digit_val(s[14]) * 10 + digit_val(s[15]) == mi);
        assert(digit_val(s[17]) * 10 + digit_val(s[18]) == se);
    }
}

proof fn lemma_peel_concat(a: Seq<char>, b: Seq<char>, s: Seq<char>, i: int)
    requires
        0 <= i,
        i + a.len() + b.len() <= s.len(),
        s.subrange(i, i + a.len() + b.len()) == a + b,
    ensures
        s.subrange(i, i + a.len()) == a,
        s.subrange(i + a.len(), i + a.len() + b.len()) == b,
{
    let n = a.len() as int;
    let m = b.len() as int;
    assert forall|k: int| 0 <= k < n implies s.subrange(i, i + n)[k] == a[k] by {
        assert(s.subrange(i, i + n + m)[k] == (a + b)[k]);
    }
    assert(s.subrange(i, i + n) =~= a);
    assert forall|k: int| 0 <= k < m implies s.subrange(i + n, i + n + m)[k] == b[k] by {
        assert(s.subrange(i, i + n + m)[n + k] == (a + b)[n + k]);
    }
    assert(s.subrange(i + n, i + n + m) =~= b);
}


/// Where each piece of the canonical encoding lies.
#[verifier::rlimit(100)]
#[verifier::spinoff_prover]
proof fn lemma_encoding_layout(g: GameView)
    requires
        date_fits(g.release_date),
    ensures
        ({
            let s = spec_game_chars(g);
            let n1 = spec_digits(g.id as int).len() as int;
            let n2 = spec_json_string(g.title).len() as int;
            let n3 = spec_digits(g.rating as int).len() as int;
            let ntok = genre_chars(g.genre).len() as int;
            let q_desc = match g.description {
                Some(dd) => spec_json_string(dd),
                None => "null"@,
            };
            let n5 = q_desc.len() as int;
            let c1 = 6 + n1;
            let v2 = c1 + 9;
            let c2 = v2 + n2;
            let v3 = c2 + 10;
            let c3 = v3 + n3;
            let v4 = c3 + 9;
            let c4 = v4 + ntok + 2;
            let v5 = c4 + 15;
            let c5 = v5 + n5;
            let v6 = c5 + 15;
            let len = v6 + 22;
            &&& s.len() == len
            &&& s.subrange(0, 6) == "{\"id\":"@
            &&& s.subrange(6, c1) == spec_digits(g.id as int)
            &&& s.subrange(c1, c1 + 9) == ",\"title\":"@
            &&& s.subrange(v2, c2) == spec_json_string(g.title)
            &&& s.subrange(c2, c2 + 10) == ",\"rating\":"@
            &&& s.subrange(v3, c3) == spec_digits(g.rating as int)
            &&& s.subrange(c3, c3 + 10) == ",\"genre\":\""@
            &&& s.subrange(v4 + 1, v4 + 1 + ntok) == genre_chars(g.genre)
            &&& s.subrange(c4 - 1, c4 + 15) == "\",\"description\":"@
            &&& s.subrange(v5, c5) == q_desc
            &&& s.subrange(c5, c5 + 16) == ",\"releaseDate\":\""@
            &&& s.subrange(v6 + 1, v6 + 20) == spec_date_chars(g.release_date)
            &&& s.subrange(v6 + 20, len) == "\"}"@
        }),
{
    reveal_strlit("{\"id\":");
    reveal_strlit(",\"title\":");
    reveal_strlit(",\"rating\":");
    reveal_strlit(",\"genre\":\"");
    reveal_strlit("\",\"description\":");
    reveal_strlit(",\"releaseDate\":\"");
    reveal_strlit("\"}");
    reveal_strlit("null");
    let s = spec_game_chars(g);
    let p0 = "{\"id\":"@;
    let d_id = spec_digits(g.id as int);
    let p1 = ",\"title\":"@;
    let q_title = spec_json_string(g.title);
    let p2 = ",\"rating\":"@;
    let d_rat = spec_digits(g.rating as int);
    let p3 = ",\"genre\":\""@;
    let tok = genre_chars(g.genre);
    let p4 = "\",\"description\":"@;
    let q_desc = match g.description {
        Some(dd) => spec_json_string(dd),
        None => "null"@,
    };
    let p5 = ",\"releaseDate\":\""@;
    let dt = spec_date_chars(g.release_date);
    let p6 = "\"}"@;
    lemma_date_chars(g.release_date);
    let n1 = d_id.len() as int;
    let n2 = q_title.len() as int;
    let n3 = d_rat.len() as int;
    let ntok = tok.len() as int;
    let n5 = q_desc.len() as int;
    let c1 = 6 + n1;
    let v2 = c1 + 9;
    let c2 = v2 + n2;
    let v3 = c2 + 10;
    let c3 = v3 + n3;
    let v4 = c3 + 9;
    let c4 = v4 + ntok + 2;
    let v5 = c4 + 15;
    let c5 = v5 + n5;
    let v6 = c5 + 15;
    let len = v6 + 22;
    let s12 = p0 + d_id + p1 + q_title + p2 + d_rat + p3 + tok + p4 + q_desc + p5 + dt;
    let s11 = p0 + d_id + p1 + q_title + p2 + d_rat + p3 + tok + p4 + q_desc + p5;
    let s10 = p0 + d_id + p1 + q_title + p2 + d_rat + p3 + tok + p4 + q_desc;
    let s9 = p0 + d_id + p1 + q_title + p2 + d_rat + p3 + tok + p4;
    let s8 = p0 + d_id + p1 + q_title + p2 + d_rat + p3 + tok;
    let s7 = p0 + d_id + p1 + q_title + p2 + d_rat + p3;
    let s6 = p0 + d_id + p1 + q_title + p2 + d_rat;
    let s5 = p0 + d_id + p1 + q_title + p2;
    let s4 = p0 + d_id + p1 + q_title;
    let s3 = p0 + d_id + p1;
    let s2 = p0 + d_id;
    assert(s.len() == len);
    assert(s.subrange(0, len) =~= s);
    lemma_peel_concat(s12, p6, s, 0);
    lemma_peel_concat(s11, dt, s, 0);
    lemma_peel_concat(s10, p5, s, 0);
    lemma_peel_concat(s9, q_desc, s, 0);
    lemma_peel_concat(s8, p4, s, 0);
    lemma_peel_concat(s7, tok, s, 0);
    lemma_peel_concat(s6, p3, s, 0);
    lemma_peel_concat(s5, d_rat, s, 0);
    lemma_peel_concat(s4, p2, s, 0);
    lemma_peel_concat(s3, q_title, s, 0);
    lemma_peel_concat(s2, p1, s, 0);
    lemma_peel_concat(p0, d_id, s, 0);
}

/// One member step of the object parser, given the parses of its parts.
proof fn lemma_members_step(
    s: Seq<char>,
    i: int,
    key: Seq<char>,
    kend: int,
    acc: PartialGameView,
    acc2: PartialGameView,
    vend: int,
)
    requires
        0 <= i <= vend,
        spec_skip_ws(s, i) == i,
        spec_parse_string(s, i) == Some((key, kend)),
        spec_skip_ws(s, kend) == kend,
        0 <= kend < s.len(),
        s[kend] == ':',
        spec_skip_ws(s, kend + 1) == kend + 1,
        spec_parse_member_value(s, kend + 1, key, acc) == Some((acc2, vend)),
        spec_skip_ws(s, vend) == vend,
        0 <= vend < s.len(),
    ensures
        s[vend] == ',' ==> spec_parse_members(s, i, acc) == spec_parse_members(s, vend + 1, acc2),
        s[vend] == '}' ==> spec_parse_members(s, i, acc) == Some((acc2, vend + 1)),
{
}

proof fn lemma_member_value_id(s: Seq<char>, i: int, acc: PartialGameView, n: u64, j: int)
    requires
        acc.id is None,
        spec_parse_u64(s, i) == Some((n, j)),
    ensures
        spec_parse_member_value(s, i, "id"@, acc) == Some(
            (PartialGameView { id: Some(n), ..acc }, j),
        ),
{
}

proof fn lemma_member_value_title(s: Seq<char>, i: int, acc: PartialGameView, t: Seq<char>, j: int)
    requires
        acc.title is None,
        spec_parse_string(s, i) == Some((t, j)),
    ensures
        spec_parse_member_value(s, i, "title"@, acc) == Some(
            (PartialGameView { title: Some(t), ..acc }, j),
        ),
{
    reveal_strlit("id");
    reveal_strlit("title");
    assert("id"@.len() == 2 && "title"@.len() == 5);
}

proof fn lemma_member_value_rating(s: Seq<char>, i: int, acc: PartialGameView, n: u64, j: int)
    requires
        acc.rating is None,
        n <= 255,
        spec_parse_u64(s, i) == Some((n, j)),
    ensures
        spec_parse_member_value(s, i, "rating"@, acc) == Some(
            (PartialGameView { rating: Some(n as u8), ..acc }, j),
        ),
{
    reveal_strlit("id");
    reveal_strlit("title");
    reveal_strlit("rating");
    assert("id"@.len() == 2 && "title"@.len() == 5 && "rating"@.len() == 6);
}

proof fn lemma_member_value_genre(
    s: Seq<char>,
    i: int,
    acc: PartialGameView,
    t: Seq<char>,
    ge: Genre,
    j: int,
)
    requires
        acc.genre is None,
        spec_parse_string(s, i) == Some((t, j)),
        spec_genre_of(t) == Some(ge),
    ensures
        spec_parse_member_value(s, i, "genre"@, acc) == Some(
            (PartialGameView { genre: Some(ge), ..acc }, j),
        ),
{
    reveal_strlit("id");
    reveal_strlit("title");
    reveal_strlit("rating");
    reveal_strlit("genre");
    assert("id"@.len() == 2 && "title"@.len() == 5 && "rating"@.len() == 6 && "genre"@.len() == 5);
    assert("genre"@ != "title"@) by {
        assert("genre"@[0] == 'g' && "title"@[0] == 't');
    }
}

proof fn lemma_member_value_description_str(
    s: Seq<char>,
    i: int,
    acc: PartialGameView,
    t: Seq<char>,
    j: int,
)
    requires
        acc.description is None,
        !(i + 4 <= s.len() && s.subrange(i, i + 4) == "null"@),
        spec_parse_string(s, i) == Some((t, j)),
    ensures
        spec_parse_member_value(s, i, "description"@, acc) == Some(
            (PartialGameView { description: Some(Some(t)), ..acc }, j),
        ),
{
    reveal_strlit("id");
    reveal_strlit("title");
    reveal_strlit("rating");
    reveal_strlit("genre");
    reveal_strlit("description");
    assert("id"@.len() == 2 && "title"@.len() == 5 && "rating"@.len() == 6 && "genre"@.len() == 5
        && "description"@.len() == 11);
}

proof fn lemma_member_value_description_null(s: Seq<char>, i: int, acc: PartialGameView)
    requires
        acc.description is None,
        0 <= i,
        i + 4 <= s.len(),
        s.subrange(i, i + 4) == "null"@,
    ensures
        spec_parse_member_value(s, i, "description"@, acc) == Some(
            (PartialGameView { description: Some(None), ..acc }, i + 4),
        ),
{
    reveal_strlit("id");
    reveal_strlit("title");
    reveal_strlit("rating");
    reveal_strlit("genre");
    reveal_strlit("description");
    assert("id"@.len() == 2 && "title"@.len() == 5 && "rating"@.len() == 6 && "genre"@.len() == 5
        && "description"@.len() == 11);
}

proof fn lemma_member_value_release_date(
    s: Seq<char>,
    i: int,
    acc: PartialGameView,
    t: Seq<char>,
    d: DateTime,
    j: int,
)
    requires
        acc.release_date is None,
        spec_parse_string(s, i) == Some((t, j)),
        spec_date_of(t) == Some(d),
    ensures
        spec_parse_member_value(s, i, "releaseDate"@, acc) == Some(
            (PartialGameView { release_date: Some(d), ..acc }, j),
        ),
{
    reveal_strlit("id");
    reveal_strlit("title");
    reveal_strlit("rating");
    reveal_strlit("genre");
    reveal_strlit("description");
    reveal_strlit("releaseDate");
    assert("id"@.len() == 2 && "title"@.len() == 5 && "rating"@.len() == 6 && "genre"@.len() == 5
        && "description"@.len() == 11 && "releaseDate"@.len() == 11);
    assert("releaseDate"@ != "description"@) by {
        assert("releaseDate"@[0] == 'r' && "description"@[0] == 'd');
    }
}

/// The opening of the object up to the id value.
proof fn lemma_piece_id_key(s: Seq<char>, i: int)
    requires
        0 <= i,
        i + 6 <= s.len(),
        s.subrange(i, i + 6) == "{\"id\":"@,
    ensures
        s[i] == '{',
        s[i + 1] == '"',
        spec_parse_string(s, i + 1) == Some(("id"@, i + 5)),
        s[i + 5] == ':',
    {
    reveal_strlit("{\"id\":");
    reveal_strlit("id");
    let p = "{\"id\":"@;
    assert(s[i] == p[0] && s[i + 1] == p[1] && s[i + 4] == p[4] && s[i + 5] == p[5]) by {
        assert(s.subrange(i, i + 6)[0] == p[0] && s.subrange(i, i + 6)[1] == p[1] && s.subrange(
            i,
            i + 6,
        )[4] == p[4] && s.subrange(i, i + 6)[5] == p[5]);
    }
    assert forall|k: int| 0 <= k < "id"@.len() implies plain_char(#[trigger] "id"@[k]) by {
        assert(plain_char("id"@[k]));
    }
    assert(s.subrange(i + 2, i + 4) =~= "id"@) by {
        assert forall|k: int| 0 <= k < 2 implies s.subrange(i + 2, i + 4)[k] == "id"@[k] by {
            assert(s.subrange(i, i + 6)[2 + k] == p[2 + k]);
            assert(s.subrange(i + 2, i + 4)[k] == s[i + 2 + k]);
        }
    }
    lemma_quoted_region(s, i + 1, "id"@);
}

/// The region between the id value and the title value.
proof fn lemma_piece_title_key(s: Seq<char>, i: int)
    requires
        0 <= i,
        i + 9 <= s.len(),
        s.subrange(i, i + 9) == ",\"title\":"@,
    ensures
        s[i] == ',',
        s[i + 1] == '"',
        spec_parse_string(s, i + 1) == Some(("title"@, i + 8)),
        s[i + 8] == ':',
    {
    reveal_strlit(",\"title\":");
    reveal_strlit("title");
    let p = ",\"title\":"@;
    assert(s[i] == p[0] && s[i + 1] == p[1] && s[i + 7] == p[7] && s[i + 8] == p[8]) by {
        assert(s.subrange(i, i + 9)[0] == p[0] && s.subrange(i, i + 9)[1] == p[1] && s.subrange(
            i,
            i + 9,
        )[7] == p[7] && s.subrange(i, i + 9)[8] == p[8]);
    }
    assert forall|k: int| 0 <= k < "title"@.len() implies plain_char(#[trigger] "title"@[k]) by {
        assert(plain_char("title"@[k]));
    }
    assert(s.subrange(i + 2, i + 7) =~= "title"@) by {
        assert forall|k: int| 0 <= k < 5 implies s.subrange(i + 2, i + 7)[k] == "title"@[k] by {
            assert(s.subrange(i, i + 9)[2 + k] == p[2 + k]);
            assert(s.subrange(i + 2, i + 7)[k] == s[i + 2 + k]);
        }
    }
    lemma_quoted_region(s, i + 1, "title"@);
}

/// The region between the title value and the rating value.
proof fn lemma_piece_rating_key(s: Seq<char>, i: int)
    requires
        0 <= i,
        i + 10 <= s.len(),
        s.subrange(i, i + 10) == ",\"rating\":"@,
    ensures
        s[i] == ',',
        s[i + 1] == '"',
        spec_parse_string(s, i + 1) == Some(("rating"@, i + 9)),
        s[i + 9] == ':',
    {
    reveal_strlit(",\"rating\":");
    reveal_strlit("rating");
    let p = ",\"rating\":"@;
    assert(s[i] == p[0] && s[i + 1] == p[1] && s[i + 8] == p[8] && s[i + 9] == p[9]) by {
        assert(s.subrange(i, i + 10)[0] == p[0] && s.subrange(i, i + 10)[1] == p[1] && s.subrange(
            i,
            i + 10,
        )[8] == p[8] && s.subrange(i, i + 10)[9] == p[9]);
    }
    assert forall|k: int| 0 <= k < "rating"@.len() implies plain_char(#[trigger] "rating"@[k]) by {
        assert(plain_char("rating"@[k]));
    }
    assert(s.subrange(i + 2, i + 8) =~= "rating"@) by {
        assert forall|k: int| 0 <= k < 6 implies s.subrange(i + 2, i + 8)[k] == "rating"@[k] by {
            assert(s.subrange(i, i + 10)[2 + k] == p[2 + k]);
            assert(s.subrange(i + 2, i + 8)[k] == s[i + 2 + k]);
        }
    }
    lemma_quoted_region(s, i + 1, "rating"@);
}

/// The id member: key, colon, decimal value, trailing comma.
#[verifier::rlimit(100)]
#[verifier::spinoff_prover]
proof fn lemma_member_id(g: GameView)
    requires
        date_fits(g.release_date),
    ensures
        ({
            let s = spec_game_chars(g);
            let n1 = spec_digits(g.id as int).len() as int;
            let n2 = spec_json_string(g.title).len() as int;
            let n3 = spec_digits(g.rating as int).len() as int;
            let ntok = genre_chars(g.genre).len() as int;
            let q_desc = match g.description {
                Some(dd) => spec_json_string(dd),
                None => "null"@,
            };
            let n5 = q_desc.len() as int;
            let c1 = 6 + n1;
            let c2 = c1 + 9 + n2;
            let c3 = c2 + 10 + n3;
            let c4 = c3 + 9 + ntok + 2;
            let c5 = c4 + 15 + n5;
            let len = c5 + 15 + 22;
            let acc0 = empty_partial();
            let acc1 = PartialGameView { id: Some(g.id), ..acc0 };
            let acc2 = PartialGameView { title: Some(g.title), ..acc1 };
            let acc3 = PartialGameView { rating: Some(g.rating), ..acc2 };
            let acc4 = PartialGameView { genre: Some(g.genre), ..acc3 };
            let acc5 = PartialGameView { description: Some(g.description), ..acc4 };
            let acc6 = PartialGameView { release_date: Some(g.release_date), ..acc5 };
            spec_parse_members(s, 1, acc0) == spec_parse_members(s, c1 + 1, acc1)
        }),
{
    lemma_encoding_layout(g);
    let s = spec_game_chars(g);
    let n1 = spec_digits(g.id as int).len() as int;
    let n2 = spec_json_string(g.title).len() as int;
    let n3 = spec_digits(g.rating as int).len() as int;
    let ntok = genre_chars(g.genre).len() as int;
    let q_desc = match g.description {
        Some(dd) => spec_json_string(dd),
        None => "null"@,
    };
    let n5 = q_desc.len() as int;
    let c1 = 6 + n1;
    let v2 = c1 + 9;
    let c2 = v2 + n2;
    let v3 = c2 + 10;
    let c3 = v3 + n3;
    let v4 = c3 + 9;
    let c4 = v4 + ntok + 2;
    let v5 = c4 + 15;
    let c5 = v5 + n5;
    let v6 = c5 + 15;
    let len = v6 + 22;
    let acc0 = empty_partial();
    let acc1 = PartialGameView { id: Some(g.id), ..acc0 };
    let acc2 = PartialGameView { title: Some(g.title), ..acc1 };
    let acc3 = PartialGameView { rating: Some(g.rating), ..acc2 };
    let acc4 = PartialGameView { genre: Some(g.genre), ..acc3 };
    let acc5 = PartialGameView { description: Some(g.description), ..acc4 };
    let acc6 = PartialGameView { release_date: Some(g.release_date), ..acc5 };
    lemma_digits_shape(g.id as int);
    let d_id = spec_digits(g.id as int);
    lemma_piece_id_key(s, 0);
    lemma_piece_title_key(s, c1);
    assert(s[6] == d_id[0]) by {
        assert(s.subrange(6, c1)[0] == d_id[0]);
    }
    lemma_parse_u64_at(s, 6, g.id);
    lemma_member_value_id(s, 6, acc0, g.id, c1);
    assert(spec_skip_ws(s, 1) == 1 && spec_skip_ws(s, 5) == 5 && spec_skip_ws(s, 6) == 6
        && spec_skip_ws(s, c1) == c1);
    lemma_members_step(s, 1, "id"@, 5, acc0, acc1, c1);
}

/// The title member: key, colon, string value, trailing comma.
#[verifier::rlimit(100)]
#[verifier::spinoff_prover]
proof fn lemma_member_title(g: GameView)
    requires
        date_fits(g.release_date),
    ensures
        ({
            let s = spec_game_chars(g);
            let n1 = spec_digits(g.id as int).len() as int;
            let n2 = spec_json_string(g.title).len() as int;
            let n3 = spec_digits(g.rating as int).len() as int;
            let ntok = genre_chars(g.genre).len() as int;
            let q_desc = match g.description {
                Some(dd) => spec_json_string(dd),
                None => "null"@,
            };
            let n5 = q_desc.len() as int;
            let c1 = 6 + n1;
            let c2 = c1 + 9 + n2;
            let c3 = c2 + 10 + n3;
            let c4 = c3 + 9 + ntok + 2;
            let c5 = c4 + 15 + n5;
            let len = c5 + 15 + 22;
            let acc0 = empty_partial();
            let acc1 = PartialGameView { id: Some(g.id), ..acc0 };
            let acc2 = PartialGameView { title: Some(g.title), ..acc1 };
            let acc3 = PartialGameView { rating: Some(g.rating), ..acc2 };
            let acc4 = PartialGameView { genre: Some(g.genre), ..acc3 };
            let acc5 = PartialGameView { description: Some(g.description), ..acc4 };
            let acc6 = PartialGameView { release_date: Some(g.release_date), ..acc5 };
            spec_parse_members(s, c1 + 1, acc1) == spec_parse_members(s, c2 + 1, acc2)
        }),
{
    lemma_encoding_layout(g);
    let s = spec_game_chars(g);
    let n1 = spec_digits(g.id as int).len() as int;
    let n2 = spec_json_string(g.title).len() as int;
    let n3 = spec_digits(g.rating as int).len() as int;
    let ntok = genre_chars(g.genre).len() as int;
    let q_desc = match g.description {
        Some(dd) => spec_json_string(dd),
        None => "null"@,
    };
    let n5 = q_desc.len() as int;
    let c1 = 6 + n1;
    let v2 = c1 + 9;
    let c2 = v2 + n2;
    let v3 = c2 + 10;
    let c3 = v3 + n3;
    let v4 = c3 + 9;
    let c4 = v4 + ntok + 2;
    let v5 = c4 + 15;
    let c5 = v5 + n5;
    let v6 = c5 + 15;
    let len = v6 + 22;
    let acc0 = empty_partial();
    let acc1 = PartialGameView { id: Some(g.id), ..acc0 };
    let acc2 = PartialGameView { title: Some(g.title), ..acc1 };
    let acc3 = PartialGameView { rating: Some(g.rating), ..acc2 };
    let acc4 = PartialGameView { genre: Some(g.genre), ..acc3 };
    let acc5 = PartialGameView { description: Some(g.description), ..acc4 };
    let acc6 = PartialGameView { release_date: Some(g.release_date), ..acc5 };
    lemma_piece_title_key(s, c1);
    lemma_piece_rating_key(s, c2);
    lemma_parse_json_string_at(s, v2, g.title);
    lemma_member_value_title(s, v2, acc1, g.title, c2);
    assert(spec_skip_ws(s, c1 + 1) == c1 + 1 && spec_skip_ws(s, c1 + 8) == c1 + 8 && spec_skip_ws(
        s,
        v2,
    ) == v2 && spec_skip_ws(s, c2) == c2) by {
        assert(s[v2] == '"') by {
            assert(s.subrange(v2, c2)[0] == spec_json_string(g.title)[0]);
        }
    }
    lemma_members_step(s, c1 + 1, "title"@, c1 + 8, acc1, acc2, c2);
}

/// The rating member: key, colon, decimal value, trailing comma.
#[verifier::rlimit(100)]
#[verifier::spinoff_prover]
proof fn lemma_member_rating(g: GameView)
    requires
        date_fits(g.release_date),
    ensures
        ({
            let s = spec_game_chars(g);
            let n1 = spec_digits(g.id as int).len() as int;
            let n2 = spec_json_string(g.title).len() as int;
            let n3 = spec_digits(g.rating as int).len() as int;
            let ntok = genre_chars(g.genre).len() as int;
            let q_desc = match g.description {
                Some(dd) => spec_json_string(dd),
                None => "null"@,
            };
            let n5 = q_desc.len() as int;
            let c1 = 6 + n1;
            let c2 = c1 + 9 + n2;
            let c3 = c2 + 10 + n3;
            let c4 = c3 + 9 + ntok + 2;
            let c5 = c4 + 15 + n5;
            let len = c5 + 15 + 22;
            let acc0 = empty_partial();
            let acc1 = PartialGameView { id: Some(g.id), ..acc0 };
            let acc2 = PartialGameView { title: Some(g.title), ..acc1 };
            let acc3 = PartialGameView { rating: Some(g.rating), ..acc2 };
            let acc4 = PartialGameView { genre: Some(g.genre), ..acc3 };
            let acc5 = PartialGameView { description: Some(g.description), ..acc4 };
            let acc6 = PartialGameView { release_date: Some(g.release_date), ..acc5 };
            spec_parse_members(s, c2 + 1, acc2) == spec_parse_members(s, c3 + 1, acc3)
        }),
{
    lemma_encoding_layout(g);
    let s = spec_game_chars(g);
    let n1 = spec_digits(g.id as int).len() as int;
    let n2 = spec_json_string(g.title).len() as int;
    let n3 = spec_digits(g.rating as int).len() as int;
    let ntok = genre_chars(g.genre).len() as int;
    let q_desc = match g.description {
        Some(dd) => spec_json_string(dd),
        None => "null"@,
    };
    let n5 = q_desc.len() as int;
    let c1 = 6 + n1;
    let v2 = c1 + 9;
    let c2 = v2 + n2;
    let v3 = c2 + 10;
    let c3 = v3 + n3;
    let v4 = c3 + 9;
    let c4 = v4 + ntok + 2;
    let v5 = c4 + 15;
    let c5 = v5 + n5;
    let v6 = c5 + 15;
    let len = v6 + 22;
    let acc0 = empty_partial();
    let acc1 = PartialGameView { id: Some(g.id), ..acc0 };
    let acc2 = PartialGameView { title: Some(g.title), ..acc1 };
    let acc3 = PartialGameView { rating: Some(g.rating), ..acc2 };
    let acc4 = PartialGameView { genre: Some(g.genre), ..acc3 };
    let acc5 = PartialGameView { description: Some(g.description), ..acc4 };
    let acc6 = PartialGameView { release_date: Some(g.release_date), ..acc5 };
    lemma_digits_shape(g.rating as int);
    let d_rat = spec_digits(g.rating as int);
    lemma_piece_rating_key(s, c2);
    lemma_piece_genre_key(s, c3);
    assert(s[v3] == d_rat[0]) by {
        assert(s.subrange(v3, c3)[0] == d_rat[0]);
    }
    lemma_parse_u64_at(s, v3, g.rating as u64);
    lemma_member_value_rating(s, v3, acc2, g.rating as u64, c3);
    assert(acc3 == PartialGameView { rating: Some((g.rating as u64) as u8), ..acc2 });
    assert(spec_skip_ws(s, c2 + 1) == c2 + 1 && spec_skip_ws(s, c2 + 9) == c2 + 9 && spec_skip_ws(
        s,
        v3,
    ) == v3 && spec_skip_ws(s, c3) == c3);
    lemma_members_step(s, c2 + 1, "rating"@, c2 + 9, acc2, acc3, c3);
}

/// A quoted run of plain characters parses as a JSON string.
proof fn lemma_quoted_region(s: Seq<char>, i: int, t: Seq<char>)
    requires
        forall|k: int| 0 <= k < t.len() ==> plain_char(#[trigger] t[k]),
        0 <= i,
        i + t.len() + 2 <= s.len(),
        s[i] == '"',
        s[i + t.len() + 1] == '"',
        s.subrange(i + 1, i + 1 + t.len()) == t,
    ensures
        spec_parse_string(s, i) == Some((t, i + t.len() + 2)),
{
    lemma_plain_json_string(t);
    let n = t.len() as int;
    assert(s.subrange(i, i + n + 2) =~= spec_json_string(t)) by {
        assert(spec_json_string(t) =~= seq!['"'] + t + seq!['"']);
        assert forall|k: int| 0 <= k < n implies s[i + 1 + k] == t[k] by {
            assert(s.subrange(i + 1, i + 1 + n)[k] == t[k]);
        }
    }
    lemma_parse_json_string_at(s, i, t);
}

/// The region between the rating value and the genre value.
proof fn lemma_piece_genre_key(s: Seq<char>, i: int)
    requires
        0 <= i,
        i + 10 <= s.len(),
        s.subrange(i, i + 10) == ",\"genre\":\""@,
    ensures
        s[i] == ',',
        s[i + 1] == '"',
        spec_parse_string(s, i + 1) == Some(("genre"@, i + 8)),
        s[i + 8] == ':',
        s[i + 9] == '"',
    {
    reveal_strlit(",\"genre\":\"");
    reveal_strlit("genre");
    let p = ",\"genre\":\""@;
    assert(s[i] == p[0] && s[i + 1] == p[1] && s[i + 7] == p[7] && s[i + 8] == p[8] && s[i + 9]
        == p[9]) by {
        assert(s.subrange(i, i + 10)[0] == p[0] && s.subrange(i, i + 10)[1] == p[1] && s.subrange(
            i,
            i + 10,
        )[7] == p[7] && s.subrange(i, i + 10)[8] == p[8] && s.subrange(i, i + 10)[9] == p[9]);
    }
    assert forall|k: int| 0 <= k < "genre"@.len() implies plain_char(#[trigger] "genre"@[k]) by {
        assert(plain_char("genre"@[k]));
    }
    assert(s.subrange(i + 2, i + 7) =~= "genre"@) by {
        assert forall|k: int| 0 <= k < 5 implies s.subrange(i + 2, i + 7)[k] == "genre"@[k] by {
            assert(s.subrange(i, i + 10)[2 + k] == p[2 + k]);
            assert(s.subrange(i + 2, i + 7)[k] == s[i + 2 + k]);
        }
    }
    lemma_quoted_region(s, i + 1, "genre"@);
}

/// The region between the genre value and the description value.
proof fn lemma_piece_description_key(s: Seq<char>, i: int)
    requires
        0 <= i,
        i + 16 <= s.len(),
        s.subrange(i, i + 16) == "\",\"description\":"@,
    ensures
        s[i] == '"',
        s[i + 1] == ',',
        s[i + 2] == '"',
        spec_parse_string(s, i + 2) == Some(("description"@, i + 15)),
        s[i + 15] == ':',
    {
    reveal_strlit("\",\"description\":");
    reveal_strlit("description");
    let p = "\",\"description\":"@;
    assert(s[i] == p[0] && s[i + 1] == p[1] && s[i + 2] == p[2] && s[i + 14] == p[14] && s[i + 15]
        == p[15]) by {
        assert(s.subrange(i, i + 16)[0] == p[0] && s.subrange(i, i + 16)[1] == p[1] && s.subrange(
            i,
            i + 16,
        )[2] == p[2] && s.subrange(i, i + 16)[14] == p[14] && s.subrange(i, i + 16)[15] == p[15]);
    }
    assert forall|k: int|
        0 <= k < "description"@.len() implies plain_char(#[trigger] "description"@[k]) by {
        assert(plain_char("description"@[k]));
    }
    assert(s.subrange(i + 3, i + 14) =~= "description"@) by {
        assert forall|k: int| 0 <= k < 11 implies s.subrange(i + 3, i + 14)[k] == "description"@[k]
            by {
            assert(s.subrange(i, i + 16)[3 + k] == p[3 + k]);
            assert(s.subrange(i + 3, i + 14)[k] == s[i + 3 + k]);
        }
    }
    lemma_quoted_region(s, i + 2, "description"@);
}

/// The region between the description value and the releaseDate value.
proof fn lemma_piece_release_date_key(s: Seq<char>, i: int)
    requires
        0 <= i,
        i + 16 <= s.len(),
        s.subrange(i, i + 16) == ",\"releaseDate\":\""@,
    ensures
        s[i] == ',',
        s[i + 1] == '"',
        spec_parse_string(s, i + 1) == Some(("releaseDate"@, i + 14)),
        s[i + 14] == ':',
        s[i + 15] == '"',
    {
    reveal_strlit(",\"releaseDate\":\"");
    reveal_strlit("releaseDate");
    let p = ",\"releaseDate\":\""@;
    assert(s[i] == p[0] && s[i + 1] == p[1] && s[i + 13] == p[13] && s[i + 14] == p[14] && s[i + 15]
        == p[15]) by {
        assert(s.subrange(i, i + 16)[0] == p[0] && s.subrange(i, i + 16)[1] == p[1] && s.subrange(
            i,
            i + 16,
        )[13] == p[13] && s.subrange(i, i + 16)[14] == p[14] && s.subrange(i, i + 16)[15] == p[15]);
    }
    assert forall|k: int|
        0 <= k < "releaseDate"@.len() implies plain_char(#[trigger] "releaseDate"@[k]) by {
        assert(plain_char("releaseDate"@[k]));
    }
    assert(s.subrange(i + 2, i + 13) =~= "releaseDate"@) by {
        assert forall|k: int| 0 <= k < 11 implies s.subrange(i + 2, i + 13)[k] == "releaseDate"@[k]
            by {
            assert(s.subrange(i, i + 16)[2 + k] == p[2 + k]);
            assert(s.subrange(i + 2, i + 13)[k] == s[i + 2 + k]);
        }
    }
    lemma_quoted_region(s, i + 1, "releaseDate"@);
}

/// The genre member: key, colon, quoted token, trailing comma.
#[verifier::rlimit(100)]
#[verifier::spinoff_prover]
proof fn lemma_member_genre(g: GameView)
    requires
        date_fits(g.release_date),
    ensures
        ({
            let s = spec_game_chars(g);
            let n1 = spec_digits(g.id as int).len() as int;
            let n2 = spec_json_string(g.title).len() as int;
            let n3 = spec_digits(g.rating as int).len() as int;
            let ntok = genre_chars(g.genre).len() as int;
            let q_desc = match g.description {
                Some(dd) => spec_json_string(dd),
                None => "null"@,
            };
            let n5 = q_desc.len() as int;
            let c1 = 6 + n1;
            let c2 = c1 + 9 + n2;
            let c3 = c2 + 10 + n3;
            let c4 = c3 + 9 + ntok + 2;
            let c5 = c4 + 15 + n5;
            let len = c5 + 15 + 22;
            let acc0 = empty_partial();
            let acc1 = PartialGameView { id: Some(g.id), ..acc0 };
            let acc2 = PartialGameView { title: Some(g.title), ..acc1 };
            let acc3 = PartialGameView { rating: Some(g.rating), ..acc2 };
            let acc4 = PartialGameView { genre: Some(g.genre), ..acc3 };
            let acc5 = PartialGameView { description: Some(g.description), ..acc4 };
            let acc6 = PartialGameView { release_date: Some(g.release_date), ..acc5 };
            spec_parse_members(s, c3 + 1, acc3) == spec_parse_members(s, c4 + 1, acc4)
        }),
{
    lemma_encoding_layout(g);
    let s = spec_game_chars(g);
    let n1 = spec_digits(g.id as int).len() as int;
    let n2 = spec_json_string(g.title).len() as int;
    let n3 = spec_digits(g.rating as int).len() as int;
    let ntok = genre_chars(g.genre).len() as int;
    let q_desc = match g.description {
        Some(dd) => spec_json_string(dd),
        None => "null"@,
    };
    let n5 = q_desc.len() as int;
    let c1 = 6 + n1;
    let v2 = c1 + 9;
    let c2 = v2 + n2;
    let v3 = c2 + 10;
    let c3 = v3 + n3;
    let v4 = c3 + 9;
    let c4 = v4 + ntok + 2;
    let v5 = c4 + 15;
    let c5 = v5 + n5;
    let v6 = c5 + 15;
    let len = v6 + 22;
    let acc0 = empty_partial();
    let acc1 = PartialGameView { id: Some(g.id), ..acc0 };
    let acc2 = PartialGameView { title: Some(g.title), ..acc1 };
    let acc3 = PartialGameView { rating: Some(g.rating), ..acc2 };
    let acc4 = PartialGameView { genre: Some(g.genre), ..acc3 };
    let acc5 = PartialGameView { description: Some(g.description), ..acc4 };
    let acc6 = PartialGameView { release_date: Some(g.release_date), ..acc5 };
    lemma_genre_token(g.genre);
    let tok = genre_chars(g.genre);
    lemma_piece_genre_key(s, c3);
    lemma_piece_description_key(s, c4 - 1);
    lemma_quoted_region(s, v4, tok);
    lemma_member_value_genre(s, v4, acc3, tok, g.genre, c4);
    assert(spec_skip_ws(s, c3 + 1) == c3 + 1 && spec_skip_ws(s, c3 + 8) == c3 + 8 && spec_skip_ws(
        s,
        v4,
    ) == v4 && spec_skip_ws(s, c4) == c4);
    lemma_members_step(s, c3 + 1, "genre"@, c3 + 8, acc3, acc4, c4);
}

/// The description member: key, colon, string or null, trailing comma.
#[verifier::rlimit(100)]
#[verifier::spinoff_prover]
proof fn lemma_member_description(g: GameView)
    requires
        date_fits(g.release_date),
    ensures
        ({
            let s = spec_game_chars(g);
            let n1 = spec_digits(g.id as int).len() as int;
            let n2 = spec_json_string(g.title).len() as int;
            let n3 = spec_digits(g.rating as int).len() as int;
            let ntok = genre_chars(g.genre).len() as int;
            let q_desc = match g.description {
                Some(dd) => spec_json_string(dd),
                None => "null"@,
            };
            let n5 = q_desc.len() as int;
            let c1 = 6 + n1;
            let c2 = c1 + 9 + n2;
            let c3 = c2 + 10 + n3;
            let c4 = c3 + 9 + ntok + 2;
            let c5 = c4 + 15 + n5;
            let len = c5 + 15 + 22;
            let acc0 = empty_partial();
            let acc1 = PartialGameView { id: Some(g.id), ..acc0 };
            let acc2 = PartialGameView { title: Some(g.title), ..acc1 };
            let acc3 = PartialGameView { rating: Some(g.rating), ..acc2 };
            let acc4 = PartialGameView { genre: Some(g.genre), ..acc3 };
            let acc5 = PartialGameView { description: Some(g.description), ..acc4 };
            let acc6 = PartialGameView { release_date: Some(g.release_date), ..acc5 };
            spec_parse_members(s, c4 + 1, acc4) == spec_parse_members(s, c5 + 1, acc5)
        }),
{
    reveal_strlit("null");
    reveal_strlit(",\"releaseDate\":\"");
    lemma_encoding_layout(g);
    let s = spec_game_chars(g);
    let n1 = spec_digits(g.id as int).len() as int;
    let n2 = spec_json_string(g.title).len() as int;
    let n3 = spec_digits(g.rating as int).len() as int;
    let ntok = genre_chars(g.genre).len() as int;
    let q_desc = match g.description {
        Some(dd) => spec_json_string(dd),
        None => "null"@,
    };
    let n5 = q_desc.len() as int;
    let c1 = 6 + n1;
    let v2 = c1 + 9;
    let c2 = v2 + n2;
    let v3 = c2 + 10;
    let c3 = v3 + n3;
    let v4 = c3 + 9;
    let c4 = v4 + ntok + 2;
    let v5 = c4 + 15;
    let c5 = v5 + n5;
    let v6 = c5 + 15;
    let len = v6 + 22;
    let acc0 = empty_partial();
    let acc1 = PartialGameView { id: Some(g.id), ..acc0 };
    let acc2 = PartialGameView { title: Some(g.title), ..acc1 };
    let acc3 = PartialGameView { rating: Some(g.rating), ..acc2 };
    let acc4 = PartialGameView { genre: Some(g.genre), ..acc3 };
    let acc5 = PartialGameView { description: Some(g.description), ..acc4 };
    let acc6 = PartialGameView { release_date: Some(g.release_date), ..acc5 };
    lemma_piece_description_key(s, c4 - 1);
    assert(s[c5] == ',') by {
        assert(s.subrange(c5, c5 + 16)[0] == ",\"releaseDate\":\""@[0]);
    }
    match g.description {
        Some(dd) => {
            lemma_parse_json_string_at(s, v5, dd);
            assert(s[v5] == '"') by {
                assert(s.subrange(v5, c5)[0] == q_desc[0]);
            }
            assert(!(v5 + 4 <= s.len() && s.subrange(v5, v5 + 4) == "null"@)) by {
                if v5 + 4 <= s.len() && s.subrange(v5, v5 + 4) == "null"@ {
                    assert(s.subrange(v5, v5 + 4)[0] == 'n');
                }
            }
            lemma_member_value_description_str(s, v5, acc4, dd, c5);
        },
        None => {
            assert(q_desc == "null"@);
            assert(c5 == v5 + 4);
            lemma_member_value_description_null(s, v5, acc4);
        },
    }
    assert(spec_skip_ws(s, c4 + 1) == c4 + 1 && spec_skip_ws(s, c4 + 14) == c4 + 14 && spec_skip_ws(
        s,
        v5,
    ) == v5 && spec_skip_ws(s, c5) == c5);
    lemma_members_step(s, c4 + 1, "description"@, c4 + 14, acc4, acc5, c5);
}

/// The releaseDate member: key, colon, quoted timestamp, and the
/// closing brace of the object.
#[verifier::rlimit(100)]
#[verifier::spinoff_prover]
proof fn lemma_member_release_date(g: GameView)
    requires
        date_fits(g.release_date),
    ensures
        ({
            let s = spec_game_chars(g);
            let n1 = spec_digits(g.id as int).len() as int;
            let n2 = spec_json_string(g.title).len() as int;
            let n3 = spec_digits(g.rating as int).len() as int;
            let ntok = genre_chars(g.genre).len() as int;
            let q_desc = match g.description {
                Some(dd) => spec_json_string(dd),
                None => "null"@,
            };
            let n5 = q_desc.len() as int;
            let c1 = 6 + n1;
            let c2 = c1 + 9 + n2;
            let c3 = c2 + 10 + n3;
            let c4 = c3 + 9 + ntok + 2;
            let c5 = c4 + 15 + n5;
            let len = c5 + 15 + 22;
            let acc0 = empty_partial();
            let acc1 = PartialGameView { id: Some(g.id), ..acc0 };
            let acc2 = PartialGameView { title: Some(g.title), ..acc1 };
            let acc3 = PartialGameView { rating: Some(g.rating), ..acc2 };
            let acc4 = PartialGameView { genre: Some(g.genre), ..acc3 };
            let acc5 = PartialGameView { description: Some(g.description), ..acc4 };
            let acc6 = PartialGameView { release_date: Some(g.release_date), ..acc5 };
            spec_parse_members(s, c5 + 1, acc5) == Some((acc6, len))
        }),
{
    reveal_strlit("\"}");
    lemma_encoding_layout(g);
    let s = spec_game_chars(g);
    let n1 = spec_digits(g.id as int).len() as int;
    let n2 = spec_json_string(g.title).len() as int;
    let n3 = spec_digits(g.rating as int).len() as int;
    let ntok = genre_chars(g.genre).len() as int;
    let q_desc = match g.description {
        Some(dd) => spec_json_string(dd),
        None => "null"@,
    };
    let n5 = q_desc.len() as int;
    let c1 = 6 + n1;
    let v2 = c1 + 9;
    let c2 = v2 + n2;
    let v3 = c2 + 10;
    let c3 = v3 + n3;
    let v4 = c3 + 9;
    let c4 = v4 + ntok + 2;
    let v5 = c4 + 15;
    let c5 = v5 + n5;
    let v6 = c5 + 15;
    let len = v6 + 22;
    let acc0 = empty_partial();
    let acc1 = PartialGameView { id: Some(g.id), ..acc0 };
    let acc2 = PartialGameView { title: Some(g.title), ..acc1 };
    let acc3 = PartialGameView { rating: Some(g.rating), ..acc2 };
    let acc4 = PartialGameView { genre: Some(g.genre), ..acc3 };
    let acc5 = PartialGameView { description: Some(g.description), ..acc4 };
    let acc6 = PartialGameView { release_date: Some(g.release_date), ..acc5 };
    lemma_date_chars(g.release_date);
    let dt = spec_date_chars(g.release_date);
    let p6 = "\"}"@;
    lemma_piece_release_date_key(s, c5);
    assert(s[v6 + 20] == '"' && s[v6 + 21] == '}') by {
        assert(s.subrange(v6 + 20, len)[0] == p6[0] && s.subrange(v6 + 20, len)[1] == p6[1]);
    }
    lemma_quoted_region(s, v6, dt);
    lemma_member_value_release_date(s, v6, acc5, dt, g.release_date, v6 + 21);
    assert(spec_skip_ws(s, c5 + 1) == c5 + 1 && spec_skip_ws(s, c5 + 14) == c5 + 14 && spec_skip_ws(
        s,
        v6,
    ) == v6 && spec_skip_ws(s, v6 + 21) == v6 + 21);
    lemma_members_step(s, c5 + 1, "releaseDate"@, c5 + 14, acc5, acc6, v6 + 21);
}

/// The canonical encoding of a record whose timestamp fits its decimal
/// slots parses back to exactly that record.
#[verifier::rlimit(100)]
#[verifier::spinoff_prover]
pub proof fn lemma_parse_of_encoding(g: GameView)
    requires
        date_fits(g.release_date),
    ensures
        spec_parse_game(spec_game_chars(g)) == Some(g),
{
    reveal_strlit("{\"id\":");
    lemma_encoding_layout(g);
    lemma_member_id(g);
    lemma_member_title(g);
    lemma_member_rating(g);
    lemma_member_genre(g);
    lemma_member_description(g);
    lemma_member_release_date(g);
    let s = spec_game_chars(g);
    let p0 = "{\"id\":"@;
    assert(s[0] == '{' && s[1] == '"') by {
        assert(s.subrange(0, 6)[0] == p0[0] && s.subrange(0, 6)[1] == p0[1]);
    }
    let acc6 = PartialGameView {
        id: Some(g.id),
        title: Some(g.title),
        rating: Some(g.rating),
        genre: Some(g.genre),
        description: Some(g.description),
        release_date: Some(g.release_date),
    };
    let len = s.len() as int;
    assert(spec_parse_members(s, 1, empty_partial()) == Some((acc6, len)));
    assert(spec_skip_ws(s, 0) == 0);
    assert(spec_skip_ws(s, 1) == 1);
    assert(spec_skip_ws(s, len) == len);
    assert(finish_partial(acc6) == Some(g)) by {
        let built = finish_partial(acc6)->Some_0;
        assert(built =~= g);
    }
    assert(spec_parse_game(s) == Some(g));
}

/// Law: encoding a valid record and then decoding the result yields an
/// equal record.
pub proof fn lemma_encode_decode_round_trip(g: GameView)
    requires
        valid_game(g),
    ensures
        spec_decode_game(spec_game_chars(g)) == Ok::<GameView, DecodeError>(g),
{
    assert(date_fits(g.release_date));
    lemma_parse_of_encoding(g);
}

/// Law: a record whose rating is over the bound still has a wire shape,
/// but that text fails to decode, with the rating error.
pub proof fn lemma_bad_rating_fails_decode(g: GameView)
    requires
        g.rating > 100,
        date_fits(g.release_date),
    ensures
        spec_decode_game(spec_game_chars(g)) == Err::<GameView, DecodeError>(
            DecodeError::RatingOutOfRange,
        ),
{
    lemma_parse_of_encoding(g);
}

} // verus!
