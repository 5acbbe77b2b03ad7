use vstd::prelude::*;
use crate::config::{bounded_config, Config, ConfigV};
use crate::digits::{
    dec_chars, int_chars, is_digit, parse_digits, parse_int, parse_int_at,
    lemma_parse_int_chars, lemma_dec_chars_first_digit,
};
use crate::text::int_to_string;
use vstd::string::StringExecFns;

verus! {

// ---------------------------------------------------------------------------
// The stored configuration is a JSON object with two sections:
//     { "notification": { "notified": [ .. ] }, "position": { "x": .., "y": .. } }
// The parser below accepts the two top-level sections and the two position
// fields in either order, with whitespace between tokens; string escapes are
// not part of the format. The serializer emits the canonical compact form.
// ---------------------------------------------------------------------------
pub open spec fn is_ws(c: char) -> bool {
    c == ' ' || c == '\n' || c == '\r' || c == '\t'
}

/// Drops leading whitespace.
pub open spec fn skip_ws(s: Seq<char>) -> Seq<char>
    decreases s.len(),
{
    if s.len() > 0 && is_ws(s[0]) {
        skip_ws(s.drop_first())
    } else {
        s
    }
}

pub proof fn lemma_skip_ws_len(s: Seq<char>)
    ensures
        skip_ws(s).len() <= s.len(),
    decreases s.len(),
{
    if s.len() > 0 && is_ws(s[0]) {
        lemma_skip_ws_len(s.drop_first());
    }
}

/// The characters of a JSON string after its opening quote, up to the closing
/// quote; escape sequences are not accepted.
pub open spec fn parse_string_body(s: Seq<char>) -> Option<(Seq<char>, Seq<char>)>
    decreases s.len(),
{
    if s.len() == 0 {
        None
    } else if s[0] == '"' {
        Some((Seq::empty(), s.drop_first()))
    } else if s[0] == '\\' {
        None
    } else {
        match parse_string_body(s.drop_first()) {
            Some(p) => Some((seq![s[0]] + p.0, p.1)),
            None => None,
        }
    }
}

/// A quoted JSON string at the front of `s`.
pub open spec fn parse_key(s: Seq<char>) -> Option<(Seq<char>, Seq<char>)> {
    if s.len() > 0 && s[0] == '"' {
        parse_string_body(s.drop_first())
    } else {
        None
    }
}

pub proof fn lemma_parse_digits_len(s: Seq<char>, acc: int)
    ensures
        parse_digits(s, acc).1.len() <= s.len(),
    decreases s.len(),
{
    if s.len() > 0 && is_digit(s[0]) {
        lemma_parse_digits_len(s.drop_first(), acc * 10 + crate::digits::digit_val(s[0]));
    }
}

pub proof fn lemma_parse_int_len(s: Seq<char>)
    ensures
        parse_int(s) matches Some(p) ==> p.1.len() < s.len(),
{
    if s.len() > 0 && s[0] == '-' {
        lemma_parse_digits_len(s.drop_first(), 0);
    } else if s.len() > 0 && is_digit(s[0]) {
        assert(parse_digits(s, 0) == parse_digits(s.drop_first(), crate::digits::digit_val(s[0])));
        lemma_parse_digits_len(s.drop_first(), crate::digits::digit_val(s[0]));
    }
}

/// After the first element of an integer array: a `, int` repetition closed by
/// `]`, extending the elements already read.
pub open spec fn parse_int_list_rest(s: Seq<char>, acc: Seq<int>) -> Option<(Seq<int>, Seq<char>)>
    decreases s.len(),
    via parse_int_list_rest_dec
{
    let t = skip_ws(s);
    if t.len() > 0 && t[0] == ']' {
        Some((acc, t.drop_first()))
    } else if t.len() > 0 && t[0] == ',' {
        let u = skip_ws(t.drop_first());
        match parse_int(u) {
            Some(p) => parse_int_list_rest(p.1, acc.push(p.0)),
            None => None,
        }
    } else {
        None
    }
}

#[via_fn]
proof fn parse_int_list_rest_dec(s: Seq<char>, acc: Seq<int>) {
    lemma_skip_ws_len(s);
    let t = skip_ws(s);
    if t.len() > 0 && t[0] == ',' {
        lemma_skip_ws_len(t.drop_first());
        let u = skip_ws(t.drop_first());
        lemma_parse_int_len(u);
    }
}

/// A complete integer array `[ .. ]` at the front of `s`.
pub open spec fn parse_int_array(s: Seq<char>) -> Option<(Seq<int>, Seq<char>)> {
    if s.len() > 0 && s[0] == '[' {
        let t = skip_ws(s.drop_first());
        if t.len() > 0 && t[0] == ']' {
            Some((Seq::empty(), t.drop_first()))
        } else {
            match parse_int(t) {
                Some(p) => parse_int_list_rest(p.1, seq![p.0]),
                None => None,
            }
        }
    } else {
        None
    }
}

/// The notification section `{ "notified": [ .. ] }`.
pub open spec fn parse_notification(s: Seq<char>) -> Option<(Seq<int>, Seq<char>)> {
    if s.len() > 0 && s[0] == '{' {
        match parse_key(skip_ws(s.drop_first())) {
            Some((k, r1)) => {
                if k == "notified"@ {
                    let r2 = skip_ws(r1);
                    if r2.len() > 0 && r2[0] == ':' {
                        match parse_int_array(skip_ws(r2.drop_first())) {
                            Some((vs, r3)) => {
                                let r4 = skip_ws(r3);
                                if r4.len() > 0 && r4[0] == '}' {
                                    Some((vs, r4.drop_first()))
                                } else {
                                    None
                                }
                            },
                            None => None,
                        }
                    } else {
                        None
                    }
                } else {
                    None
                }
            },
            None => None,
        }
    } else {
        None
    }
}

/// One `"key": int` pair, with surrounding whitespace.
pub open spec fn parse_kv_int(s: Seq<char>) -> Option<((Seq<char>, int), Seq<char>)> {
    match parse_key(skip_ws(s)) {
        Some((k, r1)) => {
            let r2 = skip_ws(r1);
            if r2.len() > 0 && r2[0] == ':' {
                match parse_int(skip_ws(r2.drop_first())) {
                    Some((v, r3)) => Some(((k, v), r3)),
                    None => None,
                }
            } else {
                None
            }
        },
        None => None,
    }
}

/// The position section `{ "x": .., "y": .. }`, fields in either order.
pub open spec fn parse_position(s: Seq<char>) -> Option<((int, int), Seq<char>)> {
    if s.len() > 0 && s[0] == '{' {
        match parse_kv_int(s.drop_first()) {
            Some(((k1, v1), r1)) => {
                let r2 = skip_ws(r1);
                if r2.len() > 0 && r2[0] == ',' {
                    match parse_kv_int(r2.drop_first()) {
                        Some(((k2, v2), r3)) => {
                            let r4 = skip_ws(r3);
                            if r4.len() > 0 && r4[0] == '}' {
                                if k1 == "x"@ && k2 == "y"@ {
                                    Some(((v1, v2), r4.drop_first()))
                                } else if k1 == "y"@ && k2 == "x"@ {
                                    Some(((v2, v1), r4.drop_first()))
                                } else {
                                    None
                                }
                            } else {
                                None
                            }
                        },
                        None => None,
                    }
                } else {
                    None
                }
            },
            None => None,
        }
    } else {
        None
    }
}

/// After the first top-level section: `, "position": { .. }`.
pub open spec fn parse_tail_position(s: Seq<char>) -> Option<((int, int), Seq<char>)> {
    let t = skip_ws(s);
    if t.len() > 0 && t[0] == ',' {
        match parse_key(skip_ws(t.drop_first())) {
            Some((k, r1)) => {
                if k == "position"@ {
                    let r2 = skip_ws(r1);
                    if r2.len() > 0 && r2[0] == ':' {
                        parse_position(skip_ws(r2.drop_first()))
                    } else {
                        None
                    }
                } else {
                    None
                }
            },
            None => None,
        }
    } else {
        None
    }
}

/// After the first top-level section: `, "notification": { .. }`.
pub open spec fn parse_tail_notification(s: Seq<char>) -> Option<(Seq<int>, Seq<char>)> {
    let t = skip_ws(s);
    if t.len() > 0 && t[0] == ',' {
        match parse_key(skip_ws(t.drop_first())) {
            Some((k, r1)) => {
                if k == "notification"@ {
                    let r2 = skip_ws(r1);
                    if r2.len() > 0 && r2[0] == ':' {
                        parse_notification(skip_ws(r2.drop_first()))
                    } else {
                        None
                    }
                } else {
                    None
                }
            },
            None => None,
        }
    } else {
        None
    }
}

/// The closing brace and trailing whitespace of the whole document.
pub open spec fn parse_end(s: Seq<char>, c: ConfigV) -> Option<ConfigV> {
    let t = skip_ws(s);
    if t.len() > 0 && t[0] == '}' && skip_ws(t.drop_first()).len() == 0 {
        Some(c)
    } else {
        None
    }
}

/// The whole configuration document; `None` on any form the grammar above
/// does not give.
pub open spec fn parse_config_chars(s: Seq<char>) -> Option<ConfigV> {
    let t0 = skip_ws(s);
    if t0.len() > 0 && t0[0] == '{' {
        match parse_key(skip_ws(t0.drop_first())) {
            Some((k1, r1)) => {
                let r2 = skip_ws(r1);
                if r2.len() > 0 && r2[0] == ':' {
                    let v1 = skip_ws(r2.drop_first());
                    if k1 == "notification"@ {
                        match parse_notification(v1) {
                            Some((ns, r3)) => match parse_tail_position(r3) {
                                Some((xy, r4)) => parse_end(
                                    r4,
                                    ConfigV { notified: ns, x: xy.0, y: xy.1 },
                                ),
                                None => None,
                            },
                            None => None,
                        }
                    } else if k1 == "position"@ {
                        match parse_position(v1) {
                            Some((xy, r3)) => match parse_tail_notification(r3) {
                                Some((ns, r4)) => parse_end(
                                    r4,
                                    ConfigV { notified: ns, x: xy.0, y: xy.1 },
                                ),
                                None => None,
                            },
                            None => None,
                        }
                    } else {
                        None
                    }
                } else {
                    None
                }
            },
            None => None,
        }
    } else {
        None
    }
}

// ---------------------------------------------------------------------------
// Serialization
// ---------------------------------------------------------------------------
/// The elements of an integer array, joined by commas.
pub open spec fn ser_int_list(vs: Seq<int>) -> Seq<char>
    decreases vs.len(),
{
    if vs.len() == 0 {
        Seq::empty()
    } else if vs.len() == 1 {
        int_chars(vs[0])
    } else {
        int_chars(vs[0]) + seq![','] + ser_int_list(vs.drop_first())
    }
}

/// A key in its quotes.
pub open spec fn key_seq(k: Seq<char>) -> Seq<char> {
    seq!['"'] + k + seq!['"']
}

/// Everything before the elements of the notified array.
pub open spec fn ser_head() -> Seq<char> {
    seq!['{'] + key_seq("notification"@) + seq![':'] + seq!['{'] + key_seq("notified"@)
        + seq![':'] + seq!['[']
}

/// Everything between the notified array and the x value.
pub open spec fn ser_mid1() -> Seq<char> {
    seq![']'] + seq!['}'] + seq![','] + key_seq("position"@) + seq![':'] + seq!['{'] + key_seq(
        "x"@,
    ) + seq![':']
}

/// Everything between the x value and the y value.
pub open spec fn ser_mid2() -> Seq<char> {
    seq![','] + key_seq("y"@) + seq![':']
}

/// The closing braces.
pub open spec fn ser_end() -> Seq<char> {
    seq!['}'] + seq!['}']
}

/// The canonical JSON text of a configuration.
pub open spec fn ser_config(c: ConfigV) -> Seq<char> {
    ser_head() + ser_int_list(c.notified) + ser_mid1() + int_chars(c.x) + ser_mid2() + int_chars(
        c.y,
    ) + ser_end()
}

proof fn lemma_ser_int_list_push(vs: Seq<int>, v: int)
    ensures
        ser_int_list(vs.push(v)) == if vs.len() == 0 {
            int_chars(v)
        } else {
            ser_int_list(vs) + seq![','] + ser_int_list(seq![v])
        },
    decreases vs.len(),
{
    let w = vs.push(v);
    if vs.len() == 0 {
        assert(w.len() == 1);
        assert(w[0] == v);
    } else {
        assert(w[0] == vs[0]);
        assert(w.drop_first() =~= vs.drop_first().push(v));
        lemma_ser_int_list_push(vs.drop_first(), v);
        if vs.len() == 1 {
            assert(ser_int_list(w) =~= ser_int_list(vs) + seq![','] + ser_int_list(seq![v]));
        } else {
            assert(ser_int_list(w) =~= ser_int_list(vs) + seq![','] + ser_int_list(seq![v]));
        }
    }
}

// ---------------------------------------------------------------------------
// Round trip: parsing a serialized configuration gives it back.
// ---------------------------------------------------------------------------
/// Characters allowed in a key: anything but the quote and the backslash.
pub open spec fn plain_chars(k: Seq<char>) -> bool {
    forall|i: int| 0 <= i < k.len() ==> k[i] != '"' && k[i] != '\\'
}

proof fn lemma_parse_string_body_lit(k: Seq<char>, rest: Seq<char>)
    requires
        plain_chars(k),
    ensures
        parse_string_body(k + seq!['"'] + rest) == Some((k, rest)),
    decreases k.len(),
{
    let s = k + seq!['"'] + rest;
    if k.len() == 0 {
        assert(s[0] == '"');
        assert(s.drop_first() =~= rest);
        assert(Seq::<char>::empty() =~= k);
    } else {
        assert(s[0] == k[0]);
        assert(k[0] != '"' && k[0] != '\\');
        assert(s.drop_first() =~= k.drop_first() + seq!['"'] + rest);
        assert forall|i: int| 0 <= i < k.drop_first().len() implies k.drop_first()[i] != '"'
            && k.drop_first()[i] != '\\' by {
            assert(k.drop_first()[i] == k[i + 1]);
        }
        lemma_parse_string_body_lit(k.drop_first(), rest);
        assert(seq![s[0]] + k.drop_first() =~= k);
    }
}

proof fn lemma_parse_key_lit(k: Seq<char>, rest: Seq<char>)
    requires
        plain_chars(k),
    ensures
        parse_key(key_seq(k) + rest) == Some((k, rest)),
{
    let s = key_seq(k) + rest;
    assert(s[0] == '"');
    assert(s.drop_first() =~= k + seq!['"'] + rest);
    lemma_parse_string_body_lit(k, rest);
}

proof fn lemma_int_chars_head(n: int)
    ensures
        int_chars(n).len() >= 1,
        int_chars(n)[0] == '-' || is_digit(int_chars(n)[0]),
        !is_ws(int_chars(n)[0]),
        int_chars(n)[0] != ']',
        int_chars(n)[0] != '}',
        int_chars(n)[0] != '"',
{
    if n < 0 {
        lemma_dec_chars_first_digit((-n) as nat);
        assert(int_chars(n)[0] == '-');
    } else {
        lemma_dec_chars_first_digit(n as nat);
        assert(int_chars(n)[0] == dec_chars(n as nat)[0]);
    }
}

proof fn lemma_parse_list_rest_ser(vs: Seq<int>, acc: Seq<int>, rest: Seq<char>)
    ensures
        parse_int_list_rest(
            if vs.len() == 0 {
                seq![']'] + rest
            } else {
                seq![','] + ser_int_list(vs) + seq![']'] + rest
            },
            acc,
        ) == Some((acc + vs, rest)),
    decreases vs.len(),
{
    if vs.len() == 0 {
        let s = seq![']'] + rest;
        assert(!is_ws(']'));
        assert(skip_ws(s) == s);
        assert(s.drop_first() =~= rest);
        assert(acc + vs =~= acc);
    } else {
        let s = seq![','] + ser_int_list(vs) + seq![']'] + rest;
        assert(s[0] == ',');
        assert(!is_ws(','));
        assert(skip_ws(s) == s);
        let u0 = s.drop_first();
        let mid = if vs.len() == 1 {
            seq![']'] + rest
        } else {
            seq![','] + ser_int_list(vs.drop_first()) + seq![']'] + rest
        };
        assert(u0 =~= int_chars(vs[0]) + mid);
        lemma_int_chars_head(vs[0]);
        assert(u0[0] == int_chars(vs[0])[0]);
        assert(skip_ws(u0) == u0);
        assert(mid.len() > 0 && !is_digit(mid[0]));
        lemma_parse_int_chars(vs[0], mid);
        lemma_parse_list_rest_ser(vs.drop_first(), acc.push(vs[0]), rest);
        assert(acc.push(vs[0]) + vs.drop_first() =~= acc + vs);
    }
}

proof fn lemma_parse_int_array_ser(vs: Seq<int>, rest: Seq<char>)
    ensures
        parse_int_array(seq!['['] + ser_int_list(vs) + seq![']'] + rest) == Some((vs, rest)),
{
    let s = seq!['['] + ser_int_list(vs) + seq![']'] + rest;
    assert(s[0] == '[');
    let u0 = s.drop_first();
    if vs.len() == 0 {
        assert(u0 =~= seq![']'] + rest);
        assert(!is_ws(']'));
        assert(skip_ws(u0) == u0);
        assert(u0.drop_first() =~= rest);
        assert(Seq::<int>::empty() =~= vs);
    } else {
        let mid = if vs.len() == 1 {
            seq![']'] + rest
        } else {
            seq![','] + ser_int_list(vs.drop_first()) + seq![']'] + rest
        };
        assert(u0 =~= int_chars(vs[0]) + mid);
        lemma_int_chars_head(vs[0]);
        assert(u0[0] == int_chars(vs[0])[0]);
        assert(skip_ws(u0) == u0);
        assert(u0[0] != ']');
        assert(mid.len() > 0 && !is_digit(mid[0]));
        lemma_parse_int_chars(vs[0], mid);
        lemma_parse_list_rest_ser(vs.drop_first(), seq![vs[0]], rest);
        assert(seq![vs[0]] + vs.drop_first() =~= vs);
    }
}

/// Law: persisting a configuration and reloading it yields the same fired
/// milestones and the same position — parsing the serialized text of any
/// configuration model returns exactly that model.
#[verifier::rlimit(50)]
pub proof fn lemma_config_round_trip(c: ConfigV)
    ensures
        parse_config_chars(ser_config(c)) == Some(c),
{
    reveal_strlit("notification");
    reveal_strlit("notified");
    reveal_strlit("position");
    reveal_strlit("x");
    reveal_strlit("y");
    assert(plain_chars("notification"@));
    assert(plain_chars("notified"@));
    assert(plain_chars("position"@));
    assert(plain_chars("x"@));
    assert(plain_chars("y"@));
    let s = ser_config(c);
    let ll = ser_int_list(c.notified);
    let xx = int_chars(c.x);
    let yy = int_chars(c.y);
    let ee = seq!['}'];
    let f2 = seq![':'] + yy + ee + seq!['}'];
    let e2 = seq![','] + key_seq("y"@) + f2;
    let d4 = seq![':'] + xx + e2;
    let d3 = key_seq("x"@) + d4;
    let d2 = seq![':'] + seq!['{'] + d3;
    let rest2 = seq![','] + key_seq("position"@) + d2;
    let c2 = seq!['}'] + rest2;
    let b2 = seq![':'] + seq!['['] + ll + seq![']'] + c2;
    let v1 = seq!['{'] + key_seq("notified"@) + b2;
    let a2 = seq![':'] + v1;
    let a1 = key_seq("notification"@) + a2;
    assert(s =~= seq!['{'] + a1);
    // Top-level brace and first key.
    assert(s[0] == '{' && !is_ws('{'));
    assert(skip_ws(s) == s);
    assert(s.drop_first() =~= a1);
    assert(a1[0] == '"' && !is_ws('"'));
    assert(skip_ws(a1) == a1);
    lemma_parse_key_lit("notification"@, a2);
    assert(parse_key(a1) == Some(("notification"@, a2)));
    assert(a2[0] == ':' && !is_ws(':'));
    assert(skip_ws(a2) == a2);
    assert(a2.drop_first() =~= v1);
    assert(v1[0] == '{');
    assert(skip_ws(v1) == v1);
    // The notification section.
    assert(v1.drop_first() =~= key_seq("notified"@) + b2);
    assert(skip_ws(key_seq("notified"@) + b2) == key_seq("notified"@) + b2);
    lemma_parse_key_lit("notified"@, b2);
    assert(b2[0] == ':');
    assert(skip_ws(b2) == b2);
    assert(b2.drop_first() =~= seq!['['] + ll + seq![']'] + c2);
    assert((seq!['['] + ll + seq![']'] + c2)[0] == '[' && !is_ws('['));
    assert(skip_ws(seq!['['] + ll + seq![']'] + c2) == seq!['['] + ll + seq![']'] + c2);
    lemma_parse_int_array_ser(c.notified, c2);
    assert(parse_int_array(seq!['['] + ll + seq![']'] + c2) == Some((c.notified, c2)));
    assert(c2[0] == '}' && !is_ws('}'));
    assert(skip_ws(c2) == c2);
    assert(c2.drop_first() =~= rest2);
    assert(parse_notification(v1) == Some((c.notified, rest2)));
    // The position section after the comma.
    assert(rest2[0] == ',' && !is_ws(','));
    assert(skip_ws(rest2) == rest2);
    assert(rest2.drop_first() =~= key_seq("position"@) + d2);
    assert(skip_ws(key_seq("position"@) + d2) == key_seq("position"@) + d2);
    lemma_parse_key_lit("position"@, d2);
    assert(d2[0] == ':');
    assert(skip_ws(d2) == d2);
    assert(d2.drop_first() =~= seq!['{'] + d3);
    assert((seq!['{'] + d3)[0] == '{');
    assert(skip_ws(seq!['{'] + d3) == seq!['{'] + d3);
    assert((seq!['{'] + d3).drop_first() =~= d3);
    // First position field.
    assert(d3[0] == '"');
    assert(skip_ws(d3) == d3);
    lemma_parse_key_lit("x"@, d4);
    assert(d4[0] == ':');
    assert(skip_ws(d4) == d4);
    assert(d4.drop_first() =~= xx + e2);
    lemma_int_chars_head(c.x);
    assert((xx + e2)[0] == xx[0]);
    assert(skip_ws(xx + e2) == xx + e2);
    assert(e2.len() > 0 && !is_digit(e2[0]));
    lemma_parse_int_chars(c.x, e2);
    assert(parse_kv_int(d3) == Some((("x"@, c.x), e2)));
    // Second position field.
    assert(e2[0] == ',');
    assert(skip_ws(e2) == e2);
    assert(e2.drop_first() =~= key_seq("y"@) + f2);
    assert(skip_ws(key_seq("y"@) + f2) == key_seq("y"@) + f2);
    lemma_parse_key_lit("y"@, f2);
    assert(f2[0] == ':');
    assert(skip_ws(f2) == f2);
    assert(f2.drop_first() =~= yy + (ee + seq!['}']));
    lemma_int_chars_head(c.y);
    assert((yy + (ee + seq!['}']))[0] == yy[0]);
    assert(skip_ws(yy + (ee + seq!['}'])) == yy + (ee + seq!['}']));
    assert((ee + seq!['}']).len() > 0 && !is_digit((ee + seq!['}'])[0]));
    lemma_parse_int_chars(c.y, ee + seq!['}']);
    assert(parse_kv_int(e2.drop_first()) == Some((("y"@, c.y), ee + seq!['}'])));
    // Closing braces.
    assert((ee + seq!['}'])[0] == '}');
    assert(skip_ws(ee + seq!['}']) == ee + seq!['}']);
    assert((ee + seq!['}']).drop_first() =~= seq!['}']);
    assert(parse_position(seq!['{'] + d3) == Some(((c.x, c.y), seq!['}'])));
    assert(parse_tail_position(rest2) == Some(((c.x, c.y), seq!['}'])));
    assert(seq!['}'][0] == '}');
    assert(skip_ws(seq!['}']) == seq!['}']);
    assert(seq!['}'].drop_first() =~= Seq::<char>::empty());
    assert(skip_ws(Seq::<char>::empty()).len() == 0);
    let built = ConfigV { notified: c.notified, x: c.x, y: c.y };
    assert(parse_end(seq!['}'], built) == Some(built));
    assert(built =~= c);
}

/// Appends one key in its quotes.
fn append_key(out: &mut String, k: &str)
    ensures
        final(out)@ == old(out)@ + key_seq(k@),
{
    out.append("\"");
    out.append(k);
    out.append("\"");
    proof {
        reveal_strlit("\"");
        assert(out@ =~= old(out)@ + key_seq(k@));
    }
}

/// Serializes the configuration as its canonical JSON text.
pub fn config_to_json(config: &Config) -> (r: String)
    ensures
        r@ == ser_config(config@),
{
    let mut out = String::new();
    out.append("{");
    append_key(&mut out, "notification");
    out.append(":");
    out.append("{");
    append_key(&mut out, "notified");
    out.append(":");
    out.append("[");
    proof {
        reveal_strlit("{");
        reveal_strlit(":");
        reveal_strlit("[");
        assert(out@ =~= ser_head());
    }
    let mut k: usize = 0;
    while k < config.notified.len()
        invariant
            k <= config.notified.len(),
            out@ == ser_head() + ser_int_list(config@.notified.take(k as int)),
        decreases config.notified.len() - k,
    {
        if k > 0 {
            out.append(",");
        }
        let s = int_to_string(config.notified[k]);
        out.append(s.as_str());
        proof {
            let pre = config@.notified.take(k as int);
            assert(config@.notified.take(k as int + 1) =~= pre.push(config@.notified[k as int]));
            lemma_ser_int_list_push(pre, config@.notified[k as int]);
            reveal_strlit(",");
            assert(","@ =~= seq![',']);
            assert(ser_int_list(seq![config@.notified[k as int]]) == int_chars(
                config@.notified[k as int],
            ));
            assert(out@ =~= ser_head() + ser_int_list(config@.notified.take(k as int + 1)));
        }
        k = k + 1;
    }
    proof {
        assert(config@.notified.take(config.notified@.len() as int) =~= config@.notified);
    }
    out.append("]");
    out.append("}");
    out.append(",");
    append_key(&mut out, "position");
    out.append(":");
    out.append("{");
    append_key(&mut out, "x");
    out.append(":");
    proof {
        reveal_strlit("]");
        reveal_strlit("}");
        reveal_strlit(",");
        reveal_strlit(":");
        reveal_strlit("{");
        assert(out@ =~= ser_head() + ser_int_list(config@.notified) + ser_mid1());
    }
    let sx = int_to_string(config.x as i64);
    out.append(sx.as_str());
    out.append(",");
    append_key(&mut out, "y");
    out.append(":");
    let sy = int_to_string(config.y as i64);
    out.append(sy.as_str());
    out.append("}");
    out.append("}");
    proof {
        reveal_strlit("]");
        reveal_strlit("}");
        reveal_strlit(",");
        reveal_strlit(":");
        assert(out@ =~= ser_config(config@));
    }
    out
}

// ---------------------------------------------------------------------------
// The executable parser, mirroring the specification functions above.
// ---------------------------------------------------------------------------
proof fn lemma_skip_index(s: Seq<char>, j: int)
    requires
        0 <= j < s.len(),
    ensures
        s.skip(j).len() == s.len() - j,
        s.skip(j)[0] == s[j],
        s.skip(j).drop_first() =~= s.skip(j + 1),
{
    assert(s.skip(j).drop_first() =~= s.skip(j + 1));
}

/// Whether `c` is JSON whitespace, decided in executable code.
fn is_ws_c(c: char) -> (r: bool)
    ensures
        r == is_ws(c),
{
    c == ' ' || c == '\n' || c == '\r' || c == '\t'
}

/// Advances past whitespace.
fn skip_ws_at(s: &Vec<char>, i: usize) -> (j: usize)
    requires
        i <= s.len(),
    ensures
        i <= j <= s.len(),
        s@.skip(j as int) == skip_ws(s@.skip(i as int)),
{
    let mut j = i;
    while j < s.len() && is_ws_c(s[j])
        invariant
            i <= j <= s.len(),
            skip_ws(s@.skip(i as int)) == skip_ws(s@.skip(j as int)),
        decreases s.len() - j,
    {
        proof {
            lemma_skip_index(s@, j as int);
        }
        j = j + 1;
    }
    proof {
        if j < s.len() {
            lemma_skip_index(s@, j as int);
        }
    }
    j
}

/// Reads a quoted string starting at `i`, returning its characters and the
/// position after the closing quote.
fn parse_key_at(s: &Vec<char>, i: usize) -> (r: Option<(Vec<char>, usize)>)
    requires
        i <= s.len(),
    ensures
        match parse_key(s@.skip(i as int)) {
            Some(p) => match r {
                Some(q) => {
                    &&& q.0@ == p.0
                    &&& i <= q.1 <= s.len()
                    &&& s@.skip(q.1 as int) == p.1
                },
                None => false,
            },
            None => r is None,
        },
{
    if i == s.len() {
        return None;
    }
    proof {
        lemma_skip_index(s@, i as int);
    }
    if s[i] != '"' {
        return None;
    }
    let mut j = i + 1;
    let mut out: Vec<char> = Vec::new();
    loop
        invariant
            i + 1 <= j <= s.len(),
            i < s.len(),
            s@[i as int] == '"',
            out@.len() == j - i - 1,
            match parse_string_body(s@.skip(j as int)) {
                Some(p) => parse_string_body(s@.skip(i as int + 1)) == Some((out@ + p.0, p.1)),
                None => parse_string_body(s@.skip(i as int + 1)) is None,
            },
        decreases s.len() - j,
    {
        proof {
            lemma_skip_index(s@, i as int);
        }
        if j == s.len() {
            return None;
        }
        proof {
            lemma_skip_index(s@, j as int);
        }
        let ch = s[j];
        if ch == '"' {
            proof {
                assert(out@ + Seq::<char>::empty() =~= out@);
            }
            return Some((out, j + 1));
        }
        if ch == '\\' {
            return None;
        }
        out.push(ch);
        proof {
            match parse_string_body(s@.skip(j as int + 1)) {
                Some(p) => {
                    assert(parse_string_body(s@.skip(j as int)) == Some(
                        (seq![ch] + p.0, p.1),
                    ));
                    assert(out@ + p.0 =~= out@.drop_last() + (seq![ch] + p.0));
                },
                None => {},
            }
        }
        j = j + 1;
    }
}

/// Whether the parsed key is `notification`.
fn is_key_notification(k: &Vec<char>) -> (r: bool)
    ensures
        r == (k@ == "notification"@),
{
    proof {
        reveal_strlit("notification");
    }
    if k.len() != 12 {
        return false;
    }
    let r = k[0] == 'n' && k[1] == 'o' && k[2] == 't' && k[3] == 'i' && k[4] == 'f' && k[5] == 'i'
        && k[6] == 'c' && k[7] == 'a' && k[8] == 't' && k[9] == 'i' && k[10] == 'o' && k[11] == 'n';
    proof {
        if r {
            assert(k@ =~= "notification"@);
        }
    }
    r
}

/// Whether the parsed key is `notified`.
fn is_key_notified(k: &Vec<char>) -> (r: bool)
    ensures
        r == (k@ == "notified"@),
{
    proof {
        reveal_strlit("notified");
    }
    if k.len() != 8 {
        return false;
    }
    let r = k[0] == 'n' && k[1] == 'o' && k[2] == 't' && k[3] == 'i' && k[4] == 'f' && k[5] == 'i'
        && k[6] == 'e' && k[7] == 'd';
    proof {
        if r {
            assert(k@ =~= "notified"@);
        }
    }
    r
}

/// Whether the parsed key is `position`.
fn is_key_position(k: &Vec<char>) -> (r: bool)
    ensures
        r == (k@ == "position"@),
{
    proof {
        reveal_strlit("position");
    }
    if k.len() != 8 {
        return false;
    }
    let r = k[0] == 'p' && k[1] == 'o' && k[2] == 's' && k[3] == 'i' && k[4] == 't' && k[5] == 'i'
        && k[6] == 'o' && k[7] == 'n';
    proof {
        if r {
            assert(k@ =~= "position"@);
        }
    }
    r
}

/// Whether the parsed key is `x`.
fn is_key_x(k: &Vec<char>) -> (r: bool)
    ensures
        r == (k@ == "x"@),
{
    proof {
        reveal_strlit("x");
    }
    if k.len() != 1 {
        return false;
    }
    let r = k[0] == 'x';
    proof {
        if r {
            assert(k@ =~= "x"@);
        }
    }
    r
}

/// Whether the parsed key is `y`.
fn is_key_y(k: &Vec<char>) -> (r: bool)
    ensures
        r == (k@ == "y"@),
{
    proof {
        reveal_strlit("y");
    }
    if k.len() != 1 {
        return false;
    }
    let r = k[0] == 'y';
    proof {
        if r {
            assert(k@ =~= "y"@);
        }
    }
    r
}

/// Whether every element of a parsed list fits an `i64`.
pub open spec fn list_bounded(vs: Seq<int>) -> bool {
    forall|k: int| 0 <= k < vs.len() ==> i64::MIN <= #[trigger] vs[k] <= i64::MAX
}

proof fn lemma_as_ints_bounded(v: Seq<i64>)
    ensures
        list_bounded(as_ints(v)),
{
    assert forall|k: int| 0 <= k < as_ints(v).len() implies i64::MIN <= #[trigger] as_ints(v)[k]
        <= i64::MAX by {
        assert(as_ints(v)[k] == v[k] as int);
    }
}

proof fn lemma_parse_list_rest_prefix(s: Seq<char>, acc: Seq<int>)
    ensures
        parse_int_list_rest(s, acc) matches Some(p) ==> p.0.len() >= acc.len() && p.0.take(
            acc.len() as int,
        ) == acc,
    decreases s.len(),
{
    let t = skip_ws(s);
    lemma_skip_ws_len(s);
    if t.len() > 0 && t[0] == ']' {
        assert(acc.take(acc.len() as int) =~= acc);
    } else if t.len() > 0 && t[0] == ',' {
        let u = skip_ws(t.drop_first());
        lemma_skip_ws_len(t.drop_first());
        match parse_int(u) {
            Some(p2) => {
                lemma_parse_int_len(u);
                lemma_parse_list_rest_prefix(p2.1, acc.push(p2.0));
                match parse_int_list_rest(p2.1, acc.push(p2.0)) {
                    Some(p3) => {
                        assert(p3.0.take(acc.len() as int + 1) == acc.push(p2.0));
                        assert(p3.0.take(acc.len() as int) =~= acc);
                    },
                    None => {},
                }
            },
            None => {},
        }
    }
}

/// The models of the collected elements.
pub open spec fn as_ints(v: Seq<i64>) -> Seq<int> {
    v.map_values(|x: i64| x as int)
}

/// Reads an integer array starting at `i`; `None` when the text has none
/// there or an element does not fit an `i64`.
fn parse_int_array_at(s: &Vec<char>, i: usize) -> (r: Option<(Vec<i64>, usize)>)
    requires
        i <= s.len(),
    ensures
        match parse_int_array(s@.skip(i as int)) {
            Some(p) => {
                if list_bounded(p.0) {
                    match r {
                        Some(q) => {
                            &&& as_ints(q.0@) == p.0
                            &&& i <= q.1 <= s.len()
                            &&& s@.skip(q.1 as int) == p.1
                        },
                        None => false,
                    }
                } else {
                    r is None
                }
            },
            None => r is None,
        },
{
    let ghost s0 = s@.skip(i as int);
    if i == s.len() {
        return None;
    }
    proof {
        lemma_skip_index(s@, i as int);
    }
    if s[i] != '[' {
        return None;
    }
    let t: usize = skip_ws_at(s, i + 1);
    let ghost whole = parse_int_array(s0);
    if t < s.len() && s[t] == ']' {
        proof {
            lemma_skip_index(s@, t as int);
            assert(as_ints(Seq::<i64>::empty()) =~= Seq::<int>::empty());
        }
        let out: Vec<i64> = Vec::new();
        return Some((out, t + 1));
    }
    proof {
        if t < s.len() {
            lemma_skip_index(s@, t as int);
        }
    }
    match parse_int_at(s, t) {
        None => {
            proof {
                match parse_int(s@.skip(t as int)) {
                    Some(p) => {
                        lemma_parse_list_rest_prefix(p.1, seq![p.0]);
                        match parse_int_list_rest(p.1, seq![p.0]) {
                            Some(p3) => {
                                assert(p3.0.take(1)[0] == p.0);
                                assert(p3.0[0] == p.0);
                                assert(!list_bounded(p3.0));
                            },
                            None => {},
                        }
                    },
                    None => {},
                }
            }
            None
        },
        Some((v0, j0)) => {
            let mut out: Vec<i64> = Vec::new();
            out.push(v0);
            let mut cur = j0;
            proof {
                assert(as_ints(out@) =~= seq![v0 as int]);
            }
            loop
                invariant
                    i <= cur <= s.len(),
                    whole == parse_int_array(s@.skip(i as int)),
                    parse_int_list_rest(s@.skip(cur as int), as_ints(out@)) == whole,
                decreases s.len() - cur,
            {
                let t2: usize = skip_ws_at(s, cur);
                proof {
                    if t2 < s.len() {
                        lemma_skip_index(s@, t2 as int);
                    }
                }
                if t2 < s.len() && s[t2] == ']' {
                    proof {
                        lemma_as_ints_bounded(out@);
                    }
                    return Some((out, t2 + 1));
                }
                if !(t2 < s.len() && s[t2] == ',') {
                    return None;
                }
                let u: usize = skip_ws_at(s, t2 + 1);
                proof {
                    if u < s.len() {
                        lemma_skip_index(s@, u as int);
                    }
                    lemma_skip_ws_len(s@.skip(t2 as int + 1));
                }
                match parse_int_at(s, u) {
                    None => {
                        proof {
                            match parse_int(s@.skip(u as int)) {
                                Some(p) => {
                                    lemma_parse_list_rest_prefix(p.1, as_ints(out@).push(p.0));
                                    match parse_int_list_rest(p.1, as_ints(out@).push(p.0)) {
                                        Some(p3) => {
                                            let n = as_ints(out@).len() as int;
                                            assert(p3.0.take(n + 1)[n] == p.0);
                                            assert(p3.0[n] == p.0);
                                            assert(!list_bounded(p3.0));
                                        },
                                        None => {},
                                    }
                                },
                                None => {},
                            }
                        }
                        return None;
                    },
                    Some((v2, j2)) => {
                        proof {
                            assert(as_ints(out@.push(v2)) =~= as_ints(out@).push(v2 as int));
                        }
                        out.push(v2);
                        // The parsed value consumed at least one character,
                        // so the loop advances.
                        proof {
                            lemma_parse_int_len(s@.skip(u as int));
                            lemma_skip_ws_len(s@.skip(t2 as int + 1));
                        }
                        cur = j2;
                    },
                }
            }
        },
    }
}

/// Reads the notification section starting at `i`.
fn parse_notification_at(s: &Vec<char>, i: usize) -> (r: Option<(Vec<i64>, usize)>)
    requires
        i <= s.len(),
    ensures
        match parse_notification(s@.skip(i as int)) {
            Some(p) => {
                if list_bounded(p.0) {
                    match r {
                        Some(q) => {
                            &&& as_ints(q.0@) == p.0
                            &&& i <= q.1 <= s.len()
                            &&& s@.skip(q.1 as int) == p.1
                        },
                        None => false,
                    }
                } else {
                    r is None
                }
            },
            None => r is None,
        },
{
    if i == s.len() {
        return None;
    }
    proof {
        lemma_skip_index(s@, i as int);
    }
    if s[i] != '{' {
        return None;
    }
    let a: usize = skip_ws_at(s, i + 1);
    match parse_key_at(s, a) {
        None => None,
        Some((k, r1)) => {
            if !is_key_notified(&k) {
                return None;
            }
            let r2: usize = skip_ws_at(s, r1);
            if r2 == s.len() {
                return None;
            }
            proof {
                lemma_skip_index(s@, r2 as int);
            }
            if s[r2] != ':' {
                return None;
            }
            let r2b: usize = skip_ws_at(s, r2 + 1);
            match parse_int_array_at(s, r2b) {
                None => None,
                Some((vs, r3)) => {
                    let r4: usize = skip_ws_at(s, r3);
                    if r4 == s.len() {
                        return None;
                    }
                    proof {
                        lemma_skip_index(s@, r4 as int);
                    }
                    if s[r4] != '}' {
                        return None;
                    }
                    Some((vs, r4 + 1))
                },
            }
        },
    }
}

/// Reads one `"key": int` pair starting at `i`.
fn parse_kv_int_at(s: &Vec<char>, i: usize) -> (r: Option<(Vec<char>, i64, usize)>)
    requires
        i <= s.len(),
    ensures
        match parse_kv_int(s@.skip(i as int)) {
            Some(p) => {
                if i64::MIN <= p.0.1 <= i64::MAX {
                    match r {
                        Some(q) => {
                            &&& q.0@ == p.0.0
                            &&& q.1 == p.0.1
                            &&& i <= q.2 <= s.len()
                            &&& s@.skip(q.2 as int) == p.1
                        },
                        None => false,
                    }
                } else {
                    r is None
                }
            },
            None => r is None,
        },
{
    let a: usize = skip_ws_at(s, i);
    match parse_key_at(s, a) {
        None => None,
        Some((k, r1)) => {
            let r2: usize = skip_ws_at(s, r1);
            if r2 == s.len() {
                return None;
            }
            proof {
                lemma_skip_index(s@, r2 as int);
            }
            if s[r2] != ':' {
                return None;
            }
            let u: usize = skip_ws_at(s, r2 + 1);
            match parse_int_at(s, u) {
                None => None,
                Some((v, j)) => Some((k, v, j)),
            }
        },
    }
}

/// Reads the position section starting at `i`.
fn parse_position_at(s: &Vec<char>, i: usize) -> (r: Option<(i32, i32, usize)>)
    requires
        i <= s.len(),
    ensures
        match parse_position(s@.skip(i as int)) {
            Some(p) => {
                if i32::MIN <= p.0.0 <= i32::MAX && i32::MIN <= p.0.1 <= i32::MAX {
                    match r {
                        Some(q) => {
                            &&& q.0 == p.0.0
                            &&& q.1 == p.0.1
                            &&& i <= q.2 <= s.len()
                            &&& s@.skip(q.2 as int) == p.1
                        },
                        None => false,
                    }
                } else {
                    r is None
                }
            },
            None => r is None,
        },
{
    if i == s.len() {
        return None;
    }
    proof {
        lemma_skip_index(s@, i as int);
    }
    if s[i] != '{' {
        return None;
    }
    match parse_kv_int_at(s, i + 1) {
        None => None,
        Some((k1, v1, r1)) => {
            let r2: usize = skip_ws_at(s, r1);
            if r2 == s.len() {
                return None;
            }
            proof {
                lemma_skip_index(s@, r2 as int);
            }
            if s[r2] != ',' {
                return None;
            }
            match parse_kv_int_at(s, r2 + 1) {
                None => None,
                Some((k2, v2, r3)) => {
                    let r4: usize = skip_ws_at(s, r3);
                    if r4 == s.len() {
                        return None;
                    }
                    proof {
                        lemma_skip_index(s@, r4 as int);
                    }
                    if s[r4] != '}' {
                        return None;
                    }
                    let k1x = is_key_x(&k1);
                    let k1y = is_key_y(&k1);
                    let k2x = is_key_x(&k2);
                    let k2y = is_key_y(&k2);
                    let vx: i64;
                    let vy: i64;
                    if k1x && k2y {
                        vx = v1;
                        vy = v2;
                    } else if k1y && k2x {
                        vx = v2;
                        vy = v1;
                    } else {
                        return None;
                    }
                    if vx < -2147483648i64 || vx > 2147483647i64 {
                        return None;
                    }
                    if vy < -2147483648i64 || vy > 2147483647i64 {
                        return None;
                    }
                    Some((vx as i32, vy as i32, r4 + 1))
                },
            }
        },
    }
}

/// Checks the closing brace and that only whitespace follows it.
fn parse_end_at(s: &Vec<char>, i: usize) -> (r: bool)
    requires
        i <= s.len(),
    ensures
        forall|c: ConfigV| parse_end(s@.skip(i as int), c) == if r {
            Some(c)
        } else {
            None::<ConfigV>
        },
{
    let t: usize = skip_ws_at(s, i);
    if t == s.len() {
        return false;
    }
    proof {
        lemma_skip_index(s@, t as int);
    }
    if s[t] != '}' {
        return false;
    }
    let e: usize = skip_ws_at(s, t + 1);
    e == s.len()
}

/// Reads `, "position": { .. }` starting at `i`.
fn parse_tail_position_at(s: &Vec<char>, i: usize) -> (r: Option<(i32, i32, usize)>)
    requires
        i <= s.len(),
    ensures
        match parse_tail_position(s@.skip(i as int)) {
            Some(p) => {
                if i32::MIN <= p.0.0 <= i32::MAX && i32::MIN <= p.0.1 <= i32::MAX {
                    match r {
                        Some(q) => {
                            &&& q.0 == p.0.0
                            &&& q.1 == p.0.1
                            &&& i <= q.2 <= s.len()
                            &&& s@.skip(q.2 as int) == p.1
                        },
                        None => false,
                    }
                } else {
                    r is None
                }
            },
            None => r is None,
        },
{
    let t: usize = skip_ws_at(s, i);
    if t == s.len() {
        return None;
    }
    proof {
        lemma_skip_index(s@, t as int);
    }
    if s[t] != ',' {
        return None;
    }
    let b: usize = skip_ws_at(s, t + 1);
    match parse_key_at(s, b) {
        None => None,
        Some((k2, q1)) => {
            if !is_key_position(&k2) {
                return None;
            }
            let q2: usize = skip_ws_at(s, q1);
            if q2 == s.len() {
                return None;
            }
            proof {
                lemma_skip_index(s@, q2 as int);
            }
            if s[q2] != ':' {
                return None;
            }
            let q3: usize = skip_ws_at(s, q2 + 1);
            parse_position_at(s, q3)
        },
    }
}

/// Reads `, "notification": { .. }` starting at `i`.
fn parse_tail_notification_at(s: &Vec<char>, i: usize) -> (r: Option<(Vec<i64>, usize)>)
    requires
        i <= s.len(),
    ensures
        match parse_tail_notification(s@.skip(i as int)) {
            Some(p) => {
                if list_bounded(p.0) {
                    match r {
                        Some(q) => {
                            &&& as_ints(q.0@) == p.0
                            &&& i <= q.1 <= s.len()
                            &&& s@.skip(q.1 as int) == p.1
                        },
                        None => false,
                    }
                } else {
                    r is None
                }
            },
            None => r is None,
        },
{
    let t: usize = skip_ws_at(s, i);
    if t == s.len() {
        return None;
    }
    proof {
        lemma_skip_index(s@, t as int);
    }
    if s[t] != ',' {
        return None;
    }
    let b: usize = skip_ws_at(s, t + 1);
    match parse_key_at(s, b) {
        None => None,
        Some((k2, q1)) => {
            if !is_key_notification(&k2) {
                return None;
            }
            let q2: usize = skip_ws_at(s, q1);
            if q2 == s.len() {
                return None;
            }
            proof {
                lemma_skip_index(s@, q2 as int);
            }
            if s[q2] != ':' {
                return None;
            }
            let q3: usize = skip_ws_at(s, q2 + 1);
            parse_notification_at(s, q3)
        },
    }
}

/// Parses a whole configuration document; `None` exactly when the text is not
/// of the configuration grammar or a number in it does not fit the machine
/// type holding it.
pub fn parse_config(s: &Vec<char>) -> (r: Option<Config>)
    ensures
        match parse_config_chars(s@) {
            Some(c) => {
                if bounded_config(c) {
                    match r {
                        Some(cfg) => cfg@ == c,
                        None => false,
                    }
                } else {
                    r is None
                }
            },
            None => r is None,
        },
{
    proof {
        assert(s@.skip(0) =~= s@);
    }
    let t0: usize = skip_ws_at(s, 0);
    if t0 == s.len() {
        return None;
    }
    proof {
        lemma_skip_index(s@, t0 as int);
    }
    if s[t0] != '{' {
        return None;
    }
    let a: usize = skip_ws_at(s, t0 + 1);
    match parse_key_at(s, a) {
        None => None,
        Some((k1, r1)) => {
            let r2: usize = skip_ws_at(s, r1);
            if r2 == s.len() {
                return None;
            }
            proof {
                lemma_skip_index(s@, r2 as int);
            }
            if s[r2] != ':' {
                return None;
            }
            let v1: usize = skip_ws_at(s, r2 + 1);
            if is_key_notification(&k1) {
                match parse_notification_at(s, v1) {
                    None => {
                        proof {
                            match parse_notification(s@.skip(v1 as int)) {
                                Some(p) => {
                                    assert(!list_bounded(p.0));
                                    let k0 = choose|k: int|
                                        0 <= k < p.0.len() && !(i64::MIN <= #[trigger] p.0[k]
                                            <= i64::MAX);
                                    match parse_config_chars(s@) {
                                        Some(c) => {
                                            assert(c.notified == p.0);
                                            assert(!(i64::MIN <= c.notified[k0] <= i64::MAX));
                                            assert(!bounded_config(c));
                                        },
                                        None => {},
                                    }
                                },
                                None => {},
                            }
                        }
                        None
                    },
                    Some((ns, r3)) => match parse_tail_position_at(s, r3) {
                        None => {
                            proof {
                                match parse_tail_position(s@.skip(r3 as int)) {
                                    Some(p) => {
                                        match parse_config_chars(s@) {
                                            Some(c) => {
                                                assert(c.x == p.0.0 && c.y == p.0.1);
                                                assert(!bounded_config(c));
                                            },
                                            None => {},
                                        }
                                    },
                                    None => {},
                                }
                            }
                            None
                        },
                        Some((x, y, r4)) => {
                            if parse_end_at(s, r4) {
                                let cfg = Config { notified: ns, x, y };
                                proof {
                                    assert(cfg@.notified =~= as_ints(cfg.notified@));
                                }
                                Some(cfg)
                            } else {
                                None
                            }
                        },
                    },
                }
            } else if is_key_position(&k1) {
                match parse_position_at(s, v1) {
                    None => {
                        proof {
                            match parse_position(s@.skip(v1 as int)) {
                                Some(p) => {
                                    match parse_config_chars(s@) {
                                        Some(c) => {
                                            assert(c.x == p.0.0 && c.y == p.0.1);
                                            assert(!bounded_config(c));
                                        },
                                        None => {},
                                    }
                                },
                                None => {},
                            }
                        }
                        None
                    },
                    Some((x, y, r3)) => match parse_tail_notification_at(s, r3) {
                        None => {
                            proof {
                                match parse_tail_notification(s@.skip(r3 as int)) {
                                    Some(p) => {
                                        assert(!list_bounded(p.0));
                                        let k0 = choose|k: int|
                                            0 <= k < p.0.len() && !(i64::MIN <= #[trigger] p.0[k]
                                                <= i64::MAX);
                                        match parse_config_chars(s@) {
                                            Some(c) => {
                                                assert(c.notified == p.0);
                                                assert(!(i64::MIN <= c.notified[k0] <= i64::MAX));
                                                assert(!bounded_config(c));
                                            },
                                            None => {},
                                        }
                                    },
                                    None => {},
                                }
                            }
                            None
                        },
                        Some((ns, r4)) => {
                            if parse_end_at(s, r4) {
                                let cfg = Config { notified: ns, x, y };
                                proof {
                                    assert(cfg@.notified =~= as_ints(cfg.notified@));
                                }
                                Some(cfg)
                            } else {
                                None
                            }
                        },
                    },
                }
            } else {
                None
            }
        },
    }
}

/// The model a stored text loads to: the parsed configuration, or the default
/// when the text is not a well-formed configuration document.
pub open spec fn loaded_config(s: Seq<char>) -> ConfigV {
    match parse_config_chars(s) {
        Some(m) => if bounded_config(m) {
            m
        } else {
            crate::config::default_config_v()
        },
        None => crate::config::default_config_v(),
    }
}

/// The configuration read from the stored text, or the default when the text
/// is not a well-formed configuration document.
pub fn load_config(s: &Vec<char>) -> (c: Config)
    ensures
        c@ == loaded_config(s@),
{
    match parse_config(s) {
        Some(c) => c,
        None => crate::config::default_config(),
    }
}
} // verus!