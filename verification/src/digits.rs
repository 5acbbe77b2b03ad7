use vstd::prelude::*;

verus! {

/// The character standing for a single decimal digit value.
pub open spec fn digit_char(d: int) -> char {
    ((48 + d) as u8) as char
}

/// Whether `c` is one of the ten decimal digit characters.
pub open spec fn is_digit(c: char) -> bool {
    48 <= c as u32 <= 57
}

/// The numeric value of a decimal digit character.
pub open spec fn digit_val(c: char) -> int {
    c as u32 - 48
}

pub proof fn lemma_digit_char_val(d: int)
    requires
        0 <= d < 10,
    ensures
        is_digit(digit_char(d)),
        digit_val(digit_char(d)) == d,
{
}

/// Decimal digits of `n`, most significant digit first, no leading zeros.
pub open spec fn dec_chars(n: nat) -> Seq<char>
    decreases n,
{
    if n < 10 {
        seq![digit_char(n as int)]
    } else {
        dec_chars(n / 10) + seq![digit_char((n % 10) as int)]
    }
}

/// Decimal text of an integer, with a leading minus sign when negative.
pub open spec fn int_chars(n: int) -> Seq<char> {
    if n < 0 {
        seq!['-'] + dec_chars((-n) as nat)
    } else {
        dec_chars(n as nat)
    }
}

pub proof fn lemma_dec_chars_first_digit(n: nat)
    ensures
        dec_chars(n).len() >= 1,
        is_digit(dec_chars(n)[0]),
    decreases n,
{
    if n < 10 {
        lemma_digit_char_val(n as int);
    } else {
        lemma_dec_chars_first_digit(n / 10);
    }
}

/// Whether `c` is a decimal digit character, decided in executable code.
pub fn is_digit_c(c: char) -> (r: bool)
    ensures
        r == is_digit(c),
{
    let u = c as u32;
    48 <= u && u <= 57
}

/// Appends the decimal digits of `n` to `out`.
pub fn push_dec_chars(n: u64, out: &mut Vec<char>)
    ensures
        final(out)@ == old(out)@ + dec_chars(n as nat),
    decreases n,
{
    if n >= 10 {
        push_dec_chars(n / 10, out);
    }
    let d: u8 = (n % 10) as u8;
    out.push((48 + d) as char);
    proof {
        assert(out@ =~= old(out)@ + dec_chars(n as nat));
    }
}

/// Appends the decimal text of `n`, with a minus sign when negative, to `out`.
pub fn push_int_chars(n: i64, out: &mut Vec<char>)
    ensures
        final(out)@ == old(out)@ + int_chars(n as int),
{
    if n < 0 {
        out.push('-');
        let m: u64 = if n == i64::MIN {
            9223372036854775808u64
        } else {
            (-n) as u64
        };
        push_dec_chars(m, out);
        proof {
            assert(out@ =~= old(out)@ + int_chars(n as int));
        }
    } else {
        push_dec_chars(n as u64, out);
    }
}

/// Greedily consumes decimal digit characters from the front of `s`,
/// extending the accumulated value `acc`; returns the value and the rest.
pub open spec fn parse_digits(s: Seq<char>, acc: int) -> (int, Seq<char>)
    decreases s.len(),
{
    if s.len() > 0 && is_digit(s[0]) {
        parse_digits(s.drop_first(), acc * 10 + digit_val(s[0]))
    } else {
        (acc, s)
    }
}

/// Parses an optionally signed decimal integer from the front of `s`.
pub open spec fn parse_int(s: Seq<char>) -> Option<(int, Seq<char>)> {
    if s.len() > 0 && s[0] == '-' {
        if s.len() > 1 && is_digit(s[1]) {
            let (v, rest) = parse_digits(s.drop_first(), 0);
            Some((-v, rest))
        } else {
            None
        }
    } else if s.len() > 0 && is_digit(s[0]) {
        let (v, rest) = parse_digits(s, 0);
        Some((v, rest))
    } else {
        None
    }
}

pub open spec fn ten_pow(k: nat) -> int
    decreases k,
{
    if k == 0 {
        1
    } else {
        10 * ten_pow((k - 1) as nat)
    }
}

pub proof fn lemma_parse_digits_nonneg(s: Seq<char>, acc: int)
    requires
        acc >= 0,
    ensures
        parse_digits(s, acc).0 >= acc,
    decreases s.len(),
{
    if s.len() > 0 && is_digit(s[0]) {
        lemma_parse_digits_nonneg(s.drop_first(), acc * 10 + digit_val(s[0]));
    }
}

/// Parsing digits right after the decimal rendering of `n` consumes exactly
/// those digits, scaling the accumulator past them.
pub proof fn lemma_parse_digits_append(n: nat, rest: Seq<char>, acc: int)
    ensures
        parse_digits(dec_chars(n) + rest, acc) == parse_digits(
            rest,
            acc * ten_pow(dec_chars(n).len() as nat) + n,
        ),
    decreases n,
{
    let s = dec_chars(n) + rest;
    if n < 10 {
        lemma_digit_char_val(n as int);
        assert(s[0] == digit_char(n as int));
        assert(s.drop_first() =~= rest);
        assert(ten_pow(0) == 1);
        assert(ten_pow(1) == 10);
    } else {
        let d = (n % 10) as int;
        let tail = seq![digit_char(d)] + rest;
        assert(s =~= dec_chars(n / 10) + tail);
        lemma_parse_digits_append(n / 10, tail, acc);
        let k1 = dec_chars(n / 10).len() as nat;
        let a1 = acc * ten_pow(k1) + n / 10;
        lemma_digit_char_val(d);
        assert(tail[0] == digit_char(d));
        assert(tail.drop_first() =~= rest);
        assert(parse_digits(tail, a1) == parse_digits(rest, a1 * 10 + d));
        assert(dec_chars(n).len() == k1 + 1);
        assert(ten_pow(k1 + 1) == 10 * ten_pow(k1));
        assert(n / 10 * 10 + n % 10 == n) by {
            vstd::arithmetic::div_mod::lemma_fundamental_div_mod(n as int, 10);
        }
        assert(a1 * 10 + d == acc * ten_pow(k1 + 1) + n) by (nonlinear_arith)
            requires
                a1 == acc * ten_pow(k1) + n / 10,
                d == n % 10,
                ten_pow(k1 + 1) == 10 * ten_pow(k1),
                n / 10 * 10 + n % 10 == n,
        ;
    }
}

/// Parsing an integer right after its decimal rendering returns that integer,
/// provided the following character is not a digit.
pub proof fn lemma_parse_int_chars(n: int, rest: Seq<char>)
    requires
        rest.len() == 0 || !is_digit(rest[0]),
    ensures
        parse_int(int_chars(n) + rest) == Some((n, rest)),
{
    if n < 0 {
        let m = (-n) as nat;
        let s = int_chars(n) + rest;
        assert(s[0] == '-');
        assert(!is_digit('-'));
        lemma_dec_chars_first_digit(m);
        assert(s.drop_first() =~= dec_chars(m) + rest);
        assert(s[1] == dec_chars(m)[0]);
        lemma_parse_digits_append(m, rest, 0);
        assert(parse_digits(rest, m as int) == (m as int, rest));
    } else {
        let m = n as nat;
        let s = int_chars(n) + rest;
        lemma_dec_chars_first_digit(m);
        assert(s[0] == dec_chars(m)[0]);
        assert(s[0] != '-');
        assert(s =~= dec_chars(m) + rest);
        lemma_parse_digits_append(m, rest, 0);
        assert(parse_digits(rest, m as int) == (m as int, rest));
    }
}

/// Consumes a run of decimal digits of `s` starting at `i`, returning the
/// accumulated value and the position after the run; `None` when the value
/// does not fit in a `u64`.
pub fn parse_digits_at(s: &Vec<char>, i: usize) -> (r: Option<(u64, usize)>)
    requires
        i <= s.len(),
    ensures
        match r {
            Some(p) => {
                &&& i <= p.1 <= s.len()
                &&& parse_digits(s@.skip(i as int), 0) == (p.0 as int, s@.skip(p.1 as int))
                &&& (p.1 == s.len() || !is_digit(s@[p.1 as int]))
            },
            None => parse_digits(s@.skip(i as int), 0).0 > u64::MAX,
        },
{
    let ghost whole = parse_digits(s@.skip(i as int), 0);
    let mut j = i;
    let mut macc: u64 = 0;
    while j < s.len() && is_digit_c(s[j])
        invariant
            i <= j <= s.len(),
            whole == parse_digits(s@.skip(i as int), 0),
            parse_digits(s@.skip(j as int), macc as int) == whole,
        decreases s.len() - j,
    {
        let d: u32 = (s[j] as u32) - 48;
        proof {
            assert(s@.skip(j as int)[0] == s@[j as int]);
            assert(s@.skip(j as int).drop_first() =~= s@.skip(j as int + 1));
            assert(parse_digits(s@.skip(j as int + 1), macc as int * 10 + d) == whole);
        }
        let step = match macc.checked_mul(10) {
            Some(x) => x.checked_add(d as u64),
            None => None,
        };
        match step {
            Some(next) => {
                macc = next;
                j = j + 1;
            },
            None => {
                proof {
                    lemma_parse_digits_nonneg(
                        s@.skip(j as int + 1),
                        macc as int * 10 + d,
                    );
                    assert(macc as int * 10 + d as int > u64::MAX);
                    assert(whole.0 >= macc as int * 10 + d as int);
                    assert(whole.0 > u64::MAX);
                    assert(parse_digits(s@.skip(i as int), 0).0 > u64::MAX);
                }
                return None;
            },
        }
    }
    proof {
        let tail = s@.skip(j as int);
        assert(tail.len() == 0 || !is_digit(tail[0]));
        assert(parse_digits(tail, macc as int) == (macc as int, tail));
    }
    Some((macc, j))
}

/// Parses an optionally signed decimal integer of `s` starting at `i`;
/// `None` exactly when no integer starts there or it does not fit in an `i64`.
pub fn parse_int_at(s: &Vec<char>, i: usize) -> (r: Option<(i64, usize)>)
    requires
        i <= s.len(),
    ensures
        match parse_int(s@.skip(i as int)) {
            Some(p) => {
                if i64::MIN <= p.0 <= i64::MAX {
                    match r {
                        Some(q) => {
                            &&& q.0 == p.0
                            &&& i <= q.1 <= s.len()
                            &&& s@.skip(q.1 as int) == p.1
                        },
                        None => false,
                    }
                } else {
                    r is None
                }
            },
            None => r is None,
        },
{
    let ghost s0 = s@.skip(i as int);
    if i < s.len() && s[i] == '-' {
        proof {
            assert(s0[0] == s@[i as int]);
            assert(!is_digit('-'));
            assert(s0.drop_first() =~= s@.skip(i as int + 1));
            if s0.len() > 1 {
                assert(s0[1] == s@[i as int + 1]);
            }
        }
        if i + 1 < s.len() && is_digit_c(s[i + 1]) {
            match parse_digits_at(s, i + 1) {
                Some((m, j)) => {
                    if m <= 9223372036854775807u64 {
                        Some((-(m as i64), j))
                    } else if m == 9223372036854775808u64 {
                        Some((i64::MIN, j))
                    } else {
                        None
                    }
                },
                None => None,
            }
        } else {
            None
        }
    } else if i < s.len() && is_digit_c(s[i]) {
        proof {
            assert(s0[0] == s@[i as int]);
        }
        match parse_digits_at(s, i) {
            Some((m, j)) => {
                if m <= 9223372036854775807u64 {
                    Some((m as i64, j))
                } else {
                    None
                }
            },
            None => None,
        }
    } else {
        proof {
            if s0.len() > 0 {
                assert(s0[0] == s@[i as int]);
            }
        }
        None
    }
}

} // verus!
