//! Texts of floating-point numbers: which texts are such, without their values.

use crate::text::{chars_of, is_digit};
use vstd::prelude::*;

verus! {

broadcast use vstd::string::group_string_axioms;

/// The first place of either of two characters, or the length if neither occurs.
pub open spec fn first_of(s: Seq<char>, a: char, b: char) -> int
    decreases s.len(),
{
    if s.len() == 0 {
        0
    } else if first_of(s.drop_last(), a, b) < s.len() - 1 {
        first_of(s.drop_last(), a, b)
    } else if s.last() == a || s.last() == b {
        s.len() - 1
    } else {
        s.len() as int
    }
}

/// `s` without the sign it may begin with.
pub open spec fn unsigned(s: Seq<char>) -> Seq<char> {
    if s.len() > 0 && (s[0] == '+' || s[0] == '-') {
        s.skip(1)
    } else {
        s
    }
}

/// Decimal digits only, or nothing.
pub open spec fn digits(s: Seq<char>) -> bool {
    forall|i: int| 0 <= i < s.len() ==> is_digit(#[trigger] s[i])
}

/// The word in either case, letter by letter.
pub open spec fn is_word(s: Seq<char>, lower: Seq<char>, upper: Seq<char>) -> bool {
    s.len() == lower.len() && forall|i: int|
        0 <= i < s.len() ==> #[trigger] s[i] == lower[i] || s[i] == upper[i]
}

/// At least one digit, with at most one point somewhere.
pub open spec fn mantissa(s: Seq<char>) -> bool {
    let point = first_of(s, '.', '.');
    if point < s.len() {
        digits(s.take(point)) && digits(s.skip(point + 1)) && s.len() > 1
    } else {
        digits(s) && s.len() > 0
    }
}

/// A mantissa, and behind an `e` a whole number that may have a sign, if there is an `e`.
pub open spec fn number(s: Seq<char>) -> bool {
    let e = first_of(s, 'e', 'E');
    if e < s.len() {
        let exponent = unsigned(s.skip(e + 1));
        mantissa(s.take(e)) && digits(exponent) && exponent.len() > 0
    } else {
        mantissa(s)
    }
}

/// The text of a floating-point number: a number, an infinity or NaN, with or without a sign.
pub open spec fn number_text(s: Seq<char>) -> bool {
    let u = unsigned(s);
    ||| is_word(u, "inf"@, "INF"@)
    ||| is_word(u, "infinity"@, "INFINITY"@)
    ||| is_word(u, "nan"@, "NAN"@)
    ||| number(u)
}

/// A place is the first of either character.
pub proof fn lemma_first_of(s: Seq<char>, a: char, b: char)
    ensures
        0 <= first_of(s, a, b) <= s.len(),
        first_of(s, a, b) < s.len() ==> s[first_of(s, a, b)] == a || s[first_of(s, a, b)] == b,
        forall|i: int| 0 <= i < first_of(s, a, b) ==> #[trigger] s[i] != a && s[i] != b,
    decreases s.len(),
{
    if s.len() > 0 {
        lemma_first_of(s.drop_last(), a, b);
        assert forall|i: int| 0 <= i < first_of(s, a, b) implies #[trigger] s[i] != a && s[i]
            != b by {
            if i < s.len() - 1 {
                assert(s.drop_last()[i] == s[i]);
            }
        }
    }
}

/// The first place of either character among `c[from..to]`, counted from `from`.
fn find(c: &Vec<char>, from: usize, to: usize, a: char, b: char) -> (r: usize)
    requires
        from <= to <= c.len(),
    ensures
        r == first_of(c@.subrange(from as int, to as int), a, b),
        r <= to - from,
{
    let ghost s = c@.subrange(from as int, to as int);
    proof {
        lemma_first_of(s, a, b);
    }
    let mut i: usize = from;
    while i < to
        invariant
            from <= i <= to <= c.len(),
            s == c@.subrange(from as int, to as int),
            first_of(s, a, b) >= i - from,
            0 <= first_of(s, a, b) <= s.len(),
            first_of(s, a, b) < s.len() ==> s[first_of(s, a, b)] == a || s[first_of(s, a, b)] == b,
            forall|k: int| 0 <= k < first_of(s, a, b) ==> #[trigger] s[k] != a && s[k] != b,
        decreases to - i,
    {
        assert(s[i - from] == c@[i as int]);
        if c[i] == a || c[i] == b {
            return i - from;
        }
        i = i + 1;
    }
    to - from
}

/// Whether `c[from..to]` holds digits only.
fn are_digits(c: &Vec<char>, from: usize, to: usize) -> (r: bool)
    requires
        from <= to <= c.len(),
    ensures
        r == digits(c@.subrange(from as int, to as int)),
{
    let ghost s = c@.subrange(from as int, to as int);
    let mut i: usize = from;
    while i < to
        invariant
            from <= i <= to <= c.len(),
            s == c@.subrange(from as int, to as int),
            forall|k: int| 0 <= k < i - from ==> is_digit(#[trigger] s[k]),
        decreases to - i,
    {
        assert(s[i - from] == c@[i as int]);
        if c[i] < '0' || c[i] > '9' {
            assert(!is_digit(s[i - from]));
            return false;
        }
        i = i + 1;
    }
    true
}

/// Where `c[from..to]` begins without its sign.
fn behind_sign(c: &Vec<char>, from: usize, to: usize) -> (r: usize)
    requires
        from <= to <= c.len(),
    ensures
        from <= r <= to,
        c@.subrange(r as int, to as int) == unsigned(c@.subrange(from as int, to as int)),
{
    if from < to && (c[from] == '+' || c[from] == '-') {
        assert(c@.subrange(from + 1, to as int) =~= c@.subrange(from as int, to as int).skip(1));
        from + 1
    } else {
        from
    }
}

/// Whether `c[from..]` is the word.
fn reads(c: &Vec<char>, from: usize, lower: &str, upper: &str) -> (r: bool)
    requires
        from <= c.len(),
        lower@.len() == upper@.len(),
    ensures
        r == is_word(c@.skip(from as int), lower@, upper@),
{
    let l: Vec<char> = chars_of(lower);
    let u: Vec<char> = chars_of(upper);
    if c.len() - from != l.len() {
        return false;
    }
    let ghost s = c@.skip(from as int);
    let mut i: usize = 0;
    while i < l.len()
        invariant
            from + l.len() == c.len(),
            l@ == lower@,
            u@ == upper@,
            l.len() == u.len(),
            s == c@.skip(from as int),
            i <= l.len(),
            forall|k: int| 0 <= k < i ==> #[trigger] s[k] == l@[k] || s[k] == u@[k],
        decreases l.len() - i,
    {
        assert(s[i as int] == c@[from + i]);
        if c[from + i] != l[i] && c[from + i] != u[i] {
            return false;
        }
        i = i + 1;
    }
    true
}

/// Whether `c[from..to]` is a mantissa.
fn is_mantissa(c: &Vec<char>, from: usize, to: usize) -> (r: bool)
    requires
        from <= to <= c.len(),
    ensures
        r == mantissa(c@.subrange(from as int, to as int)),
{
    let ghost s = c@.subrange(from as int, to as int);
    let point: usize = find(c, from, to, '.', '.');
    if point < to - from {
        assert(s.take(point as int) =~= c@.subrange(from as int, from + point));
        assert(s.skip(point + 1) =~= c@.subrange(from + point + 1, to as int));
        are_digits(c, from, from + point) && are_digits(c, from + point + 1, to) && to - from > 1
    } else {
        are_digits(c, from, to) && to > from
    }
}

/// Whether `c[from..to]` is a number without a sign.
fn is_number(c: &Vec<char>, from: usize, to: usize) -> (r: bool)
    requires
        from <= to <= c.len(),
    ensures
        r == number(c@.subrange(from as int, to as int)),
{
    let ghost s = c@.subrange(from as int, to as int);
    let e: usize = find(c, from, to, 'e', 'E');
    if e < to - from {
        assert(s.take(e as int) =~= c@.subrange(from as int, from + e));
        assert(s.skip(e + 1) =~= c@.subrange(from + e + 1, to as int));
        let exponent: usize = behind_sign(c, from + e + 1, to);
        is_mantissa(c, from, from + e) && are_digits(c, exponent, to) && exponent < to
    } else {
        is_mantissa(c, from, to)
    }
}

/// Whether `s` is the text of a floating-point number.
pub fn is_number_text(s: &str) -> (r: bool)
    ensures
        r == number_text(s@),
{
    let c: Vec<char> = chars_of(s);
    let to: usize = c.len();
    assert(c@.subrange(0, to as int) =~= s@);
    let from: usize = behind_sign(&c, 0, to);
    assert(c@.skip(from as int) =~= c@.subrange(from as int, to as int));
    proof {
        reveal_strlit("inf");
        reveal_strlit("INF");
        reveal_strlit("infinity");
        reveal_strlit("INFINITY");
        reveal_strlit("nan");
        reveal_strlit("NAN");
    }
    reads(&c, from, "inf", "INF") || reads(&c, from, "infinity", "INFINITY") || reads(
        &c,
        from,
        "nan",
        "NAN",
    ) || is_number(&c, from, to)
}

/// Nothing, a plus or a minus.
pub open spec fn is_sign(s: Seq<char>) -> bool {
    s.len() == 0 || s == seq!['+'] || s == seq!['-']
}

/// Every character is a decimal digit.
pub open spec fn all_digits(s: Seq<char>) -> bool {
    forall|i: int| 0 <= i < s.len() ==> '0' <= #[trigger] s[i] <= '9'
}

/// Digits with a point before, among or behind them, or without one.
pub open spec fn pointed(m: Seq<char>) -> bool {
    exists|whole: Seq<char>, part: Seq<char>|
        all_digits(whole) && all_digits(part) && whole.len() + part.len() > 0 && (m
            == #[trigger] (whole + seq!['.'] + part) || (part.len() == 0 && m == whole))
}

/// A mantissa, a letter, a sign and an exponent.
pub open spec fn scaled(u: Seq<char>, m: Seq<char>, x: char, sign: Seq<char>, d: Seq<char>) -> bool {
    pointed(m) && (x == 'e' || x == 'E') && is_sign(sign) && all_digits(d) && d.len() > 0 && u
        == m + seq![x] + sign + d
}

proof fn lemma_mantissa(m: Seq<char>)
    ensures
        mantissa(m) <==> pointed(m),
{
    lemma_first_of(m, '.', '.');
    let point = first_of(m, '.', '.');
    if mantissa(m) {
        if point < m.len() {
            let (whole, part) = (m.take(point), m.skip(point + 1));
            assert forall|i: int| 0 <= i < whole.len() implies '0' <= #[trigger] whole[i]
                <= '9' by {
                assert(is_digit(whole[i]));
            }
            assert forall|i: int| 0 <= i < part.len() implies '0' <= #[trigger] part[i]
                <= '9' by {
                assert(is_digit(part[i]));
            }
            assert(m =~= whole + seq!['.'] + part);
        } else {
            let none = Seq::<char>::empty();
            assert forall|i: int| 0 <= i < m.len() implies '0' <= #[trigger] m[i] <= '9' by {
                assert(is_digit(m[i]));
            }
            assert(all_digits(none));
            let text = m + seq!['.'] + none;
            assert(m.len() + none.len() > 0 && text == m + seq!['.'] + none);
        }
    }
    if pointed(m) {
        let (whole, part) = choose|whole: Seq<char>, part: Seq<char>|
            all_digits(whole) && all_digits(part) && whole.len() + part.len() > 0 && (m
                == #[trigger] (whole + seq!['.'] + part) || (part.len() == 0 && m == whole));
        assert(digits(whole)) by {
            assert forall|i: int| 0 <= i < whole.len() implies is_digit(#[trigger] whole[i]) by {
                assert('0' <= whole[i] <= '9');
            }
        }
        assert(digits(part)) by {
            assert forall|i: int| 0 <= i < part.len() implies is_digit(#[trigger] part[i]) by {
                assert('0' <= part[i] <= '9');
            }
        }
        if m == whole + seq!['.'] + part {
            assert(m[whole.len() as int] == '.');
            assert(point == whole.len()) by {
                if point < whole.len() {
                    assert(m[point] == whole[point]);
                }
            }
            assert(m.take(point) =~= whole);
            assert(m.skip(point + 1) =~= part);
        } else if point < m.len() {
            assert('0' <= whole[point] <= '9');
        }
    }
}

proof fn lemma_pointed_chars(m: Seq<char>)
    requires
        pointed(m),
    ensures
        m.len() > 0,
        forall|i: int| 0 <= i < m.len() ==> '0' <= #[trigger] m[i] <= '9' || m[i] == '.',
{
    let (whole, part) = choose|whole: Seq<char>, part: Seq<char>|
        all_digits(whole) && all_digits(part) && whole.len() + part.len() > 0 && (m
            == #[trigger] (whole + seq!['.'] + part) || (part.len() == 0 && m == whole));
    assert forall|i: int| 0 <= i < m.len() implies '0' <= #[trigger] m[i] <= '9' || m[i] == '.' by {
        if i < whole.len() {
            assert('0' <= whole[i] <= '9');
        } else if i > whole.len() {
            assert('0' <= part[i - whole.len() - 1] <= '9');
        }
    }
}

/// A number without a sign is digits with at most one point, at least one digit, and, if more is
/// there, the letter e, a sign or none, and at least one digit; and nothing else is one.
pub proof fn law_numbers_have_a_mantissa_and_an_exponent(u: Seq<char>)
    ensures
        number(u) <==> pointed(u) || exists|m: Seq<char>, x: char, sign: Seq<char>, d: Seq<char>|
            scaled(u, m, x, sign, d),
{
    lemma_first_of(u, 'e', 'E');
    let e = first_of(u, 'e', 'E');
    lemma_mantissa(u);
    if number(u) && e < u.len() {
        let rest = u.skip(e + 1);
        let d = unsigned(rest);
        let sign = rest.take(rest.len() - d.len());
        let m = u.take(e);
        lemma_mantissa(m);
        assert forall|i: int| 0 <= i < d.len() implies '0' <= #[trigger] d[i] <= '9' by {
            assert(is_digit(d[i]));
        }
        assert(is_sign(sign)) by {
            if sign.len() > 0 {
                assert(sign =~= seq![rest[0]]);
            }
        }
        assert(rest =~= sign + d);
        assert(u =~= m + seq![u[e]] + sign + d);
        assert(scaled(u, m, u[e], sign, d));
    }
    if pointed(u) {
        lemma_pointed_chars(u);
        if e < u.len() {
            assert('0' <= u[e] <= '9' || u[e] == '.');
        }
    }
    if exists|m: Seq<char>, x: char, sign: Seq<char>, d: Seq<char>| scaled(u, m, x, sign, d) {
        let (m, x, sign, d) = choose|m: Seq<char>, x: char, sign: Seq<char>, d: Seq<char>|
            scaled(u, m, x, sign, d);
        lemma_pointed_chars(m);
        lemma_mantissa(m);
        assert(u[m.len() as int] == x);
        assert(e == m.len()) by {
            if e < m.len() {
                assert(u[e] == m[e]);
                assert('0' <= m[e] <= '9' || m[e] == '.');
            }
        }
        assert(u.take(e) =~= m);
        assert(u.skip(e + 1) =~= sign + d);
        assert('0' <= d[0] <= '9');
        assert(unsigned(sign + d) =~= d);
        assert forall|i: int| 0 <= i < d.len() implies is_digit(#[trigger] d[i]) by {
            assert('0' <= d[i] <= '9');
        }
    }
}

/// The text of a number is a sign or none, and a number, `inf`, `infinity` or `nan` in any case.
pub proof fn law_number_texts(s: Seq<char>)
    ensures
        ({
            let u = if s.len() > 0 && (s[0] == '+' || s[0] == '-') {
                s.skip(1)
            } else {
                s
            };
            number_text(s) <==> number(u) || (u.len() == 3 && (u[0] == 'i' || u[0] == 'I') && (u[1]
                == 'n' || u[1] == 'N') && (u[2] == 'f' || u[2] == 'F')) || (u.len() == 3 && (u[0]
                == 'n' || u[0] == 'N') && (u[1] == 'a' || u[1] == 'A') && (u[2] == 'n' || u[2]
                == 'N')) || (u.len() == 8 && (u[0] == 'i' || u[0] == 'I') && (u[1] == 'n' || u[1]
                == 'N') && (u[2] == 'f' || u[2] == 'F') && (u[3] == 'i' || u[3] == 'I') && (u[4]
                == 'n' || u[4] == 'N') && (u[5] == 'i' || u[5] == 'I') && (u[6] == 't' || u[6]
                == 'T') && (u[7] == 'y' || u[7] == 'Y'))
        }),
{
    reveal_strlit("inf");
    reveal_strlit("INF");
    reveal_strlit("infinity");
    reveal_strlit("INFINITY");
    reveal_strlit("nan");
    reveal_strlit("NAN");
}

} // verus!
