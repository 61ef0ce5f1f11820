//! Text as sequences of characters: decimal numbers, splitting, comparison.

use vstd::prelude::*;

verus! {

broadcast use vstd::string::group_string_axioms;

/// The character of the decimal digit `d`.
pub open spec fn digit(d: int) -> char {
    (48 + d) as char
}

/// The value of a decimal digit, and whether a character is one.
pub open spec fn is_digit(c: char) -> bool {
    '0' <= c <= '9'
}

pub open spec fn digit_value(c: char) -> nat {
    (c as int - 48) as nat
}

/// `n` in decimal, without leading zeros.
pub open spec fn decimal(n: nat) -> Seq<char>
    decreases n,
{
    if n < 10 {
        seq![digit(n as int)]
    } else {
        decimal(n / 10).push(digit((n % 10) as int))
    }
}

/// `n` in decimal, with a minus sign where it is negative.
pub open spec fn signed_decimal(n: int) -> Seq<char> {
    if n < 0 {
        seq!['-'] + decimal((-n) as nat)
    } else {
        decimal(n as nat)
    }
}

/// `true` or `false`.
pub open spec fn bool_text(b: bool) -> Seq<char> {
    if b {
        "true"@
    } else {
        "false"@
    }
}

/// The pieces of `s` between the separators: one more than there are separators.
pub open spec fn split(s: Seq<char>, sep: char) -> Seq<Seq<char>>
    decreases s.len(),
{
    if s.len() == 0 {
        seq![Seq::<char>::empty()]
    } else {
        let pieces = split(s.drop_last(), sep);
        if s.last() == sep {
            pieces.push(Seq::<char>::empty())
        } else {
            pieces.drop_last().push(pieces.last().push(s.last()))
        }
    }
}

/// Why a text is no unsigned number.
#[derive(Clone, Copy, Debug, PartialEq, Eq, Structural)]
pub enum IntFault {
    /// There is nothing to read.
    Empty,
    /// A character is no digit.
    InvalidDigit,
    /// The number does not fit.
    Overflow,
}

impl IntFault {
    /// What the fault is called in messages.
    pub open spec fn message(self) -> Seq<char> {
        match self {
            IntFault::Empty => "cannot parse integer from empty string"@,
            IntFault::InvalidDigit => "invalid digit found in string"@,
            IntFault::Overflow => "number too large to fit in target type"@,
        }
    }

    /// The message that goes with the fault.
    pub fn as_str(&self) -> (r: &'static str)
        ensures
            r@ == self.message(),
    {
        match self {
            IntFault::Empty => "cannot parse integer from empty string",
            IntFault::InvalidDigit => "invalid digit found in string",
            IntFault::Overflow => "number too large to fit in target type",
        }
    }
}

/// The number that a run of digits stands for, read from the left: the first
/// character that is no digit, or that carries the number past a `u32`, decides.
pub open spec fn scan_u32(s: Seq<char>) -> Result<u32, IntFault>
    decreases s.len(),
{
    if s.len() == 0 {
        Ok(0u32)
    } else {
        match scan_u32(s.drop_last()) {
            Err(fault) => Err(fault),
            Ok(n) => if !is_digit(s.last()) {
                Err(IntFault::InvalidDigit)
            } else if n * 10 + digit_value(s.last()) > u32::MAX {
                Err(IntFault::Overflow)
            } else {
                Ok((n * 10 + digit_value(s.last())) as u32)
            },
        }
    }
}

/// What `s` is as a `u32`: digits, behind at most one plus sign.
pub open spec fn u32_of(s: Seq<char>) -> Result<u32, IntFault> {
    if s.len() == 0 {
        Err(IntFault::Empty)
    } else if s.len() == 1 && (s[0] == '+' || s[0] == '-') {
        Err(IntFault::InvalidDigit)
    } else if s[0] == '+' {
        scan_u32(s.skip(1))
    } else {
        scan_u32(s)
    }
}

/// The characters of `s`.
pub(crate) fn chars_of(s: &str) -> (r: Vec<char>)
    ensures
        r@ == s@,
{
    let mut r: Vec<char> = Vec::new();
    for c in it: s.chars()
        invariant
            r@ == it.seq().take(it.index() as int),
            it.seq() == s@,
    {
        r.push(c);
    }
    r
}

/// The text of one digit.
pub(crate) fn digit_text(d: u64) -> (r: &'static str)
    requires
        d < 10,
    ensures
        r@ == seq![digit(d as int)],
        r@.len() == 1,
        is_digit(r@[0]),
{
    proof {
        reveal_strlit("0");
        reveal_strlit("1");
        reveal_strlit("2");
        reveal_strlit("3");
        reveal_strlit("4");
        reveal_strlit("5");
        reveal_strlit("6");
        reveal_strlit("7");
        reveal_strlit("8");
        reveal_strlit("9");
    }
    if d == 0 {
        "0"
    } else if d == 1 {
        "1"
    } else if d == 2 {
        "2"
    } else if d == 3 {
        "3"
    } else if d == 4 {
        "4"
    } else if d == 5 {
        "5"
    } else if d == 6 {
        "6"
    } else if d == 7 {
        "7"
    } else if d == 8 {
        "8"
    } else {
        "9"
    }
}

/// Appends `n` in decimal.
pub(crate) fn push_decimal(out: &mut String, n: u64)
    ensures
        final(out)@ == old(out)@ + decimal(n as nat),
    decreases n,
{
    if n >= 10 {
        push_decimal(out, n / 10);
    }
    out.append(digit_text(n % 10));
    assert(out@ =~= old(out)@ + decimal(n as nat));
}

/// Appends `n` in decimal, with its sign.
pub(crate) fn push_signed(out: &mut String, n: i64)
    ensures
        final(out)@ == old(out)@ + signed_decimal(n as int),
{
    if n < 0 {
        proof {
            reveal_strlit("-");
        }
        out.append("-");
        let m: u64 = (-(n + 1)) as u64;
        push_decimal(out, m + 1);
        assert(out@ =~= old(out)@ + signed_decimal(n as int));
    } else {
        push_decimal(out, n as u64);
    }
}

/// Appends `b` as `true` or `false`.
pub(crate) fn push_bool(out: &mut String, b: bool)
    ensures
        final(out)@ == old(out)@ + bool_text(b),
{
    if b {
        out.append("true");
    } else {
        out.append("false");
    }
}

/// The views of a list of texts.
pub open spec fn views(v: Seq<String>) -> Seq<Seq<char>> {
    v.map_values(|s: String| s@)
}

proof fn lemma_split_len(s: Seq<char>, sep: char)
    ensures
        split(s, sep).len() >= 1,
    decreases s.len(),
{
    if s.len() > 0 {
        lemma_split_len(s.drop_last(), sep);
    }
}

/// A text without a separator is one piece.
pub proof fn lemma_split_whole(s: Seq<char>, sep: char)
    requires
        !s.contains(sep),
    ensures
        split(s, sep) == seq![s],
    decreases s.len(),
{
    if s.len() == 0 {
        assert(s =~= Seq::<char>::empty());
    } else {
        assert(s.contains(s.last()));
        assert forall|i: int| 0 <= i < s.drop_last().len() implies s.drop_last()[i] != sep by {
            assert(s.contains(s[i]));
        }
        lemma_split_whole(s.drop_last(), sep);
        assert(seq![s.drop_last()].drop_last().push(s.drop_last().push(s.last())) =~= seq![s]) by {
            assert(s.drop_last().push(s.last()) =~= s);
        }
    }
}

/// What follows the last separator is the last piece.
pub proof fn lemma_split_tail(a: Seq<char>, b: Seq<char>, sep: char)
    requires
        !b.contains(sep),
    ensures
        split(a + seq![sep] + b, sep) == split(a, sep).push(b),
    decreases b.len(),
{
    let s = a + seq![sep] + b;
    if b.len() == 0 {
        assert(b =~= Seq::<char>::empty());
        assert(s.drop_last() =~= a);
    } else {
        assert(b.contains(b.last()));
        assert forall|i: int| 0 <= i < b.drop_last().len() implies b.drop_last()[i] != sep by {
            assert(b.contains(b[i]));
        }
        lemma_split_tail(a, b.drop_last(), sep);
        assert(s.drop_last() =~= a + seq![sep] + b.drop_last());
        let pieces = split(a, sep).push(b.drop_last());
        assert(pieces.drop_last() =~= split(a, sep));
        assert(b.drop_last().push(b.last()) =~= b);
    }
}

/// Text without a separator goes to the last piece.
pub proof fn lemma_split_append(a: Seq<char>, b: Seq<char>, sep: char)
    requires
        !b.contains(sep),
    ensures
        split(a + b, sep) == split(a, sep).drop_last().push(split(a, sep).last() + b),
    decreases b.len(),
{
    lemma_split_len(a, sep);
    let pieces = split(a, sep);
    if b.len() == 0 {
        assert(a + b =~= a);
        assert(pieces.last() + b =~= pieces.last());
        assert(pieces.drop_last().push(pieces.last()) =~= pieces);
    } else {
        assert(b.contains(b.last()));
        assert forall|i: int| 0 <= i < b.drop_last().len() implies b.drop_last()[i] != sep by {
            assert(b.contains(b[i]));
        }
        lemma_split_append(a, b.drop_last(), sep);
        assert((a + b).drop_last() =~= a + b.drop_last());
        let before = pieces.drop_last().push(pieces.last() + b.drop_last());
        assert(before.drop_last() =~= pieces.drop_last());
        assert((pieces.last() + b.drop_last()).push(b.last()) =~= pieces.last() + b);
    }
}

/// The pieces of `s` between the separators.
pub(crate) fn split_text(s: &str, sep: char) -> (r: Vec<String>)
    ensures
        views(r@) == split(s@, sep),
        r@.len() >= 1,
{
    let chars: Vec<char> = chars_of(s);
    let mut r: Vec<String> = Vec::new();
    let mut start: usize = 0;
    let mut i: usize = 0;
    assert(s@.take(0) =~= Seq::<char>::empty());
    assert(views(r@).push(s@.subrange(0, 0)) =~= split(s@.take(0), sep));
    while i < chars.len()
        invariant
            chars@ == s@,
            start <= i <= chars.len(),
            views(r@).push(s@.subrange(start as int, i as int)) == split(s@.take(i as int), sep),
        decreases chars.len() - i,
    {
        let ghost before = views(r@);
        assert(s@.take(i + 1).drop_last() =~= s@.take(i as int));
        if chars[i] == sep {
            let piece: String = s.substring_char(start, i).to_owned();
            r.push(piece);
            start = i + 1;
            assert(views(r@) =~= before.push(piece@));
            assert(s@.subrange(start as int, i + 1) =~= Seq::<char>::empty());
        } else {
            assert(s@.subrange(start as int, i + 1) =~= s@.subrange(start as int, i as int).push(
                s@[i as int],
            ));
            assert(before.push(s@.subrange(start as int, i as int)).drop_last() =~= before);
        }
        i = i + 1;
    }
    let ghost before = views(r@);
    let piece: String = s.substring_char(start, i).to_owned();
    r.push(piece);
    assert(views(r@) =~= before.push(piece@));
    assert(s@.take(i as int) =~= s@);
    proof {
        lemma_split_len(s@, sep);
    }
    r
}

/// Reads digits from `from` on; see `scan_u32`.
fn scan_digits(chars: &Vec<char>, from: usize) -> (r: Result<u32, IntFault>)
    requires
        from <= chars@.len(),
    ensures
        r == scan_u32(chars@.skip(from as int)),
{
    let mut n: u32 = 0;
    let mut i: usize = from;
    let ghost s = chars@.skip(from as int);
    assert(s.take(0) =~= Seq::<char>::empty());
    while i < chars.len()
        invariant
            from <= i <= chars.len(),
            s == chars@.skip(from as int),
            scan_u32(s.take(i - from)) == Ok::<u32, IntFault>(n),
        decreases chars.len() - i,
    {
        let c: char = chars[i];
        proof {
            assert(s.take(i + 1 - from).drop_last() =~= s.take(i - from));
            assert(s.take(i + 1 - from).last() == c);
        }
        if !(c >= '0' && c <= '9') {
            proof {
                lemma_scan_stops(s, i + 1 - from);
            }
            return Err(IntFault::InvalidDigit);
        }
        let d: u32 = c as u32 - 48;
        let m: u64 = n as u64 * 10 + d as u64;
        if m > 4294967295 {
            proof {
                lemma_scan_stops(s, i + 1 - from);
            }
            return Err(IntFault::Overflow);
        }
        n = m as u32;
        i = i + 1;
    }
    assert(s.take(i - from) =~= s);
    Ok(n)
}

/// Once a prefix has decided a scan, what follows it does not matter.
proof fn lemma_scan_stops(s: Seq<char>, k: int)
    requires
        0 <= k <= s.len(),
        scan_u32(s.take(k)) is Err,
    ensures
        scan_u32(s) == scan_u32(s.take(k)),
    decreases s.len() - k,
{
    if k == s.len() {
        assert(s.take(k) =~= s);
    } else {
        assert(s.take(k + 1).drop_last() =~= s.take(k));
        lemma_scan_stops(s, k + 1);
    }
}

/// Reads `s` as a `u32`.
pub fn parse_u32(s: &str) -> (r: Result<u32, IntFault>)
    ensures
        r == u32_of(s@),
{
    let chars: Vec<char> = chars_of(s);
    if chars.len() == 0 {
        Err(IntFault::Empty)
    } else if chars.len() == 1 && (chars[0] == '+' || chars[0] == '-') {
        Err(IntFault::InvalidDigit)
    } else if chars[0] == '+' {
        scan_digits(&chars, 1)
    } else {
        assert(s@.skip(0) =~= s@);
        scan_digits(&chars, 0)
    }
}

/// A decimal number is made of digits, and is never empty.
pub proof fn lemma_decimal_digits(n: nat)
    ensures
        decimal(n).len() >= 1,
        forall|i: int| 0 <= i < decimal(n).len() ==> is_digit(#[trigger] decimal(n)[i]),
    decreases n,
{
    if n >= 10 {
        lemma_decimal_digits(n / 10);
    }
}

/// Reading back the decimal text of a number gives the number.
pub proof fn law_decimal_reads_back(n: u32)
    ensures
        u32_of(decimal(n as nat)) == Ok::<u32, IntFault>(n),
{
    lemma_decimal_digits(n as nat);
    lemma_scan_decimal(n);
    assert(is_digit(decimal(n as nat)[0]));
}

proof fn lemma_scan_decimal(n: u32)
    ensures
        scan_u32(decimal(n as nat)) == Ok::<u32, IntFault>(n),
    decreases n,
{
    let s = decimal(n as nat);
    if n < 10 {
        assert(s.drop_last() =~= Seq::<char>::empty());
        assert(scan_u32(s.drop_last()) == Ok::<u32, IntFault>(0));
        assert(s.last() == digit(n as int));
    } else {
        lemma_scan_decimal(n / 10);
        assert(s.drop_last() =~= decimal(n as nat / 10));
    }
}

/// `a` comes before `b` in the order of texts: the first character that differs decides, and
/// a text comes after those that it continues.
pub open spec fn text_less(a: Seq<char>, b: Seq<char>) -> bool
    decreases a.len(),
{
    if b.len() == 0 {
        false
    } else if a.len() == 0 {
        true
    } else if a[0] != b[0] {
        a[0] < b[0]
    } else {
        text_less(a.drop_first(), b.drop_first())
    }
}

/// Whether `a` comes before `b`.
pub(crate) fn is_less(a: &str, b: &str) -> (r: bool)
    ensures
        r == text_less(a@, b@),
{
    let x: Vec<char> = chars_of(a);
    let y: Vec<char> = chars_of(b);
    let mut i: usize = 0;
    assert(a@.skip(0) =~= a@);
    assert(b@.skip(0) =~= b@);
    while i < x.len() && i < y.len()
        invariant
            x@ == a@,
            y@ == b@,
            i <= x.len(),
            i <= y.len(),
            text_less(a@, b@) == text_less(a@.skip(i as int), b@.skip(i as int)),
        decreases x.len() - i,
    {
        if x[i] != y[i] {
            return x[i] < y[i];
        }
        assert(a@.skip(i as int).drop_first() =~= a@.skip(i + 1));
        assert(b@.skip(i as int).drop_first() =~= b@.skip(i + 1));
        i = i + 1;
    }
    i < y.len()
}

/// Of two texts, one comes before the other or they are the same.
pub proof fn lemma_text_order_total(a: Seq<char>, b: Seq<char>)
    ensures
        text_less(a, b) || text_less(b, a) || a == b,
        !(text_less(a, b) && text_less(b, a)),
        a == b ==> !text_less(a, b),
    decreases a.len(),
{
    if a.len() > 0 && b.len() > 0 {
        lemma_text_order_total(a.drop_first(), b.drop_first());
        if a[0] == b[0] && a.drop_first() == b.drop_first() {
            assert(a =~= b) by {
                assert forall|i: int| 0 <= i < a.len() implies a.len() == b.len() && a[i] == b[i] by {
                    if i > 0 {
                        assert(a.drop_first()[i - 1] == b.drop_first()[i - 1]);
                    }
                }
            }
        }
    } else if a.len() == 0 && b.len() == 0 {
        assert(a =~= b);
    }
}

pub proof fn lemma_text_order_transitive(a: Seq<char>, b: Seq<char>, c: Seq<char>)
    requires
        text_less(a, b),
        text_less(b, c),
    ensures
        text_less(a, c),
    decreases a.len(),
{
    if a.len() > 0 && a[0] == b[0] && b[0] == c[0] {
        lemma_text_order_transitive(a.drop_first(), b.drop_first(), c.drop_first());
    }
}

/// The pieces as one text, with the separator between them.
pub open spec fn joined_by(pieces: Seq<Seq<char>>, sep: char) -> Seq<char>
    decreases pieces.len(),
{
    if pieces.len() == 0 {
        Seq::empty()
    } else if pieces.len() == 1 {
        pieces[0]
    } else {
        joined_by(pieces.drop_last(), sep) + seq![sep] + pieces.last()
    }
}

/// Splitting undoes joining: pieces that hold no separator are found again, each in its place.
pub proof fn law_split_finds_pieces(pieces: Seq<Seq<char>>, sep: char)
    requires
        pieces.len() > 0,
        forall|i: int| 0 <= i < pieces.len() ==> !(#[trigger] pieces[i]).contains(sep),
    ensures
        split(joined_by(pieces, sep), sep) == pieces,
    decreases pieces.len(),
{
    assert(!pieces[pieces.len() - 1].contains(sep));
    if pieces.len() == 1 {
        lemma_split_whole(pieces[0], sep);
        assert(seq![pieces[0]] =~= pieces);
    } else {
        let rest = pieces.drop_last();
        assert forall|i: int| 0 <= i < rest.len() implies !(#[trigger] rest[i]).contains(sep) by {
            assert(!pieces[i].contains(sep));
        }
        law_split_finds_pieces(rest, sep);
        lemma_split_tail(joined_by(rest, sep), pieces.last(), sep);
        assert(rest.push(pieces.last()) =~= pieces);
    }
}

/// Joining undoes splitting, and no piece of a split text holds the separator.
pub proof fn law_split_pieces_join(s: Seq<char>, sep: char)
    ensures
        joined_by(split(s, sep), sep) == s,
        split(s, sep).len() > 0,
        forall|i: int| 0 <= i < split(s, sep).len() ==> !(#[trigger] split(s, sep)[i]).contains(sep),
    decreases s.len(),
{
    if s.len() == 0 {
        assert(joined_by(split(s, sep), sep) =~= s);
    } else {
        let r = s.drop_last();
        let before = split(r, sep);
        let pieces = split(s, sep);
        law_split_pieces_join(r, sep);
        assert(r.push(s.last()) =~= s);
        if s.last() == sep {
            assert(pieces.drop_last() =~= before);
            assert(joined_by(pieces, sep) =~= s);
        } else {
            let tail = before.last().push(s.last());
            assert(pieces.last() == tail);
            assert forall|i: int| 0 <= i < pieces.len() implies !(#[trigger] pieces[i]).contains(
                sep,
            ) by {
                if i < pieces.len() - 1 {
                    assert(pieces[i] == before[i]);
                } else {
                    assert(!before[before.len() - 1].contains(sep));
                    assert forall|k: int| 0 <= k < tail.len() implies tail[k] != sep by {
                        if k < before.last().len() {
                            assert(before.last().contains(before.last()[k]));
                        }
                    }
                }
            }
            if pieces.len() > 1 {
                assert(pieces.drop_last() =~= before.drop_last());
                assert(joined_by(pieces, sep) =~= joined_by(before, sep).push(s.last()));
            } else {
                assert(joined_by(pieces, sep) =~= joined_by(before, sep).push(s.last()));
            }
            assert(joined_by(pieces, sep) =~= s);
        }
    }
}

/// The number that digits stand for, the last one being the ones.
pub open spec fn digits_value(s: Seq<char>) -> nat
    decreases s.len(),
{
    if s.len() == 0 {
        0
    } else {
        10 * digits_value(s.drop_last()) + (s.last() as int - '0' as int) as nat
    }
}

/// A number's decimal text is made of digits that stand for the number, without a zero in front
/// unless the number is zero.
pub proof fn law_decimal_value(n: nat)
    ensures
        digits_value(decimal(n)) == n,
        decimal(n).len() > 0,
        forall|i: int| 0 <= i < decimal(n).len() ==> '0' <= #[trigger] decimal(n)[i] <= '9',
        decimal(n)[0] == '0' ==> n == 0 && decimal(n).len() == 1,
    decreases n,
{
    lemma_decimal_digits(n);
    assert forall|i: int| 0 <= i < decimal(n).len() implies '0' <= #[trigger] decimal(n)[i]
        <= '9' by {
        assert(is_digit(decimal(n)[i]));
    }
    assert(digit((n % 10) as int) as int == 48 + n % 10);
    if n < 10 {
        assert(decimal(n).drop_last() =~= Seq::<char>::empty());
        assert(digits_value(decimal(n).drop_last()) == 0);
        assert(decimal(n).last() == digit(n as int));
    } else {
        law_decimal_value(n / 10);
        assert(decimal(n).drop_last() =~= decimal(n / 10));
        assert(decimal(n)[0] == decimal(n / 10)[0]);
    }
}

/// Different numbers have different decimal texts, also with signs.
pub proof fn law_decimal_unambiguous(a: int, b: int)
    ensures
        signed_decimal(a) == signed_decimal(b) <==> a == b,
        a >= 0 ==> signed_decimal(a) == decimal(a as nat),
        a < 0 ==> signed_decimal(a).len() > 0 && signed_decimal(a)[0] == '-' && signed_decimal(
            a,
        ).skip(1) == decimal((-a) as nat),
{
    if a < 0 {
        assert(signed_decimal(a).skip(1) =~= decimal((-a) as nat));
        law_decimal_value((-a) as nat);
    } else {
        law_decimal_value(a as nat);
        assert('0' <= decimal(a as nat)[0]);
    }
    if b < 0 {
        assert(signed_decimal(b).skip(1) =~= decimal((-b) as nat));
        law_decimal_value((-b) as nat);
    } else {
        law_decimal_value(b as nat);
        assert('0' <= decimal(b as nat)[0]);
    }
}

/// The text without the plus sign that it may begin with.
pub open spec fn without_plus(s: Seq<char>) -> Seq<char> {
    if s.len() > 0 && s[0] == '+' {
        s.skip(1)
    } else {
        s
    }
}

proof fn lemma_scan(s: Seq<char>)
    ensures
        match scan_u32(s) {
            Ok(n) => (forall|i: int| 0 <= i < s.len() ==> '0' <= #[trigger] s[i] <= '9') && n
                == digits_value(s),
            Err(IntFault::InvalidDigit) => exists|i: int|
                0 <= i < s.len() && !('0' <= #[trigger] s[i] <= '9'),
            Err(IntFault::Overflow) => exists|k: int|
                0 <= k <= s.len() && digits_value(#[trigger] s.take(k)) > u32::MAX && (forall|
                    i: int,
                |
                    0 <= i < k ==> '0' <= #[trigger] s[i] <= '9'),
            Err(IntFault::Empty) => false,
        },
    decreases s.len(),
{
    if s.len() > 0 {
        let r = s.drop_last();
        lemma_scan(r);
        match scan_u32(r) {
            Ok(n) => {
                assert forall|i: int| 0 <= i < r.len() implies '0' <= #[trigger] s[i] <= '9' by {
                    assert(r[i] == s[i]);
                }
                if !is_digit(s.last()) {
                    assert(!('0' <= s[s.len() - 1] <= '9'));
                } else {
                    assert(s.take(s.len() as int) =~= s);
                    assert(digits_value(s) == n * 10 + digit_value(s.last()));
                    assert('0' <= s[s.len() - 1] <= '9');
                }
            },
            Err(IntFault::InvalidDigit) => {
                let i = choose|i: int| 0 <= i < r.len() && !('0' <= #[trigger] r[i] <= '9');
                assert(!('0' <= s[i] <= '9'));
            },
            Err(IntFault::Overflow) => {
                let k = choose|k: int|
                    0 <= k <= r.len() && digits_value(#[trigger] r.take(k)) > u32::MAX && (forall|
                        i: int,
                    |
                        0 <= i < k ==> '0' <= #[trigger] r[i] <= '9');
                assert(s.take(k) =~= r.take(k));
                assert forall|i: int| 0 <= i < k implies '0' <= #[trigger] s[i] <= '9' by {
                    assert('0' <= r[i] <= '9');
                }
            },
            Err(IntFault::Empty) => {},
        }
    }
}

proof fn lemma_value_grows(s: Seq<char>, k: int)
    requires
        0 <= k <= s.len(),
        forall|i: int| 0 <= i < s.len() ==> '0' <= #[trigger] s[i] <= '9',
    ensures
        digits_value(s.take(k)) <= digits_value(s),
    decreases s.len(),
{
    if k == s.len() {
        assert(s.take(k) =~= s);
    } else {
        let r = s.drop_last();
        assert forall|i: int| 0 <= i < r.len() implies '0' <= #[trigger] r[i] <= '9' by {
            assert('0' <= s[i] <= '9');
        }
        lemma_value_grows(r, k);
        assert(r.take(k) =~= s.take(k));
    }
}

/// A text is a number exactly if it is made of at least one digit, behind at most one plus sign,
/// that stand for a number that fits; the number is the one that they stand for. A text without
/// anything is told as such; one of digits only that is refused is too large; one that is not of
/// digits only is refused as such, or as too large by the digits in front.
pub proof fn law_numbers_are_read(s: Seq<char>)
    ensures
        u32_of(s) == Err::<u32, IntFault>(IntFault::Empty) <==> s.len() == 0,
        ({
            let d = without_plus(s);
            let all = forall|i: int| 0 <= i < d.len() ==> '0' <= #[trigger] d[i] <= '9';
            &&& u32_of(s) is Ok <==> d.len() > 0 && all && digits_value(d) <= u32::MAX
            &&& u32_of(s) matches Ok(n) ==> n == digits_value(d)
            &&& (d.len() > 0 && all && digits_value(d) > u32::MAX) ==> u32_of(s) == Err::<
                u32,
                IntFault,
            >(IntFault::Overflow)
            &&& u32_of(s) == Err::<u32, IntFault>(IntFault::InvalidDigit) ==> d.len() == 0 || !all
            &&& u32_of(s) == Err::<u32, IntFault>(IntFault::Overflow) ==> exists|k: int|
                0 <= k <= d.len() && digits_value(#[trigger] d.take(k)) > u32::MAX
        }),
{
    let d = without_plus(s);
    if s.len() == 1 && (s[0] == '+' || s[0] == '-') {
        if s[0] == '-' {
            assert(!('0' <= d[0] <= '9'));
        }
    } else if s.len() > 0 {
        lemma_scan(d);
        if forall|i: int| 0 <= i < d.len() ==> '0' <= #[trigger] d[i] <= '9' {
            assert forall|k: int| 0 <= k <= d.len() implies digits_value(#[trigger] d.take(k))
                <= digits_value(d) by {
                lemma_value_grows(d, k);
            }
        }
    }
}

/// The order of texts: the first character that differs decides, and a text comes before those
/// that it begins.
pub proof fn law_text_order(a: Seq<char>, b: Seq<char>)
    ensures
        text_less(a, b) <==> exists|k: int|
            0 <= k <= a.len() && k < b.len() && #[trigger] a.take(k) == b.take(k) && (k == a.len()
                || a[k] < b[k]),
    decreases a.len(),
{
    if b.len() > 0 && a.len() > 0 {
        let (c, d) = (a.drop_first(), b.drop_first());
        if a[0] == b[0] {
            law_text_order(c, d);
            if text_less(a, b) {
                let k = choose|k: int|
                    0 <= k <= c.len() && k < d.len() && #[trigger] c.take(k) == d.take(k) && (k
                        == c.len() || c[k] < d[k]);
                assert(a.take(k + 1) =~= seq![a[0]] + c.take(k));
                assert(b.take(k + 1) =~= seq![b[0]] + d.take(k));
                assert(a.take(k + 1) == b.take(k + 1));
            }
            if exists|k: int|
                0 <= k <= a.len() && k < b.len() && #[trigger] a.take(k) == b.take(k) && (k
                    == a.len() || a[k] < b[k]) {
                let k = choose|k: int|
                    0 <= k <= a.len() && k < b.len() && #[trigger] a.take(k) == b.take(k) && (k
                        == a.len() || a[k] < b[k]);
                assert(k > 0);
                assert(c.take(k - 1) =~= a.take(k).skip(1));
                assert(d.take(k - 1) =~= b.take(k).skip(1));
                assert(c.take(k - 1) == d.take(k - 1));
            }
        } else {
            assert(a.take(0) =~= b.take(0));
            assert forall|k: int|
                0 <= k <= a.len() && k < b.len() && #[trigger] a.take(k) == b.take(k) implies k
                == 0 by {
                if k > 0 {
                    assert(a.take(k)[0] == b.take(k)[0]);
                }
            }
        }
    } else if b.len() > 0 {
        assert(a.take(0) =~= b.take(0));
    }
}

/// A number's text holds digits only, and a minus sign where the number is negative.
pub proof fn lemma_decimal_without(n: int, c: char)
    requires
        !('0' <= c <= '9'),
        c != '-',
    ensures
        !signed_decimal(n).contains(c),
        n >= 0 ==> !decimal(n as nat).contains(c),
{
    if n < 0 {
        lemma_decimal_digits((-n) as nat);
        let s = signed_decimal(n);
        assert forall|i: int| 0 <= i < s.len() implies s[i] != c by {
            if i > 0 {
                assert(is_digit(decimal((-n) as nat)[i - 1]));
            }
        }
    } else {
        lemma_decimal_digits(n as nat);
        let s = decimal(n as nat);
        assert forall|i: int| 0 <= i < s.len() implies s[i] != c by {
            assert(is_digit(s[i]));
        }
    }
}

/// A character that neither text holds is not in both together.
pub proof fn lemma_concat_without(a: Seq<char>, b: Seq<char>, c: char)
    requires
        !a.contains(c),
        !b.contains(c),
    ensures
        !(a + b).contains(c),
{
    assert forall|i: int| 0 <= i < (a + b).len() implies (a + b)[i] != c by {
        if i < a.len() {
            assert(a.contains(a[i]));
        } else {
            assert(b.contains(b[i - a.len()]));
        }
    }
}

/// A list's texts are the texts of its members, all of them and in order.
pub proof fn law_texts_of_a_list(v: Seq<String>)
    ensures
        views(v).len() == v.len(),
        forall|i: int| 0 <= i < v.len() ==> #[trigger] views(v)[i] == v[i]@,
{
}

/// A truth value is written as `true` or `false`.
pub proof fn law_truth_values_are_written()
    ensures
        bool_text(true) == seq!['t', 'r', 'u', 'e'],
        bool_text(false) == seq!['f', 'a', 'l', 's', 'e'],
{
    reveal_strlit("true");
    reveal_strlit("false");
    assert("true"@ =~= seq!['t', 'r', 'u', 'e']);
    assert("false"@ =~= seq!['f', 'a', 'l', 's', 'e']);
}

} // verus!
