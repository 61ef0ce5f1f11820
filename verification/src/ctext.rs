//! Texts as a C library takes them: one NUL, at the end.

use crate::text::{chars_of, decimal, is_digit, lemma_decimal_digits};
use vstd::prelude::*;
use vstd::utf8::{encode_scalar, encode_utf8};

verus! {

broadcast use vstd::string::group_string_axioms;

/// `s` holds a NUL.
pub open spec fn holds_nul(s: Seq<char>) -> bool {
    s.contains('\0')
}

/// `s` with a NUL behind it.
pub open spec fn terminated(s: Seq<char>) -> Seq<char> {
    s.push('\0')
}

/// `s` ends in a NUL, and holds no other.
pub open spec fn is_terminated(s: Seq<char>) -> bool {
    s.len() > 0 && s.last() == '\0' && !holds_nul(s.drop_last())
}

/// Encoding keeps the order of texts.
pub proof fn lemma_encode_concat(a: Seq<char>, b: Seq<char>)
    ensures
        encode_utf8(a + b) == encode_utf8(a) + encode_utf8(b),
    decreases a.len(),
{
    if a.len() == 0 {
        assert(a + b =~= b);
        assert(encode_utf8(a) + encode_utf8(b) =~= encode_utf8(b));
    } else {
        assert((a + b).drop_first() =~= a.drop_first() + b);
        lemma_encode_concat(a.drop_first(), b);
        assert(encode_utf8(a + b) =~= encode_utf8(a) + encode_utf8(b));
    }
}

proof fn lemma_char_nul(c: char)
    ensures
        c as u32 == 0 <==> c == '\0',
{
}

proof fn lemma_scalar_nul(c: u32, i: int)
    requires
        0 <= i < encode_scalar(c).len(),
    ensures
        encode_scalar(c)[i] == 0 <==> c == 0,
{
    assert(c <= 0x7f ==> ((c & 0x7F) as u8 == 0 <==> c == 0)) by (bit_vector);
    assert(0xC0u8 | ((c >> 6) & 0x1F) as u8 != 0u8) by (bit_vector);
    assert(0xE0u8 | ((c >> 12) & 0x0F) as u8 != 0u8) by (bit_vector);
    assert(0xF0u8 | ((c >> 18) & 0x07) as u8 != 0u8) by (bit_vector);
    assert(0x80u8 | (c & 0x3F) as u8 != 0u8) by (bit_vector);
    assert(0x80u8 | ((c >> 6) & 0x3F) as u8 != 0u8) by (bit_vector);
    assert(0x80u8 | ((c >> 12) & 0x3F) as u8 != 0u8) by (bit_vector);
}

/// A text holds a NUL exactly where its encoding holds a zero byte.
pub proof fn lemma_encode_nul(s: Seq<char>)
    ensures
        encode_utf8(s).contains(0u8) <==> holds_nul(s),
    decreases s.len(),
{
    if s.len() > 0 {
        let head = encode_scalar(s[0] as u32);
        let rest = encode_utf8(s.drop_first());
        lemma_encode_nul(s.drop_first());
        assert forall|i: int| 0 <= i < head.len() implies (head[i] == 0 <==> s[0] == '\0') by {
            lemma_char_nul(s[0]);
            lemma_scalar_nul(s[0] as u32, i);
        }
        if s[0] == '\0' {
            assert(head.len() > 0);
            assert(encode_utf8(s)[0] == 0);
        }
        if holds_nul(s.drop_first()) {
            let i = choose|i: int| 0 <= i < rest.len() && rest[i] == 0;
            assert(encode_utf8(s)[head.len() + i] == 0);
            let j = choose|j: int| 0 <= j < s.drop_first().len() && s.drop_first()[j] == '\0';
            assert(s[j + 1] == '\0');
        }
        if encode_utf8(s).contains(0u8) {
            let i = choose|i: int| 0 <= i < encode_utf8(s).len() && encode_utf8(s)[i] == 0;
            if i < head.len() {
                assert(head[i] == 0);
            } else {
                assert(rest[i - head.len()] == 0);
            }
        }
        if holds_nul(s) {
            let j = choose|j: int| 0 <= j < s.len() && s[j] == '\0';
            if j > 0 {
                assert(s.drop_first()[j - 1] == '\0');
            }
        }
    }
}

/// No NUL in `a + b` where there is none in `a` and `b`.
pub proof fn lemma_chars_nul(a: Seq<char>, b: Seq<char>)
    requires
        !holds_nul(a),
        !holds_nul(b),
    ensures
        !holds_nul(a + b),
{
    assert forall|i: int| 0 <= i < (a + b).len() implies (a + b)[i] != '\0' by {
        if i < a.len() {
            assert(a.contains(a[i]));
        } else {
            assert(b.contains(b[i - a.len()]));
        }
    }
}

/// A decimal number holds no NUL.
pub proof fn lemma_decimal_nul(n: nat)
    ensures
        !holds_nul(decimal(n)),
{
    lemma_decimal_digits(n);
    assert forall|i: int| 0 <= i < decimal(n).len() implies decimal(n)[i] != '\0' by {
        assert(is_digit(decimal(n)[i]));
    }
}

/// Whether `s` holds a NUL.
pub fn has_nul(s: &str) -> (r: bool)
    ensures
        r == holds_nul(s@),
{
    let chars: Vec<char> = chars_of(s);
    let mut i: usize = 0;
    while i < chars.len()
        invariant
            chars@ == s@,
            i <= chars.len(),
            forall|j: int| 0 <= j < i ==> s@[j] != '\0',
        decreases chars.len() - i,
    {
        if chars[i] == '\0' {
            assert(s@[i as int] == '\0');
            return true;
        }
        i = i + 1;
    }
    false
}

/// `s` with a NUL behind it.
pub fn with_nul(s: &str) -> (r: String)
    ensures
        r@ == terminated(s@),
{
    let mut r: String = s.to_owned();
    proof {
        reveal_strlit("\0");
    }
    r.append("\0");
    assert(r@ =~= terminated(s@));
    r
}

/// A terminated text is the text with one character more, a NUL at its end; it ends in its only
/// NUL exactly if the text holds none, and the text can be told from it.
pub proof fn law_terminated_text(s: Seq<char>, other: Seq<char>)
    ensures
        terminated(s).len() == s.len() + 1,
        terminated(s)[s.len() as int] == '\0',
        forall|i: int| 0 <= i < s.len() ==> #[trigger] terminated(s)[i] == s[i],
        is_terminated(terminated(s)) <==> forall|i: int| 0 <= i < s.len() ==> s[i] != '\0',
        terminated(s) == terminated(other) <==> s == other,
        is_terminated(other) ==> other.len() > 0 && other == terminated(other.drop_last()),
{
    assert(terminated(s).drop_last() =~= s);
    assert(terminated(other).drop_last() =~= other);
    if is_terminated(other) {
        assert(other =~= terminated(other.drop_last()));
    }
    if holds_nul(s) {
        let i = choose|i: int| 0 <= i < s.len() && s[i] == '\0';
        assert(s[i] == '\0');
    }
    if exists|i: int| 0 <= i < s.len() && s[i] == '\0' {
        let i = choose|i: int| 0 <= i < s.len() && s[i] == '\0';
        assert(s.contains(s[i]));
    }
}

/// A text holds a NUL exactly if one of its characters is one.
pub proof fn law_nul_in_text(s: Seq<char>)
    ensures
        holds_nul(s) <==> exists|i: int| 0 <= i < s.len() && s[i] == '\0',
{
    if holds_nul(s) {
        let i = choose|i: int| 0 <= i < s.len() && s[i] == '\0';
        assert(s[i] == '\0');
    }
}

} // verus!
