//! The version of XGBoost that this crate is made for.

use crate::text::{
    decimal, digit, is_digit, lemma_decimal_digits, lemma_split_tail, lemma_split_whole, push_signed,
    signed_decimal, split,
};
use vstd::prelude::*;

verus! {

broadcast use vstd::string::group_string_axioms;

/// The crate's version, which is that of the XGBoost it is made for.
pub const CRATE_VERSION: &'static str = "3.4.1";

/// A version as text.
pub open spec fn dotted(major: int, minor: int, patch: int) -> Seq<char> {
    signed_decimal(major) + seq!['.'] + signed_decimal(minor) + seq!['.'] + signed_decimal(patch)
}

/// A version as text, from the numbers that the C library gives.
pub fn version_text(major: i32, minor: i32, patch: i32) -> (r: String)
    ensures
        r@ == dotted(major as int, minor as int, patch as int),
{
    let mut r: String = String::new();
    proof {
        reveal_strlit(".");
    }
    push_signed(&mut r, major as i64);
    r.append(".");
    push_signed(&mut r, minor as i64);
    r.append(".");
    push_signed(&mut r, patch as i64);
    assert(r@ =~= dotted(major as int, minor as int, patch as int));
    r
}

/// Whether the C library that is linked is of the version that this crate is made for.
pub fn linked_version_matches(major: i32, minor: i32, patch: i32) -> (r: bool)
    ensures
        r == (major == 3 && minor == 4 && patch == 1),
{
    let linked: String = version_text(major, minor, patch);
    proof {
        law_version_is_unambiguous(major as int, minor as int, patch as int, 3, 4, 1);
        lemma_crate_version();
    }
    linked == CRATE_VERSION.to_owned()
}

proof fn lemma_crate_version()
    ensures
        CRATE_VERSION@ == dotted(3, 4, 1),
{
    reveal_strlit("3.4.1");
    reveal_with_fuel(decimal, 2);
    assert(CRATE_VERSION@ =~= dotted(3, 4, 1));
}

proof fn lemma_no_dot(n: int)
    ensures
        !signed_decimal(n).contains('.'),
{
    if n < 0 {
        lemma_decimal_digits((-n) as nat);
    } else {
        lemma_decimal_digits(n as nat);
    }
}

proof fn lemma_decimal_unambiguous(a: nat, b: nat)
    requires
        decimal(a) == decimal(b),
    ensures
        a == b,
    decreases a,
{
    assert(digit((a % 10) as int) as int == 48 + a % 10);
    assert(digit((b % 10) as int) as int == 48 + b % 10);
    assert(decimal(a).last() == digit((a % 10) as int));
    assert(decimal(b).last() == digit((b % 10) as int));
    if a >= 10 {
        lemma_decimal_digits(a / 10);
    }
    if b >= 10 {
        lemma_decimal_digits(b / 10);
    }
    if a >= 10 {
        assert(decimal(a).drop_last() =~= decimal(a / 10));
        assert(decimal(b).drop_last() =~= decimal(b / 10));
        lemma_decimal_unambiguous(a / 10, b / 10);
    }
}

proof fn lemma_signed_unambiguous(a: int, b: int)
    requires
        signed_decimal(a) == signed_decimal(b),
    ensures
        a == b,
{
    if a >= 0 {
        lemma_decimal_digits(a as nat);
        assert(is_digit(signed_decimal(a)[0]));
    }
    if b >= 0 {
        lemma_decimal_digits(b as nat);
        assert(is_digit(signed_decimal(b)[0]));
    }
    if a < 0 {
        assert(signed_decimal(a).skip(1) =~= decimal((-a) as nat));
        assert(signed_decimal(b).skip(1) =~= decimal((-b) as nat));
        lemma_decimal_unambiguous((-a) as nat, (-b) as nat);
    } else {
        lemma_decimal_unambiguous(a as nat, b as nat);
    }
}

/// A version's text is its three numbers with points between them, in their order.
pub proof fn law_version_is_dotted(major: int, minor: int, patch: int)
    ensures
        split(dotted(major, minor, patch), '.') == seq![
            signed_decimal(major),
            signed_decimal(minor),
            signed_decimal(patch),
        ],
{
    lemma_no_dot(major);
    lemma_no_dot(minor);
    lemma_no_dot(patch);
    lemma_split_whole(signed_decimal(major), '.');
    lemma_split_tail(signed_decimal(major), signed_decimal(minor), '.');
    lemma_split_tail(
        signed_decimal(major) + seq!['.'] + signed_decimal(minor),
        signed_decimal(patch),
        '.',
    );
    assert(split(dotted(major, minor, patch), '.') =~= seq![
        signed_decimal(major),
        signed_decimal(minor),
        signed_decimal(patch),
    ]);
}

/// Different versions have different texts.
pub proof fn law_version_is_unambiguous(
    major: int,
    minor: int,
    patch: int,
    other_major: int,
    other_minor: int,
    other_patch: int,
)
    ensures
        dotted(major, minor, patch) == dotted(other_major, other_minor, other_patch) <==> major
            == other_major && minor == other_minor && patch == other_patch,
{
    let text = dotted(major, minor, patch);
    if text == dotted(other_major, other_minor, other_patch) {
        law_version_is_dotted(major, minor, patch);
        law_version_is_dotted(other_major, other_minor, other_patch);
        let pieces = split(text, '.');
        assert(pieces[0] == signed_decimal(major) && pieces[0] == signed_decimal(other_major));
        assert(pieces[1] == signed_decimal(minor) && pieces[1] == signed_decimal(other_minor));
        assert(pieces[2] == signed_decimal(patch) && pieces[2] == signed_decimal(other_patch));
        lemma_signed_unambiguous(major, other_major);
        lemma_signed_unambiguous(minor, other_minor);
        lemma_signed_unambiguous(patch, other_patch);
    }
}

} // verus!
