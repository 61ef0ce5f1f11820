//! Array-interface descriptions: where an array lies in memory, and its shape, as JSON.

use crate::cbuf::CBuf;
use crate::ctext::{
    holds_nul, lemma_chars_nul, lemma_decimal_nul, lemma_encode_concat, lemma_encode_nul,
};
use crate::text::{
    decimal, digit_text, is_digit, joined_by, law_decimal_unambiguous, law_split_finds_pieces,
    lemma_concat_without, lemma_decimal_digits, lemma_decimal_without, split,
};
use vstd::prelude::*;
use vstd::utf8::{encode_utf8, is_ascii_chars, is_ascii_chars_encode_utf8};

verus! {

broadcast use vstd::string::group_string_axioms;

/// Size of the buffers that array-interface descriptions are built in.
pub const ARRAY_INTERFACE_BUF: usize = 192;

/// The description of `len` elements of type `typestr` at address `ptr`.
pub open spec fn interface_1d(ptr: nat, len: nat, typestr: Seq<char>) -> Seq<char> {
    "{\"data\":["@ + decimal(ptr) + ",false],\"shape\":["@ + decimal(len)
        + "],\"strides\":null,\"typestr\":\""@ + typestr + "\",\"version\":3}"@
}

/// The description of a row-major matrix of 32-bit floating-point numbers at address `ptr`.
pub open spec fn interface_2d(ptr: nat, rows: nat, cols: nat) -> Seq<char> {
    "{\"data\":["@ + decimal(ptr) + ",false],\"shape\":["@ + decimal(rows) + ","@ + decimal(cols)
        + "],\"strides\":null,\"typestr\":\"<f4\",\"version\":3}"@
}

/// Appends `s`, for which there is room.
fn put<const N: usize>(buf: &mut CBuf<N>, s: &str)
    requires
        old(buf)@.len() + encode_utf8(s@).len() < N,
    ensures
        final(buf)@ == old(buf)@ + encode_utf8(s@),
{
    let _ = buf.write_str(s);
}

/// Appends `n` in decimal, for which there is room.
fn put_decimal<const N: usize>(buf: &mut CBuf<N>, n: usize)
    requires
        old(buf)@.len() + encode_utf8(decimal(n as nat)).len() < N,
    ensures
        final(buf)@ == old(buf)@ + encode_utf8(decimal(n as nat)),
    decreases n,
{
    proof {
        if n >= 10 {
            let last = seq![crate::text::digit((n % 10) as int)];
            lemma_encode_concat(decimal(n as nat / 10), last);
            assert(decimal(n as nat) =~= decimal(n as nat / 10) + last);
        }
    }
    if n >= 10 {
        put_decimal(buf, n / 10);
    }
    put(buf, digit_text((n % 10) as u64));
    assert(buf@ =~= old(buf)@ + encode_utf8(decimal(n as nat)));
}

/// Writes a one-dimensional description (`typestr` as NumPy writes it, such as `<f4` or
/// `<u8`) into `buf` and returns it NUL-terminated.
pub fn write_interface_1d<'a>(
    buf: &'a mut CBuf<ARRAY_INTERFACE_BUF>,
    ptr: usize,
    len: usize,
    typestr: &str,
) -> (r: &'a [u8])
    requires
        old(buf)@.len() + encode_utf8(interface_1d(ptr as nat, len as nat, typestr@)).len()
            < ARRAY_INTERFACE_BUF,
        !old(buf)@.contains(0u8),
        !holds_nul(typestr@),
    ensures
        final(buf)@ == old(buf)@ + encode_utf8(interface_1d(ptr as nat, len as nat, typestr@)),
        r@ == final(buf)@.push(0),
{
    let ghost t0 = "{\"data\":["@;
    let ghost t1 = t0 + decimal(ptr as nat);
    let ghost t2 = t1 + ",false],\"shape\":["@;
    let ghost t3 = t2 + decimal(len as nat);
    let ghost t4 = t3 + "],\"strides\":null,\"typestr\":\""@;
    let ghost t5 = t4 + typestr@;
    let ghost t6 = t5 + "\",\"version\":3}"@;
    proof {
        lemma_encode_concat(t0, decimal(ptr as nat));
        lemma_encode_concat(t1, ",false],\"shape\":["@);
        lemma_encode_concat(t2, decimal(len as nat));
        lemma_encode_concat(t3, "],\"strides\":null,\"typestr\":\""@);
        lemma_encode_concat(t4, typestr@);
        lemma_encode_concat(t5, "\",\"version\":3}"@);
    }
    put(buf, "{\"data\":[");
    put_decimal(buf, ptr);
    put(buf, ",false],\"shape\":[");
    put_decimal(buf, len);
    put(buf, "],\"strides\":null,\"typestr\":\"");
    put(buf, typestr);
    put(buf, "\",\"version\":3}");
    assert(buf@ =~= old(buf)@ + encode_utf8(t6));
    proof {
        lemma_interface_1d_nul(ptr as nat, len as nat, typestr@);
        lemma_encode_nul(t6);
        lemma_concat_nul(old(buf)@, encode_utf8(t6));
    }
    buf.as_cstr()
}

proof fn lemma_concat_nul(a: Seq<u8>, b: Seq<u8>)
    requires
        !a.contains(0u8),
        !b.contains(0u8),
    ensures
        !(a + b).contains(0u8),
{
    assert forall|i: int| 0 <= i < (a + b).len() implies (a + b)[i] != 0 by {
        if i < a.len() {
            assert(a.contains(a[i]));
        } else {
            assert(b.contains(b[i - a.len()]));
        }
    }
}

proof fn lemma_interface_1d_nul(ptr: nat, len: nat, typestr: Seq<char>)
    requires
        !holds_nul(typestr),
    ensures
        !holds_nul(interface_1d(ptr, len, typestr)),
{
    reveal_strlit("{\"data\":[");
    reveal_strlit(",false],\"shape\":[");
    reveal_strlit("],\"strides\":null,\"typestr\":\"");
    reveal_strlit("\",\"version\":3}");
    lemma_decimal_nul(ptr);
    lemma_decimal_nul(len);
    let t0 = "{\"data\":["@;
    let t1 = t0 + decimal(ptr);
    let t2 = t1 + ",false],\"shape\":["@;
    let t3 = t2 + decimal(len);
    let t4 = t3 + "],\"strides\":null,\"typestr\":\""@;
    let t5 = t4 + typestr;
    lemma_chars_nul(t0, decimal(ptr));
    lemma_chars_nul(t1, ",false],\"shape\":["@);
    lemma_chars_nul(t2, decimal(len));
    lemma_chars_nul(t3, "],\"strides\":null,\"typestr\":\""@);
    lemma_chars_nul(t4, typestr);
    lemma_chars_nul(t5, "\",\"version\":3}"@);
}

/// Writes the description of a row-major matrix of 32-bit floating-point numbers into `buf`
/// and returns it NUL-terminated.
pub fn write_interface_2d<'a>(
    buf: &'a mut CBuf<ARRAY_INTERFACE_BUF>,
    ptr: usize,
    rows: usize,
    cols: usize,
) -> (r: &'a [u8])
    requires
        old(buf)@.len() + encode_utf8(interface_2d(ptr as nat, rows as nat, cols as nat)).len()
            < ARRAY_INTERFACE_BUF,
        !old(buf)@.contains(0u8),
    ensures
        final(buf)@ == old(buf)@ + encode_utf8(interface_2d(ptr as nat, rows as nat, cols as nat)),
        r@ == final(buf)@.push(0),
{
    let ghost t0 = "{\"data\":["@;
    let ghost t1 = t0 + decimal(ptr as nat);
    let ghost t2 = t1 + ",false],\"shape\":["@;
    let ghost t3 = t2 + decimal(rows as nat);
    let ghost t4 = t3 + ","@;
    let ghost t5 = t4 + decimal(cols as nat);
    let ghost t6 = t5 + "],\"strides\":null,\"typestr\":\"<f4\",\"version\":3}"@;
    proof {
        lemma_encode_concat(t0, decimal(ptr as nat));
        lemma_encode_concat(t1, ",false],\"shape\":["@);
        lemma_encode_concat(t2, decimal(rows as nat));
        lemma_encode_concat(t3, ","@);
        lemma_encode_concat(t4, decimal(cols as nat));
        lemma_encode_concat(t5, "],\"strides\":null,\"typestr\":\"<f4\",\"version\":3}"@);
    }
    put(buf, "{\"data\":[");
    put_decimal(buf, ptr);
    put(buf, ",false],\"shape\":[");
    put_decimal(buf, rows);
    put(buf, ",");
    put_decimal(buf, cols);
    put(buf, "],\"strides\":null,\"typestr\":\"<f4\",\"version\":3}");
    assert(buf@ =~= old(buf)@ + encode_utf8(t6));
    proof {
        lemma_interface_2d_nul(ptr as nat, rows as nat, cols as nat);
        lemma_encode_nul(t6);
        lemma_concat_nul(old(buf)@, encode_utf8(t6));
    }
    buf.as_cstr()
}

proof fn lemma_interface_2d_nul(ptr: nat, rows: nat, cols: nat)
    ensures
        !holds_nul(interface_2d(ptr, rows, cols)),
{
    reveal_strlit("{\"data\":[");
    reveal_strlit(",false],\"shape\":[");
    reveal_strlit(",");
    reveal_strlit("],\"strides\":null,\"typestr\":\"<f4\",\"version\":3}");
    lemma_decimal_nul(ptr);
    lemma_decimal_nul(rows);
    lemma_decimal_nul(cols);
    let t0 = "{\"data\":["@;
    let t1 = t0 + decimal(ptr);
    let t2 = t1 + ",false],\"shape\":["@;
    let t3 = t2 + decimal(rows);
    let t4 = t3 + ","@;
    let t5 = t4 + decimal(cols);
    lemma_chars_nul(t0, decimal(ptr));
    lemma_chars_nul(t1, ",false],\"shape\":["@);
    lemma_chars_nul(t2, decimal(rows));
    lemma_chars_nul(t3, ","@);
    lemma_chars_nul(t4, decimal(cols));
    lemma_chars_nul(t5, "],\"strides\":null,\"typestr\":\"<f4\",\"version\":3}"@);
}

/// The least number of `k + 1` digits.
spec fn power_of_ten(k: nat) -> nat
    decreases k,
{
    if k == 0 {
        1
    } else {
        10 * power_of_ten((k - 1) as nat)
    }
}

proof fn lemma_decimal_len(n: nat, k: nat)
    requires
        k >= 1,
        n < power_of_ten(k),
    ensures
        decimal(n).len() <= k,
    decreases k,
{
    if n >= 10 {
        reveal_with_fuel(power_of_ten, 2);
        lemma_decimal_len(n / 10, (k - 1) as nat);
    }
}

/// A number of the machine's size has at most 20 digits.
proof fn lemma_usize_len(n: usize)
    ensures
        decimal(n as nat).len() <= 20,
        is_ascii_chars(decimal(n as nat)),
{
    assert(power_of_ten(20) == 100000000000000000000) by {
        reveal_with_fuel(power_of_ten, 21);
    }
    lemma_decimal_len(n as nat, 20);
    lemma_decimal_digits(n as nat);
    assert forall|i: int| 0 <= i < decimal(n as nat).len() implies '\0' <= #[trigger] decimal(
        n as nat,
    )[i] <= '\u{7f}' by {
        assert(is_digit(decimal(n as nat)[i]));
    }
}

/// Descriptions take fewer than 140 bytes, so that one always fits into an empty buffer.
pub proof fn law_interface_fits(ptr: usize, a: usize, b: usize, typestr: Seq<char>)
    requires
        is_ascii_chars(typestr),
        typestr.len() <= 3,
    ensures
        encode_utf8(interface_1d(ptr as nat, a as nat, typestr)).len() < 140,
        encode_utf8(interface_2d(ptr as nat, a as nat, b as nat)).len() < 140,
        140 <= ARRAY_INTERFACE_BUF,
{
    reveal_strlit("{\"data\":[");
    reveal_strlit(",false],\"shape\":[");
    reveal_strlit(",");
    reveal_strlit("],\"strides\":null,\"typestr\":\"<f4\",\"version\":3}");
    reveal_strlit("],\"strides\":null,\"typestr\":\"");
    reveal_strlit("\",\"version\":3}");
    lemma_usize_len(ptr);
    lemma_usize_len(a);
    lemma_usize_len(b);
    let one = interface_1d(ptr as nat, a as nat, typestr);
    let two = interface_2d(ptr as nat, a as nat, b as nat);
    assert(is_ascii_chars(one));
    assert(is_ascii_chars(two));
    is_ascii_chars_encode_utf8(one);
    is_ascii_chars_encode_utf8(two);
}

/// A one-dimensional description tells, between its commas, the address, the number of elements
/// and their type, whatever they are.
pub proof fn law_interface_1d_tells_the_array(ptr: nat, len: nat, typestr: Seq<char>)
    requires
        !typestr.contains(','),
    ensures
        split(interface_1d(ptr, len, typestr), ',') == seq![
            "{\"data\":["@ + decimal(ptr),
            "false]"@,
            "\"shape\":["@ + decimal(len) + "]"@,
            "\"strides\":null"@,
            "\"typestr\":\""@ + typestr + "\""@,
            "\"version\":3}"@,
        ],
{
    reveal_strlit("{\"data\":[");
    reveal_strlit(",false],\"shape\":[");
    reveal_strlit("],\"strides\":null,\"typestr\":\"");
    reveal_strlit("\",\"version\":3}");
    reveal_strlit("false]");
    reveal_strlit("\"shape\":[");
    reveal_strlit("]");
    reveal_strlit("\"strides\":null");
    reveal_strlit("\"typestr\":\"");
    reveal_strlit("\"");
    reveal_strlit("\"version\":3}");
    lemma_decimal_without(ptr as int, ',');
    lemma_decimal_without(len as int, ',');
    lemma_concat_without("{\"data\":["@, decimal(ptr), ',');
    lemma_concat_without("\"shape\":["@, decimal(len), ',');
    lemma_concat_without("\"shape\":["@ + decimal(len), "]"@, ',');
    lemma_concat_without("\"typestr\":\""@, typestr, ',');
    lemma_concat_without("\"typestr\":\""@ + typestr, "\""@, ',');
    let f = seq![
        "{\"data\":["@ + decimal(ptr),
        "false]"@,
        "\"shape\":["@ + decimal(len) + "]"@,
        "\"strides\":null"@,
        "\"typestr\":\""@ + typestr + "\""@,
        "\"version\":3}"@,
    ];
    let f1 = f.drop_last();
    let f2 = f1.drop_last();
    let f3 = f2.drop_last();
    let f4 = f3.drop_last();
    let f5 = f4.drop_last();
    assert(joined_by(f5, ',') == f[0]);
    assert(joined_by(f4, ',') == f[0] + seq![','] + f[1]);
    assert(joined_by(f3, ',') == f[0] + seq![','] + f[1] + seq![','] + f[2]);
    assert(joined_by(f2, ',') == joined_by(f3, ',') + seq![','] + f[3]);
    assert(joined_by(f1, ',') == joined_by(f2, ',') + seq![','] + f[4]);
    assert(joined_by(f, ',') =~= interface_1d(ptr, len, typestr));
    law_split_finds_pieces(f, ',');
}

/// The description of a matrix tells, between its commas, the address, the rows and the columns,
/// whatever they are.
pub proof fn law_interface_2d_tells_the_matrix(ptr: nat, rows: nat, cols: nat)
    ensures
        split(interface_2d(ptr, rows, cols), ',') == seq![
            "{\"data\":["@ + decimal(ptr),
            "false]"@,
            "\"shape\":["@ + decimal(rows),
            decimal(cols) + "]"@,
            "\"strides\":null"@,
            "\"typestr\":\"<f4\""@,
            "\"version\":3}"@,
        ],
{
    reveal_strlit("{\"data\":[");
    reveal_strlit(",false],\"shape\":[");
    reveal_strlit(",");
    reveal_strlit("],\"strides\":null,\"typestr\":\"<f4\",\"version\":3}");
    reveal_strlit("false]");
    reveal_strlit("\"shape\":[");
    reveal_strlit("]");
    reveal_strlit("\"strides\":null");
    reveal_strlit("\"typestr\":\"<f4\"");
    reveal_strlit("\"version\":3}");
    lemma_decimal_without(ptr as int, ',');
    lemma_decimal_without(rows as int, ',');
    lemma_decimal_without(cols as int, ',');
    lemma_concat_without("{\"data\":["@, decimal(ptr), ',');
    lemma_concat_without("\"shape\":["@, decimal(rows), ',');
    lemma_concat_without(decimal(cols), "]"@, ',');
    let f = seq![
        "{\"data\":["@ + decimal(ptr),
        "false]"@,
        "\"shape\":["@ + decimal(rows),
        decimal(cols) + "]"@,
        "\"strides\":null"@,
        "\"typestr\":\"<f4\""@,
        "\"version\":3}"@,
    ];
    let f1 = f.drop_last();
    let f2 = f1.drop_last();
    let f3 = f2.drop_last();
    let f4 = f3.drop_last();
    let f5 = f4.drop_last();
    let f6 = f5.drop_last();
    assert(joined_by(f6, ',') == f[0]);
    assert(joined_by(f5, ',') == f[0] + seq![','] + f[1]);
    assert(joined_by(f4, ',') == joined_by(f5, ',') + seq![','] + f[2]);
    assert(joined_by(f3, ',') == joined_by(f4, ',') + seq![','] + f[3]);
    assert(joined_by(f2, ',') == joined_by(f3, ',') + seq![','] + f[4]);
    assert(joined_by(f1, ',') == joined_by(f2, ',') + seq![','] + f[5]);
    assert(joined_by(f, ',') =~= interface_2d(ptr, rows, cols));
    law_split_finds_pieces(f, ',');
}

/// Different arrays have different descriptions: what two equal descriptions tell is equal.
pub proof fn law_interfaces_are_unambiguous(
    ptr: nat,
    a: nat,
    b: nat,
    other_ptr: nat,
    other_a: nat,
    other_b: nat,
    typestr: Seq<char>,
    other_typestr: Seq<char>,
)
    requires
        !typestr.contains(','),
        !other_typestr.contains(','),
    ensures
        interface_2d(ptr, a, b) == interface_2d(other_ptr, other_a, other_b) ==> ptr == other_ptr
            && a == other_a && b == other_b,
        interface_1d(ptr, a, typestr) == interface_1d(other_ptr, other_a, other_typestr) ==> ptr
            == other_ptr && a == other_a && typestr == other_typestr,
        interface_1d(ptr, a, typestr) != interface_2d(other_ptr, other_a, other_b),
{
    law_interface_1d_tells_the_array(ptr, a, typestr);
    law_interface_1d_tells_the_array(other_ptr, other_a, other_typestr);
    law_interface_2d_tells_the_matrix(ptr, a, b);
    law_interface_2d_tells_the_matrix(other_ptr, other_a, other_b);
    assert(split(interface_1d(ptr, a, typestr), ',').len() == 6);
    assert(split(interface_2d(other_ptr, other_a, other_b), ',').len() == 7);
    law_decimal_unambiguous(ptr as int, other_ptr as int);
    law_decimal_unambiguous(a as int, other_a as int);
    law_decimal_unambiguous(b as int, other_b as int);
    reveal_strlit("{\"data\":[");
    reveal_strlit("\"shape\":[");
    reveal_strlit("]");
    reveal_strlit("\"typestr\":\"");
    reveal_strlit("\"");
    if interface_2d(ptr, a, b) == interface_2d(other_ptr, other_a, other_b) {
        let f = split(interface_2d(ptr, a, b), ',');
        assert(f[0].skip(9) =~= decimal(ptr) && f[0].skip(9) =~= decimal(other_ptr));
        assert(f[2].skip(9) =~= decimal(a) && f[2].skip(9) =~= decimal(other_a));
        assert(f[3].drop_last() =~= decimal(b) && f[3].drop_last() =~= decimal(other_b));
    }
    if interface_1d(ptr, a, typestr) == interface_1d(other_ptr, other_a, other_typestr) {
        let f = split(interface_1d(ptr, a, typestr), ',');
        assert(f[0].skip(9) =~= decimal(ptr) && f[0].skip(9) =~= decimal(other_ptr));
        assert(f[2].skip(9).drop_last() =~= decimal(a) && f[2].skip(9).drop_last() =~= decimal(
            other_a,
        ));
        assert(f[4].skip(11).drop_last() =~= typestr && f[4].skip(11).drop_last()
            =~= other_typestr);
    }
}

} // verus!
