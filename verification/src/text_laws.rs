//! What white space, numbers and the order of strings are.

use vstd::prelude::*;
use vstd::utf8::*;

use crate::text;

verus! {

/// White space is what Unicode calls so, by its code points.
pub proof fn white_space_is_that_of_unicode(c: char)
    ensures
        text::is_white(c) <==> {
            ||| 9 <= c as u32 <= 13
            ||| c as u32 == 32
            ||| c as u32 == 133
            ||| c as u32 == 160
            ||| c as u32 == 5760
            ||| 8192 <= c as u32 <= 8202
            ||| c as u32 == 8232
            ||| c as u32 == 8233
            ||| c as u32 == 8239
            ||| c as u32 == 8287
            ||| c as u32 == 12288
        },
{
}

/// A text is blank where all of its characters are white space.
pub proof fn blank_texts_hold_only_white_space(s: Seq<char>, c: char)
    ensures
        text::is_blank(seq![]),
        text::is_blank(s.push(c)) <==> text::is_blank(s) && text::is_white(c),
{
    let t = s.push(c);
    if text::is_blank(t) {
        assert(text::is_white(t[s.len() as int]));
        assert forall|i: int| 0 <= i < s.len() implies text::is_white(#[trigger] s[i]) by {
            assert(text::is_white(t[i]));
        }
    }
    if text::is_blank(s) && text::is_white(c) {
        assert forall|i: int| 0 <= i < t.len() implies text::is_white(#[trigger] t[i]) by {
            if i < s.len() {
                assert(text::is_white(s[i]));
            }
        }
    }
}

/// The code point of a digit is 48 more than its value, and the digits of a number stand in
/// decreasing weight.
pub proof fn digits_have_decimal_weight(n: nat, digit: u8)
    requires
        digit < 10,
    ensures
        text::decimal_text(digit as nat).len() == 1,
        text::decimal_text(digit as nat)[0] as u32 == 48 + digit,
        n > 0 ==> text::decimal_text(10 * n + digit as nat) == text::decimal_text(n)
            + text::decimal_text(digit as nat),
{
    if n > 0 {
        assert((10 * n + digit as nat) / 10 == n);
        assert((10 * n + digit as nat) % 10 == digit as nat);
        assert(text::decimal_text(n).push(text::decimal_text(digit as nat)[0])
            =~= text::decimal_text(n) + text::decimal_text(digit as nat));
    }
}

/// A digit behind others makes ten times their number and its own value.
pub proof fn digits_write_their_number(s: Seq<char>, c: char)
    requires
        '0' <= c <= '9',
    ensures
        text::decimal_value(seq![]) == 0,
        text::decimal_value(s.push(c)) == 10 * text::decimal_value(s) + (c as u32 - 48),
        text::all_digits(s.push(c)) <==> text::all_digits(s),
        text::all_digits(s) <==> forall|i: int| 0 <= i < s.len() ==> '0' <= #[trigger] s[i] <= '9',
{
    assert(s.push(c).drop_last() =~= s);
    assert(text::is_digit(c));
    let t = s.push(c);
    if text::all_digits(t) {
        assert forall|i: int| 0 <= i < s.len() implies text::is_digit(#[trigger] s[i]) by {
            assert(text::is_digit(t[i]));
        }
    }
    if text::all_digits(s) {
        assert forall|i: int| 0 <= i < t.len() implies text::is_digit(#[trigger] t[i]) by {
            if i < s.len() {
                assert(text::is_digit(s[i]));
            }
        }
        assert forall|i: int| 0 <= i < s.len() implies '0' <= #[trigger] s[i] <= '9' by {
            assert(text::is_digit(s[i]));
        }
    }
}

/// A number is read from digits, with a `+` before them or without.
pub proof fn digits_are_read_as_their_number(digits: Seq<char>, limit: nat)
    requires
        digits.len() > 0,
        forall|i: int| 0 <= i < digits.len() ==> '0' <= #[trigger] digits[i] <= '9',
    ensures
        text::decimal_value(digits) <= limit ==> {
            &&& text::parsed_number(digits, limit) == Some(text::decimal_value(digits))
            &&& text::parsed_number(seq!['+'] + digits, limit) == Some(
                text::decimal_value(digits),
            )
        },
        text::decimal_value(digits) > limit ==> {
            &&& text::parsed_number(digits, limit) is None
            &&& text::parsed_number(seq!['+'] + digits, limit) is None
        },
{
    assert(digits[0] != '+');
    assert((seq!['+'] + digits).drop_first() =~= digits);
}

/// Nothing else is read as a number.
pub proof fn only_digits_are_read_as_a_number(s: Seq<char>, limit: nat) -> (digits: Seq<char>)
    requires
        text::parsed_number(s, limit) is Some,
    ensures
        digits.len() > 0,
        forall|i: int| 0 <= i < digits.len() ==> '0' <= #[trigger] digits[i] <= '9',
        text::decimal_value(digits) <= limit,
        s == digits || s == seq!['+'] + digits,
{
    if s[0] == '+' {
        let digits = s.drop_first();
        assert(s =~= seq!['+'] + digits);
        digits
    } else {
        s
    }
}

/// Of two different byte strings with a common start, the one comes first that ends there or goes on
/// with the lesser byte.
pub proof fn first_different_byte_decides(common: Seq<u8>, a: Seq<u8>, b: Seq<u8>)
    requires
        a.len() == 0 || b.len() == 0 || a[0] != b[0],
    ensures
        text::bytes_before(common + a, common + b) <==> b.len() > 0 && (a.len() == 0 || a[0] < b[0]),
    decreases common.len(),
{
    if common.len() == 0 {
        assert(common + a =~= a);
        assert(common + b =~= b);
    } else {
        first_different_byte_decides(common.drop_first(), a, b);
        assert((common + a).drop_first() =~= common.drop_first() + a);
        assert((common + b).drop_first() =~= common.drop_first() + b);
    }
}

/// Strings are in the order of their bytes.
pub proof fn strings_are_in_the_order_of_their_bytes(
    common: Seq<u8>,
    a: Seq<u8>,
    b: Seq<u8>,
    s: Seq<char>,
    t: Seq<char>,
)
    requires
        encode_utf8(s) == common + a,
        encode_utf8(t) == common + b,
        a.len() == 0 || b.len() == 0 || a[0] != b[0],
    ensures
        text::text_before(s, t) <==> b.len() > 0 && (a.len() == 0 || a[0] < b[0]),
{
    first_different_byte_decides(common, a, b);
}

/// Stored bytes that are the encoding of a text read as that text, and no other bytes that are valid
/// do.
pub proof fn stored_text_is_read_back(s: Seq<char>, bytes: Seq<u8>)
    requires
        valid_utf8(bytes),
    ensures
        text::lossy_text(encode_utf8(s)) == s,
        text::lossy_text(bytes) == s <==> bytes == encode_utf8(s),
{
    text::lossy_text_of_encoding(s);
    decode_utf8_encode_utf8(bytes);
}

/// Bytes that are no valid encoding read as the text with what is malformed replaced.
pub proof fn malformed_bytes_are_replaced(bytes: Seq<u8>)
    requires
        !valid_utf8(bytes),
    ensures
        text::lossy_text(bytes) == text::replaced_utf8(bytes),
{
}

/// A character starts behind the bytes of all characters before it: of one to four each, by its code
/// point.
pub proof fn characters_start_behind_those_before(s: Seq<char>, c: char, rest: Seq<char>)
    ensures
        text::byte_offset(s, 0) == 0,
        text::byte_offset(s + seq![c] + rest, s.len() as int + 1) == text::byte_offset(
            s + seq![c] + rest,
            s.len() as int,
        ) + (if (c as u32) < 0x80 {
            1int
        } else if (c as u32) < 0x800 {
            2
        } else if (c as u32) < 0x10000 {
            3
        } else {
            4
        }),
{
    let t = s + seq![c] + rest;
    assert(s.take(0) =~= Seq::<char>::empty());
    assert(encode_utf8(s.take(0)) =~= Seq::<u8>::empty());
    assert(t[s.len() as int] == c);
    text::lemma_byte_offset_step(t, s.len() as int);
}

} // verus!
