//! Laws of numbers and fields as text.

use vstd::prelude::*;

use crate::text::{behind_two_bytes, digit_char, digit_value, digits, digits_value, number_of};

verus! {

/// A character is a digit below 36 in lower case, with its value.
pub open spec fn is_digit(c: char, d: nat) -> bool {
    ||| '0' <= c <= '9' && c as int == '0' as int + d
    ||| 'a' <= c <= 'z' && c as int == 'a' as int + (d - 10)
}

/// The digits of a number are its remainders, the last one last, and what is before them are
/// the digits of the rest. No number but zero begins with a zero.
pub proof fn law_digits_are_remainders(n: nat, radix: nat)
    requires
        2 <= radix <= 36,
    ensures
        digits(n, radix).len() > 0,
        is_digit(digits(n, radix).last(), n % radix),
        n < radix ==> digits(n, radix).len() == 1,
        n >= radix ==> digits(n, radix).drop_last() == digits(n / radix, radix),
        n > 0 ==> digits(n, radix)[0] != '0',
    decreases n,
{
    vstd::arithmetic::div_mod::lemma_mod_bound(n as int, radix as int);
    if n < radix {
        vstd::arithmetic::div_mod::lemma_small_mod(n, radix);
        assert(digits(n, radix).last() == digit_char(n));
    } else {
        vstd::arithmetic::div_mod::lemma_div_decreases(n as int, radix as int);
        vstd::arithmetic::div_mod::lemma_div_non_zero(n as int, radix as int);
        law_digits_are_remainders(n / radix, radix);
        assert(digits(n, radix).drop_last() =~= digits(n / radix, radix));
        assert(digits(n, radix)[0] == digits(n / radix, radix)[0]);
    }
}

/// The digits of a number denote it.
pub proof fn law_digits_denote_their_number(n: nat, radix: nat)
    requires
        2 <= radix <= 36,
    ensures
        digits_value(digits(n, radix), radix) == Some(n),
        digits(n, radix)[0] != '+',
        n <= u64::MAX ==> number_of(digits(n, radix), radix) == Some(n as u64),
    decreases n,
{
    law_digits_are_remainders(n, radix);
    let s = digits(n, radix);
    vstd::arithmetic::div_mod::lemma_mod_bound(n as int, radix as int);
    if n < radix {
        vstd::arithmetic::div_mod::lemma_small_mod(n, radix);
        assert(s.drop_last() =~= Seq::empty());
        assert(digits_value(s.drop_last(), radix) == Some(0nat));
        assert(0 * radix == 0) by (nonlinear_arith);
    } else {
        vstd::arithmetic::div_mod::lemma_div_decreases(n as int, radix as int);
        law_digits_denote_their_number(n / radix, radix);
        vstd::arithmetic::div_mod::lemma_fundamental_div_mod(n as int, radix as int);
        assert(radix * (n / radix) == (n / radix) * radix) by (nonlinear_arith);
        assert(s[0] == s.drop_last()[0]);
    }
}

/// Different numbers have different digits.
pub proof fn law_digits_tell_numbers_apart(a: nat, b: nat, radix: nat)
    requires
        2 <= radix <= 36,
        digits(a, radix) == digits(b, radix),
    ensures
        a == b,
{
    law_digits_denote_their_number(a, radix);
    law_digits_denote_their_number(b, radix);
}

/// The value of a digit: letters count in either case, and no other character does.
pub proof fn law_digit_values(c: char)
    ensures
        '0' <= c <= '9' ==> digit_value(c) == Some((c as int - '0' as int) as nat),
        'a' <= c <= 'z' ==> digit_value(c) == Some((10 + (c as int - 'a' as int)) as nat),
        'A' <= c <= 'Z' ==> digit_value(c) == Some((10 + (c as int - 'A' as int)) as nat),
        !('0' <= c <= '9' || 'a' <= c <= 'z' || 'A' <= c <= 'Z') ==> digit_value(c) is None,
{
}

/// With one character more, a number is the radix times as large and the digit added, if the
/// character is a digit of the radix and the number still fits. Otherwise it is none.
pub proof fn law_one_character_more(s: Seq<char>, c: char, radix: nat)
    requires
        2 <= radix <= 36,
        number_of(s, radix) is Some,
    ensures
        digit_value(c) is None || digit_value(c)->0 >= radix ==> number_of(
            s.push(c),
            radix,
        ) is None,
        digit_value(c) matches Some(d) ==> d < radix && number_of(s, radix)->0 * radix + d
            <= u64::MAX ==> number_of(s.push(c), radix) == Some(
            (number_of(s, radix)->0 * radix + d) as u64,
        ),
        digit_value(c) matches Some(d) ==> d < radix && number_of(s, radix)->0 * radix + d
            > u64::MAX ==> number_of(s.push(c), radix) is None,
{
    let t = s.push(c);
    if s[0] == '+' {
        assert(t.skip(1).drop_last() =~= s.skip(1));
        assert(t.skip(1).last() == c);
    } else {
        assert(t.drop_last() =~= s);
    }
}

/// A number may have one sign, which does not change it, and needs a digit.
pub proof fn law_one_sign_is_allowed(s: Seq<char>, radix: nat)
    requires
        2 <= radix <= 36,
    ensures
        number_of(Seq::empty(), radix) is None,
        s.len() == 0 || s[0] == '+' ==> number_of(seq!['+'] + s, radix) is None,
        s.len() > 0 && s[0] != '+' ==> number_of(seq!['+'] + s, radix) == number_of(s, radix),
{
    let t = seq!['+'] + s;
    assert(t.skip(1) =~= s);
    if s.len() > 0 && s[0] == '+' {
        lemma_sign_is_no_digit(s, radix);
    }
}

proof fn lemma_sign_is_no_digit(s: Seq<char>, radix: nat)
    requires
        s.len() > 0,
        s[0] == '+',
    ensures
        digits_value(s, radix) is None,
    decreases s.len(),
{
    if s.len() > 1 {
        assert(s.drop_last()[0] == '+');
        lemma_sign_is_no_digit(s.drop_last(), radix);
    }
}

/// A text of one character is the number of its digit, where it is one.
pub proof fn law_one_digit(c: char, radix: nat)
    requires
        2 <= radix <= 36,
    ensures
        digit_value(c) is None || digit_value(c)->0 >= radix ==> number_of(seq![c], radix) is None,
        digit_value(c) matches Some(d) ==> d < radix ==> number_of(seq![c], radix) == Some(
            d as u64,
        ),
{
    let s = seq![c];
    assert(s.drop_last() =~= Seq::empty());
    assert(digits_value(s.drop_last(), radix) == Some(0nat));
    assert(0 * radix == 0) by (nonlinear_arith);
    if c == '+' {
        assert(s.skip(1) =~= Seq::empty());
    }
}

/// A text that is no number, other than an empty one or a sign alone, becomes none by a
/// character more.
pub proof fn law_no_number_stays_none(s: Seq<char>, c: char, radix: nat)
    requires
        2 <= radix <= 36,
        number_of(s, radix) is None,
        s.len() > 1 || s.len() == 1 && s[0] != '+',
    ensures
        number_of(s.push(c), radix) is None,
{
    let t = s.push(c);
    let (body, more) = if s[0] == '+' {
        (s.skip(1), t.skip(1))
    } else {
        (s, t)
    };
    assert(more.drop_last() =~= body);
    assert(more.last() == c);
    if let Some(v) = digits_value(body, radix) {
        if let Some(d) = digit_value(c) {
            assert(v <= v * radix + d) by (nonlinear_arith)
                requires
                    radix >= 1,
                    v >= 0,
                    d >= 0,
            ;
        }
    }
}

/// How many bytes a character takes.
pub open spec fn width(c: char) -> nat {
    if c as u32 <= 0x7f {
        1
    } else if c as u32 <= 0x7ff {
        2
    } else if c as u32 <= 0xffff {
        3
    } else {
        4
    }
}

proof fn lemma_width(c: char)
    ensures
        vstd::utf8::encode_scalar(c as u32).len() == width(c),
{
    vstd::utf8::char_is_scalar(c);
}

/// The first two bytes of a text are one character of two bytes or two of one. What is
/// behind them is left. Any other text has no character end there.
pub proof fn law_two_bytes_are_skipped(s: Seq<char>)
    ensures
        s.len() > 0 && width(s[0]) == 2 ==> behind_two_bytes(s) == Some(s.skip(1)),
        s.len() > 1 && width(s[0]) == 1 && width(s[1]) == 1 ==> behind_two_bytes(s) == Some(
            s.skip(2),
        ),
        s.len() == 0 ==> behind_two_bytes(s) is None,
        s.len() == 1 && width(s[0]) == 1 ==> behind_two_bytes(s) is None,
        s.len() > 1 && width(s[0]) == 1 && width(s[1]) != 1 ==> behind_two_bytes(s) is None,
        s.len() > 0 && width(s[0]) > 2 ==> behind_two_bytes(s) is None,
{
    let bytes = vstd::utf8::encode_utf8(s);
    vstd::utf8::encode_utf8_valid_utf8(s);
    reveal_with_fuel(vstd::utf8::is_char_boundary, 4);
    if s.len() > 0 {
        let t = s.drop_first();
        let tail = vstd::utf8::encode_utf8(t);
        lemma_width(s[0]);
        vstd::utf8::encode_utf8_first_scalar(s);
        vstd::utf8::encode_utf8_valid_utf8(t);
        assert(vstd::utf8::pop_first_scalar(bytes) =~= tail);
        if width(s[0]) == 2 {
            assert(bytes.subrange(2, bytes.len() as int) =~= tail);
            assert(t =~= s.skip(1));
            vstd::utf8::encode_utf8_decode_utf8(t);
            assert(vstd::utf8::is_char_boundary(tail, 0));
            assert(vstd::utf8::is_char_boundary(bytes, 2));
        } else if width(s[0]) == 1 {
            if s.len() > 1 {
                let u = t.drop_first();
                let end = vstd::utf8::encode_utf8(u);
                lemma_width(s[1]);
                vstd::utf8::encode_utf8_first_scalar(t);
                vstd::utf8::encode_utf8_valid_utf8(u);
                assert(vstd::utf8::pop_first_scalar(tail) =~= end);
                assert(vstd::utf8::is_char_boundary(bytes, 2) == vstd::utf8::is_char_boundary(
                    tail,
                    1,
                ));
                if width(s[1]) == 1 {
                    assert(bytes.subrange(2, bytes.len() as int) =~= end);
                    assert(u =~= s.skip(2));
                    vstd::utf8::encode_utf8_decode_utf8(u);
                    assert(vstd::utf8::is_char_boundary(end, 0));
                } else {
                    assert(!vstd::utf8::is_char_boundary(end, 1 - width(s[1])));
                }
            } else {
                assert(tail =~= Seq::empty());
            }
        } else {
            assert(!vstd::utf8::is_char_boundary(tail, 2 - width(s[0])));
        }
    } else {
        assert(bytes =~= Seq::empty());
    }
}

} // verus!
