//! Numbers and fields as text.

use vstd::prelude::*;
use vstd::utf8::*;

verus! {

/// The character of a digit that is below 36: `0` to `9`, then `a` to `z`.
pub open spec fn digit_char(d: nat) -> char {
    if d < 10 {
        (48 + d) as char
    } else {
        (87 + d) as char
    }
}

/// The digits of `n` to the base `radix`, most significant first, without leading zeros.
pub open spec fn digits(n: nat, radix: nat) -> Seq<char>
    decreases n,
{
    if radix < 2 || n < radix {
        seq![digit_char(n)]
    } else {
        proof {
            vstd::arithmetic::div_mod::lemma_div_decreases(n as int, radix as int);
        }
        digits(n / radix, radix).push(digit_char(n % radix))
    }
}

/// The value of a digit, in either case of letter.
pub open spec fn digit_value(c: char) -> Option<nat> {
    if '0' <= c <= '9' {
        Some((c as int - 48) as nat)
    } else if 'a' <= c <= 'z' {
        Some((c as int - 87) as nat)
    } else if 'A' <= c <= 'Z' {
        Some((c as int - 55) as nat)
    } else {
        None
    }
}

/// The number that a sequence of digits denotes to the base `radix`.
pub open spec fn digits_value(s: Seq<char>, radix: nat) -> Option<nat>
    decreases s.len(),
{
    if s.len() == 0 {
        Some(0)
    } else {
        match (digits_value(s.drop_last(), radix), digit_value(s.last())) {
            (Some(v), Some(d)) => if d < radix {
                Some(v * radix + d)
            } else {
                None
            },
            _ => None,
        }
    }
}

/// The number below 2^64 that a text denotes: an optional `+`, then at least one digit.
pub open spec fn number_of(s: Seq<char>, radix: nat) -> Option<u64> {
    let body = if s.len() > 0 && s[0] == '+' {
        s.skip(1)
    } else {
        s
    };
    match digits_value(body, radix) {
        Some(v) => if body.len() > 0 && v <= u64::MAX {
            Some(v as u64)
        } else {
            None
        },
        None => None,
    }
}

/// What is left of a text behind its first two bytes, where a character ends there.
pub open spec fn behind_two_bytes(s: Seq<char>) -> Option<Seq<char>> {
    let bytes = encode_utf8(s);
    if is_char_boundary(bytes, 2) {
        Some(decode_utf8(bytes.subrange(2, bytes.len() as int)))
    } else {
        None
    }
}

/// The error that `u64::from_str_radix` gives for a text that is no number.
pub uninterp spec fn radix_error(s: Seq<char>, radix: nat) -> core::num::ParseIntError;

/// `core::num::ParseIntError`, carried through and never looked into.
#[verifier::external_type_specification]
#[verifier::external_body]
pub struct ExParseIntError(core::num::ParseIntError);

/// `u64::from_str_radix`: the text is an optional `+` sign followed by only digits of the
/// radix, in either case; anything else, and a number that does not fit, is an error.
pub assume_specification[ u64::from_str_radix ](src: &str, radix: u32) -> (r: Result<
    u64,
    core::num::ParseIntError,
>)
    requires
        2 <= radix <= 36,
    ensures
        match r {
            Ok(n) => number_of(src@, radix as nat) == Some(n),
            Err(e) => number_of(src@, radix as nat) is None && e == radix_error(
                src@,
                radix as nat,
            ),
        },
;

/// The text behind the first two bytes, or `None` where no character ends there.
pub fn skip_two_bytes(s: &str) -> (r: Option<&str>)
    ensures
        match r {
            Some(t) => behind_two_bytes(s@) == Some(t@),
            None => behind_two_bytes(s@) is None,
        },
{
    if s.is_char_boundary(2) {
        let (_head, tail) = s.split_at(2);
        proof {
            encode_utf8_decode_utf8(tail@);
        }
        Some(tail)
    } else {
        None
    }
}

/// One digit below 16 as text.
fn digit_text(d: u64) -> (r: &'static str)
    requires
        d < 16,
    ensures
        r@ == seq![digit_char(d as nat)],
{
    proof {
        reveal_strlit("0");
        reveal_strlit("1");
        reveal_strlit("2");
        reveal_strlit("3");
        reveal_strlit("4");
        reveal_strlit("5");
        reveal_strlit("6");
        reveal_strlit("7");
        reveal_strlit("8");
        reveal_strlit("9");
        reveal_strlit("a");
        reveal_strlit("b");
        reveal_strlit("c");
        reveal_strlit("d");
        reveal_strlit("e");
        reveal_strlit("f");
    }
    let r = match d {
        0 => "0",
        1 => "1",
        2 => "2",
        3 => "3",
        4 => "4",
        5 => "5",
        6 => "6",
        7 => "7",
        8 => "8",
        9 => "9",
        10 => "a",
        11 => "b",
        12 => "c",
        13 => "d",
        14 => "e",
        _ => "f",
    };
    assert(r@ =~= seq![digit_char(d as nat)]);
    r
}

/// A number as text to the base `radix`.
pub fn number_text(n: u64, radix: u64) -> (r: String)
    requires
        2 <= radix <= 16,
    ensures
        r@ == digits(n as nat, radix as nat),
    decreases n,
{
    if n < radix {
        digit_text(n).to_string()
    } else {
        proof {
            vstd::arithmetic::div_mod::lemma_div_decreases(n as int, radix as int);
        }
        let mut r = number_text(n / radix, radix);
        r.append(digit_text(n % radix));
        assert(r@ =~= digits(n as nat, radix as nat));
        r
    }
}

} // verus!
