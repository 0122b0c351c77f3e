//! Unsigned decimal numbers as they appear in HTTP headers.
//!
//! Reading: a size field holds ASCII digits, optionally after one `+`.
//! Writing: a number is spelled with the fewest digits that express it.

use vstd::prelude::*;

verus! {

/// `b` is one of the ASCII digits `0` to `9`.
pub open spec fn is_digit(b: u8) -> bool {
    0x30 <= b <= 0x39
}

/// Every byte of `text` is an ASCII digit.
pub open spec fn all_digits(text: Seq<u8>) -> bool {
    forall|i: int| 0 <= i < text.len() ==> is_digit(#[trigger] text[i])
}

/// The number that a run of ASCII digits spells, most significant digit
/// first.
pub open spec fn digits_value(digits: Seq<u8>) -> nat
    decreases digits.len(),
{
    if digits.len() == 0 {
        0
    } else {
        digits_value(digits.drop_last()) * 10 + (digits.last() - 0x30) as nat
    }
}

/// `text` without the `+` that may stand in front of a number.
pub open spec fn unsigned_digits(text: Seq<u8>) -> Seq<u8> {
    if text.len() > 0 && text[0] == 0x2b {
        text.skip(1)
    } else {
        text
    }
}

/// The number that `text` spells, where it is an unsigned decimal number
/// that fits 64 bits: one or more ASCII digits and nothing else, but for one
/// `+` that may come first.
pub open spec fn decimal_u64(text: Seq<u8>) -> Option<u64> {
    let digits = unsigned_digits(text);
    if digits.len() > 0 && all_digits(digits) && digits_value(digits) <= u64::MAX {
        Some(digits_value(digits) as u64)
    } else {
        None
    }
}

/// A run of digits spells no less than any of its prefixes.
pub proof fn lemma_digits_value_prefix(digits: Seq<u8>, k: int)
    requires
        0 <= k <= digits.len(),
        all_digits(digits),
    ensures
        digits_value(digits.take(k)) <= digits_value(digits),
    decreases digits.len() - k,
{
    if k == digits.len() {
        assert(digits.take(k) =~= digits);
    } else {
        lemma_digits_value_prefix(digits, k + 1);
        assert(digits.take(k + 1).drop_last() =~= digits.take(k));
        assert(is_digit(digits[k]));
    }
}

/// Appending one digit multiplies what the run spells by ten and adds the
/// digit.
pub proof fn lemma_digits_value_push(digits: Seq<u8>, b: u8)
    ensures
        digits_value(digits.push(b)) == digits_value(digits) * 10 + (b - 0x30) as nat,
{
    assert(digits.push(b).drop_last() =~= digits);
}

/// Reads an unsigned decimal number.  `None` where `text` is empty, holds
/// anything but digits after an optional leading `+`, or spells a number
/// above `u64::MAX`.
pub fn parse_decimal(text: &[u8]) -> (value: Option<u64>)
    ensures
        value == decimal_u64(text@),
{
    let first: usize = if text.len() > 0 && text[0] == 0x2b {
        1
    } else {
        0
    };
    if first == text.len() {
        return None;
    }
    let ghost digits = text@.skip(first as int);
    assert(digits == unsigned_digits(text@));
    let mut value: u64 = 0;
    let mut i: usize = first;
    assert(text@.subrange(first as int, i as int) =~= Seq::<u8>::empty());
    while i < text.len()
        invariant
            first <= i <= text.len(),
            digits == text@.skip(first as int),
            digits == unsigned_digits(text@),
            forall|j: int| first <= j < i ==> is_digit(#[trigger] text@[j]),
            value == digits_value(text@.subrange(first as int, i as int)),
        ensures
            i == text.len(),
            forall|j: int| first <= j < i ==> is_digit(#[trigger] text@[j]),
            value == digits_value(text@.subrange(first as int, i as int)),
        decreases text.len() - i,
    {
        let b: u8 = text[i];
        let ghost seen = text@.subrange(first as int, i as int);
        proof {
            lemma_digits_value_push(seen, b);
            assert(seen.push(b) =~= text@.subrange(first as int, i + 1));
            assert(digits[i - first] == b);
        }
        if b < 0x30 || b > 0x39 {
            assert(!all_digits(digits));
            return None;
        }
        let d: u64 = (b - 0x30) as u64;
        if value > (u64::MAX - d) / 10 {
            proof {
                if all_digits(digits) {
                    lemma_digits_value_prefix(digits, i + 1 - first);
                    assert(digits.take(i + 1 - first) =~= seen.push(b));
                }
            }
            return None;
        }
        value = value * 10 + d;
        i = i + 1;
    }
    proof {
        assert(text@.subrange(first as int, i as int) =~= digits);
        assert forall|j: int| 0 <= j < digits.len() implies is_digit(#[trigger] digits[j]) by {
            assert(digits[j] == text@[j + first]);
        }
    }
    Some(value)
}

/// The character for a digit value below ten.
pub open spec fn digit_char(d: nat) -> char
    recommends
        d < 10,
{
    seq!['0', '1', '2', '3', '4', '5', '6', '7', '8', '9'][d as int]
}

/// The decimal spelling of `n`: no sign, no leading zero but for `0` itself.
pub open spec fn decimal_text(n: nat) -> Seq<char>
    decreases n,
{
    if n < 10 {
        seq![digit_char(n)]
    } else {
        decimal_text(n / 10).push(digit_char(n % 10))
    }
}

/// The decimal spelling of a number holds digits and nothing else.
pub proof fn lemma_decimal_text_digits(n: nat)
    ensures
        decimal_text(n).len() > 0,
        forall|i: int| 0 <= i < decimal_text(n).len() ==> '0' <= #[trigger] decimal_text(n)[i] <= '9',
    decreases n,
{
    if n >= 10 {
        lemma_decimal_text_digits(n / 10);
    }
}

/// The one-character text of a digit.
fn digit_str(d: u64) -> (text: &'static str)
    requires
        d < 10,
    ensures
        text@ == seq![digit_char(d as nat)],
{
    proof {
        reveal_strlit("0");
        reveal_strlit("1");
        reveal_strlit("2");
        reveal_strlit("3");
        reveal_strlit("4");
        reveal_strlit("5");
        reveal_strlit("6");
        reveal_strlit("7");
        reveal_strlit("8");
        reveal_strlit("9");
    }
    let text: &'static str = match d {
        0 => "0",
        1 => "1",
        2 => "2",
        3 => "3",
        4 => "4",
        5 => "5",
        6 => "6",
        7 => "7",
        8 => "8",
        _ => "9",
    };
    assert(text@ =~= seq![digit_char(d as nat)]);
    text
}

/// Appends the decimal spelling of `n` to `text`.
pub fn append_decimal(text: &mut String, n: u64)
    ensures
        final(text)@ == old(text)@ + decimal_text(n as nat),
    decreases n,
{
    if n >= 10 {
        append_decimal(text, n / 10);
    }
    text.append(digit_str(n % 10));
    proof {
        if n >= 10 {
            assert(old(text)@ + decimal_text((n / 10) as nat) + seq![digit_char((n % 10) as nat)]
                =~= old(text)@ + decimal_text((n / 10) as nat).push(digit_char((n % 10) as nat)));
        }
    }
}

} // verus!
