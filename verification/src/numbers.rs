//! Numbers as text: decimal and hexadecimal.
use vstd::prelude::*;

use crate::text::chars_of;

verus! {

/// The decimal digit for a number below ten.
pub open spec fn digit_char(digit: int) -> char {
    (48 + digit) as char
}

/// A number in decimal notation.
pub open spec fn decimal(number: nat) -> Seq<char>
    decreases number,
{
    if number < 10 {
        seq![digit_char(number as int)]
    } else {
        decimal(number / 10).push(digit_char((number % 10) as int))
    }
}

/// Whether a character is a decimal digit of ASCII.
pub open spec fn is_digit(c: char) -> bool {
    '0' <= c <= '9'
}

/// The number that a sequence of decimal digits denotes.
pub open spec fn digits_value(digits: Seq<char>) -> nat
    decreases digits.len(),
{
    if digits.len() == 0 {
        0
    } else {
        digits_value(digits.drop_last()) * 10 + ((digits.last() as int) - 48) as nat
    }
}

/// Whether a text is a nonempty sequence of decimal digits.
pub open spec fn all_digits(digits: Seq<char>) -> bool {
    &&& digits.len() > 0
    &&& forall|i: int| 0 <= i < digits.len() ==> is_digit(#[trigger] digits[i])
}

/// A text without the plus sign it may start with.
pub open spec fn unsigned_part(text: Seq<char>) -> Seq<char> {
    if text.len() > 0 && text[0] == '+' {
        text.skip(1)
    } else {
        text
    }
}

/// The number that a text denotes in decimal notation, where it denotes one and
/// the number fits into 64 bits. One plus sign may stand before the digits.
pub open spec fn decimal_value(text: Seq<char>) -> Option<u64> {
    let digits = unsigned_part(text);
    if all_digits(digits) && digits_value(digits) <= u64::MAX {
        Some(digits_value(digits) as u64)
    } else {
        None
    }
}

fn digit_of(digit: u64) -> (c: char)
    requires
        digit < 10,
    ensures
        c == digit_char(digit as int),
        is_digit(c),
{
    if digit == 0 {
        '0'
    } else if digit == 1 {
        '1'
    } else if digit == 2 {
        '2'
    } else if digit == 3 {
        '3'
    } else if digit == 4 {
        '4'
    } else if digit == 5 {
        '5'
    } else if digit == 6 {
        '6'
    } else if digit == 7 {
        '7'
    } else if digit == 8 {
        '8'
    } else {
        '9'
    }
}

/// Writes a number in decimal notation.
pub fn decimal_text(number: u64) -> (text: String)
    ensures
        text@ == decimal(number as nat),
    decreases number,
{
    if number < 10 {
        let mut text = String::new();
        text.push(digit_of(number));
        assert(text@ =~= decimal(number as nat));
        text
    } else {
        let mut text = decimal_text(number / 10);
        text.push(digit_of(number % 10));
        text
    }
}

proof fn lemma_digits_value_prefix(digits: Seq<char>, n: int)
    requires
        0 <= n <= digits.len(),
        all_digits(digits),
    ensures
        digits_value(digits.take(n)) <= digits_value(digits),
    decreases digits.len() - n,
{
    if n < digits.len() {
        assert(digits.take(n + 1).drop_last() =~= digits.take(n));
        lemma_digits_value_prefix(digits, n + 1);
        assert(is_digit(digits[n]));
    } else {
        assert(digits.take(n) =~= digits);
    }
}

/// Reads a number in decimal notation.
pub fn parse_decimal(text: &str) -> (number: Option<u64>)
    ensures
        number == decimal_value(text@),
{
    let chars = chars_of(text);
    let size: usize = chars.len();
    let start: usize = if size > 0 && chars[0] == '+' {
        1
    } else {
        0
    };
    let ghost digits = unsigned_part(text@);
    assert(digits =~= chars@.skip(start as int));
    if start == size {
        return None;
    }
    let mut i: usize = start;
    while i < size
        invariant
            start <= i <= size,
            size == chars@.len(),
            digits == unsigned_part(text@),
            digits == chars@.skip(start as int),
            forall|j: int| 0 <= j < i - start ==> is_digit(#[trigger] digits[j]),
        decreases size - i,
    {
        let c = chars[i];
        if !('0' <= c && c <= '9') {
            assert(!is_digit(digits[i - start]));
            return None;
        }
        i += 1;
    }
    assert(all_digits(digits));
    let mut value: u64 = 0;
    let mut k: usize = start;
    assert(digits.take(0) =~= Seq::empty());
    while k < size
        invariant
            start <= k <= size,
            size == chars@.len(),
            digits == unsigned_part(text@),
            digits == chars@.skip(start as int),
            all_digits(digits),
            value == digits_value(digits.take(k - start)),
        decreases size - k,
    {
        let c = chars[k];
        proof {
            assert(is_digit(digits[k - start]));
            assert(digits.take(k - start + 1).drop_last() =~= digits.take(k - start));
            lemma_digits_value_prefix(digits, k - start + 1);
        }
        let digit: u64 = (c as u32 - 48) as u64;
        match value.checked_mul(10) {
            Some(tens) => match tens.checked_add(digit) {
                Some(next) => {
                    value = next;
                },
                None => {
                    return None;
                },
            },
            None => {
                return None;
            },
        }
        k += 1;
    }
    assert(digits.take(size - start) =~= digits);
    Some(value)
}

/// The decimal notation of a number consists of digits and denotes the number.
pub proof fn lemma_decimal_digits(number: nat)
    ensures
        all_digits(decimal(number)),
        digits_value(decimal(number)) == number,
    decreases number,
{
    if number < 10 {
        let text = decimal(number);
        assert(text.drop_last() =~= Seq::empty());
        assert(digits_value(text.drop_last()) == 0);
    } else {
        lemma_decimal_digits(number / 10);
        let text = decimal(number);
        assert(text.drop_last() =~= decimal(number / 10));
    }
}

/// Reading the decimal notation of a number gives the number back.
pub proof fn law_decimal_round_trip(number: u64)
    ensures
        decimal_value(decimal(number as nat)) == Some(number),
{
    lemma_decimal_digits(number as nat);
    assert(is_digit(decimal(number as nat)[0]));
}

/// The hexadecimal digit, in lower case, for a number below sixteen.
pub open spec fn hex_char(digit: int) -> char {
    if digit < 10 {
        (48 + digit) as char
    } else {
        (87 + digit) as char
    }
}

/// Bytes in hexadecimal notation, two digits in lower case for each.
pub open spec fn lower_hex(bytes: Seq<u8>) -> Seq<char>
    decreases bytes.len(),
{
    if bytes.len() == 0 {
        Seq::empty()
    } else {
        lower_hex(bytes.drop_last()).push(hex_char(bytes.last() as int / 16)).push(
            hex_char(bytes.last() as int % 16),
        )
    }
}

fn hex_digit_of(digit: u8) -> (c: char)
    requires
        digit < 16,
    ensures
        c == hex_char(digit as int),
{
    if digit < 10 {
        digit_of(digit as u64)
    } else if digit == 10 {
        'a'
    } else if digit == 11 {
        'b'
    } else if digit == 12 {
        'c'
    } else if digit == 13 {
        'd'
    } else if digit == 14 {
        'e'
    } else {
        'f'
    }
}

/// Writes bytes in hexadecimal notation.
pub fn lower_hex_text(bytes: &Vec<u8>) -> (text: String)
    ensures
        text@ == lower_hex(bytes@),
{
    let mut text = String::new();
    let mut i: usize = 0;
    assert(bytes@.take(0) =~= Seq::empty());
    while i < bytes.len()
        invariant
            i <= bytes@.len(),
            text@ == lower_hex(bytes@.take(i as int)),
        decreases bytes@.len() - i,
    {
        let byte = bytes[i];
        text.push(hex_digit_of(byte / 16));
        text.push(hex_digit_of(byte % 16));
        assert(bytes@.take(i + 1).drop_last() =~= bytes@.take(i as int));
        i += 1;
    }
    assert(bytes@.take(i as int) =~= bytes@);
    text
}

/// Bytes with the same hexadecimal notation are the same bytes.
pub proof fn lemma_lower_hex_injective(left: Seq<u8>, right: Seq<u8>)
    requires
        lower_hex(left) == lower_hex(right),
    ensures
        left == right,
    decreases left.len(),
{
    lemma_lower_hex_len(left);
    lemma_lower_hex_len(right);
    if left.len() == 0 {
        assert(left =~= right);
    } else {
        let a = left.last();
        let b = right.last();
        let text = lower_hex(left);
        let n = text.len() as int;
        assert(text[n - 1] == hex_char(a as int % 16));
        assert(text[n - 1] == hex_char(b as int % 16));
        assert(text[n - 2] == hex_char(a as int / 16));
        assert(text[n - 2] == hex_char(b as int / 16));
        assert(a == b);
        assert(lower_hex(left.drop_last()) =~= text.take(n - 2));
        assert(lower_hex(right.drop_last()) =~= text.take(n - 2));
        lemma_lower_hex_injective(left.drop_last(), right.drop_last());
        assert(left =~= left.drop_last().push(a));
        assert(right =~= right.drop_last().push(b));
    }
}

proof fn lemma_lower_hex_len(bytes: Seq<u8>)
    ensures
        lower_hex(bytes).len() == 2 * bytes.len(),
    decreases bytes.len(),
{
    if bytes.len() > 0 {
        lemma_lower_hex_len(bytes.drop_last());
    }
}

/// A number is written with the digit for its remainder by ten last, and before it
/// the number without that digit, where there is any.
pub proof fn law_decimal(number: nat, digit: nat)
    requires
        digit < 10,
    ensures
        decimal(digit) == seq!["0123456789"@[digit as int]],
        number > 0 ==> decimal(10 * number + digit) == decimal(number).push(
            "0123456789"@[digit as int],
        ),
{
    reveal_strlit("0123456789");
    assert((10 * number + digit) / 10 == number);
    assert((10 * number + digit) % 10 == digit);
}

/// A text with anything but digits in it, other than a plus sign at its start,
/// denotes no number, nor does a text without a digit.
pub proof fn law_only_digits_are_read(text: Seq<char>, i: int)
    requires
        0 <= i < text.len(),
        !"0123456789"@.contains(text[i]),
        i == 0 ==> text[0] != '+' || text.len() == 1,
    ensures
        decimal_value(text) is None,
        decimal_value(Seq::empty()) is None,
{
    reveal_strlit("0123456789");
    let digits = unsigned_part(text);
    let all = "0123456789"@;
    if is_digit(text[i]) {
        assert(all[text[i] as int - 48] == text[i]);
    }
    if all_digits(digits) {
        if text[0] == '+' {
            assert(digits[i - 1] == text[i]);
        } else {
            assert(is_digit(digits[i]));
        }
    }
}

/// One more digit makes ten times the number and the digit; a plus sign before the
/// digits changes nothing. A number that does not fit into 64 bits is not read.
pub proof fn law_decimal_value(digits: Seq<char>, digit: nat)
    requires
        digit < 10,
        digits.len() > 0,
        forall|i: int| 0 <= i < digits.len() ==> "0123456789"@.contains(#[trigger] digits[i]),
    ensures
        decimal_value(seq!["0123456789"@[digit as int]]) == Some(digit as u64),
        decimal_value(digits.push("0123456789"@[digit as int])) == match decimal_value(digits) {
            Some(number) => if 10 * number + digit <= u64::MAX {
                Some((10 * number + digit) as u64)
            } else {
                None
            },
            None => None,
        },
        decimal_value(seq!['+'] + digits) == decimal_value(digits),
{
    reveal_strlit("0123456789");
    let all = "0123456789"@;
    let last = all[digit as int];
    assert(last as int == 48 + digit);
    assert forall|i: int| 0 <= i < digits.len() implies is_digit(#[trigger] digits[i]) by {
        assert(all.contains(digits[i]));
    }
    assert(is_digit(digits[0]));
    let one = seq![last];
    assert(one.drop_last() =~= Seq::empty());
    assert(digits_value(one) == digit) by {
        assert(digits_value(one.drop_last()) == 0);
    }
    assert(all_digits(one));
    let more = digits.push(last);
    assert(more.drop_last() =~= digits);
    assert(more[0] == digits[0]);
    assert(all_digits(more));
    assert(digits_value(more) == digits_value(digits) * 10 + digit);
    let signed = seq!['+'] + digits;
    assert(signed.skip(1) =~= digits);
}

/// Bytes are written with two digits each: first that for the sixteens, then that
/// for the rest.
pub proof fn law_lower_hex(bytes: Seq<u8>, i: int)
    requires
        0 <= i < bytes.len(),
    ensures
        lower_hex(bytes).len() == 2 * bytes.len(),
        lower_hex(bytes)[2 * i] == "0123456789abcdef"@[bytes[i] as int / 16],
        lower_hex(bytes)[2 * i + 1] == "0123456789abcdef"@[bytes[i] as int % 16],
    decreases bytes.len(),
{
    reveal_strlit("0123456789abcdef");
    lemma_lower_hex_len(bytes);
    lemma_lower_hex_len(bytes.drop_last());
    if i < bytes.len() - 1 {
        law_lower_hex(bytes.drop_last(), i);
        let before = lower_hex(bytes.drop_last());
        assert(lower_hex(bytes)[2 * i] == before[2 * i]);
        assert(lower_hex(bytes)[2 * i + 1] == before[2 * i + 1]);
    }
}

} // verus!
