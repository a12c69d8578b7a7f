//! Decimal numerals: reading a `u64` from text and writing one back.
//!
//! A numeral is an optional `+` sign followed by one or more of the digits
//! `0` to `9`. Leading zeros are allowed; nothing else is, neither spaces
//! nor a `-` sign nor separators.

use vstd::prelude::*;
use vstd::string::*;

verus! {

/// `c` is one of the ten decimal digits.
pub open spec fn is_digit(c: char) -> bool {
    '0' <= c && c <= '9'
}

/// The number that the digit `c` stands for.
pub open spec fn digit_value(c: char) -> nat
    recommends
        is_digit(c),
{
    (c as u32 - '0' as u32) as nat
}

/// Every character of `s` is a decimal digit.
pub open spec fn all_digits(s: Seq<char>) -> bool {
    forall|i: int| 0 <= i < s.len() ==> is_digit(#[trigger] s[i])
}

/// The number that a run of digits denotes in base ten, most significant
/// digit first. The empty run denotes 0.
pub open spec fn numeral_value(s: Seq<char>) -> nat
    decreases s.len(),
{
    if s.len() == 0 {
        0
    } else {
        10 * numeral_value(s.drop_last()) + digit_value(s.last())
    }
}

/// The text without its leading `+` sign, if it has one.
pub open spec fn without_plus_sign(s: Seq<char>) -> Seq<char> {
    if s.len() > 0 && s[0] == '+' {
        s.subrange(1, s.len() as int)
    } else {
        s
    }
}

/// What a text reads as: the value of its digits where it is a numeral
/// whose value fits in 64 bits, and nothing otherwise.
pub open spec fn parse_u64_spec(s: Seq<char>) -> Option<u64> {
    let digits = without_plus_sign(s);
    if digits.len() > 0 && all_digits(digits) && numeral_value(digits) <= u64::MAX {
        Some(numeral_value(digits) as u64)
    } else {
        None
    }
}

/// Appending a digit multiplies the value by ten and adds the digit.
pub proof fn lemma_numeral_value_push(s: Seq<char>, c: char)
    ensures
        numeral_value(s.push(c)) == 10 * numeral_value(s) + digit_value(c),
{
    assert(s.push(c).drop_last() =~= s);
}

/// The value of a prefix of a run of digits is at most the value of the run.
pub proof fn lemma_numeral_value_prefix(s: Seq<char>, k: int)
    requires
        0 <= k <= s.len(),
    ensures
        numeral_value(s.take(k)) <= numeral_value(s),
    decreases s.len(),
{
    if k == s.len() {
        assert(s.take(k) =~= s);
    } else {
        lemma_numeral_value_prefix(s.drop_last(), k);
        assert(s.drop_last().take(k) =~= s.take(k));
    }
}

/// Reads a `u64` from its decimal numeral.
pub fn parse_u64(text: &str) -> (r: Option<u64>)
    ensures
        r == parse_u64_spec(text@),
{
    let ghost digits = without_plus_sign(text@);
    if !text.is_ascii() {
        proof {
            let i = choose|i: int|
                0 <= i < text@.len() && !('\0' <= #[trigger] text@[i] <= '\u{7f}');
            let j = i - (text@.len() - digits.len());
            assert(digits[j] == text@[i]);
            assert(!is_digit(digits[j]));
        }
        return None;
    }
    let bytes = text.as_bytes();
    proof {
        is_ascii_spec_bytes(text);
    }
    let len = bytes.len();
    let start: usize = if len > 0 && bytes[0] == 43 {
        1
    } else {
        0
    };
    if start == len {
        return None;
    }
    let mut value: u64 = 0;
    let mut i: usize = start;
    while i < len
        invariant
            start <= i <= len,
            len == bytes@.len(),
            len == text@.len(),
            is_ascii(text),
            bytes@ == Seq::new(text@.len(), |j: int| text@[j] as u8),
            digits == without_plus_sign(text@),
            digits.len() == len - start,
            forall|j: int| 0 <= j < digits.len() ==> digits[j] == text@[j + start],
            all_digits(digits.take(i - start)),
            value == numeral_value(digits.take(i - start)),
        decreases len - i,
    {
        let b: u8 = bytes[i];
        let ghost c = text@[i as int];
        let ghost k = i - start;
        assert(c == digits[k]);
        assert(b == c as u8);
        if b < 48 || b > 57 {
            return None;
        }
        let d: u64 = (b - 48) as u64;
        assert(d == digit_value(c));
        proof {
            assert(digits.take(k + 1) =~= digits.take(k).push(c));
            lemma_numeral_value_push(digits.take(k), c);
            lemma_numeral_value_prefix(digits, k + 1);
        }
        let tenfold = match value.checked_mul(10) {
            Some(t) => t,
            None => {
                return None;
            },
        };
        value = match tenfold.checked_add(d) {
            Some(v) => v,
            None => {
                return None;
            },
        };
        i += 1;
    }
    assert(digits.take(i - start) =~= digits);
    Some(value)
}

/// The character that writes the digit `d`.
pub open spec fn digit_char(d: nat) -> char
    recommends
        d < 10,
{
    if d == 0 {
        '0'
    } else if d == 1 {
        '1'
    } else if d == 2 {
        '2'
    } else if d == 3 {
        '3'
    } else if d == 4 {
        '4'
    } else if d == 5 {
        '5'
    } else if d == 6 {
        '6'
    } else if d == 7 {
        '7'
    } else if d == 8 {
        '8'
    } else {
        '9'
    }
}

/// The shortest decimal numeral of `n`: its digits in base ten, most
/// significant first, with no sign and no leading zero (0 is written `0`).
pub open spec fn decimal_digits(n: nat) -> Seq<char>
    decreases n,
{
    if n < 10 {
        seq![digit_char(n)]
    } else {
        decimal_digits(n / 10).push(digit_char(n % 10))
    }
}

/// Writing a digit and reading it back gives the digit.
pub proof fn lemma_digit_char_value(d: nat)
    requires
        d < 10,
    ensures
        is_digit(digit_char(d)),
        digit_value(digit_char(d)) == d,
{
}

/// The written form of a number is a non-empty run of digits that starts
/// with no sign, has no leading zero unless the number is 0, and denotes
/// the number.
pub proof fn lemma_decimal_digits_value(n: nat)
    ensures
        decimal_digits(n).len() > 0,
        all_digits(decimal_digits(n)),
        decimal_digits(n)[0] != '+',
        n > 0 ==> decimal_digits(n)[0] != '0',
        numeral_value(decimal_digits(n)) == n,
    decreases n,
{
    if n < 10 {
        lemma_digit_char_value(n);
        let s = seq![digit_char(n)];
        assert(numeral_value(s.drop_last()) == 0);
    } else {
        lemma_decimal_digits_value(n / 10);
        lemma_digit_char_value(n % 10);
        lemma_numeral_value_push(decimal_digits(n / 10), digit_char(n % 10));
    }
}

/// Reading what was written gives the number back.
pub proof fn lemma_parse_of_decimal_digits(n: u64)
    ensures
        parse_u64_spec(decimal_digits(n as nat)) == Some(n),
{
    lemma_decimal_digits_value(n as nat);
}

/// The one-character text of a digit.
fn digit_text(d: u64) -> (r: &'static str)
    requires
        d < 10,
    ensures
        r@ == seq![digit_char(d as nat)],
{
    proof {
        reveal_strlit("0");
        reveal_strlit("1");
        reveal_strlit("2");
        reveal_strlit("3");
        reveal_strlit("4");
        reveal_strlit("5");
        reveal_strlit("6");
        reveal_strlit("7");
        reveal_strlit("8");
        reveal_strlit("9");
    }
    let r = if d == 0 {
        "0"
    } else if d == 1 {
        "1"
    } else if d == 2 {
        "2"
    } else if d == 3 {
        "3"
    } else if d == 4 {
        "4"
    } else if d == 5 {
        "5"
    } else if d == 6 {
        "6"
    } else if d == 7 {
        "7"
    } else if d == 8 {
        "8"
    } else {
        "9"
    };
    r
}

/// Appends the decimal numeral of `n` to `out`.
pub fn push_decimal(out: &mut String, n: u64)
    ensures
        final(out)@ == old(out)@ + decimal_digits(n as nat),
    decreases n,
{
    if n >= 10 {
        push_decimal(out, n / 10);
    }
    out.append(digit_text(n % 10));
}

/// The decimal numeral of `n` as a string.
pub fn decimal_string(n: u64) -> (r: String)
    ensures
        r@ == decimal_digits(n as nat),
{
    let mut out = String::new();
    push_decimal(&mut out, n);
    out
}

} // verus!
