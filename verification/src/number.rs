//! Unsigned decimal numbers: reading and writing them.

use vstd::prelude::*;

use crate::text::chars_of;

verus! {

/// `c` is one of `0` to `9`.
pub open spec fn is_digit(c: char) -> bool {
    '0' <= c <= '9'
}

/// The value of a digit.
pub open spec fn digit_value(c: char) -> nat {
    (c as int - '0' as int) as nat
}

/// The digit for a value below ten.
pub open spec fn digit(d: nat) -> char {
    ('0' as int + d) as char
}

/// `s` consists of digits only.
pub open spec fn all_digits(s: Seq<char>) -> bool {
    forall|i: int| 0 <= i < s.len() ==> is_digit(#[trigger] s[i])
}

/// The number that a sequence of digits writes.
pub open spec fn decimal_value(s: Seq<char>) -> nat
    decreases s.len(),
{
    if s.len() == 0 {
        0
    } else {
        10 * decimal_value(s.drop_last()) + digit_value(s.last())
    }
}

/// The digits of a number, without leading zeros.
pub open spec fn decimal(n: nat) -> Seq<char>
    decreases n,
{
    if n < 10 {
        seq![digit(n)]
    } else {
        decimal(n / 10).push(digit(n % 10))
    }
}

/// `s` without the plus sign that it may begin with.
pub open spec fn without_plus(s: Seq<char>) -> Seq<char> {
    if s.len() > 0 && s[0] == '+' {
        s.skip(1)
    } else {
        s
    }
}

/// What `s` is as a 32-bit number: an optional plus sign and at least one
/// digit, nothing else, and the value in range.
pub open spec fn u32_value(s: Seq<char>) -> Option<u32> {
    let digits = without_plus(s);
    if digits.len() > 0 && all_digits(digits) && decimal_value(digits) <= u32::MAX {
        Some(decimal_value(digits) as u32)
    } else {
        None
    }
}

/// Digits in front of others do not make the number smaller.
proof fn lemma_value_of_prefix(s: Seq<char>, i: int)
    requires
        0 <= i <= s.len(),
    ensures
        decimal_value(s.take(i)) <= decimal_value(s),
    decreases s.len() - i,
{
    if i == s.len() {
        assert(s.take(i) =~= s);
    } else {
        lemma_value_of_prefix(s, i + 1);
        assert(s.take(i + 1).drop_last() =~= s.take(i));
    }
}

/// The digits of a number are digits, and their value is the number.
pub proof fn lemma_decimal(n: nat)
    ensures
        decimal(n).len() >= 1,
        all_digits(decimal(n)),
        decimal_value(decimal(n)) == n,
    decreases n,
{
    let s = decimal(n);
    if n < 10 {
        assert(s.drop_last() =~= seq![]);
        assert(decimal_value(s.drop_last()) == 0);
    } else {
        lemma_decimal(n / 10);
        assert(s.drop_last() =~= decimal(n / 10));
    }
}

/// Reading back the digits of a 32-bit number gives the number.
pub proof fn law_written_number_is_read_back(n: u32)
    ensures
        u32_value(decimal(n as nat)) == Some(n),
{
    lemma_decimal(n as nat);
    let s = decimal(n as nat);
    assert(is_digit(s[0]));
}

/// Digits in front of a digit count ten times as much as it does.
proof fn lemma_value_of_longer(s: Seq<char>, c: char)
    ensures
        decimal_value(s.push(c)) == 10 * decimal_value(s) + digit_value(c),
{
    assert(s.push(c).drop_last() =~= s);
}

/// One digit reads as its place behind `0`.
pub proof fn law_digit_is_read(c: char)
    requires
        '0' <= c <= '9',
    ensures
        u32_value(seq![c]) == Some((c as u32 - '0' as u32) as u32),
{
    let s = seq![c];
    assert(s.drop_last() =~= seq![]);
    assert(decimal_value(s.drop_last()) == 0);
    assert(without_plus(s) == s);
}

/// A digit behind a number makes it ten times as large and adds the digit; what
/// becomes too large for 32 bits is not read.
pub proof fn law_one_digit_more(s: Seq<char>, c: char)
    requires
        '0' <= c <= '9',
        u32_value(s) is Some,
    ensures
        u32_value(s.push(c)) == if 10 * u32_value(s)->0 + (c as int - 48) <= 0xffff_ffff {
            Some((10 * u32_value(s)->0 + (c as int - 48)) as u32)
        } else {
            None
        },
{
    let digits = without_plus(s);
    assert(without_plus(s.push(c)) =~= digits.push(c));
    lemma_value_of_longer(digits, c);
}

/// What is not read is not read with more behind it either, unless it is empty
/// or a plus sign.
pub proof fn law_longer_text_is_not_read(s: Seq<char>, c: char)
    requires
        u32_value(s) is None,
        s.len() > 0,
        s != seq!['+'],
    ensures
        u32_value(s.push(c)) is None,
{
    let digits = without_plus(s);
    assert(without_plus(s.push(c)) =~= digits.push(c));
    lemma_value_of_longer(digits, c);
    if digits.len() == 0 {
        assert(s =~= seq!['+']);
    }
    if all_digits(digits.push(c)) {
        assert forall|i: int| 0 <= i < digits.len() implies is_digit(#[trigger] digits[i]) by {
            assert(is_digit(digits.push(c)[i]));
        }
    }
}

/// A text that ends with anything but a digit is not read, nor is an empty one.
pub proof fn law_only_digits_are_read(s: Seq<char>, c: char)
    requires
        !('0' <= c <= '9'),
    ensures
        u32_value(s.push(c)) is None,
        u32_value(Seq::empty()) is None,
{
    let digits = without_plus(s.push(c));
    if digits.len() > 0 {
        assert(digits.last() == c);
        assert(!is_digit(digits[digits.len() - 1]));
    }
}

/// A plus sign in front does not change what is read, but a second one is not read.
pub proof fn law_plus_sign_does_not_matter(s: Seq<char>)
    ensures
        u32_value(seq!['+'] + s) == if s.len() > 0 && s[0] == '+' {
            None
        } else {
            u32_value(s)
        },
{
    assert((seq!['+'] + s).skip(1) =~= s);
    if s.len() > 0 && s[0] == '+' {
        assert(!is_digit(s[0]));
    }
}

/// A number below ten is written as one digit; another ends with its last digit,
/// behind the digits of its tenth part. So no number begins with a zero but zero.
pub proof fn law_digits_of_a_number(n: nat)
    ensures
        decimal(n).len() > 0,
        decimal(n).last() as int == 48 + n % 10,
        n < 10 ==> decimal(n).len() == 1,
        n >= 10 ==> decimal(n).drop_last() == decimal(n / 10),
        n > 0 ==> decimal(n)[0] != '0',
    decreases n,
{
    if n >= 10 {
        law_digits_of_a_number(n / 10);
        assert(decimal(n).drop_last() =~= decimal(n / 10));
        assert(decimal(n)[0] == decimal(n / 10)[0]);
    }
}

/// Whether `c` is a digit.
pub fn is_digit_char(c: char) -> (r: bool)
    ensures
        r == is_digit(c),
{
    '0' <= c && c <= '9'
}

/// Reads a 32-bit number in decimal digits, with an optional plus sign.
pub fn parse_u32(s: &str) -> (r: Option<u32>)
    ensures
        r == u32_value(s@),
{
    let v = chars_of(s);
    let n: usize = v.len();
    let start: usize = if n > 0 && v[0] == '+' { 1 } else { 0 };
    let ghost digits = without_plus(s@);
    assert(digits =~= v@.skip(start as int));
    if start == n {
        return None;
    }
    let mut value: u64 = 0;
    let mut i: usize = start;
    assert(digits.take(0) =~= seq![]);
    while i < n
        invariant
            n == v@.len(),
            start <= i <= n,
            digits == v@.skip(start as int),
            digits == without_plus(s@),
            value <= u32::MAX,
            value == decimal_value(digits.take(i - start)),
            forall|k: int| 0 <= k < i - start ==> is_digit(#[trigger] digits[k]),
        decreases n - i,
    {
        let c: char = v[i];
        assert(digits[i - start] == c);
        if !is_digit_char(c) {
            return None;
        }
        let ghost k = i - start;
        assert(digits.take(k + 1).drop_last() =~= digits.take(k));
        value = value * 10 + (c as u64 - '0' as u64);
        assert(value == decimal_value(digits.take(k + 1)));
        if value > u32::MAX as u64 {
            proof {
                lemma_value_of_prefix(digits, k + 1);
            }
            return None;
        }
        i += 1;
    }
    assert(digits.take(n - start) =~= digits);
    Some(value as u32)
}

fn digit_char(d: u64) -> (r: char)
    requires
        d < 10,
    ensures
        r == digit(d as nat),
{
    (48u8 + d as u8) as char
}

/// Writes a number in decimal digits.
pub fn decimal_string(n: u64) -> (r: String)
    ensures
        r@ == decimal(n as nat),
    decreases n,
{
    let mut s = if n < 10 {
        String::new()
    } else {
        decimal_string(n / 10)
    };
    s.push(digit_char(n % 10));
    s
}

} // verus!
