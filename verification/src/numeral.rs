//! Numbers as text: rendering in base ten and sixteen, parsing in bases up to ten.

use vstd::prelude::*;

use crate::text::{chars_of, string_of};

verus! {

/// The digit that stands for `d`, in lower case.
pub open spec fn digit_char(d: nat) -> char {
    if d < 10 {
        (0x30 + d) as char
    } else {
        (0x57 + d) as char
    }
}

/// `n` in base ten, without leading zeros.
pub open spec fn decimal(n: nat) -> Seq<char>
    decreases n,
{
    if n < 10 {
        seq![digit_char(n)]
    } else {
        decimal(n / 10).push(digit_char(n % 10))
    }
}

/// `n` in base sixteen, in lower case and without leading zeros.
pub open spec fn hexadecimal(n: nat) -> Seq<char>
    decreases n,
{
    if n < 16 {
        seq![digit_char(n)]
    } else {
        hexadecimal(n / 16).push(digit_char(n % 16))
    }
}

/// `c` is a digit of `base`, which is ten at most.
pub open spec fn is_digit(c: char, base: nat) -> bool {
    0x30 <= c as u32 && (c as u32) < 0x30 + base
}

/// Every character of `s` is a digit of `base`.
pub open spec fn all_digits(s: Seq<char>, base: nat) -> bool {
    forall|i: int| 0 <= i < s.len() ==> is_digit(#[trigger] s[i], base)
}

/// The number that the digits of `s` denote.
pub open spec fn digits_value(s: Seq<char>, base: nat) -> nat
    decreases s.len(),
{
    if s.len() == 0 {
        0
    } else {
        digits_value(s.drop_last(), base) * base + (s.last() as u32 - 0x30) as nat
    }
}

/// `s` without one leading plus sign.
pub open spec fn without_plus(s: Seq<char>) -> Seq<char> {
    if s.len() > 0 && s[0] == '+' {
        s.drop_first()
    } else {
        s
    }
}

/// The number that `s` denotes: digits of `base`, at least one of them, behind
/// an optional plus sign.
pub open spec fn parsed(s: Seq<char>, base: nat) -> Option<nat> {
    let body = without_plus(s);
    if body.len() > 0 && all_digits(body, base) {
        Some(digits_value(body, base))
    } else {
        None
    }
}

/// The number that `s` denotes in `base`, where it is `max` at most.
pub open spec fn parsed_within(s: Seq<char>, base: nat, max: nat) -> Option<nat> {
    match parsed(s, base) {
        Some(n) => if n <= max {
            Some(n)
        } else {
            None
        },
        None => None,
    }
}

proof fn lemma_prefix_value(s: Seq<char>, k: int, base: nat)
    requires
        base >= 2,
        0 <= k <= s.len(),
        all_digits(s, base),
    ensures
        digits_value(s.take(k), base) <= digits_value(s, base),
    decreases s.len() - k,
{
    if k == s.len() {
        assert(s.take(k) =~= s);
    } else {
        lemma_prefix_value(s, k + 1, base);
        assert(s.take(k + 1).drop_last() =~= s.take(k));
        let v = digits_value(s.take(k), base);
        assert(v * base >= v) by (nonlinear_arith)
            requires
                base >= 2,
                v >= 0,
        ;
        assert(is_digit(s[k], base));
    }
}

/// The number up to `max` that `s` denotes in `base`.
fn parse_within(s: &str, base: u64, max: u64) -> (r: Option<u64>)
    requires
        2 <= base <= 10,
    ensures
        match r {
            Some(n) => parsed_within(s@, base as nat, max as nat) == Some(n as nat),
            None => parsed_within(s@, base as nat, max as nat) is None,
        },
{
    let chars = chars_of(s);
    let start: usize = if chars.len() > 0 && chars[0] == '+' {
        1
    } else {
        0
    };
    let ghost body = without_plus(s@);
    assert(body =~= s@.skip(start as int));
    if start == chars.len() {
        return None;
    }
    let mut value: u64 = 0;
    let mut i: usize = start;
    while i < chars.len()
        invariant
            chars@ == s@,
            start <= i <= chars.len(),
            start < chars.len(),
            body == without_plus(s@),
            body == s@.skip(start as int),
            2 <= base <= 10,
            value <= max,
            value == digits_value(body.take(i - start), base as nat),
            forall|k: int| 0 <= k < i - start ==> is_digit(#[trigger] body[k], base as nat),
        decreases chars.len() - i,
    {
        let u: u32 = chars[i] as u32;
        let ghost k = i - start;
        assert(body[k] == chars@[i as int]);
        assert(body.take(k + 1).drop_last() =~= body.take(k));
        if u < 0x30 || u >= 0x30 + base as u32 {
            assert(!is_digit(body[k], base as nat));
            return None;
        }
        assert(value as u128 * base as u128 <= 0xffff_ffff_ffff_ffff * 10) by (nonlinear_arith)
            requires
                value <= 0xffff_ffff_ffff_ffff,
                base <= 10,
        ;
        let next: u128 = value as u128 * base as u128 + (u - 0x30) as u128;
        assert(next == digits_value(body.take(k + 1), base as nat)) by {
            assert(body.take(k + 1).last() == body[k]);
        }
        if next > max as u128 {
            proof {
                if all_digits(body, base as nat) {
                    lemma_prefix_value(body, k + 1, base as nat);
                }
            }
            return None;
        }
        value = next as u64;
        i = i + 1;
    }
    assert(body.take(i - start) =~= body);
    Some(value)
}

/// The `u64` that `s` denotes in base ten.
pub fn parse_u64(s: &str) -> (r: Option<u64>)
    ensures
        match r {
            Some(n) => parsed_within(s@, 10, u64::MAX as nat) == Some(n as nat),
            None => parsed_within(s@, 10, u64::MAX as nat) is None,
        },
{
    parse_within(s, 10, u64::MAX)
}

/// The `u32` that `s` denotes in base ten.
pub fn parse_u32(s: &str) -> (r: Option<u32>)
    ensures
        match r {
            Some(n) => parsed_within(s@, 10, u32::MAX as nat) == Some(n as nat),
            None => parsed_within(s@, 10, u32::MAX as nat) is None,
        },
{
    match parse_within(s, 10, u32::MAX as u64) {
        Some(n) => Some(n as u32),
        None => None,
    }
}

/// The `usize` that `s` denotes in base ten.
pub fn parse_usize(s: &str) -> (r: Option<usize>)
    ensures
        match r {
            Some(n) => parsed_within(s@, 10, usize::MAX as nat) == Some(n as nat),
            None => parsed_within(s@, 10, usize::MAX as nat) is None,
        },
{
    match parse_within(s, 10, usize::MAX as u64) {
        Some(n) => Some(n as usize),
        None => None,
    }
}

/// The `u16` that `s` denotes in base ten.
pub fn parse_u16(s: &str) -> (r: Option<u16>)
    ensures
        match r {
            Some(n) => parsed_within(s@, 10, u16::MAX as nat) == Some(n as nat),
            None => parsed_within(s@, 10, u16::MAX as nat) is None,
        },
{
    match parse_within(s, 10, u16::MAX as u64) {
        Some(n) => Some(n as u16),
        None => None,
    }
}

/// The `u16` that `s` denotes in base eight.
pub fn parse_octal_u16(s: &str) -> (r: Option<u16>)
    ensures
        match r {
            Some(n) => parsed_within(s@, 8, u16::MAX as nat) == Some(n as nat),
            None => parsed_within(s@, 8, u16::MAX as nat) is None,
        },
{
    match parse_within(s, 8, u16::MAX as u64) {
        Some(n) => Some(n as u16),
        None => None,
    }
}

/// The digits of `n`, least significant first, turned round into a string.
fn reversed(digits: &Vec<char>) -> (s: String)
    ensures
        s@ == digits@.reverse(),
{
    let mut turned: Vec<char> = Vec::new();
    for i in 0..digits.len()
        invariant
            turned@.len() == i,
            forall|k: int| 0 <= k < i ==> turned@[k] == digits@[digits@.len() - 1 - k],
    {
        turned.push(digits[digits.len() - 1 - i]);
    }
    let s = string_of(&turned, 0, turned.len());
    assert(s@ =~= digits@.reverse());
    s
}

/// `n` in base ten.
pub fn render_decimal(n: u64) -> (s: String)
    ensures
        s@ == decimal(n as nat),
{
    let mut digits: Vec<char> = Vec::new();
    let mut rest: u64 = n;
    while rest >= 10
        invariant
            decimal(n as nat) == decimal(rest as nat) + digits@.reverse(),
        decreases rest,
    {
        let d: u8 = (rest % 10) as u8;
        let c: char = (0x30 + d) as char;
        let ghost held = digits@;
        digits.push(c);
        assert(c == digit_char((rest % 10) as nat));
        assert(digits@.reverse() =~= seq![c] + held.reverse());
        assert(decimal(rest as nat) + held.reverse() =~= decimal((rest / 10) as nat)
            + digits@.reverse());
        rest = rest / 10;
    }
    let c: char = (0x30 + rest as u8) as char;
    let ghost held = digits@;
    digits.push(c);
    assert(digits@.reverse() =~= seq![c] + held.reverse());
    reversed(&digits)
}

/// `n` in base sixteen, in lower case.
pub fn render_hexadecimal(n: u64) -> (s: String)
    ensures
        s@ == hexadecimal(n as nat),
{
    let mut digits: Vec<char> = Vec::new();
    let mut rest: u64 = n;
    while rest >= 16
        invariant
            hexadecimal(n as nat) == hexadecimal(rest as nat) + digits@.reverse(),
        decreases rest,
    {
        let d: u8 = (rest % 16) as u8;
        let c: char = if d < 10 {
            (0x30 + d) as char
        } else {
            (0x57 + d) as char
        };
        let ghost held = digits@;
        digits.push(c);
        assert(c == digit_char((rest % 16) as nat));
        assert(digits@.reverse() =~= seq![c] + held.reverse());
        assert(hexadecimal(rest as nat) + held.reverse() =~= hexadecimal((rest / 16) as nat)
            + digits@.reverse());
        rest = rest / 16;
    }
    let d: u8 = rest as u8;
    let c: char = if d < 10 {
        (0x30 + d) as char
    } else {
        (0x57 + d) as char
    };
    let ghost held = digits@;
    digits.push(c);
    assert(digits@.reverse() =~= seq![c] + held.reverse());
    reversed(&digits)
}

/// The decimal rendering of a number is made of digits, at least one of them,
/// and denotes that number.
pub proof fn lemma_decimal_digits(n: nat)
    ensures
        decimal(n).len() > 0,
        all_digits(decimal(n), 10),
        digits_value(decimal(n), 10) == n,
    decreases n,
{
    let s = decimal(n);
    if n < 10 {
        assert(s.drop_last() =~= Seq::<char>::empty());
        assert(digits_value(s.drop_last(), 10) == 0);
    } else {
        lemma_decimal_digits(n / 10);
        assert(s.drop_last() =~= decimal(n / 10));
    }
}

/// Parsing the decimal rendering of a number gives the number back.
pub proof fn law_decimal_round_trip(n: nat, max: nat)
    requires
        n <= max,
    ensures
        parsed_within(decimal(n), 10, max) == Some(n),
{
    lemma_decimal_digits(n);
    assert(is_digit(decimal(n)[0], 10));
    assert(without_plus(decimal(n)) == decimal(n));
}

/// A text of digits denotes a number however many zeros stand before it, and with
/// a plus sign before it the same number. A text without digits, or with anything
/// else in it, denotes none.
pub proof fn law_parsed(s: Seq<char>, base: nat, i: int)
    requires
        2 <= base <= 10,
    ensures
        s.len() == 0 ==> parsed(s, base) is None,
        all_digits(s, base) && s.len() > 0 ==> parsed(seq!['0'] + s, base) == parsed(s, base)
            && parsed(seq!['+'] + s, base) == parsed(s, base) && parsed(s, base) is Some,
        parsed(seq!['+'], base) is None,
        0 < i < s.len() && !(48 <= s[i] as u32 <= 57) ==> parsed(s, base) is None,
        s.len() > 0 && !(48 <= s[0] as u32 <= 57) && s[0] != '+' ==> parsed(s, base) is None,
{
    let plus = seq!['+'] + s;
    assert(plus.drop_first() =~= s);
    assert(seq!['+'].drop_first().len() == 0);
    if all_digits(s, base) && s.len() > 0 {
        assert(is_digit(s[0], base));
        lemma_leading_zero(s, base);
        let zero = seq!['0'] + s;
        assert forall|k: int| 0 <= k < zero.len() implies is_digit(#[trigger] zero[k], base) by {
            if k > 0 {
                assert(is_digit(s[k - 1], base));
            }
        }
    }
    let body = without_plus(s);
    if 0 < i < s.len() && !(48 <= s[i] as u32 <= 57) {
        if s[0] == '+' {
            assert(body[i - 1] == s[i]);
            assert(!is_digit(body[i - 1], base));
        } else {
            assert(!is_digit(body[i], base));
        }
    }
    if s.len() > 0 && !(48 <= s[0] as u32 <= 57) && s[0] != '+' {
        assert(!is_digit(body[0], base));
    }
}

/// A zero before digits changes nothing.
proof fn lemma_leading_zero(s: Seq<char>, base: nat)
    ensures
        digits_value(seq!['0'] + s, base) == digits_value(s, base),
    decreases s.len(),
{
    let zero = seq!['0'] + s;
    if s.len() == 0 {
        assert(zero.drop_last() =~= Seq::<char>::empty());
        assert(digits_value(zero.drop_last(), base) == 0);
        assert(0 * base == 0);
    } else {
        assert(zero.drop_last() =~= seq!['0'] + s.drop_last());
        assert(zero.last() == s.last());
        lemma_leading_zero(s.drop_last(), base);
    }
}

/// Three digits in base eight denote their sum by sixty-fours, eights and ones.
pub proof fn law_octal(a: char, b: char, c: char)
    requires
        '0' <= a <= '7',
        '0' <= b <= '7',
        '0' <= c <= '7',
    ensures
        parsed(seq![a, b, c], 8) == Some(
            ((a as u32 - 48) * 64 + (b as u32 - 48) * 8 + (c as u32 - 48)) as nat,
        ),
{
    let s = seq![a, b, c];
    assert(s.drop_last() =~= seq![a, b]);
    assert(seq![a, b].drop_last() =~= seq![a]);
    assert(seq![a].drop_last() =~= Seq::<char>::empty());
    reveal_with_fuel(digits_value, 4);
    assert forall|i: int| 0 <= i < s.len() implies is_digit(#[trigger] s[i], 8) by {
    }
    assert(without_plus(s) == s);
}

/// Numbers are rendered without a zero before them, and different numbers
/// differently.
pub proof fn law_decimal(n: nat, m: nat)
    ensures
        all_digits(decimal(n), 10),
        n > 0 ==> decimal(n)[0] != '0',
        decimal(n) == decimal(m) <==> n == m,
        n < 10 ==> decimal(n) == seq![(48 + n) as char],
        decimal(10 * n + 5).last() == '5',
{
    lemma_decimal_digits(n);
    lemma_decimal_digits(m);
    lemma_first_digit(n);
}

/// The first digit is no zero.
proof fn lemma_first_digit(n: nat)
    ensures
        n > 0 ==> decimal(n)[0] != '0',
        decimal(n).len() > 0,
    decreases n,
{
    if n >= 10 {
        lemma_first_digit(n / 10);
    }
}

/// A number in base sixteen has as many digits as it needs, the last of which tells
/// its remainder, and no other number is written so.
pub proof fn law_hexadecimal(n: nat, m: nat)
    ensures
        hexadecimal(n).len() > 0,
        n < 16 <==> hexadecimal(n).len() == 1,
        forall|i: int|
            0 <= i < hexadecimal(n).len() ==> exists|d: nat|
                d < 16 && #[trigger] hexadecimal(n)[i] == #[trigger] digit_char(d),
        hexadecimal(n).last() == digit_char(n % 16),
        n >= 16 ==> hexadecimal(n).drop_last() == hexadecimal(n / 16),
        hexadecimal(n) == hexadecimal(m) ==> n == m,
    decreases n,
{
    if n >= 16 {
        law_hexadecimal(n / 16, m / 16);
        assert(hexadecimal(n).drop_last() =~= hexadecimal(n / 16));
        assert forall|i: int| 0 <= i < hexadecimal(n).len() implies exists|d: nat|
            d < 16 && #[trigger] hexadecimal(n)[i] == #[trigger] digit_char(d) by {
            if i < hexadecimal(n / 16).len() {
                assert(hexadecimal(n)[i] == hexadecimal(n / 16)[i]);
            } else {
                assert(hexadecimal(n)[i] == digit_char(n % 16));
            }
        }
    } else {
        assert(hexadecimal(n)[0] == digit_char(n));
    }
    if hexadecimal(n) == hexadecimal(m) {
        lemma_hexadecimal_len(m);
        lemma_hexadecimal_len(n);
        lemma_digit_chars(n % 16, m % 16);
        if n >= 16 {
            assert(hexadecimal(m).drop_last() =~= hexadecimal(m / 16));
            assert(hexadecimal(m).last() == digit_char(m % 16));
        } else {
            assert(hexadecimal(m)[0] == digit_char(m));
        }
    }
}

/// Only what is less than sixteen takes a single digit.
proof fn lemma_hexadecimal_len(n: nat)
    ensures
        hexadecimal(n).len() > 0,
        n < 16 <==> hexadecimal(n).len() == 1,
    decreases n,
{
    if n >= 16 {
        lemma_hexadecimal_len(n / 16);
    }
}

/// Digits that are written alike are the same.
proof fn lemma_digit_chars(a: nat, b: nat)
    requires
        a < 16,
        b < 16,
    ensures
        digit_char(a) == digit_char(b) ==> a == b,
{
}

} // verus!
