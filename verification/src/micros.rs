//! Timings as whole numbers of microseconds.
//!
//! A log gives a timing in milliseconds, as a number in the notation of
//! floating point: a sign or none, digits with or without a point, and an
//! exponent or none, as in `1915.45`, `+5`, `.5` and `1e3`. The library
//! holds a thousand times that number, rounded to the nearest whole, a half
//! upwards, so that the arithmetic on timings is that of the integers.
//! A timing below zero is none, nor are `inf` and `NaN`, and one beyond
//! what 64 bits hold cannot be kept.

use crate::text::{chars_of, find_first, first_index_of, lemma_first_index_exists};
use vstd::prelude::*;

verus! {

/// `c` is one of `0` to `9`.
pub open spec fn is_digit(c: char) -> bool {
    '0' <= c && c <= '9'
}

/// The number that the digit `c` stands for; 0 for any other character.
pub open spec fn digit_value(c: char) -> nat {
    if is_digit(c) {
        (c as int - '0' as int) as nat
    } else {
        0
    }
}

/// Every character of `s` is a digit.
pub open spec fn all_digits(s: Seq<char>) -> bool {
    forall|i: int| 0 <= i < s.len() ==> is_digit(#[trigger] s[i])
}

/// The number that the digits of `s` write in base ten; 0 for no digits.
pub open spec fn number(s: Seq<char>) -> nat
    decreases s.len(),
{
    if s.len() == 0 {
        0
    } else {
        number(s.drop_last()) * 10 + digit_value(s.last())
    }
}

/// Ten to the power of `n`.
pub open spec fn pow10(n: nat) -> nat
    decreases n,
{
    if n == 0 {
        1
    } else {
        10 * pow10((n - 1) as nat)
    }
}

/// The length of the sign with which `s` begins: 1 for `+` or `-`, else 0.
pub open spec fn sign_len(s: Seq<char>) -> int {
    if s.len() > 0 && (s[0] == '+' || s[0] == '-') {
        1
    } else {
        0
    }
}

/// `s` begins with `-`.
pub open spec fn is_negative(s: Seq<char>) -> bool {
    s.len() > 0 && s[0] == '-'
}

/// The place of the exponent's mark in `token`: where `e` or `E` first
/// stands, or the length of `token` where neither does.
pub open spec fn mark_index(token: Seq<char>) -> int {
    let small = first_index_of(token, 'e');
    let capital = first_index_of(token, 'E');
    if small <= capital {
        small
    } else {
        capital
    }
}

/// The part of `token` that writes the digits: what stands after the sign
/// and before the exponent's mark.
pub open spec fn mantissa(token: Seq<char>) -> Seq<char> {
    token.subrange(sign_len(token), mark_index(token))
}

/// The part of `token` that writes the exponent: what stands after the
/// mark; `None` where there is no mark.
pub open spec fn exponent_part(token: Seq<char>) -> Option<Seq<char>> {
    if mark_index(token) < token.len() {
        Some(token.subrange(mark_index(token) + 1, token.len() as int))
    } else {
        None
    }
}

/// The digits of `m` before its first point.
pub open spec fn whole_part(m: Seq<char>) -> Seq<char> {
    m.subrange(0, first_index_of(m, '.'))
}

/// The characters of `m` after its first point; none where it has no point.
pub open spec fn fraction_part(m: Seq<char>) -> Seq<char> {
    let dot = first_index_of(m, '.');
    if dot < m.len() {
        m.subrange(dot + 1, m.len() as int)
    } else {
        Seq::empty()
    }
}

/// `m` writes a decimal number: digits, at most one point among them, and
/// at least one digit.
pub open spec fn is_decimal(m: Seq<char>) -> bool {
    &&& all_digits(whole_part(m))
    &&& all_digits(fraction_part(m))
    &&& whole_part(m).len() + fraction_part(m).len() > 0
}

/// `x` writes an exponent: a sign or none, and at least one digit.
pub open spec fn is_exponent(x: Seq<char>) -> bool {
    x.len() > sign_len(x) && all_digits(x.skip(sign_len(x)))
}

/// The exponent that `x` writes.
pub open spec fn exponent_value(x: Seq<char>) -> int {
    if is_negative(x) {
        -(number(x.skip(sign_len(x))) as int)
    } else {
        number(x.skip(sign_len(x))) as int
    }
}

/// The exponent of `token`, 0 where it writes none.
pub open spec fn exponent_of(token: Seq<char>) -> int {
    match exponent_part(token) {
        Some(x) => exponent_value(x),
        None => 0,
    }
}

/// All digits of `token` before the exponent, with the point left out.
pub open spec fn digits_of(token: Seq<char>) -> Seq<char> {
    whole_part(mantissa(token)) + fraction_part(mantissa(token))
}

/// How many of the digits of `token` stand before the place of the
/// microseconds: those before the point, three more for the thousand, and
/// as many more or fewer as the exponent says.
pub open spec fn place_of(token: Seq<char>) -> int {
    whole_part(mantissa(token)).len() + 3 + exponent_of(token)
}

/// `token` writes a number: a sign or none, a decimal number, and an
/// exponent or none.
pub open spec fn is_number(token: Seq<char>) -> bool {
    &&& is_decimal(mantissa(token))
    &&& exponent_part(token) matches Some(x) ==> is_exponent(x)
}

/// `token` writes a timing: a number that is not below zero.
pub open spec fn is_timing(token: Seq<char>) -> bool {
    is_number(token) && (is_negative(token) ==> number(digits_of(token)) == 0)
}

/// How many of `digits` are kept where `place` of them stand before the
/// place of the units.
pub open spec fn kept_len(digits: Seq<char>, place: int) -> int {
    if place <= 0 {
        0
    } else if place >= digits.len() {
        digits.len() as int
    } else {
        place
    }
}

/// The number that `digits` write where `place` of them stand before the
/// place of the units, rounded to the nearest whole, a half upwards: the
/// digits before that place, zeros added where they end before it, and one
/// more where the next digit is 5 or above.
pub open spec fn rounded(digits: Seq<char>, place: int) -> nat {
    let pad = if place > digits.len() {
        (place - digits.len()) as nat
    } else {
        0
    };
    let up: nat = if 0 <= place < digits.len() && digit_value(digits[place]) >= 5 {
        1
    } else {
        0
    };
    number(digits.take(kept_len(digits, place))) * pow10(pad) + up
}

/// A thousand times the number that `token` writes, rounded to the nearest
/// whole, a half upwards.
pub open spec fn micros_of(token: Seq<char>) -> nat {
    rounded(digits_of(token), place_of(token))
}

/// What `parse_micros` returns for `token`: its microseconds where it writes
/// a timing and they fit in 64 bits.
pub open spec fn parsed_micros(token: Seq<char>) -> Option<u64> {
    if is_timing(token) && micros_of(token) <= u64::MAX {
        Some(micros_of(token) as u64)
    } else {
        None
    }
}

/// The mean of two timings, rounded to the nearest whole, a half upwards.
pub open spec fn mean_of(a: nat, b: nat) -> nat {
    (a + b + 1) / 2
}

/// A number is at least the number that a prefix of its digits writes.
pub proof fn lemma_number_of_prefix(s: Seq<char>, k: int)
    requires
        0 <= k <= s.len(),
    ensures
        number(s.take(k)) <= number(s),
    decreases s.len(),
{
    if k == s.len() {
        assert(s.take(k) =~= s);
    } else {
        assert(s.drop_last().take(k) =~= s.take(k));
        lemma_number_of_prefix(s.drop_last(), k);
    }
}

/// A power of ten is at least one, and a higher power is no less than a
/// lower one.
pub proof fn lemma_pow10_grows(a: nat, b: nat)
    requires
        a <= b,
    ensures
        1 <= pow10(a) <= pow10(b),
    decreases b,
{
    if b > 0 {
        if a == b {
            lemma_pow10_grows(0, (b - 1) as nat);
        } else {
            lemma_pow10_grows(a, (b - 1) as nat);
        }
    }
}

/// Ten to the power of twenty is beyond what 64 bits hold.
proof fn lemma_pow10_twenty()
    ensures
        pow10(20) == 100_000_000_000_000_000_000,
{
    reveal_with_fuel(pow10, 21);
}

/// A number of at least one, times a power of ten of twenty or above, is
/// beyond what 64 bits hold.
proof fn lemma_too_large(value: nat, pad: nat)
    requires
        value >= 1,
        pad >= 20,
    ensures
        value * pow10(pad) > u64::MAX,
{
    lemma_pow10_twenty();
    lemma_pow10_grows(20, pad);
    let p = pow10(pad);
    assert(value * p >= p) by (nonlinear_arith)
        requires
            value >= 1,
    ;
}

/// Whether `c` is a digit.
pub fn digit_of(c: char) -> (d: Option<u8>)
    ensures
        d is Some <==> is_digit(c),
        d matches Some(v) ==> v == digit_value(c) && v <= 9,
{
    if '0' <= c && c <= '9' {
        Some((c as u32 - '0' as u32) as u8)
    } else {
        None
    }
}

/// The number that the digit `c` stands for.
fn digit_number(c: char) -> (d: u8)
    requires
        is_digit(c),
    ensures
        d == digit_value(c),
        d <= 9,
{
    (c as u32 - '0' as u32) as u8
}

/// The characters of `v` from `from` up to `to`.
fn part_of(v: &Vec<char>, from: usize, to: usize) -> (part: Vec<char>)
    requires
        from <= to <= v.len(),
    ensures
        part@ == v@.subrange(from as int, to as int),
{
    let mut part: Vec<char> = Vec::new();
    let mut i: usize = from;
    while i < to
        invariant
            from <= i <= to <= v.len(),
            part@ == v@.subrange(from as int, i as int),
        decreases to - i,
    {
        part.push(v[i]);
        assert(part@ =~= v@.subrange(from as int, i + 1));
        i += 1;
    }
    assert(part@ =~= v@.subrange(from as int, to as int));
    part
}

/// Adds the characters of `v` from `from` up to `to` to `digits`, where all
/// of them are digits; tells whether they are.
fn push_digits(v: &Vec<char>, from: usize, to: usize, digits: &mut Vec<char>) -> (ok: bool)
    requires
        from <= to <= v.len(),
    ensures
        ok == all_digits(v@.subrange(from as int, to as int)),
        ok ==> final(digits)@ == old(digits)@ + v@.subrange(from as int, to as int),
{
    let ghost before = digits@;
    let ghost part = v@.subrange(from as int, to as int);
    let mut i: usize = from;
    while i < to
        invariant
            from <= i <= to <= v.len(),
            part == v@.subrange(from as int, to as int),
            all_digits(v@.subrange(from as int, i as int)),
            digits@ == before + v@.subrange(from as int, i as int),
        decreases to - i,
    {
        if digit_of(v[i]).is_none() {
            assert(!is_digit(part[i - from]));
            return false;
        }
        digits.push(v[i]);
        assert(digits@ =~= before + v@.subrange(from as int, i + 1));
        assert forall|j: int| 0 <= j < i + 1 - from implies is_digit(
            #[trigger] v@.subrange(from as int, i + 1)[j],
        ) by {
            if j < i - from {
                assert(v@.subrange(from as int, i as int)[j] == v@[from + j]);
            }
        }
        i += 1;
    }
    true
}

/// The digits of the decimal number `m`, with the point left out, and how
/// many of them stand before the point; `None` where `m` is no decimal
/// number.
fn decimal_digits(m: &Vec<char>) -> (r: Option<(Vec<char>, usize)>)
    ensures
        r is Some <==> is_decimal(m@),
        r matches Some((digits, whole)) ==> digits@ == whole_part(m@) + fraction_part(m@) && whole
            == whole_part(m@).len(),
{
    let n = m.len();
    let dot = find_first(m, '.');
    let mut digits: Vec<char> = Vec::new();
    if !push_digits(m, 0, dot, &mut digits) {
        return None;
    }
    let start: usize = if dot < n {
        dot + 1
    } else {
        n
    };
    assert(fraction_part(m@) =~= m@.subrange(start as int, n as int));
    if !push_digits(m, start, n, &mut digits) {
        return None;
    }
    if digits.len() == 0 {
        return None;
    }
    Some((digits, dot))
}

/// The largest size of an exponent that is told from larger ones.
pub const EXPONENT_CAP: u128 = 0x10_0000_0000_0000_0000_0000_0000;

/// The exponent that `x` writes: whether it is below zero, and its size,
/// where a size of `EXPONENT_CAP` stands for that and every larger one.
/// `None` where `x` writes no exponent.
fn read_exponent(x: &Vec<char>) -> (r: Option<(bool, u128)>)
    ensures
        r is Some <==> is_exponent(x@),
        r matches Some((negative, size)) ==> {
            let written = number(x@.skip(sign_len(x@)));
            &&& negative == is_negative(x@)
            &&& size <= EXPONENT_CAP
            &&& size < EXPONENT_CAP ==> written == size
            &&& size == EXPONENT_CAP ==> written >= EXPONENT_CAP
        },
{
    let n = x.len();
    let start: usize = if n > 0 && (x[0] == '+' || x[0] == '-') {
        1
    } else {
        0
    };
    let negative = n > 0 && x[0] == '-';
    if start == n {
        return None;
    }
    let ghost d = x@.skip(start as int);
    let mut size: u128 = 0;
    let mut i: usize = start;
    while i < n
        invariant
            start <= i <= n,
            start < n,
            n == x.len(),
            start == sign_len(x@),
            d == x@.skip(start as int),
            all_digits(d.take(i - start)),
            size <= EXPONENT_CAP,
            size < EXPONENT_CAP ==> number(d.take(i - start)) == size,
            size == EXPONENT_CAP ==> number(d.take(i - start)) >= EXPONENT_CAP,
        decreases n - i,
    {
        let digit = match digit_of(x[i]) {
            Some(digit) => digit,
            None => {
                assert(!is_digit(d[i - start]));
                return None;
            },
        };
        proof {
            assert(d.take(i - start + 1).drop_last() =~= d.take(i - start));
            assert(d.take(i - start + 1).last() == x@[i as int]);
        }
        if size < EXPONENT_CAP {
            let next = size * 10 + digit as u128;
            size = if next < EXPONENT_CAP {
                next
            } else {
                EXPONENT_CAP
            };
        }
        i += 1;
    }
    assert(d.take(n - start) =~= d);
    Some((negative, size))
}

/// The number that the first `k` of `digits` write; `None` where it is
/// beyond what 64 bits hold.
fn number_of(digits: &Vec<char>, k: usize) -> (r: Option<u64>)
    requires
        k <= digits.len(),
        all_digits(digits@),
    ensures
        r is Some <==> number(digits@.take(k as int)) <= u64::MAX,
        r matches Some(value) ==> value == number(digits@.take(k as int)),
{
    let mut value: u64 = 0;
    let mut i: usize = 0;
    while i < k
        invariant
            0 <= i <= k <= digits.len(),
            all_digits(digits@),
            value == number(digits@.take(i as int)),
        decreases k - i,
    {
        let digit = digit_number(digits[i]);
        proof {
            assert(digits@.take(i + 1).drop_last() =~= digits@.take(i as int));
            assert(digits@.take(i + 1).last() == digits@[i as int]);
        }
        if value > (u64::MAX - digit as u64) / 10 {
            proof {
                assert(digits@.take(k as int).take(i + 1) =~= digits@.take(i + 1));
                lemma_number_of_prefix(digits@.take(k as int), i + 1);
            }
            return None;
        }
        value = value * 10 + digit as u64;
        i += 1;
    }
    Some(value)
}

/// `value` times ten to the power of `pad`; `None` where it is beyond what
/// 64 bits hold.
fn times_pow10(value: u64, pad: u128) -> (r: Option<u64>)
    ensures
        r is Some <==> value * pow10(pad as nat) <= u64::MAX,
        r matches Some(scaled) ==> scaled == value * pow10(pad as nat),
{
    if value == 0 {
        assert(0 * pow10(pad as nat) == 0) by (nonlinear_arith);
        return Some(0);
    }
    if pad >= 20 {
        proof {
            lemma_too_large(value as nat, pad as nat);
        }
        return None;
    }
    let mut scaled: u64 = value;
    let mut j: u128 = 0;
    assert(value * pow10(0) == value) by (nonlinear_arith)
        requires
            pow10(0) == 1,
    ;
    while j < pad
        invariant
            0 <= j <= pad < 20,
            value >= 1,
            scaled == value * pow10(j as nat),
        decreases pad - j,
    {
        proof {
            let now = pow10(j as nat);
            let next = pow10((j + 1) as nat);
            let last = pow10(pad as nat);
            lemma_pow10_grows((j + 1) as nat, pad as nat);
            assert(value * next == (value * now) * 10) by (nonlinear_arith)
                requires
                    next == 10 * now,
            ;
            assert(value * next <= value * last) by (nonlinear_arith)
                requires
                    next <= last,
            ;
        }
        if scaled > u64::MAX / 10 {
            return None;
        }
        scaled = scaled * 10;
        j += 1;
    }
    Some(scaled)
}

/// Where the exponent's mark stands in `v`.
fn find_mark(v: &Vec<char>) -> (mark: usize)
    ensures
        mark == mark_index(v@),
        mark <= v.len(),
        sign_len(v@) <= mark,
{
    let small = find_first(v, 'e');
    let capital = find_first(v, 'E');
    proof {
        lemma_first_index_exists(v@, 'e');
        lemma_first_index_exists(v@, 'E');
    }
    if small <= capital {
        small
    } else {
        capital
    }
}

/// `exponent` is the exponent that `below` and `size` stand for: `size`
/// itself, below zero or not, or any exponent of at least the size of
/// `EXPONENT_CAP` where `size` is that.
pub open spec fn stands_for(below: bool, size: u128, exponent: int) -> bool {
    &&& size <= EXPONENT_CAP
    &&& size < EXPONENT_CAP ==> exponent == (if below {
        -(size as int)
    } else {
        size as int
    })
    &&& size == EXPONENT_CAP ==> (if below {
        exponent <= -(EXPONENT_CAP as int)
    } else {
        exponent >= EXPONENT_CAP as int
    })
}

/// Where the place of the units lies before the first digit, the number
/// rounds to zero.
proof fn lemma_rounded_before(digits: Seq<char>, place: int)
    requires
        place < 0,
    ensures
        rounded(digits, place) == 0,
{
    assert(digits.take(0) =~= Seq::<char>::empty());
    assert(kept_len(digits, place) == 0);
    let kept = number(digits.take(0));
    let one = pow10(0);
    assert(kept == 0);
    assert(kept * one == 0) by (nonlinear_arith)
        requires
            kept == 0,
    ;
}

/// Where the place of the units lies among the digits or at their end, the
/// number is that of the digits before it, and one more where the next
/// digit is 5 or above.
proof fn lemma_rounded_within(digits: Seq<char>, place: int)
    requires
        0 <= place <= digits.len(),
    ensures
        rounded(digits, place) == number(digits.take(place)) + (if place < digits.len()
            && digit_value(digits[place]) >= 5 {
            1nat
        } else {
            0nat
        }),
{
    assert(pow10(0) == 1);
    assert(digits.take(digits.len() as int) =~= digits);
    assert(kept_len(digits, place) == place);
    let kept = number(digits.take(place));
    assert(kept * 1 == kept) by (nonlinear_arith);
}

/// Where the place of the units lies at the end of the digits or after it,
/// the number is that of all digits with zeros added.
proof fn lemma_rounded_after(digits: Seq<char>, place: int)
    requires
        place >= digits.len(),
    ensures
        rounded(digits, place) == number(digits) * pow10((place - digits.len()) as nat),
{
    assert(digits.take(digits.len() as int) =~= digits);
    if place == digits.len() {
        lemma_rounded_within(digits, place);
        assert(pow10(0) == 1);
        let written = number(digits);
        assert(written * 1 == written) by (nonlinear_arith);
    }
}

/// The number that `digits` write where `at` of them stand before the place
/// of the units, rounded to the nearest whole; `None` where it is beyond
/// what 64 bits hold.
fn round_at(digits: &Vec<char>, at: usize) -> (r: Option<u64>)
    requires
        all_digits(digits@),
        at <= digits.len(),
    ensures
        r is Some <==> rounded(digits@, at as int) <= u64::MAX,
        r matches Some(value) ==> value == rounded(digits@, at as int),
{
    proof {
        lemma_rounded_within(digits@, at as int);
    }
    let value = match number_of(digits, at) {
        Some(value) => value,
        None => return None,
    };
    if at < digits.len() {
        if digit_number(digits[at]) >= 5 {
            if value == u64::MAX {
                return None;
            }
            return Some(value + 1);
        }
    }
    Some(value)
}

/// The number that all of `digits` write with `pad` zeros added; `None`
/// where it is beyond what 64 bits hold. A `pad` of twenty or more may stand
/// for any number of zeros of twenty or more.
fn pad_out(digits: &Vec<char>, pad: u128, Ghost(zeros): Ghost<nat>) -> (r: Option<u64>)
    requires
        all_digits(digits@),
        zeros == pad || (zeros >= 20 && pad >= 20),
    ensures
        r is Some <==> number(digits@) * pow10(zeros) <= u64::MAX,
        r matches Some(value) ==> value == number(digits@) * pow10(zeros),
{
    assert(digits@.take(digits.len() as int) =~= digits@);
    let value = match number_of(digits, digits.len()) {
        Some(value) => value,
        None => {
            proof {
                lemma_pow10_grows(0, zeros);
                let p = pow10(zeros);
                let written = number(digits@);
                assert(written * p >= written) by (nonlinear_arith)
                    requires
                        p >= 1,
                ;
            }
            return None;
        },
    };
    proof {
        if zeros != pad {
            if value == 0 {
                assert(0 * pow10(zeros) == 0) by (nonlinear_arith);
                assert(0 * pow10(pad as nat) == 0) by (nonlinear_arith);
            } else {
                lemma_too_large(value as nat, zeros);
                lemma_too_large(value as nat, pad as nat);
            }
        }
    }
    times_pow10(value, pad)
}

/// The number that `digits` write, rounded to the nearest whole, where
/// `whole` of them stand before the point, three more places are taken for
/// the thousand, and the exponent is what `below` and `size` stand for.
fn scaled(
    digits: &Vec<char>,
    whole: usize,
    below: bool,
    size: u128,
    Ghost(exponent): Ghost<int>,
) -> (r: Option<u64>)
    requires
        all_digits(digits@),
        whole <= digits.len(),
        stands_for(below, size, exponent),
    ensures
        r is Some <==> rounded(digits@, whole + 3 + exponent) <= u64::MAX,
        r matches Some(value) ==> value == rounded(digits@, whole + 3 + exponent),
{
    let len = digits.len();
    let ghost place = whole + 3 + exponent;
    let before: u128 = whole as u128 + 3;
    if below {
        if size > before {
            proof {
                lemma_rounded_before(digits@, place);
            }
            return Some(0);
        }
        let at: u128 = before - size;
        if at <= len as u128 {
            return round_at(digits, at as usize);
        }
        proof {
            lemma_rounded_after(digits@, place);
        }
        return pad_out(digits, at - len as u128, Ghost((place - len) as nat));
    }
    let at: u128 = before + size;
    if at < len as u128 {
        return round_at(digits, at as usize);
    }
    proof {
        lemma_rounded_after(digits@, place);
    }
    pad_out(digits, at - len as u128, Ghost((place - len) as nat))
}

/// What `v` writes where it writes a number: its digits with the point left
/// out, how many of them stand before the point, and its exponent, as
/// whether it is below zero and its size. `None` where `v` writes no number.
fn read_number(v: &Vec<char>) -> (r: Option<(Vec<char>, usize, bool, u128)>)
    ensures
        r is Some <==> is_number(v@),
        r matches Some((digits, whole, below, size)) ==> {
            &&& digits@ == digits_of(v@)
            &&& all_digits(digits@)
            &&& whole == whole_part(mantissa(v@)).len()
            &&& whole <= digits.len()
            &&& stands_for(below, size, exponent_of(v@))
        },
{
    let n = v.len();
    let start: usize = if n > 0 && (v[0] == '+' || v[0] == '-') {
        1
    } else {
        0
    };
    let mark = find_mark(v);
    let m = part_of(v, start, mark);
    let (digits, whole) = match decimal_digits(&m) {
        Some(found) => found,
        None => return None,
    };
    proof {
        let w = whole_part(m@);
        let f = fraction_part(m@);
        assert forall|i: int| 0 <= i < (w + f).len() implies is_digit(#[trigger] (w + f)[i]) by {
            if i < w.len() {
                assert((w + f)[i] == w[i]);
            } else {
                assert((w + f)[i] == f[i - w.len()]);
            }
        }
    }
    if mark < n {
        let x = part_of(v, mark + 1, n);
        match read_exponent(&x) {
            Some((below, size)) => Some((digits, whole, below, size)),
            None => None,
        }
    } else {
        Some((digits, whole, false, 0))
    }
}

/// Reads a timing in milliseconds and gives it in microseconds, rounded to
/// the nearest one. `None` where `token` writes no number, or one below
/// zero, or one whose microseconds do not fit in 64 bits.
pub fn parse_micros(token: &str) -> (r: Option<u64>)
    ensures
        r == parsed_micros(token@),
{
    let v = chars_of(token);
    let (digits, whole, below, size) = match read_number(&v) {
        Some(read) => read,
        None => return None,
    };
    if v.len() > 0 && v[0] == '-' {
        assert(digits@.take(digits.len() as int) =~= digits@);
        match number_of(&digits, digits.len()) {
            Some(0) => {},
            _ => return None,
        }
    }
    scaled(&digits, whole, below, size, Ghost(exponent_of(token@)))
}

/// The mean of two timings, rounded to the nearest whole, a half upwards.
pub fn mean(a: u64, b: u64) -> (m: u64)
    ensures
        m == mean_of(a as nat, b as nat),
{
    a / 2 + b / 2 + (a % 2 + b % 2 + 1) / 2
}

} // verus!
