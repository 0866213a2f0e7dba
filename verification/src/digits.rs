//! Decimal arithmetic on text: powers of ten, zero-padded rendering of
//! unsigned values, and parsing of unsigned decimal numerals.
use vstd::prelude::*;

verus! {

use crate::strutil::push_char;

/// 10^e.
pub open spec fn pow10(e: nat) -> nat
    decreases e,
{
    if e == 0 {
        1
    } else {
        10 * pow10((e - 1) as nat)
    }
}

pub open spec fn is_dec_digit(c: char) -> bool {
    48 <= c as u32 <= 57
}

/// Numeric value of a decimal digit character.
pub open spec fn digit_val(c: char) -> nat
    recommends
        is_dec_digit(c),
{
    (c as u32 - 48) as nat
}

/// The character for a decimal digit.
pub open spec fn digit_char(d: nat) -> char
    recommends
        d < 10,
{
    ((48 + d) as u8) as char
}

/// The value `v` written in exactly `w` decimal digits (leading zeros kept,
/// high digits lost if `v >= 10^w`).
pub open spec fn dec_digits(v: nat, w: nat) -> Seq<char>
    decreases w,
{
    if w == 0 {
        Seq::empty()
    } else {
        dec_digits(v / 10, (w - 1) as nat).push(digit_char(v % 10))
    }
}

/// How many digits the shortest decimal form of `v` has.
pub open spec fn min_width(v: nat) -> nat
    decreases v,
{
    if v < 10 {
        1
    } else {
        1 + min_width(v / 10)
    }
}

/// The shortest decimal form of `v`.
pub open spec fn dec_str(v: nat) -> Seq<char> {
    dec_digits(v, min_width(v))
}

/// The value of a sequence of decimal digit characters.
pub open spec fn dec_value(s: Seq<char>) -> nat
    decreases s.len(),
{
    if s.len() == 0 {
        0
    } else {
        dec_value(s.drop_last()) * 10 + digit_val(s.last())
    }
}

pub open spec fn all_dec_digits(s: Seq<char>) -> bool {
    forall|i: int| 0 <= i < s.len() ==> is_dec_digit(#[trigger] s[i])
}

/// A non-empty digit string whose value fits in a u64.
pub open spec fn is_u64_numeral(s: Seq<char>) -> bool {
    s.len() > 0 && all_dec_digits(s) && dec_value(s) <= u64::MAX
}

/// A non-empty digit string whose value fits in a u8.
pub open spec fn is_u8_numeral(s: Seq<char>) -> bool {
    s.len() > 0 && all_dec_digits(s) && dec_value(s) <= u8::MAX
}

pub proof fn lemma_pow10_monotone(e1: nat, e2: nat)
    requires
        e1 <= e2,
    ensures
        pow10(e1) <= pow10(e2),
    decreases e2,
{
    if e1 < e2 {
        lemma_pow10_monotone(e1, (e2 - 1) as nat);
        assert(pow10(e2) == 10 * pow10((e2 - 1) as nat));
    }
}

pub proof fn lemma_pow10_positive(e: nat)
    ensures
        pow10(e) >= 1,
    decreases e,
{
    if e > 0 {
        lemma_pow10_positive((e - 1) as nat);
    }
}

pub proof fn lemma_dec_digits_len(v: nat, w: nat)
    ensures
        dec_digits(v, w).len() == w,
    decreases w,
{
    if w > 0 {
        lemma_dec_digits_len(v / 10, (w - 1) as nat);
    }
}

pub proof fn lemma_dec_digits_all_digits(v: nat, w: nat)
    ensures
        all_dec_digits(dec_digits(v, w)),
    decreases w,
{
    if w > 0 {
        lemma_dec_digits_all_digits(v / 10, (w - 1) as nat);
        let s = dec_digits(v / 10, (w - 1) as nat);
        let whole = dec_digits(v, w);
        assert(is_dec_digit(digit_char(v % 10)));
        assert forall|i: int| 0 <= i < whole.len() implies is_dec_digit(whole[i]) by {
            if i < s.len() {
                assert(whole[i] == s[i]);
            }
        }
    }
}

/// Reading back the padded digits of `v` gives `v`, provided `v` fits the width.
pub proof fn lemma_dec_digits_value(v: nat, w: nat)
    requires
        v < pow10(w),
    ensures
        dec_value(dec_digits(v, w)) == v,
    decreases w,
{
    if w == 0 {
        assert(v == 0);
    } else {
        assert(pow10(w) == 10 * pow10((w - 1) as nat));
        assert(v / 10 < pow10((w - 1) as nat)) by {
            lemma_pow10_positive((w - 1) as nat);
        }
        lemma_dec_digits_value(v / 10, (w - 1) as nat);
        let s = dec_digits(v / 10, (w - 1) as nat);
        let whole = dec_digits(v, w);
        assert(whole.drop_last() == s);
        assert(digit_val(digit_char(v % 10)) == v % 10);
        assert(dec_value(whole) == (v / 10) * 10 + v % 10);
        assert((v / 10) * 10 + v % 10 == v) by (nonlinear_arith);
    }
}

/// Any value is below 10 to its own width.
pub proof fn lemma_min_width_bound(v: nat)
    ensures
        v < pow10(min_width(v)),
        min_width(v) >= 1,
    decreases v,
{
    if v < 10 {
        assert(pow10(1) == 10 * pow10(0));
    } else {
        lemma_min_width_bound(v / 10);
        assert(pow10(min_width(v)) == 10 * pow10(min_width(v / 10)));
        assert(v / 10 < pow10(min_width(v / 10)));
        assert(v < 10 * pow10(min_width(v / 10))) by (nonlinear_arith)
            requires
                v / 10 < pow10(min_width(v / 10)),
                v >= 0,
        ;
    }
}

/// The shortest decimal form reads back to the value it was made from.
pub proof fn lemma_dec_str_value(v: nat)
    ensures
        dec_value(dec_str(v)) == v,
        all_dec_digits(dec_str(v)),
        dec_str(v).len() == min_width(v),
        dec_str(v).len() >= 1,
{
    lemma_min_width_bound(v);
    lemma_dec_digits_value(v, min_width(v));
    lemma_dec_digits_all_digits(v, min_width(v));
    lemma_dec_digits_len(v, min_width(v));
}

/// Extending a digit string cannot shrink its value.
pub proof fn lemma_dec_value_prefix(s: Seq<char>, i: int)
    requires
        0 <= i <= s.len(),
        all_dec_digits(s),
    ensures
        dec_value(s.subrange(0, i)) <= dec_value(s),
    decreases s.len() - i,
{
    if i < s.len() {
        let t = s.subrange(0, i + 1);
        assert(t.drop_last() == s.subrange(0, i));
        assert(dec_value(t) == dec_value(s.subrange(0, i)) * 10 + digit_val(t.last()));
        assert(dec_value(s.subrange(0, i)) * 10 >= dec_value(s.subrange(0, i))) by (nonlinear_arith)
            requires
                dec_value(s.subrange(0, i)) >= 0,
        ;
        lemma_dec_value_prefix(s, i + 1);
        assert(s.subrange(0, s.len() as int) == s);
    } else {
        assert(s.subrange(0, i) == s);
    }
}

/// 10^19 fits in a u64; 10^20 does not.
pub proof fn lemma_pow10_u64_range()
    ensures
        pow10(19) == 10000000000000000000,
        pow10(10) == 10000000000,
{
    reveal_with_fuel(pow10, 21);
}

/// Compute 10^e for small exponents.
pub fn pow10_u64(e: u8) -> (r: u64)
    requires
        e <= 19,
    ensures
        r == pow10(e as nat),
{
    let mut r: u64 = 1;
    let mut i: u8 = 0;
    while i < e
        invariant
            i <= e <= 19,
            r == pow10(i as nat),
        decreases e - i,
    {
        proof {
            lemma_pow10_u64_range();
            lemma_pow10_monotone((i + 1) as nat, 19);
            assert(pow10((i + 1) as nat) == 10 * pow10(i as nat));
        }
        r = r * 10;
        i = i + 1;
    }
    r
}

/// Append `v` to `out` as exactly `w` decimal digits, zero-padded on the left.
pub fn push_decimal_padded(out: &mut String, v: u64, w: u8)
    ensures
        final(out)@ == old(out)@ + dec_digits(v as nat, w as nat),
    decreases w,
{
    if w == 0 {
        assert(old(out)@ + dec_digits(v as nat, 0) =~= old(out)@);
        return ;
    }
    push_decimal_padded(out, v / 10, w - 1);
    let d: u8 = (v % 10) as u8;
    let c: char = (48 + d) as char;
    assert(c == digit_char((v % 10) as nat));
    push_char(out, c);
}

/// The shortest decimal width of a value, computed by repeated division.
pub fn dec_width(v: u64) -> (w: u8)
    ensures
        w == min_width(v as nat),
{
    let mut w: u8 = 1;
    let mut rest: u64 = v;
    assert(pow10(0) == 1);
    assert(v as nat / 1 == v as nat);
    while rest >= 10
        invariant
            1 <= w <= 20,
            min_width(v as nat) == min_width(rest as nat) + w - 1,
            rest as nat <= v as nat / pow10((w - 1) as nat),
        decreases rest,
    {
        proof {
            lemma_width_step(v as nat, rest as nat, w as nat);
        }
        rest = rest / 10;
        w = w + 1;
    }
    w
}

/// Helper for `dec_width`: one division step keeps the invariant, and the
/// width of a u64 never passes 20 digits.
proof fn lemma_width_step(v: nat, rest: nat, w: nat)
    requires
        rest >= 10,
        1 <= w <= 20,
        rest <= v / pow10((w - 1) as nat),
        v <= u64::MAX,
        min_width(v) == min_width(rest) + w - 1,
    ensures
        w + 1 <= 20,
        rest / 10 <= v / pow10(w),
        min_width(v) == min_width((rest / 10) as nat) + w,
        min_width(rest) == 1 + min_width((rest / 10) as nat),
{
    lemma_pow10_u64_range();
    lemma_pow10_positive((w - 1) as nat);
    vstd::arithmetic::div_mod::lemma_div_denominator(v as int, pow10((w - 1) as nat) as int, 10);
    assert(pow10(w) == 10 * pow10((w - 1) as nat));
    assert(pow10((w - 1) as nat) * 10 == 10 * pow10((w - 1) as nat)) by (nonlinear_arith);
    assert(v / pow10((w - 1) as nat) / 10 == v / pow10(w));
    vstd::arithmetic::div_mod::lemma_div_is_ordered(
        rest as int,
        (v / pow10((w - 1) as nat)) as int,
        10,
    );
    if w + 1 > 20 {
        assert(w == 20);
        lemma_pow10_monotone(19, (w - 1) as nat);
        vstd::arithmetic::div_mod::lemma_div_is_ordered(
            v as int,
            u64::MAX as int,
            pow10((w - 1) as nat) as int,
        );
        vstd::arithmetic::div_mod::lemma_div_is_ordered_by_denominator(
            u64::MAX as int,
            pow10(19) as int,
            pow10((w - 1) as nat) as int,
        );
        assert(u64::MAX as int / pow10(19) as int == 1);
        assert(false);
    }
}

/// Append the shortest decimal form of `v` to `out`.
pub fn push_decimal(out: &mut String, v: u64)
    ensures
        final(out)@ == old(out)@ + dec_str(v as nat),
{
    let w = dec_width(v);
    proof {
        lemma_min_width_bound(v as nat);
    }
    push_decimal_padded(out, v, w);
}

/// Parse a slice of characters as an unsigned 64-bit decimal numeral.
/// Accepts exactly the non-empty all-digit strings whose value fits.
pub fn parse_u64_digits(s: &[char]) -> (r: Option<u64>)
    ensures
        match r {
            Some(v) => is_u64_numeral(s@) && v == dec_value(s@),
            None => !is_u64_numeral(s@),
        },
{
    let n = s.len();
    if n == 0 {
        return None;
    }
    let mut acc: u64 = 0;
    let mut i: usize = 0;
    while i < n
        invariant
            n == s@.len(),
            0 < n,
            i <= n,
            all_dec_digits(s@.subrange(0, i as int)),
            acc == dec_value(s@.subrange(0, i as int)),
        decreases n - i,
    {
        let c = s[i];
        let code: u32 = c as u32;
        if code < 48 || code > 57 {
            assert(!is_dec_digit(s@[i as int]));
            return None;
        }
        let d: u64 = (code - 48) as u64;
        assert(d <= 9);
        if acc > (u64::MAX - d) / 10 {
            proof {
                let t = s@.subrange(0, i + 1);
                assert(t.drop_last() == s@.subrange(0, i as int));
                assert(dec_value(t) == acc * 10 + d);
                assert(acc * 10 + d > u64::MAX) by (nonlinear_arith)
                    requires
                        acc > (u64::MAX - d) / 10,
                        0 <= d <= 9,
                        acc >= 0,
                ;
                if is_u64_numeral(s@) {
                    lemma_dec_value_prefix(s@, i + 1);
                    assert(false);
                }
            }
            return None;
        }
        acc = acc * 10 + d;
        assert(s@.subrange(0, i + 1).drop_last() == s@.subrange(0, i as int));
        assert(forall|j: int|
            0 <= j < i + 1 ==> is_dec_digit(#[trigger] s@.subrange(0, i + 1)[j]));
        i = i + 1;
    }
    assert(s@.subrange(0, n as int) == s@);
    Some(acc)
}

/// What stays of a numeric field once an optional leading plus sign is gone.
pub open spec fn strip_plus(s: Seq<char>) -> Seq<char> {
    if s.len() > 0 && s[0] == '+' {
        s.drop_first()
    } else {
        s
    }
}

/// A decimal u64 as a form field may write it: an optional leading plus sign,
/// then a non-empty digit string whose value fits.
pub open spec fn is_u64_text(s: Seq<char>) -> bool {
    is_u64_numeral(strip_plus(s))
}

/// As `is_u64_text`, with the value fitting in a u8.
pub open spec fn is_u8_text(s: Seq<char>) -> bool {
    is_u8_numeral(strip_plus(s))
}

/// The value of a numeric form field.
pub open spec fn text_value(s: Seq<char>) -> nat {
    dec_value(strip_plus(s))
}

/// Parse a numeric form field as a u64, allowing one leading plus sign.
pub fn parse_u64_text(s: &Vec<char>) -> (r: Option<u64>)
    ensures
        match r {
            Some(v) => is_u64_text(s@) && v == text_value(s@),
            None => !is_u64_text(s@),
        },
{
    if s.len() > 0 && s[0] == '+' {
        let rest = crate::strutil::chars_suffix(s, 1);
        assert(rest@ == s@.drop_first());
        parse_u64_digits(rest.as_slice())
    } else {
        parse_u64_digits(s.as_slice())
    }
}

/// Parse a numeric form field as a u8, allowing one leading plus sign.
pub fn parse_u8_text(s: &Vec<char>) -> (r: Option<u8>)
    ensures
        match r {
            Some(v) => is_u8_text(s@) && v == text_value(s@),
            None => !is_u8_text(s@),
        },
{
    match parse_u64_text(s) {
        Some(v) => {
            if v <= 255 {
                Some(v as u8)
            } else {
                None
            }
        },
        None => None,
    }
}

/// Parse a slice of characters as an unsigned 8-bit decimal numeral.
pub fn parse_u8_digits(s: &[char]) -> (r: Option<u8>)
    ensures
        match r {
            Some(v) => is_u8_numeral(s@) && v == dec_value(s@),
            None => !is_u8_numeral(s@),
        },
{
    match parse_u64_digits(s) {
        Some(v) => {
            if v <= 255 {
                Some(v as u8)
            } else {
                None
            }
        },
        None => None,
    }
}

} // verus!
