//! Verified decimal formatting and parsing of the integers that appear in
//! the stored record formats.

use vstd::prelude::*;

verus! {

/// A decimal digit character.
pub open spec fn is_digit(c: char) -> bool {
    48 <= c as u32 <= 57
}

/// Numeric value of a digit character.
pub open spec fn digit_val(c: char) -> int {
    c as u32 - 48
}

/// Every character of the sequence is a decimal digit.
pub open spec fn all_digits(s: Seq<char>) -> bool {
    forall|i: int| 0 <= i < s.len() ==> is_digit(#[trigger] s[i])
}

/// Value of a digit sequence, most significant digit first.
pub open spec fn digits_val(s: Seq<char>) -> int
    decreases s.len(),
{
    if s.len() == 0 {
        0
    } else {
        digits_val(s.drop_last()) * 10 + digit_val(s.last())
    }
}

/// Value of a digit sequence, least significant digit first.
pub open spec fn digits_val_rev(s: Seq<char>) -> int
    decreases s.len(),
{
    if s.len() == 0 {
        0
    } else {
        digit_val(s[0]) + 10 * digits_val_rev(s.drop_first())
    }
}

pub proof fn lemma_digits_val_nonneg(s: Seq<char>)
    requires
        all_digits(s),
    ensures
        digits_val(s) >= 0,
    decreases s.len(),
{
    if s.len() != 0 {
        assert(all_digits(s.drop_last()));
        lemma_digits_val_nonneg(s.drop_last());
        assert(is_digit(s.last()));
    }
}

/// Reading a digit sequence in reverse gives the same value read the other
/// way round.
pub proof fn lemma_digits_val_reverse(s: Seq<char>)
    ensures
        digits_val(s.reverse()) == digits_val_rev(s),
    decreases s.len(),
{
    if s.len() != 0 {
        lemma_digits_val_reverse(s.drop_first());
        assert(s.reverse().drop_last() =~= s.drop_first().reverse());
        assert(s.reverse().last() == s[0]);
    }
}

/// A value is at least the value of any of its digit-sequence prefixes.
pub proof fn lemma_digits_val_prefix(s: Seq<char>, j: int)
    requires
        all_digits(s),
        0 <= j <= s.len(),
    ensures
        digits_val(s) >= digits_val(s.take(j)),
    decreases s.len() - j,
{
    if j < s.len() {
        lemma_digits_val_prefix(s, j + 1);
        let t = s.take(j + 1);
        assert(t.drop_last() =~= s.take(j));
        assert(is_digit(t.last()));
        assert(all_digits(s.take(j)));
        lemma_digits_val_nonneg(s.take(j));
        assert(digits_val(t) == digits_val(s.take(j)) * 10 + digit_val(t.last()));
    } else {
        assert(s.take(j) =~= s);
    }
}

/// Formats an unsigned value in decimal.
pub fn fmt_u128(n: u128) -> (r: String)
    ensures
        all_digits(r@),
        r@.len() >= 1,
        digits_val(r@) == n,
{
    let mut rem = n;
    let mut digits: Vec<char> = Vec::new();
    let d0 = (rem % 10) as u8;
    let c0 = (48 + d0) as char;
    digits.push(c0);
    proof {
        lemma_digits_rev_push(Seq::<char>::empty(), c0);
        assert(c0 as u32 == 48 + d0);
        lemma_digits_val_rev_scale(Seq::<char>::empty(), c0, rem as int, n as int);
    }
    rem = rem / 10;
    while rem > 0
        invariant
            digits_val_rev(digits@) + rem * pow10(digits@.len() as nat) == n,
            all_digits(digits@),
            digits@.len() >= 1,
        decreases rem,
    {
        let d = (rem % 10) as u8;
        let c = (48 + d) as char;
        let ghost olddigits = digits@;
        digits.push(c);
        proof {
            lemma_digits_rev_push(olddigits, c);
            assert(c as u32 == 48 + d);
            lemma_digits_val_rev_scale(olddigits, c, rem as int, n as int);
            assert(all_digits(digits@));
        }
        rem = rem / 10;
    }
    proof {
        assert(digits_val_rev(digits@) == n);
    }
    let mut out = String::new();
    let mut i: usize = digits.len();
    proof {
        assert(digits@.skip(i as int).reverse() =~= Seq::<char>::empty());
        assert(out@ =~= digits@.skip(i as int).reverse());
    }
    while i > 0
        invariant
            i <= digits@.len(),
            out@ == digits@.skip(i as int).reverse(),
        decreases i,
    {
        i = i - 1;
        push_digit(&mut out, digits[i]);
        proof {
            assert(digits@.skip(i as int).reverse() =~= digits@.skip(i + 1).reverse().push(
                digits@[i as int],
            ));
        }
    }
    proof {
        assert(digits@.skip(0) =~= digits@);
        lemma_digits_val_reverse(digits@);
        assert(forall|j: int|
            0 <= j < digits@.reverse().len() ==> is_digit(#[trigger] digits@.reverse()[j]));
    }
    out
}

fn push_digit(s: &mut String, c: char)
    ensures
        final(s)@ == old(s)@.push(c),
{
    crate::strutil::push_char(s, c)
}

/// Ten to the given power.
pub open spec fn pow10(k: nat) -> int
    decreases k,
{
    if k == 0 {
        1
    } else {
        10 * pow10((k - 1) as nat)
    }
}

proof fn lemma_digits_rev_push(s: Seq<char>, c: char)
    ensures
        digits_val_rev(s.push(c)) == digits_val_rev(s) + digit_val(c) * pow10(s.len() as nat),
    decreases s.len(),
{
    if s.len() == 0 {
        assert(s.push(c)[0] == c);
        assert(s.push(c).drop_first() =~= Seq::<char>::empty());
        assert(digits_val_rev(Seq::<char>::empty()) == 0);
        assert(digits_val_rev(s.push(c)) == digit_val(c) + 10 * 0);
    } else {
        lemma_digits_rev_push(s.drop_first(), c);
        assert(s.push(c).drop_first() =~= s.drop_first().push(c));
        assert(s.push(c)[0] == s[0]);
        assert(digits_val_rev(s.push(c)) == digit_val(s[0]) + 10 * digits_val_rev(
            s.drop_first().push(c),
        ));
        assert(digits_val_rev(s) == digit_val(s[0]) + 10 * digits_val_rev(s.drop_first()));
        assert(pow10(s.len() as nat) == 10 * pow10((s.len() - 1) as nat));
        assert(10 * (digits_val_rev(s.drop_first()) + digit_val(c) * pow10((s.len() - 1) as nat))
            == 10 * digits_val_rev(s.drop_first()) + digit_val(c) * (10 * pow10(
            (s.len() - 1) as nat,
        ))) by (nonlinear_arith);
    }
}

proof fn lemma_digits_val_rev_scale(s: Seq<char>, c: char, rem: int, n: int)
    requires
        digits_val_rev(s) + rem * pow10(s.len() as nat) == n,
        digits_val_rev(s.push(c)) == digits_val_rev(s) + digit_val(c) * pow10(s.len() as nat),
        digit_val(c) == rem % 10,
        rem >= 0,
    ensures
        digits_val_rev(s.push(c)) + (rem / 10) * pow10(s.push(c).len() as nat) == n,
{
    assert(pow10(s.push(c).len() as nat) == 10 * pow10(s.len() as nat));
    assert(rem == 10 * (rem / 10) + (rem % 10));
    assert((rem / 10) * (10 * pow10(s.len() as nat)) + (rem % 10) * pow10(s.len() as nat) == (10 * (
    rem / 10) + (rem % 10)) * pow10(s.len() as nat)) by (nonlinear_arith);
}

/// Unsigned decimal reading of a character sequence; `None` unless the whole
/// sequence is a digit sequence whose value fits.
pub open spec fn spec_parse_u128(s: Seq<char>) -> Option<u128> {
    if all_digits(s) && 1 <= s.len() && digits_val(s) <= u128::MAX {
        Some(digits_val(s) as u128)
    } else {
        None
    }
}

/// Parses an unsigned decimal value; `None` unless the whole string is a
/// digit sequence whose value fits.
pub fn parse_u128(s: &str) -> (r: Option<u128>)
    ensures
        r == spec_parse_u128(s@),
        match r {
            Some(n) => all_digits(s@) && s@.len() >= 1 && digits_val(s@) == n,
            None => !(all_digits(s@) && 1 <= s@.len() && digits_val(s@) <= u128::MAX),
        },
{
    let len = s.unicode_len();
    if len == 0 {
        return None;
    }
    let mut acc: u128 = 0;
    let mut i: usize = 0;
    proof {
        assert(s@.take(0) =~= Seq::<char>::empty());
    }
    while i < len
        invariant
            len == s@.len(),
            i <= len,
            all_digits(s@.take(i as int)),
            acc == digits_val(s@.take(i as int)),
        decreases len - i,
    {
        let c = s.get_char(i);
        let cv = c as u32;
        if cv < 48 || cv > 57 {
            assert(!is_digit(s@[i as int]));
            return None;
        }
        let d = (cv - 48) as u128;
        proof {
            assert(s@.take(i + 1).drop_last() =~= s@.take(i as int));
            assert(s@.take(i + 1).last() == s@[i as int]);
        }
        if acc > (u128::MAX - d) / 10 {
            proof {
                assert(digits_val(s@.take(i + 1)) == acc * 10 + d);
                assert(acc * 10 + d > u128::MAX) by {
                    assert(acc >= (u128::MAX - d) / 10 + 1);
                    assert(((u128::MAX - d) / 10 + 1) * 10 >= u128::MAX - d + 1)
                        by (nonlinear_arith);
                    assert(acc * 10 >= ((u128::MAX - d) / 10 + 1) * 10) by (nonlinear_arith)
                        requires
                            acc >= (u128::MAX - d) / 10 + 1,
                    ;
                }
                if all_digits(s@) {
                    lemma_digits_val_prefix(s@, i + 1);
                }
            }
            return None;
        }
        acc = acc * 10 + (d as u128);
        i = i + 1;
    }
    proof {
        assert(s@.take(len as int) =~= s@);
    }
    Some(acc)
}

/// Formats a signed value in decimal, with a leading minus sign when negative.
pub fn fmt_i64(n: i64) -> (r: String)
    ensures
        sint_of(r@) == Some(n as int),
{
    if n >= 0 {
        let out = fmt_u128(n as u128);
        proof {
            lemma_digits_val_nonneg(out@);
            assert(out@[0] != '-') by {
                assert(is_digit(out@[0]));
            }
        }
        out
    } else {
        let mag: u128 = (-(n as i128)) as u128;
        let digits = fmt_u128(mag);
        let mut out = String::new();
        crate::strutil::push_char(&mut out, '-');
        out.append(digits.as_str());
        proof {
            assert(out@[0] == '-');
            assert(out@.drop_first() =~= digits@);
            lemma_digits_val_nonneg(digits@);
        }
        out
    }
}

/// Signed decimal reading of a character sequence; `None` unless the whole
/// sequence is an optionally minus-signed digit sequence.
pub open spec fn sint_of(s: Seq<char>) -> Option<int> {
    if s.len() >= 1 && s[0] == '-' {
        if s.len() >= 2 && all_digits(s.drop_first()) {
            Some(-digits_val(s.drop_first()))
        } else {
            None
        }
    } else {
        if s.len() >= 1 && all_digits(s) {
            Some(digits_val(s))
        } else {
            None
        }
    }
}

/// Signed decimal reading, `None` unless the value fits in the type.
pub open spec fn spec_parse_i64(s: Seq<char>) -> Option<i64> {
    match sint_of(s) {
        Some(v) => if i64::MIN <= v <= i64::MAX {
            Some(v as i64)
        } else {
            None
        },
        None => None,
    }
}

/// Parses a signed decimal value; `None` unless the whole string is an
/// optionally minus-signed digit sequence whose value fits.
pub fn parse_i64(s: &str) -> (r: Option<i64>)
    ensures
        r == spec_parse_i64(s@),
        match r {
            Some(n) => sint_of(s@) == Some(n as int),
            None => !(sint_of(s@) matches Some(v) && i64::MIN <= v <= i64::MAX),
        },
{
    let len = s.unicode_len();
    if len == 0 {
        return None;
    }
    if s.get_char(0) == '-' {
        let rest = s.substring_char(1, len);
        proof {
            assert(rest@ =~= s@.drop_first());
        }
        match parse_u128(rest) {
            Some(mag) => {
                proof {
                    assert(sint_of(s@) == Some(-(mag as int)));
                }
                if mag > 9223372036854775808u128 {
                    None
                } else {
                    let out = (-(mag as i128)) as i64;
                    Some(out)
                }
            },
            None => {
                proof {
                    if sint_of(s@) is Some && i64::MIN <= sint_of(s@)->Some_0 <= i64::MAX {
                        assert(all_digits(s@.drop_first()));
                        assert(sint_of(s@)->Some_0 == -digits_val(s@.drop_first()));
                        assert(digits_val(s@.drop_first()) <= u128::MAX);
                    }
                }
                None
            },
        }
    } else {
        match parse_u128(s) {
            Some(mag) => {
                proof {
                    assert(sint_of(s@) == Some(mag as int));
                }
                if mag > i64::MAX as u128 {
                    None
                } else {
                    Some(mag as i64)
                }
            },
            None => {
                proof {
                    if sint_of(s@) is Some && i64::MIN <= sint_of(s@)->Some_0 <= i64::MAX {
                        lemma_digits_val_nonneg(s@);
                        assert(digits_val(s@) <= u128::MAX);
                    }
                }
                None
            },
        }
    }
}

} // verus!

use vstd::prelude::*;

verus! {

/// Unsigned decimal reading, `None` unless the value fits in the type.
pub open spec fn spec_parse_u32(s: Seq<char>) -> Option<u32> {
    match spec_parse_u128(s) {
        Some(v) => if v <= u32::MAX {
            Some(v as u32)
        } else {
            None
        },
        None => None,
    }
}

/// Parses an unsigned decimal value into 32 bits.
pub fn parse_u32(s: &str) -> (r: Option<u32>)
    ensures
        r == spec_parse_u32(s@),
{
    match parse_u128(s) {
        Some(v) => if v <= u32::MAX as u128 {
            Some(v as u32)
        } else {
            None
        },
        None => None,
    }
}

/// Unsigned decimal reading, `None` unless the value fits in the type.
pub open spec fn spec_parse_u8(s: Seq<char>) -> Option<u8> {
    match spec_parse_u128(s) {
        Some(v) => if v <= u8::MAX {
            Some(v as u8)
        } else {
            None
        },
        None => None,
    }
}

/// Parses an unsigned decimal value into 8 bits.
pub fn parse_u8(s: &str) -> (r: Option<u8>)
    ensures
        r == spec_parse_u8(s@),
{
    match parse_u128(s) {
        Some(v) => if v <= u8::MAX as u128 {
            Some(v as u8)
        } else {
            None
        },
        None => None,
    }
}

/// Signed decimal reading, `None` unless the value fits in the type.
pub open spec fn spec_parse_i32(s: Seq<char>) -> Option<i32> {
    match spec_parse_i64(s) {
        Some(v) => if i32::MIN <= v <= i32::MAX {
            Some(v as i32)
        } else {
            None
        },
        None => None,
    }
}

/// Parses a signed decimal value into 32 bits.
pub fn parse_i32(s: &str) -> (r: Option<i32>)
    ensures
        r == spec_parse_i32(s@),
{
    match parse_i64(s) {
        Some(v) => if i32::MIN as i64 <= v && v <= i32::MAX as i64 {
            Some(v as i32)
        } else {
            None
        },
        None => None,
    }
}

/// Formats an unsigned 32-bit value in decimal.
pub fn fmt_u32(n: u32) -> (r: String)
    ensures
        spec_parse_u32(r@) == Some(n),
        decimal_chars(r@),
{
    let out = fmt_u128(n as u128);
    proof {
        lemma_digits_val_nonneg(out@);
    }
    out
}

/// Formats an unsigned 8-bit value in decimal.
pub fn fmt_u8(n: u8) -> (r: String)
    ensures
        spec_parse_u8(r@) == Some(n),
        decimal_chars(r@),
{
    let out = fmt_u128(n as u128);
    proof {
        lemma_digits_val_nonneg(out@);
    }
    out
}

/// Formats a signed 32-bit value in decimal.
pub fn fmt_i32(n: i32) -> (r: String)
    ensures
        spec_parse_i32(r@) == Some(n),
        decimal_chars(r@),
{
    fmt_i64_plain(n as i64)
}

/// Formats a 128-bit identifier in decimal.
pub fn fmt_u128_id(n: u128) -> (r: String)
    ensures
        spec_parse_u128(r@) == Some(n),
        decimal_chars(r@),
{
    let out = fmt_u128(n);
    proof {
        lemma_digits_val_nonneg(out@);
    }
    out
}

/// Every character is a digit or a minus sign.
pub open spec fn decimal_chars(s: Seq<char>) -> bool {
    forall|i: int| 0 <= i < s.len() ==> (is_digit(#[trigger] s[i]) || s[i] == '-')
}

/// A formatted number contains no structural character of the record formats.
pub proof fn lemma_decimal_plain(s: Seq<char>)
    requires
        decimal_chars(s),
    ensures
        crate::strutil::free_of(s, '\n'),
        crate::strutil::free_of(s, '|'),
        crate::strutil::free_of(s, ';'),
        crate::strutil::free_of(s, ','),
{
    assert forall|i: int| 0 <= i < s.len() implies s[i] != '\n' && s[i] != '|' && s[i] != ';'
        && s[i] != ',' by {
        assert(is_digit(s[i]) || s[i] == '-');
    }
}

/// Digit sequences consist of decimal characters.
pub proof fn lemma_all_digits_decimal(s: Seq<char>)
    requires
        all_digits(s),
    ensures
        decimal_chars(s),
{
}

/// A formatted signed value consists of decimal characters.
pub fn fmt_i64_plain(n: i64) -> (r: String)
    ensures
        spec_parse_i64(r@) == Some(n),
        decimal_chars(r@),
{
    let out = fmt_i64(n);
    proof {
        if n >= 0 {
            assert(out@[0] != '-' ==> all_digits(out@));
        }
        assert(decimal_chars(out@)) by {
            if out@.len() >= 1 && out@[0] == '-' {
                assert(all_digits(out@.drop_first())) by {
                    assert(sint_of(out@) is Some);
                }
                assert forall|i: int| 0 <= i < out@.len() implies (is_digit(#[trigger] out@[i])
                    || out@[i] == '-') by {
                    if i >= 1 {
                        assert(out@[i] == out@.drop_first()[i - 1]);
                    }
                }
            } else {
                assert(all_digits(out@)) by {
                    assert(sint_of(out@) is Some);
                }
            }
        }
    }
    out
}

} // verus!
