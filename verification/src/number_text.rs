//! Reading numbers from command-line text, with the same acceptance and the
//! same error kinds as the standard library's `str::parse` for integers, and
//! the grammar that decides whether text is a floating-point literal.
use vstd::prelude::*;
use crate::text::eq_ignore_ascii_case;
use crate::text::str_eq_ignore_ascii_case;

verus! {

/// Why number text was refused.
#[derive(Clone, Copy, Debug, PartialEq, Eq, Structural)]
pub enum NumberErrorKind {
    /// The text is empty.
    Empty,
    /// A character is not a digit where one is needed.
    InvalidDigit,
    /// The number is above the type's maximum.
    PosOverflow,
    /// The number is below the type's minimum.
    NegOverflow,
    /// The text is not a floating-point literal.
    InvalidFloat,
}

/// The standard library's message for each kind of refused number text
/// (integer or, with `float`, floating-point text).
pub open spec fn spec_error_message(kind: NumberErrorKind, float: bool) -> Seq<char> {
    match kind {
        NumberErrorKind::Empty => if float {
            "cannot parse float from empty string"@
        } else {
            "cannot parse integer from empty string"@
        },
        NumberErrorKind::InvalidDigit => "invalid digit found in string"@,
        NumberErrorKind::PosOverflow => "number too large to fit in target type"@,
        NumberErrorKind::NegOverflow => "number too small to fit in target type"@,
        NumberErrorKind::InvalidFloat => "invalid float literal"@,
    }
}

/// Describes why number text was refused.
pub fn error_message(kind: NumberErrorKind, float: bool) -> (r: &'static str)
    ensures
        r@ == spec_error_message(kind, float),
{
    match kind {
        NumberErrorKind::Empty => if float {
            "cannot parse float from empty string"
        } else {
            "cannot parse integer from empty string"
        },
        NumberErrorKind::InvalidDigit => "invalid digit found in string",
        NumberErrorKind::PosOverflow => "number too large to fit in target type",
        NumberErrorKind::NegOverflow => "number too small to fit in target type",
        NumberErrorKind::InvalidFloat => "invalid float literal",
    }
}

pub open spec fn is_digit(c: char) -> bool {
    '0' <= c && c <= '9'
}

pub open spec fn digit_value(c: char) -> nat {
    (c as u32 - '0' as u32) as nat
}

/// Reads digits from the left as the standard library does: the value so
/// far grows digit by digit, and the first character that is not a digit, or
/// the first digit that takes the value past `limit`, decides the error.
pub open spec fn scan_digits(d: Seq<char>, limit: nat, overflow: NumberErrorKind) -> Result<nat, NumberErrorKind>
    decreases d.len(),
{
    if d.len() == 0 {
        Ok(0)
    } else {
        match scan_digits(d.drop_last(), limit, overflow) {
            Err(e) => Err(e),
            Ok(v) => if !is_digit(d.last()) {
                Err(NumberErrorKind::InvalidDigit)
            } else if v * 10 + digit_value(d.last()) > limit {
                Err(overflow)
            } else {
                Ok(v * 10 + digit_value(d.last()))
            },
        }
    }
}

/// Integer text read with an optional `+` sign (and `-` when `signed`),
/// accepted when its value lies in `-neg_limit..=pos_limit`.
pub open spec fn spec_parse_int(s: Seq<char>, pos_limit: nat, neg_limit: nat, signed: bool) -> Result<int, NumberErrorKind> {
    if s.len() == 0 {
        Err(NumberErrorKind::Empty)
    } else if (s[0] == '+' || s[0] == '-') && s.len() == 1 {
        Err(NumberErrorKind::InvalidDigit)
    } else if s[0] == '+' {
        match scan_digits(s.drop_first(), pos_limit, NumberErrorKind::PosOverflow) {
            Ok(v) => Ok(v as int),
            Err(e) => Err(e),
        }
    } else if s[0] == '-' && signed {
        match scan_digits(s.drop_first(), neg_limit, NumberErrorKind::NegOverflow) {
            Ok(v) => Ok(-(v as int)),
            Err(e) => Err(e),
        }
    } else {
        match scan_digits(s, pos_limit, NumberErrorKind::PosOverflow) {
            Ok(v) => Ok(v as int),
            Err(e) => Err(e),
        }
    }
}

/// Scans the digits of `s` from `start`, with the value bounded by `limit`.
fn scan_digits_exec(s: &str, start: usize, limit: u64, overflow: NumberErrorKind) -> (r: Result<u64, NumberErrorKind>)
    requires
        start <= s@.len(),
    ensures
        match scan_digits(s@.subrange(start as int, s@.len() as int), limit as nat, overflow) {
            Ok(v) => r == Ok::<u64, NumberErrorKind>(v as u64) && v <= limit,
            Err(e) => r == Err::<u64, NumberErrorKind>(e),
        },
{
    let n = s.unicode_len();
    let mut acc: u64 = 0;
    let mut i = start;
    assert(s@.subrange(start as int, start as int) =~= Seq::<char>::empty());
    while i < n
        invariant
            n == s@.len(),
            start <= i <= n,
            scan_digits(s@.subrange(start as int, i as int), limit as nat, overflow) == Ok::<nat, NumberErrorKind>(acc as nat),
            acc <= limit,
        decreases n - i,
    {
        let ghost next = s@.subrange(start as int, i + 1);
        assert(next.drop_last() =~= s@.subrange(start as int, i as int));
        let c = s.get_char(i);
        if !('0' <= c && c <= '9') {
            proof {
                assert(s@.subrange(start as int, s@.len() as int).subrange(0, i - start + 1) =~= next);
                assert(scan_digits(next, limit as nat, overflow) == Err::<nat, NumberErrorKind>(NumberErrorKind::InvalidDigit));
                lemma_scan_stops(s@.subrange(start as int, s@.len() as int), i - start, limit as nat, overflow);
            }
            return Err(NumberErrorKind::InvalidDigit);
        }
        let d = (c as u32 - '0' as u32) as u64;
        if d > limit || acc > (limit - d) / 10 {
            assert(acc * 10 + d > limit) by (nonlinear_arith)
                requires
                    d > limit || acc > (limit - d) / 10,
            ;
            proof {
                assert(s@.subrange(start as int, s@.len() as int).subrange(0, i - start + 1) =~= next);
                assert(scan_digits(next, limit as nat, overflow) == Err::<nat, NumberErrorKind>(overflow));
                lemma_scan_stops(s@.subrange(start as int, s@.len() as int), i - start, limit as nat, overflow);
            }
            return Err(overflow);
        }
        assert(acc * 10 + d <= limit) by (nonlinear_arith)
            requires
                acc <= (limit - d) / 10,
                d <= limit,
        ;
        acc = acc * 10 + d;
        i = i + 1;
    }
    Ok(acc)
}

/// Once the scan of a prefix has failed, the scan of the whole text fails
/// the same way.
proof fn lemma_scan_stops(d: Seq<char>, k: int, limit: nat, overflow: NumberErrorKind)
    requires
        0 <= k < d.len(),
        scan_digits(d.subrange(0, k + 1), limit, overflow) is Err,
    ensures
        scan_digits(d, limit, overflow) == scan_digits(d.subrange(0, k + 1), limit, overflow),
    decreases d.len(),
{
    if d.len() > k + 1 {
        assert(d.drop_last().subrange(0, k + 1) =~= d.subrange(0, k + 1));
        lemma_scan_stops(d.drop_last(), k, limit, overflow);
    } else {
        assert(d.subrange(0, k + 1) =~= d);
    }
}

/// Reads unsigned integer text bounded by `limit`.
fn parse_unsigned(s: &str, limit: u64) -> (r: Result<u64, NumberErrorKind>)
    ensures
        match spec_parse_int(s@, limit as nat, 0, false) {
            Ok(v) => r == Ok::<u64, NumberErrorKind>(v as u64) && 0 <= v <= limit,
            Err(e) => r == Err::<u64, NumberErrorKind>(e),
        },
{
    let n = s.unicode_len();
    if n == 0 {
        return Err(NumberErrorKind::Empty);
    }
    let c = s.get_char(0);
    if (c == '+' || c == '-') && n == 1 {
        return Err(NumberErrorKind::InvalidDigit);
    }
    if c == '+' {
        assert(s@.subrange(1, s@.len() as int) =~= s@.drop_first());
        scan_digits_exec(s, 1, limit, NumberErrorKind::PosOverflow)
    } else {
        assert(s@.subrange(0, s@.len() as int) =~= s@);
        scan_digits_exec(s, 0, limit, NumberErrorKind::PosOverflow)
    }
}

/// Reads `u32` text as `str::parse::<u32>` does.
pub fn parse_u32_text(s: &str) -> (r: Result<u32, NumberErrorKind>)
    ensures
        match spec_parse_int(s@, u32::MAX as nat, 0, false) {
            Ok(v) => r == Ok::<u32, NumberErrorKind>(v as u32),
            Err(e) => r == Err::<u32, NumberErrorKind>(e),
        },
{
    match parse_unsigned(s, u32::MAX as u64) {
        Ok(v) => Ok(v as u32),
        Err(e) => Err(e),
    }
}

/// Reads `u64` text as `str::parse::<u64>` does.
pub fn parse_u64_text(s: &str) -> (r: Result<u64, NumberErrorKind>)
    ensures
        match spec_parse_int(s@, u64::MAX as nat, 0, false) {
            Ok(v) => r == Ok::<u64, NumberErrorKind>(v as u64),
            Err(e) => r == Err::<u64, NumberErrorKind>(e),
        },
{
    parse_unsigned(s, u64::MAX)
}

/// Reads `usize` text as `str::parse::<usize>` does.
pub fn parse_usize_text(s: &str) -> (r: Result<usize, NumberErrorKind>)
    ensures
        match spec_parse_int(s@, usize::MAX as nat, 0, false) {
            Ok(v) => r == Ok::<usize, NumberErrorKind>(v as usize),
            Err(e) => r == Err::<usize, NumberErrorKind>(e),
        },
{
    match parse_unsigned(s, usize::MAX as u64) {
        Ok(v) => Ok(v as usize),
        Err(e) => Err(e),
    }
}

/// Reads `i32` text as `str::parse::<i32>` does.
pub fn parse_i32_text(s: &str) -> (r: Result<i32, NumberErrorKind>)
    ensures
        match spec_parse_int(s@, i32::MAX as nat, 0x8000_0000, true) {
            Ok(v) => r == Ok::<i32, NumberErrorKind>(v as i32),
            Err(e) => r == Err::<i32, NumberErrorKind>(e),
        },
{
    let n = s.unicode_len();
    if n == 0 {
        return Err(NumberErrorKind::Empty);
    }
    let c = s.get_char(0);
    if (c == '+' || c == '-') && n == 1 {
        return Err(NumberErrorKind::InvalidDigit);
    }
    if c == '+' {
        assert(s@.subrange(1, s@.len() as int) =~= s@.drop_first());
        match scan_digits_exec(s, 1, i32::MAX as u64, NumberErrorKind::PosOverflow) {
            Ok(v) => Ok(v as i32),
            Err(e) => Err(e),
        }
    } else if c == '-' {
        assert(s@.subrange(1, s@.len() as int) =~= s@.drop_first());
        match scan_digits_exec(s, 1, 0x8000_0000, NumberErrorKind::NegOverflow) {
            Ok(v) => {
                if v == 0x8000_0000 {
                    Ok(i32::MIN)
                } else {
                    Ok(-(v as i32))
                }
            },
            Err(e) => Err(e),
        }
    } else {
        assert(s@.subrange(0, s@.len() as int) =~= s@);
        match scan_digits_exec(s, 0, i32::MAX as u64, NumberErrorKind::PosOverflow) {
            Ok(v) => Ok(v as i32),
            Err(e) => Err(e),
        }
    }
}

/// How many digits follow position `i`.
pub open spec fn digit_run(s: Seq<char>, i: int) -> nat
    decreases s.len() - i,
{
    if 0 <= i < s.len() && is_digit(s[i]) {
        1 + digit_run(s, i + 1)
    } else {
        0
    }
}

/// `e` or `E`.
pub open spec fn is_exponent_mark(c: char) -> bool {
    c == 'e' || c == 'E'
}

/// A decimal number: digits with an optional fraction (at least one digit in
/// all), then an optional exponent with at least one digit.
pub open spec fn is_decimal_number(s: Seq<char>) -> bool {
    let a: int = digit_run(s, 0) as int;
    let has_point = a < s.len() && s[a] == '.';
    let b: int = if has_point { digit_run(s, a + 1) as int } else { 0 };
    let end: int = if has_point { a + 1 + b } else { a };
    &&& a + b > 0
    &&& (end == s.len() || (end < s.len() && is_exponent_mark(s[end]) && {
        let j = if end + 1 < s.len() && (s[end + 1] == '+' || s[end + 1] == '-') { end + 2 } else { end + 1 };
        digit_run(s, j) > 0 && j + digit_run(s, j) == s.len()
    }))
}

/// Whether text is a floating-point literal as `str::parse::<f32>` reads it:
/// an optional sign, then `inf`, `infinity` or `nan` in any case, or a decimal number.
pub open spec fn is_float_literal(s: Seq<char>) -> bool {
    let body = if s.len() > 0 && (s[0] == '+' || s[0] == '-') { s.drop_first() } else { s };
    ||| eq_ignore_ascii_case(body, "inf"@)
    ||| eq_ignore_ascii_case(body, "infinity"@)
    ||| eq_ignore_ascii_case(body, "nan"@)
    ||| is_decimal_number(body)
}

/// Checks floating-point text: empty text and text that is no float literal
/// are refused with their error kinds.
pub open spec fn spec_check_float(s: Seq<char>) -> Result<(), NumberErrorKind> {
    if s.len() == 0 {
        Err(NumberErrorKind::Empty)
    } else if is_float_literal(s) {
        Ok(())
    } else {
        Err(NumberErrorKind::InvalidFloat)
    }
}

fn digit_at(s: &str, j: usize) -> (r: bool)
    requires
        j < s@.len(),
    ensures
        r == is_digit(s@[j as int]),
{
    let c = s.get_char(j);
    '0' <= c && c <= '9'
}

/// Position after the digits that start at `i`.
fn skip_digits(s: &str, i: usize) -> (r: usize)
    requires
        i <= s@.len(),
    ensures
        r == i + digit_run(s@, i as int),
        r <= s@.len(),
{
    let n = s.unicode_len();
    let mut j = i;
    while j < n && digit_at(s, j)
        invariant
            n == s@.len(),
            i <= j <= n,
            digit_run(s@, i as int) == (j - i) + digit_run(s@, j as int),
        decreases n - j,
    {
        j = j + 1;
    }
    j
}

fn decimal_number(s: &str) -> (r: bool)
    ensures
        r == is_decimal_number(s@),
{
    let n = s.unicode_len();
    let a = skip_digits(s, 0);
    let has_point = a < n && s.get_char(a) == '.';
    let (b, end) = if has_point {
        let e = skip_digits(s, a + 1);
        (e - a - 1, e)
    } else {
        (0, a)
    };
    if a == 0 && b == 0 {
        return false;
    }
    if end == n {
        return true;
    }
    let c = s.get_char(end);
    if !(c == 'e' || c == 'E') {
        return false;
    }
    let j = if end + 1 < n && (s.get_char(end + 1) == '+' || s.get_char(end + 1) == '-') { end + 2 } else { end + 1 };
    let k = skip_digits(s, j);
    k > j && k == n
}

/// Checks floating-point text as `str::parse::<f32>` would accept it.
pub fn check_float_text(s: &str) -> (r: Result<(), NumberErrorKind>)
    ensures
        r == spec_check_float(s@),
{
    let n = s.unicode_len();
    if n == 0 {
        return Err(NumberErrorKind::Empty);
    }
    let c = s.get_char(0);
    let body = if c == '+' || c == '-' { s.substring_char(1, n) } else { s };
    assert(body@ == if s@.len() > 0 && (s@[0] == '+' || s@[0] == '-') { s@.drop_first() } else { s@ });
    if str_eq_ignore_ascii_case(body, "inf") || str_eq_ignore_ascii_case(body, "infinity")
        || str_eq_ignore_ascii_case(body, "nan") || decimal_number(body) {
        Ok(())
    } else {
        Err(NumberErrorKind::InvalidFloat)
    }
}

} // verus!
