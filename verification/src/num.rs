//! Fixed-point numbers: magnitudes are integers in thousandths of a unit.
//!
//! Parsing reads an optional sign, an integer part and up to three
//! fraction digits (further fraction digits are truncated; the integer
//! part is capped at a large ceiling), so that all later arithmetic is
//! exact integer arithmetic. The arithmetic helpers saturate at the `i64`
//! range instead of overflowing.

use vstd::prelude::*;

verus! {

/// Ceiling on the integer part of a parsed number, in whole units.
pub const INT_CAP: u64 = 4_000_000_000_000_000;

// ---------------------------------------------------------------------------
// Saturating arithmetic
// ---------------------------------------------------------------------------
/// An integer clamped into the `i64` range.
pub open spec fn sat64(x: int) -> int {
    if x > i64::MAX {
        i64::MAX as int
    } else if x < i64::MIN {
        i64::MIN as int
    } else {
        x
    }
}

/// Division truncating toward zero, for a positive divisor.
pub open spec fn div_tz(a: int, d: int) -> int {
    if a >= 0 {
        a / d
    } else {
        -((-a) / d)
    }
}

/// Saturating addition, at the spec level.
pub open spec fn sadd(a: i64, b: i64) -> i64 {
    sat64(a as int + b as int) as i64
}

/// Saturating subtraction, at the spec level.
pub open spec fn ssub(a: i64, b: i64) -> i64 {
    sat64(a as int - b as int) as i64
}

/// Truncated halving, at the spec level.
pub open spec fn shalf(a: i64) -> i64 {
    div_tz(a as int, 2) as i64
}

/// A percentage applied to a base, at the spec level: `l` thousandths of a
/// percent of `w`.
pub open spec fn spct(l: i64, w: i64) -> i64 {
    sat64(div_tz(l as int * w as int, 100_000)) as i64
}

/// Saturating addition.
pub fn sat_add(a: i64, b: i64) -> (r: i64)
    ensures
        r == sadd(a, b),
        r as int == sat64(a + b),
{
    match a.checked_add(b) {
        Some(v) => v,
        None => if b >= 0 {
            i64::MAX
        } else {
            i64::MIN
        },
    }
}

/// Saturating subtraction.
pub fn sat_sub(a: i64, b: i64) -> (r: i64)
    ensures
        r == ssub(a, b),
        r as int == sat64(a - b),
{
    match a.checked_sub(b) {
        Some(v) => v,
        None => if b >= 0 {
            i64::MIN
        } else {
            i64::MAX
        },
    }
}

/// Halving, truncating toward zero.
pub fn half(x: i64) -> (r: i64)
    ensures
        r == shalf(x),
        r as int == div_tz(x as int, 2),
{
    if x >= 0 {
        ((x as u64) / 2) as i64
    } else if x == i64::MIN {
        -4611686018427387904
    } else {
        -(((-x) as u64 / 2) as i64)
    }
}

/// A percentage applied to a base: `l` thousandths of a percent of `w`,
/// truncated toward zero and saturated.
pub fn pct_of(l: i64, w: i64) -> (r: i64)
    ensures
        r == spct(l, w),
        r as int == sat64(div_tz(l as int * w as int, 100_000)),
{
    proof {
        assert((l as int * w as int) < i128::MAX && (l as int * w as int) > i128::MIN)
            by (nonlinear_arith)
            requires
                i64::MIN <= l <= i64::MAX,
                i64::MIN <= w <= i64::MAX,
        ;
    }
    let p: i128 = (l as i128) * (w as i128);
    if p >= 0 {
        let q: u128 = (p as u128) / 100_000;
        if q > i64::MAX as u128 {
            i64::MAX
        } else {
            q as i64
        }
    } else {
        let q: u128 = ((-p) as u128) / 100_000;
        if q > i64::MAX as u128 {
            i64::MIN
        } else {
            -(q as i64)
        }
    }
}

// ---------------------------------------------------------------------------
// Parsing
// ---------------------------------------------------------------------------
pub open spec fn is_digit_char(c: char) -> bool {
    '0' <= c && c <= '9'
}

pub open spec fn digit_val(c: char) -> int {
    if is_digit_char(c) {
        (c as u32) - 48
    } else {
        0
    }
}

/// Where the run of decimal digits starting at `i` ends.
pub open spec fn digits_end(s: Seq<char>, i: int) -> int
    decreases s.len() - i,
{
    if i < 0 || i >= s.len() {
        i
    } else if is_digit_char(s[i]) {
        digits_end(s, i + 1)
    } else {
        i
    }
}

pub proof fn lemma_digits_end(s: Seq<char>, i: int)
    requires
        0 <= i <= s.len(),
    ensures
        i <= digits_end(s, i) <= s.len(),
        forall|j: int| i <= j < digits_end(s, i) ==> is_digit_char(s[j]),
        digits_end(s, i) < s.len() ==> !is_digit_char(s[digits_end(s, i)]),
    decreases s.len() - i,
{
    if i < s.len() && is_digit_char(s[i]) {
        lemma_digits_end(s, i + 1);
    }
}

/// The value of the digit run `s[i..j)`, read left to right.
pub open spec fn digits_val(s: Seq<char>, i: int, j: int) -> int
    decreases j - i,
{
    if j <= i {
        0
    } else {
        digits_val(s, i, j - 1) * 10 + digit_val(s[j - 1])
    }
}

/// An integer part capped at the parser's ceiling.
pub open spec fn capped(v: int) -> int {
    if v > INT_CAP as int {
        INT_CAP as int
    } else {
        v
    }
}

/// The value in thousandths of up to three fraction digits `s[i..j)`.
pub open spec fn frac3(s: Seq<char>, i: int, j: int) -> int {
    if j - i <= 0 {
        0
    } else if j - i == 1 {
        digit_val(s[i]) * 100
    } else if j - i == 2 {
        digit_val(s[i]) * 100 + digit_val(s[i + 1]) * 10
    } else {
        digit_val(s[i]) * 100 + digit_val(s[i + 1]) * 10 + digit_val(s[i + 2])
    }
}

/// Where the unsigned number starting at `i` ends: digits, then optionally
/// a point and more digits.
pub open spec fn num_end(s: Seq<char>, i: int) -> int {
    let de = digits_end(s, i);
    if de < s.len() && s[de] == '.' {
        digits_end(s, de + 1)
    } else {
        de
    }
}

/// The value, in thousandths, of the unsigned number starting at `i`.
pub open spec fn num_units(s: Seq<char>, i: int) -> int {
    let de = digits_end(s, i);
    let whole = capped(digits_val(s, i, de)) * 1000;
    if de < s.len() && s[de] == '.' {
        whole + frac3(s, de + 1, digits_end(s, de + 1))
    } else {
        whole
    }
}

proof fn lemma_cap_step(v: int, d: int)
    requires
        0 <= d <= 9,
        v >= 0,
    ensures
        capped(v * 10 + d) == (if capped(v) * 10 + d > INT_CAP as int {
            INT_CAP as int
        } else {
            capped(v) * 10 + d
        }),
{
    if v > INT_CAP as int {
        assert(v * 10 + d > INT_CAP as int && capped(v) * 10 + d > INT_CAP as int)
            by (nonlinear_arith)
            requires
                v > INT_CAP as int,
                0 <= d,
        ;
    }
}

/// Reads the digit run starting at `pos` and returns its value, capped.
pub fn read_digits(chars: &Vec<char>, pos: usize) -> (r: (u64, usize))
    requires
        pos <= chars@.len(),
    ensures
        r.1 == digits_end(chars@, pos as int),
        r.0 as int == capped(digits_val(chars@, pos as int, r.1 as int)),
        r.0 <= INT_CAP,
        pos <= r.1 <= chars@.len(),
{
    let ghost s = chars@;
    let mut i: usize = pos;
    let mut acc: u64 = 0;
    proof {
        lemma_digits_end(s, pos as int);
    }
    while i < chars.len() && '0' <= chars[i] && chars[i] <= '9'
        invariant
            pos <= i <= chars@.len(),
            chars@ == s,
            digits_end(s, pos as int) == digits_end(s, i as int),
            acc as int == capped(digits_val(s, pos as int, i as int)),
            acc <= INT_CAP,
        decreases chars@.len() - i,
    {
        let d: u64 = (chars[i] as u32 - 48) as u64;
        let ghost v = digits_val(s, pos as int, i as int);
        proof {
            lemma_digits_val_nonneg(s, pos as int, i as int);
            lemma_cap_step(v, d as int);
        }
        acc = acc * 10 + d;
        if acc > INT_CAP {
            acc = INT_CAP;
        }
        i += 1;
    }
    (acc, i)
}

pub proof fn lemma_digits_val_nonneg(s: Seq<char>, i: int, j: int)
    ensures
        digits_val(s, i, j) >= 0,
    decreases j - i,
{
    if j > i {
        lemma_digits_val_nonneg(s, i, j - 1);
        assert(digits_val(s, i, j - 1) * 10 >= 0) by (nonlinear_arith)
            requires
                digits_val(s, i, j - 1) >= 0,
        ;
        assert(digit_val(s[j - 1]) >= 0);
    }
}

/// Reads the unsigned fixed-point number starting at `pos`: its value in
/// thousandths and the position after it.
pub fn read_number(chars: &Vec<char>, pos: usize) -> (r: (i64, usize))
    requires
        pos <= chars@.len(),
    ensures
        r.1 == num_end(chars@, pos as int),
        r.0 as int == num_units(chars@, pos as int),
        pos <= r.1 <= chars@.len(),
        r.0 >= 0,
{
    let ghost s = chars@;
    let (whole, de) = read_digits(chars, pos);
    let base: i64 = (whole * 1000) as i64;
    if de < chars.len() && chars[de] == '.' {
        proof {
            lemma_digits_end(s, de as int + 1);
        }
        let (_, fe) = read_digits(chars, de + 1);
        let n = fe - (de + 1);
        let mut frac: i64 = 0;
        if n >= 1 {
            frac = frac + (chars[de + 1] as u32 as i64 - 48) * 100;
        }
        if n >= 2 {
            frac = frac + (chars[de + 2] as u32 as i64 - 48) * 10;
        }
        if n >= 3 {
            frac = frac + (chars[de + 3] as u32 as i64 - 48);
        }
        proof {
            lemma_digits_end(s, de as int + 1);
            assert(frac as int == frac3(s, de as int + 1, fe as int));
        }
        (base + frac, fe)
    } else {
        (base, de)
    }
}

/// The value, in thousandths, of a whole string that is nothing but a
/// signed fixed-point number; anything else reads as zero.
pub open spec fn str_units(t: Seq<char>) -> int {
    let d0: int = if t.len() > 0 && t[0] == '-' {
        1
    } else {
        0
    };
    if digits_end(t, d0) == d0 {
        0
    } else if num_end(t, d0) != t.len() {
        0
    } else if d0 == 1 {
        -num_units(t, d0)
    } else {
        num_units(t, d0)
    }
}

/// Parses a whole string as a signed fixed-point number, in thousandths;
/// anything else yields zero.
pub fn parse_str_units(t: &str) -> (r: i64)
    ensures
        r as int == str_units(t@),
{
    let chars = crate::util::read_chars(t);
    let ghost s = chars@;
    let neg = chars.len() > 0 && chars[0] == '-';
    let d0: usize = if neg {
        1
    } else {
        0
    };
    proof {
        lemma_digits_end(s, d0 as int);
    }
    let de = digits_end_exec(&chars, d0);
    if de == d0 {
        return 0;
    }
    let (val, ne) = read_number(&chars, d0);
    if ne != chars.len() {
        0
    } else if neg {
        -val
    } else {
        val
    }
}

/// Where the digit run starting at `pos` ends.
pub fn digits_end_exec(chars: &Vec<char>, pos: usize) -> (r: usize)
    requires
        pos <= chars@.len(),
    ensures
        r == digits_end(chars@, pos as int),
        pos <= r <= chars@.len(),
{
    let ghost s = chars@;
    let mut i: usize = pos;
    proof {
        lemma_digits_end(s, pos as int);
    }
    while i < chars.len() && '0' <= chars[i] && chars[i] <= '9'
        invariant
            pos <= i <= chars@.len(),
            chars@ == s,
            digits_end(s, pos as int) == digits_end(s, i as int),
        decreases chars@.len() - i,
    {
        i += 1;
    }
    i
}

} // verus!
