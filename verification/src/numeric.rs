//! Numbers written in diagram sources: unsigned indices, and decimal numbers as
//! `str::parse` reads them, with how they compare to the 2.5 px line thresholds.
//!
//! A decimal number is written `[+-]? (digits | digits '.' digits? | '.' digits) ([eE] [+-]? digits)?`,
//! or `inf`, `infinity`, `nan` in any case. The threshold comparisons are those of the
//! nearest double-precision value: a number is at most 2.5 once rounded exactly when
//! it is at most 2.5 + 2^-52, and at least 2.5 exactly when it is at least 2.5 - 2^-52.

use vstd::prelude::*;
use crate::text::{lowercase, lowercase_exec, lit, chars_eq};
use crate::diagram::Text;

verus! {

/// Whether `c` is an ASCII digit.
pub open spec fn is_digit(c: char) -> bool {
    '0' <= c && c <= '9'
}

/// Value of an ASCII digit.
pub open spec fn digit_value(c: char) -> nat {
    (c as u32 - '0' as u32) as nat
}

/// Index just past the run of digits of `s` that starts at `i`.
pub open spec fn digits_end(s: Text, i: int) -> int
    decreases s.len() - i,
{
    if 0 <= i < s.len() && is_digit(s[i]) {
        digits_end(s, i + 1)
    } else {
        i
    }
}

/// Value of the digits `s[i..j]`.
pub open spec fn digits_value(s: Text, i: int, j: int) -> nat
    decreases j - i,
{
    if j <= i {
        0
    } else {
        digits_value(s, i, j - 1) * 10 + digit_value(s[j - 1])
    }
}

/// Whether every character of `s[i..j]` is a digit.
pub open spec fn all_digits(s: Text, i: int, j: int) -> bool {
    forall|k: int| i <= k < j ==> is_digit(#[trigger] s[k])
}

/// `usize::from_str`: an optional `+`, then at least one digit, the value fitting.
pub open spec fn parse_index(t: Text) -> Option<usize> {
    let b: int = if t.len() > 0 && t[0] == '+' { 1 } else { 0 };
    if t.len() > b && all_digits(t, b, t.len() as int) && digits_value(t, b, t.len() as int) <= usize::MAX {
        Some(digits_value(t, b, t.len() as int) as usize)
    } else {
        None
    }
}

/// Offset of the sign-free part of a number.
pub open spec fn sign_len(u: Text) -> int {
    if u.len() > 0 && (u[0] == '+' || u[0] == '-') { 1 } else { 0 }
}

/// Layout of a finite decimal number (lower case) from its sign on: end of the
/// integer digits, end of the fraction digits, and whether a fraction point is
/// present. Meaningful when `finite_number` holds.
pub open spec fn number_parts(u: Text) -> (int, int, bool) {
    let b = sign_len(u);
    let i = digits_end(u, b);
    if i < u.len() && u[i] == '.' {
        (i, digits_end(u, i + 1), true)
    } else {
        (i, i, false)
    }
}

/// Whether an exponent `e[+-]?digits` fills `u[j..]` exactly.
pub open spec fn exponent_ok(u: Text, j: int) -> bool {
    j == u.len() || (
        u[j] == 'e' && {
            let k = if j + 1 < u.len() && (u[j + 1] == '+' || u[j + 1] == '-') { j + 2 } else { j + 1 };
            k < u.len() && digits_end(u, k) == u.len()
        }
    )
}

/// Whether the lowercased text is a finite decimal number.
pub open spec fn finite_number(u: Text) -> bool {
    let b = sign_len(u);
    let (i, j, dot) = number_parts(u);
    (i > b || (dot && j > i + 1)) && exponent_ok(u, j)
}

/// Whether `t` parses as a floating-point number.
pub open spec fn float_literal(t: Text) -> bool {
    let u = lowercase(t);
    let body = u.skip(sign_len(u));
    body == "inf"@ || body == "infinity"@ || body == "nan"@ || finite_number(u)
}

/// Whether a number starts with `-`.
pub open spec fn negative(u: Text) -> bool {
    u.len() > 0 && u[0] == '-'
}

/// Value of the exponent of a finite number (0 without one).
pub open spec fn exponent_value(u: Text) -> int {
    let j = number_parts(u).1;
    if j >= u.len() {
        0
    } else {
        let k = if j + 1 < u.len() && (u[j + 1] == '+' || u[j + 1] == '-') { j + 2 } else { j + 1 };
        let v = digits_value(u, k, u.len() as int) as int;
        if u[j + 1] == '-' { -v } else { v }
    }
}

/// Mantissa digits (integer digits then fraction digits) of a finite number.
pub open spec fn mantissa(u: Text) -> Text {
    let b = sign_len(u);
    let (i, j, dot) = number_parts(u);
    if dot { u.subrange(b, i) + u.subrange(i + 1, j) } else { u.subrange(b, i) }
}

/// Index of the first non-zero digit of `m` from `i` on.
pub open spec fn first_nonzero(m: Text, i: int) -> int
    decreases m.len() - i,
{
    if 0 <= i < m.len() && m[i] == '0' {
        first_nonzero(m, i + 1)
    } else {
        i
    }
}

/// Index just past the last non-zero digit of `m[..j]`.
pub open spec fn last_nonzero(m: Text, j: int) -> int
    decreases j,
{
    if 0 < j <= m.len() && m[j - 1] == '0' {
        last_nonzero(m, j - 1)
    } else {
        j
    }
}

/// Significant digits of the mantissa: no leading or trailing zeros (empty for zero).
pub open spec fn significant(m: Text) -> Text {
    let a = first_nonzero(m, 0);
    if a >= m.len() { seq![] } else { m.subrange(a, last_nonzero(m, m.len() as int)) }
}

/// Position of the decimal point relative to the first significant digit: the
/// value is `0.d1 d2 ... * 10^point` for the significant digits `d1 d2 ...`.
pub open spec fn point_position(u: Text) -> int {
    let m = mantissa(u);
    let (i, j, dot) = number_parts(u);
    (m.len() - first_nonzero(m, 0)) + exponent_value(u) - (j - i - (if dot { 1int } else { 0int }))
}

/// Digit-wise order of two digit strings read as fractions `0.a` and `0.b`
/// (exact for strings without trailing zeros): whether `0.a <= 0.b`.
pub open spec fn fraction_le(a: Text, b: Text) -> bool
    decreases a.len(),
{
    if a.len() == 0 {
        true
    } else if b.len() == 0 {
        false
    } else if a[0] != b[0] {
        a[0] < b[0]
    } else {
        fraction_le(a.skip(1), b.skip(1))
    }
}

/// Significant digits of 2.5 + 2^-52.
pub open spec fn upper_digits() -> Text {
    "25000000000000002220446049250313080847263336181640625"@
}

/// Significant digits of 2.5 - 2^-52.
pub open spec fn lower_digits() -> Text {
    "24999999999999997779553950749686919152736663818359375"@
}

/// Whether the number `t` is at most 2.5 once rounded to double precision.
pub open spec fn float_at_most_2_5(t: Text) -> bool {
    let u = lowercase(t);
    let body = u.skip(sign_len(u));
    if !float_literal(t) || body == "nan"@ {
        false
    } else if negative(u) {
        true
    } else if body == "inf"@ || body == "infinity"@ {
        false
    } else {
        let d = significant(mantissa(u));
        let p = point_position(u);
        d.len() == 0 || p < 1 || (p == 1 && fraction_le(d, upper_digits()))
    }
}

/// Whether the number `t` is at least 2.5 once rounded to double precision.
pub open spec fn float_at_least_2_5(t: Text) -> bool {
    let u = lowercase(t);
    let body = u.skip(sign_len(u));
    if !float_literal(t) || body == "nan"@ || negative(u) {
        false
    } else if body == "inf"@ || body == "infinity"@ {
        true
    } else {
        let d = significant(mantissa(u));
        let p = point_position(u);
        d.len() > 0 && (p > 1 || (p == 1 && fraction_le(lower_digits(), d)))
    }
}

pub proof fn lemma_digits_value_grows(s: Text, i: int, j: int, k: int)
    requires
        i <= j <= k,
    ensures
        digits_value(s, i, j) <= digits_value(s, i, k),
    decreases k - j,
{
    if j < k {
        lemma_digits_value_grows(s, i, j, k - 1);
    }
}

fn is_digit_exec(c: char) -> (r: bool)
    ensures
        r == is_digit(c),
{
    '0' <= c && c <= '9'
}

fn digit_value_exec(c: char) -> (r: u32)
    requires
        is_digit(c),
    ensures
        r == digit_value(c),
        r < 10,
{
    (c as u32) - ('0' as u32)
}

fn digits_end_exec(s: &Vec<char>, i: usize) -> (r: usize)
    requires
        i <= s@.len(),
    ensures
        r == digits_end(s@, i as int),
        i <= r <= s@.len(),
        all_digits(s@, i as int, r as int),
{
    let mut k = i;
    while k < s.len() && is_digit_exec(s[k])
        invariant
            i <= k <= s@.len(),
            digits_end(s@, i as int) == digits_end(s@, k as int),
            all_digits(s@, i as int, k as int),
        decreases s@.len() - k,
    {
        k += 1;
    }
    k
}

/// `usize::from_str`.
pub fn parse_index_exec(t: &Vec<char>) -> (r: Option<usize>)
    ensures
        r == parse_index(t@),
{
    let b: usize = if t.len() > 0 && t[0] == '+' { 1 } else { 0 };
    if t.len() <= b {
        return None;
    }
    let mut v: usize = 0;
    let mut i = b;
    while i < t.len()
        invariant
            b <= i <= t@.len(),
            b == (if t@.len() > 0 && t@[0] == '+' { 1int } else { 0int }),
            all_digits(t@, b as int, i as int),
            v == digits_value(t@, b as int, i as int),
        decreases t@.len() - i,
    {
        if !is_digit_exec(t[i]) {
            return None;
        }
        let d = digit_value_exec(t[i]);
        if v > (usize::MAX - d as usize) / 10 {
            proof {
                lemma_digits_value_grows(t@, b as int, i + 1, t@.len() as int);
            }
            return None;
        }
        v = v * 10 + d as usize;
        i += 1;
    }
    Some(v)
}

/// Sign length of a text.
fn sign_len_exec(u: &Vec<char>) -> (r: usize)
    ensures
        r == sign_len(u@),
        r <= u@.len(),
{
    if u.len() > 0 && (u[0] == '+' || u[0] == '-') { 1 } else { 0 }
}

fn number_parts_exec(u: &Vec<char>) -> (r: (usize, usize, bool))
    ensures
        (r.0 as int, r.1 as int, r.2) == number_parts(u@),
        sign_len(u@) <= r.0 <= r.1 <= u@.len(),
        all_digits(u@, sign_len(u@), r.0 as int),
        r.2 ==> r.0 < r.1 && all_digits(u@, r.0 + 1, r.1 as int) && u@[r.0 as int] == '.',
        !r.2 ==> r.0 == r.1,
{
    let b = sign_len_exec(u);
    let i = digits_end_exec(u, b);
    if i < u.len() && u[i] == '.' {
        let j = digits_end_exec(u, i + 1);
        (i, j, true)
    } else {
        (i, i, false)
    }
}

fn exponent_ok_exec(u: &Vec<char>, j: usize) -> (r: bool)
    requires
        j <= u@.len(),
    ensures
        r == exponent_ok(u@, j as int),
{
    if j == u.len() {
        return true;
    }
    if u[j] != 'e' {
        return false;
    }
    let k = if j + 1 < u.len() && (u[j + 1] == '+' || u[j + 1] == '-') { j + 2 } else { j + 1 };
    k < u.len() && digits_end_exec(u, k) == u.len()
}

fn finite_number_exec(u: &Vec<char>) -> (r: bool)
    ensures
        r == finite_number(u@),
{
    let b = sign_len_exec(u);
    let (i, j, dot) = number_parts_exec(u);
    (i > b || (dot && j > i + 1)) && exponent_ok_exec(u, j)
}

/// Whether `t` parses as a floating-point number.
pub fn float_literal_exec(t: &Vec<char>) -> (r: bool)
    ensures
        r == float_literal(t@),
{
    let u = lowercase_exec(t);
    let b = sign_len_exec(&u);
    let body = crate::text::suffix(&u, b);
    assert(body@ =~= u@.skip(sign_len(u@)));
    chars_eq(&body, &lit("inf")) || chars_eq(&body, &lit("infinity")) || chars_eq(&body, &lit("nan"))
        || finite_number_exec(&u)
}

/// Bound beyond which an exponent's exact size no longer matters.
pub open spec fn exponent_cap() -> int {
    0x400000000000000000
}

/// `x` limited to `[-cap, cap]`.
pub open spec fn clamp_cap(x: int) -> int {
    if x > exponent_cap() { exponent_cap() } else if x < -exponent_cap() { -exponent_cap() } else { x }
}

fn mantissa_exec(u: &Vec<char>) -> (r: Vec<char>)
    ensures
        r@ == mantissa(u@),
{
    let b = sign_len_exec(u);
    let (i, j, dot) = number_parts_exec(u);
    let mut m = crate::text::slice_of(u, b, i);
    if dot {
        let f = crate::text::slice_of(u, i + 1, j);
        crate::text::append_chars(&mut m, &f);
    }
    m
}

fn first_nonzero_exec(m: &Vec<char>) -> (r: usize)
    ensures
        r == first_nonzero(m@, 0),
        r <= m@.len(),
        r < m@.len() ==> m@[r as int] != '0',
{
    let mut k: usize = 0;
    while k < m.len() && m[k] == '0'
        invariant
            k <= m@.len(),
            first_nonzero(m@, 0) == first_nonzero(m@, k as int),
        decreases m@.len() - k,
    {
        k += 1;
    }
    k
}

fn last_nonzero_exec(m: &Vec<char>, lo: usize) -> (r: usize)
    requires
        lo < m@.len(),
        m@[lo as int] != '0',
    ensures
        r == last_nonzero(m@, m@.len() as int),
        lo < r <= m@.len(),
{
    let mut j = m.len();
    while j > 0 && m[j - 1] == '0'
        invariant
            lo < j <= m@.len(),
            lo < m@.len(),
            m@[lo as int] != '0',
            last_nonzero(m@, m@.len() as int) == last_nonzero(m@, j as int),
        decreases j,
    {
        j -= 1;
    }
    j
}

fn significant_exec(m: &Vec<char>) -> (r: Vec<char>)
    ensures
        r@ == significant(m@),
{
    let a = first_nonzero_exec(m);
    if a >= m.len() {
        return Vec::new();
    }
    let e = last_nonzero_exec(m, a);
    crate::text::slice_of(m, a, e)
}

pub proof fn lemma_digits_end(s: Text, i: int)
    requires
        0 <= i <= s.len(),
    ensures
        i <= digits_end(s, i) <= s.len(),
        all_digits(s, i, digits_end(s, i)),
    decreases s.len() - i,
{
    if i < s.len() && is_digit(s[i]) {
        lemma_digits_end(s, i + 1);
    }
}

/// The exponent's value, limited to `[-cap, cap]`.
fn exponent_clamped(u: &Vec<char>) -> (r: i128)
    requires
        finite_number(u@),
    ensures
        r == clamp_cap(exponent_value(u@)),
{
    let (_, j, _) = number_parts_exec(u);
    if j >= u.len() {
        return 0;
    }
    let cap: i128 = 0x400000000000000000;
    let k = if j + 1 < u.len() && (u[j + 1] == '+' || u[j + 1] == '-') { j + 2 } else { j + 1 };
    proof {
        lemma_digits_end(u@, k as int);
    }
    let neg = u[j + 1] == '-';
    let mut v: i128 = 0;
    let mut i = k;
    while i < u.len()
        invariant
            k <= i <= u@.len(),
            cap == exponent_cap(),
            all_digits(u@, k as int, u@.len() as int),
            v == (if digits_value(u@, k as int, i as int) > exponent_cap() { exponent_cap() } else { digits_value(u@, k as int, i as int) as int }),
        decreases u@.len() - i,
    {
        let c = u[i];
        assert(is_digit(u@[i as int]));
        let d = digit_value_exec(c) as i128;
        let w = v * 10 + d;
        v = if w > cap { cap } else { w };
        i += 1;
    }
    if neg { -v } else { v }
}

/// Digit-wise order of fractions `0.a <= 0.b`.
fn fraction_le_exec(a: &Vec<char>, b: &Vec<char>) -> (r: bool)
    ensures
        r == fraction_le(a@, b@),
{
    let mut i: usize = 0;
    assert(a@.skip(0) =~= a@);
    assert(b@.skip(0) =~= b@);
    while i < a.len()
        invariant
            i <= a@.len(),
            fraction_le(a@, b@) == fraction_le(a@.skip(i as int), b@.skip(i as int)),
            i <= b@.len(),
        decreases a@.len() - i,
    {
        if i >= b.len() {
            return false;
        }
        assert(a@.skip(i as int).skip(1) =~= a@.skip(i + 1));
        assert(b@.skip(i as int).skip(1) =~= b@.skip(i + 1));
        assert(a@.skip(i as int)[0] == a@[i as int]);
        assert(b@.skip(i as int)[0] == b@[i as int]);
        if a[i] != b[i] {
            return a[i] < b[i];
        }
        i += 1;
        if i > b.len() {
            return false;
        }
    }
    true
}

pub proof fn lemma_clamped_position(x: int, e: int)
    requires
        -0x10000000000000000 <= x <= 0x10000000000000000,
    ensures
        (x + e < 1) == (x + clamp_cap(e) < 1),
        (x + e == 1) == (x + clamp_cap(e) == 1),
{
}

/// Classification of a finite non-zero number against 1 <= value < 10, by its point position.
fn point_position_class(u: &Vec<char>) -> (r: i8)
    requires
        finite_number(u@),
    ensures
        r == (if point_position(u@) < 1 { -1i8 } else if point_position(u@) == 1 { 0i8 } else { 1i8 }),
{
    let m = mantissa_exec(u);
    let a = first_nonzero_exec(&m);
    let (i, j, dot) = number_parts_exec(u);
    let frac: usize = if dot { j - i - 1 } else { 0 };
    let e = exponent_clamped(u);
    let x: i128 = (m.len() - a) as i128 - frac as i128;
    proof {
        lemma_clamped_position(x as int, exponent_value(u@));
    }
    let p = x + e;
    if p < 1 {
        -1
    } else if p == 1 {
        0
    } else {
        1
    }
}

/// Whether the number `t` is at most 2.5 once rounded to double precision.
pub fn float_at_most_2_5_exec(t: &Vec<char>) -> (r: bool)
    ensures
        r == float_at_most_2_5(t@),
{
    if !float_literal_exec(t) {
        return false;
    }
    let u = lowercase_exec(t);
    let b = sign_len_exec(&u);
    let body = crate::text::suffix(&u, b);
    assert(body@ =~= u@.skip(sign_len(u@)));
    if chars_eq(&body, &lit("nan")) {
        return false;
    }
    if u.len() > 0 && u[0] == '-' {
        return true;
    }
    if chars_eq(&body, &lit("inf")) || chars_eq(&body, &lit("infinity")) {
        return false;
    }
    let m = mantissa_exec(&u);
    let d = significant_exec(&m);
    if d.len() == 0 {
        return true;
    }
    let c = point_position_class(&u);
    if c < 0 {
        true
    } else if c > 0 {
        false
    } else {
        fraction_le_exec(&d, &lit("25000000000000002220446049250313080847263336181640625"))
    }
}

/// Whether the number `t` is at least 2.5 once rounded to double precision.
pub fn float_at_least_2_5_exec(t: &Vec<char>) -> (r: bool)
    ensures
        r == float_at_least_2_5(t@),
{
    if !float_literal_exec(t) {
        return false;
    }
    let u = lowercase_exec(t);
    let b = sign_len_exec(&u);
    let body = crate::text::suffix(&u, b);
    assert(body@ =~= u@.skip(sign_len(u@)));
    if chars_eq(&body, &lit("nan")) || (u.len() > 0 && u[0] == '-') {
        return false;
    }
    if chars_eq(&body, &lit("inf")) || chars_eq(&body, &lit("infinity")) {
        return true;
    }
    let m = mantissa_exec(&u);
    let d = significant_exec(&m);
    if d.len() == 0 {
        return false;
    }
    let c = point_position_class(&u);
    if c > 0 {
        true
    } else if c < 0 {
        false
    } else {
        fraction_le_exec(&lit("24999999999999997779553950749686919152736663818359375"), &d)
    }
}

} // verus!
