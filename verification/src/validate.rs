//! Validation of typed input values against the closed set of expected-type
//! tags: integer, floating-point, boolean (case-insensitive), single
//! character, free text. Free text and unrecognized tags always validate.
//! Each check is stated as a grammar over the trimmed character sequence.

use vstd::prelude::*;

use crate::strutil::{
    chars_of, find_from, lower_char, lower_char_exec, str_eq, trim_chars, trim_spec, vec_find_from,
};

verus! {

pub open spec fn is_digit(c: char) -> bool {
    '0' <= c && c <= '9'
}

pub open spec fn digit_val(c: char) -> nat {
    ((c as int) - ('0' as int)) as nat
}

pub open spec fn all_digits(s: Seq<char>) -> bool {
    forall|k: int| 0 <= k < s.len() ==> is_digit(#[trigger] s[k])
}

/// The number denoted by a digit string, most significant digit first.
pub open spec fn digits_value(s: Seq<char>) -> nat
    decreases s.len(),
{
    if s.len() == 0 {
        0
    } else {
        digits_value(s.drop_last()) * 10 + digit_val(s.last())
    }
}

/// The sign character of a numeric literal, if any, and the rest.
pub open spec fn sign_of(s: Seq<char>) -> bool {
    s.len() > 0 && s[0] == '-'
}

pub open spec fn after_sign(s: Seq<char>) -> Seq<char> {
    if s.len() > 0 && (s[0] == '+' || s[0] == '-') {
        s.drop_first()
    } else {
        s
    }
}

/// `s`, trimmed, reads as a 32-bit signed integer: an optional sign, one or
/// more decimal digits, and a value within the type's range.
pub open spec fn valid_i32_chars(s: Seq<char>) -> bool {
    let t = trim_spec(s);
    let body = after_sign(t);
    &&& body.len() > 0
    &&& all_digits(body)
    &&& (if sign_of(t) {
        digits_value(body) <= 0x8000_0000
    } else {
        digits_value(body) <= 0x7fff_ffff
    })
}

/// Case-insensitive equality over ASCII letters.
pub open spec fn eq_ci(a: Seq<char>, b: Seq<char>) -> bool {
    a.len() == b.len() && (forall|k: int|
        0 <= k < a.len() ==> lower_char(#[trigger] a[k]) == lower_char(b[k]))
}

/// Index of the first exponent marker (`e` or `E`) at or after `i`, or
/// `s.len()`.
pub open spec fn find_exp(s: Seq<char>, i: int) -> int
    decreases s.len() - i when 0 <= i
{
    if i >= s.len() {
        s.len() as int
    } else if s[i] == 'e' || s[i] == 'E' {
        i
    } else {
        find_exp(s, i + 1)
    }
}

/// Digits with at most one decimal point and at least one digit somewhere:
/// `D+`, `D+ . D*` or `D* . D+`.
pub open spec fn valid_mantissa(m: Seq<char>) -> bool {
    let d = find_from(m, 0, '.');
    if d == m.len() {
        m.len() > 0 && all_digits(m)
    } else {
        let intpart = m.subrange(0, d);
        let fracpart = m.subrange(d + 1, m.len() as int);
        &&& all_digits(intpart)
        &&& all_digits(fracpart)
        &&& intpart.len() + fracpart.len() > 0
    }
}

/// A mantissa followed by an optional exponent `e`/`E`, an optional sign and
/// one or more digits.
pub open spec fn valid_number(b: Seq<char>) -> bool {
    let e = find_exp(b, 0);
    if e == b.len() {
        valid_mantissa(b)
    } else {
        let mant = b.subrange(0, e);
        let ex = after_sign(b.subrange(e + 1, b.len() as int));
        &&& valid_mantissa(mant)
        &&& ex.len() > 0
        &&& all_digits(ex)
    }
}

/// `s`, trimmed, reads as a floating-point literal: an optional sign followed
/// by `inf`, `infinity`, `nan` (case-insensitive) or a number with an
/// optional exponent.
pub open spec fn valid_float_chars(s: Seq<char>) -> bool {
    let t = trim_spec(s);
    let body = after_sign(t);
    ||| eq_ci(body, "inf"@)
    ||| eq_ci(body, "infinity"@)
    ||| eq_ci(body, "nan"@)
    ||| valid_number(body)
}

/// `s`, trimmed, reads `true` or `false`, case-insensitively.
pub open spec fn valid_bool_chars(s: Seq<char>) -> bool {
    eq_ci(trim_spec(s), "true"@) || eq_ci(trim_spec(s), "false"@)
}

/// `s`, trimmed, is exactly one character.
pub open spec fn valid_char_chars(s: Seq<char>) -> bool {
    trim_spec(s).len() == 1
}

pub open spec fn is_integer_tag(t: Seq<char>) -> bool {
    t == "integer"@ || t == "i32"@
}

pub open spec fn is_float_tag(t: Seq<char>) -> bool {
    t == "float"@ || t == "f64"@
}

pub open spec fn is_bool_tag(t: Seq<char>) -> bool {
    t == "boolean"@ || t == "bool"@
}

pub open spec fn is_char_tag(t: Seq<char>) -> bool {
    t == "char"@
}

/// The validation outcome: `None` for a valid value, `Some(message)` with the
/// message fixed for the expected type otherwise. Free text and unrecognized
/// tags always validate.
pub open spec fn validate_spec(value: Seq<char>, tag: Seq<char>) -> Option<Seq<char>> {
    if is_integer_tag(tag) {
        if valid_i32_chars(value) {
            None
        } else {
            Some("invalid digit found in string"@)
        }
    } else if is_float_tag(tag) {
        if valid_float_chars(value) {
            None
        } else {
            Some("invalid float literal"@)
        }
    } else if is_bool_tag(tag) {
        if valid_bool_chars(value) {
            None
        } else {
            Some("provided string was not 'true' or 'false'"@)
        }
    } else if is_char_tag(tag) {
        if valid_char_chars(value) {
            None
        } else {
            Some("input too long for character"@)
        }
    } else {
        None
    }
}

} // verus!

verus! {

/// Ten billion: above it no ten-digit accumulator can still denote an `i32`.
pub const VALUE_CAP: u64 = 10_000_000_000;

fn is_digit_exec(c: char) -> (r: bool)
    ensures
        r == is_digit(c),
{
    '0' <= c && c <= '9'
}

/// Copies `v[from..to]`.
fn copy_range(v: &Vec<char>, from: usize, to: usize) -> (r: Vec<char>)
    requires
        from <= to <= v@.len(),
    ensures
        r@ == v@.subrange(from as int, to as int),
{
    let mut r: Vec<char> = Vec::new();
    let mut i: usize = from;
    while i < to
        invariant
            from <= i <= to <= v@.len(),
            r@ == v@.subrange(from as int, i as int),
        decreases to - i,
    {
        r.push(v[i]);
        proof {
            assert(r@ =~= v@.subrange(from as int, i + 1 as int));
        }
        i = i + 1;
    }
    r
}

/// All characters of `v[from..to]` are decimal digits.
fn all_digits_range(v: &Vec<char>, from: usize, to: usize) -> (r: bool)
    requires
        from <= to <= v@.len(),
    ensures
        r == all_digits(v@.subrange(from as int, to as int)),
{
    let ghost sub = v@.subrange(from as int, to as int);
    let mut i: usize = from;
    while i < to
        invariant
            from <= i <= to <= v@.len(),
            sub == v@.subrange(from as int, to as int),
            forall|k: int| from <= k < i ==> is_digit(#[trigger] v@[k]),
        decreases to - i,
    {
        if !is_digit_exec(v[i]) {
            proof {
                assert(sub[i - from] == v@[i as int]);
            }
            return false;
        }
        i = i + 1;
    }
    proof {
        assert forall|k: int| 0 <= k < sub.len() implies is_digit(#[trigger] sub[k]) by {
            assert(sub[k] == v@[from + k]);
        }
    }
    true
}

/// Case-insensitive comparison of `a` against the slice `b`.
fn eq_ci_exec(a: &Vec<char>, b: &str) -> (r: bool)
    ensures
        r == eq_ci(a@, b@),
{
    let n = a.len();
    let m = b.unicode_len();
    if n != m {
        return false;
    }
    let mut i: usize = 0;
    while i < n
        invariant
            n == a@.len(),
            n == b@.len(),
            0 <= i <= n,
            forall|k: int| 0 <= k < i ==> lower_char(#[trigger] a@[k]) == lower_char(b@[k]),
        decreases n - i,
    {
        if lower_char_exec(a[i]) != lower_char_exec(b.get_char(i)) {
            return false;
        }
        i = i + 1;
    }
    true
}

/// Index after an optional leading sign of `v`.
fn sign_skip(v: &Vec<char>) -> (r: usize)
    ensures
        r == 0 || r == 1,
        r <= v@.len(),
        after_sign(v@) == v@.subrange(r as int, v@.len() as int),
{
    if v.len() > 0 && (v[0] == '+' || v[0] == '-') {
        proof {
            assert(v@.drop_first() =~= v@.subrange(1, v@.len() as int));
        }
        1
    } else {
        proof {
            assert(v@ =~= v@.subrange(0, v@.len() as int));
        }
        0
    }
}

/// Whether `s`, trimmed, reads as a 32-bit signed integer.
pub fn valid_i32_exec(s: &str) -> (r: bool)
    ensures
        r == valid_i32_chars(s@),
{
    let v = chars_of(s);
    let t = trim_chars(&v);
    let neg = t.len() > 0 && t[0] == '-';
    let start = sign_skip(&t);
    let n = t.len();
    let ghost body = after_sign(t@);
    if start == n {
        return false;
    }
    let mut acc: u64 = 0;
    let mut big = false;
    let mut i: usize = start;
    while i < n
        invariant
            start <= i <= n,
            n == t@.len(),
            start < n,
            t@ == trim_spec(s@),
            body == after_sign(t@),
            body == t@.subrange(start as int, n as int),
            forall|k: int| start <= k < i ==> is_digit(#[trigger] t@[k]),
            !big ==> acc == digits_value(t@.subrange(start as int, i as int)) && acc < VALUE_CAP,
            big ==> digits_value(t@.subrange(start as int, i as int)) >= VALUE_CAP,
        decreases n - i,
    {
        let c = t[i];
        if !is_digit_exec(c) {
            proof {
                assert(body[i - start] == t@[i as int]);
            }
            return false;
        }
        proof {
            let pre = t@.subrange(start as int, i as int);
            let post = t@.subrange(start as int, i + 1 as int);
            assert(post.drop_last() =~= pre);
            assert(post.last() == t@[i as int]);
            assert(digits_value(post) == digits_value(pre) * 10 + digit_val(t@[i as int]));
        }
        if !big {
            let d = c as u64 - 48;
            proof {
                assert(d == digit_val(c));
            }
            acc = acc * 10 + d;
            if acc >= VALUE_CAP {
                big = true;
            }
        }
        i = i + 1;
    }
    proof {
        assert(t@.subrange(start as int, n as int) == body);
        assert forall|k: int| 0 <= k < body.len() implies is_digit(#[trigger] body[k]) by {
            assert(body[k] == t@[start + k]);
        }
    }
    if big {
        return false;
    }
    if neg {
        acc <= 2147483648
    } else {
        acc <= 2147483647
    }
}

fn find_exp_exec(v: &Vec<char>, start: usize) -> (r: usize)
    requires
        start <= v@.len(),
    ensures
        r == find_exp(v@, start as int),
        start <= r <= v@.len(),
        r < v@.len() ==> (v@[r as int] == 'e' || v@[r as int] == 'E'),
        forall|k: int| start <= k < r ==> v@[k] != 'e' && v@[k] != 'E',
{
    let mut i: usize = start;
    while i < v.len()
        invariant
            start <= i <= v@.len(),
            forall|k: int| start <= k < i ==> v@[k] != 'e' && v@[k] != 'E',
        decreases v@.len() - i,
    {
        if v[i] == 'e' || v[i] == 'E' {
            proof {
                lemma_find_exp_is(v@, start as int, i as int);
            }
            return i;
        }
        i = i + 1;
    }
    proof {
        lemma_find_exp_is(v@, start as int, v@.len() as int);
    }
    v.len()
}

proof fn lemma_find_exp_is(s: Seq<char>, i: int, j: int)
    requires
        0 <= i <= j <= s.len(),
        forall|k: int| i <= k < j ==> s[k] != 'e' && s[k] != 'E',
        j < s.len() ==> (s[j] == 'e' || s[j] == 'E'),
    ensures
        find_exp(s, i) == j,
    decreases j - i,
{
    if i < j {
        lemma_find_exp_is(s, i + 1, j);
    }
}

/// Whether `m` is a valid mantissa: digits with at most one decimal point and
/// at least one digit.
fn valid_mantissa_exec(m: &Vec<char>) -> (r: bool)
    ensures
        r == valid_mantissa(m@),
{
    let d = vec_find_from(m, 0, '.');
    proof {
        lemma_find_from_is_bounds(m@, '.');
    }
    if d == m.len() {
        if m.len() == 0 {
            return false;
        }
        proof {
            assert(m@.subrange(0, m@.len() as int) =~= m@);
        }
        all_digits_range(m, 0, m.len())
    } else {
        let a = all_digits_range(m, 0, d);
        if !a {
            return false;
        }
        let b = all_digits_range(m, d + 1, m.len());
        if !b {
            return false;
        }
        d > 0 || d + 1 < m.len()
    }
}

proof fn lemma_find_from_is_bounds(s: Seq<char>, ch: char)
    ensures
        0 <= find_from(s, 0, ch) <= s.len(),
{
    crate::strutil::lemma_find_from(s, 0, ch);
}

/// Whether `s`, trimmed, reads as a floating-point literal.
pub fn valid_float_exec(s: &str) -> (r: bool)
    ensures
        r == valid_float_chars(s@),
{
    let v = chars_of(s);
    let t = trim_chars(&v);
    let start = sign_skip(&t);
    let body = copy_range(&t, start, t.len());
    if eq_ci_exec(&body, "inf") || eq_ci_exec(&body, "infinity") || eq_ci_exec(&body, "nan") {
        return true;
    }
    let e = find_exp_exec(&body, 0);
    if e == body.len() {
        proof {
            assert(body@.subrange(0, body@.len() as int) =~= body@);
        }
        let mant = copy_range(&body, 0, e);
        proof {
            assert(mant@ =~= body@);
        }
        valid_mantissa_exec(&mant)
    } else {
        let mant = copy_range(&body, 0, e);
        if !valid_mantissa_exec(&mant) {
            return false;
        }
        let expart = copy_range(&body, e + 1, body.len());
        let exstart = sign_skip(&expart);
        if exstart == expart.len() {
            return false;
        }
        proof {
            assert(after_sign(expart@) =~= expart@.subrange(
                exstart as int,
                expart@.len() as int,
            ));
        }
        all_digits_range(&expart, exstart, expart.len())
    }
}

/// Whether `s`, trimmed, reads `true` or `false`, case-insensitively.
pub fn valid_bool_exec(s: &str) -> (r: bool)
    ensures
        r == valid_bool_chars(s@),
{
    let v = chars_of(s);
    let t = trim_chars(&v);
    eq_ci_exec(&t, "true") || eq_ci_exec(&t, "false")
}

/// Whether `s`, trimmed, is exactly one character.
pub fn valid_char_exec(s: &str) -> (r: bool)
    ensures
        r == valid_char_chars(s@),
{
    let v = chars_of(s);
    let t = trim_chars(&v);
    t.len() == 1
}

/// Validates `value` against the expected-type tag: `Ok(())` when the value
/// parses as that type, `Err` with the type-specific message otherwise. Free
/// text and unrecognized tags always validate.
pub fn validate_input_rust(value: &str, expected_type: &str) -> (r: Result<(), String>)
    ensures
        match r {
            Ok(_) => validate_spec(value@, expected_type@) is None,
            Err(m) => validate_spec(value@, expected_type@) == Some(m@),
        },
{
    if str_eq(expected_type, "integer") || str_eq(expected_type, "i32") {
        if valid_i32_exec(value) {
            Ok(())
        } else {
            Err("invalid digit found in string".to_owned())
        }
    } else if str_eq(expected_type, "float") || str_eq(expected_type, "f64") {
        if valid_float_exec(value) {
            Ok(())
        } else {
            Err("invalid float literal".to_owned())
        }
    } else if str_eq(expected_type, "boolean") || str_eq(expected_type, "bool") {
        if valid_bool_exec(value) {
            Ok(())
        } else {
            Err("provided string was not 'true' or 'false'".to_owned())
        }
    } else if str_eq(expected_type, "char") {
        if valid_char_exec(value) {
            Ok(())
        } else {
            Err("input too long for character".to_owned())
        }
    } else {
        Ok(())
    }
}

} // verus!
