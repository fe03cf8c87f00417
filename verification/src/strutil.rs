//! Small verified building blocks over character sequences: searching,
//! comparison, trimming, prefix tests and decimal rendering of counters.

use vstd::prelude::*;

verus! {

/// Index of the first occurrence of `ch` in `s` at or after `i`, or `s.len()`
/// if there is none.
pub open spec fn find_from(s: Seq<char>, i: int, ch: char) -> int
    decreases s.len() - i when 0 <= i
{
    if i >= s.len() {
        s.len() as int
    } else if s[i] == ch {
        i
    } else {
        find_from(s, i + 1, ch)
    }
}

pub proof fn lemma_find_from(s: Seq<char>, i: int, ch: char)
    requires
        0 <= i <= s.len(),
    ensures
        i <= find_from(s, i, ch) <= s.len(),
        find_from(s, i, ch) < s.len() ==> s[find_from(s, i, ch)] == ch,
        forall|k: int| i <= k < find_from(s, i, ch) ==> s[k] != ch,
    decreases s.len() - i,
{
    if i < s.len() && s[i] != ch {
        lemma_find_from(s, i + 1, ch);
    }
}

/// If no `ch` stands in `[i, j)` and `j` is either the end or holds `ch`,
/// then `j` is the first occurrence at or after `i`.
pub proof fn lemma_find_from_is(s: Seq<char>, i: int, j: int, ch: char)
    requires
        0 <= i <= j <= s.len(),
        forall|k: int| i <= k < j ==> s[k] != ch,
        j < s.len() ==> s[j] == ch,
    ensures
        find_from(s, i, ch) == j,
    decreases j - i,
{
    if i < j {
        lemma_find_from_is(s, i + 1, j, ch);
    }
}

/// First occurrence of `ch` in `v` at or after `start`, or `v.len()`.
pub fn vec_find_from(v: &Vec<char>, start: usize, ch: char) -> (r: usize)
    requires
        start <= v@.len(),
    ensures
        r == find_from(v@, start as int, ch),
{
    let mut i: usize = start;
    while i < v.len()
        invariant
            start <= i <= v@.len(),
            forall|k: int| start <= k < i ==> v@[k] != ch,
        decreases v@.len() - i,
    {
        if v[i] == ch {
            proof {
                lemma_find_from_is(v@, start as int, i as int, ch);
            }
            return i;
        }
        i = i + 1;
    }
    proof {
        lemma_find_from_is(v@, start as int, v@.len() as int, ch);
    }
    v.len()
}

/// Character-wise equality of two string slices.
pub fn str_eq(a: &str, b: &str) -> (r: bool)
    ensures
        r == (a@ == b@),
{
    let na = a.unicode_len();
    let nb = b.unicode_len();
    if na != nb {
        return false;
    }
    let mut i: usize = 0;
    while i < na
        invariant
            na == a@.len(),
            na == b@.len(),
            0 <= i <= na,
            forall|k: int| 0 <= k < i ==> a@[k] == b@[k],
        decreases na - i,
    {
        if a.get_char(i) != b.get_char(i) {
            return false;
        }
        i = i + 1;
    }
    proof {
        assert(a@ =~= b@);
    }
    true
}

/// The characters of `s`, one vector element per character.
pub fn chars_of(s: &str) -> (v: Vec<char>)
    ensures
        v@ == s@,
{
    let n = s.unicode_len();
    let mut v: Vec<char> = Vec::new();
    let mut i: usize = 0;
    while i < n
        invariant
            n == s@.len(),
            0 <= i <= n,
            v@ == s@.subrange(0, i as int),
        decreases n - i,
    {
        let c = s.get_char(i);
        v.push(c);
        proof {
            assert(v@ =~= s@.subrange(0, i + 1 as int));
        }
        i = i + 1;
    }
    proof {
        assert(v@ =~= s@);
    }
    v
}

/// Relies on `String::push`: appends exactly the one character `c` to the
/// end of the string.
#[verifier::external_body]
pub fn push_char(s: &mut String, c: char)
    ensures
        final(s)@ == old(s)@ + seq![c],
{
    s.push(c);
}

/// A `String` holding exactly the characters of `v`.
pub fn string_from_chars(v: &[char]) -> (s: String)
    ensures
        s@ == v@,
{
    let mut s = String::new();
    let mut i: usize = 0;
    while i < v.len()
        invariant
            0 <= i <= v@.len(),
            s@ == v@.subrange(0, i as int),
        decreases v@.len() - i,
    {
        push_char(&mut s, v[i]);
        proof {
            assert(s@ =~= v@.subrange(0, i + 1 as int));
        }
        i = i + 1;
    }
    proof {
        assert(s@ =~= v@);
    }
    s
}

} // verus!

verus! {

/// The digit character for `d` (`0 <= d <= 9`).
pub open spec fn digit_char(d: nat) -> char {
    if d == 0 {
        '0'
    } else if d == 1 {
        '1'
    } else if d == 2 {
        '2'
    } else if d == 3 {
        '3'
    } else if d == 4 {
        '4'
    } else if d == 5 {
        '5'
    } else if d == 6 {
        '6'
    } else if d == 7 {
        '7'
    } else if d == 8 {
        '8'
    } else {
        '9'
    }
}

/// Decimal digits of `n`, most significant first, no leading zeros
/// (a single `'0'` for zero).
pub open spec fn dec_digits(n: nat) -> Seq<char>
    decreases n,
{
    if n < 10 {
        seq![digit_char(n)]
    } else {
        dec_digits(n / 10) + seq![digit_char(n % 10)]
    }
}

pub proof fn lemma_dec_digits_len(n: nat)
    ensures
        dec_digits(n).len() >= 1,
        n >= 10 ==> dec_digits(n).len() >= 2,
    decreases n,
{
    if n >= 10 {
        lemma_dec_digits_len(n / 10);
    }
}

/// Two distinct counters render to two distinct digit strings.
pub proof fn lemma_dec_digits_injective(a: nat, b: nat)
    requires
        dec_digits(a) == dec_digits(b),
    ensures
        a == b,
    decreases a,
{
    lemma_dec_digits_len(a);
    lemma_dec_digits_len(b);
    if a < 10 && b < 10 {
        assert(dec_digits(a)[0] == digit_char(a));
        assert(dec_digits(b)[0] == digit_char(b));
    } else if a < 10 {
        assert(dec_digits(b).len() >= 2);
    } else if b < 10 {
        assert(dec_digits(a).len() >= 2);
    } else {
        let da = dec_digits(a / 10);
        let db = dec_digits(b / 10);
        assert(dec_digits(a).last() == digit_char(a % 10));
        assert(dec_digits(b).last() == digit_char(b % 10));
        assert(a % 10 == b % 10);
        assert(dec_digits(a).drop_last() =~= da);
        assert(dec_digits(b).drop_last() =~= db);
        lemma_dec_digits_injective(a / 10, b / 10);
    }
}

/// The decimal digit characters of `n`, most significant first.
pub fn usize_to_dec_chars(n: usize) -> (v: Vec<char>)
    ensures
        v@ == dec_digits(n as nat),
{
    let mut v: Vec<char> = Vec::new();
    let mut m: usize = n;
    while m >= 10
        invariant
            dec_digits(n as nat) == dec_digits(m as nat) + v@,
        decreases m,
    {
        let d = m % 10;
        let c = digit_char_exec(d);
        v.insert(0, c);
        proof {
            assert(dec_digits(n as nat) =~= dec_digits((m / 10) as nat) + v@);
        }
        m = m / 10;
    }
    let c = digit_char_exec(m);
    v.insert(0, c);
    proof {
        assert(dec_digits(m as nat) =~= seq![digit_char(m as nat)]);
        assert(v@ =~= dec_digits(n as nat));
    }
    v
}

/// The digit character for `d`.
pub fn digit_char_exec(d: usize) -> (c: char)
    requires
        d <= 9,
    ensures
        c == digit_char(d as nat),
{
    if d == 0 {
        '0'
    } else if d == 1 {
        '1'
    } else if d == 2 {
        '2'
    } else if d == 3 {
        '3'
    } else if d == 4 {
        '4'
    } else if d == 5 {
        '5'
    } else if d == 6 {
        '6'
    } else if d == 7 {
        '7'
    } else if d == 8 {
        '8'
    } else {
        '9'
    }
}

/// `p` is an initial segment of `s`.
pub open spec fn is_prefix(p: Seq<char>, s: Seq<char>) -> bool {
    p.len() <= s.len() && p == s.subrange(0, p.len() as int)
}

pub proof fn lemma_prefix_extend(p: Seq<char>, s: Seq<char>, t: Seq<char>)
    requires
        is_prefix(p, s),
    ensures
        is_prefix(p, s + t),
{
    assert(p =~= (s + t).subrange(0, p.len() as int));
}

/// `sub` occurs somewhere in `s`.
pub open spec fn has_sub(s: Seq<char>, sub: Seq<char>) -> bool {
    exists|i: int|
        0 <= i && i + sub.len() <= s.len() && #[trigger] s.subrange(i, i + sub.len() as int)
            == sub
}

/// Whether `sub` occurs as a contiguous run of characters in `s`.
pub fn contains_sub(s: &str, sub: &str) -> (r: bool)
    ensures
        r == has_sub(s@, sub@),
{
    let n = s.unicode_len();
    let m = sub.unicode_len();
    if m > n {
        proof {
            assert(!has_sub(s@, sub@));
        }
        return false;
    }
    if m == 0 {
        proof {
            assert(s@.subrange(0, 0 + sub@.len() as int) =~= sub@);
        }
        return true;
    }
    let mut i: usize = 0;
    while i <= n - m
        invariant
            n == s@.len(),
            m == sub@.len(),
            0 < m <= n,
            0 <= i <= n - m + 1,
            forall|k: int| 0 <= k < i ==> #[trigger] s@.subrange(k, k + m as int) != sub@,
        decreases n - i,
    {
        let mut j: usize = 0;
        let mut matched = true;
        while j < m
            invariant
                n == s@.len(),
                m == sub@.len(),
                0 <= i <= n - m,
                0 <= j <= m,
                matched ==> forall|k: int| 0 <= k < j ==> s@[i + k] == sub@[k],
                !matched ==> s@.subrange(i as int, i + m as int) != sub@,
            decreases m - j,
        {
            if matched {
                if s.get_char(i + j) != sub.get_char(j) {
                    proof {
                        assert(s@.subrange(i as int, i + m as int)[j as int] == s@[i + j]);
                    }
                    matched = false;
                }
            }
            j = j + 1;
        }
        if matched {
            proof {
                assert(s@.subrange(i as int, i + m as int) =~= sub@);
            }
            return true;
        }
        i = i + 1;
    }
    proof {
        assert forall|k: int| 0 <= k && k + sub@.len() <= s@.len() implies #[trigger] s@.subrange(
            k,
            k + sub@.len() as int,
        ) != sub@ by {
            assert(k < i);
        }
    }
    false
}

/// Whitespace for the purpose of trimming user input: the ASCII space and
/// control whitespace characters.
pub open spec fn is_space(c: char) -> bool {
    c == ' ' || c == '\t' || c == '\n' || c == '\r' || c == '\u{0b}' || c == '\u{0c}'
}

pub fn is_space_exec(c: char) -> (r: bool)
    ensures
        r == is_space(c),
{
    c == ' ' || c == '\t' || c == '\n' || c == '\r' || c == '\u{0b}' || c == '\u{0c}'
}

/// Index of the first non-space character at or after `i`, or `s.len()`.
pub open spec fn skip_spaces(s: Seq<char>, i: int) -> int
    decreases s.len() - i when 0 <= i
{
    if i >= s.len() {
        s.len() as int
    } else if is_space(s[i]) {
        skip_spaces(s, i + 1)
    } else {
        i
    }
}

pub proof fn lemma_skip_spaces(s: Seq<char>, i: int)
    requires
        0 <= i <= s.len(),
    ensures
        i <= skip_spaces(s, i) <= s.len(),
        skip_spaces(s, i) < s.len() ==> !is_space(s[skip_spaces(s, i)]),
        forall|k: int| i <= k < skip_spaces(s, i) ==> is_space(s[k]),
    decreases s.len() - i,
{
    if i < s.len() && is_space(s[i]) {
        lemma_skip_spaces(s, i + 1);
    }
}

/// One past the last non-space character strictly before `i`, or `0`.
pub open spec fn rskip_spaces(s: Seq<char>, i: int) -> int
    decreases i when i <= s.len()
{
    if i <= 0 {
        0
    } else if is_space(s[i - 1]) {
        rskip_spaces(s, i - 1)
    } else {
        i
    }
}

pub proof fn lemma_rskip_spaces(s: Seq<char>, i: int)
    requires
        0 <= i <= s.len(),
    ensures
        0 <= rskip_spaces(s, i) <= i,
        rskip_spaces(s, i) > 0 ==> !is_space(s[rskip_spaces(s, i) - 1]),
        forall|k: int| rskip_spaces(s, i) <= k < i ==> is_space(s[k]),
    decreases i,
{
    if i > 0 && is_space(s[i - 1]) {
        lemma_rskip_spaces(s, i - 1);
    }
}

/// `s` with leading and trailing whitespace removed.
pub open spec fn trim_spec(s: Seq<char>) -> Seq<char> {
    let a = skip_spaces(s, 0);
    let b = rskip_spaces(s, s.len() as int);
    if a >= b {
        Seq::empty()
    } else {
        s.subrange(a, b)
    }
}

/// The characters of `v` with leading and trailing whitespace removed.
pub fn trim_chars(v: &Vec<char>) -> (r: Vec<char>)
    ensures
        r@ == trim_spec(v@),
{
    let n = v.len();
    let mut a: usize = 0;
    while a < n && is_space_exec(v[a])
        invariant
            n == v@.len(),
            0 <= a <= n,
            forall|k: int| 0 <= k < a ==> is_space(v@[k]),
        decreases n - a,
    {
        a = a + 1;
    }
    proof {
        lemma_skip_spaces_is(v@, 0, a as int);
    }
    let mut b: usize = n;
    while b > a && is_space_exec(v[b - 1])
        invariant
            n == v@.len(),
            a <= b <= n,
            forall|k: int| b <= k < n ==> is_space(v@[k]),
        decreases b,
    {
        b = b - 1;
    }
    let mut r: Vec<char> = Vec::new();
    let mut i: usize = a;
    while i < b
        invariant
            n == v@.len(),
            a <= i <= b <= n,
            r@ == v@.subrange(a as int, i as int),
        decreases b - i,
    {
        r.push(v[i]);
        proof {
            assert(r@ =~= v@.subrange(a as int, i + 1 as int));
        }
        i = i + 1;
    }
    proof {
        if b == a {
            // the right scan only reaches `a` when the whole vector is spaces
            assert(a == n);
            lemma_rskip_spaces_is(v@, n as int, 0);
            assert(r@ =~= trim_spec(v@));
        } else {
            assert(!is_space(v@[b - 1]));
            lemma_rskip_spaces_is(v@, n as int, b as int);
            assert(r@ =~= trim_spec(v@));
        }
    }
    r
}

proof fn lemma_skip_spaces_is(s: Seq<char>, i: int, j: int)
    requires
        0 <= i <= j <= s.len(),
        forall|k: int| i <= k < j ==> is_space(s[k]),
        j < s.len() ==> !is_space(s[j]),
    ensures
        skip_spaces(s, i) == j,
    decreases j - i,
{
    if i < j {
        lemma_skip_spaces_is(s, i + 1, j);
    }
}

proof fn lemma_rskip_spaces_is(s: Seq<char>, i: int, j: int)
    requires
        0 <= j <= i <= s.len(),
        forall|k: int| j <= k < i ==> is_space(s[k]),
        j > 0 ==> !is_space(s[j - 1]),
    ensures
        rskip_spaces(s, i) == j,
    decreases i - j,
{
    if i > j {
        lemma_rskip_spaces_is(s, i - 1, j);
    }
}

/// ASCII lower-casing of one character; other characters are untouched.
pub open spec fn lower_char(c: char) -> char {
    if 'A' <= c && c <= 'Z' {
        ((c as u8) + 32) as char
    } else {
        c
    }
}

pub fn lower_char_exec(c: char) -> (r: char)
    ensures
        r == lower_char(c),
{
    if 'A' <= c && c <= 'Z' {
        ((c as u8) + 32) as char
    } else {
        c
    }
}

} // verus!

verus! {

/// The bounds of `find_from`, available wherever a `find_from` term appears.
pub broadcast proof fn lemma_find_from_auto(s: Seq<char>, i: int, ch: char)
    requires
        0 <= i <= s.len(),
    ensures
        i <= #[trigger] find_from(s, i, ch) <= s.len(),
        find_from(s, i, ch) < s.len() ==> s[find_from(s, i, ch)] == ch,
        forall|k: int| i <= k < find_from(s, i, ch) ==> s[k] != ch,
{
    lemma_find_from(s, i, ch);
}

/// Whether `ch` occurs in `v`.
pub fn contains_char(v: &Vec<char>, ch: char) -> (r: bool)
    ensures
        r == v@.contains(ch),
{
    let f = vec_find_from(v, 0, ch);
    proof {
        lemma_find_from(v@, 0, ch);
        if f < v@.len() {
            assert(v@[f as int] == ch);
        } else {
            if v@.contains(ch) {
                let w = choose|w: int| 0 <= w < v@.len() && v@[w] == ch;
                assert(v@[w] != ch);
            }
        }
    }
    f < v.len()
}

} // verus!

verus! {

pub proof fn lemma_prefix_trans(a: Seq<char>, b: Seq<char>, c: Seq<char>)
    requires
        is_prefix(a, b),
        is_prefix(b, c),
    ensures
        is_prefix(a, c),
{
    assert(a =~= c.subrange(0, a.len() as int));
}

pub proof fn lemma_prefix_refl(a: Seq<char>)
    ensures
        is_prefix(a, a),
{
    assert(a =~= a.subrange(0, a.len() as int));
}

} // verus!
