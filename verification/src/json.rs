//! The wire codec for the polling and submission endpoints: building the
//! state and validation replies, and reading the submission bodies. A body is
//! a flat object of string fields — `{"id": ..., "value": ...}` — with the
//! usual string escapes; `\uXXXX` escapes and non-string values are rejected,
//! and a rejected body is treated as malformed by the gateway.

use vstd::prelude::*;

use crate::strutil::{str_eq, string_from_chars};

verus! {

/// The lower-case hex digit for `d` (`0 <= d <= 15`).
pub open spec fn hex_digit(d: nat) -> char {
    if d == 0 {
        '0'
    } else if d == 1 {
        '1'
    } else if d == 2 {
        '2'
    } else if d == 3 {
        '3'
    } else if d == 4 {
        '4'
    } else if d == 5 {
        '5'
    } else if d == 6 {
        '6'
    } else if d == 7 {
        '7'
    } else if d == 8 {
        '8'
    } else if d == 9 {
        '9'
    } else if d == 10 {
        'a'
    } else if d == 11 {
        'b'
    } else if d == 12 {
        'c'
    } else if d == 13 {
        'd'
    } else if d == 14 {
        'e'
    } else {
        'f'
    }
}

/// How one character appears inside a JSON string literal.
pub open spec fn escape_char(c: char) -> Seq<char> {
    if c == '"' {
        seq!['\\', '"']
    } else if c == '\\' {
        seq!['\\', '\\']
    } else if c == '\n' {
        seq!['\\', 'n']
    } else if c == '\r' {
        seq!['\\', 'r']
    } else if c == '\t' {
        seq!['\\', 't']
    } else if (c as int) < 0x20 {
        seq!['\\', 'u', '0', '0', hex_digit(((c as int) / 16) as nat), hex_digit(
            ((c as int) % 16) as nat,
        )]
    } else {
        seq![c]
    }
}

/// The escaped form of `s[i..]`.
pub open spec fn json_escape_from(s: Seq<char>, i: int) -> Seq<char>
    decreases s.len() - i when 0 <= i
{
    if i >= s.len() {
        Seq::empty()
    } else {
        escape_char(s[i]) + json_escape_from(s, i + 1)
    }
}

/// A JSON string literal for `s`.
pub open spec fn json_string(s: Seq<char>) -> Seq<char> {
    seq!['"'] + json_escape_from(s, 0) + seq!['"']
}

/// The comma-separated literals for `items[i..]`.
pub open spec fn json_string_array_items(items: Seq<Seq<char>>, i: int) -> Seq<char>
    decreases items.len() - i when 0 <= i
{
    if i >= items.len() {
        Seq::empty()
    } else if i == items.len() - 1 {
        json_string(items[i])
    } else {
        json_string(items[i]) + seq![','] + json_string_array_items(items, i + 1)
    }
}

/// A JSON array of string literals.
pub open spec fn json_string_array(items: Seq<Seq<char>>) -> Seq<char> {
    seq!['['] + json_string_array_items(items, 0) + seq![']']
}

/// The polling reply: the transcript, the outstanding request ids and the
/// finished flag.
pub open spec fn state_json(output: Seq<Seq<char>>, ids: Seq<Seq<char>>, finished: bool) -> Seq<
    char,
> {
    "{\"output\":"@ + json_string_array(output) + ",\"pending_inputs\":"@ + json_string_array(ids)
        + ",\"program_finished\":"@ + (if finished {
        "true"@
    } else {
        "false"@
    }) + "}"@
}

/// The validation reply for a valid value.
pub open spec fn validate_ok_json() -> Seq<char> {
    "{\"valid\":true}"@
}

/// The validation reply carrying an error message.
pub open spec fn validate_err_json(msg: Seq<char>) -> Seq<char> {
    "{\"valid\":false,\"error\":"@ + json_string(msg) + "}"@
}

// ------------------------------------------------------------------
// Reading a submission body.
// ------------------------------------------------------------------

pub open spec fn is_json_ws(c: char) -> bool {
    c == ' ' || c == '\t' || c == '\n' || c == '\r'
}

/// Index of the first non-whitespace character at or after `i`, or `s.len()`.
pub open spec fn skip_jws(s: Seq<char>, i: int) -> int
    decreases s.len() - i when 0 <= i
{
    if i >= s.len() {
        s.len() as int
    } else if is_json_ws(s[i]) {
        skip_jws(s, i + 1)
    } else {
        i
    }
}

pub broadcast proof fn lemma_skip_jws_auto(s: Seq<char>, i: int)
    requires
        0 <= i <= s.len(),
    ensures
        i <= #[trigger] skip_jws(s, i) <= s.len(),
        skip_jws(s, i) < s.len() ==> !is_json_ws(s[skip_jws(s, i)]),
        forall|k: int| i <= k < skip_jws(s, i) ==> is_json_ws(s[k]),
    decreases s.len() - i,
{
    if i < s.len() && is_json_ws(s[i]) {
        lemma_skip_jws_auto(s, i + 1);
    }
}

/// The character denoted by a one-letter escape; `\uXXXX` escapes are not
/// accepted.
pub open spec fn unescape_code(c: char) -> Option<char> {
    if c == '"' {
        Some('"')
    } else if c == '\\' {
        Some('\\')
    } else if c == '/' {
        Some('/')
    } else if c == 'n' {
        Some('\n')
    } else if c == 't' {
        Some('\t')
    } else if c == 'r' {
        Some('\r')
    } else if c == 'b' {
        Some('\u{8}')
    } else if c == 'f' {
        Some('\u{c}')
    } else {
        None
    }
}

/// The content of a string literal read from just after the opening quote:
/// the unescaped characters and the index just past the closing quote.
pub open spec fn parse_jchars(s: Seq<char>, i: int) -> Option<(Seq<char>, int)>
    decreases s.len() - i when 0 <= i
{
    if i >= s.len() {
        None
    } else if s[i] == '"' {
        Some((Seq::empty(), i + 1))
    } else if s[i] == '\\' {
        if i + 1 >= s.len() {
            None
        } else {
            match unescape_code(s[i + 1]) {
                Some(ec) => match parse_jchars(s, i + 2) {
                    Some(p) => Some((seq![ec] + p.0, p.1)),
                    None => None,
                },
                None => None,
            }
        }
    } else {
        match parse_jchars(s, i + 1) {
            Some(p) => Some((seq![s[i]] + p.0, p.1)),
            None => None,
        }
    }
}

pub broadcast proof fn lemma_parse_jchars_auto(s: Seq<char>, i: int)
    requires
        0 <= i <= s.len(),
    ensures
        (#[trigger] parse_jchars(s, i)) matches Some(p) ==> i < p.1 <= s.len(),
    decreases s.len() - i,
{
    if i < s.len() && s[i] != '"' {
        if s[i] == '\\' {
            if i + 1 < s.len() {
                lemma_parse_jchars_auto(s, i + 2);
            }
        } else {
            lemma_parse_jchars_auto(s, i + 1);
        }
    }
}

/// A string literal starting at `i` (the opening quote expected there).
pub open spec fn parse_jstring(s: Seq<char>, i: int) -> Option<(Seq<char>, int)> {
    if 0 <= i && i < s.len() && s[i] == '"' {
        parse_jchars(s, i + 1)
    } else {
        None
    }
}

pub broadcast proof fn lemma_parse_jstring_auto(s: Seq<char>, i: int)
    ensures
        (#[trigger] parse_jstring(s, i)) matches Some(p) ==> i < p.1 <= s.len(),
{
    if 0 <= i && i < s.len() && s[i] == '"' {
        lemma_parse_jchars_auto(s, i + 1);
    }
}

/// One `"key": "value"` member starting at `i` (the key's quote expected
/// there): the pair and the index just past the value.
pub open spec fn parse_pair(s: Seq<char>, i: int) -> Option<((Seq<char>, Seq<char>), int)> {
    match parse_jstring(s, i) {
        Some(k) => {
            let c = skip_jws(s, k.1);
            if c < s.len() && s[c] == ':' {
                let v0 = skip_jws(s, c + 1);
                match parse_jstring(s, v0) {
                    Some(v) => Some(((k.0, v.0), v.1)),
                    None => None,
                }
            } else {
                None
            }
        },
        None => None,
    }
}

pub broadcast proof fn lemma_parse_pair_auto(s: Seq<char>, i: int)
    requires
        0 <= i <= s.len(),
    ensures
        (#[trigger] parse_pair(s, i)) matches Some(p) ==> i < p.1 <= s.len(),
{
    lemma_parse_jstring_auto(s, i);
    match parse_jstring(s, i) {
        Some(k) => {
            lemma_skip_jws_auto(s, k.1);
            let c = skip_jws(s, k.1);
            if c < s.len() && s[c] == ':' {
                lemma_skip_jws_auto(s, c + 1);
                let v0 = skip_jws(s, c + 1);
                lemma_parse_jstring_auto(s, v0);
            }
        },
        None => {},
    }
}

/// The members after the first one: each a comma and a pair, ending at the
/// closing brace. Returns the pairs and the index just past the brace.
pub open spec fn parse_members_rest(s: Seq<char>, i: int) -> Option<
    (Seq<(Seq<char>, Seq<char>)>, int),
>
    decreases s.len() - i when 0 <= i <= s.len() via parse_members_rest_decreases
{
    let j = skip_jws(s, i);
    if j < s.len() && s[j] == '}' {
        Some((Seq::empty(), j + 1))
    } else if j < s.len() && s[j] == ',' {
        let k = skip_jws(s, j + 1);
        match parse_pair(s, k) {
            Some(p) => match parse_members_rest(s, p.1) {
                Some(rest) => Some((seq![p.0] + rest.0, rest.1)),
                None => None,
            },
            None => None,
        }
    } else {
        None
    }
}

#[via_fn]
proof fn parse_members_rest_decreases(s: Seq<char>, i: int) {
    lemma_skip_jws_auto(s, i);
    let j = skip_jws(s, i);
    if j < s.len() && s[j] == ',' {
        lemma_skip_jws_auto(s, j + 1);
        let k = skip_jws(s, j + 1);
        lemma_parse_pair_auto(s, k);
    }
}

/// The whole body: a flat object of string fields with surrounding
/// whitespace and nothing after it, or nothing for a malformed body.
pub open spec fn parse_object(s: Seq<char>) -> Option<Seq<(Seq<char>, Seq<char>)>> {
    let i = skip_jws(s, 0);
    if i < s.len() && s[i] == '{' {
        let j = skip_jws(s, i + 1);
        if j < s.len() && s[j] == '}' {
            if skip_jws(s, j + 1) == s.len() {
                Some(Seq::empty())
            } else {
                None
            }
        } else {
            match parse_pair(s, j) {
                Some(p) => match parse_members_rest(s, p.1) {
                    Some(rest) => if skip_jws(s, rest.1) == s.len() {
                        Some(seq![p.0] + rest.0)
                    } else {
                        None
                    },
                    None => None,
                },
                None => None,
            }
        }
    } else {
        None
    }
}

/// The value under `key`, the last occurrence winning, as a map built by
/// repeated insertion would have it.
pub open spec fn lookup_field(pairs: Seq<(Seq<char>, Seq<char>)>, key: Seq<char>) -> Option<
    Seq<char>,
>
    decreases pairs.len(),
{
    if pairs.len() == 0 {
        None
    } else if pairs.last().0 == key {
        Some(pairs.last().1)
    } else {
        lookup_field(pairs.drop_last(), key)
    }
}

/// The `id` and `value` fields of a submission body, if the body is a
/// well-formed flat object carrying both.
pub open spec fn body_id_value(s: Seq<char>) -> Option<(Seq<char>, Seq<char>)> {
    match parse_object(s) {
        Some(pairs) => match (lookup_field(pairs, "id"@), lookup_field(pairs, "value"@)) {
            (Some(id), Some(v)) => Some((id, v)),
            _ => None,
        },
        None => None,
    }
}

} // verus!

verus! {

fn hex_digit_exec(d: u32) -> (c: char)
    requires
        d <= 15,
    ensures
        c == hex_digit(d as nat),
{
    if d == 0 {
        '0'
    } else if d == 1 {
        '1'
    } else if d == 2 {
        '2'
    } else if d == 3 {
        '3'
    } else if d == 4 {
        '4'
    } else if d == 5 {
        '5'
    } else if d == 6 {
        '6'
    } else if d == 7 {
        '7'
    } else if d == 8 {
        '8'
    } else if d == 9 {
        '9'
    } else if d == 10 {
        'a'
    } else if d == 11 {
        'b'
    } else if d == 12 {
        'c'
    } else if d == 13 {
        'd'
    } else if d == 14 {
        'e'
    } else {
        'f'
    }
}

/// Appends the escaped form of one character.
fn push_escaped(out: &mut Vec<char>, c: char)
    ensures
        final (out)@ == old(out)@ + escape_char(c),
{
    let ghost pre = old(out)@;
    if c == '"' {
        out.push('\\');
        out.push('"');
        proof {
            assert(out@ =~= pre + escape_char(c));
        }
    } else if c == '\\' {
        out.push('\\');
        out.push('\\');
        proof {
            assert(out@ =~= pre + escape_char(c));
        }
    } else if c == '\n' {
        out.push('\\');
        out.push('n');
        proof {
            assert(out@ =~= pre + escape_char(c));
        }
    } else if c == '\r' {
        out.push('\\');
        out.push('r');
        proof {
            assert(out@ =~= pre + escape_char(c));
        }
    } else if c == '\t' {
        out.push('\\');
        out.push('t');
        proof {
            assert(out@ =~= pre + escape_char(c));
        }
    } else if (c as u32) < 0x20 {
        let code = c as u32;
        out.push('\\');
        out.push('u');
        out.push('0');
        out.push('0');
        out.push(hex_digit_exec(code / 16));
        out.push(hex_digit_exec(code % 16));
        proof {
            assert(out@ =~= pre + escape_char(c));
        }
    } else {
        out.push(c);
        proof {
            assert(out@ =~= pre + escape_char(c));
        }
    }
}

/// Appends the escaped form of `s`.
fn json_escape_push(out: &mut Vec<char>, s: &str)
    ensures
        final (out)@ == old(out)@ + json_escape_from(s@, 0),
{
    let ghost pre = old(out)@;
    let n = s.unicode_len();
    let mut i: usize = 0;
    while i < n
        invariant
            n == s@.len(),
            0 <= i <= n,
            pre + json_escape_from(s@, 0) == out@ + json_escape_from(s@, i as int),
        decreases n - i,
    {
        let ghost mid = out@;
        let c = s.get_char(i);
        push_escaped(out, c);
        proof {
            assert(pre + json_escape_from(s@, 0) =~= out@ + json_escape_from(s@, i + 1 as int));
        }
        i = i + 1;
    }
    proof {
        assert(json_escape_from(s@, n as int) =~= Seq::<char>::empty());
        assert(out@ =~= pre + json_escape_from(s@, 0));
    }
}

/// Appends the string literal for `s`.
fn json_string_push(out: &mut Vec<char>, s: &str)
    ensures
        final (out)@ == old(out)@ + json_string(s@),
{
    let ghost pre = old(out)@;
    out.push('"');
    json_escape_push(out, s);
    out.push('"');
    proof {
        assert(out@ =~= pre + json_string(s@));
    }
}

/// The array of string literals for `items`.
fn json_string_array_chars(items: &Vec<String>) -> (out: Vec<char>)
    ensures
        out@ == json_string_array(items.deep_view()),
{
    let ghost dv = items.deep_view();
    let mut out: Vec<char> = Vec::new();
    out.push('[');
    proof {
        assert(json_string_array(dv) =~= out@ + json_string_array_items(dv, 0) + seq![']']);
    }
    let n = items.len();
    let mut i: usize = 0;
    while i < n
        invariant
            n == items@.len(),
            dv == items.deep_view(),
            0 <= i <= n,
            json_string_array(dv) == out@ + json_string_array_items(dv, i as int) + seq![']'],
        decreases n - i,
    {
        let ghost pre = out@;
        json_string_push(&mut out, items[i].as_str());
        proof {
            assert(dv[i as int] == items@[i as int]@);
        }
        if i + 1 < n {
            out.push(',');
            proof {
                assert(json_string_array_items(dv, i as int) =~= json_string(dv[i as int])
                    + seq![','] + json_string_array_items(dv, i + 1 as int));
                assert(json_string_array(dv) =~= out@ + json_string_array_items(dv, i + 1 as int)
                    + seq![']']);
            }
        } else {
            proof {
                assert(json_string_array_items(dv, i as int) =~= json_string(dv[i as int]));
                assert(json_string_array_items(dv, i + 1 as int) =~= Seq::<char>::empty());
                assert(json_string_array(dv) =~= out@ + json_string_array_items(dv, i + 1 as int)
                    + seq![']']);
            }
        }
        i = i + 1;
    }
    out.push(']');
    proof {
        assert(json_string_array_items(dv, n as int) =~= Seq::<char>::empty());
        assert(out@ =~= json_string_array(dv));
    }
    out
}

/// The polling reply for the given snapshot parts.
pub fn state_json_exec(output: &Vec<String>, pending_ids: &Vec<String>, finished: bool) -> (r:
    String)
    ensures
        r@ == state_json(output.deep_view(), pending_ids.deep_view(), finished),
{
    let mut r = "{\"output\":".to_owned();
    let a1 = json_string_array_chars(output);
    let s1 = string_from_chars(a1.as_slice());
    r.append(s1.as_str());
    r.append(",\"pending_inputs\":");
    let a2 = json_string_array_chars(pending_ids);
    let s2 = string_from_chars(a2.as_slice());
    r.append(s2.as_str());
    r.append(",\"program_finished\":");
    if finished {
        r.append("true");
    } else {
        r.append("false");
    }
    r.append("}");
    proof {
        assert(r@ =~= state_json(output.deep_view(), pending_ids.deep_view(), finished));
    }
    r
}

/// The validation reply for a valid value.
pub fn validate_ok_exec() -> (r: String)
    ensures
        r@ == validate_ok_json(),
{
    "{\"valid\":true}".to_owned()
}

/// The validation reply carrying `msg`.
pub fn validate_err_exec(msg: &str) -> (r: String)
    ensures
        r@ == validate_err_json(msg@),
{
    let mut r = "{\"valid\":false,\"error\":".to_owned();
    let mut lit: Vec<char> = Vec::new();
    json_string_push(&mut lit, msg);
    let s = string_from_chars(lit.as_slice());
    r.append(s.as_str());
    r.append("}");
    proof {
        assert(r@ =~= validate_err_json(msg@));
    }
    r
}

} // verus!

verus! {

proof fn lemma_skip_jws_is(s: Seq<char>, i: int, j: int)
    requires
        0 <= i <= j <= s.len(),
        forall|k: int| i <= k < j ==> is_json_ws(s[k]),
        j < s.len() ==> !is_json_ws(s[j]),
    ensures
        skip_jws(s, i) == j,
    decreases j - i,
{
    if i < j {
        lemma_skip_jws_is(s, i + 1, j);
    }
}

fn is_json_ws_exec(c: char) -> (r: bool)
    ensures
        r == is_json_ws(c),
{
    c == ' ' || c == '\t' || c == '\n' || c == '\r'
}

fn skip_jws_exec(s: &Vec<char>, start: usize) -> (r: usize)
    requires
        start <= s@.len(),
    ensures
        r == skip_jws(s@, start as int),
        start <= r <= s@.len(),
{
    let mut i: usize = start;
    while i < s.len() && is_json_ws_exec(s[i])
        invariant
            start <= i <= s@.len(),
            forall|k: int| start <= k < i ==> is_json_ws(s@[k]),
        decreases s@.len() - i,
    {
        i = i + 1;
    }
    proof {
        lemma_skip_jws_is(s@, start as int, i as int);
    }
    i
}

fn unescape_code_exec(c: char) -> (r: Option<char>)
    ensures
        r == unescape_code(c),
{
    if c == '"' {
        Some('"')
    } else if c == '\\' {
        Some('\\')
    } else if c == '/' {
        Some('/')
    } else if c == 'n' {
        Some('\n')
    } else if c == 't' {
        Some('\t')
    } else if c == 'r' {
        Some('\r')
    } else if c == 'b' {
        Some('\u{8}')
    } else if c == 'f' {
        Some('\u{c}')
    } else {
        None
    }
}

/// Reads a string literal's content from just after the opening quote.
fn parse_jchars_exec(s: &Vec<char>, start: usize) -> (r: Option<(Vec<char>, usize)>)
    requires
        start <= s@.len(),
    ensures
        match r {
            Some(p) => parse_jchars(s@, start as int) == Some((p.0@, p.1 as int)) && p.1
                <= s@.len(),
            None => parse_jchars(s@, start as int) is None,
        },
{
    let mut i: usize = start;
    let mut out: Vec<char> = Vec::new();
    while i < s.len()
        invariant
            start <= i <= s@.len(),
            parse_jchars(s@, start as int) == (match parse_jchars(s@, i as int) {
                Some(p) => Some((out@ + p.0, p.1)),
                None => None::<(Seq<char>, int)>,
            }),
        decreases s@.len() - i,
    {
        let c = s[i];
        if c == '"' {
            proof {
                assert(parse_jchars(s@, i as int) == Some((Seq::<char>::empty(), i + 1 as int)));
                assert(out@ + Seq::<char>::empty() =~= out@);
            }
            return Some((out, i + 1));
        } else if c == '\\' {
            if i + 1 >= s.len() {
                return None;
            }
            match unescape_code_exec(s[i + 1]) {
                Some(ec) => {
                    let ghost pre = out@;
                    out.push(ec);
                    proof {
                        match parse_jchars(s@, i + 2 as int) {
                            Some(p) => {
                                assert(pre + (seq![ec] + p.0) =~= out@ + p.0);
                            },
                            None => {},
                        }
                    }
                    i = i + 2;
                },
                None => {
                    return None;
                },
            }
        } else {
            let ghost pre = out@;
            out.push(c);
            proof {
                match parse_jchars(s@, i + 1 as int) {
                    Some(p) => {
                        assert(pre + (seq![s@[i as int]] + p.0) =~= out@ + p.0);
                    },
                    None => {},
                }
            }
            i = i + 1;
        }
    }
    None
}

/// Reads a string literal starting at `i`.
fn parse_jstring_exec(s: &Vec<char>, i: usize) -> (r: Option<(Vec<char>, usize)>)
    requires
        i <= s@.len(),
    ensures
        match r {
            Some(p) => parse_jstring(s@, i as int) == Some((p.0@, p.1 as int)) && p.1 <= s@.len(),
            None => parse_jstring(s@, i as int) is None,
        },
{
    if i < s.len() && s[i] == '"' {
        parse_jchars_exec(s, i + 1)
    } else {
        None
    }
}

/// Reads one `"key": "value"` member starting at `i`.
fn parse_pair_exec(s: &Vec<char>, i: usize) -> (r: Option<((String, String), usize)>)
    requires
        i <= s@.len(),
    ensures
        match r {
            Some(p) => parse_pair(s@, i as int) == Some(((p.0.0@, p.0.1@), p.1 as int)) && p.1
                <= s@.len(),
            None => parse_pair(s@, i as int) is None,
        },
{
    match parse_jstring_exec(s, i) {
        Some((kv, a)) => {
            let c = skip_jws_exec(s, a);
            if c < s.len() && s[c] == ':' {
                let v0 = skip_jws_exec(s, c + 1);
                match parse_jstring_exec(s, v0) {
                    Some((vv, n)) => {
                        let key = string_from_chars(kv.as_slice());
                        let val = string_from_chars(vv.as_slice());
                        Some(((key, val), n))
                    },
                    None => None,
                }
            } else {
                None
            }
        },
        None => None,
    }
}

/// The views of a vector of key/value pairs.
pub open spec fn pairs_view(v: Seq<(String, String)>) -> Seq<(Seq<char>, Seq<char>)> {
    v.map_values(|p: (String, String)| (p.0@, p.1@))
}

/// Reads the members after the first one, up to and past the closing brace.
fn parse_members_rest_exec(s: &Vec<char>, start: usize) -> (r: Option<
    (Vec<(String, String)>, usize),
>)
    requires
        start <= s@.len(),
    ensures
        match r {
            Some(p) => parse_members_rest(s@, start as int) == Some((pairs_view(p.0@), p.1 as int))
                && p.1 <= s@.len(),
            None => parse_members_rest(s@, start as int) is None,
        },
{
    let mut i: usize = start;
    let mut acc: Vec<(String, String)> = Vec::new();
    loop
        invariant
            start <= i <= s@.len(),
            parse_members_rest(s@, start as int) == (match parse_members_rest(s@, i as int) {
                Some(rest) => Some((pairs_view(acc@) + rest.0, rest.1)),
                None => None::<(Seq<(Seq<char>, Seq<char>)>, int)>,
            }),
        decreases s@.len() - i,
    {
        let j = skip_jws_exec(s, i);
        if j < s.len() && s[j] == '}' {
            proof {
                assert(parse_members_rest(s@, i as int) == Some(
                    (Seq::<(Seq<char>, Seq<char>)>::empty(), j + 1 as int),
                ));
                assert(pairs_view(acc@) + Seq::<(Seq<char>, Seq<char>)>::empty() =~= pairs_view(
                    acc@,
                ));
            }
            return Some((acc, j + 1));
        }
        if j < s.len() && s[j] == ',' {
            let k = skip_jws_exec(s, j + 1);
            match parse_pair_exec(s, k) {
                Some(((key, val), n)) => {
                    proof {
                        lemma_parse_pair_auto(s@, k as int);
                    }
                    let ghost pre = acc@;
                    let ghost pair = (key@, val@);
                    acc.push((key, val));
                    proof {
                        assert(pairs_view(acc@) =~= pairs_view(pre) + seq![pair]);
                        match parse_members_rest(s@, n as int) {
                            Some(rest) => {
                                assert(pairs_view(pre) + (seq![pair] + rest.0) =~= pairs_view(acc@)
                                    + rest.0);
                            },
                            None => {},
                        }
                    }
                    i = n;
                },
                None => {
                    return None;
                },
            }
        } else {
            return None;
        }
    }
}

/// Reads a whole submission body: a flat object of string fields.
pub fn parse_object_exec(body: &str) -> (r: Option<Vec<(String, String)>>)
    ensures
        match r {
            Some(pairs) => parse_object(body@) == Some(pairs_view(pairs@)),
            None => parse_object(body@) is None,
        },
{
    let s = crate::strutil::chars_of(body);
    let i = skip_jws_exec(&s, 0);
    if !(i < s.len() && s[i] == '{') {
        return None;
    }
    let j = skip_jws_exec(&s, i + 1);
    if j < s.len() && s[j] == '}' {
        let t = skip_jws_exec(&s, j + 1);
        if t == s.len() {
            let pairs: Vec<(String, String)> = Vec::new();
            proof {
                assert(pairs_view(pairs@) =~= Seq::<(Seq<char>, Seq<char>)>::empty());
            }
            return Some(pairs);
        } else {
            return None;
        }
    }
    match parse_pair_exec(&s, j) {
        Some(((key, val), n)) => {
            match parse_members_rest_exec(&s, n) {
                Some((rest, m)) => {
                    let t = skip_jws_exec(&s, m);
                    if t == s.len() {
                        let ghost pair = (key@, val@);
                        let mut pairs = rest;
                        pairs.insert(0, (key, val));
                        proof {
                            assert(pairs_view(pairs@) =~= seq![pair] + pairs_view(
                                pairs@.drop_first(),
                            ));
                            assert(pairs_view(pairs@.drop_first()) =~= pairs_view(
                                pairs@,
                            ).drop_first());
                        }
                        Some(pairs)
                    } else {
                        None
                    }
                },
                None => None,
            }
        },
        None => None,
    }
}

proof fn lemma_lookup_field_is(pairs: Seq<(Seq<char>, Seq<char>)>, key: Seq<char>, j: int)
    requires
        -1 <= j < pairs.len(),
        forall|k: int| j < k < pairs.len() ==> (#[trigger] pairs[k]).0 != key,
        j >= 0 ==> pairs[j].0 == key,
    ensures
        j >= 0 ==> lookup_field(pairs, key) == Some(pairs[j].1),
        j < 0 ==> lookup_field(pairs, key) is None,
    decreases pairs.len(),
{
    if pairs.len() > 0 && pairs.last().0 != key {
        assert(j < pairs.len() - 1);
        lemma_lookup_field_is(pairs.drop_last(), key, j);
    }
}

/// The value under `key`, the last occurrence winning.
pub fn lookup_field_exec(pairs: &Vec<(String, String)>, key: &str) -> (r: Option<String>)
    ensures
        match r {
            Some(v) => lookup_field(pairs_view(pairs@), key@) == Some(v@),
            None => lookup_field(pairs_view(pairs@), key@) is None,
        },
{
    let ghost pv = pairs_view(pairs@);
    let mut j = pairs.len();
    while j > 0
        invariant
            0 <= j <= pairs@.len(),
            pv == pairs_view(pairs@),
            forall|k: int| j <= k < pairs@.len() ==> (#[trigger] pv[k]).0 != key@,
        decreases j,
    {
        let jj = j - 1;
        let e = &pairs[jj];
        if str_eq(e.0.as_str(), key) {
            proof {
                lemma_lookup_field_is(pv, key@, jj as int);
            }
            return Some(e.1.clone());
        }
        j = jj;
    }
    proof {
        lemma_lookup_field_is(pv, key@, -1);
    }
    None
}

/// The `id` and `value` fields of a submission body, if it is a well-formed
/// flat object carrying both.
pub fn body_id_value_exec(body: &str) -> (r: Option<(String, String)>)
    ensures
        match r {
            Some(p) => body_id_value(body@) == Some((p.0@, p.1@)),
            None => body_id_value(body@) is None,
        },
{
    match parse_object_exec(body) {
        Some(pairs) => {
            let id = lookup_field_exec(&pairs, "id");
            let value = lookup_field_exec(&pairs, "value");
            match (id, value) {
                (Some(i2), Some(v2)) => Some((i2, v2)),
                _ => None,
            }
        },
        None => None,
    }
}

} // verus!
