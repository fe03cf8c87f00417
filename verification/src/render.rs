//! The style renderer: a left-to-right scan over the marked-up text that
//! turns each directive `@(name1, name2, ...)content` into the content
//! wrapped in a span carrying the recognized styles' presentation attributes.
//! Unknown names contribute nothing; a directive with no recognized name
//! emits its content unstyled; text outside directives passes through
//! unchanged. After substitution, content holding both a newline and an
//! opening bracket is wrapped so it renders as a preformatted block.

use vstd::prelude::*;

use crate::strutil::{
    chars_of, contains_char, find_from, lemma_find_from, string_from_chars, trim_chars, trim_spec,
    vec_find_from,
};

verus! {

broadcast use crate::strutil::lemma_find_from_auto;

/// The fixed presentation attribute for one style name, if the name is
/// recognized.
pub open spec fn style_decl(name: Seq<char>) -> Option<Seq<char>> {
    if name == "black"@ {
        Some("color: #000000"@)
    } else if name == "red"@ {
        Some("color: #ff6b6b"@)
    } else if name == "green"@ {
        Some("color: #51cf66"@)
    } else if name == "yellow"@ {
        Some("color: #ffd43b"@)
    } else if name == "blue"@ {
        Some("color: #339af0"@)
    } else if name == "magenta"@ {
        Some("color: #e599f7"@)
    } else if name == "cyan"@ {
        Some("color: #22d3ee"@)
    } else if name == "white"@ {
        Some("color: #ffffff"@)
    } else if name == "gray"@ || name == "grey"@ {
        Some("color: #adb5bd"@)
    } else if name == "orange"@ {
        Some("color: #ff922b"@)
    } else if name == "purple"@ {
        Some("color: #9775fa"@)
    } else if name == "pink"@ {
        Some("color: #f783ac"@)
    } else if name == "bright_cyan"@ {
        Some("color: #00ffff"@)
    } else if name == "bold"@ {
        Some("font-weight: bold"@)
    } else if name == "italic"@ {
        Some("font-style: italic"@)
    } else if name == "underline"@ {
        Some("text-decoration: underline"@)
    } else if name == "strike"@ {
        Some("text-decoration: line-through"@)
    } else if name == "bg-black"@ {
        Some("background-color: #000000"@)
    } else if name == "bg-red"@ {
        Some("background-color: #ff6b6b"@)
    } else if name == "bg-green"@ {
        Some("background-color: #51cf66"@)
    } else if name == "bg-yellow"@ {
        Some("background-color: #ffd43b"@)
    } else if name == "bg-blue"@ {
        Some("background-color: #339af0"@)
    } else if name == "bg-magenta"@ {
        Some("background-color: #e599f7"@)
    } else if name == "bg-cyan"@ {
        Some("background-color: #22d3ee"@)
    } else if name == "bg-white"@ {
        Some("background-color: #ffffff"@)
    } else if name == "bg-gray"@ || name == "bg-grey"@ {
        Some("background-color: #adb5bd"@)
    } else {
        None
    }
}

/// The comma-separated segments of `s` from `start` on, empties kept.
pub open spec fn split_commas_from(s: Seq<char>, start: int) -> Seq<Seq<char>>
    decreases s.len() - start when 0 <= start <= s.len()
{
    let c = find_from(s, start, ',');
    if c >= s.len() {
        seq![s.subrange(start, s.len() as int)]
    } else {
        seq![s.subrange(start, c)] + split_commas_from(s, c + 1)
    }
}

/// The attributes of the recognized names among `names[i..]`, trimmed, in
/// order.
pub open spec fn decls_of_from(names: Seq<Seq<char>>, i: int) -> Seq<Seq<char>>
    decreases names.len() - i when 0 <= i
{
    if i >= names.len() {
        Seq::empty()
    } else {
        match style_decl(trim_spec(names[i])) {
            Some(d) => seq![d] + decls_of_from(names, i + 1),
            None => decls_of_from(names, i + 1),
        }
    }
}

/// The declarations `ds[i..]` joined with `"; "`.
pub open spec fn join_decls(ds: Seq<Seq<char>>, i: int) -> Seq<char>
    decreases ds.len() - i when 0 <= i
{
    if i >= ds.len() {
        Seq::empty()
    } else if i == ds.len() - 1 {
        ds[i]
    } else {
        ds[i] + "; "@ + join_decls(ds, i + 1)
    }
}

/// One directive's emission: the content alone when the name list is empty or
/// no name is recognized, else the content inside a span carrying the joined
/// attributes.
pub open spec fn styled_chunk(names_raw: Seq<char>, content: Seq<char>) -> Seq<char> {
    if names_raw.len() == 0 {
        content
    } else {
        let ds = decls_of_from(split_commas_from(names_raw, 0), 0);
        if ds.len() == 0 {
            content
        } else {
            "<span style=\""@ + join_decls(ds, 0) + "\">"@ + content + "</span>"@
        }
    }
}

/// A directive starts at `i`: `@(`, with a closing parenthesis somewhere
/// after.
pub open spec fn directive_at(s: Seq<char>, i: int) -> bool {
    &&& 0 <= i
    &&& i + 1 < s.len()
    &&& s[i] == '@'
    &&& s[i + 1] == '('
    &&& find_from(s, i + 2, ')') < s.len()
}

/// The rendered text from position `i` on: at each directive the styled
/// chunk is emitted — the name list runs to the first closing parenthesis,
/// the content to the next `@` or the end — and every other character passes
/// through.
pub open spec fn render_from(s: Seq<char>, i: int) -> Seq<char>
    decreases s.len() - i when 0 <= i
{
    if i >= s.len() {
        Seq::empty()
    } else if directive_at(s, i) {
        let j = find_from(s, i + 2, ')');
        let e = find_from(s, j + 1, '@');
        styled_chunk(s.subrange(i + 2, j), s.subrange(j + 1, e)) + render_from(s, e)
    } else {
        seq![s[i]] + render_from(s, i + 1)
    }
}

/// Content that holds a newline together with an opening brace or bracket is
/// rendered as a preformatted block.
pub open spec fn needs_pre_wrap(t: Seq<char>) -> bool {
    t.contains('\n') && (t.contains('{') || t.contains('['))
}

/// The preformatted-block wrapper around structured content; other text is
/// untouched.
pub open spec fn preserve_formatting_spec(t: Seq<char>) -> Seq<char> {
    if needs_pre_wrap(t) {
        "<pre style=\"font-family: 'Courier New', monospace; margin: 0; display: inline;\">"@ + t
            + "</pre>"@
    } else {
        t
    }
}

/// The whole renderer: directive substitution, then the preformatted-block
/// wrap.
pub open spec fn process_styles_spec(s: Seq<char>) -> Seq<char> {
    preserve_formatting_spec(render_from(s, 0))
}

} // verus!

verus! {

/// Character-wise equality of a vector against a slice.
fn vec_eq_str(v: &Vec<char>, s: &str) -> (r: bool)
    ensures
        r == (v@ == s@),
{
    let n = v.len();
    if n != s.unicode_len() {
        return false;
    }
    let mut i: usize = 0;
    while i < n
        invariant
            n == v@.len(),
            n == s@.len(),
            0 <= i <= n,
            forall|k: int| 0 <= k < i ==> v@[k] == s@[k],
        decreases n - i,
    {
        if v[i] != s.get_char(i) {
            return false;
        }
        i = i + 1;
    }
    proof {
        assert(v@ =~= s@);
    }
    true
}

/// The attribute for one (already trimmed) style name.
fn style_decl_exec(name: &Vec<char>) -> (r: Option<Vec<char>>)
    ensures
        match r {
            Some(d) => style_decl(name@) == Some(d@),
            None => style_decl(name@) is None,
        },
{
    if vec_eq_str(name, "black") {
        Some(chars_of("color: #000000"))
    } else if vec_eq_str(name, "red") {
        Some(chars_of("color: #ff6b6b"))
    } else if vec_eq_str(name, "green") {
        Some(chars_of("color: #51cf66"))
    } else if vec_eq_str(name, "yellow") {
        Some(chars_of("color: #ffd43b"))
    } else if vec_eq_str(name, "blue") {
        Some(chars_of("color: #339af0"))
    } else if vec_eq_str(name, "magenta") {
        Some(chars_of("color: #e599f7"))
    } else if vec_eq_str(name, "cyan") {
        Some(chars_of("color: #22d3ee"))
    } else if vec_eq_str(name, "white") {
        Some(chars_of("color: #ffffff"))
    } else if vec_eq_str(name, "gray") || vec_eq_str(name, "grey") {
        Some(chars_of("color: #adb5bd"))
    } else if vec_eq_str(name, "orange") {
        Some(chars_of("color: #ff922b"))
    } else if vec_eq_str(name, "purple") {
        Some(chars_of("color: #9775fa"))
    } else if vec_eq_str(name, "pink") {
        Some(chars_of("color: #f783ac"))
    } else if vec_eq_str(name, "bright_cyan") {
        Some(chars_of("color: #00ffff"))
    } else if vec_eq_str(name, "bold") {
        Some(chars_of("font-weight: bold"))
    } else if vec_eq_str(name, "italic") {
        Some(chars_of("font-style: italic"))
    } else if vec_eq_str(name, "underline") {
        Some(chars_of("text-decoration: underline"))
    } else if vec_eq_str(name, "strike") {
        Some(chars_of("text-decoration: line-through"))
    } else if vec_eq_str(name, "bg-black") {
        Some(chars_of("background-color: #000000"))
    } else if vec_eq_str(name, "bg-red") {
        Some(chars_of("background-color: #ff6b6b"))
    } else if vec_eq_str(name, "bg-green") {
        Some(chars_of("background-color: #51cf66"))
    } else if vec_eq_str(name, "bg-yellow") {
        Some(chars_of("background-color: #ffd43b"))
    } else if vec_eq_str(name, "bg-blue") {
        Some(chars_of("background-color: #339af0"))
    } else if vec_eq_str(name, "bg-magenta") {
        Some(chars_of("background-color: #e599f7"))
    } else if vec_eq_str(name, "bg-cyan") {
        Some(chars_of("background-color: #22d3ee"))
    } else if vec_eq_str(name, "bg-white") {
        Some(chars_of("background-color: #ffffff"))
    } else if vec_eq_str(name, "bg-gray") || vec_eq_str(name, "bg-grey") {
        Some(chars_of("background-color: #adb5bd"))
    } else {
        None
    }
}

/// Copies `v[from..to]`.
fn copy_range(v: &Vec<char>, from: usize, to: usize) -> (r: Vec<char>)
    requires
        from <= to <= v@.len(),
    ensures
        r@ == v@.subrange(from as int, to as int),
{
    let mut r: Vec<char> = Vec::new();
    let mut i: usize = from;
    while i < to
        invariant
            from <= i <= to <= v@.len(),
            r@ == v@.subrange(from as int, i as int),
        decreases to - i,
    {
        r.push(v[i]);
        proof {
            assert(r@ =~= v@.subrange(from as int, i + 1 as int));
        }
        i = i + 1;
    }
    r
}

/// Splits `v` on commas, keeping empty segments.
fn split_commas_exec(v: &Vec<char>) -> (parts: Vec<Vec<char>>)
    ensures
        parts.deep_view() == split_commas_from(v@, 0),
{
    let mut parts: Vec<Vec<char>> = Vec::new();
    let mut start: usize = 0;
    let mut done = false;
    while !done
        invariant
            0 <= start <= v@.len(),
            !done ==> split_commas_from(v@, 0) == parts.deep_view() + split_commas_from(
                v@,
                start as int,
            ),
            done ==> parts.deep_view() == split_commas_from(v@, 0),
        decreases v@.len() - start + (if done {
            0int
        } else {
            1int
        }),
    {
        let ghost pre_parts = parts.deep_view();
        let c = vec_find_from(v, start, ',');
        proof {
            lemma_find_from(v@, start as int, ',');
        }
        if c == v.len() {
            let seg = copy_range(v, start, v.len());
            parts.push(seg);
            proof {
                assert(parts.deep_view() =~~= pre_parts.push(seg@));
                assert(split_commas_from(v@, start as int) =~= seq![seg@]);
                assert(parts.deep_view() =~~= split_commas_from(v@, 0));
            }
            done = true;
        } else {
            let seg = copy_range(v, start, c);
            parts.push(seg);
            proof {
                assert(parts.deep_view() =~~= pre_parts.push(seg@));
                assert(split_commas_from(v@, start as int) =~= seq![seg@] + split_commas_from(
                    v@,
                    c + 1 as int,
                ));
                assert(parts.deep_view() + split_commas_from(v@, c + 1 as int)
                    =~~= split_commas_from(v@, 0));
            }
            start = c + 1;
        }
    }
    parts
}

/// The attributes of the recognized names among `parts`, each trimmed first.
fn decls_map_exec(parts: &Vec<Vec<char>>) -> (decls: Vec<Vec<char>>)
    ensures
        decls.deep_view() == decls_of_from(parts.deep_view(), 0),
{
    let mut decls: Vec<Vec<char>> = Vec::new();
    let mut i: usize = 0;
    let n = parts.len();
    while i < n
        invariant
            n == parts@.len(),
            0 <= i <= n,
            decls_of_from(parts.deep_view(), 0) == decls.deep_view() + decls_of_from(
                parts.deep_view(),
                i as int,
            ),
        decreases n - i,
    {
        let ghost pre = decls.deep_view();
        let t = trim_chars(&parts[i]);
        proof {
            assert(parts.deep_view()[i as int] =~= parts@[i as int]@);
            assert(t@ == trim_spec(parts.deep_view()[i as int]));
        }
        match style_decl_exec(&t) {
            Some(d) => {
                decls.push(d);
                proof {
                    assert(decls.deep_view() =~~= pre.push(decls@[decls@.len() - 1]@));
                    assert(decls_of_from(parts.deep_view(), 0) =~~= decls.deep_view()
                        + decls_of_from(parts.deep_view(), i + 1 as int));
                }
            },
            None => {
                proof {
                    assert(decls_of_from(parts.deep_view(), i as int) == decls_of_from(
                        parts.deep_view(),
                        i + 1 as int,
                    ));
                }
            },
        }
        i = i + 1;
    }
    decls
}

/// Joins the declarations with `"; "`.
fn join_decls_exec(decls: &Vec<Vec<char>>) -> (r: Vec<char>)
    ensures
        r@ == join_decls(decls.deep_view(), 0),
{
    let mut r: Vec<char> = Vec::new();
    let n = decls.len();
    let mut i: usize = 0;
    while i < n
        invariant
            n == decls@.len(),
            0 <= i <= n,
            join_decls(decls.deep_view(), 0) == r@ + join_decls(decls.deep_view(), i as int),
        decreases n - i,
    {
        let ghost pre = r@;
        let d = &decls[i];
        let mut k: usize = 0;
        while k < d.len()
            invariant
                0 <= k <= d@.len(),
                r@ == pre + d@.subrange(0, k as int),
            decreases d@.len() - k,
        {
            r.push(d[k]);
            proof {
                assert(r@ =~= pre + d@.subrange(0, k + 1 as int));
            }
            k = k + 1;
        }
        proof {
            assert(d@.subrange(0, d@.len() as int) =~= d@);
            assert(decls.deep_view()[i as int] =~= d@);
        }
        if i + 1 < n {
            let sep = chars_of("; ");
            extend_chars(&mut r, &sep);
            proof {
                assert(r@ =~= pre + d@ + "; "@);
                assert(join_decls(decls.deep_view(), i as int) =~= d@ + "; "@ + join_decls(
                    decls.deep_view(),
                    i + 1 as int,
                ));
                assert(join_decls(decls.deep_view(), 0) =~= r@ + join_decls(
                    decls.deep_view(),
                    i + 1 as int,
                ));
            }
        } else {
            proof {
                assert(join_decls(decls.deep_view(), i as int) == d@);
                assert(join_decls(decls.deep_view(), i + 1 as int) =~= Seq::<char>::empty());
                assert(join_decls(decls.deep_view(), 0) =~= r@ + join_decls(
                    decls.deep_view(),
                    i + 1 as int,
                ));
            }
        }
        i = i + 1;
    }
    proof {
        assert(join_decls(decls.deep_view(), n as int) =~= Seq::<char>::empty());
        assert(r@ =~= join_decls(decls.deep_view(), 0));
    }
    r
}

/// Appends all of `src` to `dst`.
fn extend_chars(dst: &mut Vec<char>, src: &Vec<char>)
    ensures
        final (dst)@ == old(dst)@ + src@,
{
    let ghost pre = old(dst)@;
    let mut k: usize = 0;
    while k < src.len()
        invariant
            0 <= k <= src@.len(),
            dst@ == pre + src@.subrange(0, k as int),
        decreases src@.len() - k,
    {
        dst.push(src[k]);
        proof {
            assert(dst@ =~= pre + src@.subrange(0, k + 1 as int));
        }
        k = k + 1;
    }
    proof {
        assert(src@.subrange(0, src@.len() as int) =~= src@);
    }
}

/// One directive's emission.
fn styled_chunk_exec(names_raw: &Vec<char>, content: &Vec<char>) -> (r: Vec<char>)
    ensures
        r@ == styled_chunk(names_raw@, content@),
{
    if names_raw.len() == 0 {
        return copy_range(content, 0, content.len());
    }
    let parts = split_commas_exec(names_raw);
    let decls = decls_map_exec(&parts);
    if decls.len() == 0 {
        proof {
            assert(content@.subrange(0, content@.len() as int) =~= content@);
        }
        return copy_range(content, 0, content.len());
    }
    let mut r = chars_of("<span style=\"");
    let joined = join_decls_exec(&decls);
    extend_chars(&mut r, &joined);
    let close_attr = chars_of("\">");
    extend_chars(&mut r, &close_attr);
    extend_chars(&mut r, content);
    let close_span = chars_of("</span>");
    extend_chars(&mut r, &close_span);
    proof {
        assert(content@.subrange(0, content@.len() as int) =~= content@);
        assert(r@ =~= styled_chunk(names_raw@, content@));
    }
    r
}

/// Directive substitution alone, over a character vector.
fn render_chars(s: &Vec<char>) -> (out: Vec<char>)
    ensures
        out@ == render_from(s@, 0),
{
    let mut out: Vec<char> = Vec::new();
    let mut i: usize = 0;
    while i < s.len()
        invariant
            0 <= i <= s@.len(),
            render_from(s@, 0) == out@ + render_from(s@, i as int),
        decreases s@.len() - i,
    {
        let ghost pre = out@;
        let mut plain = true;
        if i + 1 < s.len() && s[i] == '@' && s[i + 1] == '(' {
            let j = vec_find_from(s, i + 2, ')');
            if j < s.len() {
                plain = false;
                let names = copy_range(s, i + 2, j);
                let e = vec_find_from(s, j + 1, '@');
                let content = copy_range(s, j + 1, e);
                let chunk = styled_chunk_exec(&names, &content);
                extend_chars(&mut out, &chunk);
                proof {
                    assert(directive_at(s@, i as int));
                    assert(render_from(s@, i as int) == styled_chunk(names@, content@)
                        + render_from(s@, e as int));
                    assert(render_from(s@, 0) =~= out@ + render_from(s@, e as int));
                }
                i = e;
            }
        }
        if plain {
            proof {
                assert(!directive_at(s@, i as int));
                assert(render_from(s@, i as int) == seq![s@[i as int]] + render_from(
                    s@,
                    i + 1 as int,
                ));
            }
            out.push(s[i]);
            proof {
                assert(render_from(s@, 0) =~= out@ + render_from(s@, i + 1 as int));
            }
            i = i + 1;
        }
    }
    proof {
        assert(render_from(s@, s@.len() as int) =~= Seq::<char>::empty());
        assert(out@ =~= render_from(s@, 0));
    }
    out
}

/// Renders the marked-up text: substitutes every `@(names)content` directive
/// and wraps structured multi-line content as a preformatted block.
pub fn process_styles(text: &str) -> (r: String)
    ensures
        r@ == process_styles_spec(text@),
{
    let s = chars_of(text);
    let rendered = render_chars(&s);
    wrap_formatting(&rendered)
}

/// The preformatted-block wrap over a character vector.
fn wrap_formatting(t: &Vec<char>) -> (r: String)
    ensures
        r@ == preserve_formatting_spec(t@),
{
    let nl = contains_char(t, '\n');
    let brace = contains_char(t, '{');
    let bracket = contains_char(t, '[');
    if nl && (brace || bracket) {
        let mut r =
            "<pre style=\"font-family: 'Courier New', monospace; margin: 0; display: inline;\">".to_owned();
        let body = string_from_chars(t.as_slice());
        r.append(body.as_str());
        r.append("</pre>");
        proof {
            assert(r@ =~= preserve_formatting_spec(t@));
        }
        r
    } else {
        string_from_chars(t.as_slice())
    }
}

/// Wraps text that holds a newline together with an opening brace or bracket
/// as a preformatted block; returns other text unchanged.
pub fn preserve_formatting(text: &str) -> (r: String)
    ensures
        r@ == preserve_formatting_spec(text@),
{
    let t = chars_of(text);
    wrap_formatting(&t)
}

} // verus!

verus! {

/// Text with no remaining directive passes through the scan unchanged.
proof fn lemma_render_plain(s: Seq<char>, i: int)
    requires
        0 <= i <= s.len(),
        forall|j: int| 0 <= j < s.len() ==> !directive_at(s, j),
    ensures
        render_from(s, i) == s.subrange(i, s.len() as int),
    decreases s.len() - i,
{
    if i >= s.len() {
        assert(render_from(s, i) =~= s.subrange(i, s.len() as int));
    } else {
        lemma_render_plain(s, i + 1);
        assert(render_from(s, i) =~= s.subrange(i, s.len() as int));
    }
}

/// The renderer is idempotent on resolved text: on input with no remaining
/// directive marker and no newline-with-bracket content — which the
/// preformatted-block wrap would enclose again — it returns its input
/// unchanged, so re-rendering already rendered plain output is harmless.
pub proof fn lemma_render_resolved_unchanged(s: Seq<char>)
    requires
        forall|j: int| 0 <= j < s.len() ==> !directive_at(s, j),
        !needs_pre_wrap(s),
    ensures
        process_styles_spec(s) == s,
{
    lemma_render_plain(s, 0);
    assert(render_from(s, 0) =~= s);
}

} // verus!
