//! The two small grammars embedded in templates: the `x-for` loop notation
//! `<identifier> (in|of) <expr>`, and the `{{ expr }}` interpolation spans
//! inside text nodes.

use vstd::prelude::*;
use crate::host::RenderError;

verus! {

/// A character allowed in an `x-for` loop variable name.
pub open spec fn ident_char(c: char) -> bool {
    ('a' <= c && c <= 'z') || ('A' <= c && c <= 'Z') || c == '$' || c == '_'
}

/// The length of the identifier prefix of a string.
pub open spec fn ident_len(s: Seq<char>) -> int
    decreases s.len(),
{
    if s.len() == 0 {
        0
    } else if ident_char(s[0]) {
        1 + ident_len(s.drop_first())
    } else {
        0
    }
}

proof fn lemma_ident_len_from_scan(s: Seq<char>, i: int)
    requires
        0 <= i <= s.len(),
        forall|j: int| 0 <= j < i ==> ident_char(s[j]),
        i < s.len() ==> !ident_char(s[i]),
    ensures
        ident_len(s) == i,
    decreases s.len(),
{
    if s.len() > 0 && ident_char(s[0]) {
        assert(i > 0);
        assert forall|j: int| 0 <= j < i - 1 implies ident_char(s.drop_first()[j]) by {
            assert(s.drop_first()[j] == s[j + 1]);
        }
        lemma_ident_len_from_scan(s.drop_first(), i - 1);
    }
}

/// Whether the loop keyword (`in` or `of`) stands right after position `k`.
pub open spec fn for_kind_at(s: Seq<char>, k: int) -> bool {
    (s[k + 1] == 'i' && s[k + 2] == 'n') || (s[k + 1] == 'o' && s[k + 2] == 'f')
}

/// Whether a string matches the fixed `x-for` grammar
/// `<identifier> (in|of) <expr>`, with the expression on one line.
pub open spec fn for_notation_valid(s: Seq<char>) -> bool {
    let k = ident_len(s);
    &&& k >= 1
    &&& k + 4 <= s.len()
    &&& s[k] == ' '
    &&& for_kind_at(s, k)
    &&& s[k + 3] == ' '
    &&& forall|j: int| k + 4 <= j < s.len() ==> s[j] != '\n'
}

/// The loop variable name of a valid notation.
pub open spec fn for_loop_name(s: Seq<char>) -> Seq<char> {
    s.subrange(0, ident_len(s))
}

/// The keyword (`in` or `of`) of a valid notation.
pub open spec fn for_loop_kind(s: Seq<char>) -> Seq<char> {
    s.subrange(ident_len(s) + 1, ident_len(s) + 3)
}

/// The iteration source expression of a valid notation.
pub open spec fn for_loop_expr(s: Seq<char>) -> Seq<char> {
    s.skip(ident_len(s) + 4)
}

/// Parse the `x-for` notation into loop variable name, keyword and
/// iteration source expression; a string outside the grammar is a fatal
/// grammar error carrying the notation itself.
pub fn parse_for_notation(notation: &str) -> (r: Result<(String, String, String), RenderError>)
    ensures
        r is Ok <==> for_notation_valid(notation@),
        (r matches Ok(v) ==> v.0@ == for_loop_name(notation@) && v.1@ == for_loop_kind(notation@)
            && v.2@ == for_loop_expr(notation@)),
        (r matches Err(e) ==> e is Grammar),
{
    let n = notation.unicode_len();
    let mut k: usize = 0;
    while k < n && ident_char_exec(notation.get_char(k))
        invariant
            0 <= k <= n,
            n == notation@.len(),
            forall|j: int| 0 <= j < k ==> ident_char(notation@[j]),
        decreases n - k,
    {
        k = k + 1;
    }
    proof {
        lemma_ident_len_from_scan(notation@, k as int);
    }
    if k < 1 || k > n || n - k < 4 {
        return Err(RenderError::Grammar(notation.to_owned()));
    }
    if notation.get_char(k) != ' ' {
        return Err(RenderError::Grammar(notation.to_owned()));
    }
    let c1 = notation.get_char(k + 1);
    let c2 = notation.get_char(k + 2);
    if !((c1 == 'i' && c2 == 'n') || (c1 == 'o' && c2 == 'f')) {
        return Err(RenderError::Grammar(notation.to_owned()));
    }
    if notation.get_char(k + 3) != ' ' {
        return Err(RenderError::Grammar(notation.to_owned()));
    }
    let mut j: usize = k + 4;
    while j < n
        invariant
            k + 4 <= j <= n,
            n == notation@.len(),
            ident_len(notation@) == k as int,
            forall|q: int| k + 4 <= q < j ==> notation@[q] != '\n',
        decreases n - j,
    {
        if notation.get_char(j) == '\n' {
            return Err(RenderError::Grammar(notation.to_owned()));
        }
        j = j + 1;
    }
    let name = notation.substring_char(0, k).to_owned();
    let kind = notation.substring_char(k + 1, k + 3).to_owned();
    let expr = notation.substring_char(k + 4, n).to_owned();
    proof {
        assert(expr@ =~= for_loop_expr(notation@));
    }
    Ok((name, kind, expr))
}

/// Executable form of [`ident_char`].
fn ident_char_exec(c: char) -> (r: bool)
    ensures
        r == ident_char(c),
{
    ('a' <= c && c <= 'z') || ('A' <= c && c <= 'Z') || c == '$' || c == '_'
}

/// Whether an interpolation span opens at `i`: two braces in a row.
pub open spec fn open_at(s: Seq<char>, i: int) -> bool {
    &&& 0 <= i
    &&& i + 2 <= s.len()
    &&& s[i] == '{'
    &&& s[i + 1] == '{'
}

/// The first closing brace pair at or after `j` on the same line, if any:
/// an interpolation span never crosses a newline.
pub open spec fn close_from(s: Seq<char>, j: int) -> Option<int>
    decreases s.len() - j,
{
    if j < 0 || j + 2 > s.len() {
        None
    } else if s[j] == '}' && s[j + 1] == '}' {
        Some(j)
    } else if s[j] == '\n' {
        None
    } else {
        close_from(s, j + 1)
    }
}

proof fn lemma_close_from_bounds(s: Seq<char>, j: int)
    ensures
        close_from(s, j) matches Some(c) ==> j <= c && 0 <= c && c + 2 <= s.len(),
    decreases s.len() - j,
{
    if !(j < 0 || j + 2 > s.len()) && !(s[j] == '}' && s[j + 1] == '}') && s[j] != '\n' {
        lemma_close_from_bounds(s, j + 1);
    }
}

proof fn lemma_close_from_skip(s: Seq<char>, from: int, j: int)
    requires
        0 <= from <= j,
        forall|q: int|
            from <= q < j ==> !(#[trigger] s[q] == '}' && q + 1 < s.len() && s[q + 1] == '}')
                && s[q] != '\n',
    ensures
        close_from(s, from) == close_from(s, j),
    decreases j - from,
{
    if from < j {
        if from + 2 > s.len() {
            assert(j + 2 > s.len());
        } else {
            lemma_close_from_skip(s, from + 1, j);
        }
    }
}

/// The interpolation spans of a text, in order and non-overlapping: each
/// span is the position of its opening brace pair and the position just
/// after its closing pair.
pub open spec fn spans_from(s: Seq<char>, i: int) -> Seq<(int, int)>
    decreases s.len() - i,
    via spans_from_dec
{
    if i < 0 || i + 2 > s.len() {
        Seq::empty()
    } else if open_at(s, i) {
        match close_from(s, i + 2) {
            Some(j) => seq![(i, j + 2)] + spans_from(s, j + 2),
            None => spans_from(s, i + 1),
        }
    } else {
        spans_from(s, i + 1)
    }
}

#[via_fn]
proof fn spans_from_dec(s: Seq<char>, i: int) {
    lemma_close_from_bounds(s, i + 2);
}

/// The spans of a text as a whole.
pub open spec fn text_spans(s: Seq<char>) -> Seq<(int, int)> {
    spans_from(s, 0)
}

/// Every span is well formed and the spans stand in order: the span at `k`
/// opens at or after the scan start, holds at least its braces, ends within
/// the text, and ends before the next span begins.
pub proof fn lemma_span_wf_at(s: Seq<char>, i: int, k: int)
    requires
        0 <= k < spans_from(s, i).len(),
    ensures
        i <= spans_from(s, i)[k].0,
        spans_from(s, i)[k].0 + 4 <= spans_from(s, i)[k].1,
        spans_from(s, i)[k].1 <= s.len(),
        k + 1 < spans_from(s, i).len() ==> spans_from(s, i)[k].1 <= spans_from(s, i)[k + 1].0,
    decreases s.len() - i,
{
    if i < 0 || i + 2 > s.len() {
    } else if open_at(s, i) {
        match close_from(s, i + 2) {
            Some(j) => {
                lemma_close_from_bounds(s, i + 2);
                let rest = spans_from(s, j + 2);
                assert(spans_from(s, i) == seq![(i, j + 2)] + rest);
                assert(spans_from(s, i).len() == 1 + rest.len());
                if k == 0 {
                    assert(spans_from(s, i)[0] == (i, j + 2));
                    if 1 < spans_from(s, i).len() {
                        assert(spans_from(s, i)[1] == rest[0]);
                        lemma_span_wf_at(s, j + 2, 0);
                    }
                } else {
                    assert(spans_from(s, i)[k] == rest[k - 1]);
                    lemma_span_wf_at(s, j + 2, k - 1);
                    if k + 1 < spans_from(s, i).len() {
                        assert(spans_from(s, i)[k + 1] == rest[k]);
                    }
                }
            },
            None => {
                lemma_span_wf_at(s, i + 1, k);
            },
        }
    } else {
        lemma_span_wf_at(s, i + 1, k);
    }
}


/// The mathematical form of machine-sized span pairs.
pub open spec fn spans_view(q: Seq<(usize, usize)>) -> Seq<(int, int)> {
    Seq::new(q.len(), |k: int| (q[k].0 as int, q[k].1 as int))
}

/// Find the interpolation spans of `text` at or after position `i`.
pub fn scan_spans_from(text: &str, i: usize) -> (r: Vec<(usize, usize)>)
    requires
        i <= text@.len(),
    ensures
        spans_view(r@) == spans_from(text@, i as int),
    decreases text@.len() - i,
{
    let n = text.unicode_len();
    if n < 2 || i > n - 2 {
        let r: Vec<(usize, usize)> = Vec::new();
        proof {
            assert(spans_view(r@) =~= spans_from(text@, i as int));
        }
        return r;
    }
    if text.get_char(i) == '{' && text.get_char(i + 1) == '{' {
        let mut j: usize = i + 2;
        while j <= n - 2
            invariant
                i + 2 <= j <= n,
                n == text@.len(),
                n >= 2,
                open_at(text@, i as int),
                forall|q: int|
                    i + 2 <= q < j ==> !(#[trigger] text@[q] == '}' && q + 1 < text@.len()
                        && text@[q + 1] == '}') && text@[q] != '\n',
            decreases n - j,
        {
            if text.get_char(j) == '}' && text.get_char(j + 1) == '}' {
                proof {
                    lemma_close_from_skip(text@, i as int + 2, j as int);
                    assert(close_from(text@, j as int) == Some(j as int));
                }
                let rest = scan_spans_from(text, j + 2);
                let mut out = rest;
                out.insert(0, (i, j + 2));
                proof {
                    assert(spans_view(out@) =~= seq![(i as int, j as int + 2)] + spans_from(
                        text@,
                        j as int + 2,
                    ));
                }
                return out;
            }
            if text.get_char(j) == '\n' {
                proof {
                    lemma_close_from_skip(text@, i as int + 2, j as int);
                    assert(close_from(text@, j as int) is None);
                }
                return scan_spans_from(text, i + 1);
            }
            j = j + 1;
        }
        proof {
            lemma_close_from_skip(text@, i as int + 2, j as int);
            assert(close_from(text@, j as int) is None);
        }
        scan_spans_from(text, i + 1)
    } else {
        proof {
            assert(!open_at(text@, i as int));
        }
        scan_spans_from(text, i + 1)
    }
}

/// What a text node becomes: the literal stretches between the spans stand
/// unchanged, and each span is replaced by the stringified value it
/// evaluated to, in order.
pub open spec fn render_spans(
    s: Seq<char>,
    spans: Seq<(int, int)>,
    cursor: int,
    vals: Seq<Seq<char>>,
) -> Seq<char>
    decreases spans.len(),
{
    if spans.len() == 0 {
        s.subrange(cursor, s.len() as int)
    } else {
        s.subrange(cursor, spans[0].0) + vals[0] + render_spans(
            s,
            spans.drop_first(),
            spans[0].1,
            vals.drop_first(),
        )
    }
}

} // verus!
