//! Rendering of `{{ expr }}` interpolation inside a text node: each span is
//! evaluated through the host and replaced by the stringification of its
//! value; the literal stretches between spans stand unchanged.

use vstd::prelude::*;
use crate::directives::{
    lemma_span_wf_at, render_spans, scan_spans_from, spans_from, spans_view, text_spans,
};
use crate::host::{Host, RenderError};
use crate::value::stringify_value;

verus! {

/// Substitute every interpolation span of `text`, in source order, and
/// return the resulting text.  When the text holds no span it is returned
/// unchanged, and no expression is evaluated.
pub fn interpolate<H: Host>(host: &mut H, session: u64, text: &str) -> (r: Result<
    String,
    RenderError,
>)
    ensures
        (r matches Ok(o) ==> exists|vals: Seq<Seq<char>>|
            vals.len() == text_spans(text@).len() && o@ == #[trigger] render_spans(
                text@,
                text_spans(text@),
                0,
                vals,
            )),
        text_spans(text@).len() == 0 ==> (r matches Ok(o) && o@ == text@),
        (r matches Err(e) ==> e is Eval),
{
    let spans = scan_spans_from(text, 0);
    let r = interpolate_from(host, session, text, &spans, 0, 0);
    proof {
        assert(spans_view(spans@).skip(0) =~= spans_view(spans@));
        if r is Ok {
            let o = r->Ok_0;
            let vals = choose|vals: Seq<Seq<char>>|
                vals.len() == spans_view(spans@).skip(0).len() - 0 && o@ == #[trigger] render_spans(
                    text@,
                    spans_view(spans@).skip(0),
                    0,
                    vals,
                );
            assert(vals.len() == text_spans(text@).len());
            assert(o@ == render_spans(text@, text_spans(text@), 0, vals));
            if text_spans(text@).len() == 0 {
                assert(o@ =~= text@);
            }
        }
    }
    r
}

/// Substitute the spans from position `k` on, starting at text position
/// `cursor`.
fn interpolate_from<H: Host>(
    host: &mut H,
    session: u64,
    text: &str,
    spans: &Vec<(usize, usize)>,
    k: usize,
    cursor: usize,
) -> (r: Result<String, RenderError>)
    requires
        spans_view(spans@) == spans_from(text@, 0),
        k <= spans@.len(),
        cursor <= text@.len(),
        k < spans@.len() ==> cursor <= spans@[k as int].0,
    ensures
        (r matches Ok(o) ==> exists|vals: Seq<Seq<char>>|
            vals.len() == spans_view(spans@).skip(k as int).len() - 0 && o@
                == #[trigger] render_spans(
                text@,
                spans_view(spans@).skip(k as int),
                cursor as int,
                vals,
            )),
        (r matches Err(e) ==> e is Eval),
        k == spans@.len() ==> r is Ok,
    decreases spans@.len() - k,
{
    let n = text.unicode_len();
    if k == spans.len() {
        let o = text.substring_char(cursor, n).to_owned();
        proof {
            let vals = Seq::<Seq<char>>::empty();
            assert(spans_view(spans@).skip(k as int) =~= Seq::<(int, int)>::empty());
            assert(o@ == render_spans(text@, spans_view(spans@).skip(k as int), cursor as int, vals));
        }
        Ok(o)
    } else {
        let a = spans[k].0;
        let b = spans[k].1;
        proof {
            lemma_span_wf_at(text@, 0, k as int);
            assert(spans_view(spans@)[k as int] == (a as int, b as int));
            if k + 1 < spans@.len() {
                assert(spans_view(spans@)[k as int + 1] == (
                    spans@[k as int + 1].0 as int,
                    spans@[k as int + 1].1 as int,
                ));
            }
        }
        let lit = text.substring_char(cursor, a);
        let expr = text.substring_char(a + 2, b - 2);
        let v = match host.eval(session, expr) {
            Ok(v) => v,
            Err(m) => {
                return Err(RenderError::Eval(m));
            },
        };
        let sv = stringify_value(&v);
        let rest = match interpolate_from(host, session, text, spans, k + 1, b) {
            Ok(o) => o,
            Err(e) => {
                return Err(e);
            },
        };
        let mut o = lit.to_owned();
        o.append(sv.as_str());
        o.append(rest.as_str());
        proof {
            let tail = spans_view(spans@).skip(k as int);
            assert(tail[0] == (a as int, b as int));
            assert(tail.drop_first() =~= spans_view(spans@).skip(k as int + 1));
            let vals_r = choose|vals: Seq<Seq<char>>|
                vals.len() == spans_view(spans@).skip(k as int + 1).len() - 0 && rest@
                    == #[trigger] render_spans(
                    text@,
                    spans_view(spans@).skip(k as int + 1),
                    b as int,
                    vals,
                );
            let vals = seq![sv@] + vals_r;
            assert(vals[0] == sv@);
            assert(vals.drop_first() =~= vals_r);
            assert(o@ == text@.subrange(cursor as int, a as int) + vals[0] + render_spans(
                text@,
                tail.drop_first(),
                b as int,
                vals.drop_first(),
            ));
            assert(o@ == render_spans(text@, tail, cursor as int, vals));
        }
        Ok(o)
    }
}

} // verus!
