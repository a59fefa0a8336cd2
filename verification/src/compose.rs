//! The layout composer: drives one file's full render (front matter, body
//! conversion, the transformer) and recursively re-renders through the
//! reserved `layout` variable's chain, passing each result as injectable
//! content to the next hop and threading caller-supplied variables through
//! every hop.

use vstd::prelude::*;
use crate::context::{ctx_nests, lemma_ctx_nests_trans, RenderContext};
use crate::dom::Node;
use crate::frontmatter::{extract_frontmatter, infer_type, MatterType};
use crate::host::{Host, RenderError};
use crate::strutil::{ends_with, has_suffix};
use crate::transform::parse_and_render_dom;
use crate::value::Value;

verus! {

/// The most layout hops and nested template inclusions one render may
/// take.  The layout chain has no inherent bound, so a cyclic chain would
/// otherwise never finish; reaching this depth is a fatal error.
pub const MAX_RENDER_DEPTH: u64 = 64;

/// Whether a path names a source kind the composer can render: Markdown,
/// or HTML.
pub open spec fn supported_path(p: Seq<char>) -> bool {
    has_suffix(p, ".md"@) || has_suffix(p, ".html"@) || has_suffix(p, ".htm"@)
}

/// Render one file and every layout above it, returning the final tree and
/// the file's render context.
///
/// Steps: read the file; split off front matter and bind it in a fresh
/// session; bind the caller-supplied variables after it, so that they
/// override front matter on name collision; convert Markdown to HTML;
/// parse and transform; then read the session's `layout` global, and when
/// it is a string, render that path with the produced tree as injectable
/// content, this context as parent, and the same caller variables.
pub fn render_recursive_inner<H: Host>(
    host: &mut H,
    path: &str,
    parent_context: Option<RenderContext>,
    injected: Option<&Node>,
    child_session: Option<u64>,
    extra_vars: &Vec<(String, Value)>,
    fuel: u64,
) -> (r: Result<(Node, RenderContext), RenderError>)
    ensures
        !supported_path(path@) ==> (r matches Err(e) && e is Parse),
        (supported_path(path@) && fuel == 0 ==> (r matches Err(e) && e is LimitExceeded)),
        (r is Ok && parent_context is Some ==> ctx_nests(r->Ok_0.1@, parent_context->0@)),
    decreases fuel,
{
    let ghost pc = parent_context;
    let is_md = ends_with(path, ".md");
    let is_html = ends_with(path, ".html") || ends_with(path, ".htm");
    if !is_md && !is_html {
        return Err(RenderError::Parse(path.to_owned()));
    }
    if fuel == 0 {
        return Err(RenderError::LimitExceeded);
    }
    let contents = match host.read_file(path) {
        Ok(t) => t,
        Err(m) => {
            return Err(RenderError::Io(m));
        },
    };
    let session = host.new_session();
    host.link_sessions(session, "page", session);
    if let Some(cs) = child_session {
        host.link_sessions(session, "child", cs);
    }
    let kind = infer_type(contents.as_str());
    let mut body = contents;
    match kind {
        MatterType::NotFound => (),
        k => {
            let split = extract_frontmatter(body.as_str());
            let matter = split.0;
            let rest = split.1;
            let rest_owned = rest.to_owned();
            if let Some(m) = matter {
                match host.bind_matter(session, k, m) {
                    Ok(_) => (),
                    Err(msg) => {
                        return Err(RenderError::Parse(msg));
                    },
                }
            }
            body = rest_owned;
        },
    }
    let mut vi: usize = 0;
    while vi < extra_vars.len()
        invariant
            vi <= extra_vars@.len(),
        decreases extra_vars@.len() - vi,
    {
        host.set_global_value(session, extra_vars[vi].0.as_str(), &extra_vars[vi].1);
        vi = vi + 1;
    }
    let html_text = if is_md {
        host.render_markdown(body.as_str())
    } else {
        body
    };
    let step = parse_and_render_dom(
        host,
        session,
        html_text.as_str(),
        parent_context,
        injected,
        fuel - 1,
    );
    let (tree, ctx) = match step {
        Ok(p) => p,
        Err(e) => {
            return Err(e);
        },
    };
    proof {
        if pc is Some {
            assert(ctx_nests(ctx@, pc->0@));
        }
    }
    let ghost cv = ctx@;
    let layout = host.read_global(session, "layout");
    match layout {
        Value::Str(next) => {
            let hop = render_recursive_inner(
                host,
                next.as_str(),
                Some(ctx),
                Some(&tree),
                Some(session),
                extra_vars,
                fuel - 1,
            );
            proof {
                if hop is Ok && pc is Some {
                    lemma_ctx_nests_trans(hop->Ok_0.1@, cv, pc->0@);
                }
            }
            hop
        },
        _ => Ok((tree, ctx)),
    }
}

/// Perform a full recursive render of one file, through its whole layout
/// chain, and return the final tree; the host serializes it.
pub fn render_recursive<H: Host>(
    host: &mut H,
    path: &str,
    extra_vars: &Vec<(String, Value)>,
) -> (r: Result<Node, RenderError>)
    ensures
        !supported_path(path@) ==> (r matches Err(e) && e is Parse),
{
    match render_recursive_inner(host, path, None, None, None, extra_vars, MAX_RENDER_DEPTH) {
        Ok(p) => Ok(p.0),
        Err(e) => Err(e),
    }
}

/// Render a template string in an existing session, splicing `injected`
/// where `<slot name="content">` asks for it.
pub fn render_injecting<H: Host>(
    host: &mut H,
    session: u64,
    template: &str,
    injected: Option<&Node>,
) -> (r: Result<Node, RenderError>)
    ensures
        (r matches Err(e) ==> !(e is Parse)),
{
    match parse_and_render_dom(host, session, template, None, injected, MAX_RENDER_DEPTH) {
        Ok(p) => Ok(p.0),
        Err(e) => Err(e),
    }
}

/// Render a template string in an existing session, with nothing injected.
pub fn render2<H: Host>(host: &mut H, session: u64, template: &str) -> (r: Result<
    Node,
    RenderError,
>)
    ensures
        (r matches Err(e) ==> !(e is Parse)),
{
    render_injecting(host, session, template, None)
}

} // verus!
