//! The directive-driven tree transformer: walks a document tree, applies
//! the directive rules in priority order, mutates attributes and text,
//! expands loops by cloning subtrees, resolves slots, and returns removal
//! and replacement instructions for each node.

use vstd::prelude::*;
use crate::context::{
    find_slots, lemma_prefix_push, lemma_prefix_refl, lemma_prefix_trans, RenderContext,
    SlotEntryV,
};
use crate::dom::{
    attr_lookup, children_of, clone_body_children, deep_clone, elem_attrs, elem_name,
    inner_text_of, inner_text_of_children, lemma_attr_lookup_none, lemma_attr_lookup_push,
    lemma_size_of_seq_element,
    lemma_view_seq, lookup_attr, node_text, remove_first_attr, scaffold_strip, size_of,
    strip_first_attr, take_body_children, view_attrs, view_seq, Attr, AttrV, Node,
    NodeV,
};
use crate::directives::{parse_for_notation, render_spans, text_spans};
use crate::host::{Host, RenderError};
use crate::interp::interpolate;
use crate::strutil::{has_prefix, lowercase, lowercased, starts_with, str_eq, trim, trim_spec};
use crate::value::{boolify_value, str_of_value, truthy, Value};

verus! {

/// The most steps any one iteration source may yield before the render is
/// aborted with [`RenderError::LimitExceeded`]: a guard against an iterator
/// that never finishes.  An iteration that is finite but longer than this
/// is rejected too; raise the bound if such documents ever matter.
pub const MAX_LOOP_ITERATIONS: u64 = 1000000;

/// Flags used for conditional node generation.  When `remove` is set the
/// node's position is taken by `replace` (possibly nothing); otherwise the
/// node itself is kept and `replace` is empty.
pub struct CondGenFlags {
    pub remove: bool,
    pub replace: Vec<Node>,
}

impl CondGenFlags {
    /// Set up the default flags: keep the node, replace nothing.
    pub fn default() -> (r: CondGenFlags)
        ensures
            r.remove == false,
            r.replace@.len() == 0,
    {
        CondGenFlags { remove: false, replace: Vec::new() }
    }
}

/// Whether a tag is a heading that gets a synthesized `id`.
pub open spec fn heading_name(name: Seq<char>) -> bool {
    ||| name == "h1"@
    ||| name == "h2"@
    ||| name == "h3"@
    ||| name == "h4"@
    ||| name == "h5"@
    ||| name == "h6"@
}

fn is_heading(name: &str) -> (r: bool)
    ensures
        r == heading_name(name@),
{
    str_eq(name, "h1") || str_eq(name, "h2") || str_eq(name, "h3") || str_eq(name, "h4") || str_eq(
        name,
        "h5",
    ) || str_eq(name, "h6")
}

/// Whether an attribute is one of the boolean flag attributes, which are
/// kept (emptied) when their bound expression is truthy and dropped
/// entirely otherwise.
pub open spec fn is_boolean_flag(name: Seq<char>) -> bool {
    ||| name == "checked"@
    ||| name == "selected"@
    ||| name == "disabled"@
    ||| name == "readonly"@
    ||| name == "autoplay"@
    ||| name == "controls"@
    ||| name == "loop"@
    ||| name == "muted"@
    ||| name == "open"@
}

fn is_flag_name(name: &str) -> (r: bool)
    ensures
        r == is_boolean_flag(name@),
{
    str_eq(name, "checked") || str_eq(name, "selected") || str_eq(name, "disabled") || str_eq(
        name,
        "readonly",
    ) || str_eq(name, "autoplay") || str_eq(name, "controls") || str_eq(name, "loop") || str_eq(
        name,
        "muted",
    ) || str_eq(name, "open")
}

/// Whether a node is a `script` element marked `static` or `ssr`, which is
/// executed once as a side effect and removed.
pub open spec fn is_static_script(n: NodeV) -> bool {
    elem_name(n) == "script"@ && (attr_lookup(elem_attrs(n), "static"@) is Some || attr_lookup(
        elem_attrs(n),
        "ssr"@,
    ) is Some)
}

/// A heading without an `id` gets one synthesized from the lowercased
/// inner text it holds on entry; every other node is left as it is.
pub open spec fn after_heading(n: NodeV) -> NodeV {
    if n is Element && heading_name(elem_name(n)) && attr_lookup(elem_attrs(n), "id"@) is None {
        NodeV::Element {
            name: elem_name(n),
            attrs: elem_attrs(n).push(
                AttrV { name: "id"@, value: lowercased(inner_text_of(n)) },
            ),
            children: children_of(n),
        }
    } else {
        n
    }
}

/// What a `slot`-tagged element is registered as: the node after heading
/// treatment, with the `slot` attribute itself stripped.
pub open spec fn slot_tagged_content(n: NodeV) -> NodeV {
    NodeV::Element {
        name: elem_name(after_heading(n)),
        attrs: remove_first_attr(elem_attrs(after_heading(n)), "slot"@),
        children: children_of(after_heading(n)),
    }
}

/// Heading treatment changes no lookup except `id`.
proof fn lemma_heading_preserves_lookup(n: NodeV, key: Seq<char>)
    requires
        key != "id"@,
    ensures
        attr_lookup(elem_attrs(after_heading(n)), key) == attr_lookup(elem_attrs(n), key),
{
    if n is Element && heading_name(elem_name(n)) && attr_lookup(elem_attrs(n), "id"@) is None {
        lemma_attr_lookup_push(
            elem_attrs(n),
            AttrV { name: "id"@, value: lowercased(inner_text_of(n)) },
            key,
        );
    }
}

/// Evaluate a bound (`:name`) attribute's value into the surviving
/// attribute, if any: a boolean flag attribute is kept with an empty value
/// exactly when the value is truthy, and any other attribute is kept with
/// the stringified value.
pub fn apply_bound_attribute(name: String, value: &Value) -> (r: Option<Attr>)
    ensures
        is_boolean_flag(name@) && truthy(value@) ==> (r matches Some(a) && a@.name == name@
            && a@.value.len() == 0),
        is_boolean_flag(name@) && !truthy(value@) ==> r is None,
        !is_boolean_flag(name@) ==> (r matches Some(a) && a@.name == name@ && a@.value
            == str_of_value(value@)),
{
    if is_flag_name(name.as_str()) {
        if boolify_value(value) {
            Some(Attr { name, value: String::new() })
        } else {
            None
        }
    } else {
        Some(Attr { name, value: crate::value::stringify_value(value) })
    }
}

/// Decide an `x-if` directive from the value its expression evaluated to:
/// exactly a falsy value removes the element, with no replacement, and
/// stops all further processing of it.
pub fn apply_if_directive(value: &Value) -> (r: Option<CondGenFlags>)
    ensures
        !truthy(value@) ==> (r matches Some(f) && f.remove && f.replace@.len() == 0),
        truthy(value@) ==> r is None,
{
    if boolify_value(value) {
        None
    } else {
        Some(CondGenFlags { remove: true, replace: Vec::new() })
    }
}

/// Splice one transformed node's outcome into an output list, preserving
/// relative order: a kept node is appended as itself; a removed node
/// contributes exactly its replacement list, which may be empty, in which
/// case it contributes nothing.
pub fn splice_outcome(flags: CondGenFlags, kept: Option<Node>, out: &mut Vec<Node>)
    ensures
        (kept matches Some(n) ==> view_seq(final(out)@) =~= view_seq(old(out)@).push(n@)),
        (kept is None ==> view_seq(final(out)@) =~= view_seq(old(out)@) + view_seq(
            flags.replace@,
        )),
{
    proof {
        broadcast use lemma_view_seq;

    }
    match kept {
        Some(n) => {
            out.push(n);
        },
        None => {
            let mut repl = flags.replace;
            out.append(&mut repl);
        },
    }
}

/// The slot name carried by a comment marker: the comment's trimmed text
/// after the `slot:` prefix, itself trimmed.
pub open spec fn comment_slot_name(text: Seq<char>) -> Seq<char> {
    trim_spec(trim_spec(text).skip(5))
}

/// Resolve a slot outlet (a `<slot name>` element or a `slot:` comment
/// marker): the reserved name `content` splices in the injected content's
/// body children, or nothing when no content was injected; any other name
/// splices everything registered under it, found depth first, or nothing.
fn slot_outlet(nm: &str, ctx: &RenderContext, injected: Option<&Node>) -> (r: CondGenFlags)
    ensures
        r.remove,
        nm@ == "content"@ ==> (match injected {
            Some(d) => view_seq(r.replace@) =~= scaffold_strip(d@),
            None => r.replace@.len() == 0,
        }),
        nm@ != "content"@ ==> view_seq(r.replace@) =~= find_slots(ctx@, nm@),
{
    if str_eq(nm, "content") {
        match injected {
            Some(d) => CondGenFlags { remove: true, replace: clone_body_children(d) },
            None => CondGenFlags { remove: true, replace: Vec::new() },
        }
    } else {
        CondGenFlags { remove: true, replace: ctx.find_slot_contents(nm) }
    }
}

/// Render the children of a node, recursively: apply the directive rules
/// to `node`, mutating its subtree, and say whether it leaves the tree and
/// what stands in its place.
///
/// `loop_expansion` gates the recording of `x-each`/`x-for` iteration
/// sources, so that an expanded clone does not expand itself again;
/// `injected` is the previous render's tree when a layout is being
/// composed; `fuel` bounds template inclusion and layout nesting.
///
/// The contract states what holds for every host: the flags invariant and
/// the append-only growth of `ctx`; exact results for the nodes the host
/// takes no part in (doctypes, processing instructions, comments, span-free
/// text, documents of such leaves); the slot registration, outlet, static
/// script, heading id and iteration-removal rules; and which directive
/// names a kept element's attribute list no longer carries.  The
/// `:`-prefixed hypotheses in those clauses rule out a bound attribute
/// renaming itself to the directive in question.  Where the engine's value
/// decides — `x-if` truthiness, a bound attribute's fate, the clones an
/// iteration yields — the decision stands in a verified function with an
/// exact contract of its own ([`apply_if_directive`],
/// [`apply_bound_attribute`], [`splice_outcome`]), applied here to
/// whatever the host returned.
#[verifier::loop_isolation(false)]
pub fn render_children<H: Host>(
    host: &mut H,
    session: u64,
    node: Node,
    loop_expansion: bool,
    ctx: &mut RenderContext,
    injected: Option<&Node>,
    fuel: u64,
) -> (r: Result<(CondGenFlags, Option<Node>), RenderError>)
    ensures
        (r is Ok ==> (r->Ok_0.0.remove <==> r->Ok_0.1 is None)),
        (r is Ok ==> (!r->Ok_0.0.remove ==> r->Ok_0.0.replace@.len() == 0)),
        (r is Ok ==> old(ctx)@.slots.is_prefix_of(final(ctx)@.slots) && old(
            ctx,
        )@.children.is_prefix_of(final(ctx)@.children)),
        ((node@ is Doctype || node@ is ProcessingInstruction || node@ is Comment) ==> r is Ok),
        (node@ is Text && text_spans(node_text(node@)).len() == 0 ==> r is Ok),
        (r matches Err(e) ==> !(e is Parse)),
        (r is Ok && (node@ is Doctype || node@ is ProcessingInstruction) ==> (!r->Ok_0.0.remove
            && r->Ok_0.1 is Some && r->Ok_0.1->0@ == node@ && final(ctx)@ == old(ctx)@)),
        (r is Ok && node@ is Text ==> (!r->Ok_0.0.remove && final(ctx)@ == old(ctx)@
            && r->Ok_0.1 is Some && r->Ok_0.1->0@ is Text && (exists|vals: Seq<Seq<char>>|
            vals.len() == text_spans(node_text(node@)).len() && node_text(r->Ok_0.1->0@)
                == #[trigger] render_spans(
                node_text(node@),
                text_spans(node_text(node@)),
                0,
                vals,
            )) && (text_spans(node_text(node@)).len() == 0 ==> r->Ok_0.1->0@ == node@))),
        (r is Ok && node@ is Comment && !has_prefix(trim_spec(node_text(node@)), "slot:"@) ==> (
        !r->Ok_0.0.remove && r->Ok_0.1 is Some && r->Ok_0.1->0@ == node@ && final(ctx)@ == old(
        ctx)@)),
        (r is Ok && node@ is Comment && has_prefix(trim_spec(node_text(node@)), "slot:"@) ==> ({
            let nm = comment_slot_name(node_text(node@));
            &&& r->Ok_0.0.remove
            &&& final(ctx)@ == old(ctx)@
            &&& (nm == "content"@ ==> (match injected {
                Some(d) => view_seq(r->Ok_0.0.replace@) =~= scaffold_strip(d@),
                None => r->Ok_0.0.replace@.len() == 0,
            }))
            &&& (nm != "content"@ ==> view_seq(r->Ok_0.0.replace@) =~= find_slots(
                old(ctx)@,
                nm,
            ))
        })),
        (r is Ok && node@ is Document ==> (!r->Ok_0.0.remove && r->Ok_0.1 is Some
            && r->Ok_0.1->0@ is Document)),
        (node@ is Document && (forall|j: int|
            0 <= j < children_of(node@).len() ==> ((#[trigger] children_of(node@)[
                j]) is Doctype || children_of(node@)[j] is ProcessingInstruction)) ==> (
        r is Ok && r->Ok_0.1 is Some && r->Ok_0.1->0@ == node@)),
        (r is Ok && node@ is Element && is_static_script(node@) ==> (r->Ok_0.0.remove
            && r->Ok_0.0.replace@.len() == 0 && r->Ok_0.1 is None)),
        (r is Ok && node@ is Element && !is_static_script(node@) && attr_lookup(
            elem_attrs(node@),
            "slot"@,
        ) is Some ==> (r->Ok_0.0.remove && r->Ok_0.0.replace@.len() == 0
            && final(ctx)@.children == old(ctx)@.children && final(ctx)@.slots =~= old(
            ctx,
        )@.slots.push(
            SlotEntryV {
                name: attr_lookup(elem_attrs(node@), "slot"@)->0,
                content: slot_tagged_content(node@),
            },
        ))),
        (r is Ok && node@ is Element && !is_static_script(node@) && attr_lookup(
            elem_attrs(node@),
            "slot"@,
        ) is None && elem_name(node@) == "slot"@ && attr_lookup(
            elem_attrs(node@),
            "name"@,
        ) is Some ==> ({
            let nm = attr_lookup(elem_attrs(node@), "name"@)->0;
            &&& r->Ok_0.0.remove
            &&& final(ctx)@ == old(ctx)@
            &&& (nm == "content"@ ==> (match injected {
                Some(d) => view_seq(r->Ok_0.0.replace@) =~= scaffold_strip(d@),
                None => r->Ok_0.0.replace@.len() == 0,
            }))
            &&& (nm != "content"@ ==> view_seq(r->Ok_0.0.replace@) =~= find_slots(
                old(ctx)@,
                nm,
            ))
        })),
        (r is Ok && node@ is Element && loop_expansion && !is_static_script(node@) && attr_lookup(
            elem_attrs(node@),
            "slot"@,
        ) is None && !(elem_name(node@) == "slot"@ && attr_lookup(
            elem_attrs(node@),
            "name"@,
        ) is Some) && (attr_lookup(elem_attrs(node@), "x-each"@) is Some || attr_lookup(
            elem_attrs(node@),
            "x-for"@,
        ) is Some) ==> r->Ok_0.0.remove),
        (r is Ok && node@ is Element && r->Ok_0.1 is Some ==> ({
            let kept = elem_attrs(r->Ok_0.1->0@);
            let orig = elem_attrs(node@);
            &&& r->Ok_0.1->0@ is Element
            &&& elem_name(r->Ok_0.1->0@) == elem_name(node@)
            &&& (attr_lookup(orig, ":x-if"@) is None ==> attr_lookup(kept, "x-if"@) is None)
            &&& (attr_lookup(orig, ":x-as"@) is None ==> attr_lookup(kept, "x-as"@) is None)
            &&& (attr_lookup(orig, ":x-index"@) is None ==> attr_lookup(
                kept,
                "x-index"@,
            ) is None)
            &&& ((loop_expansion && attr_lookup(orig, ":x-each"@) is None) ==> attr_lookup(
                kept,
                "x-each"@,
            ) is None)
            &&& ((loop_expansion && attr_lookup(orig, ":x-for"@) is None) ==> attr_lookup(
                kept,
                "x-for"@,
            ) is None)
            &&& (attr_lookup(orig, ":id"@) is None ==> attr_lookup(kept, "id"@) == attr_lookup(
                elem_attrs(after_heading(node@)),
                "id"@,
            ))
        })),
        (r is Ok && node@ is Element && r->Ok_0.1 is Some && heading_name(elem_name(node@))
            && attr_lookup(elem_attrs(node@), "id"@) is None && attr_lookup(
            elem_attrs(node@),
            ":id"@,
        ) is None ==> attr_lookup(elem_attrs(r->Ok_0.1->0@), "id"@) == Some(
            lowercased(inner_text_of(node@)),
        )),
    decreases fuel, 2 * size_of(node@) + (if loop_expansion {
        1int
    } else {
        0int
    }),
{
    let ghost nv = node@;
    proof {
        lemma_prefix_refl(ctx@.slots);
        lemma_prefix_refl(ctx@.children);
    }
    match node {
        Node::Doctype { name } => Ok(
            (CondGenFlags::default(), Some(Node::Doctype { name })),
        ),
        Node::ProcessingInstruction { target, text } => Ok(
            (CondGenFlags::default(), Some(Node::ProcessingInstruction { target, text })),
        ),
        Node::Text { text } => {
            let new_text = match interpolate(host, session, text.as_str()) {
                Ok(t) => t,
                Err(e) => {
                    return Err(e);
                },
            };
            Ok((CondGenFlags::default(), Some(Node::Text { text: new_text })))
        },
        Node::Comment { text } => {
            let t = trim(text.as_str());
            if starts_with(t, "slot:") {
                proof {
                    reveal_strlit("slot:");
                }
                let marker = t.substring_char(5, t.unicode_len());
                let nm = trim(marker);
                proof {
                    assert(marker@ =~= trim_spec(text@).skip(5));
                    assert(nm@ == comment_slot_name(text@));
                }
                let flags = slot_outlet(nm, ctx, injected);
                Ok((flags, None))
            } else {
                Ok((CondGenFlags::default(), Some(Node::Comment { text })))
            }
        },
        Node::Document { children } => {
            let ghost ch0 = view_seq(children@);
            proof {
                broadcast use lemma_view_seq;

            }
            let mut kids = children;
            let mut out: Vec<Node> = Vec::new();
            while kids.len() > 0
                invariant
                    forall|j: int|
                        0 <= j < kids@.len() ==> #[trigger] kids@[j]@ == ch0[ch0.len()
                            - kids@.len() + j],
                    kids@.len() <= ch0.len(),
                    old(ctx)@.slots.is_prefix_of(ctx@.slots),
                    old(ctx)@.children.is_prefix_of(ctx@.children),
                    (forall|j: int|
                        0 <= j < ch0.len() ==> ((#[trigger] ch0[j]) is Doctype
                            || ch0[j] is ProcessingInstruction)) ==> view_seq(out@) =~= ch0.take(
                        ch0.len() - kids@.len(),
                    ),
                decreases kids@.len(),
            {
                let child = kids.remove(0);
                proof {
                    assert(child@ == ch0[ch0.len() - kids@.len() - 1]);
                    lemma_size_of_seq_element(ch0, ch0.len() - kids@.len() - 1);
                    assert forall|j: int| 0 <= j < kids@.len() implies #[trigger] kids@[j]@ == ch0[
                        ch0.len() - kids@.len() + j] by {}
                }
                let ghost cpre = ctx@;
                let ghost done = ch0.len() - kids@.len() - 1;
                let step = render_children(host, session, child, true, ctx, injected, fuel);
                proof {
                    if step is Ok {
                        lemma_prefix_trans(old(ctx)@.slots, cpre.slots, ctx@.slots);
                        lemma_prefix_trans(old(ctx)@.children, cpre.children, ctx@.children);
                    }
                }
                match step {
                    Err(e) => {
                        return Err(e);
                    },
                    Ok((flags, kept)) => {
                        splice_outcome(flags, kept, &mut out);
                        proof {
                            if forall|j: int|
                                0 <= j < ch0.len() ==> ((#[trigger] ch0[j]) is Doctype
                                    || ch0[j] is ProcessingInstruction) {
                                assert(ch0.take(done + 1) =~= ch0.take(done).push(ch0[done]));
                                assert(view_seq(out@) =~= ch0.take(done + 1));
                            }
                        }
                    },
                }
            }
            proof {
                assert(ch0.take(ch0.len() as int) =~= ch0);
            }
            Ok((CondGenFlags::default(), Some(Node::Document { children: out })))
        },
        Node::Element { name, attrs, children } => {
            proof {
                broadcast use lemma_view_seq;

            }
            // Rule: a heading without an id gets one synthesized from its
            // lowercased inner text.
            let mut attrs = attrs;
            if is_heading(name.as_str()) && lookup_attr(&attrs, "id").is_none() {
                let itext = inner_text_of_children(&children);
                let low = lowercase(itext.as_str());
                attrs.push(Attr { name: String::from_str("id"), value: low });
                proof {
                    assert(view_attrs(attrs@) =~= elem_attrs(nv).push(
                        AttrV { name: "id"@, value: lowercased(inner_text_of(nv)) },
                    ));
                }
            }
            proof {
                assert(view_attrs(attrs@) == elem_attrs(after_heading(nv)));
                reveal_strlit("id");
                reveal_strlit("static");
                reveal_strlit("ssr");
                reveal_strlit("slot");
                reveal_strlit("name");
                assert("id"@.len() == 2);
                assert("static"@.len() == 6);
                assert("ssr"@.len() == 3);
                assert("slot"@.len() == 4);
                assert("name"@.len() == 4);
                reveal_strlit("x-each");
                reveal_strlit("x-for");
                assert("x-each"@.len() == 6);
                assert("x-for"@.len() == 5);
                lemma_heading_preserves_lookup(nv, "static"@);
                lemma_heading_preserves_lookup(nv, "ssr"@);
                lemma_heading_preserves_lookup(nv, "slot"@);
                lemma_heading_preserves_lookup(nv, "name"@);
                lemma_heading_preserves_lookup(nv, "x-each"@);
                lemma_heading_preserves_lookup(nv, "x-for"@);
            }
            // Rule: a static script runs once as a side effect and leaves
            // the tree.
            if str_eq(name.as_str(), "script") && (lookup_attr(&attrs, "static").is_some()
                || lookup_attr(&attrs, "ssr").is_some()) {
                let script = inner_text_of_children(&children);
                match host.eval(session, script.as_str()) {
                    Ok(_) => (),
                    Err(m) => {
                        return Err(RenderError::Eval(m));
                    },
                }
                if let Some(src) = lookup_attr(&attrs, "src") {
                    let loaded = match host.read_file(src.as_str()) {
                        Ok(t) => t,
                        Err(m) => {
                            return Err(RenderError::Io(m));
                        },
                    };
                    match host.eval(session, loaded.as_str()) {
                        Ok(_) => (),
                        Err(m) => {
                            return Err(RenderError::Eval(m));
                        },
                    }
                }
                return Ok((CondGenFlags { remove: true, replace: Vec::new() }, None));
            }
            proof {
                assert(!is_static_script(nv));
            }
            // Rule: a slot-tagged node is registered for later lookup and
            // leaves the tree, with the tag itself stripped.
            if let Some(sname) = lookup_attr(&attrs, "slot") {
                let stripped = strip_first_attr(attrs, "slot");
                let content = Node::Element { name, attrs: stripped, children };
                proof {
                    assert(content@ =~= slot_tagged_content(nv));
                    lemma_prefix_push(
                        ctx@.slots,
                        SlotEntryV { name: sname@, content: content@ },
                    );
                }
                ctx.register_slot(sname, content);
                return Ok((CondGenFlags { remove: true, replace: Vec::new() }, None));
            }
            // Rule: a named slot element is an outlet.
            if str_eq(name.as_str(), "slot") {
                if let Some(nm) = lookup_attr(&attrs, "name") {
                    let flags = slot_outlet(nm.as_str(), ctx, injected);
                    return Ok((flags, None));
                }
            }
            // Loop binding names are pure configuration, read before the
            // attribute pass.
            let mut loop_name = match lookup_attr(&attrs, "x-as") {
                Some(v) => v,
                None => String::from_str("item"),
            };
            let mut index_name = match lookup_attr(&attrs, "x-index") {
                Some(v) => v,
                None => String::from_str("i"),
            };
            // The attribute pass: process attributes in original order in a
            // single pass.
            let mut final_attrs: Vec<Attr> = Vec::new();
            let mut pending: Option<String> = None;
            let n_attrs = attrs.len();
            proof {
                reveal_strlit("x-each");
                reveal_strlit("x-for");
                reveal_strlit("x-if");
                reveal_strlit("x-as");
                reveal_strlit("x-index");
                reveal_strlit(":");
                reveal_strlit(":x-each");
                reveal_strlit(":x-for");
                reveal_strlit(":x-if");
                reveal_strlit(":x-as");
                reveal_strlit(":x-index");
                reveal_strlit(":id");
                assert("x-each"@.len() == 6);
                assert("x-for"@.len() == 5);
                assert("x-if"@.len() == 4);
                assert("x-as"@.len() == 4);
                assert("x-index"@.len() == 7);
                assert(":"@.len() == 1);
                assert(":x-each"@.len() == 7);
                assert(":x-for"@.len() == 6);
                assert(":x-if"@.len() == 5);
                assert(":x-as"@.len() == 5);
                assert(":x-index"@.len() == 8);
                assert(":id"@.len() == 3);
                lemma_heading_preserves_lookup(nv, ":x-each"@);
                lemma_heading_preserves_lookup(nv, ":x-for"@);
                lemma_heading_preserves_lookup(nv, ":x-if"@);
                lemma_heading_preserves_lookup(nv, ":x-as"@);
                lemma_heading_preserves_lookup(nv, ":x-index"@);
                lemma_heading_preserves_lookup(nv, ":id"@);
                lemma_attr_lookup_none(view_attrs(attrs@), ":x-each"@);
                lemma_attr_lookup_none(view_attrs(attrs@), ":x-for"@);
                lemma_attr_lookup_none(view_attrs(attrs@), ":x-if"@);
                lemma_attr_lookup_none(view_attrs(attrs@), ":x-as"@);
                lemma_attr_lookup_none(view_attrs(attrs@), ":x-index"@);
                lemma_attr_lookup_none(view_attrs(attrs@), ":id"@);
                assert(view_attrs(final_attrs@) =~= Seq::<AttrV>::empty());
                assert(view_attrs(attrs@).take(0) =~= Seq::<AttrV>::empty());
                assert(attr_lookup(Seq::<AttrV>::empty(), "x-if"@) is None);
                assert(attr_lookup(Seq::<AttrV>::empty(), "x-as"@) is None);
                assert(attr_lookup(Seq::<AttrV>::empty(), "x-index"@) is None);
                assert(attr_lookup(Seq::<AttrV>::empty(), "x-each"@) is None);
                assert(attr_lookup(Seq::<AttrV>::empty(), "x-for"@) is None);
                assert(attr_lookup(Seq::<AttrV>::empty(), "id"@) is None);
            }
            let mut i: usize = 0;
            while i < n_attrs
                invariant
                    0 <= i <= n_attrs,
                    ctx@ == old(ctx)@,
                    pending is Some ==> loop_expansion,
                    loop_expansion && (attr_lookup(
                        view_attrs(attrs@).take(i as int),
                        "x-each"@,
                    ) is Some || attr_lookup(
                        view_attrs(attrs@).take(i as int),
                        "x-for"@,
                    ) is Some) ==> pending is Some,
                    attr_lookup(elem_attrs(nv), ":x-as"@) is None ==> attr_lookup(
                        view_attrs(final_attrs@),
                        "x-as"@,
                    ) is None,
                    attr_lookup(elem_attrs(nv), ":x-index"@) is None ==> attr_lookup(
                        view_attrs(final_attrs@),
                        "x-index"@,
                    ) is None,
                    (pending is None && attr_lookup(elem_attrs(nv), ":x-if"@) is None)
                        ==> attr_lookup(view_attrs(final_attrs@), "x-if"@) is None,
                    (loop_expansion && attr_lookup(elem_attrs(nv), ":x-each"@) is None)
                        ==> attr_lookup(view_attrs(final_attrs@), "x-each"@) is None,
                    (loop_expansion && attr_lookup(elem_attrs(nv), ":x-for"@) is None)
                        ==> attr_lookup(view_attrs(final_attrs@), "x-for"@) is None,
                    attr_lookup(elem_attrs(nv), ":id"@) is None ==> attr_lookup(
                        view_attrs(final_attrs@),
                        "id"@,
                    ) == attr_lookup(view_attrs(attrs@).take(i as int), "id"@),
                decreases n_attrs - i,
            {
                let ghost fa_top = view_attrs(final_attrs@);
                let ghost anv = view_attrs(attrs@)[i as int];
                let aname = attrs[i].name.clone();
                let aval = attrs[i].value.clone();
                proof {
                    assert(aname@ == anv.name);
                    assert(aval@ == anv.value);
                }
                if starts_with(aname.as_str(), ":") && pending.is_none() {
                    proof {
                        reveal_strlit(":");
                    }
                    let nlen = aname.as_str().unicode_len();
                    let bare = aname.as_str().substring_char(1, nlen).to_owned();
                    let ghost bv = bare@;
                    proof {
                        assert(bv =~= anv.name.skip(1));
                        assert(anv.name.subrange(0, 1) == ":"@);
                        assert(anv.name[0] == ':') by {
                            assert(anv.name.subrange(0, 1)[0] == anv.name[0]);
                        }
                        assert forall|j: int|
                            0 <= j < anv.name.len() implies anv.name[j] == (seq![':'] + bv)[
                            j] by {
                            if j > 0 {
                                assert(anv.name.skip(1)[j - 1] == anv.name[j]);
                            }
                        }
                        assert(anv.name =~= seq![':'] + bv);
                        if attr_lookup(elem_attrs(nv), ":x-if"@) is None && bv == "x-if"@ {
                            assert(anv.name =~= ":x-if"@);
                        }
                        if attr_lookup(elem_attrs(nv), ":x-as"@) is None && bv == "x-as"@ {
                            assert(anv.name =~= ":x-as"@);
                        }
                        if attr_lookup(elem_attrs(nv), ":x-index"@) is None && bv
                            == "x-index"@ {
                            assert(anv.name =~= ":x-index"@);
                        }
                        if attr_lookup(elem_attrs(nv), ":x-each"@) is None && bv
                            == "x-each"@ {
                            assert(anv.name =~= ":x-each"@);
                        }
                        if attr_lookup(elem_attrs(nv), ":x-for"@) is None && bv == "x-for"@ {
                            assert(anv.name =~= ":x-for"@);
                        }
                        if attr_lookup(elem_attrs(nv), ":id"@) is None && bv == "id"@ {
                            assert(anv.name =~= ":id"@);
                        }
                    }
                    let value = match host.eval(session, aval.as_str()) {
                        Ok(v) => v,
                        Err(m) => {
                            return Err(RenderError::Eval(m));
                        },
                    };
                    if let Some(a) = apply_bound_attribute(bare, &value) {
                        let ghost av = a@;
                        final_attrs.push(a);
                        proof {
                            assert(av.name == bv);
                            assert(view_attrs(final_attrs@) =~= fa_top.push(av));
                            lemma_attr_lookup_push(fa_top, av, "x-if"@);
                            lemma_attr_lookup_push(fa_top, av, "x-as"@);
                            lemma_attr_lookup_push(fa_top, av, "x-index"@);
                            lemma_attr_lookup_push(fa_top, av, "x-each"@);
                            lemma_attr_lookup_push(fa_top, av, "x-for"@);
                            lemma_attr_lookup_push(fa_top, av, "id"@);
                        }
                    }
                } else if str_eq(aname.as_str(), "x-if") && pending.is_none() {
                    let value = match host.eval(session, aval.as_str()) {
                        Ok(v) => v,
                        Err(m) => {
                            return Err(RenderError::Eval(m));
                        },
                    };
                    if let Some(f) = apply_if_directive(&value) {
                        proof {
                            lemma_prefix_refl(ctx@.slots);
                            lemma_prefix_refl(ctx@.children);
                        }
                        return Ok((f, None));
                    }
                } else if str_eq(aname.as_str(), "x-each") && loop_expansion {
                    pending = Some(aval);
                } else if str_eq(aname.as_str(), "x-for") && loop_expansion {
                    let parsed = match parse_for_notation(aval.as_str()) {
                        Ok(p) => p,
                        Err(e) => {
                            return Err(e);
                        },
                    };
                    loop_name = parsed.0;
                    pending = Some(parsed.2);
                } else if str_eq(name.as_str(), "slot") && str_eq(aname.as_str(), "src") {
                    // Rule: a slot with a source path is a nested render of
                    // that template in a fresh session linked to this one.
                    if fuel == 0 {
                        return Err(RenderError::LimitExceeded);
                    }
                    let child_session = host.new_session();
                    host.link_sessions(child_session, "page", child_session);
                    host.link_sessions(child_session, "parent", session);
                    let contents = match host.read_file(aval.as_str()) {
                        Ok(t) => t,
                        Err(m) => {
                            return Err(RenderError::Io(m));
                        },
                    };
                    let nested = parse_and_render_dom(
                        host,
                        child_session,
                        contents.as_str(),
                        None,
                        None,
                        fuel - 1,
                    );
                    let (tree, child_ctx) = match nested {
                        Ok(p) => p,
                        Err(e) => {
                            return Err(e);
                        },
                    };
                    proof {
                        lemma_prefix_refl(ctx@.slots);
                        lemma_prefix_push(ctx@.children, child_ctx@);
                    }
                    ctx.push_child(child_ctx);
                    let repl = take_body_children(tree);
                    return Ok((CondGenFlags { remove: true, replace: repl }, None));
                } else if str_eq(aname.as_str(), "x-as") || str_eq(aname.as_str(), "x-index") {
                    // Pure configuration: never copied to the output.
                } else {
                    final_attrs.push(Attr { name: aname, value: aval });
                    proof {
                        assert(view_attrs(final_attrs@) =~= fa_top.push(anv));
                        lemma_attr_lookup_push(fa_top, anv, "x-if"@);
                        lemma_attr_lookup_push(fa_top, anv, "x-as"@);
                        lemma_attr_lookup_push(fa_top, anv, "x-index"@);
                        lemma_attr_lookup_push(fa_top, anv, "x-each"@);
                        lemma_attr_lookup_push(fa_top, anv, "x-for"@);
                        lemma_attr_lookup_push(fa_top, anv, "id"@);
                    }
                }
                proof {
                    let s = view_attrs(attrs@);
                    assert(s.take(i as int + 1) =~= s.take(i as int).push(s[i as int]));
                    if crate::strutil::has_prefix("x-each"@, ":"@) {
                        assert("x-each"@.subrange(0, 1)[0] == ':');
                        assert("x-each"@.subrange(0, 1)[0] == 'x');
                    }
                    if crate::strutil::has_prefix("x-for"@, ":"@) {
                        assert("x-for"@.subrange(0, 1)[0] == ':');
                        assert("x-for"@.subrange(0, 1)[0] == 'x');
                    }
                    if crate::strutil::has_prefix("id"@, ":"@) {
                        assert("id"@.subrange(0, 1)[0] == ':');
                        assert("id"@.subrange(0, 1)[0] == 'i');
                    }
                    lemma_attr_lookup_push(s.take(i as int), s[i as int], "x-each"@);
                    lemma_attr_lookup_push(s.take(i as int), s[i as int], "x-for"@);
                    lemma_attr_lookup_push(s.take(i as int), s[i as int], "id"@);
                }
                i = i + 1;
            }
            proof {
                assert(view_attrs(attrs@).take(n_attrs as int) =~= view_attrs(attrs@));
                if nv is Element && heading_name(elem_name(nv)) && attr_lookup(
                    elem_attrs(nv),
                    "id"@,
                ) is None {
                    lemma_attr_lookup_push(
                        elem_attrs(nv),
                        AttrV { name: "id"@, value: lowercased(inner_text_of(nv)) },
                        "id"@,
                    );
                }
            }
            if let Some(source) = pending {
                // Loop expansion: evaluate the iteration source once, and
                // clone the element once per yielded value, re-running the
                // transformer on each clone with the bindings in scope.
                let iter = match host.iter_begin(session, source.as_str()) {
                    Ok(it) => it,
                    Err(m) => {
                        return Err(RenderError::IteratorProtocol(m));
                    },
                };
                let template = Node::Element { name, attrs: final_attrs, children };
                proof {
                    assert(size_of(template@) == size_of(nv));
                }
                let mut replacements: Vec<Node> = Vec::new();
                let mut idx: u64 = 0;
                let mut finished = false;
                while !finished && idx < MAX_LOOP_ITERATIONS
                    invariant
                        idx <= MAX_LOOP_ITERATIONS,
                        old(ctx)@.slots.is_prefix_of(ctx@.slots),
                        old(ctx)@.children.is_prefix_of(ctx@.children),
                    decreases MAX_LOOP_ITERATIONS - idx + (if finished {
                        0int
                    } else {
                        1int
                    }),
                {
                    let done = match host.iter_next(session, iter, loop_name.as_str()) {
                        Ok(d) => d,
                        Err(m) => {
                            return Err(RenderError::IteratorProtocol(m));
                        },
                    };
                    if done {
                        finished = true;
                    } else {
                        host.set_global_index(session, index_name.as_str(), idx);
                        let clone = deep_clone(&template);
                        let ghost cpre = ctx@;
                        let step = render_children(
                            host,
                            session,
                            clone,
                            false,
                            ctx,
                            injected,
                            fuel,
                        );
                        proof {
                            if step is Ok {
                                lemma_prefix_trans(old(ctx)@.slots, cpre.slots, ctx@.slots);
                                lemma_prefix_trans(
                                    old(ctx)@.children,
                                    cpre.children,
                                    ctx@.children,
                                );
                            }
                        }
                        match step {
                            Err(e) => {
                                return Err(e);
                            },
                            Ok((flags, kept)) => {
                                splice_outcome(flags, kept, &mut replacements);
                            },
                        }
                        idx = idx + 1;
                    }
                }
                if !finished {
                    return Err(RenderError::LimitExceeded);
                }
                Ok((CondGenFlags { remove: true, replace: replacements }, None))
            } else {
                // No iteration pending: recurse into the children in order,
                // splicing each child's result.
                if str_eq(name.as_str(), "script") {
                    // An ordinary script's contents are copied verbatim.
                    return Ok(
                        (
                            CondGenFlags::default(),
                            Some(Node::Element { name, attrs: final_attrs, children }),
                        ),
                    );
                }
                let ghost ch0 = view_seq(children@);
                let mut kids = children;
                let mut out: Vec<Node> = Vec::new();
                while kids.len() > 0
                    invariant
                        forall|j: int|
                            0 <= j < kids@.len() ==> #[trigger] kids@[j]@ == ch0[ch0.len()
                                - kids@.len() + j],
                        kids@.len() <= ch0.len(),
                        old(ctx)@.slots.is_prefix_of(ctx@.slots),
                        old(ctx)@.children.is_prefix_of(ctx@.children),
                    decreases kids@.len(),
                {
                    let child = kids.remove(0);
                    proof {
                        assert(child@ == ch0[ch0.len() - kids@.len() - 1]);
                        lemma_size_of_seq_element(ch0, ch0.len() - kids@.len() - 1);
                        assert forall|j: int| 0 <= j < kids@.len() implies #[trigger] kids@[j]@
                            == ch0[ch0.len() - kids@.len() + j] by {}
                    }
                    let ghost cpre = ctx@;
                    let step = render_children(host, session, child, true, ctx, injected, fuel);
                    proof {
                        if step is Ok {
                            lemma_prefix_trans(old(ctx)@.slots, cpre.slots, ctx@.slots);
                            lemma_prefix_trans(old(ctx)@.children, cpre.children, ctx@.children);
                        }
                    }
                    match step {
                        Err(e) => {
                            return Err(e);
                        },
                        Ok((flags, kept)) => {
                            splice_outcome(flags, kept, &mut out);
                        },
                    }
                }
                Ok(
                    (
                        CondGenFlags::default(),
                        Some(Node::Element { name, attrs: final_attrs, children: out }),
                    ),
                )
            }
        },
    }
}

/// Render a parsed template: run the transformer over the whole tree with a
/// fresh render context, chained under the calling session's context when
/// one is given.
pub fn render_dom<H: Host>(
    host: &mut H,
    session: u64,
    dom: Node,
    parent_context: Option<RenderContext>,
    injected: Option<&Node>,
    fuel: u64,
) -> (r: Result<(Node, RenderContext), RenderError>)
    ensures
        (r is Ok && dom@ is Document ==> r->Ok_0.0@ is Document),
        (r is Ok && parent_context is Some ==> r->Ok_0.1@.children.len() >= 1
            && r->Ok_0.1@.children[0] == parent_context->0@),
        ((dom@ is Doctype || dom@ is ProcessingInstruction || dom@ is Comment) ==> r is Ok),
        ((dom@ is Doctype || dom@ is ProcessingInstruction) ==> (r is Ok && r->Ok_0.0@ == dom@)),
        (dom@ is Comment && !has_prefix(trim_spec(node_text(dom@)), "slot:"@) ==> (r is Ok
            && r->Ok_0.0@ == dom@)),
        (dom@ is Text && text_spans(node_text(dom@)).len() == 0 ==> r is Ok),
        (r matches Err(e) ==> !(e is Parse)),
    decreases fuel, 2 * size_of(dom@) + 2,
{
    let ghost pc = parent_context;
    let mut ctx = RenderContext::new_with_subcontext(parent_context);
    proof {
        if pc is Some {
            assert(ctx@.children =~= seq![pc->0@]);
        }
    }
    let ghost c0 = ctx@;
    let step = render_children(host, session, dom, true, &mut ctx, injected, fuel);
    proof {
        if step is Ok && pc is Some {
            assert(c0.children.is_prefix_of(ctx@.children));
            assert(ctx@.children[0] == ctx@.children.subrange(0, 1)[0]);
            assert(ctx@.children[0] == pc->0@);
        }
    }
    match step {
        Err(e) => Err(e),
        Ok((flags, kept)) => match kept {
            Some(n) => Ok((n, ctx)),
            None => Ok((Node::Document { children: flags.replace }, ctx)),
        },
    }
}

/// Parse a template and render it, as one step of a render chain.
pub fn parse_and_render_dom<H: Host>(
    host: &mut H,
    session: u64,
    template: &str,
    parent_context: Option<RenderContext>,
    injected: Option<&Node>,
    fuel: u64,
) -> (r: Result<(Node, RenderContext), RenderError>)
    ensures
        (r is Ok && parent_context is Some ==> r->Ok_0.1@.children.len() >= 1
            && r->Ok_0.1@.children[0] == parent_context->0@),
        (fuel == 0 ==> (r matches Err(e) && e is LimitExceeded)),
        (r matches Err(e) ==> !(e is Parse)),
    decreases fuel, 0int,
{
    if fuel == 0 {
        return Err(RenderError::LimitExceeded);
    }
    let tree = host.parse_html(template);
    render_dom(host, session, tree, parent_context, injected, fuel - 1)
}

} // verus!
