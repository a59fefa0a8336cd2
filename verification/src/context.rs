//! Per-render-session scoping: each session records the content nodes
//! tagged for named slots and the nested sessions it spawned.  Parent and
//! child links mirror the template inclusion chain, not the document tree.
//! Lookup is depth first: a session's own registrations come first, in
//! registration order, then each nested session's in turn.

use vstd::prelude::*;
use crate::dom::{deep_clone, Node, NodeV, view_seq, lemma_view_seq};

verus! {

/// One registered slot: a name and the content node tagged with it.
pub struct SlotEntry {
    pub name: String,
    pub content: Node,
}

/// Mathematical model of a [`SlotEntry`].
pub struct SlotEntryV {
    pub name: Seq<char>,
    pub content: NodeV,
}

impl View for SlotEntry {
    type V = SlotEntryV;

    open spec fn view(&self) -> SlotEntryV {
        SlotEntryV { name: self.name@, content: self.content@ }
    }
}

/// The scoping structure of one render session.
pub struct RenderContext {
    pub slots: Vec<SlotEntry>,
    pub children: Vec<RenderContext>,
}

/// Mathematical model of a [`RenderContext`].
pub struct RenderContextV {
    pub slots: Seq<SlotEntryV>,
    pub children: Seq<RenderContextV>,
}

/// The views of a list of slot entries.
pub open spec fn view_slots(s: Seq<SlotEntry>) -> Seq<SlotEntryV> {
    Seq::new(s.len(), |i: int| s[i]@)
}

/// The views of a list of contexts, in order.
pub open spec fn view_ctxs(s: Seq<RenderContext>) -> Seq<RenderContextV>
    decreases s,
{
    if s.len() == 0 {
        Seq::empty()
    } else {
        seq![s[0]@] + view_ctxs(s.drop_first())
    }
}

impl View for RenderContext {
    type V = RenderContextV;

    open spec fn view(&self) -> RenderContextV
        decreases self,
    {
        RenderContextV { slots: view_slots(self.slots@), children: view_ctxs(self.children@) }
    }
}

/// Pointwise description of [`view_ctxs`].
pub broadcast proof fn lemma_view_ctxs(s: Seq<RenderContext>)
    ensures
        #![trigger view_ctxs(s)]
        view_ctxs(s).len() == s.len(),
        forall|i: int| 0 <= i < s.len() ==> view_ctxs(s)[i] == s[i]@,
    decreases s,
{
    if s.len() > 0 {
        lemma_view_ctxs(s.drop_first());
        assert(view_ctxs(s) == seq![s[0]@] + view_ctxs(s.drop_first()));
        assert forall|i: int| 0 <= i < s.len() implies view_ctxs(s)[i] == s[i]@ by {
            if i == 0 {
                assert(view_ctxs(s)[0] == seq![s[0]@][0]);
            } else {
                assert(view_ctxs(s)[i] == view_ctxs(s.drop_first())[i - 1]);
                assert(s.drop_first()[i - 1] == s[i]);
            }
        }
    }
}

/// The weight of a context: itself plus all nested sessions.
pub open spec fn ctx_size(c: RenderContextV) -> nat
    decreases c,
{
    2 + ctx_size_seq(c.children)
}

/// The combined weight of a list of contexts.
pub open spec fn ctx_size_seq(s: Seq<RenderContextV>) -> nat
    decreases s,
{
    if s.len() == 0 {
        0
    } else {
        ctx_size(s[0]) + ctx_size_seq(s.drop_first())
    }
}

proof fn lemma_ctx_size_seq_element(s: Seq<RenderContextV>, i: int)
    requires
        0 <= i < s.len(),
    ensures
        ctx_size(s[i]) <= ctx_size_seq(s),
    decreases s.len(),
{
    if i > 0 {
        lemma_ctx_size_seq_element(s.drop_first(), i - 1);
        assert(s.drop_first()[i - 1] == s[i]);
    }
}

/// The content registered under `name` among a session's own slots, in
/// registration order.
pub open spec fn own_slot_matches(slots: Seq<SlotEntryV>, name: Seq<char>) -> Seq<NodeV>
    decreases slots,
{
    if slots.len() == 0 {
        Seq::empty()
    } else if slots[0].name == name {
        seq![slots[0].content] + own_slot_matches(slots.drop_first(), name)
    } else {
        own_slot_matches(slots.drop_first(), name)
    }
}

/// Everything registered under `name`, depth first: a session's own
/// registrations first, then each nested session's in order.
pub open spec fn find_slots(c: RenderContextV, name: Seq<char>) -> Seq<NodeV>
    decreases c, 1int,
{
    own_slot_matches(c.slots, name) + find_slots_in(c.children, name)
}

/// The registrations under `name` across a list of contexts, in order.
pub open spec fn find_slots_in(cs: Seq<RenderContextV>, name: Seq<char>) -> Seq<NodeV>
    decreases cs, 2int,
{
    if cs.len() == 0 {
        Seq::empty()
    } else {
        find_slots(cs[0], name) + find_slots_in(cs.drop_first(), name)
    }
}

impl RenderContext {
    /// A fresh context with no slots and no nested sessions.
    pub fn new() -> (r: RenderContext)
        ensures
            r@.slots.len() == 0,
            r@.children.len() == 0,
    {
        RenderContext { slots: Vec::new(), children: Vec::new() }
    }

    /// A fresh context for a new session; the calling session's context, if
    /// any, becomes its first nested context, so that lookups reach the
    /// content the caller registered.
    pub fn new_with_subcontext(parent: Option<RenderContext>) -> (r: RenderContext)
        ensures
            r@.slots.len() == 0,
            (match parent {
                Some(p) => r@.children =~= seq![p@],
                None => r@.children.len() == 0,
            }),
    {
        match parent {
            Some(p) => {
                let mut children: Vec<RenderContext> = Vec::new();
                children.push(p);
                let r = RenderContext { slots: Vec::new(), children };
                proof {
                    broadcast use lemma_view_ctxs;

                    assert(r.children@.drop_first() =~= Seq::<RenderContext>::empty());
                    assert(view_ctxs(Seq::<RenderContext>::empty()) =~= Seq::<
                        RenderContextV,
                    >::empty());
                    assert(r@.children =~= seq![r.children@[0]@]);
                }
                r
            },
            None => RenderContext { slots: Vec::new(), children: Vec::new() },
        }
    }

    /// Record `content` as tagged for the slot `name`, after everything
    /// already registered.
    pub fn register_slot(&mut self, name: String, content: Node)
        ensures
            final(self)@.slots =~= old(self)@.slots.push(
                SlotEntryV { name: name@, content: content@ },
            ),
            final(self)@.children == old(self)@.children,
    {
        self.slots.push(SlotEntry { name, content });
        proof {
            assert(view_slots(self.slots@) =~= view_slots(old(self).slots@).push(
                self.slots@.last()@,
            ));
        }
    }

    /// Append a nested session's context.
    pub fn push_child(&mut self, child: RenderContext)
        ensures
            final(self)@.slots == old(self)@.slots,
            final(self)@.children =~= old(self)@.children.push(child@),
    {
        let ghost c = child@;
        self.children.push(child);
        proof {
            broadcast use lemma_view_ctxs;

            assert(view_ctxs(self.children@) =~= view_ctxs(old(self).children@).push(c));
        }
    }

    /// Everything registered under `name`, searched depth first; an empty
    /// list (never an error) when nothing matches, which callers treat as
    /// "omit".  The found nodes are returned as deep copies.
    pub fn find_slot_contents(&self, name: &str) -> (r: Vec<Node>)
        ensures
            view_seq(r@) =~= find_slots(self@, name@),
        decreases ctx_size(self@), 1int,
    {
        let mut out: Vec<Node> = Vec::new();
        let mut i: usize = 0;
        let n = self.slots.len();
        while i < n
            invariant
                0 <= i <= n,
                n == self.slots@.len(),
                view_seq(out@) =~= own_slot_matches(
                    view_slots(self.slots@).take(i as int),
                    name@,
                ),
            decreases n - i,
        {
            proof {
                broadcast use lemma_view_seq;

            }
            if crate::strutil::str_eq(self.slots[i].name.as_str(), name) {
                let c = deep_clone(&self.slots[i].content);
                out.push(c);
            }
            proof {
                lemma_own_slot_matches_push(
                    view_slots(self.slots@).take(i as int),
                    self.slots@[i as int]@,
                    name@,
                );
                assert(view_slots(self.slots@).take(i as int).push(self.slots@[i as int]@)
                    =~= view_slots(self.slots@).take(i as int + 1));
            }
            i = i + 1;
        }
        proof {
            assert(view_slots(self.slots@).take(n as int) =~= view_slots(self.slots@));
        }
        let more = find_in_children(&self.children, 0, name);
        let mut result = out;
        let mut rest = more;
        proof {
            broadcast use lemma_view_seq;

        }
        let ghost before = result@;
        let ghost added = rest@;
        result.append(&mut rest);
        proof {
            assert(view_seq(result@) =~= view_seq(before) + view_seq(added));
            assert(view_ctxs(self.children@).skip(0) =~= view_ctxs(self.children@));
        }
        result
    }
}

/// Concatenation of everything registered under `name` in the contexts from
/// position `from` on.
fn find_in_children(cs: &Vec<RenderContext>, from: usize, name: &str) -> (r: Vec<Node>)
    requires
        from <= cs@.len(),
    ensures
        view_seq(r@) =~= find_slots_in(view_ctxs(cs@).skip(from as int), name@),
    decreases ctx_size_seq(view_ctxs(cs@)), 2int, cs@.len() - from,
{
    proof {
        broadcast use lemma_view_ctxs;

    }
    if from == cs.len() {
        let r: Vec<Node> = Vec::new();
        proof {
            assert(view_ctxs(cs@).skip(from as int) =~= Seq::<RenderContextV>::empty());
        }
        r
    } else {
        proof {
            lemma_ctx_size_seq_element(view_ctxs(cs@), from as int);
        }
        let mut head = cs[from].find_slot_contents(name);
        let mut tail = find_in_children(cs, from + 1, name);
        proof {
            broadcast use lemma_view_seq;

        }
        let ghost h = head@;
        let ghost t = tail@;
        head.append(&mut tail);
        proof {
            assert(view_seq(head@) =~= view_seq(h) + view_seq(t));
            let s = view_ctxs(cs@);
            assert(s.skip(from as int)[0] == s[from as int]);
            assert(s.skip(from as int).drop_first() =~= s.skip(from as int + 1));
        }
        head
    }
}

/// Appending a slot entry extends the matches for its own name at the end
/// and leaves every other name's matches unchanged.
pub proof fn lemma_own_slot_matches_push(slots: Seq<SlotEntryV>, e: SlotEntryV, q: Seq<char>)
    ensures
        e.name == q ==> own_slot_matches(slots.push(e), q) =~= own_slot_matches(slots, q).push(
            e.content,
        ),
        e.name != q ==> own_slot_matches(slots.push(e), q) =~= own_slot_matches(slots, q),
    decreases slots.len(),
{
    let pushed = slots.push(e);
    if slots.len() == 0 {
        assert(pushed.len() == 1);
        assert(pushed[0] == e);
        assert(pushed.drop_first() =~= Seq::<SlotEntryV>::empty());
        assert(own_slot_matches(Seq::<SlotEntryV>::empty(), q) =~= Seq::<NodeV>::empty());
        if e.name == q {
            assert(own_slot_matches(pushed, q) =~= seq![e.content]);
            assert(own_slot_matches(slots, q) =~= Seq::<NodeV>::empty());
            assert(own_slot_matches(slots, q).push(e.content) =~= seq![e.content]);
        } else {
            assert(own_slot_matches(pushed, q) =~= Seq::<NodeV>::empty());
        }
    } else {
        assert(pushed.len() == slots.len() + 1);
        assert(pushed[0] == slots[0]);
        assert(pushed.drop_first() =~= slots.drop_first().push(e));
        lemma_own_slot_matches_push(slots.drop_first(), e, q);
        if e.name == q {
            assert(own_slot_matches(slots.drop_first().push(e), q) =~= own_slot_matches(
                slots.drop_first(),
                q,
            ).push(e.content));
            if slots[0].name == q {
                assert(own_slot_matches(pushed, q) =~= seq![slots[0].content]
                    + own_slot_matches(slots.drop_first(), q).push(e.content));
                assert(own_slot_matches(pushed, q) =~= (seq![slots[0].content]
                    + own_slot_matches(slots.drop_first(), q)).push(e.content));
            }
        } else {
            assert(own_slot_matches(slots.drop_first().push(e), q) =~= own_slot_matches(
                slots.drop_first(),
                q,
            ));
        }
    }
}

/// Slot round trip: after a node is registered under a name, looking that
/// name up finds it, after the entries this session already registered
/// under the name and before any nested session's; lookups under any other
/// name are unchanged.
pub proof fn lemma_slot_round_trip(c: RenderContextV, name: Seq<char>, content: NodeV, q: Seq<char>)
    ensures
        ({
            let after = RenderContextV {
                slots: c.slots.push(SlotEntryV { name, content }),
                children: c.children,
            };
            &&& (q == name ==> find_slots(after, q) =~= own_slot_matches(c.slots, q).push(content)
                + find_slots_in(c.children, q))
            &&& (q != name ==> find_slots(after, q) =~= find_slots(c, q))
        }),
{
    lemma_own_slot_matches_push(c.slots, SlotEntryV { name, content }, q);
}


/// A sequence is a prefix of itself.
pub proof fn lemma_prefix_refl<T>(s: Seq<T>)
    ensures
        s.is_prefix_of(s),
{
    assert(s.subrange(0, s.len() as int) =~= s);
}

/// A sequence is a prefix of itself extended by one element.
pub proof fn lemma_prefix_push<T>(s: Seq<T>, e: T)
    ensures
        s.is_prefix_of(s.push(e)),
{
    assert(s.push(e).subrange(0, s.len() as int) =~= s);
}

/// Being a prefix is transitive.
pub proof fn lemma_prefix_trans<T>(a: Seq<T>, b: Seq<T>, c: Seq<T>)
    requires
        a.is_prefix_of(b),
        b.is_prefix_of(c),
    ensures
        a.is_prefix_of(c),
{
    assert forall|i: int| 0 <= i < a.len() implies a[i] == c[i] by {
        assert(a[i] == b.subrange(0, a.len() as int)[i]);
        assert(b[i] == c.subrange(0, b.len() as int)[i]);
    }
    assert(c.subrange(0, a.len() as int) =~= a);
}


/// Whether `p` stands on the leftmost spine of `c`'s nested contexts: the
/// shape a layout chain leaves behind, each hop's context holding the
/// previous hop's context as its first nested context.
pub open spec fn ctx_nests(c: RenderContextV, p: RenderContextV) -> bool
    decreases c,
{
    c.children.len() >= 1 && (c.children[0] == p || ctx_nests(c.children[0], p))
}

/// Standing on the spine is transitive.
pub proof fn lemma_ctx_nests_trans(a: RenderContextV, b: RenderContextV, p: RenderContextV)
    requires
        ctx_nests(a, b),
        ctx_nests(b, p),
    ensures
        ctx_nests(a, p),
    decreases a,
{
    if a.children[0] != b {
        lemma_ctx_nests_trans(a.children[0], b, p);
    }
}


/// Everything registered under a name in a context on the spine is found
/// from the outer context too: as a contiguous run, in the same order,
/// starting at the returned position.  With [`lemma_slot_round_trip`],
/// content tagged at any hop of a layout chain is found by an outlet at
/// any later hop.
pub proof fn lemma_nested_slots_found(c: RenderContextV, p: RenderContextV, name: Seq<char>) -> (
    off: int)
    requires
        ctx_nests(c, p),
    ensures
        0 <= off,
        off + find_slots(p, name).len() <= find_slots(c, name).len(),
        find_slots(p, name) =~= find_slots(c, name).subrange(
            off,
            off + find_slots(p, name).len(),
        ),
    decreases c,
{
    let own = own_slot_matches(c.slots, name);
    let inner = find_slots(c.children[0], name);
    let rest = find_slots_in(c.children.drop_first(), name);
    assert(find_slots_in(c.children, name) == inner + find_slots_in(
        c.children.drop_first(),
        name,
    ));
    assert(find_slots(c, name) == own + (inner + rest));
    if c.children[0] == p {
        let off = own.len() as int;
        assert forall|k: int|
            0 <= k < inner.len() implies #[trigger] find_slots(c, name).subrange(
                off,
                off + inner.len(),
            )[k] == inner[k] by {
            assert(find_slots(c, name).subrange(off, off + inner.len())[k] == find_slots(
                c,
                name,
            )[off + k]);
            assert((own + (inner + rest))[off + k] == (inner + rest)[k]);
            assert((inner + rest)[k] == inner[k]);
        }
        assert(find_slots(p, name) =~= find_slots(c, name).subrange(off, off + inner.len()));
        off
    } else {
        let off0 = lemma_nested_slots_found(c.children[0], p, name);
        let off = own.len() + off0;
        let plen = find_slots(p, name).len() as int;
        assert forall|k: int|
            0 <= k < plen implies #[trigger] find_slots(c, name).subrange(off, off + plen)[k]
                == find_slots(p, name)[k] by {
            assert(find_slots(c, name).subrange(off, off + plen)[k] == find_slots(c, name)[off
                + k]);
            assert((own + (inner + rest))[off + k] == (inner + rest)[off0 + k]);
            assert((inner + rest)[off0 + k] == inner[off0 + k]);
            assert(find_slots(p, name)[k] == inner.subrange(off0, off0 + plen)[k]);
            assert(inner.subrange(off0, off0 + plen)[k] == inner[off0 + k]);
        }
        assert(find_slots(p, name) =~= find_slots(c, name).subrange(off, off + plen));
        off
    }
}

} // verus!
