//! The document tree that the transformer rewrites: a closed tagged union of
//! node kinds, with child ordering semantically significant, together with
//! deep cloning, inner-text collection and attribute lookup.

use vstd::prelude::*;

verus! {

/// One attribute of an element: a name and a value.  Order among the
/// surviving attributes of an element is preserved by the transformer.
pub struct Attr {
    pub name: String,
    pub value: String,
}

/// Mathematical model of an [`Attr`].
pub struct AttrV {
    pub name: Seq<char>,
    pub value: Seq<char>,
}

impl View for Attr {
    type V = AttrV;

    open spec fn view(&self) -> AttrV {
        AttrV { name: self.name@, value: self.value@ }
    }
}

impl DeepView for Attr {
    type V = AttrV;

    open spec fn deep_view(&self) -> AttrV {
        self@
    }
}

/// A node of the document tree.  Each node owns its ordered child list.
pub enum Node {
    Document { children: Vec<Node> },
    Element { name: String, attrs: Vec<Attr>, children: Vec<Node> },
    Text { text: String },
    Comment { text: String },
    Doctype { name: String },
    ProcessingInstruction { target: String, text: String },
}

/// Mathematical model of a [`Node`].
pub enum NodeV {
    Document { children: Seq<NodeV> },
    Element { name: Seq<char>, attrs: Seq<AttrV>, children: Seq<NodeV> },
    Text { text: Seq<char> },
    Comment { text: Seq<char> },
    Doctype { name: Seq<char> },
    ProcessingInstruction { target: Seq<char>, text: Seq<char> },
}

/// The views of a sequence of nodes, in order.
pub open spec fn view_seq(s: Seq<Node>) -> Seq<NodeV>
    decreases s,
{
    if s.len() == 0 {
        Seq::empty()
    } else {
        seq![s[0]@] + view_seq(s.drop_first())
    }
}

/// The views of a sequence of attributes, in order.
pub open spec fn view_attrs(s: Seq<Attr>) -> Seq<AttrV> {
    Seq::new(s.len(), |i: int| s[i]@)
}

impl View for Node {
    type V = NodeV;

    open spec fn view(&self) -> NodeV
        decreases self,
    {
        match self {
            Node::Document { children } => NodeV::Document { children: view_seq(children@) },
            Node::Element { name, attrs, children } => NodeV::Element {
                name: name@,
                attrs: view_attrs(attrs@),
                children: view_seq(children@),
            },
            Node::Text { text } => NodeV::Text { text: text@ },
            Node::Comment { text } => NodeV::Comment { text: text@ },
            Node::Doctype { name } => NodeV::Doctype { name: name@ },
            Node::ProcessingInstruction { target, text } => NodeV::ProcessingInstruction {
                target: target@,
                text: text@,
            },
        }
    }
}

/// Pointwise description of [`view_seq`].
pub broadcast proof fn lemma_view_seq(s: Seq<Node>)
    ensures
        #![trigger view_seq(s)]
        view_seq(s).len() == s.len(),
        forall|i: int| 0 <= i < s.len() ==> view_seq(s)[i] == s[i]@,
    decreases s,
{
    if s.len() > 0 {
        lemma_view_seq(s.drop_first());
        assert(view_seq(s) == seq![s[0]@] + view_seq(s.drop_first()));
        assert(view_seq(s).len() == s.len());
        assert forall|i: int| 0 <= i < s.len() implies view_seq(s)[i] == s[i]@ by {
            if i == 0 {
                assert(view_seq(s)[0] == seq![s[0]@][0]);
            } else {
                assert(view_seq(s)[i] == view_seq(s.drop_first())[i - 1]);
                assert(s.drop_first()[i - 1] == s[i]);
            }
        }
    }
}

impl DeepView for Node {
    type V = NodeV;

    open spec fn deep_view(&self) -> NodeV {
        self@
    }
}

/// The size of a node: itself plus all of its descendants, weighted so that
/// the transformer's termination measure can distinguish a node from its
/// child list.
pub open spec fn size_of(n: NodeV) -> nat
    decreases n,
{
    match n {
        NodeV::Document { children } => 2 + size_of_seq(children),
        NodeV::Element { children, .. } => 2 + size_of_seq(children),
        _ => 2,
    }
}

/// The combined size of a sequence of nodes.
pub open spec fn size_of_seq(s: Seq<NodeV>) -> nat
    decreases s,
{
    if s.len() == 0 {
        0
    } else {
        size_of(s[0]) + size_of_seq(s.drop_first())
    }
}

/// An element of a sequence is no larger than the whole sequence.
pub proof fn lemma_size_of_seq_element(s: Seq<NodeV>, i: int)
    requires
        0 <= i < s.len(),
    ensures
        size_of(s[i]) <= size_of_seq(s),
    decreases s.len(),
{
    if i > 0 {
        lemma_size_of_seq_element(s.drop_first(), i - 1);
        assert(s.drop_first()[i - 1] == s[i]);
    }
}

/// The children of a node, as a sequence; empty for leaf kinds.
pub open spec fn children_of(n: NodeV) -> Seq<NodeV> {
    match n {
        NodeV::Document { children } => children,
        NodeV::Element { children, .. } => children,
        _ => Seq::empty(),
    }
}

/// Deep copy of a node and all of its descendants.
pub fn deep_clone(n: &Node) -> (r: Node)
    ensures
        r@ == n@,
    decreases size_of(n@), 1int,
{
    match n {
        Node::Document { children } => {
            proof {
                broadcast use lemma_view_seq;

            }
            let c = clone_children(children);
            let r = Node::Document { children: c };
            proof {
                assert(view_seq(c@) =~= view_seq(children@));
            }
            r
        },
        Node::Element { name, attrs, children } => {
            proof {
                broadcast use lemma_view_seq;

            }
            let c = clone_children(children);
            let a = clone_attrs(attrs);
            let r = Node::Element { name: name.clone(), attrs: a, children: c };
            proof {
                assert(view_seq(c@) =~= view_seq(children@));
                assert(view_attrs(a@) =~= view_attrs(attrs@));
            }
            r
        },
        Node::Text { text } => Node::Text { text: text.clone() },
        Node::Comment { text } => Node::Comment { text: text.clone() },
        Node::Doctype { name } => Node::Doctype { name: name.clone() },
        Node::ProcessingInstruction { target, text } => Node::ProcessingInstruction {
            target: target.clone(),
            text: text.clone(),
        },
    }
}

/// Deep copy of a child list.
fn clone_children(v: &Vec<Node>) -> (r: Vec<Node>)
    ensures
        r@.len() == v@.len(),
        forall|i: int| 0 <= i < v@.len() ==> r@[i]@ == v@[i]@,
    decreases size_of_seq(view_seq(v@)), 2int,
{
    proof {
        broadcast use lemma_view_seq;

    }
    let mut out: Vec<Node> = Vec::new();
    let n = v.len();
    let mut i: usize = 0;
    while i < n
        invariant
            0 <= i <= n,
            n == v@.len(),
            out@.len() == i,
            forall|j: int| 0 <= j < i ==> out@[j]@ == v@[j]@,
        decreases n - i,
    {
        proof {
            broadcast use lemma_view_seq;

            lemma_size_of_seq_element(view_seq(v@), i as int);
        }
        let c = deep_clone(&v[i]);
        out.push(c);
        i = i + 1;
    }
    out
}

/// Copy of an attribute list.
fn clone_attrs(v: &Vec<Attr>) -> (r: Vec<Attr>)
    ensures
        r@.len() == v@.len(),
        forall|i: int| 0 <= i < v@.len() ==> r@[i]@ == v@[i]@,
{
    let mut out: Vec<Attr> = Vec::new();
    let n = v.len();
    let mut i: usize = 0;
    while i < n
        invariant
            0 <= i <= n,
            n == v@.len(),
            out@.len() == i,
            forall|j: int| 0 <= j < i ==> out@[j]@ == v@[j]@,
        decreases n - i,
    {
        let a = Attr { name: v[i].name.clone(), value: v[i].value.clone() };
        out.push(a);
        i = i + 1;
    }
    out
}

/// The text held by a node: a text node's own contents, or the
/// concatenation of its children's inner text in order.
pub open spec fn inner_text_of(n: NodeV) -> Seq<char>
    decreases n,
{
    match n {
        NodeV::Text { text } => text,
        NodeV::Document { children } => inner_text_of_seq(children),
        NodeV::Element { children, .. } => inner_text_of_seq(children),
        _ => Seq::empty(),
    }
}

/// The concatenated inner text of a sequence of nodes.
pub open spec fn inner_text_of_seq(s: Seq<NodeV>) -> Seq<char>
    decreases s,
{
    if s.len() == 0 {
        Seq::empty()
    } else {
        inner_text_of(s[0]) + inner_text_of_seq(s.drop_first())
    }
}

/// Collect the inner text of a node; used when synthesizing heading ids and
/// when running static scripts.
pub fn inner_text(node: &Node) -> (r: String)
    ensures
        r@ == inner_text_of(node@),
    decreases size_of(node@), 1int,
{
    match node {
        Node::Text { text } => text.clone(),
        Node::Document { children } => {
            let r = inner_text_children(children, 0);
            proof {
                assert(view_seq(children@).skip(0) =~= view_seq(children@));
            }
            r
        },
        Node::Element { children, .. } => {
            let r = inner_text_children(children, 0);
            proof {
                assert(view_seq(children@).skip(0) =~= view_seq(children@));
            }
            r
        },
        Node::Comment { .. } => String::new(),
        Node::Doctype { .. } => String::new(),
        Node::ProcessingInstruction { .. } => String::new(),
    }
}

/// The inner text of the children from position `from` on.
fn inner_text_children(v: &Vec<Node>, from: usize) -> (r: String)
    requires
        from <= v@.len(),
    ensures
        r@ == inner_text_of_seq(view_seq(v@).skip(from as int)),
    decreases size_of_seq(view_seq(v@)), 2int, v@.len() - from,
{
    proof {
        broadcast use lemma_view_seq;

    }
    if from == v.len() {
        let r = String::new();
        proof {
            assert(view_seq(v@).skip(from as int) =~= Seq::<NodeV>::empty());
        }
        r
    } else {
        proof {
            lemma_size_of_seq_element(view_seq(v@), from as int);
        }
        let head = inner_text(&v[from]);
        let tail = inner_text_children(v, from + 1);
        let r = head.concat(tail.as_str());
        proof {
            let s = view_seq(v@);
            assert(s.skip(from as int)[0] == s[from as int]);
            assert(s.skip(from as int).drop_first() =~= s.skip(from as int + 1));
        }
        r
    }
}

/// The value of the first attribute named `key`, if any.
pub open spec fn attr_lookup(attrs: Seq<AttrV>, key: Seq<char>) -> Option<Seq<char>>
    decreases attrs,
{
    if attrs.len() == 0 {
        None
    } else if attrs[0].name == key {
        Some(attrs[0].value)
    } else {
        attr_lookup(attrs.drop_first(), key)
    }
}

/// What [`get_attribute`] returns: the first matching attribute value of an
/// element, and nothing for any other node kind.
pub open spec fn spec_get_attribute(n: NodeV, key: Seq<char>) -> Option<Seq<char>> {
    match n {
        NodeV::Element { attrs, .. } => attr_lookup(attrs, key),
        _ => None,
    }
}

/// Get an attribute's value, if it exists.
pub fn get_attribute(node: &Node, key: &str) -> (r: Option<String>)
    ensures
        r.deep_view() == spec_get_attribute(node@, key@),
{
    match node {
        Node::Element { attrs, .. } => {
            let r = attr_get(attrs, 0, key);
            proof {
                assert(view_attrs(attrs@).skip(0) =~= view_attrs(attrs@));
            }
            r
        },
        _ => None,
    }
}

/// Lookup among the attributes from position `from` on.
fn attr_get(attrs: &Vec<Attr>, from: usize, key: &str) -> (r: Option<String>)
    requires
        from <= attrs@.len(),
    ensures
        r.deep_view() == attr_lookup(view_attrs(attrs@).skip(from as int), key@),
    decreases attrs@.len() - from,
{
    if from == attrs.len() {
        proof {
            assert(view_attrs(attrs@).skip(from as int) =~= Seq::<AttrV>::empty());
        }
        None
    } else if crate::strutil::str_eq(attrs[from].name.as_str(), key) {
        proof {
            assert(view_attrs(attrs@).skip(from as int)[0] == attrs@[from as int]@);
        }
        Some(attrs[from].value.clone())
    } else {
        let r = attr_get(attrs, from + 1, key);
        proof {
            let s = view_attrs(attrs@);
            assert(s.skip(from as int)[0] == attrs@[from as int]@);
            assert(s.skip(from as int).drop_first() =~= s.skip(from as int + 1));
        }
        r
    }
}


/// The text held directly by a text or comment node.
pub open spec fn node_text(n: NodeV) -> Seq<char> {
    match n {
        NodeV::Text { text } => text,
        NodeV::Comment { text } => text,
        _ => Seq::empty(),
    }
}

/// The tag name of an element; empty for other kinds.
pub open spec fn elem_name(n: NodeV) -> Seq<char> {
    match n {
        NodeV::Element { name, .. } => name,
        _ => Seq::empty(),
    }
}

/// The attribute list of an element; empty for other kinds.
pub open spec fn elem_attrs(n: NodeV) -> Seq<AttrV> {
    match n {
        NodeV::Element { attrs, .. } => attrs,
        _ => Seq::empty(),
    }
}

/// Look an attribute up in a raw attribute list.
pub fn lookup_attr(attrs: &Vec<Attr>, key: &str) -> (r: Option<String>)
    ensures
        r.deep_view() == attr_lookup(view_attrs(attrs@), key@),
{
    let r = attr_get(attrs, 0, key);
    proof {
        assert(view_attrs(attrs@).skip(0) =~= view_attrs(attrs@));
    }
    r
}

/// The concatenated inner text of a child list.
pub fn inner_text_of_children(v: &Vec<Node>) -> (r: String)
    ensures
        r@ == inner_text_of_seq(view_seq(v@)),
{
    let r = inner_text_children(v, 0);
    proof {
        assert(view_seq(v@).skip(0) =~= view_seq(v@));
    }
    r
}

/// The attribute list with the first attribute named `key` removed.
pub open spec fn remove_first_attr(attrs: Seq<AttrV>, key: Seq<char>) -> Seq<AttrV>
    decreases attrs,
{
    if attrs.len() == 0 {
        attrs
    } else if attrs[0].name == key {
        attrs.drop_first()
    } else {
        seq![attrs[0]] + remove_first_attr(attrs.drop_first(), key)
    }
}

/// Drop the first attribute named `key`, keeping the rest in order.
pub fn strip_first_attr(attrs: Vec<Attr>, key: &str) -> (r: Vec<Attr>)
    ensures
        view_attrs(r@) =~= remove_first_attr(view_attrs(attrs@), key@),
{
    let r = strip_first_from(&attrs, 0, key);
    proof {
        assert(view_attrs(attrs@).skip(0) =~= view_attrs(attrs@));
    }
    r
}

fn strip_first_from(attrs: &Vec<Attr>, from: usize, key: &str) -> (r: Vec<Attr>)
    requires
        from <= attrs@.len(),
    ensures
        view_attrs(r@) =~= remove_first_attr(view_attrs(attrs@).skip(from as int), key@),
    decreases attrs@.len() - from,
{
    if from == attrs.len() {
        let r: Vec<Attr> = Vec::new();
        proof {
            assert(view_attrs(attrs@).skip(from as int) =~= Seq::<AttrV>::empty());
            assert(view_attrs(r@) =~= Seq::<AttrV>::empty());
        }
        r
    } else if crate::strutil::str_eq(attrs[from].name.as_str(), key) {
        let mut r: Vec<Attr> = Vec::new();
        let n = attrs.len();
        let mut i: usize = from + 1;
        while i < n
            invariant
                from + 1 <= i <= n,
                n == attrs@.len(),
                r@.len() == i - from - 1,
                forall|j: int| 0 <= j < r@.len() ==> r@[j]@ == attrs@[from + 1 + j]@,
            decreases n - i,
        {
            r.push(Attr { name: attrs[i].name.clone(), value: attrs[i].value.clone() });
            i = i + 1;
        }
        proof {
            let s = view_attrs(attrs@);
            assert(s.skip(from as int)[0] == attrs@[from as int]@);
            assert(view_attrs(r@) =~= s.skip(from as int).drop_first());
        }
        r
    } else {
        let rest = strip_first_from(attrs, from + 1, key);
        let mut r = rest;
        r.insert(0, Attr { name: attrs[from].name.clone(), value: attrs[from].value.clone() });
        proof {
            let s = view_attrs(attrs@);
            assert(s.skip(from as int)[0] == attrs@[from as int]@);
            assert(s.skip(from as int).drop_first() =~= s.skip(from as int + 1));
            assert(view_attrs(r@) =~= seq![attrs@[from as int]@] + remove_first_attr(
                s.skip(from as int + 1),
                key@,
            ));
        }
        r
    }
}

/// The body children of a parsed document: its top-level children end with
/// an `html` node whose last child is `body`; splicing targets `body`'s
/// children.  Empty when the scaffolding is missing.
pub open spec fn scaffold_strip(doc: NodeV) -> Seq<NodeV> {
    let top = children_of(doc);
    if top.len() == 0 {
        Seq::empty()
    } else {
        let inner = children_of(top.last());
        if inner.len() == 0 {
            Seq::empty()
        } else {
            children_of(inner.last())
        }
    }
}

/// The child list of a container node, if it has one.
fn children_ref(n: &Node) -> (r: Option<&Vec<Node>>)
    ensures
        (r matches Some(v) ==> view_seq(v@) == children_of(n@)),
        r is None ==> children_of(n@) == Seq::<NodeV>::empty(),
{
    match n {
        Node::Document { children } => Some(children),
        Node::Element { children, .. } => Some(children),
        _ => None,
    }
}

/// Deep copies of the body children of an injected document.
pub fn clone_body_children(doc: &Node) -> (r: Vec<Node>)
    ensures
        view_seq(r@) =~= scaffold_strip(doc@),
{
    proof {
        broadcast use lemma_view_seq;

    }
    let empty_result: Vec<Node> = Vec::new();
    let top = match children_ref(doc) {
        Some(v) => v,
        None => {
            return empty_result;
        },
    };
    if top.len() == 0 {
        return empty_result;
    }
    let html = &top[top.len() - 1];
    proof {
        assert(html@ == children_of(doc@).last());
    }
    let inner = match children_ref(html) {
        Some(v) => v,
        None => {
            return empty_result;
        },
    };
    if inner.len() == 0 {
        return empty_result;
    }
    let body = &inner[inner.len() - 1];
    proof {
        assert(body@ == children_of(html@).last());
    }
    match children_ref(body) {
        Some(kids) => {
            let r = clone_children(kids);
            proof {
                assert(view_seq(r@) =~= view_seq(kids@));
            }
            r
        },
        None => empty_result,
    }
}

/// The body children of an owned document, moved out without copying.
pub fn take_body_children(doc: Node) -> (r: Vec<Node>)
    ensures
        view_seq(r@) =~= scaffold_strip(doc@),
{
    proof {
        broadcast use lemma_view_seq;

    }
    let ghost dv = doc@;
    let empty_result: Vec<Node> = Vec::new();
    let mut top = match doc {
        Node::Document { children } => children,
        Node::Element { children, .. } => children,
        _ => {
            return empty_result;
        },
    };
    proof {
        assert(view_seq(top@) == children_of(dv));
    }
    let html = match top.pop() {
        Some(n) => n,
        None => {
            return empty_result;
        },
    };
    proof {
        assert(html@ == children_of(dv).last());
    }
    let ghost hv = html@;
    let mut inner = match html {
        Node::Document { children } => children,
        Node::Element { children, .. } => children,
        _ => {
            return empty_result;
        },
    };
    proof {
        assert(view_seq(inner@) == children_of(hv));
    }
    let body = match inner.pop() {
        Some(n) => n,
        None => {
            return empty_result;
        },
    };
    proof {
        assert(body@ == children_of(hv).last());
    }
    let ghost bv = body@;
    match body {
        Node::Document { children } => children,
        Node::Element { children, .. } => children,
        _ => empty_result,
    }
}


/// How appending an attribute changes a lookup: a different name leaves it
/// unchanged, an existing first match keeps winning, and a fresh match is
/// found.
pub proof fn lemma_attr_lookup_push(attrs: Seq<AttrV>, e: AttrV, key: Seq<char>)
    ensures
        e.name != key ==> attr_lookup(attrs.push(e), key) == attr_lookup(attrs, key),
        attr_lookup(attrs, key) is Some ==> attr_lookup(attrs.push(e), key) == attr_lookup(
            attrs,
            key,
        ),
        (e.name == key && attr_lookup(attrs, key) is None) ==> attr_lookup(attrs.push(e), key)
            == Some(e.value),
    decreases attrs.len(),
{
    if attrs.len() == 0 {
        assert(attrs.push(e)[0] == e);
        assert(attrs.push(e).drop_first() =~= Seq::<AttrV>::empty());
    } else {
        assert(attrs.push(e)[0] == attrs[0]);
        assert(attrs.push(e).drop_first() =~= attrs.drop_first().push(e));
        lemma_attr_lookup_push(attrs.drop_first(), e, key);
    }
}

/// A lookup misses exactly when no attribute bears the name.
pub proof fn lemma_attr_lookup_none(attrs: Seq<AttrV>, key: Seq<char>)
    ensures
        attr_lookup(attrs, key) is None <==> (forall|i: int|
            0 <= i < attrs.len() ==> attrs[i].name != key),
    decreases attrs.len(),
{
    if attrs.len() > 0 {
        lemma_attr_lookup_none(attrs.drop_first(), key);
        if attrs[0].name != key && attr_lookup(attrs.drop_first(), key) is None {
            assert forall|i: int| 0 <= i < attrs.len() implies attrs[i].name != key by {
                if i > 0 {
                    assert(attrs.drop_first()[i - 1] == attrs[i]);
                }
            }
        }
        if forall|i: int| 0 <= i < attrs.len() ==> attrs[i].name != key {
            assert forall|i: int| 0 <= i < attrs.drop_first().len() implies attrs.drop_first()[
                i].name != key by {
                assert(attrs.drop_first()[i] == attrs[i + 1]);
            }
        }
    }
}

} // verus!
