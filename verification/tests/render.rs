use std::collections::HashMap;
use std::collections::VecDeque;

use docgen::compose::{render2, render_recursive};
use docgen::dom::{Attr, Node};
use docgen::frontmatter::MatterType;
use docgen::host::{Host, RenderError};
use docgen::value::Value;

struct MockHost {
    globals: HashMap<(u64, String), Value>,
    links: HashMap<(u64, String), u64>,
    iters: Vec<VecDeque<Value>>,
    files: HashMap<String, String>,
    next_session: u64,
}

fn new_host() -> MockHost {
    MockHost {
        globals: HashMap::new(),
        links: HashMap::new(),
        iters: Vec::new(),
        files: HashMap::new(),
        next_session: 0,
    }
}

impl MockHost {
    fn parse_literal(&self, e: &str) -> Option<Value> {
        let e = e.trim();
        if e == "null" {
            return Some(Value::Null);
        }
        if e == "undefined" {
            return Some(Value::Undefined);
        }
        if e == "true" {
            return Some(Value::Bool(true));
        }
        if e == "false" {
            return Some(Value::Bool(false));
        }
        if let Ok(n) = e.parse::<i64>() {
            return Some(Value::Int(n));
        }
        if e.len() >= 2 && e.starts_with('"') && e.ends_with('"')
            && !e[1..e.len() - 1].contains('"')
        {
            return Some(Value::Str(e[1..e.len() - 1].to_string()));
        }
        if e.len() >= 2 && e.starts_with('\'') && e.ends_with('\'')
            && !e[1..e.len() - 1].contains('\'')
        {
            return Some(Value::Str(e[1..e.len() - 1].to_string()));
        }
        None
    }

    fn lookup(&self, session: u64, name: &str) -> Option<Value> {
        if let Some(v) = self.globals.get(&(session, name.to_string())) {
            return Some(v.clone());
        }
        if let Some(child) = self.links.get(&(session, "child".to_string())) {
            return self.lookup(*child, name);
        }
        None
    }

    fn eval_in(&mut self, session: u64, expr: &str) -> Result<Value, String> {
        let e = expr.trim();
        if let Some(v) = self.parse_literal(e) {
            return Ok(v);
        }
        if let Some((lhs, rhs)) = e.split_once('=') {
            let name = lhs.trim();
            if !name.is_empty() && name.chars().all(|c| c.is_alphanumeric() || c == '_') {
                let v = self.eval_in(session, rhs)?;
                self.globals.insert((session, name.to_string()), v);
                return Ok(Value::Undefined);
            }
        }
        if let Some((a, b)) = e.split_once('+') {
            let va = self.eval_in(session, a)?;
            let vb = self.eval_in(session, b)?;
            return match (va, vb) {
                (Value::Int(x), Value::Int(y)) => Ok(Value::Int(x + y)),
                (Value::Str(x), Value::Str(y)) => Ok(Value::Str(format!("{}{}", x, y))),
                _ => Err(format!("cannot add in: {}", e)),
            };
        }
        if let Some((head, rest)) = e.split_once('.') {
            if head == "child" || head == "parent" {
                if let Some(target) = self.links.get(&(session, head.to_string())) {
                    let t = *target;
                    return self.eval_in(t, rest);
                }
                return Err(format!("no linked session: {}", head));
            }
        }
        if let Some(v) = self.lookup(session, e) {
            return Ok(v);
        }
        Err(format!("unknown expression: {}", e))
    }
}

impl Host for MockHost {
    fn new_session(&mut self) -> u64 {
        self.next_session += 1;
        self.next_session
    }

    fn link_sessions(&mut self, session: u64, name: &str, target: u64) {
        self.links.insert((session, name.to_string()), target);
    }

    fn set_global_value(&mut self, session: u64, name: &str, value: &Value) {
        self.globals.insert((session, name.to_string()), value.clone());
    }

    fn set_global_index(&mut self, session: u64, name: &str, value: u64) {
        self.globals.insert((session, name.to_string()), Value::Int(value as i64));
    }

    fn read_global(&mut self, session: u64, name: &str) -> Value {
        match self.globals.get(&(session, name.to_string())) {
            Some(v) => v.clone(),
            None => Value::Undefined,
        }
    }

    fn eval(&mut self, session: u64, expr: &str) -> Result<Value, String> {
        self.eval_in(session, expr)
    }

    fn iter_begin(&mut self, session: u64, expr: &str) -> Result<u64, String> {
        let _ = session;
        let e = expr.trim();
        if e.starts_with('[') && e.ends_with(']') {
            let inner = &e[1..e.len() - 1];
            let mut items = VecDeque::new();
            if !inner.trim().is_empty() {
                for part in inner.split(',') {
                    match self.parse_literal(part) {
                        Some(v) => items.push_back(v),
                        None => return Err(format!("bad element: {}", part)),
                    }
                }
            }
            self.iters.push(items);
            Ok((self.iters.len() - 1) as u64)
        } else {
            Err(format!("value is not iterable: {}", e))
        }
    }

    fn iter_next(&mut self, session: u64, iter: u64, bind_name: &str) -> Result<bool, String> {
        let q = match self.iters.get_mut(iter as usize) {
            Some(q) => q,
            None => return Err("unknown iterator".to_string()),
        };
        match q.pop_front() {
            Some(v) => {
                self.globals.insert((session, bind_name.to_string()), v);
                Ok(false)
            }
            None => Ok(true),
        }
    }

    fn bind_matter(&mut self, session: u64, kind: MatterType, matter: &str) -> Result<(), String> {
        let _ = kind;
        for line in matter.lines() {
            if let Some((k, v)) = line.split_once(':') {
                let key = k.trim().to_string();
                let raw = v.trim();
                let value = match self.parse_literal(raw) {
                    Some(v) => v,
                    None => Value::Str(raw.to_string()),
                };
                self.globals.insert((session, key), value);
            }
        }
        Ok(())
    }

    fn read_file(&mut self, path: &str) -> Result<String, String> {
        match self.files.get(path) {
            Some(t) => Ok(t.clone()),
            None => Err(format!("no such file: {}", path)),
        }
    }

    fn parse_html(&mut self, text: &str) -> Node {
        let cs: Vec<char> = text.chars().collect();
        let mut pos = 0usize;
        let kids = parse_nodes(&cs, &mut pos);
        Node::Document {
            children: vec![Node::Element {
                name: "html".to_string(),
                attrs: vec![],
                children: vec![
                    Node::Element {
                        name: "head".to_string(),
                        attrs: vec![],
                        children: vec![],
                    },
                    Node::Element {
                        name: "body".to_string(),
                        attrs: vec![],
                        children: kids,
                    },
                ],
            }],
        }
    }

    fn render_markdown(&mut self, text: &str) -> String {
        text.to_string()
    }
}

fn starts(cs: &[char], pos: usize, pat: &str) -> bool {
    let p: Vec<char> = pat.chars().collect();
    pos + p.len() <= cs.len() && cs[pos..pos + p.len()] == p[..]
}

fn read_while(cs: &[char], pos: &mut usize, stop: &[char]) -> String {
    let start = *pos;
    while *pos < cs.len() && !stop.contains(&cs[*pos]) {
        *pos += 1;
    }
    cs[start..*pos].iter().collect()
}

fn parse_nodes(cs: &[char], pos: &mut usize) -> Vec<Node> {
    let mut out = Vec::new();
    while *pos < cs.len() {
        if cs[*pos] == '<' {
            if starts(cs, *pos, "</") {
                break;
            }
            if starts(cs, *pos, "<!--") {
                *pos += 4;
                let start = *pos;
                while *pos < cs.len() && !starts(cs, *pos, "-->") {
                    *pos += 1;
                }
                let text: String = cs[start..*pos].iter().collect();
                if *pos < cs.len() {
                    *pos += 3;
                }
                out.push(Node::Comment { text });
                continue;
            }
            *pos += 1;
            let name = read_while(cs, pos, &[' ', '>', '/', '\n', '\t']);
            let mut attrs = Vec::new();
            let mut self_close = false;
            loop {
                while *pos < cs.len() && (cs[*pos] == ' ' || cs[*pos] == '\n' || cs[*pos] == '\t')
                {
                    *pos += 1;
                }
                if *pos >= cs.len() {
                    break;
                }
                if cs[*pos] == '/' {
                    self_close = true;
                    *pos += 1;
                    continue;
                }
                if cs[*pos] == '>' {
                    *pos += 1;
                    break;
                }
                let aname = read_while(cs, pos, &['=', ' ', '>', '/', '\n', '\t']);
                let mut aval = String::new();
                if *pos < cs.len() && cs[*pos] == '=' {
                    *pos += 1;
                    if *pos < cs.len() && cs[*pos] == '"' {
                        *pos += 1;
                        let start = *pos;
                        while *pos < cs.len() && cs[*pos] != '"' {
                            *pos += 1;
                        }
                        aval = cs[start..*pos].iter().collect();
                        if *pos < cs.len() {
                            *pos += 1;
                        }
                    }
                }
                attrs.push(Attr { name: aname, value: aval });
            }
            let children = if self_close {
                Vec::new()
            } else {
                let kids = parse_nodes(cs, pos);
                if starts(cs, *pos, "</") {
                    *pos += 2;
                    let _ = read_while(cs, pos, &['>']);
                    if *pos < cs.len() {
                        *pos += 1;
                    }
                }
                kids
            };
            out.push(Node::Element { name, attrs, children });
        } else {
            let start = *pos;
            while *pos < cs.len() && cs[*pos] != '<' {
                *pos += 1;
            }
            let text: String = cs[start..*pos].iter().collect();
            out.push(Node::Text { text });
        }
    }
    out
}

fn ser_nodes(v: &[Node]) -> String {
    let mut s = String::new();
    for n in v {
        s.push_str(&ser(n));
    }
    s
}

fn ser(n: &Node) -> String {
    match n {
        Node::Document { children } => ser_nodes(children),
        Node::Element { name, attrs, children } => {
            let mut s = format!("<{}", name);
            for a in attrs {
                s.push_str(&format!(" {}=\"{}\"", a.name, a.value));
            }
            s.push('>');
            s.push_str(&ser_nodes(children));
            s.push_str(&format!("</{}>", name));
            s
        }
        Node::Text { text } => text.clone(),
        Node::Comment { text } => format!("<!--{}-->", text),
        Node::Doctype { name } => format!("<!DOCTYPE {}>", name),
        Node::ProcessingInstruction { .. } => String::new(),
    }
}

fn body_of(doc: &Node) -> String {
    if let Node::Document { children } = doc {
        if let Some(Node::Element { children: html_kids, .. }) = children.last() {
            if let Some(Node::Element { children: body_kids, .. }) = html_kids.last() {
                return ser_nodes(body_kids);
            }
        }
    }
    String::new()
}

fn render_str(host: &mut MockHost, template: &str) -> Result<String, RenderError> {
    let sid = host.new_session();
    let tree = render2(host, sid, template)?;
    Ok(body_of(&tree))
}

#[test]
fn interpolation_of_arithmetic_and_strings() {
    let mut host = new_host();
    let out = render_str(&mut host, "<p>{{1+1}} {{\"a\"+\"b\"}}</p>").unwrap();
    assert_eq!(out, "<p>2 ab</p>");
}

#[test]
fn interpolation_leaves_plain_text_alone() {
    let mut host = new_host();
    let out = render_str(&mut host, "<p>nothing to see</p>").unwrap();
    assert_eq!(out, "<p>nothing to see</p>");
}

#[test]
fn x_if_falsy_values_remove_element() {
    for falsy in ["0", "''", "null", "undefined"] {
        let mut host = new_host();
        let tpl = format!("<div x-if=\"{}\">gone</div>", falsy);
        let out = render_str(&mut host, &tpl).unwrap();
        assert_eq!(out, "", "value {} should remove the element", falsy);
    }
}

#[test]
fn x_if_truthy_values_keep_element() {
    for truthy in ["1", "-1", "true"] {
        let mut host = new_host();
        let tpl = format!("<div x-if=\"{}\">kept</div>", truthy);
        let out = render_str(&mut host, &tpl).unwrap();
        assert_eq!(out, "<div>kept</div>");
    }
}

#[test]
fn x_each_produces_ordered_clones_with_bindings() {
    let mut host = new_host();
    let out = render_str(
        &mut host,
        "<ul><li x-each=\"[1,2,3]\">{{item}}:{{i}}</li></ul>",
    )
    .unwrap();
    assert_eq!(out, "<ul><li>1:0</li><li>2:1</li><li>3:2</li></ul>");
}

#[test]
fn x_each_empty_source_removes_element() {
    let mut host = new_host();
    let out = render_str(&mut host, "<ul><li x-each=\"[]\">{{item}}</li></ul>").unwrap();
    assert_eq!(out, "<ul></ul>");
}

#[test]
fn x_each_respects_as_and_index_names() {
    let mut host = new_host();
    let out = render_str(
        &mut host,
        "<ul><li x-each=\"[7,8]\" x-as=\"v\" x-index=\"k\">{{v}}@{{k}}</li></ul>",
    )
    .unwrap();
    assert_eq!(out, "<ul><li>7@0</li><li>8@1</li></ul>");
}

#[test]
fn x_for_binds_named_loop_variable() {
    let mut host = new_host();
    let out = render_str(&mut host, "<ul><li x-for=\"n of [10,20]\">{{n}}</li></ul>").unwrap();
    assert_eq!(out, "<ul><li>10</li><li>20</li></ul>");
}

#[test]
fn x_for_bad_grammar_aborts_render() {
    let mut host = new_host();
    let r = render_str(&mut host, "<ul><li x-for=\"foo bar baz\">x</li></ul>");
    assert!(matches!(r, Err(RenderError::Grammar(_))));
}

#[test]
fn bound_checked_false_drops_attribute() {
    let mut host = new_host();
    let out = render_str(&mut host, "<p><input :checked=\"false\"/></p>").unwrap();
    assert_eq!(out, "<p><input></input></p>");
}

#[test]
fn bound_checked_true_keeps_empty_attribute() {
    let mut host = new_host();
    let out = render_str(&mut host, "<p><input :checked=\"true\"/></p>").unwrap();
    assert_eq!(out, "<p><input checked=\"\"></input></p>");
}

#[test]
fn bound_plain_attribute_is_stringified() {
    let mut host = new_host();
    let out = render_str(&mut host, "<p><input :value=\"1+41\"/></p>").unwrap();
    assert_eq!(out, "<p><input value=\"42\"></input></p>");
}

#[test]
fn heading_without_id_gets_lowercased_inner_text() {
    let mut host = new_host();
    let out = render_str(&mut host, "<h1>ABC Def</h1>").unwrap();
    assert_eq!(out, "<h1 id=\"abc def\">ABC Def</h1>");
}

#[test]
fn heading_with_id_is_untouched() {
    let mut host = new_host();
    let out = render_str(&mut host, "<h2 id=\"keep\">ABC</h2>").unwrap();
    assert_eq!(out, "<h2 id=\"keep\">ABC</h2>");
}

#[test]
fn static_script_runs_and_leaves_tree() {
    let mut host = new_host();
    let out = render_str(
        &mut host,
        "<div><script static>msg = \"hi\"</script><p>{{msg}}</p></div>",
    )
    .unwrap();
    assert_eq!(out, "<div><p>hi</p></div>");
}

#[test]
fn plain_script_contents_stay_verbatim() {
    let mut host = new_host();
    let out = render_str(&mut host, "<script>var x = 1;</script>").unwrap();
    assert_eq!(out, "<script>var x = 1;</script>");
}

#[test]
fn content_slot_without_injection_drops_itself() {
    let mut host = new_host();
    let out = render_str(&mut host, "<main><slot name=\"content\"/></main>").unwrap();
    assert_eq!(out, "<main></main>");
}

#[test]
fn named_slot_without_registration_drops_itself() {
    let mut host = new_host();
    let out = render_str(&mut host, "<main><slot name=\"aside\"/></main>").unwrap();
    assert_eq!(out, "<main></main>");
}

#[test]
fn slot_round_trip_through_layout() {
    let mut host = new_host();
    host.files.insert(
        "page.html".to_string(),
        "---\nlayout: layout.html\n---<div slot=\"header\">H</div><p>P</p>".to_string(),
    );
    host.files.insert(
        "layout.html".to_string(),
        "<header><slot name=\"header\"/></header><main><slot name=\"content\"/></main>"
            .to_string(),
    );
    let tree = render_recursive(&mut host, "page.html", &Vec::new()).unwrap();
    assert_eq!(
        body_of(&tree),
        "<header><div>H</div></header><main><p>P</p></main>"
    );
}

#[test]
fn slot_comment_marker_acts_as_outlet() {
    let mut host = new_host();
    host.files.insert(
        "page.html".to_string(),
        "---\nlayout: layout.html\n---<div slot=\"nav\">N1</div><div slot=\"nav\">N2</div>"
            .to_string(),
    );
    host.files.insert(
        "layout.html".to_string(),
        "<nav><!-- slot:nav --></nav>".to_string(),
    );
    let tree = render_recursive(&mut host, "page.html", &Vec::new()).unwrap();
    assert_eq!(body_of(&tree), "<nav><div>N1</div><div>N2</div></nav>");
}

#[test]
fn layout_chain_threads_variables_and_content() {
    let mut host = new_host();
    host.files.insert(
        "a.html".to_string(),
        "---\nlayout: b.html\ntitle: Hello\n---<p>{{title}}</p>".to_string(),
    );
    host.files.insert(
        "b.html".to_string(),
        "---\nlayout: c.html\n---<section><slot name=\"content\"/></section>".to_string(),
    );
    host.files.insert(
        "c.html".to_string(),
        "<footer>{{title}}<slot name=\"content\"/></footer>".to_string(),
    );
    let tree = render_recursive(&mut host, "a.html", &Vec::new()).unwrap();
    assert_eq!(
        body_of(&tree),
        "<footer>Hello<section><p>Hello</p></section></footer>"
    );
}

#[test]
fn extra_vars_override_front_matter() {
    let mut host = new_host();
    host.files.insert(
        "page.html".to_string(),
        "---\ntitle: FromMatter\n---<p>{{title}}</p>".to_string(),
    );
    let extra = vec![("title".to_string(), Value::Str("FromCaller".to_string()))];
    let tree = render_recursive(&mut host, "page.html", &extra).unwrap();
    assert_eq!(body_of(&tree), "<p>FromCaller</p>");
}

#[test]
fn layout_cycle_is_a_fatal_limit_error() {
    let mut host = new_host();
    host.files.insert(
        "a.html".to_string(),
        "---\nlayout: a.html\n---<p>x</p>".to_string(),
    );
    let r = render_recursive(&mut host, "a.html", &Vec::new());
    assert!(matches!(r, Err(RenderError::LimitExceeded)));
}

#[test]
fn slot_src_includes_nested_template() {
    let mut host = new_host();
    host.files
        .insert("partial.html".to_string(), "<em>inc</em>".to_string());
    let out = render_str(&mut host, "<div><slot src=\"partial.html\"/></div>").unwrap();
    assert_eq!(out, "<div><em>inc</em></div>");
}

#[test]
fn slot_src_missing_file_is_io_error() {
    let mut host = new_host();
    let r = render_str(&mut host, "<div><slot src=\"gone.html\"/></div>");
    assert!(matches!(r, Err(RenderError::Io(_))));
}

#[test]
fn unknown_expression_is_eval_error() {
    let mut host = new_host();
    let r = render_str(&mut host, "<p>{{boom}}</p>");
    assert!(matches!(r, Err(RenderError::Eval(_))));
}

#[test]
fn non_iterable_source_is_protocol_error() {
    let mut host = new_host();
    let r = render_str(&mut host, "<li x-each=\"5\">x</li>");
    assert!(matches!(r, Err(RenderError::IteratorProtocol(_))));
}

#[test]
fn unsupported_path_is_fatal() {
    let mut host = new_host();
    host.files.insert("notes.txt".to_string(), "text".to_string());
    let r = render_recursive(&mut host, "notes.txt", &Vec::new());
    assert!(matches!(r, Err(RenderError::Parse(_))));
}

#[test]
fn missing_top_level_file_is_io_error() {
    let mut host = new_host();
    let r = render_recursive(&mut host, "missing.html", &Vec::new());
    assert!(matches!(r, Err(RenderError::Io(_))));
}

#[test]
fn nested_loops_expand_one_level_per_pass() {
    let mut host = new_host();
    let out = render_str(
        &mut host,
        "<ul><li x-each=\"[1,2]\">{{item}}<b x-each=\"[3]\">{{item}}</b></li></ul>",
    )
    .unwrap();
    assert_eq!(out, "<ul><li>1<b>3</b></li><li>2<b>3</b></li></ul>");
}

#[test]
fn x_if_after_iteration_attribute_filters_clones() {
    let mut host = new_host();
    let out = render_str(
        &mut host,
        "<ul><li x-each=\"[0,1]\" x-if=\"item\">{{item}}</li></ul>",
    )
    .unwrap();
    assert_eq!(out, "<ul><li>1</li></ul>");
}

#[test]
fn bound_attribute_after_iteration_is_evaluated_per_clone() {
    let mut host = new_host();
    let out = render_str(
        &mut host,
        "<ul><li x-each=\"[1,2]\" :data=\"item\">x</li></ul>",
    )
    .unwrap();
    assert_eq!(out, "<ul><li data=\"1\">x</li><li data=\"2\">x</li></ul>");
}

#[test]
fn bound_attribute_before_iteration_is_evaluated_once() {
    let mut host = new_host();
    let out = render_str(
        &mut host,
        "<div><script static>g = 5</script><ul><li :data=\"g\" x-each=\"[1,2]\">x</li></ul></div>",
    )
    .unwrap();
    assert_eq!(
        out,
        "<div><ul><li data=\"5\">x</li><li data=\"5\">x</li></ul></div>"
    );
}

#[test]
fn template_inclusion_cycle_is_a_fatal_limit_error() {
    let mut host = new_host();
    host.files.insert(
        "self.html".to_string(),
        "<slot src=\"self.html\"/>".to_string(),
    );
    let r = render_str(&mut host, "<div><slot src=\"self.html\"/></div>");
    assert!(matches!(r, Err(RenderError::LimitExceeded)));
}

#[test]
fn x_for_accepts_the_in_keyword() {
    let mut host = new_host();
    let out = render_str(&mut host, "<ul><li x-for=\"n in [1,2]\">{{n}}</li></ul>").unwrap();
    assert_eq!(out, "<ul><li>1</li><li>2</li></ul>");
}

#[test]
fn slot_lookup_reaches_nested_sessions_depth_first() {
    let mut host = new_host();
    host.files.insert(
        "page.html".to_string(),
        "---\nlayout: layout.html\n---<slot src=\"partial.html\"/>".to_string(),
    );
    host.files.insert(
        "partial.html".to_string(),
        "<div slot=\"extra\">E</div>ok".to_string(),
    );
    host.files.insert(
        "layout.html".to_string(),
        "<aside><slot name=\"extra\"/></aside><main><slot name=\"content\"/></main>".to_string(),
    );
    let tree = render_recursive(&mut host, "page.html", &Vec::new()).unwrap();
    assert_eq!(
        body_of(&tree),
        "<aside><div>E</div></aside><main>ok</main>"
    );
}
