//! Front matter handling: a document may begin with a metadata block
//! delimited by `---` lines.  This module detects the block, classifies its
//! syntax, and splits it from the remaining body; parsing the block into
//! values is the host's work.

use vstd::prelude::*;
use crate::strutil::{has_prefix, starts_with, trim, trim_spec};

verus! {

/// The syntax of a front matter block: JSON when the block starts with a
/// brace, YAML otherwise, or no block at all.
#[derive(Debug, PartialEq, Eq, Structural)]
pub enum MatterType {
    JSON,
    YAML,
    NotFound,
}

/// Whether a front matter terminator starts at `p`: a newline followed by
/// three dashes.
pub open spec fn is_marker_at(s: Seq<char>, p: int) -> bool {
    &&& 0 <= p
    &&& p + 4 <= s.len()
    &&& s[p] == '\n'
    &&& s[p + 1] == '-'
    &&& s[p + 2] == '-'
    &&& s[p + 3] == '-'
}

/// The first front matter terminator at or after `from`, if any.
pub open spec fn find_marker_from(s: Seq<char>, from: int) -> Option<int>
    decreases s.len() - from,
{
    if from < 0 || from + 4 > s.len() {
        None
    } else if is_marker_at(s, from) {
        Some(from)
    } else {
        find_marker_from(s, from + 1)
    }
}

proof fn lemma_find_marker_skip(s: Seq<char>, p: int)
    requires
        0 <= p,
        forall|q: int| 0 <= q < p ==> !is_marker_at(s, q),
    ensures
        find_marker_from(s, 0) == find_marker_from(s, p),
    decreases p,
{
    if p > 0 {
        assert forall|q: int| 0 <= q < p - 1 implies !is_marker_at(s, q) by {}
        lemma_find_marker_skip(s, p - 1);
    }
}

/// What [`extract_frontmatter`] returns, over the document's characters:
/// the metadata block (without its delimiters) and the remaining body, or
/// no block and the document unchanged.
pub open spec fn spec_extract_frontmatter(document: Seq<char>) -> (Option<Seq<char>>, Seq<char>) {
    let t = trim_spec(document);
    if !has_prefix(t, "---\n"@) {
        (None::<Seq<char>>, document)
    } else {
        let rest = trim_spec(t.skip(3));
        match find_marker_from(rest, 0) {
            Some(p) => (Some(rest.subrange(0, p)), rest.skip(p + 4)),
            None => (None::<Seq<char>>, document),
        }
    }
}

/// Front matter is the block at the top of a document between `---` lines:
/// split it from the body, or return the document unchanged when the
/// opening or closing delimiter is missing.
pub fn extract_frontmatter(document: &str) -> (r: (Option<&str>, &str))
    ensures
        r.0.deep_view() == spec_extract_frontmatter(document@).0,
        r.1@ == spec_extract_frontmatter(document@).1,
{
    let t = trim(document);
    if !starts_with(t, "---\n") {
        return (None, document);
    }
    proof {
        reveal_strlit("---\n");
    }
    let tn = t.unicode_len();
    let after = t.substring_char(3, tn);
    let rest = trim(after);
    proof {
        assert(after@ =~= t@.skip(3));
    }
    let n = rest.unicode_len();
    let mut p: usize = 0;
    while n >= 4 && p <= n - 4
        invariant
            0 <= p,
            p <= n,
            n == rest@.len(),
            trim_spec(document@) == t@,
            has_prefix(t@, "---\n"@),
            rest@ == trim_spec(t@.skip(3)),
            forall|q: int| 0 <= q < p ==> !is_marker_at(rest@, q),
        decreases n - p,
    {
        if rest.get_char(p) == '\n' && rest.get_char(p + 1) == '-' && rest.get_char(p + 2) == '-'
            && rest.get_char(p + 3) == '-' {
            proof {
                lemma_find_marker_skip(rest@, p as int);
                assert(is_marker_at(rest@, p as int));
                assert(find_marker_from(rest@, p as int) == Some(p as int));
                assert(find_marker_from(rest@, 0) == Some(p as int));
            }
            let matter = rest.substring_char(0, p);
            let body = rest.substring_char(p + 4, n);
            proof {
                assert(body@ =~= rest@.skip(p + 4));
                assert(matter@ == rest@.subrange(0, p as int));
                assert(spec_extract_frontmatter(document@).0 == Some(rest@.subrange(
                    0,
                    p as int,
                )));
                assert(spec_extract_frontmatter(document@).1 == rest@.skip(p as int + 4));
            }
            return (Some(matter), body);
        }
        p = p + 1;
    }
    proof {
        lemma_find_marker_skip(rest@, p as int);
        assert(find_marker_from(rest@, p as int) is None);
    }
    (None, document)
}

/// What [`infer_type`] returns, over the document's characters.
pub open spec fn spec_infer_type(matter: Seq<char>) -> MatterType {
    let t = trim_spec(matter);
    if has_prefix(t, "---\n"@) {
        if has_prefix(trim_spec(t.skip(3)), "{"@) {
            MatterType::JSON
        } else {
            MatterType::YAML
        }
    } else {
        MatterType::NotFound
    }
}

/// Classify the front matter block at the top of a document: JSON when the
/// block begins with a brace, YAML otherwise, nothing when no block opens.
pub fn infer_type(matter: &str) -> (r: MatterType)
    ensures
        r == spec_infer_type(matter@),
{
    let t = trim(matter);
    if starts_with(t, "---\n") {
        proof {
            reveal_strlit("---\n");
        }
        let tn = t.unicode_len();
        let after = t.substring_char(3, tn);
        proof {
            assert(after@ =~= t@.skip(3));
        }
        let inner = trim(after);
        if starts_with(inner, "{") {
            MatterType::JSON
        } else {
            MatterType::YAML
        }
    } else {
        MatterType::NotFound
    }
}

} // verus!
