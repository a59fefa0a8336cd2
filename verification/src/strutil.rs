//! Verified helpers over `&str` and `String`: equality, prefix tests,
//! whitespace trimming, and single-character appends.

use vstd::prelude::*;

verus! {

/// Characters treated as whitespace when trimming text, both for front
/// matter detection and for the truthiness rule on strings: the Unicode
/// `White_Space` set, as `char::is_whitespace` defines it.
pub open spec fn is_space_char(c: char) -> bool {
    ||| c == ' '
    ||| c == '\t'
    ||| c == '\n'
    ||| c == '\u{0B}'
    ||| c == '\u{0C}'
    ||| c == '\r'
    ||| c == '\u{85}'
    ||| c == '\u{A0}'
    ||| c == '\u{1680}'
    ||| ('\u{2000}' <= c && c <= '\u{200A}')
    ||| c == '\u{2028}'
    ||| c == '\u{2029}'
    ||| c == '\u{202F}'
    ||| c == '\u{205F}'
    ||| c == '\u{3000}'
}

/// Executable form of [`is_space_char`].
pub fn is_space(c: char) -> (r: bool)
    ensures
        r == is_space_char(c),
{
    c == ' ' || c == '\t' || c == '\n' || c == '\u{0B}' || c == '\u{0C}' || c == '\r'
        || c == '\u{85}' || c == '\u{A0}' || c == '\u{1680}' || ('\u{2000}' <= c && c
        <= '\u{200A}') || c == '\u{2028}' || c == '\u{2029}' || c == '\u{202F}' || c
        == '\u{205F}' || c == '\u{3000}'
}

/// Relies on `String::push` from std: appends one character at the end of
/// the string.
#[verifier::external_body]
pub(crate) fn push_char(s: &mut String, c: char)
    ensures
        final(s)@ == old(s)@.push(c),
{
    s.push(c);
}

/// String equality by contents.
pub fn str_eq(a: &str, b: &str) -> (r: bool)
    ensures
        r == (a@ == b@),
{
    let x = a.to_owned();
    let y = b.to_owned();
    x == y
}

/// Whether `p@` is a prefix of `s@`.
pub open spec fn has_prefix(s: Seq<char>, p: Seq<char>) -> bool {
    p.len() <= s.len() && s.subrange(0, p.len() as int) == p
}

/// Executable prefix test.
pub fn starts_with(s: &str, p: &str) -> (r: bool)
    ensures
        r == has_prefix(s@, p@),
{
    let sl = s.unicode_len();
    let pl = p.unicode_len();
    if pl > sl {
        false
    } else {
        let head = s.substring_char(0, pl);
        str_eq(head, p)
    }
}

/// Number of leading whitespace characters.
pub open spec fn leading_spaces(s: Seq<char>) -> int
    decreases s.len(),
{
    if s.len() == 0 {
        0
    } else if is_space_char(s[0]) {
        1 + leading_spaces(s.drop_first())
    } else {
        0
    }
}

/// Number of trailing whitespace characters.
pub open spec fn trailing_spaces(s: Seq<char>) -> int
    decreases s.len(),
{
    if s.len() == 0 {
        0
    } else if is_space_char(s.last()) {
        1 + trailing_spaces(s.drop_last())
    } else {
        0
    }
}

/// The string with leading and trailing whitespace removed.
pub open spec fn trim_spec(s: Seq<char>) -> Seq<char> {
    if leading_spaces(s) == s.len() {
        Seq::empty()
    } else {
        s.subrange(leading_spaces(s), s.len() - trailing_spaces(s))
    }
}

proof fn lemma_leading_spaces_bound(s: Seq<char>)
    ensures
        0 <= leading_spaces(s) <= s.len(),
        forall|j: int| 0 <= j < leading_spaces(s) ==> is_space_char(s[j]),
        leading_spaces(s) < s.len() ==> !is_space_char(s[leading_spaces(s)]),
    decreases s.len(),
{
    if s.len() > 0 && is_space_char(s[0]) {
        lemma_leading_spaces_bound(s.drop_first());
        assert forall|j: int| 0 <= j < leading_spaces(s) implies is_space_char(s[j]) by {
            if j > 0 {
                assert(s.drop_first()[j - 1] == s[j]);
            }
        }
    }
}

proof fn lemma_trailing_spaces_bound(s: Seq<char>)
    ensures
        0 <= trailing_spaces(s) <= s.len(),
        forall|j: int| s.len() - trailing_spaces(s) <= j < s.len() ==> is_space_char(s[j]),
        trailing_spaces(s) < s.len() ==> !is_space_char(s[s.len() - trailing_spaces(s) - 1]),
    decreases s.len(),
{
    if s.len() > 0 && is_space_char(s.last()) {
        lemma_trailing_spaces_bound(s.drop_last());
        assert forall|j: int| s.len() - trailing_spaces(s) <= j < s.len() implies is_space_char(
            s[j],
        ) by {
            if j < s.len() - 1 {
                assert(s.drop_last()[j] == s[j]);
            }
        }
    }
}

proof fn lemma_leading_spaces_from_scan(s: Seq<char>, i: int)
    requires
        0 <= i <= s.len(),
        forall|j: int| 0 <= j < i ==> is_space_char(s[j]),
        i < s.len() ==> !is_space_char(s[i]),
    ensures
        leading_spaces(s) == i,
    decreases s.len(),
{
    if s.len() > 0 && is_space_char(s[0]) {
        assert(i > 0);
        assert forall|j: int| 0 <= j < i - 1 implies is_space_char(s.drop_first()[j]) by {
            assert(s.drop_first()[j] == s[j + 1]);
        }
        lemma_leading_spaces_from_scan(s.drop_first(), i - 1);
    }
}

proof fn lemma_trailing_spaces_from_scan(s: Seq<char>, i: int)
    requires
        0 <= i <= s.len(),
        forall|j: int| i <= j < s.len() ==> is_space_char(s[j]),
        i > 0 ==> !is_space_char(s[i - 1]),
    ensures
        trailing_spaces(s) == s.len() - i,
    decreases s.len(),
{
    if s.len() > 0 && is_space_char(s.last()) {
        assert(i < s.len());
        lemma_trailing_spaces_from_scan(s.drop_last(), i);
    }
}

/// Trim leading and trailing whitespace from a string slice.
pub fn trim<'a>(s: &'a str) -> (r: &'a str)
    ensures
        r@ == trim_spec(s@),
{
    let n = s.unicode_len();
    let mut lo: usize = 0;
    while lo < n && is_space(s.get_char(lo))
        invariant
            0 <= lo <= n,
            n == s@.len(),
            forall|j: int| 0 <= j < lo ==> is_space_char(s@[j]),
        decreases n - lo,
    {
        lo = lo + 1;
    }
    proof {
        lemma_leading_spaces_from_scan(s@, lo as int);
    }
    if lo == n {
        let r = s.substring_char(0, 0);
        proof {
            assert(r@ =~= trim_spec(s@));
        }
        r
    } else {
        let mut hi: usize = n;
        while hi > lo && is_space(s.get_char(hi - 1))
            invariant
                lo <= hi <= n,
                n == s@.len(),
                forall|j: int| hi <= j < n ==> is_space_char(s@[j]),
            decreases hi,
        {
            hi = hi - 1;
        }
        proof {
            if hi == lo {
                assert(!is_space_char(s@[lo as int]));
                assert(is_space_char(s@[lo as int]));
            }
            assert(hi > lo);
            assert(!is_space_char(s@[hi - 1]));
            lemma_trailing_spaces_from_scan(s@, hi as int);
        }
        let r = s.substring_char(lo, hi);
        proof {
            assert(r@ =~= trim_spec(s@));
        }
        r
    }
}

/// A trimmed string is empty exactly when the whole string is whitespace.
pub proof fn lemma_trim_empty(s: Seq<char>)
    ensures
        trim_spec(s).len() == 0 <==> (forall|j: int| 0 <= j < s.len() ==> is_space_char(s[j])),
{
    lemma_leading_spaces_bound(s);
    lemma_trailing_spaces_bound(s);
    if leading_spaces(s) == s.len() {
        assert forall|j: int| 0 <= j < s.len() implies is_space_char(s[j]) by {}
    } else {
        assert(!is_space_char(s[leading_spaces(s)]));
        assert(trailing_spaces(s) <= s.len() - leading_spaces(s) - 1) by {
            if trailing_spaces(s) > s.len() - leading_spaces(s) - 1 {
                assert(is_space_char(s[leading_spaces(s)]));
            }
        }
        assert(trim_spec(s).len() > 0);
    }
}


/// Whether `suf@` is a suffix of `s@`.
pub open spec fn has_suffix(s: Seq<char>, suf: Seq<char>) -> bool {
    suf.len() <= s.len() && s.subrange(s.len() - suf.len(), s.len() as int) == suf
}

/// Executable suffix test.
pub fn ends_with(s: &str, suf: &str) -> (r: bool)
    ensures
        r == has_suffix(s@, suf@),
{
    let sl = s.unicode_len();
    let fl = suf.unicode_len();
    if fl > sl {
        false
    } else {
        let tail = s.substring_char(sl - fl, sl);
        str_eq(tail, suf)
    }
}

/// The Unicode lowercase mapping of a string's characters, as
/// `str::to_lowercase` computes it.
pub uninterp spec fn lowercased(s: Seq<char>) -> Seq<char>;

/// Relies on `str::to_lowercase` from std: the result depends on the
/// input characters alone, and lowercasing an empty string yields an empty
/// string.
#[verifier::external_body]
pub(crate) fn lowercase(s: &str) -> (r: String)
    ensures
        r@ == lowercased(s@),
        s@.len() == 0 ==> r@.len() == 0,
{
    s.to_lowercase()
}

} // verus!
