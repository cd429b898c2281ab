//! Lexical path handling on strings: joining, cleaning and containment.
use vstd::prelude::*;
use vstd::string::*;

verus! {

/// The result of lexically cleaning a path: `.` elements dropped, `..` folded into
/// the element before it, repeated separators collapsed.
pub uninterp spec fn cleaned(p: Seq<char>) -> Seq<char>;

/// A path is absolute when it starts at the root.
pub open spec fn is_abs(p: Seq<char>) -> bool {
    p.len() > 0 && p[0] == '/'
}

/// `base` joined with the relative path `rel`.
pub open spec fn joined(base: Seq<char>, rel: Seq<char>) -> Seq<char> {
    if base.len() == 0 {
        rel
    } else if base.last() == '/' {
        base + rel
    } else {
        base + seq!['/'] + rel
    }
}

/// `path` made absolute against `reference`, then cleaned.
pub open spec fn expanded(path: Seq<char>, reference: Seq<char>) -> Seq<char> {
    cleaned(if is_abs(path) { path } else { joined(reference, path) })
}

/// A pattern that names a path (it holds a separator) is expanded against the
/// reference; a bare file name matches that name in any directory.
pub open spec fn expanded_pattern(pattern: Seq<char>, reference: Seq<char>) -> Seq<char> {
    if pattern.contains('/') {
        expanded(pattern, reference)
    } else {
        seq!['*', '/'] + pattern
    }
}

/// Relies on path_clean::clean: a lexical clean that keeps a rooted path rooted.
#[verifier::external_body]
pub(crate) fn clean(p: &str) -> (r: String)
    ensures
        r@ == cleaned(p@),
        is_abs(p@) ==> is_abs(r@),
{
    path_clean::clean(p).to_string_lossy().to_string()
}

/// Returns true if the path starts at the root.
pub fn is_absolute(path: &str) -> (r: bool)
    ensures
        r == is_abs(path@),
{
    let n = path.unicode_len();
    n > 0 && path.get_char(0) == '/'
}

/// Returns true if `c` occurs in `s`.
pub fn contains_char(s: &str, c: char) -> (r: bool)
    ensures
        r == s@.contains(c),
{
    let n = s.unicode_len();
    let mut i: usize = 0;
    while i < n
        invariant
            n == s@.len(),
            i <= n,
            forall|j: int| 0 <= j < i ==> s@[j] != c,
        decreases n - i,
    {
        if s.get_char(i) == c {
            return true;
        }
        i = i + 1;
    }
    false
}

/// Joins the relative path `rel` onto `base`.
pub fn join_path(base: &str, rel: &str) -> (r: String)
    ensures
        r@ == joined(base@, rel@),
{
    let n = base.unicode_len();
    if n == 0 {
        String::from_str(rel)
    } else {
        let mut out = String::from_str(base);
        if base.get_char(n - 1) != '/' {
            out.append("/");
            proof {
                reveal_strlit("/");
            }
        }
        out.append(rel);
        out
    }
}

/// Returns an absolute path. If the path is absolute already, leave it alone. Otherwise
/// join it to the reference path. Then clean all superfluous `..`.
pub fn expand_path(path: &str, reference: &str) -> (r: String)
    ensures
        r@ == expanded(path@, reference@),
        is_abs(reference@) || is_abs(path@) ==> is_abs(r@),
{
    if is_absolute(path) {
        clean(path)
    } else {
        let j = join_path(reference, path);
        assert(is_abs(reference@) ==> j@[0] == reference@[0]);
        clean(j.as_str())
    }
}

/// Only expands the pattern if it holds a slash; otherwise it stands for a file name
/// anywhere below the reference.
pub fn expand_if_path(pattern: String, reference: &str) -> (r: String)
    ensures
        r@ == expanded_pattern(pattern@, reference@),
{
    if contains_char(pattern.as_str(), '/') {
        expand_path(pattern.as_str(), reference)
    } else {
        let mut out = String::from_str("*/");
        proof {
            reveal_strlit("*/");
        }
        out.append(pattern.as_str());
        out
    }
}

/// `path` lies within `base`: equal to it, or below it by whole elements.
pub open spec fn within(path: Seq<char>, base: Seq<char>) -> bool {
    &&& base.len() <= path.len()
    &&& path.subrange(0, base.len() as int) == base
    &&& (base.len() == path.len() || base.len() == 0 || base.last() == '/' || path[base.len() as int] == '/')
}

/// Returns true if `path` lies within `base`, element by element.
pub fn is_within(path: &str, base: &str) -> (r: bool)
    ensures
        r == within(path@, base@),
{
    let lb = base.unicode_len();
    let lp = path.unicode_len();
    if lb > lp {
        return false;
    }
    let prefix = String::from_str(path.substring_char(0, lb));
    let whole = String::from_str(base);
    if !(prefix == whole) {
        return false;
    }
    lb == lp || lb == 0 || base.get_char(lb - 1) == '/' || path.get_char(lb) == '/'
}

/// Index of the last separator in `s`, or -1 when it holds none.
pub open spec fn last_sep(s: Seq<char>) -> int
    decreases s.len(),
{
    if s.len() == 0 {
        -1
    } else if s.last() == '/' {
        s.len() - 1
    } else {
        last_sep(s.drop_last())
    }
}

/// The directory that holds `s`, lexically; none for the root and the empty path.
pub open spec fn parent_of(s: Seq<char>) -> Option<Seq<char>> {
    if s.len() == 0 || s == seq!['/'] {
        None
    } else if last_sep(s) < 0 {
        Some(Seq::empty())
    } else if last_sep(s) == 0 {
        Some(seq!['/'])
    } else {
        Some(s.subrange(0, last_sep(s)))
    }
}

proof fn lemma_last_sep(s: Seq<char>)
    ensures
        -1 <= last_sep(s) < s.len(),
        last_sep(s) >= 0 ==> s[last_sep(s)] == '/',
        forall|j: int| last_sep(s) < j < s.len() ==> s[j] != '/',
    decreases s.len(),
{
    if s.len() > 0 && s.last() != '/' {
        lemma_last_sep(s.drop_last());
        assert forall|j: int| last_sep(s) < j < s.len() implies s[j] != '/' by {
            if j < s.len() - 1 {
                assert(s[j] == s.drop_last()[j]);
            }
        }
    }
}

/// Returns the directory that holds `s`, or `None` for the root and the empty path.
pub fn parent_dir(s: &str) -> (r: Option<String>)
    ensures
        r matches Some(p) ==> parent_of(s@) == Some(p@),
        r is None ==> parent_of(s@) is None,
        r matches Some(p) ==> p@.len() < s@.len(),
{
    proof {
        lemma_last_sep(s@);
    }
    let n = s.unicode_len();
    if n == 0 {
        return None;
    }
    if n == 1 && s.get_char(0) == '/' {
        assert(s@ =~= seq!['/']);
        return None;
    }
    assert(s@ != seq!['/']);
    assert(n >= 2 || s@[0] != '/');
    let mut i: usize = n;
    while i > 0
        invariant
            n == s@.len(),
            n >= 2 || s@[0] != '/',
            i <= n,
            forall|j: int| i <= j < n ==> s@[j] != '/',
            -1 <= last_sep(s@) < n,
            last_sep(s@) >= 0 ==> s@[last_sep(s@)] == '/',
            forall|j: int| last_sep(s@) < j < n ==> s@[j] != '/',
        decreases i,
    {
        if s.get_char(i - 1) == '/' {
            assert(last_sep(s@) == i - 1);
            if i == 1 {
                proof {
                    reveal_strlit("/");
                }
                let root = String::from_str("/");
                assert(root@.len() == 1 && root@[0] == '/');
                assert(root@ =~= seq!['/']);
                assert(n >= 2);
                return Some(root);
            }
            let p = String::from_str(s.substring_char(0, i - 1));
            return Some(p);
        }
        i = i - 1;
    }
    assert(last_sep(s@) < 0);
    Some(String::new())
}

} // verus!
