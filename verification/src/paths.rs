//! Path safety: every client-supplied path component is checked before any
//! filesystem name is formed, so that no operation can resolve outside the
//! configured root directory.

use vstd::prelude::*;

verus! {

/// Characters that never appear in an accepted path: the Windows separator
/// (which would smuggle in a second separator syntax) and NUL.
pub open spec fn is_forbidden_char(c: char) -> bool {
    c == '\\' || c == '\u{0}'
}

/// A `.` path component starts at `i`: a lone dot bounded by separators or
/// by the ends of the path.
pub open spec fn dot_component_at(s: Seq<char>, i: int) -> bool {
    &&& 0 <= i < s.len()
    &&& s[i] == '.'
    &&& (i == 0 || s[i - 1] == '/')
    &&& (i == s.len() - 1 || s[i + 1] == '/')
}

/// A parent-directory (`..`) component starts at `i`.
pub open spec fn dotdot_component_at(s: Seq<char>, i: int) -> bool {
    &&& 0 <= i && i + 1 < s.len()
    &&& s[i] == '.'
    &&& s[i + 1] == '.'
    &&& (i == 0 || s[i - 1] == '/')
    &&& (i + 1 == s.len() - 1 || s[i + 2] == '/')
}

/// A relative path that cannot escape the root it is resolved against:
/// nonempty, not absolute, no forbidden characters, and every
/// `/`-separated component nonempty and different from `.` and `..`.
pub open spec fn safe_path(s: Seq<char>) -> bool {
    &&& 0 < s.len()
    &&& (forall|i: int| 0 <= i < s.len() ==> !is_forbidden_char(#[trigger] s[i]))
    &&& s[0] != '/'
    &&& s[s.len() - 1] != '/'
    &&& (forall|i: int| 0 < i < s.len() ==> !(s[i - 1] == '/' && #[trigger] s[i] == '/'))
    &&& (forall|i: int| !dot_component_at(s, i))
    &&& (forall|i: int| !dotdot_component_at(s, i))
}

/// Decides `safe_path` for a client-supplied path.
pub fn is_safe_path(path: &str) -> (r: bool)
    ensures
        r == safe_path(path@),
{
    let n = path.unicode_len();
    if n == 0 {
        return false;
    }
    let mut i: usize = 0;
    while i < n
        invariant
            n == path@.len(),
            0 < n,
            0 <= i <= n,
            forall|j: int| 0 <= j < i ==> !is_forbidden_char(#[trigger] path@[j]),
            i > 0 ==> path@[0] != '/',
            forall|j: int| 0 <= j < i && #[trigger] path@[j] == '/' ==> j + 1 < n && path@[j + 1]
                != '/',
            forall|j: int| j < i ==> !dot_component_at(path@, j),
            forall|j: int| j < i ==> !dotdot_component_at(path@, j),
        decreases n - i,
    {
        let c = path.get_char(i);
        if c == '\\' || c == '\u{0}' {
            return false;
        }
        if c == '/' {
            if i == 0 {
                return false;
            }
            if i + 1 == n {
                return false;
            }
            if path.get_char(i + 1) == '/' {
                return false;
            }
        }
        if c == '.' {
            let at_start = i == 0 || path.get_char(i - 1) == '/';
            if at_start {
                if i + 1 == n {
                    assert(dot_component_at(path@, i as int));
                    return false;
                }
                let c1 = path.get_char(i + 1);
                if c1 == '/' {
                    assert(dot_component_at(path@, i as int));
                    return false;
                }
                if c1 == '.' {
                    if i + 2 == n {
                        assert(dotdot_component_at(path@, i as int));
                        return false;
                    }
                    if path.get_char(i + 2) == '/' {
                        assert(dotdot_component_at(path@, i as int));
                        return false;
                    }
                }
            }
        }
        i += 1;
    }
    proof {
        assert forall|j: int| !dot_component_at(path@, j) by {}
        assert forall|j: int| !dotdot_component_at(path@, j) by {}
        assert(path@[n - 1] != '/') by {
            if path@[n - 1] == '/' {
                assert(path@[n - 1] == '/' && !(n - 1 + 1 < n));
            }
        }
    }
    true
}

/// Resolves a client-supplied relative path against the root directory:
/// returns the joined name exactly when the path is safe, and refuses
/// everything else.
pub fn resolve_path(root: &str, path: &str) -> (r: Option<String>)
    ensures
        safe_path(path@) ==> (r matches Some(p) && p@ == root@ + seq!['/'] + path@),
        !safe_path(path@) ==> r is None,
{
    if !is_safe_path(path) {
        return None;
    }
    let mut joined = root.to_owned();
    joined.append("/");
    joined.append(path);
    proof {
        reveal_strlit("/");
        assert(("/")@ =~= seq!['/']);
        assert(joined@ =~= root@ + seq!['/'] + path@);
    }
    Some(joined)
}

/// Law: a path with a parent-directory component anywhere in it is never
/// safe, so every operation that demands safety rejects it unresolved.
pub proof fn lemma_traversal_rejected(s: Seq<char>, i: int)
    requires
        dotdot_component_at(s, i),
    ensures
        !safe_path(s),
{
}

} // verus!
