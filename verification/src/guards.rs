//! The per-request guard: extracts the bearer credential from the
//! `Authorization` header and checks it against the token store. Missing,
//! malformed and unknown credentials are indistinguishable to the caller.

use crate::tokens::TokenStore;
use vstd::prelude::*;

verus! {

/// ASCII whitespace, as the header is split on it.
pub open spec fn is_ascii_ws(c: char) -> bool {
    c == ' ' || c == '\t' || c == '\n' || c == '\u{c}' || c == '\r'
}

/// Index of the first position at or after `i` that is past the end or
/// holds a non-whitespace character.
pub open spec fn skip_ws_idx(s: Seq<char>, i: int) -> int
    decreases s.len() - i when 0 <= i <= s.len()
{
    if i >= s.len() {
        i
    } else if is_ascii_ws(s[i]) {
        skip_ws_idx(s, i + 1)
    } else {
        i
    }
}

/// Index of the first position at or after `i` that is past the end or
/// holds a whitespace character.
pub open spec fn skip_word_idx(s: Seq<char>, i: int) -> int
    decreases s.len() - i when 0 <= i <= s.len()
{
    if i >= s.len() {
        i
    } else if !is_ascii_ws(s[i]) {
        skip_word_idx(s, i + 1)
    } else {
        i
    }
}

proof fn lemma_skip_ws_idx(s: Seq<char>, i: int)
    requires
        0 <= i <= s.len(),
    ensures
        i <= skip_ws_idx(s, i) <= s.len(),
        skip_ws_idx(s, i) < s.len() ==> !is_ascii_ws(s[skip_ws_idx(s, i)]),
    decreases s.len() - i,
{
    if i < s.len() && is_ascii_ws(s[i]) {
        lemma_skip_ws_idx(s, i + 1);
    }
}

proof fn lemma_skip_word_idx(s: Seq<char>, i: int)
    requires
        0 <= i <= s.len(),
    ensures
        i <= skip_word_idx(s, i) <= s.len(),
        skip_word_idx(s, i) < s.len() ==> is_ascii_ws(s[skip_word_idx(s, i)]),
    decreases s.len() - i,
{
    if i < s.len() && !is_ascii_ws(s[i]) {
        lemma_skip_word_idx(s, i + 1);
    }
}

/// The credential carried by a header value of the shape
/// `<scheme-word> <token>`: the second whitespace-separated word, if both
/// words are present. The scheme word is accepted but not inspected; any
/// text after the token is ignored.
pub open spec fn credential_token(s: Seq<char>) -> Option<Seq<char>> {
    let scheme_start = skip_ws_idx(s, 0);
    let scheme_end = skip_word_idx(s, scheme_start);
    let token_start = skip_ws_idx(s, scheme_end);
    let token_end = skip_word_idx(s, token_start);
    if scheme_start < s.len() && token_start < s.len() {
        Some(s.subrange(token_start, token_end))
    } else {
        None
    }
}

/// Witness that a request carried a currently-valid session token.
pub struct TokenChecker;

fn is_ws_char(c: char) -> (r: bool)
    ensures
        r == is_ascii_ws(c),
{
    c == ' ' || c == '\t' || c == '\n' || c == '\u{c}' || c == '\r'
}

/// First position at or after `from` holding a non-whitespace character.
fn scan_ws(s: &str, from: usize) -> (r: usize)
    requires
        from <= s@.len(),
    ensures
        r == skip_ws_idx(s@, from as int),
{
    let n = s.unicode_len();
    let mut i = from;
    while i < n && is_ws_char(s.get_char(i))
        invariant
            n == s@.len(),
            from <= i <= n,
            skip_ws_idx(s@, from as int) == skip_ws_idx(s@, i as int),
        decreases n - i,
    {
        i += 1;
    }
    i
}

/// First position at or after `from` holding a whitespace character.
fn scan_word(s: &str, from: usize) -> (r: usize)
    requires
        from <= s@.len(),
    ensures
        r == skip_word_idx(s@, from as int),
{
    let n = s.unicode_len();
    let mut i = from;
    while i < n && !is_ws_char(s.get_char(i))
        invariant
            n == s@.len(),
            from <= i <= n,
            skip_word_idx(s@, from as int) == skip_word_idx(s@, i as int),
        decreases n - i,
    {
        i += 1;
    }
    i
}

/// Authorizes one request: reads the single
/// credential header, takes its second word as the token, and accepts the
/// request exactly when that token is currently registered. A missing
/// header, a header without two words, and an unknown token all yield the
/// same refusal, with no distinguishing detail.
pub fn from_request(header: Option<&String>, tokens: &TokenStore) -> (r: Option<TokenChecker>)
    ensures
        r is Some <==> (header matches Some(h) && credential_token(h@) matches Some(t)
            && tokens@.contains(t)),
{
    match header {
        None => None,
        Some(h) => {
            let n = h.as_str().unicode_len();
            let scheme_start = scan_ws(h.as_str(), 0);
            proof {
                lemma_skip_ws_idx(h@, 0);
            }
            if scheme_start == n {
                return None;
            }
            let scheme_end = scan_word(h.as_str(), scheme_start);
            proof {
                lemma_skip_word_idx(h@, scheme_start as int);
            }
            let token_start = scan_ws(h.as_str(), scheme_end);
            proof {
                lemma_skip_ws_idx(h@, scheme_end as int);
            }
            if token_start == n {
                return None;
            }
            let token_end = scan_word(h.as_str(), token_start);
            proof {
                lemma_skip_word_idx(h@, token_start as int);
            }
            let token = h.as_str().substring_char(token_start, token_end).to_owned();
            if tokens.contains(&token) {
                Some(TokenChecker)
            } else {
                None
            }
        },
    }
}

proof fn lemma_skip_ws_run(s: Seq<char>, i: int, k: int)
    requires
        0 <= i <= k <= s.len(),
        forall|j: int| i <= j < k ==> is_ascii_ws(#[trigger] s[j]),
        k == s.len() || !is_ascii_ws(s[k]),
    ensures
        skip_ws_idx(s, i) == k,
    decreases k - i,
{
    if i < k {
        assert(is_ascii_ws(s[i]));
        lemma_skip_ws_run(s, i + 1, k);
    }
}

proof fn lemma_skip_word_run(s: Seq<char>, i: int, k: int)
    requires
        0 <= i <= k <= s.len(),
        forall|j: int| i <= j < k ==> !is_ascii_ws(#[trigger] s[j]),
        k == s.len() || is_ascii_ws(s[k]),
    ensures
        skip_word_idx(s, i) == k,
    decreases k - i,
{
    if i < k {
        assert(!is_ascii_ws(s[i]));
        lemma_skip_word_run(s, i + 1, k);
    }
}

/// Law: a token handed out by a successful login authorizes every later
/// request: a header of the shape `<scheme-word> <token>` names exactly that
/// token, and the store registered it, so the guard's acceptance condition
/// holds.
pub proof fn lemma_issued_token_authorizes(
    scheme: Seq<char>,
    token: Seq<char>,
    store: Set<Seq<char>>,
)
    requires
        0 < scheme.len(),
        forall|i: int| 0 <= i < scheme.len() ==> !is_ascii_ws(#[trigger] scheme[i]),
        0 < token.len(),
        crate::auth::token_alphabet(token),
        store.contains(token),
    ensures
        credential_token(scheme + seq![' '] + token) == Some(token),
        store.contains(credential_token(scheme + seq![' '] + token).unwrap()),
{
    let h = scheme + seq![' '] + token;
    let m = scheme.len() as int;
    assert(h.len() == m + 1 + token.len());
    assert forall|j: int| 0 <= j < m implies h[j] == scheme[j] by {}
    assert(h[m] == ' ');
    assert forall|j: int| m + 1 <= j < h.len() implies !is_ascii_ws(#[trigger] h[j]) by {
        assert(h[j] == token[j - m - 1]);
        assert(crate::auth::is_token_char(token[j - m - 1]));
    }
    assert(!is_ascii_ws(h[0]));
    assert(skip_ws_idx(h, 0) == 0);
    lemma_skip_word_run(h, 0, m);
    assert(is_ascii_ws(h[m]));
    lemma_skip_ws_run(h, m, m + 1);
    lemma_skip_word_run(h, m + 1, h.len() as int);
    assert(h.subrange(m + 1, h.len() as int) =~= token);
}

} // verus!
