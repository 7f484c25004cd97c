//! The process-wide set of currently-valid session tokens.

use vstd::prelude::*;

verus! {

/// Set of currently-valid opaque session tokens. Membership here is the
/// single source of truth for authorization: a credential is accepted if and
/// only if its token is present. Tokens are never persisted; dropping the
/// store invalidates every session.
pub struct TokenStore {
    tokens: Vec<String>,
}

impl View for TokenStore {
    type V = Set<Seq<char>>;

    closed spec fn view(&self) -> Set<Seq<char>> {
        Set::new(
            |t: Seq<char>|
                exists|i: int| 0 <= i < self.tokens@.len() && #[trigger] self.tokens@[i]@ == t,
        )
    }
}

impl TokenStore {
    /// A fresh store holds no tokens: every session is invalid at startup.
    pub fn new() -> (r: TokenStore)
        ensures
            r@ == Set::<Seq<char>>::empty(),
    {
        let r = TokenStore { tokens: Vec::new() };
        proof {
            assert(r@ =~= Set::<Seq<char>>::empty());
        }
        r
    }

    /// Membership check: exactly "is this token currently valid".
    pub fn contains(&self, token: &String) -> (r: bool)
        ensures
            r == self@.contains(token@),
    {
        let n = self.tokens.len();
        let mut i: usize = 0;
        while i < n
            invariant
                n == self.tokens@.len(),
                0 <= i <= n,
                forall|j: int| 0 <= j < i ==> self.tokens@[j]@ != token@,
            decreases n - i,
        {
            if self.tokens[i] == *token {
                return true;
            }
            i += 1;
        }
        false
    }

    /// Registers a token. The store afterwards holds exactly the old tokens
    /// plus this one.
    pub fn insert(&mut self, token: String)
        ensures
            final(self)@ == old(self)@.insert(token@),
    {
        if !self.contains(&token) {
            let ghost prev = self.tokens@;
            self.tokens.push(token);
            proof {
                assert forall|t: Seq<char>| final(self)@.contains(t) implies old(self)@.insert(
                    token@,
                ).contains(t) by {
                    let i = choose|i: int|
                        0 <= i < self.tokens@.len() && #[trigger] self.tokens@[i]@ == t;
                    if i < prev.len() {
                        assert(prev[i]@ == t);
                    }
                }
                assert forall|t: Seq<char>|
                    old(self)@.insert(token@).contains(t) implies final(self)@.contains(t) by {
                    if old(self)@.contains(t) {
                        let i = choose|i: int| 0 <= i < prev.len() && #[trigger] prev[i]@ == t;
                        assert(self.tokens@[i]@ == t);
                    } else {
                        assert(self.tokens@[prev.len() as int]@ == t);
                    }
                }
                assert(final(self)@ =~= old(self)@.insert(token@));
            }
        } else {
            proof {
                assert(old(self)@.contains(token@));
                assert(final(self)@ =~= old(self)@.insert(token@));
            }
        }
    }
}

/// Law: two successful logins leave both minted tokens valid, provided the
/// two random draws differed: neither registration invalidates the other,
/// in either order of the two insertions.
pub proof fn lemma_two_sessions_both_valid(s: Set<Seq<char>>, t1: Seq<char>, t2: Seq<char>)
    requires
        t1 != t2,
    ensures
        s.insert(t1).insert(t2).contains(t1),
        s.insert(t1).insert(t2).contains(t2),
        s.insert(t1).insert(t2) == s.insert(t2).insert(t1),
{
    assert(s.insert(t1).insert(t2) =~= s.insert(t2).insert(t1));
}

} // verus!
