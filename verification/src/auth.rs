//! The table of client bearer tokens that the proxy accepts.

use vstd::prelude::*;
use vstd::string::*;

use crate::model_map::lemma_index_of_unique;

verus! {

struct TokenEntry {
    token: String,
    id: String,
}

/// Accepted tokens, each with the identifier it was configured under.
pub struct TokenMap {
    entries: Vec<TokenEntry>,
}

impl View for TokenMap {
    /// Token to identifier.
    type V = Map<Seq<char>, Seq<char>>;

    closed spec fn view(&self) -> Map<Seq<char>, Seq<char>> {
        let tokens = self.entries@.map_values(|e: TokenEntry| e.token@);
        Map::new(
            |k: Seq<char>| tokens.contains(k),
            |k: Seq<char>| self.entries@[tokens.index_of(k)].id@,
        )
    }
}

impl TokenMap {
    /// No token occurs twice.
    pub closed spec fn wf(&self) -> bool {
        self.entries@.map_values(|e: TokenEntry| e.token@).no_duplicates()
    }

    /// An empty table.
    pub fn new() -> (res: TokenMap)
        ensures
            res.wf(),
            res@ == Map::<Seq<char>, Seq<char>>::empty(),
    {
        let res = TokenMap { entries: Vec::new() };
        assert(res@ =~= Map::<Seq<char>, Seq<char>>::empty());
        res
    }

    /// Where `token` is, if it is present.
    fn find(&self, token: &String) -> (res: Option<usize>)
        ensures
            match res {
                Some(i) => i < self.entries@.len() && self.entries@[i as int].token@ == token@,
                None => !self@.contains_key(token@),
            },
    {
        let n = self.entries.len();
        let mut i: usize = 0;
        while i < n
            invariant
                n == self.entries@.len(),
                i <= n,
                forall|j: int| 0 <= j < i ==> self.entries@[j].token@ != token@,
            decreases n - i,
        {
            if self.entries[i].token == *token {
                return Some(i);
            }
            i = i + 1;
        }
        let ghost tokens = self.entries@.map_values(|e: TokenEntry| e.token@);
        assert forall|j: int| 0 <= j < tokens.len() implies tokens[j] != token@ by {
            assert(tokens[j] == self.entries@[j].token@);
        }
        None
    }

    /// Accepts `token` under `id`. Returns `true` when the token was already
    /// present (its identifier is replaced).
    pub fn insert(&mut self, token: String, id: String) -> (replaced: bool)
        requires
            old(self).wf(),
        ensures
            final(self).wf(),
            replaced == old(self)@.contains_key(token@),
            final(self)@ == old(self)@.insert(token@, id@),
    {
        let ghost old_tokens = self.entries@.map_values(|e: TokenEntry| e.token@);
        let ghost old_map = self@;
        let ghost tk = token@;
        let ghost iv = id@;
        match self.find(&token) {
            Some(i) => {
                self.entries.set(i, TokenEntry { token, id });
                proof {
                    let tokens = self.entries@.map_values(|e: TokenEntry| e.token@);
                    assert(tokens =~= old_tokens);
                    lemma_index_of_unique(old_tokens, i as int);
                    assert forall|k: Seq<char>| tokens.contains(k) implies #[trigger] self@[k]
                        == old_map.insert(tk, iv)[k] by {
                        let j = old_tokens.index_of(k);
                        assert(0 <= j < old_tokens.len() && old_tokens[j] == k);
                        if k != tk {
                            assert(j != i);
                        }
                    }
                    assert(self@ =~= old_map.insert(tk, iv));
                }
                true
            },
            None => {
                let ghost n = self.entries@.len();
                self.entries.push(TokenEntry { token, id });
                proof {
                    let tokens = self.entries@.map_values(|e: TokenEntry| e.token@);
                    assert(tokens =~= old_tokens.push(tk));
                    assert forall|a: int, b: int|
                        0 <= a < tokens.len() && 0 <= b < tokens.len() && a != b implies tokens[a]
                        != tokens[b] by {
                        if a < n && b < n {
                            assert(tokens[a] == old_tokens[a] && tokens[b] == old_tokens[b]);
                        } else if a == n {
                            assert(old_tokens[b] == tokens[b]);
                        } else {
                            assert(old_tokens[a] == tokens[a]);
                        }
                    }
                    lemma_index_of_unique(tokens, n as int);
                    assert forall|k: Seq<char>| tokens.contains(k) implies #[trigger] self@[k]
                        == old_map.insert(tk, iv)[k] by {
                        if k != tk {
                            let j = tokens.index_of(k);
                            assert(0 <= j < tokens.len() && tokens[j] == k);
                            assert(j != n);
                            assert(old_tokens[j] == k);
                            lemma_index_of_unique(old_tokens, j);
                        }
                    }
                    assert forall|k: Seq<char>| tokens.contains(k) <==> old_map.insert(
                        tk,
                        iv,
                    ).contains_key(k) by {
                        if tokens.contains(k) && k != tk {
                            let j = choose|j: int| 0 <= j < tokens.len() && tokens[j] == k;
                            assert(j != n);
                            assert(old_tokens[j] == k);
                        }
                        if old_tokens.contains(k) {
                            let j = choose|j: int| 0 <= j < old_tokens.len() && old_tokens[j] == k;
                            assert(tokens[j] == k);
                        }
                        if k == tk {
                            assert(tokens[n as int] == k);
                        }
                    }
                    assert(self@ =~= old_map.insert(tk, iv));
                }
                false
            },
        }
    }

    /// Whether no token is configured.
    pub fn is_empty(&self) -> (res: bool)
        ensures
            res == (self@.dom() == Set::<Seq<char>>::empty()),
    {
        let tokens = Ghost(self.entries@.map_values(|e: TokenEntry| e.token@));
        if self.entries.len() == 0 {
            assert(self@.dom() =~= Set::<Seq<char>>::empty());
            true
        } else {
            assert(tokens@[0] == self.entries@[0].token@);
            assert(self@.dom().contains(tokens@[0]));
            false
        }
    }

    /// Whether `token` is accepted.
    pub fn contains(&self, token: &str) -> (res: bool)
        ensures
            res == self@.contains_key(token@),
    {
        let key = String::from_str(token);
        match self.find(&key) {
            Some(i) => {
                let ghost tokens = self.entries@.map_values(|e: TokenEntry| e.token@);
                assert(tokens[i as int] == token@);
                true
            },
            None => false,
        }
    }

    /// The identifier `token` was configured under, if it is accepted.
    pub fn id_of(&self, token: &str) -> (res: Option<String>)
        requires
            self.wf(),
        ensures
            match res {
                Some(id) => self@.contains_key(token@) && self@[token@] == id@,
                None => !self@.contains_key(token@),
            },
    {
        let key = String::from_str(token);
        match self.find(&key) {
            Some(i) => {
                let ghost tokens = self.entries@.map_values(|e: TokenEntry| e.token@);
                assert(tokens[i as int] == token@);
                proof {
                    lemma_index_of_unique(tokens, i as int);
                }
                Some(self.entries[i].id.clone())
            },
            None => None,
        }
    }
}

} // verus!
