//! The in-memory ACME challenge store: the `(token, proof)` pairs served
//! under `/.well-known/acme-challenge/` while an order is validated.
//!
//! The embedding binary owns one store behind its message loop; the logic
//! here is the store itself.

use vstd::prelude::*;

use crate::text::str_eq;

verus! {

/// The challenge store: at most one proof per token.
#[derive(Debug)]
pub struct AcmeChallenge {
    entries: Vec<(String, String)>,
}

impl AcmeChallenge {
    /// The stored pairs, in insertion order.
    pub closed spec fn entries_seq(&self) -> Seq<(String, String)> {
        self.entries@
    }

    /// The proof stored for a token, as a map.
    pub open spec fn stored(&self) -> Map<Seq<char>, Seq<char>> {
        Map::new(
            |t: Seq<char>|
                exists|i: int|
                    0 <= i < self.entries_seq().len() && (#[trigger] self.entries_seq()[i]).0@ == t,
            |t: Seq<char>|
                {
                    let i = choose|i: int|
                        0 <= i < self.entries_seq().len() && (#[trigger] self.entries_seq()[i]).0@
                            == t;
                    self.entries_seq()[i].1@
                },
        )
    }

    /// Tokens are pairwise distinct.
    pub open spec fn wf(&self) -> bool {
        forall|a: int, b: int|
            0 <= a < b < self.entries_seq().len() ==> (#[trigger] self.entries_seq()[a]).0@ != (
            #[trigger] self.entries_seq()[b]).0@
    }

    /// An empty store.
    pub fn new() -> (r: AcmeChallenge)
        ensures
            r.wf(),
            r.entries_seq().len() == 0,
    {
        AcmeChallenge { entries: Vec::new() }
    }

    /// The index of a token's entry, if it is stored.
    fn find_token(&self, token: &str) -> (r: Option<usize>)
        ensures
            match r {
                Some(i) => i < self.entries_seq().len() && self.entries_seq()[i as int].0@
                    == token@,
                None => forall|i: int|
                    0 <= i < self.entries_seq().len() ==> (#[trigger] self.entries_seq()[i]).0@
                        != token@,
            },
    {
        let n = self.entries.len();
        let mut i: usize = 0;
        while i < n
            invariant
                n == self.entries_seq().len(),
                i <= n,
                forall|k: int|
                    0 <= k < i ==> (#[trigger] self.entries_seq()[k]).0@ != token@,
            decreases n - i,
        {
            if str_eq(self.entries[i].0.as_str(), token) {
                return Some(i);
            }
            i += 1;
        }
        None
    }

    /// Stores the proof for a token, replacing any proof stored for the
    /// same token before.
    pub fn set_challenge(&mut self, token: String, proof_value: String)
        requires
            old(self).wf(),
        ensures
            final(self).wf(),
            final(self).stored() == old(self).stored().insert(token@, proof_value@),
    {
        let ghost prior = *self;
        match self.find_token(token.as_str()) {
            Some(i) => {
                self.entries[i] = (token, proof_value);
                proof {
                    assert forall|a: int, b: int|
                        0 <= a < b < self.entries_seq().len() implies (
                    #[trigger] self.entries_seq()[a]).0@ != (
                    #[trigger] self.entries_seq()[b]).0@ by {
                        assert(prior.entries_seq()[a].0@ != prior.entries_seq()[b].0@);
                        if a != i && b != i {
                            assert(self.entries_seq()[a] == prior.entries_seq()[a]);
                            assert(self.entries_seq()[b] == prior.entries_seq()[b]);
                        }
                    }
                    lemma_stored_after_set(prior, *self, i as int);
                }
            },
            None => {
                self.entries.push((token, proof_value));
                proof {
                    lemma_stored_after_push(prior, *self);
                }
            },
        }
    }

    /// The proof for a token, if one is stored.
    pub fn get_proof(&self, token: &str) -> (r: Option<String>)
        requires
            self.wf(),
        ensures
            match r {
                Some(p) => self.stored().dom().contains(token@) && p@ == self.stored()[token@],
                None => !self.stored().dom().contains(token@),
            },
    {
        match self.find_token(token) {
            Some(i) => {
                proof {
                    let w = choose|w: int|
                        0 <= w < self.entries_seq().len() && (#[trigger] self.entries_seq()[w]).0@
                            == token@;
                    assert(w == i);
                }
                Some(self.entries[i].1.clone())
            },
            None => {
                proof {
                    if self.stored().dom().contains(token@) {
                        let w = choose|w: int|
                            0 <= w < self.entries_seq().len() && (
                            #[trigger] self.entries_seq()[w]).0@ == token@;
                        assert(false);
                    }
                }
                None
            },
        }
    }

    /// Drops every stored challenge, as happens once the order is done.
    pub fn clear(&mut self)
        ensures
            final(self).wf(),
            final(self).stored() =~= Map::<Seq<char>, Seq<char>>::empty(),
            final(self).entries_seq().len() == 0,
    {
        self.entries.clear();
    }
}

/// Replacing the entry of a stored token updates exactly that key.
proof fn lemma_stored_after_set(prior: AcmeChallenge, cur: AcmeChallenge, i: int)
    requires
        prior.wf(),
        cur.wf(),
        0 <= i < prior.entries_seq().len(),
        cur.entries_seq().len() == prior.entries_seq().len(),
        prior.entries_seq()[i].0@ == cur.entries_seq()[i].0@,
        forall|k: int|
            0 <= k < prior.entries_seq().len() && k != i ==> cur.entries_seq()[k]
                == prior.entries_seq()[k],
    ensures
        cur.stored() == prior.stored().insert(cur.entries_seq()[i].0@, cur.entries_seq()[i].1@),
{
    let t = cur.entries_seq()[i].0@;
    let p = cur.entries_seq()[i].1@;
    assert forall|k: Seq<char>| #![auto] true implies {
        (cur.stored().dom().contains(k) <==> prior.stored().insert(t, p).dom().contains(k))
            && (cur.stored().dom().contains(k) ==> cur.stored()[k] == prior.stored().insert(
            t,
            p,
        )[k])
    } by {
        if k == t {
            assert(cur.stored().dom().contains(k));
            let w = choose|w: int|
                0 <= w < cur.entries_seq().len() && (#[trigger] cur.entries_seq()[w]).0@ == k;
            assert(w == i);
        } else {
            if cur.stored().dom().contains(k) {
                let w = choose|w: int|
                    0 <= w < cur.entries_seq().len() && (#[trigger] cur.entries_seq()[w]).0@ == k;
                assert(w != i);
                assert(prior.entries_seq()[w].0@ == k);
                let w2 = choose|w2: int|
                    0 <= w2 < prior.entries_seq().len() && (#[trigger] prior.entries_seq()[w2]).0@
                        == k;
                assert(w2 == w);
            }
            if prior.stored().dom().contains(k) {
                let w = choose|w: int|
                    0 <= w < prior.entries_seq().len() && (#[trigger] prior.entries_seq()[w]).0@
                        == k;
                assert(w != i);
                assert(cur.entries_seq()[w].0@ == k);
                let w2 = choose|w2: int|
                    0 <= w2 < cur.entries_seq().len() && (#[trigger] cur.entries_seq()[w2]).0@ == k;
                assert(w2 == w);
            }
        }
    }
    assert(cur.stored() =~= prior.stored().insert(t, p));
}

/// Appending an unseen token's entry adds exactly that key.
proof fn lemma_stored_after_push(prior: AcmeChallenge, cur: AcmeChallenge)
    requires
        prior.wf(),
        cur.wf(),
        cur.entries_seq().len() == prior.entries_seq().len() + 1,
        forall|k: int|
            0 <= k < prior.entries_seq().len() ==> cur.entries_seq()[k] == prior.entries_seq()[k],
        forall|k: int|
            0 <= k < prior.entries_seq().len() ==> (#[trigger] prior.entries_seq()[k]).0@
                != cur.entries_seq().last().0@,
    ensures
        cur.stored() == prior.stored().insert(
            cur.entries_seq().last().0@,
            cur.entries_seq().last().1@,
        ),
{
    let n = prior.entries_seq().len() as int;
    let t = cur.entries_seq().last().0@;
    let p = cur.entries_seq().last().1@;
    assert forall|k: Seq<char>| #![auto] true implies {
        (cur.stored().dom().contains(k) <==> prior.stored().insert(t, p).dom().contains(k))
            && (cur.stored().dom().contains(k) ==> cur.stored()[k] == prior.stored().insert(
            t,
            p,
        )[k])
    } by {
        if k == t {
            assert(cur.entries_seq()[n].0@ == k);
            assert(cur.stored().dom().contains(k));
            let w = choose|w: int|
                0 <= w < cur.entries_seq().len() && (#[trigger] cur.entries_seq()[w]).0@ == k;
            assert(w == n);
        } else {
            if cur.stored().dom().contains(k) {
                let w = choose|w: int|
                    0 <= w < cur.entries_seq().len() && (#[trigger] cur.entries_seq()[w]).0@ == k;
                assert(w != n);
                assert(prior.entries_seq()[w].0@ == k);
                let w2 = choose|w2: int|
                    0 <= w2 < prior.entries_seq().len() && (#[trigger] prior.entries_seq()[w2]).0@
                        == k;
                assert(w2 == w);
            }
            if prior.stored().dom().contains(k) {
                let w = choose|w: int|
                    0 <= w < prior.entries_seq().len() && (#[trigger] prior.entries_seq()[w]).0@
                        == k;
                assert(cur.entries_seq()[w].0@ == k);
                let w2 = choose|w2: int|
                    0 <= w2 < cur.entries_seq().len() && (#[trigger] cur.entries_seq()[w2]).0@ == k;
                assert(w2 == w);
            }
        }
    }
    assert(cur.stored() =~= prior.stored().insert(t, p));
}

} // verus!
