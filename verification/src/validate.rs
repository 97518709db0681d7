use crate::contract::Crowdfund;
use crate::ledger::Ledger;
use crate::model::{tokens_apart, within_wallet_limit, CrowdfundView};
use crate::registry::TokenRegistry;
use crate::text::{ascending, lemma_text_lt_transitive, str_lt, text_lt};
use vstd::prelude::*;

verus! {

/// Texts of which each comes before the next stand in ascending order.
proof fn lemma_neighbours_ascending(s: Seq<Seq<char>>, i: int, j: int)
    requires
        forall|k: int| 0 < k < s.len() ==> text_lt(#[trigger] s[k - 1], s[k]),
        0 <= i < j < s.len(),
    ensures
        text_lt(s[i], s[j]),
    decreases j - i,
{
    assert(text_lt(s[j - 1], s[j]));
    if i < j - 1 {
        lemma_neighbours_ascending(s, i, j - 1);
        lemma_text_lt_transitive(s[i], s[j - 1], s[j]);
    }
}

/// Whether the token of the purchase `a` of the entry `i` is neither
/// available nor the token of an earlier purchase.
pub open spec fn token_is_new(v: CrowdfundView, i: int, a: int) -> bool {
    let t = v.ledger[i].purchases[a].token_id;
    &&& !v.tokens.contains(t)
    &&& forall|j: int, b: int|
        #![trigger v.ledger[j].purchases[b]]
        0 <= j < i && 0 <= b < v.ledger[j].purchases.len() ==> v.ledger[j].purchases[b].token_id
            != t
    &&& forall|b: int| 0 <= b < a ==> (#[trigger] v.ledger[i].purchases[b]).token_id != t
}

/// Whether the token of every purchase before the purchase `a` of the entry
/// `i` was new when it was purchased.
pub open spec fn tokens_new_before(v: CrowdfundView, i: int, a: int) -> bool {
    forall|j: int, b: int|
        #![trigger v.ledger[j].purchases[b]]
        0 <= j < v.ledger.len() && 0 <= b < v.ledger[j].purchases.len() && (j < i || (j == i && b
            < a)) ==> token_is_new(v, j, b)
}

/// Where every token was new when it was purchased, no token was purchased
/// twice and no purchased token is available.
proof fn lemma_new_tokens_apart(v: CrowdfundView)
    requires
        tokens_new_before(v, v.ledger.len() as int, 0),
    ensures
        tokens_apart(v),
{
    assert forall|i: int, a: int, j: int, b: int|
        #![trigger v.ledger[i].purchases[a], v.ledger[j].purchases[b]]
        0 <= i < v.ledger.len() && 0 <= a < v.ledger[i].purchases.len() && 0 <= j
            < v.ledger.len() && 0 <= b < v.ledger[j].purchases.len() && (i != j || a != b)
        implies v.ledger[i].purchases[a].token_id != v.ledger[j].purchases[b].token_id by {
        assert(token_is_new(v, i, a));
        assert(token_is_new(v, j, b));
    }
    assert forall|i: int, a: int, k: int|
        #![trigger v.ledger[i].purchases[a], v.tokens[k]]
        0 <= i < v.ledger.len() && 0 <= a < v.ledger[i].purchases.len() && 0 <= k
            < v.tokens.len() implies v.ledger[i].purchases[a].token_id != v.tokens[k] by {
        assert(token_is_new(v, i, a));
    }
}

/// Where no token was purchased twice and no purchased token is available,
/// every token was new when it was purchased.
proof fn lemma_apart_tokens_new(v: CrowdfundView, i: int, a: int)
    requires
        tokens_apart(v),
        0 <= i < v.ledger.len(),
        0 <= a < v.ledger[i].purchases.len(),
    ensures
        token_is_new(v, i, a),
{
    let t = v.ledger[i].purchases[a].token_id;
    if v.tokens.contains(t) {
        let k = choose|k: int| 0 <= k < v.tokens.len() && v.tokens[k] == t;
        assert(v.ledger[i].purchases[a].token_id != v.tokens[k]);
    }
}

impl TokenRegistry {
    /// Whether the tokens stand in ascending order, each of them once.
    pub fn is_valid(&self) -> (ok: bool)
        ensures
            ok == self.wf(),
    {
        let ghost s = self@;
        let mut k: usize = 1;
        while k < self.tokens.len()
            invariant
                1 <= k,
                s == self@,
                forall|m: int| 0 < m < k && m < s.len() ==> text_lt(#[trigger] s[m - 1], s[m]),
            decreases self.tokens@.len() - k,
        {
            if !str_lt(self.tokens[k - 1].as_str(), self.tokens[k].as_str()) {
                assert(!text_lt(s[k - 1], s[k as int]));
                return false;
            }
            k += 1;
        }
        proof {
            assert forall|i: int, j: int| 0 <= i < j < s.len() implies text_lt(
                #[trigger] s[i],
                #[trigger] s[j],
            ) by {
                lemma_neighbours_ascending(s, i, j);
            }
        }
        true
    }
}

impl Ledger {
    /// Whether every buyer has one entry, every entry holds a purchase, and
    /// every purchase names the buyer of its entry.
    pub fn is_valid(&self) -> (ok: bool)
        ensures
            ok == self.wf(),
    {
        let ghost l = self@;
        let mut i: usize = 0;
        while i < self.entries.len()
            invariant
                i <= self.entries@.len(),
                l == self@,
                forall|x: int, y: int|
                    0 <= x < y < i ==> (#[trigger] l[x]).buyer != (#[trigger] l[y]).buyer,
                forall|x: int| 0 <= x < i ==> (#[trigger] l[x]).purchases.len() > 0,
                forall|x: int, a: int|
                    0 <= x < i && 0 <= a < l[x].purchases.len() ==> (
                    #[trigger] l[x].purchases[a]).purchaser == l[x].buyer,
            decreases self.entries@.len() - i,
        {
            let entry = &self.entries[i];
            assert(entry@ == l[i as int]);
            if entry.purchases.len() == 0 {
                return false;
            }
            let mut a: usize = 0;
            while a < entry.purchases.len()
                invariant
                    a <= entry.purchases@.len(),
                    l == self@,
                    i < l.len(),
                    entry@ == l[i as int],
                    forall|b: int| 0 <= b < a ==> (#[trigger] l[i as int].purchases[b]).purchaser
                        == l[i as int].buyer,
                decreases entry.purchases@.len() - a,
            {
                assert(entry@.purchases[a as int] == entry.purchases@[a as int]@);
                if entry.purchases[a].purchaser != entry.buyer {
                    assert(l[i as int].purchases[a as int].purchaser != l[i as int].buyer);
                    return false;
                }
                a += 1;
            }
            let mut j: usize = 0;
            while j < i
                invariant
                    j <= i < self.entries@.len(),
                    l == self@,
                    entry@ == l[i as int],
                    forall|x: int| 0 <= x < j ==> (#[trigger] l[x]).buyer != l[i as int].buyer,
                decreases i - j,
            {
                if self.entries[j].buyer == entry.buyer {
                    assert(l[j as int].buyer == l[i as int].buyer);
                    return false;
                }
                j += 1;
            }
            i += 1;
        }
        true
    }
}

impl Crowdfund {
    /// Whether the token of the purchase `a` of the entry `i` is neither
    /// available nor the token of an earlier purchase.
    fn token_is_new(&self, i: usize, a: usize) -> (ok: bool)
        requires
            i < self@.ledger.len(),
            a < self@.ledger[i as int].purchases.len(),
        ensures
            ok == token_is_new(self@, i as int, a as int),
    {
        let ghost v = self@;
        let token = &self.purchases.entries[i].purchases[a].token_id;
        assert(v.ledger[i as int].purchases[a as int] == self.purchases.entries@[i as int].purchases@[a as int]@);
        if self.available_tokens.has(token) {
            return false;
        }
        let mut j: usize = 0;
        while j < i
            invariant
                j <= i < self.purchases.entries@.len(),
                v == self@,
                a < v.ledger[i as int].purchases.len(),
                token@ == v.ledger[i as int].purchases[a as int].token_id,
                forall|x: int, b: int|
                    #![trigger v.ledger[x].purchases[b]]
                    0 <= x < j && 0 <= b < v.ledger[x].purchases.len()
                        ==> v.ledger[x].purchases[b].token_id != token@,
            decreases i - j,
        {
            let other = &self.purchases.entries[j];
            assert(other@ == v.ledger[j as int]);
            let mut b: usize = 0;
            while b < other.purchases.len()
                invariant
                    b <= other.purchases@.len(),
                    v == self@,
                    j < i < v.ledger.len(),
                    a < v.ledger[i as int].purchases.len(),
                    token@ == v.ledger[i as int].purchases[a as int].token_id,
                    other@ == v.ledger[j as int],
                    forall|y: int| 0 <= y < b ==> (#[trigger] v.ledger[j as int].purchases[y]).token_id
                        != token@,
                decreases other.purchases@.len() - b,
            {
                assert(other@.purchases[b as int] == other.purchases@[b as int]@);
                if other.purchases[b].token_id == *token {
                    assert(v.ledger[j as int].purchases[b as int].token_id == token@);
                    return false;
                }
                b += 1;
            }
            j += 1;
        }
        let entry = &self.purchases.entries[i];
        assert(entry@ == v.ledger[i as int]);
        let mut b: usize = 0;
        while b < a
            invariant
                b <= a < entry.purchases@.len(),
                v == self@,
                i < v.ledger.len(),
                token@ == v.ledger[i as int].purchases[a as int].token_id,
                entry@ == v.ledger[i as int],
                forall|y: int| 0 <= y < b ==> (#[trigger] v.ledger[i as int].purchases[y]).token_id
                    != token@,
            decreases a - b,
        {
            assert(entry@.purchases[b as int] == entry.purchases@[b as int]@);
            if entry.purchases[b].token_id == *token {
                assert(v.ledger[i as int].purchases[b as int].token_id == token@);
                return false;
            }
            b += 1;
        }
        true
    }

    /// Whether no token was purchased twice and no purchased token is
    /// available.
    fn tokens_are_apart(&self) -> (ok: bool)
        ensures
            ok == tokens_apart(self@),
    {
        let ghost v = self@;
        let mut i: usize = 0;
        while i < self.purchases.entries.len()
            invariant
                i <= self.purchases.entries@.len(),
                v == self@,
                tokens_new_before(v, i as int, 0),
            decreases self.purchases.entries@.len() - i,
        {
            let mut a: usize = 0;
            assert(self.purchases.entries@[i as int]@ == v.ledger[i as int]);
            while a < self.purchases.entries[i].purchases.len()
                invariant
                    i < self.purchases.entries@.len(),
                    a <= self.purchases.entries@[i as int].purchases@.len(),
                    self.purchases.entries@[i as int]@ == v.ledger[i as int],
                    v == self@,
                    tokens_new_before(v, i as int, a as int),
                decreases self.purchases.entries@[i as int].purchases@.len() - a,
            {
                if !self.token_is_new(i, a) {
                    proof {
                        if tokens_apart(v) {
                            lemma_apart_tokens_new(v, i as int, a as int);
                        }
                    }
                    return false;
                }
                a += 1;
            }
            i += 1;
        }
        proof {
            lemma_new_tokens_apart(v);
        }
        true
    }

    /// Whether no buyer holds more purchases than `limit`.
    fn wallets_are_within(&self, limit: u32) -> (ok: bool)
        ensures
            ok == within_wallet_limit(self@.ledger, limit as nat),
    {
        let ghost l = self@.ledger;
        let mut i: usize = 0;
        while i < self.purchases.entries.len()
            invariant
                i <= self.purchases.entries@.len(),
                l == self@.ledger,
                forall|x: int| 0 <= x < i ==> (#[trigger] l[x]).purchases.len() <= limit,
            decreases self.purchases.entries@.len() - i,
        {
            assert(self.purchases.entries@[i as int]@ == l[i as int]);
            if self.purchases.entries[i].purchases.len() > limit as usize {
                return false;
            }
            i += 1;
        }
        true
    }

    /// Whether the engine is in a state that its operations can reach. An
    /// engine that was put together from stored parts is to be checked
    /// before it is used.
    pub fn is_valid(&self) -> (ok: bool)
        ensures
            ok == self.wf(),
    {
        if !self.available_tokens.is_valid() || !self.purchases.is_valid() {
            return false;
        }
        if !self.tokens_are_apart() {
            return false;
        }
        match &self.state {
            Some(state) => state.max_amount_per_wallet >= 1 && self.wallets_are_within(
                state.max_amount_per_wallet,
            ),
            None => self.purchases.len() == 0,
        }
    }
}

} // verus!
