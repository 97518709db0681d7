use crate::coin::{CoinView, PaymentView};
use crate::ledger::{
    entry_index, has_buyer, lemma_remove_ledger_wf, lemma_subrange_ledger_wf,
    lemma_with_purchases_wf, purchases_of, with_purchases, LedgerEntryView, PurchaseView,
};
use crate::model::{
    deliveries, deliveries_of, new_purchases, purchase_delivery, refund_amount, refund_command,
    refunds, tokens_apart, wf, within_wallet_limit, CrowdfundView,
};
use crate::state::StateView;
use crate::coin::payments_total;
use crate::model::minted_tokens;
use crate::registry::{
    after_n, first_n, is_insert_position, lemma_ascending_distinct, lemma_insert_ascending,
    lemma_insert_position_unique, lemma_remove_ascending, lemma_subrange_ascending, with_token,
    without_token,
};
use crate::state::MintView;
use crate::text::{ascending, lemma_text_lt_total, lemma_text_lt_transitive, text_lt};
use vstd::prelude::*;

verus! {

/// Whether the tokens `ids` and `rest` are some of `tokens`, none of them
/// twice.
pub open spec fn split_of(tokens: Seq<Seq<char>>, ids: Seq<Seq<char>>, rest: Seq<Seq<char>>) -> bool {
    &&& forall|a: int, b: int| 0 <= a < b < ids.len() ==> #[trigger] ids[a] != #[trigger] ids[b]
    &&& forall|a: int| 0 <= a < ids.len() ==> tokens.contains(#[trigger] ids[a])
    &&& forall|k: int| 0 <= k < rest.len() ==> tokens.contains(#[trigger] rest[k])
    &&& forall|a: int, k: int|
        0 <= a < ids.len() && 0 <= k < rest.len() ==> #[trigger] ids[a] != #[trigger] rest[k]
}

/// A purchase within the wallet limit, of tokens that were available, leaves
/// the engine in a state that its operations can reach.
pub proof fn lemma_purchase_wf(
    v: CrowdfundView,
    st: StateView,
    st2: StateView,
    buyer: Seq<char>,
    ids: Seq<Seq<char>>,
    rest: Seq<Seq<char>>,
    tax: nat,
    msgs: Seq<PaymentView>,
)
    requires
        wf(v),
        v.state == Some(st),
        st2.max_amount_per_wallet == st.max_amount_per_wallet,
        ids.len() > 0,
        purchases_of(v.ledger, buyer).len() + ids.len() <= st.max_amount_per_wallet,
        ascending(rest),
        split_of(v.tokens, ids, rest),
    ensures
        wf(
            CrowdfundView {
                state: Some(st2),
                tokens: rest,
                ledger: with_purchases(v.ledger, buyer, new_purchases(ids, tax, msgs, buyer)),
                ..v
            },
        ),
{
    let l = v.ledger;
    let ps = new_purchases(ids, tax, msgs, buyer);
    let r = with_purchases(l, buyer, ps);
    let w = CrowdfundView { state: Some(st2), tokens: rest, ledger: r, ..v };
    lemma_with_purchases_wf(l, buyer, ps);
    let k = if has_buyer(l, buyer) {
        entry_index(l, buyer)
    } else {
        l.len() as int
    };
    let base = if has_buyer(l, buyer) {
        l[k].purchases.len() as int
    } else {
        0
    };
    assert(r.len() == if has_buyer(l, buyer) {
        l.len()
    } else {
        l.len() + 1
    });
    assert forall|i: int| 0 <= i < r.len() && i != k implies r[i] == l[i] by {}
    assert(r[k].purchases.len() == base + ids.len());
    assert forall|a: int| 0 <= a < base implies r[k].purchases[a] == l[k].purchases[a] by {}
    assert forall|a: int| base <= a < base + ids.len() implies (#[trigger] r[k].purchases[a]).token_id
        == ids[a - base] by {
        assert(r[k].purchases[a] == ps[a - base]);
    }
    assert(within_wallet_limit(r, st2.max_amount_per_wallet)) by {
        assert forall|i: int| 0 <= i < r.len() implies (#[trigger] r[i]).purchases.len()
            <= st2.max_amount_per_wallet by {
            if i != k {
                assert(r[i] == l[i]);
            }
        }
    }
    assert forall|i: int, a: int, j: int, b: int|
        #![trigger r[i].purchases[a], r[j].purchases[b]]
        0 <= i < r.len() && 0 <= a < r[i].purchases.len() && 0 <= j < r.len() && 0 <= b
            < r[j].purchases.len() && (i != j || a != b) implies r[i].purchases[a].token_id
        != r[j].purchases[b].token_id by {
        let new_a = i == k && a >= base;
        let new_b = j == k && b >= base;
        if new_a && new_b {
            assert(r[i].purchases[a].token_id == ids[a - base]);
            assert(r[j].purchases[b].token_id == ids[b - base]);
            if a < b {
                assert(ids[a - base] != ids[b - base]);
            } else {
                assert(ids[b - base] != ids[a - base]);
            }
        } else if new_a {
            assert(r[i].purchases[a].token_id == ids[a - base]);
            assert(r[j].purchases[b] == l[j].purchases[b]);
            assert(v.tokens.contains(ids[a - base]));
            let t = choose|t: int| 0 <= t < v.tokens.len() && v.tokens[t] == ids[a - base];
            assert(l[j].purchases[b].token_id != v.tokens[t]);
        } else if new_b {
            assert(r[j].purchases[b].token_id == ids[b - base]);
            assert(r[i].purchases[a] == l[i].purchases[a]);
            assert(v.tokens.contains(ids[b - base]));
            let t = choose|t: int| 0 <= t < v.tokens.len() && v.tokens[t] == ids[b - base];
            assert(l[i].purchases[a].token_id != v.tokens[t]);
        } else {
            assert(r[i].purchases[a] == l[i].purchases[a]);
            assert(r[j].purchases[b] == l[j].purchases[b]);
        }
    }
    assert forall|i: int, a: int, t: int|
        #![trigger r[i].purchases[a], rest[t]]
        0 <= i < r.len() && 0 <= a < r[i].purchases.len() && 0 <= t < rest.len()
        implies r[i].purchases[a].token_id != rest[t] by {
        if i == k && a >= base {
            assert(r[i].purchases[a].token_id == ids[a - base]);
            assert(ids[a - base] != rest[t]);
        } else {
            assert(r[i].purchases[a] == l[i].purchases[a]);
            assert(v.tokens.contains(rest[t]));
            let u = choose|u: int| 0 <= u < v.tokens.len() && v.tokens[u] == rest[t];
            assert(l[i].purchases[a].token_id != v.tokens[u]);
        }
    }
    assert(tokens_apart(w));
}

/// The first tokens of an ascending sequence and the tokens after them are
/// tokens of the sequence, none of them twice.
pub proof fn lemma_first_after_split(tokens: Seq<Seq<char>>, n: int)
    requires
        ascending(tokens),
        0 <= n,
    ensures
        split_of(tokens, first_n(tokens, n), after_n(tokens, n)),
        ascending(after_n(tokens, n)),
        first_n(tokens, n).len() == if n < tokens.len() {
            n
        } else {
            tokens.len() as int
        },
{
    let ids = first_n(tokens, n);
    let rest = after_n(tokens, n);
    let m = ids.len() as int;
    lemma_ascending_distinct(tokens);
    if n < tokens.len() {
        lemma_subrange_ascending(tokens, n, tokens.len() as int);
    }
    assert forall|a: int| 0 <= a < ids.len() implies tokens.contains(#[trigger] ids[a]) by {
        assert(tokens[a] == ids[a]);
    }
    assert forall|k: int| 0 <= k < rest.len() implies tokens.contains(#[trigger] rest[k]) by {
        assert(tokens[m + k] == rest[k]);
    }
    assert forall|a: int, b: int| 0 <= a < b < ids.len() implies #[trigger] ids[a]
        != #[trigger] ids[b] by {
        assert(ids[a] == tokens[a] && ids[b] == tokens[b]);
    }
    assert forall|a: int, k: int| 0 <= a < ids.len() && 0 <= k < rest.len() implies #[trigger] ids[a]
        != #[trigger] rest[k] by {
        assert(ids[a] == tokens[a] && rest[k] == tokens[m + k]);
    }
}

/// An available token and the other tokens are tokens of the sequence, none
/// of them twice.
pub proof fn lemma_one_token_split(tokens: Seq<Seq<char>>, id: Seq<char>)
    requires
        ascending(tokens),
        tokens.contains(id),
    ensures
        split_of(tokens, seq![id], without_token(tokens, id)),
        ascending(without_token(tokens, id)),
{
    let ids = seq![id];
    let rest = without_token(tokens, id);
    let p = tokens.index_of(id);
    lemma_ascending_distinct(tokens);
    lemma_remove_ascending(tokens, p);
    assert forall|a: int| 0 <= a < ids.len() implies tokens.contains(#[trigger] ids[a]) by {}
    assert forall|k: int| 0 <= k < rest.len() implies tokens.contains(#[trigger] rest[k]) by {
        let o = if k < p { k } else { k + 1 };
        assert(tokens[o] == rest[k]);
    }
    assert forall|a: int, k: int| 0 <= a < ids.len() && 0 <= k < rest.len() implies #[trigger] ids[a]
        != #[trigger] rest[k] by {
        let o = if k < p { k } else { k + 1 };
        assert(tokens[o] == rest[k]);
        assert(tokens[p] == id);
    }
}

/// The payments of a prefix come to no more than all payments.
pub proof fn lemma_payments_total_prefix(payments: Seq<PaymentView>, i: int)
    requires
        0 <= i <= payments.len(),
    ensures
        payments_total(payments.take(i)) <= payments_total(payments),
    decreases payments.len() - i,
{
    if i < payments.len() {
        lemma_payments_total_prefix(payments, i + 1);
        assert(payments.take(i + 1).drop_last() =~= payments.take(i));
    } else {
        assert(payments.take(i) =~= payments);
    }
}

/// Whether `state` can be the sale of an engine that kept a stretch of the
/// ledger of `v`: the sale of `v` with the same wallet limit, or no sale
/// where nothing of the ledger is left.
pub open spec fn sale_fits(v: CrowdfundView, state: Option<StateView>, ledger_left: int) -> bool {
    match state {
        Some(st) => v.state is Some && st.max_amount_per_wallet
            == v.state->0.max_amount_per_wallet,
        None => ledger_left == 0,
    }
}

/// An engine that keeps a stretch of its ledger and a stretch of its tokens
/// stays in a state that its operations can reach.
pub proof fn lemma_stretch_wf(
    v: CrowdfundView,
    a: int,
    b: int,
    c: int,
    d: int,
    state: Option<StateView>,
)
    requires
        wf(v),
        0 <= a <= b <= v.ledger.len(),
        0 <= c <= d <= v.tokens.len(),
        sale_fits(v, state, b - a),
    ensures
        wf(
            CrowdfundView {
                state,
                ledger: v.ledger.subrange(a, b),
                tokens: v.tokens.subrange(c, d),
                ..v
            },
        ),
{
    let l = v.ledger.subrange(a, b);
    let t = v.tokens.subrange(c, d);
    let w = CrowdfundView { state, ledger: l, tokens: t, ..v };
    lemma_subrange_ledger_wf(v.ledger, a, b);
    lemma_subrange_ascending(v.tokens, c, d);
    assert forall|i: int, x: int, j: int, y: int|
        #![trigger l[i].purchases[x], l[j].purchases[y]]
        0 <= i < l.len() && 0 <= x < l[i].purchases.len() && 0 <= j < l.len() && 0 <= y
            < l[j].purchases.len() && (i != j || x != y) implies l[i].purchases[x].token_id
        != l[j].purchases[y].token_id by {
        assert(l[i].purchases[x] == v.ledger[a + i].purchases[x]);
        assert(l[j].purchases[y] == v.ledger[a + j].purchases[y]);
    }
    assert forall|i: int, x: int, k: int|
        #![trigger l[i].purchases[x], t[k]]
        0 <= i < l.len() && 0 <= x < l[i].purchases.len() && 0 <= k < t.len()
        implies l[i].purchases[x].token_id != t[k] by {
        assert(l[i].purchases[x] == v.ledger[a + i].purchases[x]);
        assert(t[k] == v.tokens[c + k]);
    }
    assert(tokens_apart(w));
    if state is Some {
        assert forall|i: int| 0 <= i < l.len() implies (#[trigger] l[i]).purchases.len()
            <= state->0.max_amount_per_wallet by {
            assert(l[i] == v.ledger[a + i]);
        }
    }
}

/// An engine stays in a state that its operations can reach when the first
/// entries of its ledger and the first of its tokens leave.
pub proof fn lemma_drain_wf(v: CrowdfundView, n: int, m: int, state: Option<StateView>)
    requires
        wf(v),
        0 <= n,
        0 <= m,
        sale_fits(v, state, after_n(v.ledger, n).len() as int),
    ensures
        wf(
            CrowdfundView {
                state,
                ledger: after_n(v.ledger, n),
                tokens: after_n(v.tokens, m),
                ..v
            },
        ),
{
    let a = if n < v.ledger.len() { n } else { v.ledger.len() as int };
    let c = if m < v.tokens.len() { m } else { v.tokens.len() as int };
    assert(after_n(v.ledger, n) =~= v.ledger.subrange(a, v.ledger.len() as int));
    assert(after_n(v.tokens, m) =~= v.tokens.subrange(c, v.tokens.len() as int));
    lemma_stretch_wf(v, a, v.ledger.len() as int, c, v.tokens.len() as int, state);
}

/// An engine with a sale stays in a state that its operations can reach
/// when an entry leaves its ledger.
pub proof fn lemma_remove_entry_wf(v: CrowdfundView, k: int)
    requires
        wf(v),
        v.state is Some,
        0 <= k < v.ledger.len(),
    ensures
        wf(CrowdfundView { ledger: v.ledger.remove(k), ..v }),
{
    let l = v.ledger.remove(k);
    let w = CrowdfundView { ledger: l, ..v };
    lemma_remove_ledger_wf(v.ledger, k);
    assert forall|i: int| 0 <= i < l.len() implies #[trigger] l[i] == v.ledger[if i < k {
        i
    } else {
        i + 1
    }] by {}
    assert forall|i: int, x: int, j: int, y: int|
        #![trigger l[i].purchases[x], l[j].purchases[y]]
        0 <= i < l.len() && 0 <= x < l[i].purchases.len() && 0 <= j < l.len() && 0 <= y
            < l[j].purchases.len() && (i != j || x != y) implies l[i].purchases[x].token_id
        != l[j].purchases[y].token_id by {
        let oi = if i < k { i } else { i + 1 };
        let oj = if j < k { j } else { j + 1 };
        assert(l[i].purchases[x] == v.ledger[oi].purchases[x]);
        assert(l[j].purchases[y] == v.ledger[oj].purchases[y]);
    }
    assert forall|i: int, x: int, t: int|
        #![trigger l[i].purchases[x], v.tokens[t]]
        0 <= i < l.len() && 0 <= x < l[i].purchases.len() && 0 <= t < v.tokens.len()
        implies l[i].purchases[x].token_id != v.tokens[t] by {
        let oi = if i < k { i } else { i + 1 };
        assert(l[i].purchases[x] == v.ledger[oi].purchases[x]);
    }
    assert(tokens_apart(w));
    assert forall|i: int| 0 <= i < l.len() implies (#[trigger] l[i]).purchases.len()
        <= v.state->0.max_amount_per_wallet by {
        let oi = if i < k { i } else { i + 1 };
        assert(l[i] == v.ledger[oi]);
    }
}

/// What was paid for a prefix of purchases is no more than what was paid
/// for all of them.
pub proof fn lemma_refund_amount_prefix(ps: Seq<PurchaseView>, price: nat, i: int)
    requires
        0 <= i <= ps.len(),
    ensures
        refund_amount(ps.take(i), price) <= refund_amount(ps, price),
    decreases ps.len() - i,
{
    if i < ps.len() {
        lemma_refund_amount_prefix(ps, price, i + 1);
        assert(ps.take(i + 1).drop_last() =~= ps.take(i));
    } else {
        assert(ps.take(i) =~= ps);
    }
}

/// What was paid for one more purchase.
pub proof fn lemma_refund_amount_next(ps: Seq<PurchaseView>, price: nat, i: int)
    requires
        0 <= i < ps.len(),
    ensures
        refund_amount(ps.take(i + 1), price) == refund_amount(ps.take(i), price)
            + ps[i].tax_amount + price,
{
    assert(ps.take(i + 1).drop_last() =~= ps.take(i));
}

/// The refunds of one more ledger entry.
pub proof fn lemma_refunds_next(entries: Seq<LedgerEntryView>, price: CoinView, i: int)
    requires
        0 <= i < entries.len(),
    ensures
        refunds(entries.take(i + 1), price) == refunds(entries.take(i), price) + refund_command(
            entries[i],
            price,
        ),
{
    assert(entries.take(i + 1).drop_last() =~= entries.take(i));
}

/// The deliveries of one more purchase.
pub proof fn lemma_deliveries_of_next(ps: Seq<PurchaseView>, i: int)
    requires
        0 <= i < ps.len(),
    ensures
        deliveries_of(ps.take(i + 1)) == deliveries_of(ps.take(i)) + purchase_delivery(ps[i]),
{
    assert(ps.take(i + 1).drop_last() =~= ps.take(i));
}

/// The deliveries of one more ledger entry.
pub proof fn lemma_deliveries_next(entries: Seq<LedgerEntryView>, i: int)
    requires
        0 <= i < entries.len(),
    ensures
        deliveries(entries.take(i + 1)) == deliveries(entries.take(i)) + deliveries_of(
            entries[i].purchases,
        ),
{
    assert(entries.take(i + 1).drop_last() =~= entries.take(i));
}

/// A token that is not among ascending tokens has a place among them.
pub proof fn lemma_insert_position_exists(s: Seq<Seq<char>>, id: Seq<char>, i: int) -> (k: int)
    requires
        ascending(s),
        !s.contains(id),
        0 <= i <= s.len(),
        forall|j: int| 0 <= j < i ==> text_lt(#[trigger] s[j], id),
    ensures
        is_insert_position(s, id, k),
    decreases s.len() - i,
{
    if i == s.len() {
        i
    } else {
        lemma_text_lt_total(s[i], id);
        if text_lt(s[i], id) {
            lemma_insert_position_exists(s, id, i + 1)
        } else {
            assert(s[i] != id);
            assert forall|j: int| i <= j < s.len() implies text_lt(id, #[trigger] s[j]) by {
                if i < j {
                    lemma_text_lt_transitive(id, s[i], s[j]);
                }
            }
            i
        }
    }
}

/// Ascending tokens stay ascending when a token joins them.
pub proof fn lemma_with_token_ascending(s: Seq<Seq<char>>, id: Seq<char>)
    requires
        ascending(s),
    ensures
        ascending(with_token(s, id)),
{
    if !s.contains(id) {
        let k = lemma_insert_position_exists(s, id, 0);
        let c = choose|c: int| is_insert_position(s, id, c);
        lemma_insert_position_unique(s, id, k, c);
        lemma_insert_ascending(s, id, k);
    }
}

/// Ascending tokens stay ascending when minted tokens join them.
pub proof fn lemma_minted_tokens_ascending(
    tokens: Seq<Seq<char>>,
    mints: Seq<MintView>,
    engine: Seq<char>,
)
    requires
        ascending(tokens),
    ensures
        ascending(minted_tokens(tokens, mints, engine)),
    decreases mints.len(),
{
    if mints.len() > 0 {
        lemma_minted_tokens_ascending(tokens, mints.drop_last(), engine);
        lemma_with_token_ascending(
            minted_tokens(tokens, mints.drop_last(), engine),
            mints.last().token_id,
        );
    }
}

} // verus!
