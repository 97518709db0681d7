use crate::coin::{payments_carry_coins, payments_total, CoinView, PaymentView};
use crate::funds::{
    coin_value, escrow, ledger_pays_in, lemma_ledger_remove, lemma_ledger_split,
    lemma_ledger_with_purchases, lemma_paid_burns, lemma_paid_concat, lemma_paid_deliveries,
    lemma_paid_forward, lemma_paid_overpayment, lemma_paid_refund_command, lemma_paid_refunds,
    lemma_payments_new, lemma_refund_amount_new, owed, paid_out_fn, payments_in,
    split_payments, total_paid_out,
};
use crate::handled::{
    handled_tokens, holds_token, is_purchased, lemma_handled_burns, lemma_handled_concat,
    lemma_handled_deliveries, lemma_handled_forward, lemma_handled_none, lemma_handled_refunds,
    lemma_purchased_tokens_distinct, lemma_purchased_tokens_member, purchased_tokens,
};
use crate::ledger::{entry_index, has_buyer, purchases_of, with_purchases, LedgerEntryView};
use crate::model::{
    apply, burns, deliveries, effective_limit, ended, forward_command, forwarded, may_end,
    needs_refund, new_purchases, phase_of, purchase_allowance, purchase_quote, refunds,
    split_ok, time_of, wanted_tokens, wf, Call, CrowdfundView,
};
use crate::proofs::{
    lemma_drain_wf, lemma_first_after_split, lemma_minted_tokens_ascending,
    lemma_one_token_split, lemma_purchase_wf, lemma_remove_entry_wf, split_of,
};
use crate::registry::{after_n, first_n, lemma_ascending_distinct, without_token};
use crate::drained::{
    burn_fn, burned, forward_fn, forwards, ledger_sends, ledger_transfers, lemma_burns_kinds,
    lemma_deliveries_kinds, lemma_forward_kinds, lemma_ledger_sends_concat,
    lemma_ledger_transfers_concat, lemma_pick_concat, lemma_refunds_concat,
    lemma_refunds_kinds, send_fn, sends, transfer_fn, transfers, Transfer,
};
use crate::error::ContractError;
use crate::state::{CommandView, SalePhase, StateView};
use crate::sums::lemma_sum_constant;
use vstd::prelude::*;

verus! {

/// Every operation leaves the engine in a state that its operations can
/// reach: the available tokens ascend, every buyer has one ledger entry, no
/// buyer holds more purchases than one wallet may, no token was purchased
/// twice, and no purchased token is still available.
pub proof fn lemma_operations_keep_wf(v: CrowdfundView, call: Call)
    requires
        wf(v),
    ensures
        apply(v, call) matches Ok(after) ==> wf(after.0),
{
    match call {
        Call::Mint { info, is_owner, mints, engine } => {
            lemma_minted_tokens_ascending(v.tokens, mints, engine);
        },
        Call::UpdateTokenContract { .. } => {},
        Call::StartSale { .. } => {},
        Call::Purchase { info, block, number_of_tokens, split } => {
            if let Ok(after) = apply(v, call) {
                let st = v.state->0;
                let owned = purchases_of(v.ledger, info.sender).len();
                let wanted = wanted_tokens(purchase_allowance(st, owned), number_of_tokens);
                let ids = first_n(v.tokens, wanted);
                lemma_first_after_split(v.tokens, wanted);
                let q = purchase_quote(st, info.funds, ids.len(), split)->Ok_0;
                lemma_purchase_wf(
                    v,
                    st,
                    after.0.state->0,
                    info.sender,
                    ids,
                    after_n(v.tokens, wanted),
                    q.tax,
                    split.msgs,
                );
            }
        },
        Call::PurchaseByTokenId { info, block, token_id, split } => {
            if let Ok(after) = apply(v, call) {
                let st = v.state->0;
                lemma_one_token_split(v.tokens, token_id);
                let q = purchase_quote(st, info.funds, 1, split)->Ok_0;
                lemma_purchase_wf(
                    v,
                    st,
                    after.0.state->0,
                    info.sender,
                    seq![token_id],
                    without_token(v.tokens, token_id),
                    q.tax,
                    split.msgs,
                );
            }
        },
        Call::ClaimRefund { info, block } => {
            if let Ok(after) = apply(v, call) {
                lemma_remove_entry_wf(v, entry_index(v.ledger, info.sender));
            }
        },
        Call::EndSale { info, is_owner, block, end_condition_met, limit } => {
            if let Ok(after) = apply(v, call) {
                let k = effective_limit(limit) as int;
                if after.0 != v {
                    if needs_refund(v.state->0) {
                        lemma_drain_wf(v, k, k, after.0.state);
                    } else if v.ledger.len() > 0 {
                        lemma_drain_wf(v, k, 0, after.0.state);
                        assert(after_n(v.tokens, 0) =~= v.tokens);
                    } else {
                        lemma_drain_wf(v, 0, k, after.0.state);
                        assert(after_n(v.ledger, 0) =~= v.ledger);
                    }
                }
            }
        },
    }
}

/// Wallet cap: while a sale exists, one wallet may purchase at least one
/// token, and no buyer holds more recorded purchases than one wallet may
/// purchase in that sale.
pub proof fn lemma_wallet_cap(v: CrowdfundView, buyer: Seq<char>)
    requires
        wf(v),
    ensures
        match v.state {
            Some(st) => 1 <= st.max_amount_per_wallet && purchases_of(v.ledger, buyer).len()
                <= st.max_amount_per_wallet,
            None => purchases_of(v.ledger, buyer).len() == 0,
        },
{
    if has_buyer(v.ledger, buyer) {
        let k = entry_index(v.ledger, buyer);
        assert(v.ledger[k].purchases.len() >= 0);
    }
}

/// While a sale exists, no call makes its counters fall: not the number of
/// tokens sold, not the proceeds that were forwarded, and not the proceeds
/// altogether, those that wait and those that were forwarded.
pub proof fn lemma_counters_never_fall(v: CrowdfundView, call: Call)
    requires
        v.state is Some,
    ensures
        apply(v, call) matches Ok(after) ==> (after.0.state matches Some(st) ==> {
            &&& st.amount_sold >= v.state->0.amount_sold
            &&& st.amount_transferred >= v.state->0.amount_transferred
            &&& st.amount_to_send + st.amount_transferred >= v.state->0.amount_to_send
                + v.state->0.amount_transferred
        }),
{
    match call {
        Call::Purchase { info, block, number_of_tokens, split } => {
            if let Ok(after) = apply(v, call) {
                let n = (after.0.state->0.amount_sold - v.state->0.amount_sold) as nat;
                assert(split.remainder * n >= 0) by (nonlinear_arith);
            }
        },
        Call::PurchaseByTokenId { info, block, token_id, split } => {
            if let Ok(after) = apply(v, call) {
                assert(split.remainder * 1 >= 0) by (nonlinear_arith);
            }
        },
        _ => {},
    }
}

/// Idempotent drain: once a sale was settled or refunded in full, so that no
/// sale is left, ending the sale again succeeds, hands out no command and
/// leaves the engine as it is.
pub proof fn lemma_drain_is_idempotent(v: CrowdfundView, call: Call)
    requires
        v.state is None,
        call matches Call::EndSale { info, .. } && info.funds.len() == 0,
    ensures
        apply(v, call) == Ok::<(CrowdfundView, Seq<CommandView>), ContractError>(
            (v, Seq::empty()),
        ),
{
}

/// The end of a sale is recorded: once a call has ended a sale, whether its
/// time had come, no token was left, its owner called or the caller's own
/// end condition held, the sale is ended at the time of that call, on the
/// path that the number of tokens sold gave it then.
pub proof fn lemma_end_is_recorded(v: CrowdfundView, call: Call)
    requires
        v.state is Some,
        call matches Call::EndSale { is_owner, block, end_condition_met, .. } && may_end(
            v,
            v.state->0,
            is_owner,
            block,
            end_condition_met,
        ),
    ensures
        apply(v, call) matches Ok(after) ==> (after.0.state is Some ==> phase_of(
            after.0,
            call_time(call),
        ) == (SalePhase::Ended { needs_refund: needs_refund(v.state->0) })),
{
}

/// Mutual exclusivity of paths: once a sale has ended, no call at that time
/// or later changes whether the sale is refunded or settled: for as long as
/// the sale exists, it stays ended on the path that it took.
pub proof fn lemma_path_is_permanent(v: CrowdfundView, call: Call, now: u64)
    requires
        wf(v),
        phase_of(v, now) is Ended,
        time_of(call) matches Some(t) ==> t >= now,
    ensures
        apply(v, call) matches Ok(after) ==> (after.0.state is Some ==> phase_of(after.0, now)
            == phase_of(v, now)),
{
    match call {
        Call::Purchase { info, block, number_of_tokens, split } => {
            let st = v.state->0;
            let owned = purchases_of(v.ledger, info.sender).len();
            let wanted = wanted_tokens(purchase_allowance(st, owned), number_of_tokens);
            assert(v.tokens.len() == 0 ==> first_n(v.tokens, wanted).len() == 0);
        },
        _ => {},
    }
}

/// In an engine that its operations can reach, no purchased token is
/// available.
pub proof fn lemma_purchased_not_available(v: CrowdfundView, t: Seq<char>)
    requires
        wf(v),
        is_purchased(v.ledger, t),
    ensures
        !v.tokens.contains(t),
{
    let (i, a) = choose|i: int, a: int|
        0 <= i < v.ledger.len() && 0 <= a < v.ledger[i].purchases.len() && (
        #[trigger] v.ledger[i].purchases[a]).token_id == t;
    if v.tokens.contains(t) {
        let k = choose|k: int| 0 <= k < v.tokens.len() && v.tokens[k] == t;
        assert(v.ledger[i].purchases[a].token_id != v.tokens[k]);
    }
}

/// A token purchased according to a stretch of a ledger is purchased
/// according to the ledger.
pub proof fn lemma_purchased_in_stretch(l: Seq<LedgerEntryView>, from: int, to: int, t: Seq<char>)
    requires
        0 <= from <= to <= l.len(),
        is_purchased(l.subrange(from, to), t),
    ensures
        exists|i: int, a: int|
            from <= i < to && 0 <= a < l[i].purchases.len() && (
            #[trigger] l[i].purchases[a]).token_id == t,
        is_purchased(l, t),
{
    let s = l.subrange(from, to);
    let (i, a) = choose|i: int, a: int|
        0 <= i < s.len() && 0 <= a < s[i].purchases.len() && (#[trigger] s[i].purchases[a]).token_id
            == t;
    assert(l[from + i].purchases[a].token_id == t);
}

/// A purchase makes the engine hold no token that it did not hold.
pub proof fn lemma_purchase_holds_no_more(
    v: CrowdfundView,
    after: CrowdfundView,
    buyer: Seq<char>,
    ids: Seq<Seq<char>>,
    rest: Seq<Seq<char>>,
    tax: nat,
    msgs: Seq<PaymentView>,
    t: Seq<char>,
)
    requires
        split_of(v.tokens, ids, rest),
        after.tokens == rest,
        after.ledger == with_purchases(v.ledger, buyer, new_purchases(ids, tax, msgs, buyer)),
        holds_token(after, t),
    ensures
        holds_token(v, t),
{
    let l = v.ledger;
    let r = after.ledger;
    let ps = new_purchases(ids, tax, msgs, buyer);
    if rest.contains(t) {
        let k = choose|k: int| 0 <= k < rest.len() && rest[k] == t;
        assert(v.tokens.contains(rest[k]));
    } else {
        let (i, a) = choose|i: int, a: int|
            0 <= i < r.len() && 0 <= a < r[i].purchases.len() && (
            #[trigger] r[i].purchases[a]).token_id == t;
        if has_buyer(l, buyer) {
            let k = entry_index(l, buyer);
            if i == k {
                if a < l[k].purchases.len() {
                    assert(l[k].purchases[a].token_id == t);
                } else {
                    let x = a - l[k].purchases.len();
                    assert(r[i].purchases[a] == ps[x]);
                    assert(v.tokens.contains(ids[x]));
                }
            } else {
                assert(l[i].purchases[a].token_id == t);
            }
        } else {
            if i < l.len() {
                assert(l[i].purchases[a].token_id == t);
            } else {
                assert(r[i].purchases[a] == ps[a]);
                assert(v.tokens.contains(ids[a]));
            }
        }
    }
}

/// A purchase takes its tokens out of the registry: as many tokens leave
/// the available ones as were sold, no token becomes available, and every
/// token that the ledger records anew was available before and is not
/// available after.
pub proof fn lemma_purchase_takes_tokens(v: CrowdfundView, call: Call)
    requires
        wf(v),
        call is Purchase || call is PurchaseByTokenId,
        apply(v, call) is Ok,
    ensures
        ({
            let after = apply(v, call)->Ok_0.0;
            &&& after.state is Some
            &&& after.tokens.len() + (after.state->0.amount_sold - v.state->0.amount_sold)
                == v.tokens.len()
            &&& forall|t: Seq<char>| after.tokens.contains(t) ==> v.tokens.contains(t)
            &&& forall|t: Seq<char>|
                is_purchased(after.ledger, t) && !is_purchased(v.ledger, t) ==> v.tokens.contains(
                    t,
                ) && !after.tokens.contains(t)
        }),
{
    let after = apply(v, call)->Ok_0.0;
    lemma_operations_keep_wf(v, call);
    lemma_exactly_once(v, call);
    match call {
        Call::Purchase { info, block, number_of_tokens, split } => {
            let st = v.state->0;
            let owned = purchases_of(v.ledger, info.sender).len();
            let wanted = wanted_tokens(purchase_allowance(st, owned), number_of_tokens);
            lemma_first_after_split(v.tokens, wanted);
        },
        Call::PurchaseByTokenId { info, block, token_id, split } => {
            lemma_ascending_distinct(v.tokens);
        },
        _ => {},
    }
    assert forall|t: Seq<char>| after.tokens.contains(t) implies v.tokens.contains(t) by {
        assert(holds_token(after, t));
        assert(holds_token(v, t));
        if is_purchased(v.ledger, t) {
            lemma_purchase_keeps_purchased(v, call, t);
            lemma_purchased_not_available(after, t);
        }
    }
    assert forall|t: Seq<char>|
        is_purchased(after.ledger, t) && !is_purchased(v.ledger, t) implies v.tokens.contains(t)
        && !after.tokens.contains(t) by {
        assert(holds_token(after, t));
        assert(holds_token(v, t));
        lemma_purchased_not_available(after, t);
    }
}

/// A purchase keeps what the ledger recorded.
proof fn lemma_purchase_keeps_purchased(v: CrowdfundView, call: Call, t: Seq<char>)
    requires
        call is Purchase || call is PurchaseByTokenId,
        apply(v, call) is Ok,
        is_purchased(v.ledger, t),
    ensures
        is_purchased(apply(v, call)->Ok_0.0.ledger, t),
{
    let after = apply(v, call)->Ok_0.0;
    let l = v.ledger;
    let r = after.ledger;
    let (i, a) = choose|i: int, a: int|
        0 <= i < l.len() && 0 <= a < l[i].purchases.len() && (#[trigger] l[i].purchases[a]).token_id
            == t;
    let buyer = match call {
        Call::Purchase { info, .. } => info.sender,
        Call::PurchaseByTokenId { info, .. } => info.sender,
        _ => arbitrary(),
    };
    if has_buyer(l, buyer) && entry_index(l, buyer) == i {
        assert(r[i].purchases[a] == l[i].purchases[a]);
    } else {
        assert(r[i] == l[i]);
        assert(r[i].purchases[a].token_id == t);
    }
}

/// The first tokens of an engine leave it when they are destroyed.
proof fn lemma_burned_leave(v: CrowdfundView, after: CrowdfundView, k: int)
    requires
        wf(v),
        0 <= k,
        after.tokens == after_n(v.tokens, k),
        forall|t: Seq<char>| is_purchased(after.ledger, t) ==> is_purchased(v.ledger, t),
    ensures
        forall|x: int, y: int|
            0 <= x < y < first_n(v.tokens, k).len() ==> first_n(v.tokens, k)[x] != first_n(
                v.tokens,
                k,
            )[y],
        forall|x: int|
            0 <= x < first_n(v.tokens, k).len() ==> holds_token(
                v,
                #[trigger] first_n(v.tokens, k)[x],
            ) && !holds_token(after, first_n(v.tokens, k)[x]),
{
    let hs = first_n(v.tokens, k);
    lemma_first_after_split(v.tokens, k);
    assert forall|x: int| 0 <= x < hs.len() implies holds_token(v, #[trigger] hs[x])
        && !holds_token(after, hs[x]) by {
        assert(v.tokens.contains(hs[x]));
        if after.tokens.contains(hs[x]) {
            let j = choose|j: int| 0 <= j < after.tokens.len() && after.tokens[j] == hs[x];
            assert(hs[x] != after.tokens[j]);
        }
        if is_purchased(after.ledger, hs[x]) {
            lemma_purchased_not_available(v, hs[x]);
        }
    }
}

/// Exactly-once delivery: the tokens that the commands of one call transfer
/// or destroy are tokens that the engine held, none of them twice, and the
/// engine holds none of them after the call. No purchased token is
/// available after a call. And no call but the minting of tokens makes the
/// engine hold a token that it did not hold: what was transferred or
/// destroyed is not handled again.
pub proof fn lemma_exactly_once(v: CrowdfundView, call: Call)
    requires
        wf(v),
    ensures
        apply(v, call) matches Ok(after) ==> {
            let hs = handled_tokens(after.1);
            &&& forall|x: int, y: int| 0 <= x < y < hs.len() ==> hs[x] != hs[y]
            &&& forall|x: int|
                0 <= x < hs.len() ==> holds_token(v, #[trigger] hs[x]) && !holds_token(
                    after.0,
                    hs[x],
                )
            &&& forall|t: Seq<char>|
                is_purchased(after.0.ledger, t) ==> !after.0.tokens.contains(t)
            &&& (call !is Mint ==> forall|t: Seq<char>|
                holds_token(after.0, t) ==> holds_token(v, t))
        },
{
    if let Ok(after) = apply(v, call) {
        let w = after.0;
        let cmds = after.1;
        lemma_operations_keep_wf(v, call);
        assert forall|t: Seq<char>| is_purchased(w.ledger, t) implies !w.tokens.contains(t) by {
            lemma_purchased_not_available(w, t);
        }
        match call {
            Call::Mint { .. } => {
                lemma_handled_none(cmds);
            },
            Call::UpdateTokenContract { .. } => {
                lemma_handled_none(cmds);
            },
            Call::StartSale { .. } => {
                lemma_handled_none(cmds);
            },
            Call::Purchase { info, block, number_of_tokens, split } => {
                lemma_handled_none(cmds);
                let st = v.state->0;
                let owned = purchases_of(v.ledger, info.sender).len();
                let wanted = wanted_tokens(purchase_allowance(st, owned), number_of_tokens);
                let ids = first_n(v.tokens, wanted);
                lemma_first_after_split(v.tokens, wanted);
                let q = purchase_quote(st, info.funds, ids.len(), split)->Ok_0;
                assert forall|t: Seq<char>| holds_token(w, t) implies holds_token(v, t) by {
                    lemma_purchase_holds_no_more(
                        v,
                        w,
                        info.sender,
                        ids,
                        after_n(v.tokens, wanted),
                        q.tax,
                        split.msgs,
                        t,
                    );
                }
            },
            Call::PurchaseByTokenId { info, block, token_id, split } => {
                lemma_handled_none(cmds);
                let st = v.state->0;
                lemma_one_token_split(v.tokens, token_id);
                let q = purchase_quote(st, info.funds, 1, split)->Ok_0;
                assert forall|t: Seq<char>| holds_token(w, t) implies holds_token(v, t) by {
                    lemma_purchase_holds_no_more(
                        v,
                        w,
                        info.sender,
                        seq![token_id],
                        without_token(v.tokens, token_id),
                        q.tax,
                        split.msgs,
                        t,
                    );
                }
            },
            Call::ClaimRefund { info, block } => {
                lemma_handled_none(cmds);
                let k = entry_index(v.ledger, info.sender);
                assert forall|t: Seq<char>| is_purchased(w.ledger, t) implies is_purchased(
                    v.ledger,
                    t,
                ) by {
                    let (i, a) = choose|i: int, a: int|
                        0 <= i < w.ledger.len() && 0 <= a < w.ledger[i].purchases.len() && (
                        #[trigger] w.ledger[i].purchases[a]).token_id == t;
                    let o = if i < k { i } else { i + 1 };
                    assert(v.ledger[o].purchases[a].token_id == t);
                }
            },
            Call::EndSale { info, is_owner, block, end_condition_met, limit } => {
                let st = v.state->0;
                let k = effective_limit(limit) as int;
                let l = v.ledger;
                let n = if k < l.len() { k } else { l.len() as int };
                if v.state is None || !may_end(v, st, is_owner, block, end_condition_met) {
                    lemma_handled_none(cmds);
                } else {
                    assert(after_n(l, k) =~= l.subrange(n, l.len() as int));
                    assert(first_n(l, k) =~= l.subrange(0, n));
                    assert forall|t: Seq<char>| is_purchased(after_n(l, k), t) implies is_purchased(
                        l,
                        t,
                    ) by {
                        lemma_purchased_in_stretch(l, n, l.len() as int, t);
                    }
                    if needs_refund(st) {
                        let batch = first_n(l, k);
                        let burned = first_n(v.tokens, k);
                        lemma_handled_refunds(batch, st.price);
                        lemma_handled_burns(burned);
                        lemma_handled_concat(refunds(batch, st.price), burns(burned));
                        assert(handled_tokens(cmds) =~= burned);
                        lemma_burned_leave(v, w, k);
                        lemma_first_after_split(v.tokens, k);
                        assert forall|t: Seq<char>| holds_token(w, t) implies holds_token(
                            v,
                            t,
                        ) by {
                            if w.tokens.contains(t) {
                                let j = choose|j: int| 0 <= j < w.tokens.len() && w.tokens[j] == t;
                                assert(v.tokens.contains(w.tokens[j]));
                            }
                        }
                    } else if l.len() > 0 {
                        let batch = first_n(l, k);
                        lemma_handled_forward(st);
                        lemma_handled_deliveries(batch);
                        lemma_handled_concat(forward_command(st), deliveries(batch));
                        let hs = purchased_tokens(batch);
                        assert(handled_tokens(cmds) =~= hs);
                        assert forall|i: int, a: int, j: int, b: int|
                            #![trigger batch[i].purchases[a], batch[j].purchases[b]]
                            0 <= i < batch.len() && 0 <= a < batch[i].purchases.len() && 0 <= j
                                < batch.len() && 0 <= b < batch[j].purchases.len() && (i != j || a
                                != b) implies batch[i].purchases[a].token_id
                            != batch[j].purchases[b].token_id by {
                            assert(batch[i].purchases[a] == l[i].purchases[a]);
                            assert(batch[j].purchases[b] == l[j].purchases[b]);
                        }
                        lemma_purchased_tokens_distinct(batch);
                        assert forall|x: int| 0 <= x < hs.len() implies holds_token(
                            v,
                            #[trigger] hs[x],
                        ) && !holds_token(w, hs[x]) by {
                            lemma_purchased_tokens_member(batch, x);
                            lemma_purchased_in_stretch(l, 0, n, hs[x]);
                            let (i, a) = choose|i: int, a: int|
                                0 <= i < n && 0 <= a < l[i].purchases.len() && (
                                #[trigger] l[i].purchases[a]).token_id == hs[x];
                            lemma_purchased_not_available(v, hs[x]);
                            if is_purchased(w.ledger, hs[x]) {
                                lemma_purchased_in_stretch(l, n, l.len() as int, hs[x]);
                                let (j, b) = choose|j: int, b: int|
                                    n <= j < l.len() && 0 <= b < l[j].purchases.len() && (
                                    #[trigger] l[j].purchases[b]).token_id == hs[x];
                                assert(l[i].purchases[a].token_id != l[j].purchases[b].token_id);
                            }
                        }
                    } else if v.tokens.len() > 0 {
                        let burned = first_n(v.tokens, k);
                        lemma_handled_forward(st);
                        lemma_handled_burns(burned);
                        lemma_handled_concat(forward_command(st), burns(burned));
                        assert(handled_tokens(cmds) =~= burned);
                        lemma_burned_leave(v, w, k);
                        lemma_first_after_split(v.tokens, k);
                        assert forall|t: Seq<char>| holds_token(w, t) implies holds_token(
                            v,
                            t,
                        ) by {
                            if w.tokens.contains(t) {
                                let j = choose|j: int| 0 <= j < w.tokens.len() && w.tokens[j] == t;
                                assert(v.tokens.contains(w.tokens[j]));
                            }
                        }
                    } else {
                        lemma_handled_forward(st);
                    }
                }
            },
        }
    }
}

/// The engine with what it has collected from buyers and what its commands
/// have paid out, both in one currency.
pub struct Books {
    pub engine: CrowdfundView,
    pub collected: nat,
    pub paid: nat,
}

/// The books of an engine that has collected and paid nothing yet.
pub open spec fn opened(v: CrowdfundView) -> Books {
    Books { engine: v, collected: 0, paid: 0 }
}

/// What a purchase brings in of the currency `denom`: what the coins that
/// come with it hold of it.
pub open spec fn brought(call: Call, denom: Seq<char>) -> nat {
    match call {
        Call::Purchase { info, .. } => coin_value(info.funds, denom),
        Call::PurchaseByTokenId { info, .. } => coin_value(info.funds, denom),
        _ => 0,
    }
}

/// The books after a call: a call that is refused changes nothing, and the
/// coins that came with it are not collected.
pub open spec fn entered(b: Books, call: Call, denom: Seq<char>) -> Books {
    match apply(b.engine, call) {
        Ok(after) => Books {
            engine: after.0,
            collected: b.collected + brought(call, denom),
            paid: b.paid + total_paid_out(after.1, denom),
        },
        Err(_) => b,
    }
}

/// The books after a sequence of calls.
pub open spec fn run(b: Books, calls: Seq<Call>, denom: Seq<char>) -> Books
    decreases calls.len(),
{
    if calls.len() == 0 {
        b
    } else {
        entered(run(b, calls.drop_last(), denom), calls.last(), denom)
    }
}

/// Whether a call is a purchase whose split pays in the currency `denom`, the
/// end of the sale, or the claim of a refund.
pub open spec fn is_sale_call(call: Call, denom: Seq<char>) -> bool {
    match call {
        Call::Purchase { split, .. } => payments_carry_coins(split.msgs) ==> payments_in(
            split.msgs,
            denom,
        ),
        Call::PurchaseByTokenId { split, .. } => payments_carry_coins(split.msgs) ==> payments_in(
            split.msgs,
            denom,
        ),
        Call::EndSale { .. } => true,
        Call::ClaimRefund { .. } => true,
        _ => false,
    }
}

/// The time of the block in which a call runs.
pub open spec fn call_time(call: Call) -> u64 {
    match time_of(call) {
        Some(t) => t,
        None => 0,
    }
}

/// The time of the last of the calls `calls`.
pub open spec fn last_time(calls: Seq<Call>) -> u64 {
    if calls.len() == 0 {
        0
    } else {
        call_time(calls.last())
    }
}

/// Whether the calls run in blocks whose times do not go back.
pub open spec fn times_ascend(calls: Seq<Call>) -> bool {
    forall|i: int, j: int|
        0 <= i < j < calls.len() ==> call_time(#[trigger] calls[i]) <= call_time(
            #[trigger] calls[j],
        )
}

/// What a purchase does to the books: what it brings in is what goes back to
/// the buyer and what the buyer pays, and the engine owes as much more to
/// the recipient and the payees of the split as the buyer paid.
proof fn lemma_purchase_books(e: CrowdfundView, call: Call)
    requires
        wf(e),
        e.state is Some,
        ledger_pays_in(e.ledger, e.state->0.price.denom),
        call is Purchase || call is PurchaseByTokenId,
        is_sale_call(call, e.state->0.price.denom),
        apply(e, call) is Ok,
    ensures
        ({
            let after = apply(e, call)->Ok_0;
            let st = e.state->0;
            let price = st.price.amount;
            let denom = st.price.denom;
            &&& after.0.state matches Some(st2) && st2.price == st.price
            &&& ledger_pays_in(after.0.ledger, denom)
            &&& brought(call, denom) + escrow(e.ledger, price) == total_paid_out(after.1, denom)
                + escrow(after.0.ledger, price)
            &&& after.0.state->0.amount_to_send + split_payments(after.0.ledger) + escrow(
                e.ledger,
                price,
            ) == st.amount_to_send + split_payments(e.ledger) + escrow(after.0.ledger, price)
        }),
{
    let after = apply(e, call)->Ok_0;
    let w = after.0;
    let st = e.state->0;
    let price = st.price.amount;
    let denom = st.price.denom;
    let (info, ids, split) = match call {
        Call::Purchase { info, block, number_of_tokens, split } => {
            let owned = purchases_of(e.ledger, info.sender).len();
            let wanted = wanted_tokens(purchase_allowance(st, owned), number_of_tokens);
            (info, first_n(e.tokens, wanted), split)
        },
        Call::PurchaseByTokenId { info, block, token_id, split } => (info, seq![token_id], split),
        _ => arbitrary(),
    };
    let n = ids.len();
    let q = purchase_quote(st, info.funds, n, split)->Ok_0;
    let ps = new_purchases(ids, q.tax, split.msgs, info.sender);
    assert(w.ledger == with_purchases(e.ledger, info.sender, ps));
    lemma_ledger_with_purchases(e.ledger, info.sender, ps, price);
    lemma_refund_amount_new(ids, q.tax, split.msgs, info.sender, price);
    lemma_payments_new(ids, q.tax, split.msgs, info.sender);
    lemma_paid_overpayment(info, CoinView { denom, amount: q.required });
    let total = payments_total(split.msgs);
    let remainder = split.remainder;
    let tax = q.tax;
    assert(split_ok(price, split));
    assert(tax == total - (price - remainder));
    assert(remainder * n + total * n == price * n + tax * n) by (nonlinear_arith)
        requires
            tax == total - (price - remainder),
    ;
    assert(ledger_pays_in(w.ledger, denom)) by {
        let l = e.ledger;
        let r = w.ledger;
        assert forall|i: int, a: int|
            0 <= i < r.len() && 0 <= a < r[i].purchases.len() implies payments_in(
            (#[trigger] r[i].purchases[a]).msgs,
            denom,
        ) by {
            if has_buyer(l, info.sender) {
                let k = entry_index(l, info.sender);
                if i == k {
                    if a < l[k].purchases.len() {
                        assert(r[i].purchases[a] == l[k].purchases[a]);
                    } else {
                        assert(r[i].purchases[a] == ps[a - l[k].purchases.len()]);
                    }
                } else {
                    assert(r[i].purchases[a] == l[i].purchases[a]);
                }
            } else {
                if i < l.len() {
                    assert(r[i].purchases[a] == l[i].purchases[a]);
                } else {
                    assert(r[i].purchases[a] == ps[a]);
                }
            }
        }
    }
}

/// What the end of a sale and the claim of a refund do to the books: the
/// engine owes as much less as its commands pay out, and whether the sale is
/// refunded or settled stays as it is.
proof fn lemma_settlement_books(e: CrowdfundView, call: Call)
    requires
        wf(e),
        e.state is Some,
        ledger_pays_in(e.ledger, e.state->0.price.denom),
        call is EndSale || call is ClaimRefund,
        apply(e, call) is Ok,
    ensures
        ({
            let after = apply(e, call)->Ok_0;
            let refund = needs_refund(e.state->0);
            let denom = e.state->0.price.denom;
            &&& ledger_pays_in(after.0.ledger, denom)
            &&& after.0.state matches Some(st2) ==> needs_refund(st2) == refund && st2.price
                == e.state->0.price
            &&& total_paid_out(after.1, denom) + owed(after.0, refund) == owed(e, refund)
        }),
{
    let after = apply(e, call)->Ok_0;
    let w = after.0;
    let st = e.state->0;
    let price = st.price.amount;
    let denom = st.price.denom;
    let l = e.ledger;
    match call {
        Call::ClaimRefund { info, block } => {
            let k = entry_index(l, info.sender);
            lemma_ledger_remove(l, k, price);
            lemma_paid_refund_command(l[k], st.price);
            assert forall|i: int, a: int|
                0 <= i < w.ledger.len() && 0 <= a < w.ledger[i].purchases.len()
                implies payments_in((#[trigger] w.ledger[i].purchases[a]).msgs, denom) by {
                let o = if i < k { i } else { i + 1 };
                assert(w.ledger[i].purchases[a] == l[o].purchases[a]);
            }
        },
        Call::EndSale { info, is_owner, block, end_condition_met, limit } => {
            let k = effective_limit(limit) as int;
            let n = if k < l.len() { k } else { l.len() as int };
            let se = ended(st, block);
            if !may_end(e, st, is_owner, block, end_condition_met) {
                lemma_sum_constant(after.1, paid_out_fn(denom), 0);
            } else {
                assert(after_n(l, k) =~= l.subrange(n, l.len() as int));
                assert(first_n(l, k) =~= l.subrange(0, n));
                assert forall|i: int, a: int|
                    0 <= i < after_n(l, k).len() && 0 <= a < after_n(l, k)[i].purchases.len()
                    implies payments_in((#[trigger] after_n(l, k)[i].purchases[a]).msgs, denom) by {
                    assert(after_n(l, k)[i].purchases[a] == l[n + i].purchases[a]);
                }
                assert forall|i: int, a: int|
                    0 <= i < first_n(l, k).len() && 0 <= a < first_n(l, k)[i].purchases.len()
                    implies payments_in((#[trigger] first_n(l, k)[i].purchases[a]).msgs, denom) by {
                    assert(first_n(l, k)[i].purchases[a] == l[i].purchases[a]);
                }
                lemma_ledger_split(l, k, price);
                if needs_refund(st) {
                    let batch = first_n(l, k);
                    let burned = first_n(e.tokens, k);
                    lemma_paid_refunds(batch, st.price);
                    lemma_paid_burns(burned, denom);
                    lemma_paid_concat(refunds(batch, st.price), burns(burned), denom);
                    if w.state is None {
                        assert(l.len() == 0);
                        assert(escrow(l, price) == 0);
                    }
                } else if l.len() > 0 {
                    let batch = first_n(l, k);
                    lemma_paid_forward(se);
                    lemma_paid_deliveries(batch, denom);
                    lemma_paid_concat(forward_command(se), deliveries(batch), denom);
                } else {
                    assert(split_payments(l) == 0);
                    lemma_paid_forward(se);
                    if e.tokens.len() > 0 {
                        let burned = first_n(e.tokens, k);
                        lemma_paid_burns(burned, denom);
                        lemma_paid_concat(forward_command(se), burns(burned), denom);
                    }
                }
            }
        },
        _ => {},
    }
}

/// Whether the books balance at the time `now`: what was collected and not
/// paid out is what the engine owes, and either nothing was settled yet, so
/// that refund and settlement come to the same, or the sale has ended.
spec fn balanced(b: Books, sale: StateView, now: u64) -> bool {
    &&& wf(b.engine)
    &&& ledger_pays_in(b.engine.ledger, sale.price.denom)
    &&& match b.engine.state {
        Some(st) => {
            &&& st.price == sale.price
            &&& b.collected == b.paid + owed(b.engine, needs_refund(st))
            &&& (phase_of(b.engine, now) is Ended || st.amount_to_send + split_payments(
                b.engine.ledger,
            ) == escrow(b.engine.ledger, sale.price.amount))
        },
        None => b.collected == b.paid,
    }
}

proof fn lemma_books_balance(b: Books, sale: StateView, calls: Seq<Call>)
    requires
        balanced(b, sale, 0),
        forall|i: int| 0 <= i < calls.len() ==> is_sale_call(#[trigger] calls[i], sale.price.denom),
        times_ascend(calls),
    ensures
        balanced(run(b, calls, sale.price.denom), sale, last_time(calls)),
    decreases calls.len(),
{
    let denom = sale.price.denom;
    if calls.len() > 0 {
        let head = calls.drop_last();
        let call = calls.last();
        let now = last_time(head);
        let t = last_time(calls);
        assert forall|i: int| 0 <= i < head.len() implies is_sale_call(
            #[trigger] head[i],
            denom,
        ) by {
            assert(head[i] == calls[i]);
        }
        assert(times_ascend(head)) by {
            assert forall|i: int, j: int| 0 <= i < j < head.len() implies call_time(
                #[trigger] head[i],
            ) <= call_time(#[trigger] head[j]) by {
                assert(head[i] == calls[i] && head[j] == calls[j]);
            }
        }
        lemma_books_balance(b, sale, head);
        assert(now <= t) by {
            if head.len() > 0 {
                assert(head.last() == calls[head.len() - 1]);
                assert(call_time(calls[head.len() - 1]) <= call_time(calls[calls.len() - 1]));
            }
        }
        assert(is_sale_call(calls[calls.len() - 1], denom));
        assert(time_of(call) == Some(t));
        let before = run(b, head, denom);
        let e = before.engine;
        if apply(e, call) is Ok && e.state is Some {
            let st = e.state->0;
            lemma_operations_keep_wf(e, call);
            if call is Purchase || call is PurchaseByTokenId {
                if phase_of(e, now) is Ended {
                    lemma_purchase_needs_active(e, call);
                }
                lemma_purchase_books(e, call);
            } else {
                lemma_settlement_books(e, call);
                lemma_settlement_ends(e, call);
            }
        } else if apply(e, call) is Ok {
            lemma_operations_keep_wf(e, call);
            let after = apply(e, call)->Ok_0;
            if call is EndSale {
                lemma_sum_constant(after.1, paid_out_fn(denom), 0);
            }
        }
    }
}

/// A purchase succeeds only while the sale is active.
proof fn lemma_purchase_needs_active(e: CrowdfundView, call: Call)
    requires
        call is Purchase || call is PurchaseByTokenId,
        apply(e, call) is Ok,
    ensures
        time_of(call) matches Some(t) && phase_of(e, t) is Active,
{
    match call {
        Call::Purchase { info, block, number_of_tokens, split } => {
            let st = e.state->0;
            let owned = purchases_of(e.ledger, info.sender).len();
            let wanted = wanted_tokens(purchase_allowance(st, owned), number_of_tokens);
            assert(e.tokens.len() == 0 ==> first_n(e.tokens, wanted).len() == 0);
        },
        _ => {},
    }
}

/// A call that ends the sale or refunds a buyer leaves the sale ended, or
/// leaves it as it was.
proof fn lemma_settlement_ends(e: CrowdfundView, call: Call)
    requires
        e.state is Some,
        call is EndSale || call is ClaimRefund,
        apply(e, call) is Ok,
    ensures
        ({
            let after = apply(e, call)->Ok_0;
            let t = time_of(call)->0;
            after.0.state is Some ==> phase_of(after.0, t) is Ended || after.0 == e
        }),
{
}

/// Fund conservation: take a sale before its first purchase and any calls in
/// blocks whose times do not go back: purchases, whose splits pay in the
/// currency of the price, ends of the sale and claims of refunds, in any
/// order. Once these have settled or refunded the sale in full, so that no
/// sale is left, what the purchases brought in of that currency is what the
/// commands of all calls paid out in it: the change of the buyers, the
/// proceeds forwarded to the recipient, the payments of the splits, and the
/// refunds.
pub proof fn lemma_fund_conservation(v: CrowdfundView, calls: Seq<Call>)
    requires
        wf(v),
        v.state is Some,
        v.ledger.len() == 0,
        v.state->0.amount_to_send == 0,
        forall|i: int|
            0 <= i < calls.len() ==> is_sale_call(#[trigger] calls[i], v.state->0.price.denom),
        times_ascend(calls),
        run(opened(v), calls, v.state->0.price.denom).engine.state is None,
    ensures
        run(opened(v), calls, v.state->0.price.denom).collected == run(
            opened(v),
            calls,
            v.state->0.price.denom,
        ).paid,
{
    lemma_books_balance(opened(v), v.state->0, calls);
}

/// The engine after a sequence of calls, with all commands that the calls
/// handed out, in their order.
pub struct Drained {
    pub engine: CrowdfundView,
    pub commands: Seq<CommandView>,
}

/// The engine and the commands after the calls `calls`. A call that is
/// refused changes nothing and hands out nothing.
pub open spec fn drain(v: CrowdfundView, calls: Seq<Call>) -> Drained
    decreases calls.len(),
{
    if calls.len() == 0 {
        Drained { engine: v, commands: Seq::empty() }
    } else {
        let d = drain(v, calls.drop_last());
        match apply(d.engine, calls.last()) {
            Ok(after) => Drained { engine: after.0, commands: d.commands + after.1 },
            Err(_) => d,
        }
    }
}

/// Whether all calls end the sale, at the time `now` or later.
pub open spec fn ends_from(calls: Seq<Call>, now: u64) -> bool {
    forall|i: int|
        0 <= i < calls.len() ==> (#[trigger] calls[i]) is EndSale && call_time(calls[i]) >= now
}

/// What a sale that is settled has handed out so far, and what it still
/// holds, make up what it held when it ended.
spec fn settling(d: Drained, v: CrowdfundView, now: u64) -> bool {
    let e = d.engine;
    let left = match e.state {
        Some(st) => forward_command(st),
        None => Seq::empty(),
    };
    &&& wf(e)
    &&& e.state is Some ==> phase_of(e, now) == (SalePhase::Ended { needs_refund: false })
    &&& e.state is None ==> e.ledger.len() == 0 && e.tokens.len() == 0
    &&& transfers(d.commands) + ledger_transfers(e.ledger) == ledger_transfers(v.ledger)
    &&& sends(d.commands) + ledger_sends(e.ledger) == ledger_sends(v.ledger)
    &&& burned(d.commands) + e.tokens == v.tokens
    &&& forwards(d.commands) + left == forward_command(v.state->0)
}

/// What a sale that is refunded has handed out so far, and what it still
/// holds, make up what it held when it ended.
spec fn refunding(d: Drained, v: CrowdfundView, now: u64) -> bool {
    let e = d.engine;
    let price = v.state->0.price;
    &&& wf(e)
    &&& e.state matches Some(st) ==> st.price == price && phase_of(e, now) == (SalePhase::Ended {
        needs_refund: true,
    })
    &&& e.state is None ==> e.ledger.len() == 0 && e.tokens.len() == 0
    &&& sends(d.commands) + refunds(e.ledger, price) == refunds(v.ledger, price)
    &&& burned(d.commands) + e.tokens == v.tokens
    &&& transfers(d.commands) == Seq::<Transfer>::empty()
    &&& forwards(d.commands) == Seq::<CommandView>::empty()
}

/// The commands of one more call, sorted by their kinds.
proof fn lemma_kinds_concat(a: Seq<CommandView>, b: Seq<CommandView>)
    ensures
        transfers(a + b) == transfers(a) + transfers(b),
        sends(a + b) == sends(a) + sends(b),
        burned(a + b) == burned(a) + burned(b),
        forwards(a + b) == forwards(a) + forwards(b),
{
    lemma_pick_concat(a, b, transfer_fn());
    lemma_pick_concat(a, b, send_fn());
    lemma_pick_concat(a, b, burn_fn());
    lemma_pick_concat(a, b, forward_fn());
}

proof fn lemma_settling_step(d: Drained, v: CrowdfundView, now: u64, call: Call)
    requires
        v.state is Some,
        settling(d, v, now),
        call is EndSale,
        call_time(call) >= now,
    ensures
        settling(drain_step(d, call), v, now),
{
    let e = d.engine;
    if let Ok(after) = apply(e, call) {
        let w = after.0;
        let cmds = after.1;
        lemma_operations_keep_wf(e, call);
        lemma_kinds_concat(d.commands, cmds);
        if e.state is None {
            assert(cmds =~= Seq::<CommandView>::empty());
            assert(d.commands + cmds =~= d.commands);
        } else {
            let st = e.state->0;
            lemma_path_is_permanent(e, call, now);
            match call {
                Call::EndSale { info, is_owner, block, end_condition_met, limit } => {
                    let se = ended(st, block);
                    let k = effective_limit(limit) as int;
                    let l = e.ledger;
                    let t = e.tokens;
                    if !may_end(e, st, is_owner, block, end_condition_met) {
                        assert(d.commands + cmds =~= d.commands);
                    } else {
                        let fw = forward_command(se);
                        assert(fw == forward_command(st));
                        lemma_forward_kinds(se);
                        assert(forward_command(forwarded(se)) =~= Seq::<CommandView>::empty());
                        if l.len() > 0 {
                            let first = first_n(l, k);
                            let rest = after_n(l, k);
                            let del = deliveries(first);
                            lemma_deliveries_kinds(first);
                            lemma_kinds_concat(fw, del);
                            assert(l =~= first + rest);
                            lemma_ledger_transfers_concat(first, rest);
                            lemma_ledger_sends_concat(first, rest);
                            assert(transfers(d.commands + cmds) + ledger_transfers(rest) =~= transfers(
                                d.commands,
                            ) + ledger_transfers(l));
                            assert(sends(d.commands + cmds) + ledger_sends(rest) =~= sends(
                                d.commands,
                            ) + ledger_sends(l));
                            assert(burned(d.commands + cmds) =~= burned(d.commands));
                            assert(forwards(d.commands + cmds) + Seq::<CommandView>::empty()
                                =~= forwards(d.commands) + fw);
                        } else if t.len() > 0 {
                            let first = first_n(t, k);
                            let rest = after_n(t, k);
                            lemma_burns_kinds(first);
                            lemma_kinds_concat(fw, burns(first));
                            assert(t =~= first + rest);
                            assert(burned(d.commands + cmds) + rest =~= burned(d.commands) + t);
                            assert(transfers(d.commands + cmds) =~= transfers(d.commands));
                            assert(sends(d.commands + cmds) =~= sends(d.commands));
                            assert(forwards(d.commands + cmds) + Seq::<CommandView>::empty()
                                =~= forwards(d.commands) + fw);
                        } else {
                            assert(transfers(d.commands + cmds) =~= transfers(d.commands));
                            assert(sends(d.commands + cmds) =~= sends(d.commands));
                            assert(burned(d.commands + cmds) =~= burned(d.commands));
                            assert(forwards(d.commands + cmds) + Seq::<CommandView>::empty()
                                =~= forwards(d.commands) + fw);
                        }
                    }
                },
                _ => {},
            }
        }
    }
}

proof fn lemma_refunding_step(d: Drained, v: CrowdfundView, now: u64, call: Call)
    requires
        v.state is Some,
        refunding(d, v, now),
        call is EndSale,
        call_time(call) >= now,
    ensures
        refunding(drain_step(d, call), v, now),
{
    let e = d.engine;
    let price = v.state->0.price;
    if let Ok(after) = apply(e, call) {
        let w = after.0;
        let cmds = after.1;
        lemma_operations_keep_wf(e, call);
        lemma_kinds_concat(d.commands, cmds);
        if e.state is None {
            assert(cmds =~= Seq::<CommandView>::empty());
            assert(d.commands + cmds =~= d.commands);
        } else {
            let st = e.state->0;
            lemma_path_is_permanent(e, call, now);
            match call {
                Call::EndSale { info, is_owner, block, end_condition_met, limit } => {
                    let k = effective_limit(limit) as int;
                    let l = e.ledger;
                    let t = e.tokens;
                    if !may_end(e, st, is_owner, block, end_condition_met) {
                        assert(d.commands + cmds =~= d.commands);
                    } else {
                        let first = first_n(l, k);
                        let rest = after_n(l, k);
                        let gone = first_n(t, k);
                        let kept = after_n(t, k);
                        lemma_refunds_kinds(first, price);
                        lemma_burns_kinds(gone);
                        lemma_kinds_concat(refunds(first, price), burns(gone));
                        assert(l =~= first + rest);
                        assert(t =~= gone + kept);
                        lemma_refunds_concat(first, rest, price);
                        assert(sends(d.commands + cmds) + refunds(rest, price) =~= sends(d.commands)
                            + refunds(l, price));
                        assert(burned(d.commands + cmds) + kept =~= burned(d.commands) + t);
                        assert(transfers(d.commands + cmds) =~= Seq::<Transfer>::empty());
                        assert(forwards(d.commands + cmds) =~= Seq::<CommandView>::empty());
                    }
                },
                _ => {},
            }
        }
    }
}

/// The engine and the commands after one more call.
spec fn drain_step(d: Drained, call: Call) -> Drained {
    match apply(d.engine, call) {
        Ok(after) => Drained { engine: after.0, commands: d.commands + after.1 },
        Err(_) => d,
    }
}

proof fn lemma_settling_run(v: CrowdfundView, now: u64, calls: Seq<Call>)
    requires
        wf(v),
        phase_of(v, now) == (SalePhase::Ended { needs_refund: false }),
        ends_from(calls, now),
    ensures
        settling(drain(v, calls), v, now),
    decreases calls.len(),
{
    if calls.len() == 0 {
        let d = drain(v, calls);
        assert(transfers(d.commands) + ledger_transfers(v.ledger) =~= ledger_transfers(v.ledger));
        assert(sends(d.commands) + ledger_sends(v.ledger) =~= ledger_sends(v.ledger));
        assert(burned(d.commands) + v.tokens =~= v.tokens);
        assert(forwards(d.commands) + forward_command(v.state->0) =~= forward_command(
            v.state->0,
        ));
    } else {
        let head = calls.drop_last();
        assert forall|i: int| 0 <= i < head.len() implies (#[trigger] head[i]) is EndSale
            && call_time(head[i]) >= now by {
            assert(head[i] == calls[i]);
        }
        lemma_settling_run(v, now, head);
        assert(calls[calls.len() - 1] is EndSale);
        lemma_settling_step(drain(v, head), v, now, calls.last());
    }
}

proof fn lemma_refunding_run(v: CrowdfundView, now: u64, calls: Seq<Call>)
    requires
        wf(v),
        phase_of(v, now) == (SalePhase::Ended { needs_refund: true }),
        ends_from(calls, now),
    ensures
        refunding(drain(v, calls), v, now),
    decreases calls.len(),
{
    let price = v.state->0.price;
    if calls.len() == 0 {
        let d = drain(v, calls);
        assert(sends(d.commands) + refunds(v.ledger, price) =~= refunds(v.ledger, price));
        assert(burned(d.commands) + v.tokens =~= v.tokens);
    } else {
        let head = calls.drop_last();
        assert forall|i: int| 0 <= i < head.len() implies (#[trigger] head[i]) is EndSale
            && call_time(head[i]) >= now by {
            assert(head[i] == calls[i]);
        }
        lemma_refunding_run(v, now, head);
        assert(calls[calls.len() - 1] is EndSale);
        lemma_refunding_step(drain(v, head), v, now, calls.last());
    }
}

/// Settlement in full: take a sale that has ended with its minimum sold, and
/// calls that end the sale until no sale is left. Together their commands
/// transfer each purchased token to its buyer, once and in the order of the
/// ledger; destroy each token that was not sold, once; forward the proceeds
/// that waited in one command to the recipient of the sale, and none where
/// nothing waited; and pay what the splits of the purchases call for, and
/// nothing else: no buyer is refunded.
pub proof fn lemma_settlement_in_full(v: CrowdfundView, now: u64, calls: Seq<Call>)
    requires
        wf(v),
        phase_of(v, now) == (SalePhase::Ended { needs_refund: false }),
        ends_from(calls, now),
        drain(v, calls).engine.state is None,
    ensures
        transfers(drain(v, calls).commands) == ledger_transfers(v.ledger),
        burned(drain(v, calls).commands) == v.tokens,
        forwards(drain(v, calls).commands) == forward_command(v.state->0),
        sends(drain(v, calls).commands) == ledger_sends(v.ledger),
        drain(v, calls).engine.ledger.len() == 0,
        drain(v, calls).engine.tokens.len() == 0,
{
    lemma_settling_run(v, now, calls);
    let d = drain(v, calls);
    assert(ledger_transfers(d.engine.ledger) =~= Seq::<Transfer>::empty());
    assert(ledger_sends(d.engine.ledger) =~= Seq::<CommandView>::empty());
    assert(transfers(d.commands) + Seq::<Transfer>::empty() =~= transfers(d.commands));
    assert(sends(d.commands) + Seq::<CommandView>::empty() =~= sends(d.commands));
    assert(burned(d.commands) + d.engine.tokens =~= burned(d.commands));
    assert(forwards(d.commands) + Seq::<CommandView>::empty() =~= forwards(d.commands));
}

/// Refund in full: take a sale that has ended without its minimum sold, and
/// calls that end the sale until no sale is left. Together their commands
/// pay every buyer of the ledger once, in the order of the ledger, what the
/// buyer paid, price and tax of every purchase, and pay nothing else;
/// destroy each token that was not sold, once; and forward nothing and
/// transfer nothing. The ledger is empty in the end.
pub proof fn lemma_refund_in_full(v: CrowdfundView, now: u64, calls: Seq<Call>)
    requires
        wf(v),
        phase_of(v, now) == (SalePhase::Ended { needs_refund: true }),
        ends_from(calls, now),
        drain(v, calls).engine.state is None,
    ensures
        sends(drain(v, calls).commands) == refunds(v.ledger, v.state->0.price),
        burned(drain(v, calls).commands) == v.tokens,
        forwards(drain(v, calls).commands) == Seq::<CommandView>::empty(),
        transfers(drain(v, calls).commands) == Seq::<Transfer>::empty(),
        drain(v, calls).engine.ledger.len() == 0,
        drain(v, calls).engine.tokens.len() == 0,
{
    lemma_refunding_run(v, now, calls);
    let d = drain(v, calls);
    assert(refunds(d.engine.ledger, v.state->0.price) =~= Seq::<CommandView>::empty());
    assert(sends(d.commands) + Seq::<CommandView>::empty() =~= sends(d.commands));
    assert(burned(d.commands) + d.engine.tokens =~= burned(d.commands));
}

} // verus!
