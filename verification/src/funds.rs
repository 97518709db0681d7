use crate::coin::{
    holds_coins, is_first_of_denom, payments_total, CoinView, MessageInfoView, PaymentView,
};
use crate::ledger::{entry_index, has_buyer, with_purchases, LedgerEntryView, PurchaseView};
use crate::model::{
    burns, change, deliveries, deliveries_of, forward_command, new_purchases, overpayment_refund,
    purchase_delivery, refund_amount, refund_command, refunds, CrowdfundView,
};
use crate::registry::{after_n, first_n};
use crate::state::{send_command, CommandView, StateView};
use crate::sums::{
    lemma_sum_concat, lemma_sum_constant, lemma_sum_one, lemma_sum_push, lemma_sum_remove,
    lemma_sum_split, lemma_sum_update, sum_of,
};
use vstd::prelude::*;

verus! {

/// What the coins `coins` hold of the currency `denom`, going by the first
/// coin of that currency as payments do.
pub open spec fn coin_value(coins: Seq<CoinView>, denom: Seq<char>) -> nat {
    if exists|i: int| is_first_of_denom(coins, denom, i) {
        coins[choose|i: int| is_first_of_denom(coins, denom, i)].amount
    } else {
        0
    }
}

/// What a command pays out in the currency `denom`: what the coins of a
/// payment hold of it, and the proceeds that are forwarded.
pub open spec fn paid_out(c: CommandView, denom: Seq<char>) -> nat {
    match c {
        CommandView::Send { amount, .. } => coin_value(amount, denom),
        CommandView::ForwardFunds { funds, .. } => if funds.denom == denom {
            funds.amount
        } else {
            0
        },
        _ => 0,
    }
}

pub open spec fn paid_out_fn(denom: Seq<char>) -> spec_fn(CommandView) -> nat {
    |c: CommandView| paid_out(c, denom)
}

/// What the commands `cmds` pay out in the currency `denom`.
pub open spec fn total_paid_out(cmds: Seq<CommandView>, denom: Seq<char>) -> nat {
    sum_of(cmds, paid_out_fn(denom))
}

/// Whether every payment carries a coin and pays in the currency `denom`:
/// its first coin is one of that currency.
pub open spec fn payments_in(payments: Seq<PaymentView>, denom: Seq<char>) -> bool {
    forall|i: int|
        0 <= i < payments.len() ==> (#[trigger] payments[i]).amount.len() > 0
            && payments[i].amount[0].denom == denom
}

/// The coins whose first coin is one of the currency `denom` hold of it what
/// that coin holds.
pub proof fn lemma_coin_value_first(coins: Seq<CoinView>, denom: Seq<char>, i: int)
    requires
        is_first_of_denom(coins, denom, i),
    ensures
        coin_value(coins, denom) == coins[i].amount,
{
    let k = choose|k: int| is_first_of_denom(coins, denom, k);
    if k < i {
        assert(coins[k].denom != denom);
    } else if i < k {
        assert(coins[i].denom != denom);
    }
}

pub open spec fn entry_paid_fn(price: nat) -> spec_fn(LedgerEntryView) -> nat {
    |e: LedgerEntryView| refund_amount(e.purchases, price)
}

/// What the buyers of the ledger `l` paid for their purchases: price and tax
/// of each.
pub open spec fn escrow(l: Seq<LedgerEntryView>, price: nat) -> nat {
    sum_of(l, entry_paid_fn(price))
}

pub open spec fn purchase_payments_fn() -> spec_fn(PurchaseView) -> nat {
    |p: PurchaseView| payments_total(p.msgs)
}

/// What the payments that the splits of the purchases `ps` call for come to.
pub open spec fn purchases_payments(ps: Seq<PurchaseView>) -> nat {
    sum_of(ps, purchase_payments_fn())
}

pub open spec fn entry_payments_fn() -> spec_fn(LedgerEntryView) -> nat {
    |e: LedgerEntryView| purchases_payments(e.purchases)
}

/// What the payments that the splits of all purchases of the ledger `l` call
/// for come to.
pub open spec fn split_payments(l: Seq<LedgerEntryView>) -> nat {
    sum_of(l, entry_payments_fn())
}

/// Whether every payment of every purchase of the ledger carries a coin and
/// pays in the currency `denom`.
pub open spec fn ledger_pays_in(l: Seq<LedgerEntryView>, denom: Seq<char>) -> bool {
    forall|i: int, a: int|
        0 <= i < l.len() && 0 <= a < l[i].purchases.len() ==> payments_in(
            (#[trigger] l[i].purchases[a]).msgs,
            denom,
        )
}

/// What the engine owes while a sale is refunded, which is what the buyers
/// paid, and while it is settled, which is the proceeds that wait and the
/// payments of the splits.
pub open spec fn owed(v: CrowdfundView, refund: bool) -> nat {
    match v.state {
        Some(st) => if refund {
            escrow(v.ledger, st.price.amount)
        } else {
            st.amount_to_send + split_payments(v.ledger)
        },
        None => 0,
    }
}

pub proof fn lemma_paid_concat(a: Seq<CommandView>, b: Seq<CommandView>, denom: Seq<char>)
    ensures
        total_paid_out(a + b, denom) == total_paid_out(a, denom) + total_paid_out(b, denom),
{
    lemma_sum_concat(a, b, paid_out_fn(denom));
}

pub proof fn lemma_paid_refund_command(e: LedgerEntryView, price: CoinView)
    ensures
        total_paid_out(refund_command(e, price), price.denom) == refund_amount(
            e.purchases,
            price.amount,
        ),
{
    let amount = refund_amount(e.purchases, price.amount);
    if amount > 0 {
        let coins = seq![CoinView { denom: price.denom, amount }];
        let c = CommandView::Send { to_address: e.buyer, amount: coins };
        lemma_coin_value_first(coins, price.denom, 0);
        lemma_sum_one(c, paid_out_fn(price.denom));
        assert(refund_command(e, price) =~= seq![c]);
    }
}

pub proof fn lemma_paid_refunds(entries: Seq<LedgerEntryView>, price: CoinView)
    ensures
        total_paid_out(refunds(entries, price), price.denom) == escrow(entries, price.amount),
    decreases entries.len(),
{
    if entries.len() > 0 {
        lemma_paid_refunds(entries.drop_last(), price);
        lemma_paid_refund_command(entries.last(), price);
        lemma_paid_concat(
            refunds(entries.drop_last(), price),
            refund_command(entries.last(), price),
            price.denom,
        );
    }
}

pub proof fn lemma_paid_burns(tokens: Seq<Seq<char>>, denom: Seq<char>)
    ensures
        total_paid_out(burns(tokens), denom) == 0,
{
    lemma_sum_constant(burns(tokens), paid_out_fn(denom), 0);
}

pub proof fn lemma_paid_forward(st: StateView)
    ensures
        total_paid_out(forward_command(st), st.price.denom) == st.amount_to_send,
{
    if st.amount_to_send > 0 {
        let c = forward_command(st)[0];
        lemma_sum_one(c, paid_out_fn(st.price.denom));
        assert(forward_command(st) =~= seq![c]);
    }
}

/// The commands that carry out payments pay out what the payments come to.
pub proof fn lemma_paid_sends(msgs: Seq<PaymentView>, denom: Seq<char>)
    requires
        payments_in(msgs, denom),
    ensures
        total_paid_out(Seq::new(msgs.len(), |i: int| send_command(msgs[i])), denom)
            == payments_total(msgs),
    decreases msgs.len(),
{
    let sends = Seq::new(msgs.len(), |i: int| send_command(msgs[i]));
    if msgs.len() > 0 {
        let head = msgs.drop_last();
        assert forall|i: int| 0 <= i < head.len() implies (#[trigger] head[i]).amount.len() > 0
            && head[i].amount[0].denom == denom by {
            assert(head[i] == msgs[i]);
        }
        lemma_paid_sends(head, denom);
        assert(sends.drop_last() =~= Seq::new(head.len(), |i: int| send_command(head[i])));
        assert(sends.last() == send_command(msgs.last()));
        let last = msgs[msgs.len() - 1];
        assert(last.amount.len() > 0 && last.amount[0].denom == denom);
        lemma_coin_value_first(last.amount, denom, 0);
    }
}

pub proof fn lemma_paid_purchase_delivery(p: PurchaseView, denom: Seq<char>)
    requires
        payments_in(p.msgs, denom),
    ensures
        total_paid_out(purchase_delivery(p), denom) == payments_total(p.msgs),
{
    let sends = Seq::new(p.msgs.len(), |i: int| send_command(p.msgs[i]));
    lemma_paid_sends(p.msgs, denom);
    lemma_sum_push(
        sends,
        CommandView::TransferToken { recipient: p.purchaser, token_id: p.token_id },
        paid_out_fn(denom),
    );
}

pub proof fn lemma_paid_deliveries_of(ps: Seq<PurchaseView>, denom: Seq<char>)
    requires
        forall|a: int| 0 <= a < ps.len() ==> payments_in((#[trigger] ps[a]).msgs, denom),
    ensures
        total_paid_out(deliveries_of(ps), denom) == purchases_payments(ps),
    decreases ps.len(),
{
    if ps.len() > 0 {
        let head = ps.drop_last();
        assert forall|a: int| 0 <= a < head.len() implies payments_in(
            (#[trigger] head[a]).msgs,
            denom,
        ) by {
            assert(head[a] == ps[a]);
        }
        lemma_paid_deliveries_of(head, denom);
        assert(payments_in(ps[ps.len() - 1].msgs, denom));
        lemma_paid_purchase_delivery(ps.last(), denom);
        lemma_paid_concat(deliveries_of(head), purchase_delivery(ps.last()), denom);
    }
}

pub proof fn lemma_paid_deliveries(entries: Seq<LedgerEntryView>, denom: Seq<char>)
    requires
        ledger_pays_in(entries, denom),
    ensures
        total_paid_out(deliveries(entries), denom) == split_payments(entries),
    decreases entries.len(),
{
    if entries.len() > 0 {
        let head = entries.drop_last();
        let last = entries.len() - 1;
        assert forall|i: int, a: int|
            0 <= i < head.len() && 0 <= a < head[i].purchases.len() implies payments_in(
            (#[trigger] head[i].purchases[a]).msgs,
            denom,
        ) by {
            assert(head[i].purchases[a] == entries[i].purchases[a]);
        }
        lemma_paid_deliveries(head, denom);
        assert forall|a: int| 0 <= a < entries[last].purchases.len() implies payments_in(
            (#[trigger] entries[last].purchases[a]).msgs,
            denom,
        ) by {}
        lemma_paid_deliveries_of(entries.last().purchases, denom);
        lemma_paid_concat(deliveries(head), deliveries_of(entries.last().purchases), denom);
    }
}

pub proof fn lemma_refund_amount_concat(a: Seq<PurchaseView>, b: Seq<PurchaseView>, price: nat)
    ensures
        refund_amount(a + b, price) == refund_amount(a, price) + refund_amount(b, price),
    decreases b.len(),
{
    if b.len() == 0 {
        assert(a + b =~= a);
    } else {
        lemma_refund_amount_concat(a, b.drop_last(), price);
        assert((a + b).drop_last() =~= a + b.drop_last());
        assert((a + b).last() == b.last());
    }
}

/// What a buyer paid for new purchases: price and tax of each.
pub proof fn lemma_refund_amount_new(
    ids: Seq<Seq<char>>,
    tax: nat,
    msgs: Seq<PaymentView>,
    buyer: Seq<char>,
    price: nat,
)
    ensures
        refund_amount(new_purchases(ids, tax, msgs, buyer), price) == price * ids.len() + tax
            * ids.len(),
    decreases ids.len(),
{
    let ps = new_purchases(ids, tax, msgs, buyer);
    let n = ids.len();
    if n > 0 {
        lemma_refund_amount_new(ids.drop_last(), tax, msgs, buyer, price);
        assert(ps.drop_last() =~= new_purchases(ids.drop_last(), tax, msgs, buyer));
        assert(ps.last().tax_amount == tax);
        assert(price * n + tax * n == price * (n - 1) + tax * (n - 1) + tax + price)
            by (nonlinear_arith);
    } else {
        assert(price * n + tax * n == 0) by (nonlinear_arith)
            requires
                n == 0,
        ;
    }
}

/// What the payments of the splits of new purchases come to.
pub proof fn lemma_payments_new(
    ids: Seq<Seq<char>>,
    tax: nat,
    msgs: Seq<PaymentView>,
    buyer: Seq<char>,
)
    ensures
        purchases_payments(new_purchases(ids, tax, msgs, buyer)) == payments_total(msgs)
            * ids.len(),
{
    let ps = new_purchases(ids, tax, msgs, buyer);
    lemma_sum_constant(ps, purchase_payments_fn(), payments_total(msgs));
}

/// What the buyers paid grows by what was paid for new purchases, and so do
/// the payments of the splits.
pub proof fn lemma_ledger_with_purchases(
    l: Seq<LedgerEntryView>,
    b: Seq<char>,
    ps: Seq<PurchaseView>,
    price: nat,
)
    ensures
        escrow(with_purchases(l, b, ps), price) == escrow(l, price) + refund_amount(ps, price),
        split_payments(with_purchases(l, b, ps)) == split_payments(l) + purchases_payments(ps),
{
    if has_buyer(l, b) {
        let i = entry_index(l, b);
        let e = LedgerEntryView { buyer: b, purchases: l[i].purchases + ps };
        lemma_sum_update(l, i, e, entry_paid_fn(price));
        lemma_sum_update(l, i, e, entry_payments_fn());
        lemma_refund_amount_concat(l[i].purchases, ps, price);
        lemma_sum_concat(l[i].purchases, ps, purchase_payments_fn());
    } else {
        let e = LedgerEntryView { buyer: b, purchases: ps };
        lemma_sum_push(l, e, entry_paid_fn(price));
        lemma_sum_push(l, e, entry_payments_fn());
    }
}

/// What the buyers paid, and the payments of the splits, are those of the
/// first entries of a ledger and those of the rest.
pub proof fn lemma_ledger_split(l: Seq<LedgerEntryView>, k: int, price: nat)
    requires
        0 <= k,
    ensures
        escrow(l, price) == escrow(first_n(l, k), price) + escrow(after_n(l, k), price),
        split_payments(l) == split_payments(first_n(l, k)) + split_payments(after_n(l, k)),
{
    if k < l.len() {
        lemma_sum_split(l, k, entry_paid_fn(price));
        lemma_sum_split(l, k, entry_payments_fn());
    }
}

/// What the buyers paid shrinks by what one buyer paid when the entry of
/// that buyer leaves the ledger.
pub proof fn lemma_ledger_remove(l: Seq<LedgerEntryView>, k: int, price: nat)
    requires
        0 <= k < l.len(),
    ensures
        escrow(l.remove(k), price) + refund_amount(l[k].purchases, price) == escrow(l, price),
{
    lemma_sum_remove(l, k, entry_paid_fn(price));
}

/// A buyer gets back what the coin that paid holds beyond the payment.
pub proof fn lemma_paid_overpayment(info: MessageInfoView, required: CoinView)
    requires
        holds_coins(info.funds, required),
    ensures
        total_paid_out(overpayment_refund(info, required), required.denom) + required.amount
            == coin_value(info.funds, required.denom),
{
    let funds = info.funds;
    let denom = required.denom;
    let i = choose|i: int| is_first_of_denom(funds, denom, i);
    lemma_coin_value_first(funds, denom, i);
    let left = change(funds, required);
    assert(left[i].amount == funds[i].amount - required.amount);
    assert(is_first_of_denom(left, denom, i)) by {
        assert forall|j: int| 0 <= j < i implies (#[trigger] left[j]).denom != denom by {
            assert(left[j] == funds[j]);
        }
    }
    lemma_coin_value_first(left, denom, i);
    let one = CoinView { denom, amount: 1 };
    if holds_coins(left, one) {
        let c = CommandView::Send { to_address: info.sender, amount: left };
        lemma_sum_one(c, paid_out_fn(denom));
        assert(overpayment_refund(info, required) =~= seq![c]);
    } else {
        assert(left[i].amount < 1);
    }
}

} // verus!
