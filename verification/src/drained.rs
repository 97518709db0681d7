use crate::coin::CoinView;
use crate::ledger::{LedgerEntryView, PurchaseView};
use crate::model::{
    burns, deliveries, deliveries_of, forward_command, purchase_delivery, refund_command, refunds,
};
use crate::state::{send_command, CommandView, StateView};
use vstd::prelude::*;

verus! {

/// What `f` picks of the items of `s`, in their order.
pub open spec fn pick<A, B>(s: Seq<A>, f: spec_fn(A) -> Option<B>) -> Seq<B>
    decreases s.len(),
{
    if s.len() == 0 {
        Seq::empty()
    } else {
        match f(s.last()) {
            Some(b) => pick(s.drop_last(), f).push(b),
            None => pick(s.drop_last(), f),
        }
    }
}

/// What is picked of two sequences in a row.
pub proof fn lemma_pick_concat<A, B>(a: Seq<A>, b: Seq<A>, f: spec_fn(A) -> Option<B>)
    ensures
        pick(a + b, f) == pick(a, f) + pick(b, f),
    decreases b.len(),
{
    if b.len() == 0 {
        assert(a + b =~= a);
        assert(pick(a, f) + pick(b, f) =~= pick(a, f));
    } else {
        lemma_pick_concat(a, b.drop_last(), f);
        assert((a + b).drop_last() =~= a + b.drop_last());
        assert((a + b).last() == b.last());
        match f(b.last()) {
            Some(x) => {
                assert((pick(a, f) + pick(b.drop_last(), f)).push(x) =~= pick(a, f) + pick(
                    b.drop_last(),
                    f,
                ).push(x));
            },
            None => {},
        }
    }
}

/// Nothing is picked of items of which `f` picks none.
pub proof fn lemma_pick_none<A, B>(s: Seq<A>, f: spec_fn(A) -> Option<B>)
    requires
        forall|i: int| 0 <= i < s.len() ==> f(#[trigger] s[i]) is None,
    ensures
        pick(s, f) == Seq::<B>::empty(),
    decreases s.len(),
{
    if s.len() > 0 {
        let head = s.drop_last();
        assert forall|i: int| 0 <= i < head.len() implies f(#[trigger] head[i]) is None by {
            assert(head[i] == s[i]);
        }
        lemma_pick_none(head, f);
        assert(f(s[s.len() - 1]) is None);
    }
}

/// Of items of which `f` picks every one, what it picks of each is picked.
pub proof fn lemma_pick_all<A, B>(s: Seq<A>, f: spec_fn(A) -> Option<B>, t: Seq<B>)
    requires
        s.len() == t.len(),
        forall|i: int| 0 <= i < s.len() ==> f(#[trigger] s[i]) == Some(t[i]),
    ensures
        pick(s, f) == t,
    decreases s.len(),
{
    if s.len() > 0 {
        let head = s.drop_last();
        let want = t.drop_last();
        assert forall|i: int| 0 <= i < head.len() implies f(#[trigger] head[i]) == Some(
            want[i],
        ) by {
            assert(head[i] == s[i] && want[i] == t[i]);
        }
        lemma_pick_all(head, f, want);
        assert(f(s[s.len() - 1]) == Some(t[s.len() - 1]));
        assert(want.push(t.last()) =~= t);
    } else {
        assert(t =~= Seq::<B>::empty());
    }
}

/// A transfer of a token: who receives it, and the token.
pub struct Transfer {
    pub recipient: Seq<char>,
    pub token_id: Seq<char>,
}

pub open spec fn transfer_fn() -> spec_fn(CommandView) -> Option<Transfer> {
    |c: CommandView|
        match c {
            CommandView::TransferToken { recipient, token_id } => Some(
                Transfer { recipient, token_id },
            ),
            _ => None,
        }
}

pub open spec fn burn_fn() -> spec_fn(CommandView) -> Option<Seq<char>> {
    |c: CommandView|
        match c {
            CommandView::BurnToken { token_id } => Some(token_id),
            _ => None,
        }
}

pub open spec fn send_fn() -> spec_fn(CommandView) -> Option<CommandView> {
    |c: CommandView|
        match c {
            CommandView::Send { .. } => Some(c),
            _ => None,
        }
}

pub open spec fn forward_fn() -> spec_fn(CommandView) -> Option<CommandView> {
    |c: CommandView|
        match c {
            CommandView::ForwardFunds { .. } => Some(c),
            _ => None,
        }
}

/// The transfers of tokens among the commands `cmds`, in their order.
pub open spec fn transfers(cmds: Seq<CommandView>) -> Seq<Transfer> {
    pick(cmds, transfer_fn())
}

/// The tokens that the commands `cmds` destroy, in their order.
pub open spec fn burned(cmds: Seq<CommandView>) -> Seq<Seq<char>> {
    pick(cmds, burn_fn())
}

/// The payments of coins among the commands `cmds`, in their order.
pub open spec fn sends(cmds: Seq<CommandView>) -> Seq<CommandView> {
    pick(cmds, send_fn())
}

/// The commands among `cmds` that forward proceeds, in their order.
pub open spec fn forwards(cmds: Seq<CommandView>) -> Seq<CommandView> {
    pick(cmds, forward_fn())
}

/// The transfers that deliver the purchases `ps`: each token to its buyer.
pub open spec fn purchase_transfers(ps: Seq<PurchaseView>) -> Seq<Transfer> {
    Seq::new(
        ps.len(),
        |a: int| Transfer { recipient: ps[a].purchaser, token_id: ps[a].token_id },
    )
}

/// The transfers that deliver all purchases of the ledger entries `entries`,
/// in their order.
pub open spec fn ledger_transfers(entries: Seq<LedgerEntryView>) -> Seq<Transfer>
    decreases entries.len(),
{
    if entries.len() == 0 {
        Seq::empty()
    } else {
        ledger_transfers(entries.drop_last()) + purchase_transfers(entries.last().purchases)
    }
}

/// The payments that the split of one purchase calls for.
pub open spec fn split_sends(p: PurchaseView) -> Seq<CommandView> {
    Seq::new(p.msgs.len(), |i: int| send_command(p.msgs[i]))
}

/// The payments that the splits of the purchases `ps` call for, in their
/// order.
pub open spec fn purchase_sends(ps: Seq<PurchaseView>) -> Seq<CommandView>
    decreases ps.len(),
{
    if ps.len() == 0 {
        Seq::empty()
    } else {
        purchase_sends(ps.drop_last()) + split_sends(ps.last())
    }
}

/// The payments that the splits of all purchases of the ledger entries
/// `entries` call for, in their order.
pub open spec fn ledger_sends(entries: Seq<LedgerEntryView>) -> Seq<CommandView>
    decreases entries.len(),
{
    if entries.len() == 0 {
        Seq::empty()
    } else {
        ledger_sends(entries.drop_last()) + purchase_sends(entries.last().purchases)
    }
}

pub proof fn lemma_ledger_transfers_concat(a: Seq<LedgerEntryView>, b: Seq<LedgerEntryView>)
    ensures
        ledger_transfers(a + b) == ledger_transfers(a) + ledger_transfers(b),
    decreases b.len(),
{
    if b.len() == 0 {
        assert(a + b =~= a);
        assert(ledger_transfers(a) + ledger_transfers(b) =~= ledger_transfers(a));
    } else {
        lemma_ledger_transfers_concat(a, b.drop_last());
        assert((a + b).drop_last() =~= a + b.drop_last());
        assert((a + b).last() == b.last());
        assert((ledger_transfers(a) + ledger_transfers(b.drop_last())) + purchase_transfers(
            b.last().purchases,
        ) =~= ledger_transfers(a) + (ledger_transfers(b.drop_last()) + purchase_transfers(
            b.last().purchases,
        )));
    }
}

pub proof fn lemma_ledger_sends_concat(a: Seq<LedgerEntryView>, b: Seq<LedgerEntryView>)
    ensures
        ledger_sends(a + b) == ledger_sends(a) + ledger_sends(b),
    decreases b.len(),
{
    if b.len() == 0 {
        assert(a + b =~= a);
        assert(ledger_sends(a) + ledger_sends(b) =~= ledger_sends(a));
    } else {
        lemma_ledger_sends_concat(a, b.drop_last());
        assert((a + b).drop_last() =~= a + b.drop_last());
        assert((a + b).last() == b.last());
        assert((ledger_sends(a) + ledger_sends(b.drop_last())) + purchase_sends(
            b.last().purchases,
        ) =~= ledger_sends(a) + (ledger_sends(b.drop_last()) + purchase_sends(
            b.last().purchases,
        )));
    }
}

pub proof fn lemma_refunds_concat(a: Seq<LedgerEntryView>, b: Seq<LedgerEntryView>, price: CoinView)
    ensures
        refunds(a + b, price) == refunds(a, price) + refunds(b, price),
    decreases b.len(),
{
    if b.len() == 0 {
        assert(a + b =~= a);
        assert(refunds(a, price) + refunds(b, price) =~= refunds(a, price));
    } else {
        lemma_refunds_concat(a, b.drop_last(), price);
        assert((a + b).drop_last() =~= a + b.drop_last());
        assert((a + b).last() == b.last());
        assert((refunds(a, price) + refunds(b.drop_last(), price)) + refund_command(
            b.last(),
            price,
        ) =~= refunds(a, price) + (refunds(b.drop_last(), price) + refund_command(
            b.last(),
            price,
        )));
    }
}

/// What the commands of the delivery of one purchase are: the payments of its
/// split, and the transfer of its token.
pub proof fn lemma_purchase_delivery_kinds(p: PurchaseView)
    ensures
        transfers(purchase_delivery(p)) == seq![
            Transfer { recipient: p.purchaser, token_id: p.token_id },
        ],
        sends(purchase_delivery(p)) == split_sends(p),
        burned(purchase_delivery(p)) == Seq::<Seq<char>>::empty(),
        forwards(purchase_delivery(p)) == Seq::<CommandView>::empty(),
{
    let s = split_sends(p);
    let d = purchase_delivery(p);
    assert(d.drop_last() =~= s);
    lemma_pick_none(s, transfer_fn());
    lemma_pick_all(s, send_fn(), s);
    lemma_pick_none(d, burn_fn());
    lemma_pick_none(d, forward_fn());
    assert(transfers(d) =~= seq![Transfer { recipient: p.purchaser, token_id: p.token_id }]);
}

pub proof fn lemma_deliveries_of_kinds(ps: Seq<PurchaseView>)
    ensures
        transfers(deliveries_of(ps)) == purchase_transfers(ps),
        sends(deliveries_of(ps)) == purchase_sends(ps),
        burned(deliveries_of(ps)) == Seq::<Seq<char>>::empty(),
        forwards(deliveries_of(ps)) == Seq::<CommandView>::empty(),
    decreases ps.len(),
{
    if ps.len() == 0 {
        assert(purchase_transfers(ps) =~= Seq::<Transfer>::empty());
    } else {
        let head = deliveries_of(ps.drop_last());
        let last = purchase_delivery(ps.last());
        lemma_deliveries_of_kinds(ps.drop_last());
        lemma_purchase_delivery_kinds(ps.last());
        lemma_pick_concat(head, last, transfer_fn());
        lemma_pick_concat(head, last, send_fn());
        lemma_pick_concat(head, last, burn_fn());
        lemma_pick_concat(head, last, forward_fn());
        assert(purchase_transfers(ps.drop_last()) + seq![
            Transfer { recipient: ps.last().purchaser, token_id: ps.last().token_id },
        ] =~= purchase_transfers(ps));
        assert(burned(head) + burned(last) =~= Seq::<Seq<char>>::empty());
        assert(forwards(head) + forwards(last) =~= Seq::<CommandView>::empty());
    }
}

/// What the commands of the deliveries of ledger entries are: the payments
/// of the splits of their purchases, and the transfers of their tokens.
pub proof fn lemma_deliveries_kinds(entries: Seq<LedgerEntryView>)
    ensures
        transfers(deliveries(entries)) == ledger_transfers(entries),
        sends(deliveries(entries)) == ledger_sends(entries),
        burned(deliveries(entries)) == Seq::<Seq<char>>::empty(),
        forwards(deliveries(entries)) == Seq::<CommandView>::empty(),
    decreases entries.len(),
{
    if entries.len() > 0 {
        let head = deliveries(entries.drop_last());
        let last = deliveries_of(entries.last().purchases);
        lemma_deliveries_kinds(entries.drop_last());
        lemma_deliveries_of_kinds(entries.last().purchases);
        lemma_pick_concat(head, last, transfer_fn());
        lemma_pick_concat(head, last, send_fn());
        lemma_pick_concat(head, last, burn_fn());
        lemma_pick_concat(head, last, forward_fn());
        assert(burned(head) + burned(last) =~= Seq::<Seq<char>>::empty());
        assert(forwards(head) + forwards(last) =~= Seq::<CommandView>::empty());
    }
}

/// Refunds are payments of coins and nothing else.
pub proof fn lemma_refunds_kinds(entries: Seq<LedgerEntryView>, price: CoinView)
    ensures
        sends(refunds(entries, price)) == refunds(entries, price),
        transfers(refunds(entries, price)) == Seq::<Transfer>::empty(),
        burned(refunds(entries, price)) == Seq::<Seq<char>>::empty(),
        forwards(refunds(entries, price)) == Seq::<CommandView>::empty(),
    decreases entries.len(),
{
    if entries.len() > 0 {
        let head = refunds(entries.drop_last(), price);
        let last = refund_command(entries.last(), price);
        lemma_refunds_kinds(entries.drop_last(), price);
        lemma_pick_all(last, send_fn(), last);
        lemma_pick_none(last, transfer_fn());
        lemma_pick_none(last, burn_fn());
        lemma_pick_none(last, forward_fn());
        lemma_pick_concat(head, last, transfer_fn());
        lemma_pick_concat(head, last, send_fn());
        lemma_pick_concat(head, last, burn_fn());
        lemma_pick_concat(head, last, forward_fn());
        assert(transfers(head) + transfers(last) =~= Seq::<Transfer>::empty());
        assert(burned(head) + burned(last) =~= Seq::<Seq<char>>::empty());
        assert(forwards(head) + forwards(last) =~= Seq::<CommandView>::empty());
    }
}

/// The commands that destroy tokens destroy these tokens and do nothing
/// else.
pub proof fn lemma_burns_kinds(tokens: Seq<Seq<char>>)
    ensures
        burned(burns(tokens)) == tokens,
        transfers(burns(tokens)) == Seq::<Transfer>::empty(),
        sends(burns(tokens)) == Seq::<CommandView>::empty(),
        forwards(burns(tokens)) == Seq::<CommandView>::empty(),
{
    lemma_pick_all(burns(tokens), burn_fn(), tokens);
    lemma_pick_none(burns(tokens), transfer_fn());
    lemma_pick_none(burns(tokens), send_fn());
    lemma_pick_none(burns(tokens), forward_fn());
}

/// The command that forwards the proceeds forwards proceeds and does nothing
/// else.
pub proof fn lemma_forward_kinds(st: StateView)
    ensures
        forwards(forward_command(st)) == forward_command(st),
        transfers(forward_command(st)) == Seq::<Transfer>::empty(),
        sends(forward_command(st)) == Seq::<CommandView>::empty(),
        burned(forward_command(st)) == Seq::<Seq<char>>::empty(),
{
    lemma_pick_all(forward_command(st), forward_fn(), forward_command(st));
    lemma_pick_none(forward_command(st), transfer_fn());
    lemma_pick_none(forward_command(st), send_fn());
    lemma_pick_none(forward_command(st), burn_fn());
}

} // verus!
