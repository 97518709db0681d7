use crate::coin::CoinView;
use crate::ledger::{LedgerEntryView, PurchaseView};
use crate::model::{
    burns, deliveries, deliveries_of, forward_command, purchase_delivery, refund_command, refunds,
    CrowdfundView,
};
use crate::state::{send_command, CommandView, StateView};
use vstd::prelude::*;

verus! {

/// The token that a command transfers or destroys, if it does either.
pub open spec fn handled_token(c: CommandView) -> Option<Seq<char>> {
    match c {
        CommandView::TransferToken { token_id, .. } => Some(token_id),
        CommandView::BurnToken { token_id } => Some(token_id),
        _ => None,
    }
}

/// The tokens that the commands `cmds` transfer or destroy, in their order.
pub open spec fn handled_tokens(cmds: Seq<CommandView>) -> Seq<Seq<char>>
    decreases cmds.len(),
{
    if cmds.len() == 0 {
        Seq::empty()
    } else {
        match handled_token(cmds.last()) {
            Some(t) => handled_tokens(cmds.drop_last()).push(t),
            None => handled_tokens(cmds.drop_last()),
        }
    }
}

/// Whether the ledger `l` records the purchase of the token `t`.
pub open spec fn is_purchased(l: Seq<LedgerEntryView>, t: Seq<char>) -> bool {
    exists|i: int, a: int|
        0 <= i < l.len() && 0 <= a < l[i].purchases.len() && (#[trigger] l[i].purchases[a]).token_id
            == t
}

/// Whether the engine holds the token `t`: it is available or purchased.
pub open spec fn holds_token(v: CrowdfundView, t: Seq<char>) -> bool {
    v.tokens.contains(t) || is_purchased(v.ledger, t)
}

/// The tokens of the purchases `ps`, in their order.
pub open spec fn tokens_of(ps: Seq<PurchaseView>) -> Seq<Seq<char>> {
    Seq::new(ps.len(), |a: int| ps[a].token_id)
}

/// The tokens of all purchases of the ledger entries `entries`, in their
/// order.
pub open spec fn purchased_tokens(entries: Seq<LedgerEntryView>) -> Seq<Seq<char>>
    decreases entries.len(),
{
    if entries.len() == 0 {
        Seq::empty()
    } else {
        purchased_tokens(entries.drop_last()) + tokens_of(entries.last().purchases)
    }
}

/// The tokens handled by two runs of commands in a row.
pub proof fn lemma_handled_concat(a: Seq<CommandView>, b: Seq<CommandView>)
    ensures
        handled_tokens(a + b) == handled_tokens(a) + handled_tokens(b),
    decreases b.len(),
{
    if b.len() == 0 {
        assert(a + b =~= a);
        assert(handled_tokens(a) + handled_tokens(b) =~= handled_tokens(a));
    } else {
        lemma_handled_concat(a, b.drop_last());
        assert((a + b).drop_last() =~= a + b.drop_last());
        assert((a + b).last() == b.last());
        match handled_token(b.last()) {
            Some(t) => {
                assert((handled_tokens(a) + handled_tokens(b.drop_last())).push(t)
                    =~= handled_tokens(a) + handled_tokens(b.drop_last()).push(t));
            },
            None => {},
        }
    }
}

/// Commands that handle no token handle none together.
pub proof fn lemma_handled_none(cmds: Seq<CommandView>)
    requires
        forall|j: int| 0 <= j < cmds.len() ==> handled_token(#[trigger] cmds[j]) is None,
    ensures
        handled_tokens(cmds) == Seq::<Seq<char>>::empty(),
    decreases cmds.len(),
{
    if cmds.len() > 0 {
        let rest = cmds.drop_last();
        assert forall|j: int| 0 <= j < rest.len() implies handled_token(#[trigger] rest[j])
            is None by {
            assert(rest[j] == cmds[j]);
        }
        lemma_handled_none(rest);
        assert(handled_token(cmds[cmds.len() - 1]) is None);
    }
}

/// The commands that destroy tokens handle just these tokens.
pub proof fn lemma_handled_burns(tokens: Seq<Seq<char>>)
    ensures
        handled_tokens(burns(tokens)) == tokens,
    decreases tokens.len(),
{
    if tokens.len() == 0 {
        assert(handled_tokens(burns(tokens)) =~= tokens);
    } else {
        lemma_handled_burns(tokens.drop_last());
        assert(burns(tokens).drop_last() =~= burns(tokens.drop_last()));
        assert(burns(tokens).last() == CommandView::BurnToken { token_id: tokens.last() });
        assert(tokens.drop_last().push(tokens.last()) =~= tokens);
    }
}

/// Refunds handle no token.
pub proof fn lemma_handled_refunds(entries: Seq<LedgerEntryView>, price: CoinView)
    ensures
        handled_tokens(refunds(entries, price)) == Seq::<Seq<char>>::empty(),
    decreases entries.len(),
{
    if entries.len() > 0 {
        lemma_handled_refunds(entries.drop_last(), price);
        lemma_handled_none(refund_command(entries.last(), price));
        lemma_handled_concat(
            refunds(entries.drop_last(), price),
            refund_command(entries.last(), price),
        );
        assert(Seq::<Seq<char>>::empty() + Seq::<Seq<char>>::empty() =~= Seq::<
            Seq<char>,
        >::empty());
    }
}

/// Forwarding the proceeds handles no token.
pub proof fn lemma_handled_forward(st: StateView)
    ensures
        handled_tokens(forward_command(st)) == Seq::<Seq<char>>::empty(),
{
    lemma_handled_none(forward_command(st));
}

/// The delivery of a purchase handles its token.
pub proof fn lemma_handled_purchase_delivery(p: PurchaseView)
    ensures
        handled_tokens(purchase_delivery(p)) == seq![p.token_id],
{
    let sends = Seq::new(p.msgs.len(), |i: int| send_command(p.msgs[i]));
    lemma_handled_none(sends);
    let d = purchase_delivery(p);
    assert(d.drop_last() =~= sends);
    assert(handled_tokens(d) =~= seq![p.token_id]);
}

/// The deliveries of purchases handle their tokens.
pub proof fn lemma_handled_deliveries_of(ps: Seq<PurchaseView>)
    ensures
        handled_tokens(deliveries_of(ps)) == tokens_of(ps),
    decreases ps.len(),
{
    if ps.len() == 0 {
        assert(tokens_of(ps) =~= Seq::<Seq<char>>::empty());
    } else {
        lemma_handled_deliveries_of(ps.drop_last());
        lemma_handled_purchase_delivery(ps.last());
        lemma_handled_concat(deliveries_of(ps.drop_last()), purchase_delivery(ps.last()));
        assert(tokens_of(ps.drop_last()) + seq![ps.last().token_id] =~= tokens_of(ps));
    }
}

/// The deliveries of ledger entries handle the tokens of their purchases.
pub proof fn lemma_handled_deliveries(entries: Seq<LedgerEntryView>)
    ensures
        handled_tokens(deliveries(entries)) == purchased_tokens(entries),
    decreases entries.len(),
{
    if entries.len() > 0 {
        lemma_handled_deliveries(entries.drop_last());
        lemma_handled_deliveries_of(entries.last().purchases);
        lemma_handled_concat(
            deliveries(entries.drop_last()),
            deliveries_of(entries.last().purchases),
        );
    }
}

/// Every token of the purchases of ledger entries is the token of one of
/// their purchases.
pub proof fn lemma_purchased_tokens_member(entries: Seq<LedgerEntryView>, x: int)
    requires
        0 <= x < purchased_tokens(entries).len(),
    ensures
        is_purchased(entries, purchased_tokens(entries)[x]),
    decreases entries.len(),
{
    let head = entries.drop_last();
    let before = purchased_tokens(head);
    let last = entries.len() - 1;
    if x < before.len() {
        lemma_purchased_tokens_member(head, x);
        let (i, a) = choose|i: int, a: int|
            0 <= i < head.len() && 0 <= a < head[i].purchases.len() && (
            #[trigger] head[i].purchases[a]).token_id == before[x];
        assert(entries[i].purchases[a].token_id == before[x]);
    } else {
        let a = x - before.len();
        assert(entries[last].purchases[a].token_id == purchased_tokens(entries)[x]);
    }
}

/// Where no token was purchased twice, the tokens of the purchases of
/// ledger entries hold no token twice.
pub proof fn lemma_purchased_tokens_distinct(entries: Seq<LedgerEntryView>)
    requires
        forall|i: int, a: int, j: int, b: int|
            #![trigger entries[i].purchases[a], entries[j].purchases[b]]
            0 <= i < entries.len() && 0 <= a < entries[i].purchases.len() && 0 <= j
                < entries.len() && 0 <= b < entries[j].purchases.len() && (i != j || a != b)
                ==> entries[i].purchases[a].token_id != entries[j].purchases[b].token_id,
    ensures
        forall|x: int, y: int|
            0 <= x < y < purchased_tokens(entries).len() ==> purchased_tokens(entries)[x]
                != purchased_tokens(entries)[y],
    decreases entries.len(),
{
    if entries.len() > 0 {
        let head = entries.drop_last();
        let before = purchased_tokens(head);
        let last = entries.len() - 1;
        let all = purchased_tokens(entries);
        assert forall|i: int, a: int, j: int, b: int|
            #![trigger head[i].purchases[a], head[j].purchases[b]]
            0 <= i < head.len() && 0 <= a < head[i].purchases.len() && 0 <= j < head.len() && 0
                <= b < head[j].purchases.len() && (i != j || a != b)
            implies head[i].purchases[a].token_id != head[j].purchases[b].token_id by {
            assert(head[i].purchases[a] == entries[i].purchases[a]);
            assert(head[j].purchases[b] == entries[j].purchases[b]);
        }
        lemma_purchased_tokens_distinct(head);
        assert forall|x: int, y: int| 0 <= x < y < all.len() implies all[x] != all[y] by {
            if y < before.len() {
                assert(all[x] == before[x] && all[y] == before[y]);
            } else if x < before.len() {
                lemma_purchased_tokens_member(head, x);
                let (i, a) = choose|i: int, a: int|
                    0 <= i < head.len() && 0 <= a < head[i].purchases.len() && (
                    #[trigger] head[i].purchases[a]).token_id == before[x];
                let b = y - before.len();
                assert(all[y] == entries[last].purchases[b].token_id);
                assert(head[i].purchases[a] == entries[i].purchases[a]);
                assert(entries[i].purchases[a].token_id != entries[last].purchases[b].token_id);
            } else {
                let a = x - before.len();
                let b = y - before.len();
                assert(all[x] == entries[last].purchases[a].token_id);
                assert(all[y] == entries[last].purchases[b].token_id);
                assert(entries[last].purchases[a].token_id != entries[last].purchases[b].token_id);
            }
        }
    }
}

} // verus!
