use crate::coin::{view_seq, BlockInfo, Coin, CoinView, MessageInfo};
use crate::contract::{agrees, Crowdfund};
use crate::error::ContractError;
use crate::ledger::{lemma_entry_index, LedgerEntry, Purchase};
use crate::model::{
    burns, claim_refund_step, deliveries, deliveries_of, effective_limit, end_sale_step, ended,
    forward_command, purchase_delivery, refund_amount, refund_batch_step, refund_command,
    refunds, settle_batch_step, wf, CrowdfundView, DEFAULT_LIMIT, MAX_LIMIT,
};
use crate::outside::{is_expired, nonpayable};
use crate::proofs::{
    lemma_deliveries_next, lemma_deliveries_of_next, lemma_drain_wf, lemma_refund_amount_next,
    lemma_refund_amount_prefix, lemma_refunds_next, lemma_remove_entry_wf, lemma_stretch_wf,
};
use crate::registry::{after_n, first_n};
use crate::state::{payment_command, send_command, Command, CommandView, State};
use vstd::pervasive::unreached;
use vstd::prelude::*;

verus! {

/// The batch size used for a requested limit: fifty where none is named, and
/// never more than a hundred.
pub fn resolve_limit(limit: Option<u32>) -> (r: u32)
    ensures
        r == effective_limit(limit),
{
    match limit {
        Some(l) => if l < MAX_LIMIT {
            l
        } else {
            MAX_LIMIT
        },
        None => DEFAULT_LIMIT,
    }
}

/// The refund of all purchases of one buyer as one payment of what the
/// buyer paid, price and tax, and as no payment where that is nothing. It is
/// refused where what the buyer paid is no amount in range.
pub fn process_refund(entry: &LedgerEntry, price: &Coin) -> (r: Result<Vec<Command>, ContractError>)
    ensures
        match r {
            Ok(cmds) => refund_amount(entry@.purchases, price@.amount) <= u128::MAX && view_seq(
                cmds@,
            ) == refund_command(entry@, price@),
            Err(e) => e == ContractError::Overflow && refund_amount(
                entry@.purchases,
                price@.amount,
            ) > u128::MAX,
        },
{
    let ghost ps = entry@.purchases;
    let mut amount: u128 = 0;
    let mut i: usize = 0;
    assert(ps.take(0) =~= Seq::empty());
    while i < entry.purchases.len()
        invariant
            i <= entry.purchases@.len(),
            ps == entry@.purchases,
            amount == refund_amount(ps.take(i as int), price@.amount),
        decreases entry.purchases@.len() - i,
    {
        proof {
            lemma_refund_amount_next(ps, price@.amount, i as int);
            lemma_refund_amount_prefix(ps, price@.amount, i + 1);
            assert(ps[i as int] == entry.purchases@[i as int]@);
        }
        let paid: u128 = match entry.purchases[i].tax_amount.checked_add(price.amount) {
            Some(p) => p,
            None => {
                return Err(ContractError::Overflow);
            },
        };
        amount = match amount.checked_add(paid) {
            Some(a) => a,
            None => {
                return Err(ContractError::Overflow);
            },
        };
        i += 1;
    }
    assert(ps.take(i as int) =~= ps);
    let mut cmds: Vec<Command> = Vec::new();
    if amount > 0 {
        let mut coins: Vec<Coin> = Vec::new();
        coins.push(Coin { denom: price.denom.clone(), amount });
        assert(view_seq(coins@) =~= seq![CoinView { denom: price@.denom, amount: amount as nat }]);
        cmds.push(Command::Send { to_address: entry.buyer.clone(), amount: coins });
        assert(view_seq(cmds@) =~= refund_command(entry@, price@));
    } else {
        assert(view_seq(cmds@) =~= refund_command(entry@, price@));
    }
    Ok(cmds)
}

/// The commands that destroy the tokens `tokens`.
pub fn get_burn_messages(tokens: Vec<String>) -> (r: Vec<Command>)
    ensures
        view_seq(r@) == burns(view_seq(tokens@)),
{
    let mut r: Vec<Command> = Vec::new();
    let mut i: usize = 0;
    while i < tokens.len()
        invariant
            i <= tokens@.len(),
            r@.len() == i,
            forall|j: int|
                0 <= j < i ==> (#[trigger] r@[j])@ == (CommandView::BurnToken {
                    token_id: tokens@[j]@,
                }),
        decreases tokens@.len() - i,
    {
        r.push(Command::BurnToken { token_id: tokens[i].clone() });
        i += 1;
    }
    assert(view_seq(r@) =~= burns(view_seq(tokens@)));
    r
}

/// Adds the delivery of one purchase to `cmds`.
fn deliver_purchase(purchase: &Purchase, cmds: &mut Vec<Command>)
    ensures
        view_seq(final(cmds)@) == view_seq(old(cmds)@) + purchase_delivery(purchase@),
{
    let ghost before = view_seq(cmds@);
    let ghost msgs = purchase@.msgs;
    let mut i: usize = 0;
    while i < purchase.msgs.len()
        invariant
            i <= purchase.msgs@.len(),
            msgs == purchase@.msgs,
            view_seq(cmds@) == before + Seq::new(i as nat, |j: int| send_command(msgs[j])),
        decreases purchase.msgs@.len() - i,
    {
        let ghost so_far = view_seq(cmds@);
        cmds.push(payment_command(&purchase.msgs[i]));
        assert(view_seq(cmds@) =~= so_far.push(send_command(msgs[i as int])));
        assert(view_seq(cmds@) =~= before + Seq::new(
            (i + 1) as nat,
            |j: int| send_command(msgs[j]),
        ));
        i += 1;
    }
    let ghost so_far = view_seq(cmds@);
    cmds.push(
        Command::TransferToken {
            recipient: purchase.purchaser.clone(),
            token_id: purchase.token_id.clone(),
        },
    );
    assert(view_seq(cmds@) =~= so_far.push(
        CommandView::TransferToken {
            recipient: purchase@.purchaser,
            token_id: purchase@.token_id,
        },
    ));
    assert(view_seq(cmds@) =~= before + purchase_delivery(purchase@));
}

/// Adds the deliveries of all purchases of one buyer to `cmds`.
fn deliver_entry(entry: &LedgerEntry, cmds: &mut Vec<Command>)
    ensures
        view_seq(final(cmds)@) == view_seq(old(cmds)@) + deliveries_of(entry@.purchases),
{
    let ghost before = view_seq(cmds@);
    let ghost ps = entry@.purchases;
    let mut i: usize = 0;
    assert(ps.take(0) =~= Seq::empty());
    assert(before + deliveries_of(ps.take(0)) =~= before);
    while i < entry.purchases.len()
        invariant
            i <= entry.purchases@.len(),
            ps == entry@.purchases,
            view_seq(cmds@) == before + deliveries_of(ps.take(i as int)),
        decreases entry.purchases@.len() - i,
    {
        deliver_purchase(&entry.purchases[i], cmds);
        proof {
            lemma_deliveries_of_next(ps, i as int);
            assert(ps[i as int] == entry.purchases@[i as int]@);
            assert(view_seq(cmds@) =~= before + deliveries_of(ps.take(i + 1)));
        }
        i += 1;
    }
    assert(ps.take(i as int) =~= ps);
}

impl Crowdfund {
    /// Ends the record of the sale.
    fn clear_state(&mut self)
        ensures
            final(self)@ == (CrowdfundView { state: None, ..old(self)@ }),
    {
        self.state = None;
    }

    /// Refunds the sender of `info` after a sale that did not sell its
    /// minimum. See [`claim_refund_step`].
    pub fn execute_claim_refund(&mut self, info: &MessageInfo, block: &BlockInfo) -> (r: Result<
        Vec<Command>,
        ContractError,
    >)
        requires
            old(self).wf(),
        ensures
            final(self).wf(),
            agrees(claim_refund_step(old(self)@, info@, *block), old(self)@, final(self)@, r),
    {
        let ghost before = self@;
        if let Err(e) = nonpayable(info) {
            return Err(e);
        }
        let cmds = match &self.state {
            None => {
                return Err(ContractError::NoOngoingSale);
            },
            Some(state) => {
                if !is_expired(state.end_time, block) {
                    return Err(ContractError::SaleNotEnded);
                }
                if state.amount_sold >= state.min_tokens_sold {
                    return Err(ContractError::MinSalesExceeded);
                }
                match self.purchases.position(&info.sender) {
                    None => {
                        return Err(ContractError::NoPurchases);
                    },
                    Some(i) => {
                        proof {
                            lemma_entry_index(before.ledger, info@.sender, i as int);
                            lemma_remove_entry_wf(before, i as int);
                        }
                        match process_refund(&self.purchases.entries[i], &state.price) {
                            Ok(cmds) => cmds,
                            Err(e) => {
                                return Err(e);
                            },
                        }
                    },
                }
            },
        };
        self.purchases.remove(&info.sender);
        Ok(cmds)
    }

    /// The record of the sale once it has ended in the block `block`.
    fn ended_state(&self, block: &BlockInfo) -> (r: State)
        requires
            self.state is Some,
        ensures
            r@ == ended(self@.state->0, *block),
    {
        let mut state = match &self.state {
            Some(st) => st.clone(),
            None => unreached(),
        };
        if block.time < state.end_time {
            state.end_time = block.time;
        }
        state
    }

    /// One batch of the refund of the sale, which ends in the block `block`.
    /// See [`refund_batch_step`].
    fn issue_refunds_and_burn_tokens(&mut self, block: &BlockInfo, limit: Option<u32>) -> (r:
        Result<Vec<Command>, ContractError>)
        requires
            old(self).wf(),
            old(self).state is Some,
        ensures
            final(self).wf(),
            agrees(
                refund_batch_step(old(self)@, ended(old(self)@.state->0, *block), limit),
                old(self)@,
                final(self)@,
                r,
            ),
    {
        let ghost before = self@;
        let k: usize = resolve_limit(limit) as usize;
        if k == 0 {
            return Err(ContractError::LimitMustNotBeZero);
        }
        let ghost batch = first_n(before.ledger, k as int);
        let mut cmds: Vec<Command> = Vec::new();
        {
            let state = match &self.state {
                Some(st) => st,
                None => unreached(),
            };
            let mut i: usize = 0;
            assert(batch.take(0) =~= Seq::empty());
            while i < self.purchases.entries.len() && i < k
                invariant
                    i <= self.purchases.entries@.len(),
                    i <= k,
                    0 < k == effective_limit(limit),
                    self@ == before,
                    before == old(self)@,
                    wf(before),
                    before.state == Some(state@),
                    batch == first_n(before.ledger, k as int),
                    view_seq(cmds@) == refunds(batch.take(i as int), state@.price),
                    forall|j: int|
                        0 <= j < i ==> refund_amount(
                            (#[trigger] batch[j]).purchases,
                            state@.price.amount,
                        ) <= u128::MAX,
                decreases self.purchases.entries@.len() - i,
            {
                assert(batch[i as int] == self.purchases.entries@[i as int]@);
                let mut refund = match process_refund(&self.purchases.entries[i], &state.price) {
                    Ok(c) => c,
                    Err(e) => {
                        return Err(e);
                    },
                };
                let ghost so_far = view_seq(cmds@);
                let ghost added = view_seq(refund@);
                cmds.append(&mut refund);
                proof {
                    assert(view_seq(cmds@) =~= so_far + added);
                    lemma_refunds_next(batch, state@.price, i as int);
                }
                i += 1;
            }
            assert(batch.take(i as int) =~= batch);
        }
        let state = self.ended_state(block);
        self.state = Some(state);
        let refunded = self.purchases.take_first(k);
        let tokens = self.available_tokens.take_first(k);
        let nothing_left = refunded.len() == 0 && tokens.len() == 0;
        let mut burn_msgs = get_burn_messages(tokens);
        let ghost so_far = view_seq(cmds@);
        let ghost added = view_seq(burn_msgs@);
        cmds.append(&mut burn_msgs);
        assert(view_seq(cmds@) =~= so_far + added);
        if nothing_left {
            self.clear_state();
        }
        proof {
            lemma_drain_wf(before, k as int, k as int, self@.state);
        }
        Ok(cmds)
    }

    /// One batch of the settlement of the sale, which ends in the block
    /// `block`. See [`settle_batch_step`].
    fn transfer_tokens_and_send_funds(&mut self, block: &BlockInfo, limit: Option<u32>) -> (r:
        Result<Vec<Command>, ContractError>)
        requires
            old(self).wf(),
            old(self).state is Some,
        ensures
            final(self).wf(),
            agrees(
                settle_batch_step(old(self)@, ended(old(self)@.state->0, *block), limit),
                old(self)@,
                final(self)@,
                r,
            ),
    {
        let ghost before = self@;
        let limit: usize = resolve_limit(limit) as usize;
        if limit == 0 {
            return Err(ContractError::LimitMustNotBeZero);
        }
        let mut state = self.ended_state(block);
        let transferred: u128 = match state.amount_transferred.checked_add(
            state.amount_to_send,
        ) {
            Some(t) => t,
            None => {
                return Err(ContractError::Overflow);
            },
        };
        let mut cmds: Vec<Command> = Vec::new();
        if state.amount_to_send > 0 {
            cmds.push(
                Command::ForwardFunds {
                    to: state.recipient.clone(),
                    funds: Coin { denom: state.price.denom.clone(), amount: state.amount_to_send },
                },
            );
        }
        assert(view_seq(cmds@) =~= forward_command(ended(before.state->0, *block)));
        state.amount_to_send = 0;
        state.amount_transferred = transferred;
        self.state = Some(state);
        let ghost forward = view_seq(cmds@);
        if self.purchases.len() > 0 {
            let delivered = self.purchases.take_first(limit);
            let ghost batch = view_seq(delivered@);
            let mut i: usize = 0;
            assert(batch.take(0) =~= Seq::empty());
            assert(forward + deliveries(batch.take(0)) =~= forward);
            while i < delivered.len()
                invariant
                    i <= delivered@.len(),
                    batch == view_seq(delivered@),
                    view_seq(cmds@) == forward + deliveries(batch.take(i as int)),
                decreases delivered@.len() - i,
            {
                deliver_entry(&delivered[i], &mut cmds);
                proof {
                    lemma_deliveries_next(batch, i as int);
                    assert(view_seq(cmds@) =~= forward + deliveries(batch.take(i + 1)));
                }
                i += 1;
            }
            assert(batch.take(i as int) =~= batch);
            proof {
                assert(after_n(before.tokens, before.tokens.len() as int) =~= Seq::empty());
                lemma_stretch_wf(
                    before,
                    if limit < before.ledger.len() {
                        limit as int
                    } else {
                        before.ledger.len() as int
                    },
                    before.ledger.len() as int,
                    0,
                    before.tokens.len() as int,
                    self@.state,
                );
                assert(before.tokens.subrange(0, before.tokens.len() as int) =~= before.tokens);
                assert(after_n(before.ledger, limit as int) =~= before.ledger.subrange(
                    if limit < before.ledger.len() {
                        limit as int
                    } else {
                        before.ledger.len() as int
                    },
                    before.ledger.len() as int,
                ));
            }
        } else if self.available_tokens.len() > 0 {
            let tokens = self.available_tokens.take_first(limit);
            let mut burn_msgs = get_burn_messages(tokens);
            let ghost added = view_seq(burn_msgs@);
            cmds.append(&mut burn_msgs);
            assert(view_seq(cmds@) =~= forward + added);
            proof {
                assert(after_n(before.ledger, 0) =~= before.ledger);
                lemma_drain_wf(before, 0, limit as int, self@.state);
            }
        } else {
            self.clear_state();
        }
        Ok(cmds)
    }

    /// Ends the sale, one batch of work for each call. `end_condition_met`
    /// says whether an end condition of the caller's own holds. A sale that
    /// ends before its time has its end time moved to the time of the block,
    /// so that nothing is purchased from then on. See [`end_sale_step`].
    pub fn execute_end_sale(
        &mut self,
        info: &MessageInfo,
        is_owner: bool,
        block: &BlockInfo,
        end_condition_met: bool,
        limit: Option<u32>,
    ) -> (r: Result<Vec<Command>, ContractError>)
        requires
            old(self).wf(),
        ensures
            final(self).wf(),
            agrees(
                end_sale_step(old(self)@, info@, is_owner, *block, end_condition_met, limit),
                old(self)@,
                final(self)@,
                r,
            ),
    {
        if let Err(e) = nonpayable(info) {
            return Err(e);
        }
        let (ended, refund) = match &self.state {
            None => (false, false),
            Some(state) => (
                end_condition_met || is_expired(state.end_time, block)
                    || self.available_tokens.len() == 0 || is_owner,
                state.amount_sold < state.min_tokens_sold,
            ),
        };
        if !ended {
            let cmds: Vec<Command> = Vec::new();
            assert(view_seq(cmds@) =~= Seq::<CommandView>::empty());
            Ok(cmds)
        } else if refund {
            self.issue_refunds_and_burn_tokens(block, limit)
        } else {
            self.transfer_tokens_and_send_funds(block, limit)
        }
    }
}

} // verus!
