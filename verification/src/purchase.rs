use crate::coin::{
    clone_coins, clone_payments, holds_coins, is_first_of_denom, payments_carry_coins,
    payments_total, view_seq, BlockInfo, Coin, MessageInfo, Payment,
};
use crate::contract::{agrees, Crowdfund};
use crate::error::ContractError;
use crate::ledger::{entry_index, has_buyer, Purchase};
use crate::ledger::purchases_of;
use crate::model::{
    change, new_purchases, overpayment_refund, purchase_allowance, purchase_by_token_id_step,
    purchase_quote, purchase_step, purchased, sold, wanted_tokens, Quote,
};
use crate::outside::{deduct_funds, get_tax_amount, has_coins, is_expired};
use crate::proofs::{
    lemma_first_after_split, lemma_one_token_split, lemma_payments_total_prefix,
    lemma_purchase_wf,
};
use crate::registry::{after_n, first_n, without_token};
use crate::state::{Command, FundsSplit, State};
use vstd::pervasive::unreached;
use vstd::prelude::*;

verus! {

/// What the first coins of the payments add up to, if every payment carries
/// a coin and the sum is an amount in range.
pub fn total_payments(msgs: &Vec<Payment>) -> (r: Option<u128>)
    ensures
        match r {
            Some(t) => payments_carry_coins(view_seq(msgs@)) && t == payments_total(
                view_seq(msgs@),
            ),
            None => !payments_carry_coins(view_seq(msgs@)) || payments_total(view_seq(msgs@))
                > u128::MAX,
        },
{
    let ghost all = view_seq(msgs@);
    let mut total: u128 = 0;
    let mut i: usize = 0;
    assert(all.take(0) =~= Seq::empty());
    while i < msgs.len()
        invariant
            i <= msgs@.len(),
            all == view_seq(msgs@),
            total == payments_total(all.take(i as int)),
            forall|j: int| 0 <= j < i ==> (#[trigger] all[j]).amount.len() > 0,
        decreases msgs@.len() - i,
    {
        if msgs[i].amount.len() == 0 {
            assert(all[i as int].amount.len() == 0);
            return None;
        }
        proof {
            let next = all.take(i + 1);
            assert(next.drop_last() =~= all.take(i as int));
            assert(next.last() == all[i as int]);
            assert(all[i as int].amount[0] == msgs@[i as int].amount@[0]@);
            lemma_payments_total_prefix(all, i + 1);
        }
        total = match total.checked_add(msgs[i].amount[0].amount) {
            Some(t) => t,
            None => {
                return None;
            },
        };
        i += 1;
    }
    assert(all.take(i as int) =~= all);
    Some(total)
}

/// What `number_of_tokens` tokens cost a buyer who sent `funds`: the tax on
/// each token and the payment for all of them. See [`purchase_quote`].
pub fn quote_purchase(
    state: &State,
    funds: &Vec<Coin>,
    number_of_tokens: usize,
    split: &FundsSplit,
) -> (r: Result<(u128, u128), ContractError>)
    ensures
        match r {
            Ok((tax, required)) => purchase_quote(
                state@,
                view_seq(funds@),
                number_of_tokens as nat,
                split@,
            ) == Ok::<Quote, ContractError>(Quote { tax: tax as nat, required: required as nat }),
            Err(e) => purchase_quote(state@, view_seq(funds@), number_of_tokens as nat, split@)
                == Err::<Quote, ContractError>(e),
        },
{
    if number_of_tokens == 0 {
        return Err(ContractError::AllTokensPurchased);
    }
    let count: u128 = number_of_tokens as u128;
    let price: u128 = state.price.amount;
    let total_cost: u128 = match price.checked_mul(count) {
        Some(c) => c,
        None => {
            return Err(ContractError::Overflow);
        },
    };
    if !has_coins(funds, &Coin { denom: state.price.denom.clone(), amount: total_cost }) {
        return Err(ContractError::InsufficientFunds);
    }
    if split.remainder > price {
        return Err(ContractError::Overflow);
    }
    let paid: u128 = match total_payments(&split.msgs) {
        Some(t) => t,
        None => {
            return Err(ContractError::Overflow);
        },
    };
    if paid < price - split.remainder {
        return Err(ContractError::Overflow);
    }
    let tax: u128 = get_tax_amount(&split.msgs, price, split.remainder);
    let total_tax: u128 = match tax.checked_mul(count) {
        Some(t) => t,
        None => {
            return Err(ContractError::Overflow);
        },
    };
    let kept: u128 = match split.remainder.checked_mul(count) {
        Some(k) => k,
        None => {
            return Err(ContractError::Overflow);
        },
    };
    if state.amount_to_send.checked_add(kept).is_none() {
        return Err(ContractError::Overflow);
    }
    if state.amount_sold.checked_add(count).is_none() {
        return Err(ContractError::Overflow);
    }
    let required: u128 = match total_cost.checked_add(total_tax) {
        Some(r) => r,
        None => {
            return Err(ContractError::Overflow);
        },
    };
    if !has_coins(funds, &Coin { denom: state.price.denom.clone(), amount: required }) {
        return Err(ContractError::InsufficientFunds);
    }
    Ok((tax, required))
}

/// The refund of what a buyer paid beyond `required`. See
/// [`overpayment_refund`].
fn refund_overpayment(info: &MessageInfo, required: &Coin) -> (r: Vec<Command>)
    requires
        holds_coins(info@.funds, required@),
    ensures
        view_seq(r@) == overpayment_refund(info@, required@),
{
    let mut funds = clone_coins(&info.funds);
    let ghost i = choose|i: int| is_first_of_denom(info@.funds, required@.denom, i);
    let paid: bool = deduct_funds(&mut funds, required);
    assert(paid);
    assert(view_seq(funds@) == change(info@.funds, required@));
    let mut r: Vec<Command> = Vec::new();
    if has_coins(&funds, &Coin { denom: required.denom.clone(), amount: 1 }) {
        r.push(Command::Send { to_address: info.sender.clone(), amount: funds });
        assert(view_seq(r@) =~= overpayment_refund(info@, required@));
    } else {
        assert(view_seq(r@) =~= overpayment_refund(info@, required@));
    }
    r
}

/// The number of tokens that a buyer asks for, who may purchase `allowance`
/// tokens: the number named, but no more than the allowance, and the
/// allowance where no number is named.
pub fn tokens_wanted(allowance: u32, number_of_tokens: Option<u32>) -> (r: u32)
    ensures
        r == wanted_tokens(allowance as int, number_of_tokens),
{
    match number_of_tokens {
        Some(n) => if n < allowance {
            n
        } else {
            allowance
        },
        None => allowance,
    }
}

impl Crowdfund {
    /// The number of tokens that `buyer` may still purchase in the sale, and
    /// none where there is no sale.
    pub fn purchase_allowance(&self, buyer: &String) -> (r: u32)
        requires
            self.wf(),
        ensures
            r == match self@.state {
                Some(st) => purchase_allowance(st, purchases_of(self@.ledger, buyer@).len()),
                None => 0,
            },
    {
        let state = match &self.state {
            Some(st) => st,
            None => {
                return 0;
            },
        };
        let owned: usize = self.purchases.purchased_by(buyer);
        proof {
            if has_buyer(self@.ledger, buyer@) {
                let k = entry_index(self@.ledger, buyer@);
                assert(self@.ledger[k].purchases.len() <= state@.max_amount_per_wallet);
            }
        }
        state.max_amount_per_wallet - owned as u32
    }

    /// Records the purchase of the tokens `token_ids`, which have left the
    /// available tokens, by the sender of `info`.
    fn purchase_tokens(
        &mut self,
        info: &MessageInfo,
        token_ids: Vec<String>,
        tax: u128,
        split: &FundsSplit,
    )
        requires
            old(self).purchases.wf(),
            old(self).state is Some,
            token_ids@.len() > 0,
            old(self)@.state->0.amount_sold + token_ids@.len() <= u128::MAX,
            old(self)@.state->0.amount_to_send + split@.remainder * token_ids@.len() <= u128::MAX,
        ensures
            final(self)@ == purchased(
                old(self)@,
                old(self)@.state->0,
                info@.sender,
                view_seq(token_ids@),
                old(self)@.tokens,
                tax as nat,
                split@,
            ),
    {
        let ghost before = self@;
        let ghost ids = view_seq(token_ids@);
        let ghost wanted = new_purchases(ids, tax as nat, split@.msgs, info@.sender);
        let mut purchases: Vec<Purchase> = Vec::new();
        let mut i: usize = 0;
        while i < token_ids.len()
            invariant
                i <= token_ids@.len(),
                ids == view_seq(token_ids@),
                wanted == new_purchases(ids, tax as nat, split@.msgs, info@.sender),
                purchases@.len() == i,
                forall|j: int| 0 <= j < i ==> (#[trigger] purchases@[j])@ == wanted[j],
            decreases token_ids@.len() - i,
        {
            purchases.push(
                Purchase {
                    token_id: token_ids[i].clone(),
                    tax_amount: tax,
                    msgs: clone_payments(&split.msgs),
                    purchaser: info.sender.clone(),
                },
            );
            i += 1;
        }
        assert(view_seq(purchases@) =~= wanted);
        let count: u128 = token_ids.len() as u128;
        let mut state = match &self.state {
            Some(st) => st.clone(),
            None => unreached(),
        };
        assert(split@.remainder * token_ids@.len() >= 0) by (nonlinear_arith);
        state.amount_sold = state.amount_sold + count;
        state.amount_to_send = state.amount_to_send + split.remainder * count;
        self.state = Some(state);
        self.purchases.record(info.sender.clone(), purchases);
    }

    /// Sells tokens to the sender of `info`, who asks for `number_of_tokens`
    /// of them, or for as many as one wallet may still purchase. `split` is
    /// what the split of the price of one token came to. See
    /// [`purchase_step`].
    pub fn execute_purchase(
        &mut self,
        info: &MessageInfo,
        block: &BlockInfo,
        number_of_tokens: Option<u32>,
        split: &FundsSplit,
    ) -> (r: Result<Vec<Command>, ContractError>)
        requires
            old(self).wf(),
        ensures
            final(self).wf(),
            agrees(
                purchase_step(old(self)@, info@, *block, number_of_tokens, split@),
                old(self)@,
                final(self)@,
                r,
            ),
    {
        let ghost before = self@;
        let state = match &self.state {
            Some(st) => st.clone(),
            None => {
                return Err(ContractError::NoOngoingSale);
            },
        };
        if is_expired(state.end_time, block) {
            return Err(ContractError::NoOngoingSale);
        }
        let allowance: u32 = self.purchase_allowance(&info.sender);
        if allowance == 0 {
            return Err(ContractError::PurchaseLimitReached);
        }
        let wanted: u32 = tokens_wanted(allowance, number_of_tokens);
        let available: usize = self.available_tokens.len();
        let count: usize = if (wanted as usize) < available {
            wanted as usize
        } else {
            available
        };
        proof {
            lemma_first_after_split(before.tokens, wanted as int);
        }
        let (tax, required) = match quote_purchase(&state, &info.funds, count, split) {
            Ok(q) => q,
            Err(e) => {
                return Err(e);
            },
        };
        let token_ids = self.available_tokens.take_first(wanted as usize);
        self.purchase_tokens(info, token_ids, tax, split);
        proof {
            lemma_purchase_wf(
                before,
                state@,
                sold(state@, count as nat, split@.remainder),
                info@.sender,
                first_n(before.tokens, wanted as int),
                after_n(before.tokens, wanted as int),
                tax as nat,
                split@.msgs,
            );
        }
        Ok(refund_overpayment(info, &Coin { denom: state.price.denom.clone(), amount: required }))
    }

    /// Sells the token `token_id` to the sender of `info`. `split` is what the
    /// split of the price of one token came to. See
    /// [`purchase_by_token_id_step`].
    pub fn execute_purchase_by_token_id(
        &mut self,
        info: &MessageInfo,
        block: &BlockInfo,
        token_id: String,
        split: &FundsSplit,
    ) -> (r: Result<Vec<Command>, ContractError>)
        requires
            old(self).wf(),
        ensures
            final(self).wf(),
            agrees(
                purchase_by_token_id_step(old(self)@, info@, *block, token_id@, split@),
                old(self)@,
                final(self)@,
                r,
            ),
    {
        let ghost before = self@;
        let state = match &self.state {
            Some(st) => st.clone(),
            None => {
                return Err(ContractError::NoOngoingSale);
            },
        };
        if is_expired(state.end_time, block) {
            return Err(ContractError::NoOngoingSale);
        }
        if !self.available_tokens.has(&token_id) {
            return Err(ContractError::TokenNotAvailable);
        }
        if self.purchase_allowance(&info.sender) == 0 {
            return Err(ContractError::PurchaseLimitReached);
        }
        let (tax, required) = match quote_purchase(&state, &info.funds, 1, split) {
            Ok(q) => q,
            Err(e) => {
                return Err(e);
            },
        };
        proof {
            lemma_one_token_split(before.tokens, token_id@);
        }
        self.available_tokens.remove(&token_id);
        let mut token_ids: Vec<String> = Vec::new();
        token_ids.push(token_id);
        assert(view_seq(token_ids@) =~= seq![token_id@]);
        self.purchase_tokens(info, token_ids, tax, split);
        proof {
            lemma_purchase_wf(
                before,
                state@,
                sold(state@, 1, split@.remainder),
                info@.sender,
                seq![token_id@],
                without_token(before.tokens, token_id@),
                tax as nat,
                split@.msgs,
            );
        }
        Ok(refund_overpayment(info, &Coin { denom: state.price.denom.clone(), amount: required }))
    }
}

} // verus!
