use crate::coin::{
    coins_less, holds_coins, is_first_of_denom, payments_carry_coins, payments_total, BlockInfo,
    CoinView, MessageInfoView, PaymentView,
};
use crate::error::ContractError;
use crate::ledger::{
    entry_index, has_buyer, ledger_wf, purchases_of, with_purchases, without_buyer,
    LedgerEntryView, PurchaseView,
};
use crate::outside::{expiration_nanos, start_nanos};
use crate::registry::{after_n, first_n, with_token, without_token};
use crate::state::{
    send_command, CommandView, ConfigView, FundsSplitView, MintView, RecipientView, SalePhase,
    StateView,
};
use crate::text::ascending;
use vstd::prelude::*;

verus! {

/// Largest number of ledger entries or tokens handled by one settlement call.
pub const MAX_LIMIT: u32 = 100;

/// Number of ledger entries or tokens handled by one settlement call when the
/// caller names no limit.
pub const DEFAULT_LIMIT: u32 = 50;

/// Largest number of tokens that one mint call accepts.
pub const MAX_MINT_LIMIT: u32 = 100;

/// The wallet limit of a sale that names none.
pub const DEFAULT_MAX_AMOUNT_PER_WALLET: u32 = 1;

/// Everything the engine keeps: its settings, whether a sale was ever
/// conducted, the sale that is open or being settled, the tokens available
/// for sale in ascending order, and the purchases by buyer.
pub struct CrowdfundView {
    pub config: ConfigView,
    pub sale_conducted: bool,
    pub state: Option<StateView>,
    pub tokens: Seq<Seq<char>>,
    pub ledger: Seq<LedgerEntryView>,
}

/// What an operation comes to: the engine after it and the commands it hands
/// out, or the reason for which it was refused.
pub type Step = Result<(CrowdfundView, Seq<CommandView>), ContractError>;

/// Whether no token was purchased twice and no purchased token is still
/// available.
pub open spec fn tokens_apart(v: CrowdfundView) -> bool {
    &&& forall|i: int, a: int, j: int, b: int|
        #![trigger v.ledger[i].purchases[a], v.ledger[j].purchases[b]]
        0 <= i < v.ledger.len() && 0 <= a < v.ledger[i].purchases.len() && 0 <= j < v.ledger.len()
            && 0 <= b < v.ledger[j].purchases.len() && (i != j || a != b)
            ==> v.ledger[i].purchases[a].token_id != v.ledger[j].purchases[b].token_id
    &&& forall|i: int, a: int, k: int|
        #![trigger v.ledger[i].purchases[a], v.tokens[k]]
        0 <= i < v.ledger.len() && 0 <= a < v.ledger[i].purchases.len() && 0 <= k < v.tokens.len()
            ==> v.ledger[i].purchases[a].token_id != v.tokens[k]
}

/// Whether no buyer holds more purchases than one wallet may.
pub open spec fn within_wallet_limit(ledger: Seq<LedgerEntryView>, limit: nat) -> bool {
    forall|i: int| 0 <= i < ledger.len() ==> (#[trigger] ledger[i]).purchases.len() <= limit
}

/// Whether the engine is in a state that its operations can reach.
pub open spec fn wf(v: CrowdfundView) -> bool {
    &&& ascending(v.tokens)
    &&& ledger_wf(v.ledger)
    &&& tokens_apart(v)
    &&& match v.state {
        Some(st) => st.max_amount_per_wallet >= 1 && within_wallet_limit(
            v.ledger,
            st.max_amount_per_wallet,
        ),
        None => v.ledger.len() == 0,
    }
}

/// The batch size used for a requested limit.
pub open spec fn effective_limit(limit: Option<u32>) -> u32 {
    match limit {
        Some(l) => if l < MAX_LIMIT {
            l
        } else {
            MAX_LIMIT
        },
        None => DEFAULT_LIMIT,
    }
}

// Minting

/// The owner of a token to mint: the named one, or else the engine itself.
pub open spec fn mint_owner(m: MintView, engine: Seq<char>) -> Seq<char> {
    match m.owner {
        Some(o) => o,
        None => engine,
    }
}

/// The command that mints one token.
pub open spec fn mint_command(m: MintView, engine: Seq<char>) -> CommandView {
    CommandView::Mint {
        token_id: m.token_id,
        owner: mint_owner(m, engine),
        token_uri: m.token_uri,
        publisher: m.publisher,
    }
}

/// The available tokens after the tokens of `mints` that the engine owns
/// were registered.
pub open spec fn minted_tokens(
    tokens: Seq<Seq<char>>,
    mints: Seq<MintView>,
    engine: Seq<char>,
) -> Seq<Seq<char>>
    decreases mints.len(),
{
    if mints.len() == 0 {
        tokens
    } else {
        let before = minted_tokens(tokens, mints.drop_last(), engine);
        if mint_owner(mints.last(), engine) == engine {
            with_token(before, mints.last().token_id)
        } else {
            before
        }
    }
}

/// Minting: refused for a caller who sends coins or is not the owner, for
/// too many tokens at once, while a sale exists, and after a sale where the
/// settings say so. Every token gets its mint command, and those that the
/// engine owns become available.
pub open spec fn mint_step(
    v: CrowdfundView,
    info: MessageInfoView,
    is_owner: bool,
    mints: Seq<MintView>,
    engine: Seq<char>,
) -> Step {
    if info.funds.len() > 0 {
        Err(ContractError::NonPayable)
    } else if mints.len() > MAX_MINT_LIMIT {
        Err(ContractError::TooManyMintMessages { limit: MAX_MINT_LIMIT })
    } else if !is_owner {
        Err(ContractError::Unauthorized)
    } else if v.state is Some {
        Err(ContractError::SaleStarted)
    } else if !v.config.can_mint_after_sale && v.sale_conducted {
        Err(ContractError::CannotMintAfterSaleConducted)
    } else {
        Ok(
            (
                CrowdfundView { tokens: minted_tokens(v.tokens, mints, engine), ..v },
                Seq::new(mints.len(), |i: int| mint_command(mints[i], engine)),
            ),
        )
    }
}

/// Changing the token contract: only for the owner, without coins, while no
/// token is available, and to an address that answers as a token contract.
pub open spec fn update_token_contract_step(
    v: CrowdfundView,
    info: MessageInfoView,
    is_owner: bool,
    address: Seq<char>,
    is_token_contract: bool,
) -> Step {
    if info.funds.len() > 0 {
        Err(ContractError::NonPayable)
    } else if !is_owner || v.tokens.len() > 0 || !is_token_contract {
        Err(ContractError::Unauthorized)
    } else {
        Ok(
            (
                CrowdfundView {
                    config: ConfigView { token_address: address, ..v.config },
                    ..v
                },
                Seq::empty(),
            ),
        )
    }
}

// Opening a sale

/// The number of tokens that one wallet may purchase in a sale that was
/// opened with the limit `max_amount_per_wallet`: at least one token, and one
/// token where no limit was given.
pub open spec fn wallet_limit(max_amount_per_wallet: Option<u32>) -> nat {
    match max_amount_per_wallet {
        Some(m) => if m >= 1 {
            m as nat
        } else {
            1
        },
        None => DEFAULT_MAX_AMOUNT_PER_WALLET as nat,
    }
}

/// The record of a sale that was just opened.
pub open spec fn opened_sale(
    end_time: u64,
    price: CoinView,
    min_tokens_sold: nat,
    max_amount_per_wallet: Option<u32>,
    recipient: RecipientView,
) -> StateView {
    StateView {
        end_time: end_time as nat,
        price,
        min_tokens_sold,
        max_amount_per_wallet: wallet_limit(max_amount_per_wallet),
        amount_sold: 0,
        amount_to_send: 0,
        amount_transferred: 0,
        recipient,
    }
}

/// Opening a sale: only for the owner, without coins, with a start after the
/// current block and an end after the start, and while no sale exists. Every
/// wallet may purchase at least one token.
pub open spec fn start_sale_step(
    v: CrowdfundView,
    info: MessageInfoView,
    is_owner: bool,
    block: BlockInfo,
    start_time: Option<u64>,
    end_time: u64,
    price: CoinView,
    min_tokens_sold: nat,
    max_amount_per_wallet: Option<u32>,
    recipient: RecipientView,
) -> Step {
    if info.funds.len() > 0 {
        Err(ContractError::NonPayable)
    } else if !is_owner {
        Err(ContractError::Unauthorized)
    } else {
        match start_nanos(block, start_time) {
            Err(e) => Err(e),
            Ok(start) => match expiration_nanos(end_time) {
                Err(e) => Err(e),
                Ok(end) => if end <= start {
                    Err(ContractError::StartTimeAfterEndTime)
                } else if v.state is Some {
                    Err(ContractError::SaleStarted)
                } else {
                    Ok(
                        (
                            CrowdfundView {
                                sale_conducted: true,
                                state: Some(
                                    opened_sale(
                                        end,
                                        price,
                                        min_tokens_sold,
                                        max_amount_per_wallet,
                                        recipient,
                                    ),
                                ),
                                ..v
                            },
                            Seq::empty(),
                        ),
                    )
                },
            },
        }
    }
}

// Purchases

/// Whether the tax of a split can be computed: the remainder is no more than
/// the price, every payment carries a coin, and the payments add up to an
/// amount in range that is no less than what was taken off the price.
pub open spec fn split_ok(price: nat, split: FundsSplitView) -> bool {
    &&& split.remainder <= price
    &&& payments_carry_coins(split.msgs)
    &&& payments_total(split.msgs) <= u128::MAX
    &&& payments_total(split.msgs) >= price - split.remainder
}

/// The tax on one token: what the payments of the split come to beyond what
/// was taken off the price.
pub open spec fn tax_of(price: nat, split: FundsSplitView) -> nat {
    (payments_total(split.msgs) - (price - split.remainder)) as nat
}

/// The records of the purchase of the tokens `ids` by `buyer`.
pub open spec fn new_purchases(
    ids: Seq<Seq<char>>,
    tax: nat,
    msgs: Seq<PaymentView>,
    buyer: Seq<char>,
) -> Seq<PurchaseView> {
    Seq::new(
        ids.len(),
        |i: int| PurchaseView { token_id: ids[i], tax_amount: tax, msgs, purchaser: buyer },
    )
}

/// The coins that are left of `funds` once `required` was taken from the
/// first coin of its currency.
pub open spec fn change(funds: Seq<CoinView>, required: CoinView) -> Seq<CoinView> {
    coins_less(funds, required, choose|i: int| is_first_of_denom(funds, required.denom, i))
}

/// The refund of an overpayment: all coins that are left go back to the
/// buyer, where the coin that paid still holds something.
pub open spec fn overpayment_refund(info: MessageInfoView, required: CoinView) -> Seq<CommandView> {
    let left = change(info.funds, required);
    if holds_coins(left, CoinView { denom: required.denom, amount: 1 }) {
        seq![CommandView::Send { to_address: info.sender, amount: left }]
    } else {
        Seq::empty()
    }
}

/// The number of tokens that a buyer who holds `owned` may still purchase.
pub open spec fn purchase_allowance(st: StateView, owned: nat) -> int {
    st.max_amount_per_wallet - owned
}

/// The number of tokens that a buyer asks for, who may purchase `allowance`.
pub open spec fn wanted_tokens(allowance: int, number_of_tokens: Option<u32>) -> int {
    match number_of_tokens {
        Some(n) => if n < allowance {
            n as int
        } else {
            allowance
        },
        None => allowance,
    }
}

/// What a purchase costs: the tax on each token, and the payment for all.
pub struct Quote {
    pub tax: nat,
    pub required: nat,
}

/// The cost of `n` tokens for a buyer who sent `funds`. It is refused where
/// there is no token to purchase, where the coins do not cover the price of
/// the tokens or, later, the price and the tax, and where an amount leaves
/// its range.
pub open spec fn purchase_quote(
    st: StateView,
    funds: Seq<CoinView>,
    n: nat,
    split: FundsSplitView,
) -> Result<Quote, ContractError> {
    let price = st.price.amount;
    let denom = st.price.denom;
    if n == 0 {
        Err(ContractError::AllTokensPurchased)
    } else if price * n > u128::MAX {
        Err(ContractError::Overflow)
    } else if !holds_coins(funds, CoinView { denom, amount: price * n }) {
        Err(ContractError::InsufficientFunds)
    } else if !split_ok(price, split) {
        Err(ContractError::Overflow)
    } else {
        let tax = tax_of(price, split);
        if tax * n > u128::MAX || st.amount_to_send + split.remainder * n > u128::MAX
            || st.amount_sold + n > u128::MAX || price * n + tax * n > u128::MAX {
            Err(ContractError::Overflow)
        } else if !holds_coins(funds, CoinView { denom, amount: price * n + tax * n }) {
            Err(ContractError::InsufficientFunds)
        } else {
            Ok(Quote { tax, required: price * n + tax * n })
        }
    }
}

/// The record of a sale after `n` more tokens were sold.
pub open spec fn sold(st: StateView, n: nat, remainder: nat) -> StateView {
    StateView {
        amount_sold: st.amount_sold + n,
        amount_to_send: st.amount_to_send + remainder * n,
        ..st
    }
}

/// The engine after `buyer` purchased the tokens `ids`, which leaves the
/// tokens `rest` available: the sale counts the tokens and what is left of
/// their price for the recipient, and the ledger records each token with its
/// tax.
pub open spec fn purchased(
    v: CrowdfundView,
    st: StateView,
    buyer: Seq<char>,
    ids: Seq<Seq<char>>,
    rest: Seq<Seq<char>>,
    tax: nat,
    split: FundsSplitView,
) -> CrowdfundView {
    CrowdfundView {
        state: Some(sold(st, ids.len(), split.remainder)),
        tokens: rest,
        ledger: with_purchases(v.ledger, buyer, new_purchases(ids, tax, split.msgs, buyer)),
        ..v
    }
}

/// The purchase of the tokens `ids`, which leaves the tokens `rest`
/// available: refused where [`purchase_quote`] says so. What was paid beyond
/// price and tax goes back to the buyer.
pub open spec fn purchase_tokens_step(
    v: CrowdfundView,
    st: StateView,
    info: MessageInfoView,
    ids: Seq<Seq<char>>,
    rest: Seq<Seq<char>>,
    split: FundsSplitView,
) -> Step {
    match purchase_quote(st, info.funds, ids.len(), split) {
        Err(e) => Err(e),
        Ok(q) => Ok(
            (
                purchased(v, st, info.sender, ids, rest, q.tax, split),
                overpayment_refund(
                    info,
                    CoinView { denom: st.price.denom, amount: q.required },
                ),
            ),
        ),
    }
}

/// The purchase of a number of tokens: refused without a sale, after its
/// end, and for a buyer who holds as many tokens as one wallet may. The
/// buyer gets the first of the available tokens, as many as asked for, as
/// the wallet limit still allows and as there are.
pub open spec fn purchase_step(
    v: CrowdfundView,
    info: MessageInfoView,
    block: BlockInfo,
    number_of_tokens: Option<u32>,
    split: FundsSplitView,
) -> Step {
    match v.state {
        None => Err(ContractError::NoOngoingSale),
        Some(st) => if block.time >= st.end_time {
            Err(ContractError::NoOngoingSale)
        } else {
            let allowance = purchase_allowance(st, purchases_of(v.ledger, info.sender).len());
            if allowance <= 0 {
                Err(ContractError::PurchaseLimitReached)
            } else {
                let wanted = wanted_tokens(allowance, number_of_tokens);
                purchase_tokens_step(
                    v,
                    st,
                    info,
                    first_n(v.tokens, wanted),
                    after_n(v.tokens, wanted),
                    split,
                )
            }
        },
    }
}

/// The purchase of one named token: refused without a sale, after its end,
/// for a token that is not available, and for a buyer who holds as many
/// tokens as one wallet may.
pub open spec fn purchase_by_token_id_step(
    v: CrowdfundView,
    info: MessageInfoView,
    block: BlockInfo,
    token_id: Seq<char>,
    split: FundsSplitView,
) -> Step {
    match v.state {
        None => Err(ContractError::NoOngoingSale),
        Some(st) => if block.time >= st.end_time {
            Err(ContractError::NoOngoingSale)
        } else if !v.tokens.contains(token_id) {
            Err(ContractError::TokenNotAvailable)
        } else if purchase_allowance(st, purchases_of(v.ledger, info.sender).len()) <= 0 {
            Err(ContractError::PurchaseLimitReached)
        } else {
            purchase_tokens_step(
                v,
                st,
                info,
                seq![token_id],
                without_token(v.tokens, token_id),
                split,
            )
        },
    }
}

// Refunds

/// What a buyer paid for the purchases `ps`: price and tax of each.
pub open spec fn refund_amount(ps: Seq<PurchaseView>, price: nat) -> nat
    decreases ps.len(),
{
    if ps.len() == 0 {
        0
    } else {
        refund_amount(ps.drop_last(), price) + ps.last().tax_amount + price
    }
}

/// The refund of one ledger entry: one payment of all that the buyer paid,
/// and no payment of nothing.
pub open spec fn refund_command(e: LedgerEntryView, price: CoinView) -> Seq<CommandView> {
    let amount = refund_amount(e.purchases, price.amount);
    if amount > 0 {
        seq![
            CommandView::Send {
                to_address: e.buyer,
                amount: seq![CoinView { denom: price.denom, amount }],
            },
        ]
    } else {
        Seq::empty()
    }
}

/// The refunds of the ledger entries `entries`, in their order.
pub open spec fn refunds(entries: Seq<LedgerEntryView>, price: CoinView) -> Seq<CommandView>
    decreases entries.len(),
{
    if entries.len() == 0 {
        Seq::empty()
    } else {
        refunds(entries.drop_last(), price) + refund_command(entries.last(), price)
    }
}

/// Whether the refund of every entry is an amount in range.
pub open spec fn refunds_fit(entries: Seq<LedgerEntryView>, price: nat) -> bool {
    forall|i: int|
        0 <= i < entries.len() ==> refund_amount((#[trigger] entries[i]).purchases, price)
            <= u128::MAX
}

/// A buyer's claim of a refund: refused with coins, without a sale, before
/// its end, where the minimum was sold, for a buyer without purchases, and
/// where the refund leaves the range of amounts. The buyer's entry leaves
/// the ledger.
pub open spec fn claim_refund_step(v: CrowdfundView, info: MessageInfoView, block: BlockInfo) -> Step {
    if info.funds.len() > 0 {
        Err(ContractError::NonPayable)
    } else {
        match v.state {
            None => Err(ContractError::NoOngoingSale),
            Some(st) => if block.time < st.end_time {
                Err(ContractError::SaleNotEnded)
            } else if st.amount_sold >= st.min_tokens_sold {
                Err(ContractError::MinSalesExceeded)
            } else if !has_buyer(v.ledger, info.sender) {
                Err(ContractError::NoPurchases)
            } else {
                let e = v.ledger[entry_index(v.ledger, info.sender)];
                if refund_amount(e.purchases, st.price.amount) > u128::MAX {
                    Err(ContractError::Overflow)
                } else {
                    Ok(
                        (
                            CrowdfundView { ledger: without_buyer(v.ledger, info.sender), ..v },
                            refund_command(e, st.price),
                        ),
                    )
                }
            },
        }
    }
}

// Settlement

/// The commands that destroy the tokens `tokens`.
pub open spec fn burns(tokens: Seq<Seq<char>>) -> Seq<CommandView> {
    Seq::new(tokens.len(), |i: int| CommandView::BurnToken { token_id: tokens[i] })
}

/// The delivery of one purchase: the payments that its split calls for, then
/// the transfer of the token to the buyer.
pub open spec fn purchase_delivery(p: PurchaseView) -> Seq<CommandView> {
    Seq::new(p.msgs.len(), |i: int| send_command(p.msgs[i])).push(
        CommandView::TransferToken { recipient: p.purchaser, token_id: p.token_id },
    )
}

/// The deliveries of the purchases `ps`, in their order.
pub open spec fn deliveries_of(ps: Seq<PurchaseView>) -> Seq<CommandView>
    decreases ps.len(),
{
    if ps.len() == 0 {
        Seq::empty()
    } else {
        deliveries_of(ps.drop_last()) + purchase_delivery(ps.last())
    }
}

/// The deliveries of the ledger entries `entries`, in their order.
pub open spec fn deliveries(entries: Seq<LedgerEntryView>) -> Seq<CommandView>
    decreases entries.len(),
{
    if entries.len() == 0 {
        Seq::empty()
    } else {
        deliveries(entries.drop_last()) + deliveries_of(entries.last().purchases)
    }
}

/// Whether a sale that ends now is refunded: fewer tokens were sold than
/// the minimum.
pub open spec fn needs_refund(st: StateView) -> bool {
    st.amount_sold < st.min_tokens_sold
}

/// The phase of the life of the sale at a time.
pub open spec fn phase_of(v: CrowdfundView, time: u64) -> SalePhase {
    match v.state {
        None => SalePhase::NoSale,
        Some(st) => if time >= st.end_time || v.tokens.len() == 0 {
            SalePhase::Ended { needs_refund: needs_refund(st) }
        } else {
            SalePhase::Active
        },
    }
}

/// One batch of the refund of a sale: the first buyers of the ledger are
/// refunded and the first available tokens destroyed, as many of each as the
/// limit allows. A batch that finds neither clears the sale.
pub open spec fn refund_batch_step(v: CrowdfundView, st: StateView, limit: Option<u32>) -> Step {
    let k = effective_limit(limit);
    let batch = first_n(v.ledger, k as int);
    let burned = first_n(v.tokens, k as int);
    if k == 0 {
        Err(ContractError::LimitMustNotBeZero)
    } else if !refunds_fit(batch, st.price.amount) {
        Err(ContractError::Overflow)
    } else {
        Ok(
            (
                CrowdfundView {
                    state: if batch.len() == 0 && burned.len() == 0 {
                        None
                    } else {
                        Some(st)
                    },
                    ledger: after_n(v.ledger, k as int),
                    tokens: after_n(v.tokens, k as int),
                    ..v
                },
                refunds(batch, st.price) + burns(burned),
            ),
        )
    }
}

/// The command that forwards the proceeds that wait, if any do.
pub open spec fn forward_command(st: StateView) -> Seq<CommandView> {
    if st.amount_to_send > 0 {
        seq![
            CommandView::ForwardFunds {
                to: st.recipient,
                funds: CoinView { denom: st.price.denom, amount: st.amount_to_send },
            },
        ]
    } else {
        Seq::empty()
    }
}

/// The record of a sale once the proceeds that waited were forwarded.
pub open spec fn forwarded(st: StateView) -> StateView {
    StateView {
        amount_to_send: 0,
        amount_transferred: st.amount_transferred + st.amount_to_send,
        ..st
    }
}

/// One batch of the settlement of a sale. The proceeds that wait are
/// forwarded. Then the purchases of the first buyers of the ledger are
/// delivered, as many buyers as the limit allows; once the ledger is empty,
/// the first available tokens are destroyed instead; and once no token is
/// left either, the sale is cleared.
pub open spec fn settle_batch_step(v: CrowdfundView, st: StateView, limit: Option<u32>) -> Step {
    let k = effective_limit(limit);
    if k == 0 {
        Err(ContractError::LimitMustNotBeZero)
    } else if st.amount_transferred + st.amount_to_send > u128::MAX {
        Err(ContractError::Overflow)
    } else if v.ledger.len() > 0 {
        Ok(
            (
                CrowdfundView {
                    state: Some(forwarded(st)),
                    ledger: after_n(v.ledger, k as int),
                    ..v
                },
                forward_command(st) + deliveries(first_n(v.ledger, k as int)),
            ),
        )
    } else if v.tokens.len() > 0 {
        Ok(
            (
                CrowdfundView {
                    state: Some(forwarded(st)),
                    tokens: after_n(v.tokens, k as int),
                    ..v
                },
                forward_command(st) + burns(first_n(v.tokens, k as int)),
            ),
        )
    } else {
        Ok((CrowdfundView { state: None, ..v }, forward_command(st)))
    }
}

/// Whether a call may end the sale: its end time has passed, no token is
/// left, the owner calls, or the caller's own end condition is met.
pub open spec fn may_end(
    v: CrowdfundView,
    st: StateView,
    is_owner: bool,
    block: BlockInfo,
    end_condition_met: bool,
) -> bool {
    end_condition_met || block.time >= st.end_time || v.tokens.len() == 0 || is_owner
}

/// The record of a sale that ends in the block `block`: a sale that ends
/// before its time has its end time moved to the time of the block, so that
/// nothing is purchased from then on.
pub open spec fn ended(st: StateView, block: BlockInfo) -> StateView {
    StateView {
        end_time: if block.time < st.end_time {
            block.time as nat
        } else {
            st.end_time
        },
        ..st
    }
}

/// Ending a sale: refused with coins. Without a sale, and while the sale may
/// not end, nothing happens. Else the sale has ended for good, and one batch
/// of the refund is done where fewer tokens were sold than the minimum, and
/// one of the settlement where not.
pub open spec fn end_sale_step(
    v: CrowdfundView,
    info: MessageInfoView,
    is_owner: bool,
    block: BlockInfo,
    end_condition_met: bool,
    limit: Option<u32>,
) -> Step {
    if info.funds.len() > 0 {
        Err(ContractError::NonPayable)
    } else {
        match v.state {
            None => Ok((v, Seq::empty())),
            Some(st) => if !may_end(v, st, is_owner, block, end_condition_met) {
                Ok((v, Seq::empty()))
            } else if needs_refund(st) {
                refund_batch_step(v, ended(st, block), limit)
            } else {
                settle_batch_step(v, ended(st, block), limit)
            },
        }
    }
}

// All operations

/// A call of one operation of the engine, with all that the operation reads
/// beside the engine itself.
pub enum Call {
    Mint { info: MessageInfoView, is_owner: bool, mints: Seq<MintView>, engine: Seq<char> },
    UpdateTokenContract {
        info: MessageInfoView,
        is_owner: bool,
        address: Seq<char>,
        is_token_contract: bool,
    },
    StartSale {
        info: MessageInfoView,
        is_owner: bool,
        block: BlockInfo,
        start_time: Option<u64>,
        end_time: u64,
        price: CoinView,
        min_tokens_sold: nat,
        max_amount_per_wallet: Option<u32>,
        recipient: RecipientView,
    },
    Purchase {
        info: MessageInfoView,
        block: BlockInfo,
        number_of_tokens: Option<u32>,
        split: FundsSplitView,
    },
    PurchaseByTokenId {
        info: MessageInfoView,
        block: BlockInfo,
        token_id: Seq<char>,
        split: FundsSplitView,
    },
    ClaimRefund { info: MessageInfoView, block: BlockInfo },
    EndSale {
        info: MessageInfoView,
        is_owner: bool,
        block: BlockInfo,
        end_condition_met: bool,
        limit: Option<u32>,
    },
}

/// What a call comes to.
pub open spec fn apply(v: CrowdfundView, call: Call) -> Step {
    match call {
        Call::Mint { info, is_owner, mints, engine } => mint_step(v, info, is_owner, mints, engine),
        Call::UpdateTokenContract {
            info,
            is_owner,
            address,
            is_token_contract,
        } => update_token_contract_step(v, info, is_owner, address, is_token_contract),
        Call::StartSale {
            info,
            is_owner,
            block,
            start_time,
            end_time,
            price,
            min_tokens_sold,
            max_amount_per_wallet,
            recipient,
        } => start_sale_step(
            v,
            info,
            is_owner,
            block,
            start_time,
            end_time,
            price,
            min_tokens_sold,
            max_amount_per_wallet,
            recipient,
        ),
        Call::Purchase { info, block, number_of_tokens, split } => purchase_step(
            v,
            info,
            block,
            number_of_tokens,
            split,
        ),
        Call::PurchaseByTokenId { info, block, token_id, split } => purchase_by_token_id_step(
            v,
            info,
            block,
            token_id,
            split,
        ),
        Call::ClaimRefund { info, block } => claim_refund_step(v, info, block),
        Call::EndSale { info, is_owner, block, end_condition_met, limit } => end_sale_step(
            v,
            info,
            is_owner,
            block,
            end_condition_met,
            limit,
        ),
    }
}

/// The time of the block in which a call runs, for the calls that read it.
pub open spec fn time_of(call: Call) -> Option<u64> {
    match call {
        Call::Mint { .. } => None,
        Call::UpdateTokenContract { .. } => None,
        Call::StartSale { block, .. } => Some(block.time),
        Call::Purchase { block, .. } => Some(block.time),
        Call::PurchaseByTokenId { block, .. } => Some(block.time),
        Call::ClaimRefund { block, .. } => Some(block.time),
        Call::EndSale { block, .. } => Some(block.time),
    }
}

} // verus!
