use crate::coin::{view_seq, BlockInfo, Coin, MessageInfo};
use crate::contract::{agrees, Crowdfund};
use crate::error::ContractError;
use crate::model::{apply, Call};
use crate::state::{Command, CrowdfundMintMsg, FundsSplit, Recipient};
use vstd::prelude::*;

verus! {

/// What an operation reads beside the engine and the message: who called
/// and with which coins, the block of the call, and what the caller found
/// out from others.
#[derive(Debug, PartialEq, Eq)]
pub struct ExecuteContext {
    pub info: MessageInfo,
    pub block: BlockInfo,
    /// Whether the sender owns the engine.
    pub is_owner: bool,
    /// The address of the engine itself.
    pub contract_address: String,
    /// What the split of the price of one token came to. Purchases read it.
    pub split: FundsSplit,
    /// Whether the address of a new token contract answers as one. The
    /// change of the token contract reads it.
    pub is_token_contract: bool,
    /// Whether an end condition of the caller's own holds. The end of the
    /// sale reads it.
    pub end_condition_met: bool,
}

/// A message to the engine.
#[derive(Debug, PartialEq, Eq)]
pub enum ExecuteMsg {
    /// Mints tokens for a future sale.
    Mint(Vec<CrowdfundMintMsg>),
    /// Opens a sale. Times are given in milliseconds.
    StartSale {
        start_time: Option<u64>,
        end_time: u64,
        price: Coin,
        min_tokens_sold: u128,
        max_amount_per_wallet: Option<u32>,
        recipient: Recipient,
    },
    /// Points the engine at another token contract.
    UpdateTokenContract { address: String },
    /// Purchases tokens in the open sale.
    Purchase { number_of_tokens: Option<u32> },
    /// Purchases the token with the given identifier.
    PurchaseByTokenId { token_id: String },
    /// Claims the refund of the sender.
    ClaimRefund {},
    /// Ends the sale by one batch of at most `limit` operations.
    EndSale { limit: Option<u32> },
}

/// The call that a message makes in its context.
pub open spec fn call_of(ctx: ExecuteContext, msg: ExecuteMsg) -> Call {
    match msg {
        ExecuteMsg::Mint(mint_msgs) => Call::Mint {
            info: ctx.info@,
            is_owner: ctx.is_owner,
            mints: view_seq(mint_msgs@),
            engine: ctx.contract_address@,
        },
        ExecuteMsg::StartSale {
            start_time,
            end_time,
            price,
            min_tokens_sold,
            max_amount_per_wallet,
            recipient,
        } => Call::StartSale {
            info: ctx.info@,
            is_owner: ctx.is_owner,
            block: ctx.block,
            start_time,
            end_time,
            price: price@,
            min_tokens_sold: min_tokens_sold as nat,
            max_amount_per_wallet,
            recipient: recipient@,
        },
        ExecuteMsg::UpdateTokenContract { address } => Call::UpdateTokenContract {
            info: ctx.info@,
            is_owner: ctx.is_owner,
            address: address@,
            is_token_contract: ctx.is_token_contract,
        },
        ExecuteMsg::Purchase { number_of_tokens } => Call::Purchase {
            info: ctx.info@,
            block: ctx.block,
            number_of_tokens,
            split: ctx.split@,
        },
        ExecuteMsg::PurchaseByTokenId { token_id } => Call::PurchaseByTokenId {
            info: ctx.info@,
            block: ctx.block,
            token_id: token_id@,
            split: ctx.split@,
        },
        ExecuteMsg::ClaimRefund {  } => Call::ClaimRefund { info: ctx.info@, block: ctx.block },
        ExecuteMsg::EndSale { limit } => Call::EndSale {
            info: ctx.info@,
            is_owner: ctx.is_owner,
            block: ctx.block,
            end_condition_met: ctx.end_condition_met,
            limit,
        },
    }
}

impl Crowdfund {
    /// Carries out a message: the operation that the message names, with
    /// what the context holds for it. See [`apply`].
    pub fn handle_execute(&mut self, ctx: &ExecuteContext, msg: ExecuteMsg) -> (r: Result<
        Vec<Command>,
        ContractError,
    >)
        requires
            old(self).wf(),
        ensures
            final(self).wf(),
            agrees(apply(old(self)@, call_of(*ctx, msg)), old(self)@, final(self)@, r),
    {
        match msg {
            ExecuteMsg::Mint(mint_msgs) => self.execute_mint(
                &ctx.info,
                ctx.is_owner,
                mint_msgs,
                &ctx.contract_address,
            ),
            ExecuteMsg::StartSale {
                start_time,
                end_time,
                price,
                min_tokens_sold,
                max_amount_per_wallet,
                recipient,
            } => self.execute_start_sale(
                &ctx.info,
                ctx.is_owner,
                &ctx.block,
                start_time,
                end_time,
                price,
                min_tokens_sold,
                max_amount_per_wallet,
                recipient,
            ),
            ExecuteMsg::UpdateTokenContract { address } => self.execute_update_token_contract(
                &ctx.info,
                ctx.is_owner,
                address,
                ctx.is_token_contract,
            ),
            ExecuteMsg::Purchase { number_of_tokens } => self.execute_purchase(
                &ctx.info,
                &ctx.block,
                number_of_tokens,
                &ctx.split,
            ),
            ExecuteMsg::PurchaseByTokenId { token_id } => self.execute_purchase_by_token_id(
                &ctx.info,
                &ctx.block,
                token_id,
                &ctx.split,
            ),
            ExecuteMsg::ClaimRefund {  } => self.execute_claim_refund(&ctx.info, &ctx.block),
            ExecuteMsg::EndSale { limit } => self.execute_end_sale(
                &ctx.info,
                ctx.is_owner,
                &ctx.block,
                ctx.end_condition_met,
                limit,
            ),
        }
    }
}

} // verus!
