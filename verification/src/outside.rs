use crate::coin::{
    coins_less, holds_coins, is_first_of_denom, payments_carry_coins, payments_total, view_seq,
    BlockInfo, Coin, MessageInfo, Payment,
};
use crate::error::ContractError;
use vstd::prelude::*;

verus! {

/// Nanoseconds in a millisecond.
pub const NANOS_PER_MILLI: u64 = 1_000_000;

/// The start of a sale in milliseconds: the requested one, or else the
/// millisecond after that of the current block.
pub open spec fn start_millis(block: BlockInfo, start_time: Option<u64>) -> int {
    match start_time {
        Some(t) => t as int,
        None => block.time / NANOS_PER_MILLI + 1,
    }
}

/// The nanoseconds of an expiration given in milliseconds, where they fit in
/// 64 bits.
pub open spec fn expiration_nanos(time: u64) -> Result<u64, ContractError> {
    if time <= u64::MAX / NANOS_PER_MILLI {
        Ok((time * NANOS_PER_MILLI) as u64)
    } else {
        Err(ContractError::InvalidExpirationTime)
    }
}

/// The start of a sale in nanoseconds, which must lie after the time of the
/// current block.
pub open spec fn start_nanos(block: BlockInfo, start_time: Option<u64>) -> Result<u64, ContractError> {
    if start_millis(block, start_time) > u64::MAX / NANOS_PER_MILLI {
        Err(ContractError::InvalidExpirationTime)
    } else if start_millis(block, start_time) * NANOS_PER_MILLI <= block.time {
        Err(
            ContractError::StartTimeInThePast {
                current_time: block.time / NANOS_PER_MILLI,
                current_block: block.height,
            },
        )
    } else {
        Ok((start_millis(block, start_time) * NANOS_PER_MILLI) as u64)
    }
}

/// Calls `cosmwasm_std::has_coins`, which looks for the first coin in the
/// required currency and compares its amount with the required one.
#[verifier::external_body]
pub(crate) fn has_coins(coins: &Vec<Coin>, required: &Coin) -> (r: bool)
    ensures
        r == holds_coins(view_seq(coins@), required@),
{
    let held: Vec<cosmwasm_std::Coin> = coins
        .iter()
        .map(|c| cosmwasm_std::Coin::new(c.amount, c.denom.clone()))
        .collect();
    let wanted = cosmwasm_std::Coin::new(required.amount, required.denom.clone());
    cosmwasm_std::has_coins(&held, &wanted)
}

/// Calls `andromeda_std::common::deduct_funds` on coins whose first coin in
/// the required currency covers the required amount. It then takes the
/// amount from that coin, leaves the others as they are and succeeds.
#[verifier::external_body]
pub(crate) fn deduct_funds(coins: &mut Vec<Coin>, required: &Coin) -> (ok: bool)
    requires
        holds_coins(view_seq(old(coins)@), required@),
    ensures
        ok,
        forall|i: int|
            is_first_of_denom(view_seq(old(coins)@), required@.denom, i) ==> view_seq(
                final(coins)@,
            ) == coins_less(view_seq(old(coins)@), required@, i),
{
    let mut held: Vec<cosmwasm_std::Coin> = coins
        .iter()
        .map(|c| cosmwasm_std::Coin::new(c.amount, c.denom.clone()))
        .collect();
    let wanted = cosmwasm_std::Coin::new(required.amount, required.denom.clone());
    let ok = andromeda_std::common::deduct_funds(&mut held, &wanted).is_ok();
    *coins = held.into_iter().map(|c| Coin { denom: c.denom, amount: c.amount.u128() }).collect();
    ok
}

/// Calls `andromeda_std::common::rates::get_tax_amount`, which adds up the
/// first coin of every payment and subtracts what was deducted from the base
/// amount. The inputs on which it would panic are left out: a payment
/// without coins, and amounts whose sums or differences leave their range.
#[verifier::external_body]
pub(crate) fn get_tax_amount(msgs: &Vec<Payment>, base_amount: u128, remaining_amount: u128) -> (tax:
    u128)
    requires
        remaining_amount <= base_amount,
        payments_carry_coins(view_seq(msgs@)),
        payments_total(view_seq(msgs@)) <= u128::MAX,
        payments_total(view_seq(msgs@)) >= base_amount - remaining_amount,
    ensures
        tax == payments_total(view_seq(msgs@)) - (base_amount - remaining_amount),
{
    let sends: Vec<cosmwasm_std::SubMsg> = msgs
        .iter()
        .map(|p| cosmwasm_std::SubMsg::new(cosmwasm_std::BankMsg::Send {
            to_address: p.to_address.clone(),
            amount: p.amount.iter().map(|c| cosmwasm_std::Coin::new(c.amount, c.denom.clone())).collect(),
        }))
        .collect();
    andromeda_std::common::rates::get_tax_amount(
        &sends,
        cosmwasm_std::Uint128::new(base_amount),
        cosmwasm_std::Uint128::new(remaining_amount),
    ).u128()
}

/// Calls `cw_utils::nonpayable`, which accepts a call exactly when no coins
/// came with it.
#[verifier::external_body]
pub(crate) fn nonpayable(info: &MessageInfo) -> (r: Result<(), ContractError>)
    ensures
        r == if info.funds@.len() == 0 {
            Ok::<(), ContractError>(())
        } else {
            Err::<(), ContractError>(ContractError::NonPayable)
        },
{
    let outside = cosmwasm_std::MessageInfo {
        sender: cosmwasm_std::Addr::unchecked(info.sender.clone()),
        funds: info.funds.iter().map(|c| cosmwasm_std::Coin::new(c.amount, c.denom.clone())).collect(),
    };
    match cw_utils::nonpayable(&outside) {
        Ok(()) => Ok(()),
        Err(_) => Err(ContractError::NonPayable),
    }
}

/// Calls `cw_utils::Expiration::is_expired` on an expiration at a time: it
/// has expired once the block's time has reached it.
#[verifier::external_body]
pub(crate) fn is_expired(end_time: u64, block: &BlockInfo) -> (r: bool)
    ensures
        r == (block.time >= end_time),
{
    let at = cw_utils::Expiration::AtTime(cosmwasm_std::Timestamp::from_nanos(end_time));
    at.is_expired(&cosmwasm_std::BlockInfo {
        height: block.height,
        time: cosmwasm_std::Timestamp::from_nanos(block.time),
        chain_id: String::new(),
    })
}

/// Calls `andromeda_std::common::expiration::expiration_from_milliseconds`,
/// which turns milliseconds into the nanoseconds of an expiration at a time,
/// and refuses a time whose nanoseconds do not fit in 64 bits.
#[verifier::external_body]
pub(crate) fn expiration_from_milliseconds(time: u64) -> (r: Result<u64, ContractError>)
    ensures
        r == expiration_nanos(time),
{
    let millis = andromeda_std::common::Milliseconds(time);
    match andromeda_std::common::expiration::expiration_from_milliseconds(millis) {
        Ok(cw_utils::Expiration::AtTime(t)) => Ok(t.nanos()),
        _ => Err(ContractError::InvalidExpirationTime),
    }
}

/// Calls `andromeda_std::common::expiration::get_and_validate_start_time`.
/// It takes the requested start, or else the millisecond after the block's,
/// turns it into nanoseconds as `expiration_from_milliseconds` does, and
/// refuses a start that is not later than the block's time.
#[verifier::external_body]
pub(crate) fn get_and_validate_start_time(block: &BlockInfo, start_time: Option<u64>) -> (r: Result<
    u64,
    ContractError,
>)
    ensures
        r == start_nanos(*block, start_time),
{
    let time = cosmwasm_std::Timestamp::from_nanos(block.time);
    let block = cosmwasm_std::BlockInfo { height: block.height, time, chain_id: String::new() };
    let contract = cosmwasm_std::ContractInfo { address: cosmwasm_std::Addr::unchecked("") };
    let env = cosmwasm_std::Env { block, transaction: None, contract };
    let start = start_time.map(andromeda_std::common::Milliseconds);
    match andromeda_std::common::expiration::get_and_validate_start_time(&env, start) {
        Ok((cw_utils::Expiration::AtTime(t), _)) => Ok(t.nanos()),
        Err(andromeda_std::error::ContractError::StartTimeInThePast { current_time, current_block }) =>
            Err(ContractError::StartTimeInThePast { current_time, current_block }),
        _ => Err(ContractError::InvalidExpirationTime),
    }
}

} // verus!
