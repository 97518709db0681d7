use crowdfund::coin::{BlockInfo, Coin, MessageInfo, Payment};
use crowdfund::contract::Crowdfund;
use crowdfund::error::{ContractError, ErrorKind};
use crowdfund::execute::{ExecuteContext, ExecuteMsg};
use crowdfund::ledger::{Ledger, LedgerEntry, Purchase};
use crowdfund::purchase::{quote_purchase, tokens_wanted, total_payments};
use crowdfund::registry::TokenRegistry;
use crowdfund::settlement::{get_burn_messages, process_refund, resolve_limit};
use crowdfund::state::{
    Command, Config, CrowdfundMintMsg, FundsSplit, Recipient, SalePhase, State, TokenExtension,
};
use crowdfund::text::str_lt;

const DENOM: &str = "uusd";
const ENGINE: &str = "crowdfund";
const MS: u64 = 1_000_000;

fn coin(amount: u128) -> Coin {
    Coin { denom: DENOM.to_string(), amount }
}

fn info(sender: &str, funds: Vec<Coin>) -> MessageInfo {
    MessageInfo { sender: sender.to_string(), funds }
}

fn owner() -> MessageInfo {
    info("owner", vec![])
}

/// A block at a time in milliseconds.
fn block(millis: u64) -> BlockInfo {
    BlockInfo { height: 12_345, time: millis * MS }
}

fn recipient() -> Recipient {
    Recipient { address: "recipient".to_string(), msg: None, ibc_recovery_address: None }
}

fn mint_msg(id: &str) -> CrowdfundMintMsg {
    CrowdfundMintMsg {
        token_id: id.to_string(),
        owner: None,
        token_uri: None,
        extension: TokenExtension { publisher: "publisher".to_string() },
    }
}

/// A split that takes nothing off the price and adds no tax.
fn no_split(price: u128) -> FundsSplit {
    FundsSplit { msgs: vec![], remainder: price }
}

/// A split of a price of 10: a royalty of 1 comes off the price, and a tax
/// of 2 comes on top.
fn taxed_split() -> FundsSplit {
    FundsSplit {
        msgs: vec![
            Payment { to_address: "tax_office".to_string(), amount: vec![coin(2)] },
            Payment { to_address: "artist".to_string(), amount: vec![coin(1)] },
        ],
        remainder: 9,
    }
}

fn minted(ids: &[&str]) -> Crowdfund {
    let mut engine = Crowdfund::instantiate("tokens".to_string(), true);
    let msgs: Vec<CrowdfundMintMsg> = ids.iter().map(|id| mint_msg(id)).collect();
    engine.execute_mint(&owner(), true, msgs, &ENGINE.to_string()).unwrap();
    engine
}

/// An engine with the given tokens and a sale of price 10 that is open from
/// the millisecond 1001 to the millisecond 2000.
fn on_sale(ids: &[&str], min_tokens_sold: u128, max_amount_per_wallet: Option<u32>) -> Crowdfund {
    let mut engine = minted(ids);
    engine
        .execute_start_sale(
            &owner(),
            true,
            &block(1_000),
            None,
            2_000,
            coin(10),
            min_tokens_sold,
            max_amount_per_wallet,
            recipient(),
        )
        .unwrap();
    engine
}

fn transfer(recipient: &str, token_id: &str) -> Command {
    Command::TransferToken { recipient: recipient.to_string(), token_id: token_id.to_string() }
}

fn burn(token_id: &str) -> Command {
    Command::BurnToken { token_id: token_id.to_string() }
}

fn send(to: &str, amount: u128) -> Command {
    Command::Send { to_address: to.to_string(), amount: vec![coin(amount)] }
}

fn forward(amount: u128) -> Command {
    Command::ForwardFunds { to: recipient(), funds: coin(amount) }
}

fn sum_paid_in(cmds: &[Command], denom: &str) -> u128 {
    cmds.iter()
        .map(|c| match c {
            Command::Send { amount, .. } => {
                amount.iter().find(|c| c.denom == denom).map(|c| c.amount).unwrap_or(0)
            }
            Command::ForwardFunds { funds, .. } if funds.denom == denom => funds.amount,
            _ => 0,
        })
        .sum()
}

fn sum_paid(cmds: &[Command]) -> u128 {
    cmds.iter()
        .map(|c| match c {
            Command::Send { amount, .. } => amount.first().map(|c| c.amount).unwrap_or(0),
            Command::ForwardFunds { funds, .. } => funds.amount,
            _ => 0,
        })
        .sum()
}

// Instantiation and queries

#[test]
fn instantiate_starts_without_sale_or_tokens() {
    let engine = Crowdfund::instantiate("tokens".to_string(), false);
    assert_eq!(
        engine.query_config(),
        Config { token_address: "tokens".to_string(), can_mint_after_sale: false }
    );
    assert_eq!(engine.query_state(), None);
    assert!(!engine.sale_conducted);
    assert_eq!(engine.number_of_tokens_available(), 0);
    assert!(engine.query_available_tokens(None, None).is_empty());
    assert!(engine.purchases.entries.is_empty());
}

#[test]
fn available_tokens_are_listed_in_ascending_order() {
    let engine = minted(&["b", "a", "c", "ab", "B"]);
    assert_eq!(engine.query_available_tokens(None, None), vec!["B", "a", "ab", "b", "c"]);
    assert_eq!(engine.number_of_tokens_available(), 5);
}

#[test]
fn available_tokens_are_paged() {
    let engine = minted(&["t1", "t2", "t3", "t4", "t5"]);
    assert_eq!(engine.query_available_tokens(None, Some(2)), vec!["t1", "t2"]);
    assert_eq!(engine.query_available_tokens(Some("t2".to_string()), Some(2)), vec!["t3", "t4"]);
    assert_eq!(engine.query_available_tokens(Some("t4".to_string()), Some(2)), vec!["t5"]);
    assert!(engine.query_available_tokens(Some("t5".to_string()), Some(2)).is_empty());
    assert!(engine.query_available_tokens(None, Some(0)).is_empty());
    // The cursor need not be a token.
    assert_eq!(engine.query_available_tokens(Some("t3x".to_string()), None), vec!["t4", "t5"]);
    assert_eq!(engine.query_available_tokens(Some("".to_string()), Some(1)), vec!["t1"]);
}

#[test]
fn page_without_limit_holds_fifty_tokens() {
    let ids: Vec<String> = (0..60).map(|i| format!("token{:02}", i)).collect();
    let refs: Vec<&str> = ids.iter().map(|s| s.as_str()).collect();
    let engine = minted(&refs);
    let page = engine.query_available_tokens(None, None);
    assert_eq!(page.len(), 50);
    assert_eq!(page[0], "token00");
    assert_eq!(page[49], "token49");
    assert_eq!(engine.query_available_tokens(None, Some(60)).len(), 60);
}

#[test]
fn token_availability_is_reported() {
    let engine = minted(&["t1"]);
    assert!(engine.query_is_token_available(&"t1".to_string()));
    assert!(!engine.query_is_token_available(&"t2".to_string()));
    assert!(!engine.query_is_token_available(&"t".to_string()));
}

// Minting

#[test]
fn mint_registers_tokens_of_the_engine_only() {
    let mut engine = Crowdfund::instantiate("tokens".to_string(), true);
    let mut third_party = mint_msg("airdrop");
    third_party.owner = Some("team".to_string());
    let mut explicit = mint_msg("explicit");
    explicit.owner = Some(ENGINE.to_string());
    explicit.token_uri = Some("ipfs://x".to_string());
    let cmds = engine
        .execute_mint(&owner(), true, vec![mint_msg("t1"), third_party, explicit], &ENGINE.to_string())
        .unwrap();
    assert_eq!(
        cmds,
        vec![
            Command::Mint {
                token_id: "t1".to_string(),
                owner: ENGINE.to_string(),
                token_uri: None,
                extension: TokenExtension { publisher: "publisher".to_string() },
            },
            Command::Mint {
                token_id: "airdrop".to_string(),
                owner: "team".to_string(),
                token_uri: None,
                extension: TokenExtension { publisher: "publisher".to_string() },
            },
            Command::Mint {
                token_id: "explicit".to_string(),
                owner: ENGINE.to_string(),
                token_uri: Some("ipfs://x".to_string()),
                extension: TokenExtension { publisher: "publisher".to_string() },
            },
        ]
    );
    assert_eq!(engine.query_available_tokens(None, None), vec!["explicit", "t1"]);
}

#[test]
fn minting_a_token_twice_registers_it_once() {
    let mut engine = minted(&["t1", "t1"]);
    assert_eq!(engine.number_of_tokens_available(), 1);
    let cmds = engine.execute_mint(&owner(), true, vec![mint_msg("t1")], &ENGINE.to_string()).unwrap();
    assert_eq!(cmds.len(), 1);
    assert_eq!(engine.query_available_tokens(None, None), vec!["t1"]);
}

#[test]
fn mint_refuses_coins() {
    let mut engine = Crowdfund::instantiate("tokens".to_string(), true);
    let res = engine.execute_mint(&info("owner", vec![coin(1)]), true, vec![mint_msg("t1")], &ENGINE.to_string());
    assert_eq!(res, Err(ContractError::NonPayable));
    assert_eq!(engine.number_of_tokens_available(), 0);
}

#[test]
fn mint_refuses_more_than_a_hundred_tokens() {
    let mut engine = Crowdfund::instantiate("tokens".to_string(), true);
    let many: Vec<CrowdfundMintMsg> = (0..101).map(|i| mint_msg(&format!("t{}", i))).collect();
    // Too many tokens are refused before the caller is looked at.
    let res = engine.execute_mint(&owner(), false, many, &ENGINE.to_string());
    assert_eq!(res, Err(ContractError::TooManyMintMessages { limit: 100 }));
    let hundred: Vec<CrowdfundMintMsg> = (0..100).map(|i| mint_msg(&format!("t{}", i))).collect();
    assert_eq!(engine.execute_mint(&owner(), true, hundred, &ENGINE.to_string()).unwrap().len(), 100);
    assert_eq!(engine.number_of_tokens_available(), 100);
}

#[test]
fn mint_is_for_the_owner() {
    let mut engine = Crowdfund::instantiate("tokens".to_string(), true);
    let res = engine.execute_mint(&info("anyone", vec![]), false, vec![mint_msg("t1")], &ENGINE.to_string());
    assert_eq!(res, Err(ContractError::Unauthorized));
}

#[test]
fn mint_is_refused_during_a_sale() {
    let mut engine = on_sale(&["t1"], 1, None);
    let res = engine.execute_mint(&owner(), true, vec![mint_msg("t2")], &ENGINE.to_string());
    assert_eq!(res, Err(ContractError::SaleStarted));
    assert_eq!(engine.query_available_tokens(None, None), vec!["t1"]);
}

#[test]
fn mint_after_a_sale_follows_the_settings() {
    let mut closed = Crowdfund::instantiate("tokens".to_string(), false);
    closed.execute_mint(&owner(), true, vec![mint_msg("t1")], &ENGINE.to_string()).unwrap();
    closed
        .execute_start_sale(&owner(), true, &block(1_000), None, 2_000, coin(10), 0, None, recipient())
        .unwrap();
    // Settle the sale: nothing was sold, the token is destroyed, the sale cleared.
    closed.execute_end_sale(&owner(), true, &block(1_500), false, None).unwrap();
    closed.execute_end_sale(&owner(), true, &block(1_500), false, None).unwrap();
    assert_eq!(closed.query_state(), None);
    assert!(closed.sale_conducted);
    let res = closed.execute_mint(&owner(), true, vec![mint_msg("t2")], &ENGINE.to_string());
    assert_eq!(res, Err(ContractError::CannotMintAfterSaleConducted));

    let mut open = Crowdfund::instantiate("tokens".to_string(), true);
    open.execute_start_sale(&owner(), true, &block(1_000), None, 2_000, coin(10), 0, None, recipient())
        .unwrap();
    open.execute_end_sale(&owner(), true, &block(1_500), false, None).unwrap();
    assert_eq!(open.query_state(), None);
    assert!(open.execute_mint(&owner(), true, vec![mint_msg("t2")], &ENGINE.to_string()).is_ok());
}

// Token contract

#[test]
fn token_contract_changes_while_no_token_is_available() {
    let mut engine = Crowdfund::instantiate("tokens".to_string(), true);
    let cmds = engine.execute_update_token_contract(&owner(), true, "other".to_string(), true).unwrap();
    assert!(cmds.is_empty());
    assert_eq!(engine.query_config().token_address, "other");
    assert!(engine.query_config().can_mint_after_sale);
}

#[test]
fn token_contract_change_is_refused() {
    let mut engine = Crowdfund::instantiate("tokens".to_string(), true);
    assert_eq!(
        engine.execute_update_token_contract(&info("owner", vec![coin(1)]), true, "other".to_string(), true),
        Err(ContractError::NonPayable)
    );
    assert_eq!(
        engine.execute_update_token_contract(&owner(), false, "other".to_string(), true),
        Err(ContractError::Unauthorized)
    );
    assert_eq!(
        engine.execute_update_token_contract(&owner(), true, "other".to_string(), false),
        Err(ContractError::Unauthorized)
    );
    let mut stocked = minted(&["t1"]);
    assert_eq!(
        stocked.execute_update_token_contract(&owner(), true, "other".to_string(), true),
        Err(ContractError::Unauthorized)
    );
    assert_eq!(engine.query_config().token_address, "tokens");
    assert_eq!(stocked.query_config().token_address, "tokens");
}

// Opening a sale

#[test]
fn start_sale_records_the_sale() {
    let mut engine = minted(&["t1"]);
    let cmds = engine
        .execute_start_sale(
            &owner(),
            true,
            &block(1_000),
            Some(1_500),
            2_000,
            coin(10),
            2,
            Some(3),
            recipient(),
        )
        .unwrap();
    assert!(cmds.is_empty());
    assert!(engine.sale_conducted);
    assert_eq!(
        engine.query_state(),
        Some(State {
            end_time: 2_000_000_000,
            price: coin(10),
            min_tokens_sold: 2,
            max_amount_per_wallet: 3,
            amount_sold: 0,
            amount_to_send: 0,
            amount_transferred: 0,
            recipient: recipient(),
        })
    );
}

#[test]
fn start_sale_defaults_to_one_token_per_wallet() {
    let engine = on_sale(&["t1"], 1, None);
    assert_eq!(engine.query_state().unwrap().max_amount_per_wallet, 1);
}

#[test]
fn start_sale_refuses_coins_and_strangers() {
    let mut engine = minted(&["t1"]);
    assert_eq!(
        engine.execute_start_sale(&info("owner", vec![coin(1)]), true, &block(1_000), None, 2_000, coin(10), 1, None, recipient()),
        Err(ContractError::NonPayable)
    );
    assert_eq!(
        engine.execute_start_sale(&info("anyone", vec![]), false, &block(1_000), None, 2_000, coin(10), 1, None, recipient()),
        Err(ContractError::Unauthorized)
    );
    assert_eq!(engine.query_state(), None);
    assert!(!engine.sale_conducted);
}

#[test]
fn start_sale_validates_the_start() {
    let mut engine = minted(&["t1"]);
    // A block in the middle of the millisecond 1000.
    let now = BlockInfo { height: 7, time: 1_000 * MS + 5 };
    assert_eq!(
        engine.execute_start_sale(&owner(), true, &now, Some(1_000), 2_000, coin(10), 1, None, recipient()),
        Err(ContractError::StartTimeInThePast { current_time: 1_000, current_block: 7 })
    );
    assert_eq!(
        engine.execute_start_sale(&owner(), true, &now, Some(999), 2_000, coin(10), 1, None, recipient()),
        Err(ContractError::StartTimeInThePast { current_time: 1_000, current_block: 7 })
    );
    assert_eq!(
        engine.execute_start_sale(&owner(), true, &now, Some(u64::MAX / MS + 1), u64::MAX / MS, coin(10), 1, None, recipient()),
        Err(ContractError::InvalidExpirationTime)
    );
    assert!(engine
        .execute_start_sale(&owner(), true, &now, Some(1_001), 2_000, coin(10), 1, None, recipient())
        .is_ok());
}

#[test]
fn start_sale_validates_the_end() {
    let mut engine = minted(&["t1"]);
    assert_eq!(
        engine.execute_start_sale(&owner(), true, &block(1_000), None, u64::MAX / MS + 1, coin(10), 1, None, recipient()),
        Err(ContractError::InvalidExpirationTime)
    );
    // Without a start the sale starts at the millisecond 1001.
    assert_eq!(
        engine.execute_start_sale(&owner(), true, &block(1_000), None, 1_001, coin(10), 1, None, recipient()),
        Err(ContractError::StartTimeAfterEndTime)
    );
    assert_eq!(
        engine.execute_start_sale(&owner(), true, &block(1_000), Some(1_500), 1_200, coin(10), 1, None, recipient()),
        Err(ContractError::StartTimeAfterEndTime)
    );
    assert_eq!(engine.query_state(), None);
    assert!(engine
        .execute_start_sale(&owner(), true, &block(1_000), None, 1_002, coin(10), 1, None, recipient())
        .is_ok());
    assert_eq!(engine.query_state().unwrap().end_time, 1_002 * MS);
}

#[test]
fn start_sale_refuses_a_second_sale() {
    let mut engine = on_sale(&["t1"], 1, None);
    let before = engine.query_state();
    assert_eq!(
        engine.execute_start_sale(&owner(), true, &block(1_000), None, 3_000, coin(20), 1, None, recipient()),
        Err(ContractError::SaleStarted)
    );
    assert_eq!(engine.query_state(), before);
}

// Purchases

#[test]
fn purchase_records_the_purchase() {
    let mut engine = on_sale(&["t1", "t2", "t3"], 2, Some(2));
    let cmds = engine
        .execute_purchase(&info("alice", vec![coin(12)]), &block(1_500), Some(1), &taxed_split())
        .unwrap();
    assert!(cmds.is_empty());
    let state = engine.query_state().unwrap();
    assert_eq!(state.amount_sold, 1);
    assert_eq!(state.amount_to_send, 9);
    assert_eq!(state.amount_transferred, 0);
    assert_eq!(engine.query_available_tokens(None, None), vec!["t2", "t3"]);
    assert_eq!(
        engine.purchases.entries,
        vec![LedgerEntry {
            buyer: "alice".to_string(),
            purchases: vec![Purchase {
                token_id: "t1".to_string(),
                tax_amount: 2,
                msgs: taxed_split().msgs,
                purchaser: "alice".to_string(),
            }],
        }]
    );
}

#[test]
fn purchase_without_a_number_takes_what_the_wallet_may() {
    let mut engine = on_sale(&["t1", "t2", "t3"], 1, Some(2));
    let cmds = engine
        .execute_purchase(&info("alice", vec![coin(25)]), &block(1_500), None, &no_split(10))
        .unwrap();
    assert_eq!(cmds, vec![send("alice", 5)]);
    assert_eq!(engine.query_state().unwrap().amount_sold, 2);
    assert_eq!(engine.query_state().unwrap().amount_to_send, 20);
    assert_eq!(engine.query_available_tokens(None, None), vec!["t3"]);
}

#[test]
fn purchase_is_clamped_to_the_wallet_limit() {
    let mut engine = on_sale(&["t1", "t2", "t3", "t4"], 1, Some(3));
    engine.execute_purchase(&info("alice", vec![coin(10)]), &block(1_500), Some(1), &no_split(10)).unwrap();
    // Alice asks for five more and may have two.
    let cmds = engine
        .execute_purchase(&info("alice", vec![coin(50)]), &block(1_500), Some(5), &no_split(10))
        .unwrap();
    assert_eq!(cmds, vec![send("alice", 30)]);
    assert_eq!(engine.purchases.entries.len(), 1);
    let tokens: Vec<&str> =
        engine.purchases.entries[0].purchases.iter().map(|p| p.token_id.as_str()).collect();
    assert_eq!(tokens, vec!["t1", "t2", "t3"]);
    assert_eq!(engine.query_available_tokens(None, None), vec!["t4"]);
    assert_eq!(
        engine.execute_purchase(&info("alice", vec![coin(50)]), &block(1_500), Some(1), &no_split(10)),
        Err(ContractError::PurchaseLimitReached)
    );
}

#[test]
fn scenario_purchase_of_five_against_three_available() {
    let mut engine = on_sale(&["t1", "t2", "t3"], 1, Some(100));
    // Five tokens with tax would cost 60; three cost 36.
    let cmds = engine
        .execute_purchase(&info("alice", vec![coin(60)]), &block(1_500), Some(5), &taxed_split())
        .unwrap();
    assert_eq!(cmds, vec![send("alice", 24)]);
    let state = engine.query_state().unwrap();
    assert_eq!(state.amount_sold, 3);
    assert_eq!(state.amount_to_send, 27);
    assert_eq!(engine.number_of_tokens_available(), 0);
    assert_eq!(engine.purchases.entries[0].purchases.len(), 3);
    assert!(engine.purchases.entries[0].purchases.iter().all(|p| p.tax_amount == 2));
}

#[test]
fn exact_payment_is_not_refunded() {
    let mut engine = on_sale(&["t1"], 1, None);
    let cmds = engine
        .execute_purchase(&info("alice", vec![coin(10)]), &block(1_500), Some(1), &no_split(10))
        .unwrap();
    assert!(cmds.is_empty());
}

#[test]
fn refund_of_change_returns_all_coins_that_are_left() {
    let mut engine = on_sale(&["t1"], 1, None);
    let funds = vec![
        Coin { denom: "other".to_string(), amount: 7 },
        coin(15),
        coin(3),
    ];
    let cmds = engine.execute_purchase(&info("alice", funds), &block(1_500), Some(1), &no_split(10)).unwrap();
    assert_eq!(
        cmds,
        vec![Command::Send {
            to_address: "alice".to_string(),
            amount: vec![Coin { denom: "other".to_string(), amount: 7 }, coin(5), coin(3)],
        }]
    );
}

#[test]
fn only_the_first_coin_of_the_currency_pays() {
    let mut engine = on_sale(&["t1"], 1, None);
    // Nine and nine do not make ten: the first coin of the currency must cover the price.
    assert_eq!(
        engine.execute_purchase(&info("alice", vec![coin(9), coin(9)]), &block(1_500), Some(1), &no_split(10)),
        Err(ContractError::InsufficientFunds)
    );
    // Exact payment by the first coin leaves nothing to return, whatever else was sent.
    let cmds = engine
        .execute_purchase(&info("alice", vec![coin(10), coin(9)]), &block(1_500), Some(1), &no_split(10))
        .unwrap();
    assert!(cmds.is_empty());
}

#[test]
fn purchase_needs_an_open_sale() {
    let mut none = minted(&["t1"]);
    assert_eq!(
        none.execute_purchase(&info("alice", vec![coin(10)]), &block(1_500), Some(1), &no_split(10)),
        Err(ContractError::NoOngoingSale)
    );
    assert_eq!(
        none.execute_purchase_by_token_id(&info("alice", vec![coin(10)]), &block(1_500), "t1".to_string(), &no_split(10)),
        Err(ContractError::NoOngoingSale)
    );
    let mut engine = on_sale(&["t1"], 1, None);
    // The end time itself is too late.
    assert_eq!(
        engine.execute_purchase(&info("alice", vec![coin(10)]), &block(2_000), Some(1), &no_split(10)),
        Err(ContractError::NoOngoingSale)
    );
    assert_eq!(
        engine.execute_purchase_by_token_id(&info("alice", vec![coin(10)]), &block(2_000), "t1".to_string(), &no_split(10)),
        Err(ContractError::NoOngoingSale)
    );
    let last = BlockInfo { height: 1, time: 2_000 * MS - 1 };
    assert!(engine.execute_purchase(&info("alice", vec![coin(10)]), &last, Some(1), &no_split(10)).is_ok());
}

#[test]
fn purchase_fails_when_no_token_is_left() {
    let mut engine = on_sale(&[], 1, None);
    assert_eq!(
        engine.execute_purchase(&info("alice", vec![coin(10)]), &block(1_500), Some(1), &no_split(10)),
        Err(ContractError::AllTokensPurchased)
    );
    let mut stocked = on_sale(&["t1"], 1, None);
    assert_eq!(
        stocked.execute_purchase(&info("alice", vec![coin(10)]), &block(1_500), Some(0), &no_split(10)),
        Err(ContractError::AllTokensPurchased)
    );
}

#[test]
fn purchase_fails_without_enough_coins() {
    let mut engine = on_sale(&["t1", "t2"], 1, Some(2));
    let before_tokens = engine.query_available_tokens(None, None);
    // The price is not covered.
    assert_eq!(
        engine.execute_purchase(&info("alice", vec![coin(19)]), &block(1_500), Some(2), &taxed_split()),
        Err(ContractError::InsufficientFunds)
    );
    // The price is covered, the tax is not.
    assert_eq!(
        engine.execute_purchase(&info("alice", vec![coin(23)]), &block(1_500), Some(2), &taxed_split()),
        Err(ContractError::InsufficientFunds)
    );
    assert_eq!(
        engine.execute_purchase(&info("alice", vec![]), &block(1_500), Some(2), &taxed_split()),
        Err(ContractError::InsufficientFunds)
    );
    assert_eq!(
        engine.execute_purchase(
            &info("alice", vec![Coin { denom: "other".to_string(), amount: 100 }]),
            &block(1_500),
            Some(2),
            &taxed_split()
        ),
        Err(ContractError::InsufficientFunds)
    );
    // Nothing was recorded.
    assert_eq!(engine.query_available_tokens(None, None), before_tokens);
    assert!(engine.purchases.entries.is_empty());
    assert_eq!(engine.query_state().unwrap().amount_sold, 0);
    assert_eq!(engine.query_state().unwrap().amount_to_send, 0);
    assert!(engine
        .execute_purchase(&info("alice", vec![coin(24)]), &block(1_500), Some(2), &taxed_split())
        .is_ok());
}

#[test]
fn purchase_fails_when_amounts_leave_their_range() {
    let mut engine = minted(&["t1", "t2"]);
    engine
        .execute_start_sale(
            &owner(),
            true,
            &block(1_000),
            None,
            2_000,
            coin(u128::MAX),
            1,
            Some(2),
            recipient(),
        )
        .unwrap();
    assert_eq!(
        engine.execute_purchase(&info("alice", vec![coin(u128::MAX)]), &block(1_500), Some(2), &no_split(u128::MAX)),
        Err(ContractError::Overflow)
    );
    // One token at that price can be paid, but not with a tax on top.
    let taxed = FundsSplit {
        msgs: vec![Payment { to_address: "tax_office".to_string(), amount: vec![coin(1)] }],
        remainder: u128::MAX,
    };
    assert_eq!(
        engine.execute_purchase(&info("alice", vec![coin(u128::MAX)]), &block(1_500), Some(1), &taxed),
        Err(ContractError::Overflow)
    );
    assert!(engine
        .execute_purchase(&info("alice", vec![coin(u128::MAX)]), &block(1_500), Some(1), &no_split(u128::MAX))
        .is_ok());
    // The proceeds of a second token would leave the range.
    assert_eq!(
        engine.execute_purchase(&info("alice", vec![coin(u128::MAX)]), &block(1_500), Some(1), &no_split(u128::MAX)),
        Err(ContractError::Overflow)
    );
    assert_eq!(engine.query_state().unwrap().amount_sold, 1);
    assert_eq!(engine.number_of_tokens_available(), 1);
}

#[test]
fn purchase_fails_on_a_split_without_tax_arithmetic() {
    let mut engine = on_sale(&["t1"], 1, None);
    let funds = info("alice", vec![coin(100)]);
    // More is left for the recipient than the price.
    let too_much = FundsSplit { msgs: vec![], remainder: 11 };
    assert_eq!(
        engine.execute_purchase(&funds, &block(1_500), Some(1), &too_much),
        Err(ContractError::Overflow)
    );
    // A payment without coins.
    let empty = FundsSplit {
        msgs: vec![Payment { to_address: "x".to_string(), amount: vec![] }],
        remainder: 10,
    };
    assert_eq!(
        engine.execute_purchase(&funds, &block(1_500), Some(1), &empty),
        Err(ContractError::Overflow)
    );
    // The payments do not account for what was taken off the price.
    let short = FundsSplit {
        msgs: vec![Payment { to_address: "x".to_string(), amount: vec![coin(1)] }],
        remainder: 8,
    };
    assert_eq!(
        engine.execute_purchase(&funds, &block(1_500), Some(1), &short),
        Err(ContractError::Overflow)
    );
    // The payments add up to more than fits.
    let huge = FundsSplit {
        msgs: vec![
            Payment { to_address: "x".to_string(), amount: vec![coin(u128::MAX)] },
            Payment { to_address: "y".to_string(), amount: vec![coin(1)] },
        ],
        remainder: 10,
    };
    assert_eq!(
        engine.execute_purchase(&funds, &block(1_500), Some(1), &huge),
        Err(ContractError::Overflow)
    );
    assert_eq!(engine.number_of_tokens_available(), 1);
}

#[test]
fn tax_is_what_the_payments_exceed_the_deduction_by() {
    let mut engine = on_sale(&["t1"], 1, None);
    // Of the price of 10, 6 are left, so 4 were taken off; the payments come
    // to 4 + 3 = 7, three of which are tax. Only the first coin of a payment
    // counts.
    let split = FundsSplit {
        msgs: vec![
            Payment { to_address: "a".to_string(), amount: vec![coin(4), coin(50)] },
            Payment { to_address: "b".to_string(), amount: vec![coin(3)] },
        ],
        remainder: 6,
    };
    assert_eq!(
        engine.execute_purchase(&info("alice", vec![coin(12)]), &block(1_500), Some(1), &split),
        Err(ContractError::InsufficientFunds)
    );
    let cmds = engine.execute_purchase(&info("alice", vec![coin(15)]), &block(1_500), Some(1), &split).unwrap();
    assert_eq!(cmds, vec![send("alice", 2)]);
    assert_eq!(engine.purchases.entries[0].purchases[0].tax_amount, 3);
    assert_eq!(engine.query_state().unwrap().amount_to_send, 6);
}

#[test]
fn purchase_by_token_id_sells_that_token() {
    let mut engine = on_sale(&["t1", "t2", "t3"], 1, Some(2));
    let cmds = engine
        .execute_purchase_by_token_id(&info("alice", vec![coin(15)]), &block(1_500), "t2".to_string(), &taxed_split())
        .unwrap();
    assert_eq!(cmds, vec![send("alice", 3)]);
    assert_eq!(engine.query_available_tokens(None, None), vec!["t1", "t3"]);
    assert!(!engine.query_is_token_available(&"t2".to_string()));
    assert_eq!(engine.query_state().unwrap().amount_sold, 1);
    assert_eq!(engine.query_state().unwrap().amount_to_send, 9);
    assert_eq!(engine.purchases.entries[0].buyer, "alice");
    assert_eq!(engine.purchases.entries[0].purchases[0].token_id, "t2");
    assert_eq!(engine.purchases.entries[0].purchases[0].tax_amount, 2);
}

#[test]
fn purchase_by_token_id_is_refused() {
    let mut engine = on_sale(&["t1", "t2"], 1, Some(1));
    assert_eq!(
        engine.execute_purchase_by_token_id(&info("alice", vec![coin(10)]), &block(1_500), "t9".to_string(), &no_split(10)),
        Err(ContractError::TokenNotAvailable)
    );
    assert_eq!(
        engine.execute_purchase_by_token_id(&info("alice", vec![coin(9)]), &block(1_500), "t1".to_string(), &no_split(10)),
        Err(ContractError::InsufficientFunds)
    );
    assert!(engine.query_is_token_available(&"t1".to_string()));
    engine
        .execute_purchase_by_token_id(&info("alice", vec![coin(10)]), &block(1_500), "t1".to_string(), &no_split(10))
        .unwrap();
    assert_eq!(
        engine.execute_purchase_by_token_id(&info("alice", vec![coin(10)]), &block(1_500), "t2".to_string(), &no_split(10)),
        Err(ContractError::PurchaseLimitReached)
    );
    // A sold token is not available, whoever asks.
    assert_eq!(
        engine.execute_purchase_by_token_id(&info("bob", vec![coin(10)]), &block(1_500), "t1".to_string(), &no_split(10)),
        Err(ContractError::TokenNotAvailable)
    );
}

#[test]
fn every_wallet_may_purchase_a_token() {
    let mut engine = on_sale(&["t1", "t2"], 1, Some(0));
    assert_eq!(engine.query_state().unwrap().max_amount_per_wallet, 1);
    assert_eq!(engine.purchase_allowance(&"alice".to_string()), 1);
    engine.execute_purchase(&info("alice", vec![coin(10)]), &block(1_500), None, &no_split(10)).unwrap();
    assert_eq!(engine.purchases.entries[0].purchases.len(), 1);
    assert_eq!(engine.purchase_allowance(&"alice".to_string()), 0);
    assert_eq!(
        engine.execute_purchase(&info("alice", vec![coin(10)]), &block(1_500), Some(1), &no_split(10)),
        Err(ContractError::PurchaseLimitReached)
    );
}

#[test]
fn allowance_is_what_the_wallet_may_still_purchase() {
    let mut engine = minted(&["t1", "t2", "t3", "t4"]);
    assert_eq!(engine.purchase_allowance(&"alice".to_string()), 0);
    engine
        .execute_start_sale(&owner(), true, &block(1_000), None, 2_000, coin(10), 1, Some(3), recipient())
        .unwrap();
    assert_eq!(engine.purchase_allowance(&"alice".to_string()), 3);
    engine.execute_purchase(&info("alice", vec![coin(20)]), &block(1_500), Some(2), &no_split(10)).unwrap();
    assert_eq!(engine.purchase_allowance(&"alice".to_string()), 1);
    assert_eq!(engine.purchase_allowance(&"bob".to_string()), 3);
    assert_eq!(tokens_wanted(3, None), 3);
    assert_eq!(tokens_wanted(3, Some(2)), 2);
    assert_eq!(tokens_wanted(3, Some(3)), 3);
    assert_eq!(tokens_wanted(3, Some(7)), 3);
    assert_eq!(tokens_wanted(3, Some(0)), 0);
}

#[test]
fn ledger_keeps_buyers_in_the_order_of_their_first_purchase() {
    let mut engine = on_sale(&["t1", "t2", "t3", "t4"], 1, Some(2));
    for buyer in ["zoe", "adam", "zoe", "mia"] {
        engine.execute_purchase(&info(buyer, vec![coin(10)]), &block(1_500), Some(1), &no_split(10)).unwrap();
    }
    let buyers: Vec<&str> = engine.purchases.entries.iter().map(|e| e.buyer.as_str()).collect();
    assert_eq!(buyers, vec!["zoe", "adam", "mia"]);
    let zoe: Vec<&str> = engine.purchases.entries[0].purchases.iter().map(|p| p.token_id.as_str()).collect();
    assert_eq!(zoe, vec!["t1", "t3"]);
}

#[test]
fn wallet_cap_holds_for_every_buyer() {
    let mut engine = on_sale(&["t1", "t2", "t3", "t4", "t5", "t6"], 1, Some(2));
    for buyer in ["a", "b", "a", "a", "b", "b", "c"] {
        let _ = engine.execute_purchase(&info(buyer, vec![coin(100)]), &block(1_500), Some(3), &no_split(10));
        let cap = engine.query_state().unwrap().max_amount_per_wallet as usize;
        assert!(engine.purchases.entries.iter().all(|e| e.purchases.len() <= cap));
    }
    assert_eq!(engine.query_state().unwrap().amount_sold, 6);
}

// Refunds

#[test]
fn scenario_refund_when_the_minimum_is_not_sold() {
    let mut engine = on_sale(&["t1", "t2", "t3"], 2, Some(1));
    engine.execute_purchase(&info("alice", vec![coin(10)]), &block(1_500), Some(1), &no_split(10)).unwrap();
    assert_eq!(engine.query_state().unwrap().amount_sold, 1);
    assert_eq!(
        engine.execute_purchase(&info("alice", vec![coin(10)]), &block(1_500), Some(1), &no_split(10)),
        Err(ContractError::PurchaseLimitReached)
    );
    assert_eq!(ContractError::PurchaseLimitReached.kind(), ErrorKind::LimitExceeded);
    let cmds = engine.execute_claim_refund(&info("alice", vec![]), &block(2_000)).unwrap();
    assert_eq!(cmds, vec![send("alice", 10)]);
    assert!(engine.purchases.entries.is_empty());
    // The two other tokens stay until batches destroy them.
    assert_eq!(engine.query_available_tokens(None, None), vec!["t2", "t3"]);
    assert!(engine.query_state().is_some());
    let cmds = engine.execute_end_sale(&info("anyone", vec![]), false, &block(2_000), false, Some(1)).unwrap();
    assert_eq!(cmds, vec![burn("t2")]);
    let cmds = engine.execute_end_sale(&info("anyone", vec![]), false, &block(2_000), false, Some(1)).unwrap();
    assert_eq!(cmds, vec![burn("t3")]);
    assert!(engine.query_state().is_some());
    let cmds = engine.execute_end_sale(&info("anyone", vec![]), false, &block(2_000), false, Some(1)).unwrap();
    assert!(cmds.is_empty());
    assert_eq!(engine.query_state(), None);
}

#[test]
fn refund_returns_price_and_tax_of_every_purchase() {
    let mut engine = on_sale(&["t1", "t2", "t3"], 5, Some(3));
    engine.execute_purchase(&info("alice", vec![coin(24)]), &block(1_500), Some(2), &taxed_split()).unwrap();
    engine.execute_purchase(&info("alice", vec![coin(10)]), &block(1_600), Some(1), &no_split(10)).unwrap();
    let cmds = engine.execute_claim_refund(&info("alice", vec![]), &block(2_500)).unwrap();
    assert_eq!(cmds, vec![send("alice", 34)]);
    assert!(engine.purchases.entries.is_empty());
}

#[test]
fn claim_refund_is_refused() {
    let mut none = Crowdfund::instantiate("tokens".to_string(), true);
    assert_eq!(
        none.execute_claim_refund(&info("alice", vec![]), &block(2_000)),
        Err(ContractError::NoOngoingSale)
    );
    let mut engine = on_sale(&["t1", "t2"], 2, Some(1));
    engine.execute_purchase(&info("alice", vec![coin(10)]), &block(1_500), Some(1), &no_split(10)).unwrap();
    assert_eq!(
        engine.execute_claim_refund(&info("alice", vec![coin(1)]), &block(2_000)),
        Err(ContractError::NonPayable)
    );
    assert_eq!(
        engine.execute_claim_refund(&info("alice", vec![]), &block(1_999)),
        Err(ContractError::SaleNotEnded)
    );
    assert_eq!(
        engine.execute_claim_refund(&info("bob", vec![]), &block(2_000)),
        Err(ContractError::NoPurchases)
    );
    assert_eq!(engine.purchases.entries.len(), 1);
    engine.execute_purchase(&info("bob", vec![coin(10)]), &block(1_500), Some(1), &no_split(10)).unwrap();
    // Now the minimum is sold.
    assert_eq!(
        engine.execute_claim_refund(&info("alice", vec![]), &block(2_000)),
        Err(ContractError::MinSalesExceeded)
    );
    assert_eq!(engine.purchases.entries.len(), 2);
}

#[test]
fn refund_of_nothing_clears_the_buyer_without_payment() {
    let mut engine = minted(&["t1"]);
    engine
        .execute_start_sale(&owner(), true, &block(1_000), None, 2_000, coin(0), 2, None, recipient())
        .unwrap();
    engine.execute_purchase(&info("alice", vec![coin(0)]), &block(1_500), Some(1), &no_split(0)).unwrap();
    let cmds = engine.execute_claim_refund(&info("alice", vec![]), &block(2_000)).unwrap();
    assert!(cmds.is_empty());
    assert!(engine.purchases.entries.is_empty());
}

#[test]
fn refund_that_leaves_the_range_changes_nothing() {
    let mut engine = minted(&["t1", "t2"]);
    engine
        .execute_start_sale(
            &owner(),
            true,
            &block(1_000),
            None,
            2_000,
            coin(u128::MAX / 2 + 1),
            10,
            Some(2),
            recipient(),
        )
        .unwrap();
    // Each purchase is in range, the proceeds of both are not, unless nothing is left of
    // the price for the recipient.
    let all_taken = FundsSplit {
        msgs: vec![Payment { to_address: "artist".to_string(), amount: vec![coin(u128::MAX / 2 + 1)] }],
        remainder: 0,
    };
    for _ in 0..2 {
        engine
            .execute_purchase(&info("alice", vec![coin(u128::MAX / 2 + 1)]), &block(1_500), Some(1), &all_taken)
            .unwrap();
    }
    assert_eq!(
        engine.execute_claim_refund(&info("alice", vec![]), &block(2_000)),
        Err(ContractError::Overflow)
    );
    assert_eq!(
        engine.execute_end_sale(&info("anyone", vec![]), false, &block(2_000), false, None),
        Err(ContractError::Overflow)
    );
    assert_eq!(engine.purchases.entries.len(), 1);
    assert_eq!(engine.purchases.entries[0].purchases.len(), 2);
    assert!(engine.query_state().is_some());
}

// Ending the sale

#[test]
fn end_sale_refuses_coins() {
    let mut engine = on_sale(&["t1"], 1, None);
    assert_eq!(
        engine.execute_end_sale(&info("owner", vec![coin(1)]), true, &block(2_000), false, None),
        Err(ContractError::NonPayable)
    );
}

#[test]
fn end_sale_before_the_end_does_nothing() {
    let mut engine = on_sale(&["t1", "t2"], 1, None);
    engine.execute_purchase(&info("alice", vec![coin(10)]), &block(1_500), Some(1), &no_split(10)).unwrap();
    let before = (engine.query_state(), engine.query_available_tokens(None, None));
    let cmds = engine.execute_end_sale(&info("anyone", vec![]), false, &block(1_999), false, None).unwrap();
    assert!(cmds.is_empty());
    assert_eq!((engine.query_state(), engine.query_available_tokens(None, None)), before);
    assert_eq!(engine.purchases.entries.len(), 1);
}

#[test]
fn end_sale_is_open_to_the_owner_at_any_time() {
    let mut engine = on_sale(&["t1", "t2"], 1, None);
    engine.execute_purchase(&info("alice", vec![coin(10)]), &block(1_500), Some(1), &no_split(10)).unwrap();
    let cmds = engine.execute_end_sale(&owner(), true, &block(1_600), false, None).unwrap();
    assert_eq!(cmds, vec![forward(10), transfer("alice", "t1")]);
}

#[test]
fn early_end_is_recorded() {
    let mut engine = on_sale(&["t1", "t2", "t3"], 2, Some(1));
    engine.execute_purchase(&info("alice", vec![coin(10)]), &block(1_500), Some(1), &no_split(10)).unwrap();
    assert_eq!(engine.phase(&block(1_600)), SalePhase::Active);
    // The owner ends the sale before its time: one buyer is refunded, one token destroyed.
    let cmds = engine.execute_end_sale(&owner(), true, &block(1_600), false, Some(1)).unwrap();
    assert_eq!(cmds, vec![send("alice", 10), burn("t2")]);
    assert_eq!(engine.query_state().unwrap().end_time, 1_600 * MS);
    assert_eq!(engine.phase(&block(1_600)), SalePhase::Ended { needs_refund: true });
    // From then on nothing is purchased, though a token is left and the time had not come.
    assert_eq!(
        engine.execute_purchase(&info("bob", vec![coin(10)]), &block(1_600), Some(1), &no_split(10)),
        Err(ContractError::NoOngoingSale)
    );
    assert_eq!(
        engine.execute_purchase_by_token_id(&info("bob", vec![coin(10)]), &block(1_700), "t3".to_string(), &no_split(10)),
        Err(ContractError::NoOngoingSale)
    );
    assert_eq!(engine.phase(&block(1_700)), SalePhase::Ended { needs_refund: true });
    // A later end of the sale leaves the end time where it is.
    let cmds = engine.execute_end_sale(&info("anyone", vec![]), false, &block(2_500), false, Some(1)).unwrap();
    assert_eq!(cmds, vec![burn("t3")]);
    assert_eq!(engine.query_state().unwrap().end_time, 1_600 * MS);
}

#[test]
fn refused_end_is_not_recorded() {
    let mut engine = on_sale(&["t1", "t2"], 1, None);
    assert_eq!(
        engine.execute_end_sale(&owner(), true, &block(1_600), false, Some(0)),
        Err(ContractError::LimitMustNotBeZero)
    );
    assert!(engine.execute_end_sale(&info("anyone", vec![]), false, &block(1_600), false, None).unwrap().is_empty());
    assert_eq!(engine.query_state().unwrap().end_time, 2_000 * MS);
    assert!(engine
        .execute_purchase(&info("alice", vec![coin(10)]), &block(1_700), Some(1), &no_split(10))
        .is_ok());
}

#[test]
fn end_sale_is_open_to_all_once_no_token_is_left() {
    let mut engine = on_sale(&["t1"], 1, None);
    engine.execute_purchase(&info("alice", vec![coin(10)]), &block(1_500), Some(1), &no_split(10)).unwrap();
    let cmds = engine.execute_end_sale(&info("anyone", vec![]), false, &block(1_600), false, None).unwrap();
    assert_eq!(cmds, vec![forward(10), transfer("alice", "t1")]);
}

#[test]
fn end_sale_follows_the_end_condition_of_the_caller() {
    let mut engine = on_sale(&["t1", "t2"], 1, None);
    engine.execute_purchase(&info("alice", vec![coin(10)]), &block(1_500), Some(1), &no_split(10)).unwrap();
    let cmds = engine.execute_end_sale(&info("anyone", vec![]), false, &block(1_600), true, None).unwrap();
    assert_eq!(cmds, vec![forward(10), transfer("alice", "t1")]);
}

#[test]
fn end_sale_refuses_a_batch_of_nothing() {
    let mut settled = on_sale(&["t1", "t2"], 1, None);
    settled.execute_purchase(&info("alice", vec![coin(10)]), &block(1_500), Some(1), &no_split(10)).unwrap();
    assert_eq!(
        settled.execute_end_sale(&info("anyone", vec![]), false, &block(2_000), false, Some(0)),
        Err(ContractError::LimitMustNotBeZero)
    );
    assert_eq!(settled.query_state().unwrap().amount_to_send, 10);
    let mut refunded = on_sale(&["t1", "t2"], 2, None);
    refunded.execute_purchase(&info("alice", vec![coin(10)]), &block(1_500), Some(1), &no_split(10)).unwrap();
    assert_eq!(
        refunded.execute_end_sale(&info("anyone", vec![]), false, &block(2_000), false, Some(0)),
        Err(ContractError::LimitMustNotBeZero)
    );
    assert_eq!(refunded.purchases.entries.len(), 1);
    // Without a sale there is no batch to refuse.
    let mut none = Crowdfund::instantiate("tokens".to_string(), true);
    assert!(none.execute_end_sale(&info("anyone", vec![]), false, &block(2_000), false, Some(0)).is_ok());
}

#[test]
fn scenario_settlement_when_the_minimum_is_sold() {
    let mut engine = on_sale(&["t1", "t2", "t3"], 1, Some(1));
    engine.execute_purchase(&info("alice", vec![coin(12)]), &block(1_500), Some(1), &taxed_split()).unwrap();
    let anyone = info("anyone", vec![]);
    // The proceeds are forwarded once, and the token is delivered with the
    // payments of its split.
    let cmds = engine.execute_end_sale(&anyone, false, &block(2_000), false, Some(1)).unwrap();
    assert_eq!(
        cmds,
        vec![forward(9), send("tax_office", 2), send("artist", 1), transfer("alice", "t1")]
    );
    let state = engine.query_state().unwrap();
    assert_eq!(state.amount_to_send, 0);
    assert_eq!(state.amount_transferred, 9);
    assert!(engine.purchases.entries.is_empty());
    // The next calls destroy what was not sold and forward nothing.
    let cmds = engine.execute_end_sale(&anyone, false, &block(2_000), false, Some(1)).unwrap();
    assert_eq!(cmds, vec![burn("t2")]);
    let cmds = engine.execute_end_sale(&anyone, false, &block(2_000), false, Some(1)).unwrap();
    assert_eq!(cmds, vec![burn("t3")]);
    assert!(engine.query_state().is_some());
    let cmds = engine.execute_end_sale(&anyone, false, &block(2_000), false, Some(1)).unwrap();
    assert!(cmds.is_empty());
    assert_eq!(engine.query_state(), None);
    assert_eq!(engine.number_of_tokens_available(), 0);
}

#[test]
fn settlement_delivers_buyers_in_batches() {
    let mut engine = on_sale(&["t1", "t2", "t3", "t4", "t5"], 1, Some(2));
    engine.execute_purchase(&info("zoe", vec![coin(20)]), &block(1_500), Some(2), &no_split(10)).unwrap();
    engine.execute_purchase(&info("adam", vec![coin(10)]), &block(1_500), Some(1), &no_split(10)).unwrap();
    engine.execute_purchase(&info("mia", vec![coin(10)]), &block(1_500), Some(1), &no_split(10)).unwrap();
    let anyone = info("anyone", vec![]);
    let cmds = engine.execute_end_sale(&anyone, false, &block(2_000), false, Some(2)).unwrap();
    assert_eq!(
        cmds,
        vec![forward(40), transfer("zoe", "t1"), transfer("zoe", "t2"), transfer("adam", "t3")]
    );
    // Tokens are destroyed only once every buyer has been served.
    let cmds = engine.execute_end_sale(&anyone, false, &block(2_000), false, Some(2)).unwrap();
    assert_eq!(cmds, vec![transfer("mia", "t4")]);
    assert_eq!(engine.number_of_tokens_available(), 1);
    let cmds = engine.execute_end_sale(&anyone, false, &block(2_000), false, Some(2)).unwrap();
    assert_eq!(cmds, vec![burn("t5")]);
    let cmds = engine.execute_end_sale(&anyone, false, &block(2_000), false, Some(2)).unwrap();
    assert!(cmds.is_empty());
    assert_eq!(engine.query_state(), None);
}

#[test]
fn refund_batches_refund_buyers_and_destroy_tokens() {
    let mut engine = on_sale(&["t1", "t2", "t3", "t4", "t5", "t6"], 10, Some(2));
    engine.execute_purchase(&info("zoe", vec![coin(24)]), &block(1_500), Some(2), &taxed_split()).unwrap();
    engine.execute_purchase(&info("adam", vec![coin(10)]), &block(1_500), Some(1), &no_split(10)).unwrap();
    engine.execute_purchase(&info("mia", vec![coin(10)]), &block(1_500), Some(1), &no_split(10)).unwrap();
    let anyone = info("anyone", vec![]);
    let cmds = engine.execute_end_sale(&anyone, false, &block(2_000), false, Some(2)).unwrap();
    assert_eq!(cmds, vec![send("zoe", 24), send("adam", 10), burn("t5"), burn("t6")]);
    let cmds = engine.execute_end_sale(&anyone, false, &block(2_000), false, Some(2)).unwrap();
    assert_eq!(cmds, vec![send("mia", 10)]);
    assert!(engine.query_state().is_some());
    let cmds = engine.execute_end_sale(&anyone, false, &block(2_000), false, Some(2)).unwrap();
    assert!(cmds.is_empty());
    assert_eq!(engine.query_state(), None);
}

#[test]
fn batch_size_defaults_to_fifty_and_stops_at_a_hundred() {
    let ids: Vec<String> = (0..230).map(|i| format!("token{:03}", i)).collect();
    let mut engine = Crowdfund::instantiate("tokens".to_string(), true);
    for chunk in ids.chunks(100) {
        let msgs: Vec<CrowdfundMintMsg> = chunk.iter().map(|id| mint_msg(id)).collect();
        engine.execute_mint(&owner(), true, msgs, &ENGINE.to_string()).unwrap();
    }
    engine
        .execute_start_sale(&owner(), true, &block(1_000), None, 2_000, coin(10), 0, None, recipient())
        .unwrap();
    let anyone = info("anyone", vec![]);
    assert_eq!(engine.execute_end_sale(&anyone, false, &block(2_000), false, None).unwrap().len(), 50);
    assert_eq!(engine.execute_end_sale(&anyone, false, &block(2_000), false, Some(1_000)).unwrap().len(), 100);
    assert_eq!(engine.execute_end_sale(&anyone, false, &block(2_000), false, Some(100)).unwrap().len(), 80);
    assert_eq!(engine.number_of_tokens_available(), 0);
    assert!(engine.query_state().is_some());
    assert!(engine.execute_end_sale(&anyone, false, &block(2_000), false, Some(99)).unwrap().is_empty());
    assert_eq!(engine.query_state(), None);
}

#[test]
fn drain_is_idempotent_once_the_sale_is_cleared() {
    let mut engine = on_sale(&["t1", "t2"], 1, None);
    engine.execute_purchase(&info("alice", vec![coin(10)]), &block(1_500), Some(1), &no_split(10)).unwrap();
    let anyone = info("anyone", vec![]);
    while engine.query_state().is_some() {
        engine.execute_end_sale(&anyone, false, &block(2_000), false, None).unwrap();
    }
    let settled = (engine.query_config(), engine.sale_conducted, engine.query_available_tokens(None, None));
    for _ in 0..3 {
        let cmds = engine.execute_end_sale(&anyone, false, &block(3_000), false, Some(7)).unwrap();
        assert!(cmds.is_empty());
        assert_eq!(engine.query_state(), None);
        assert!(engine.purchases.entries.is_empty());
        assert_eq!(
            (engine.query_config(), engine.sale_conducted, engine.query_available_tokens(None, None)),
            settled
        );
    }
    // A new sale can be opened.
    engine.execute_mint(&owner(), true, vec![mint_msg("t9")], &ENGINE.to_string()).unwrap();
    assert!(engine
        .execute_start_sale(&owner(), true, &block(3_000), None, 4_000, coin(10), 1, None, recipient())
        .is_ok());
}

#[test]
fn path_stays_once_the_sale_is_closed_to_purchases() {
    let mut engine = on_sale(&["t1", "t2", "t3"], 2, Some(1));
    engine.execute_purchase(&info("alice", vec![coin(10)]), &block(1_500), Some(1), &no_split(10)).unwrap();
    let anyone = info("anyone", vec![]);
    // The sale ends with one token sold of two: it is refunded.
    let cmds = engine.execute_end_sale(&anyone, false, &block(2_000), false, Some(1)).unwrap();
    assert_eq!(cmds, vec![send("alice", 10), burn("t2")]);
    // Nobody can buy the minimum together after the end.
    assert_eq!(
        engine.execute_purchase(&info("bob", vec![coin(10)]), &block(2_001), Some(1), &no_split(10)),
        Err(ContractError::NoOngoingSale)
    );
    let state = engine.query_state().unwrap();
    assert!(state.amount_sold < state.min_tokens_sold);
    let cmds = engine.execute_end_sale(&anyone, false, &block(2_002), false, Some(1)).unwrap();
    assert_eq!(cmds, vec![burn("t3")]);
}

#[test]
fn no_token_is_handled_twice() {
    let mut engine = on_sale(&["t1", "t2", "t3", "t4", "t5", "t6", "t7"], 1, Some(2));
    for buyer in ["a", "b", "c"] {
        engine.execute_purchase(&info(buyer, vec![coin(20)]), &block(1_500), Some(2), &no_split(10)).unwrap();
    }
    let anyone = info("anyone", vec![]);
    let mut handled: Vec<String> = vec![];
    while engine.query_state().is_some() {
        let cmds = engine.execute_end_sale(&anyone, false, &block(2_000), false, Some(2)).unwrap();
        for c in cmds {
            match c {
                Command::TransferToken { token_id, .. } | Command::BurnToken { token_id } => {
                    assert!(!handled.contains(&token_id));
                    assert!(!engine.query_is_token_available(&token_id));
                    handled.push(token_id);
                }
                _ => {}
            }
        }
    }
    handled.sort();
    assert_eq!(handled, vec!["t1", "t2", "t3", "t4", "t5", "t6", "t7"]);
}

#[test]
fn funds_are_conserved_through_settlement() {
    let mut engine = on_sale(&["t1", "t2", "t3", "t4"], 2, Some(2));
    let mut collected: u128 = 0;
    let mut paid: u128 = 0;
    for (buyer, sent, number, split) in [
        ("a", 30u128, 2u32, taxed_split()),
        ("b", 17, 1, no_split(10)),
        ("c", 5, 1, no_split(10)),
    ] {
        if let Ok(cmds) = engine.execute_purchase(&info(buyer, vec![coin(sent)]), &block(1_500), Some(number), &split) {
            collected += sent;
            paid += sum_paid(&cmds);
        }
    }
    assert_eq!(collected - paid, 34);
    let anyone = info("anyone", vec![]);
    while engine.query_state().is_some() {
        paid += sum_paid(&engine.execute_end_sale(&anyone, false, &block(2_000), false, Some(1)).unwrap());
    }
    assert_eq!(collected, paid);
}

#[test]
fn funds_are_conserved_when_calls_interleave() {
    let mut engine = on_sale(&["t1", "t2", "t3", "t4"], 2, Some(1));
    let mut collected: u128 = 0;
    let mut paid: u128 = 0;
    let other = Coin { denom: "other".to_string(), amount: 7 };
    let calls: Vec<(&str, Vec<Coin>, u64, bool)> = vec![
        ("a", vec![other.clone(), coin(15)], 1_500, false),
        ("owner", vec![], 1_600, true),
        ("b", vec![coin(10)], 1_700, false),
        ("c", vec![coin(12), coin(3)], 1_800, false),
        ("anyone", vec![], 1_900, true),
    ];
    for (sender, funds, millis, ends) in calls {
        if ends {
            let cmds = engine
                .execute_end_sale(&info(sender, vec![]), sender == "owner", &block(millis), false, Some(1))
                .unwrap();
            paid += sum_paid_in(&cmds, DENOM);
        } else {
            let brought: u128 = funds.iter().find(|c| c.denom == DENOM).map(|c| c.amount).unwrap_or(0);
            if let Ok(cmds) = engine.execute_purchase(&info(sender, funds), &block(millis), Some(1), &taxed_split()) {
                collected += brought;
                paid += sum_paid_in(&cmds, DENOM);
            }
        }
    }
    let anyone = info("anyone", vec![]);
    while engine.query_state().is_some() {
        paid += sum_paid_in(&engine.execute_end_sale(&anyone, false, &block(2_000), false, Some(1)).unwrap(), DENOM);
    }
    // Only the first purchase was made: the owner ended the sale before the others.
    assert_eq!(collected, 15);
    assert_eq!(collected, paid);
}

#[test]
fn funds_are_conserved_through_refund() {
    let mut engine = on_sale(&["t1", "t2", "t3", "t4"], 4, Some(2));
    let mut collected: u128 = 0;
    let mut paid: u128 = 0;
    for (buyer, sent, number, split) in [
        ("a", 30u128, 2u32, taxed_split()),
        ("b", 17, 1, no_split(10)),
    ] {
        let cmds = engine.execute_purchase(&info(buyer, vec![coin(sent)]), &block(1_500), Some(number), &split).unwrap();
        collected += sent;
        paid += sum_paid(&cmds);
    }
    paid += sum_paid(&engine.execute_claim_refund(&info("b", vec![]), &block(2_000)).unwrap());
    let anyone = info("anyone", vec![]);
    while engine.query_state().is_some() {
        paid += sum_paid(&engine.execute_end_sale(&anyone, false, &block(2_000), false, Some(1)).unwrap());
    }
    assert_eq!(collected, 47);
    assert_eq!(collected, paid);
}

fn assert_counters_did_not_fall(before: &State, engine: &Crowdfund) -> State {
    let now = engine.query_state().unwrap();
    assert!(now.amount_sold >= before.amount_sold);
    assert!(now.amount_transferred >= before.amount_transferred);
    assert!(
        now.amount_to_send + now.amount_transferred
            >= before.amount_to_send + before.amount_transferred
    );
    now
}

#[test]
fn counters_of_the_sale_never_fall() {
    let mut engine = on_sale(&["t1", "t2", "t3", "t4"], 2, Some(2));
    let mut last = engine.query_state().unwrap();
    engine.execute_purchase(&info("a", vec![coin(24)]), &block(1_500), Some(2), &taxed_split()).unwrap();
    last = assert_counters_did_not_fall(&last, &engine);
    engine.execute_purchase(&info("b", vec![coin(5)]), &block(1_500), Some(1), &no_split(10)).unwrap_err();
    last = assert_counters_did_not_fall(&last, &engine);
    engine.execute_purchase(&info("b", vec![coin(10)]), &block(1_550), Some(1), &no_split(10)).unwrap();
    last = assert_counters_did_not_fall(&last, &engine);
    engine.execute_end_sale(&owner(), true, &block(1_600), false, Some(1)).unwrap();
    last = assert_counters_did_not_fall(&last, &engine);
    engine.execute_purchase(&info("c", vec![coin(10)]), &block(1_700), Some(1), &no_split(10)).unwrap_err();
    last = assert_counters_did_not_fall(&last, &engine);
    engine.execute_end_sale(&info("anyone", vec![]), false, &block(2_000), false, Some(1)).unwrap();
    last = assert_counters_did_not_fall(&last, &engine);
    assert_eq!(last.amount_sold, 3);
    assert_eq!(last.amount_transferred, 28);
    assert_eq!(last.amount_to_send, 0);
}

// Errors

#[test]
fn errors_fall_into_kinds() {
    assert_eq!(ContractError::Unauthorized.kind(), ErrorKind::Authorization);
    assert_eq!(ContractError::SaleStarted.kind(), ErrorKind::LifecycleConflict);
    assert_eq!(ContractError::SaleNotEnded.kind(), ErrorKind::LifecycleConflict);
    assert_eq!(ContractError::MinSalesExceeded.kind(), ErrorKind::LifecycleConflict);
    assert_eq!(ContractError::CannotMintAfterSaleConducted.kind(), ErrorKind::LifecycleConflict);
    assert_eq!(ContractError::NoOngoingSale.kind(), ErrorKind::NotFound);
    assert_eq!(ContractError::NoPurchases.kind(), ErrorKind::NotFound);
    assert_eq!(ContractError::TokenNotAvailable.kind(), ErrorKind::NotFound);
    assert_eq!(ContractError::AllTokensPurchased.kind(), ErrorKind::NotFound);
    assert_eq!(ContractError::TooManyMintMessages { limit: 100 }.kind(), ErrorKind::LimitExceeded);
    assert_eq!(ContractError::LimitMustNotBeZero.kind(), ErrorKind::LimitExceeded);
    assert_eq!(ContractError::NonPayable.kind(), ErrorKind::FundsError);
    assert_eq!(ContractError::InsufficientFunds.kind(), ErrorKind::FundsError);
    assert_eq!(ContractError::Overflow.kind(), ErrorKind::FundsError);
    assert_eq!(ContractError::StartTimeAfterEndTime.kind(), ErrorKind::ValidationError);
    assert_eq!(
        ContractError::StartTimeInThePast { current_time: 1, current_block: 2 }.kind(),
        ErrorKind::ValidationError
    );
    assert_eq!(ContractError::InvalidExpirationTime.kind(), ErrorKind::ValidationError);
}

// The phase of the sale

#[test]
fn phase_follows_the_record_of_the_sale() {
    let mut engine = minted(&["t1", "t2"]);
    assert_eq!(engine.phase(&block(1_500)), SalePhase::NoSale);
    engine
        .execute_start_sale(&owner(), true, &block(1_000), None, 2_000, coin(10), 2, None, recipient())
        .unwrap();
    assert_eq!(engine.phase(&block(1_500)), SalePhase::Active);
    assert_eq!(engine.phase(&block(2_000)), SalePhase::Ended { needs_refund: true });
    engine.execute_purchase(&info("alice", vec![coin(10)]), &block(1_500), Some(1), &no_split(10)).unwrap();
    engine.execute_purchase(&info("bob", vec![coin(10)]), &block(1_500), Some(1), &no_split(10)).unwrap();
    // No token is left: the sale has ended before its time, and its minimum is sold.
    assert_eq!(engine.phase(&block(1_500)), SalePhase::Ended { needs_refund: false });
    let anyone = info("anyone", vec![]);
    engine.execute_end_sale(&anyone, false, &block(1_500), false, None).unwrap();
    assert_eq!(engine.phase(&block(1_500)), SalePhase::Ended { needs_refund: false });
    engine.execute_end_sale(&anyone, false, &block(1_500), false, None).unwrap();
    assert_eq!(engine.phase(&block(1_500)), SalePhase::NoSale);
}

// Validity of a stored engine

#[test]
fn engines_left_by_operations_are_valid() {
    let mut engine = Crowdfund::instantiate("tokens".to_string(), true);
    assert!(engine.is_valid());
    engine = on_sale(&["t3", "t1", "t2", "t4"], 1, Some(2));
    assert!(engine.is_valid());
    engine.execute_purchase(&info("alice", vec![coin(20)]), &block(1_500), Some(2), &taxed_split()).unwrap_err();
    engine.execute_purchase(&info("alice", vec![coin(24)]), &block(1_500), Some(2), &taxed_split()).unwrap();
    engine.execute_purchase_by_token_id(&info("bob", vec![coin(10)]), &block(1_500), "t4".to_string(), &no_split(10)).unwrap();
    assert!(engine.is_valid());
    engine.execute_end_sale(&owner(), true, &block(1_600), false, Some(1)).unwrap();
    assert!(engine.is_valid());
}

fn purchase_of(token: &str, buyer: &str) -> Purchase {
    Purchase { token_id: token.to_string(), tax_amount: 0, msgs: vec![], purchaser: buyer.to_string() }
}

fn stored(tokens: &[&str], entries: Vec<LedgerEntry>, max_amount_per_wallet: Option<u32>) -> Crowdfund {
    Crowdfund {
        config: Config { token_address: "tokens".to_string(), can_mint_after_sale: true },
        sale_conducted: true,
        state: max_amount_per_wallet.map(|max| State {
            end_time: 2_000 * MS,
            price: coin(10),
            min_tokens_sold: 1,
            max_amount_per_wallet: max,
            amount_sold: 0,
            amount_to_send: 0,
            amount_transferred: 0,
            recipient: recipient(),
        }),
        available_tokens: TokenRegistry { tokens: tokens.iter().map(|t| t.to_string()).collect() },
        purchases: Ledger { entries },
    }
}

fn entry(buyer: &str, purchases: Vec<Purchase>) -> LedgerEntry {
    LedgerEntry { buyer: buyer.to_string(), purchases }
}

#[test]
fn inconsistent_engines_are_invalid() {
    let good = stored(
        &["t3", "t4"],
        vec![
            entry("alice", vec![purchase_of("t1", "alice"), purchase_of("t5", "alice")]),
            entry("bob", vec![purchase_of("t2", "bob")]),
        ],
        Some(2),
    );
    assert!(good.is_valid());
    // Tokens out of order, or twice.
    assert!(!stored(&["t4", "t3"], vec![], Some(1)).is_valid());
    assert!(!stored(&["t3", "t3"], vec![], Some(1)).is_valid());
    assert!(!stored(&["t3", "t3"], vec![], None).is_valid());
    // A buyer with two entries, or with none of the purchases of the entry.
    assert!(!stored(
        &[],
        vec![entry("alice", vec![purchase_of("t1", "alice")]), entry("alice", vec![purchase_of("t2", "alice")])],
        Some(2)
    )
    .is_valid());
    assert!(!stored(&[], vec![entry("alice", vec![])], Some(2)).is_valid());
    assert!(!stored(&[], vec![entry("alice", vec![purchase_of("t1", "bob")])], Some(2)).is_valid());
    // More purchases than one wallet may hold.
    assert!(!stored(
        &[],
        vec![entry("alice", vec![purchase_of("t1", "alice"), purchase_of("t2", "alice")])],
        Some(1)
    )
    .is_valid());
    // A token purchased twice, by one buyer or by two.
    assert!(!stored(
        &[],
        vec![entry("alice", vec![purchase_of("t1", "alice"), purchase_of("t1", "alice")])],
        Some(2)
    )
    .is_valid());
    assert!(!stored(
        &[],
        vec![entry("alice", vec![purchase_of("t1", "alice")]), entry("bob", vec![purchase_of("t1", "bob")])],
        Some(2)
    )
    .is_valid());
    // A purchased token that is still available.
    assert!(!stored(&["t1"], vec![entry("alice", vec![purchase_of("t1", "alice")])], Some(2)).is_valid());
    // A sale in which no wallet may purchase a token.
    assert!(!stored(&["t1"], vec![], Some(0)).is_valid());
    // Purchases without a sale.
    assert!(!stored(&[], vec![entry("alice", vec![purchase_of("t1", "alice")])], None).is_valid());
    assert!(stored(&["t1"], vec![], None).is_valid());
}

// Messages

fn context(sender: &str, funds: Vec<Coin>, is_owner: bool, millis: u64, split: FundsSplit) -> ExecuteContext {
    ExecuteContext {
        info: info(sender, funds),
        block: block(millis),
        is_owner,
        contract_address: ENGINE.to_string(),
        split,
        is_token_contract: true,
        end_condition_met: false,
    }
}

#[test]
fn messages_are_carried_out_by_their_operations() {
    let mut engine = Crowdfund::instantiate("tokens".to_string(), true);
    let by_owner = context("owner", vec![], true, 1_000, no_split(10));
    assert!(engine
        .handle_execute(&by_owner, ExecuteMsg::UpdateTokenContract { address: "other".to_string() })
        .unwrap()
        .is_empty());
    assert_eq!(engine.query_config().token_address, "other");
    let cmds = engine
        .handle_execute(&by_owner, ExecuteMsg::Mint(vec![mint_msg("t1"), mint_msg("t2"), mint_msg("t3")]))
        .unwrap();
    assert_eq!(cmds.len(), 3);
    engine
        .handle_execute(
            &by_owner,
            ExecuteMsg::StartSale {
                start_time: None,
                end_time: 2_000,
                price: coin(10),
                min_tokens_sold: 3,
                max_amount_per_wallet: Some(1),
                recipient: recipient(),
            },
        )
        .unwrap();
    assert_eq!(engine.query_state().unwrap().end_time, 2_000 * MS);
    let by_alice = context("alice", vec![coin(13)], false, 1_500, taxed_split());
    let cmds = engine.handle_execute(&by_alice, ExecuteMsg::Purchase { number_of_tokens: None }).unwrap();
    assert_eq!(cmds, vec![send("alice", 1)]);
    let by_bob = context("bob", vec![coin(10)], false, 1_500, no_split(10));
    assert_eq!(
        engine.handle_execute(&by_bob, ExecuteMsg::PurchaseByTokenId { token_id: "t1".to_string() }),
        Err(ContractError::TokenNotAvailable)
    );
    engine.handle_execute(&by_bob, ExecuteMsg::PurchaseByTokenId { token_id: "t3".to_string() }).unwrap();
    let alice_later = context("alice", vec![], false, 2_000, no_split(10));
    let cmds = engine.handle_execute(&alice_later, ExecuteMsg::ClaimRefund {}).unwrap();
    assert_eq!(cmds, vec![send("alice", 12)]);
    let cmds = engine.handle_execute(&alice_later, ExecuteMsg::EndSale { limit: Some(5) }).unwrap();
    assert_eq!(cmds, vec![send("bob", 10), burn("t2")]);
    let mut met = context("anyone", vec![], false, 2_000, no_split(10));
    met.end_condition_met = true;
    assert!(engine.handle_execute(&met, ExecuteMsg::EndSale { limit: None }).unwrap().is_empty());
    assert_eq!(engine.query_state(), None);
}

#[test]
fn context_answers_for_the_token_contract() {
    let mut engine = Crowdfund::instantiate("tokens".to_string(), true);
    let mut ctx = context("owner", vec![], true, 1_000, no_split(10));
    ctx.is_token_contract = false;
    assert_eq!(
        engine.handle_execute(&ctx, ExecuteMsg::UpdateTokenContract { address: "other".to_string() }),
        Err(ContractError::Unauthorized)
    );
}

// The parts of the operations

#[test]
fn strings_compare_by_their_bytes() {
    assert!(str_lt("", "a"));
    assert!(!str_lt("a", ""));
    assert!(!str_lt("a", "a"));
    assert!(str_lt("a", "ab"));
    assert!(str_lt("ab", "b"));
    assert!(str_lt("B", "a"));
    assert!(str_lt("token10", "token2"));
    assert!(str_lt("z", "é"));
    assert!(str_lt("é", "日"));
    assert!(!str_lt("日", "é"));
}

#[test]
fn registry_keeps_tokens_in_order() {
    let mut registry = TokenRegistry::new();
    for id in ["m", "a", "z", "m", "b"] {
        registry.insert(id.to_string());
    }
    assert_eq!(registry.tokens, vec!["a", "b", "m", "z"]);
    assert_eq!(registry.len(), 4);
    assert_eq!(registry.position(&"m".to_string()), Some(2));
    assert_eq!(registry.position(&"q".to_string()), None);
    assert!(registry.remove(&"b".to_string()));
    assert!(!registry.remove(&"b".to_string()));
    assert_eq!(registry.tokens, vec!["a", "m", "z"]);
    assert_eq!(registry.page(Some(&"a".to_string()), 5), vec!["m", "z"]);
    assert_eq!(registry.take_first(2), vec!["a", "m"]);
    assert_eq!(registry.tokens, vec!["z"]);
    assert_eq!(registry.take_first(2), vec!["z"]);
    assert!(registry.tokens.is_empty());
    assert!(registry.take_first(2).is_empty());
}

#[test]
fn ledger_records_and_removes_entries() {
    let mut ledger = Ledger::new();
    ledger.record("alice".to_string(), vec![purchase_of("t1", "alice")]);
    ledger.record("bob".to_string(), vec![purchase_of("t2", "bob")]);
    ledger.record("alice".to_string(), vec![purchase_of("t3", "alice"), purchase_of("t4", "alice")]);
    assert_eq!(ledger.len(), 2);
    assert_eq!(ledger.purchased_by(&"alice".to_string()), 3);
    assert_eq!(ledger.purchased_by(&"bob".to_string()), 1);
    assert_eq!(ledger.purchased_by(&"carol".to_string()), 0);
    assert_eq!(ledger.position(&"bob".to_string()), Some(1));
    assert_eq!(ledger.remove(&"carol".to_string()), None);
    let alice = ledger.remove(&"alice".to_string()).unwrap();
    assert_eq!(alice.buyer, "alice");
    let tokens: Vec<&str> = alice.purchases.iter().map(|p| p.token_id.as_str()).collect();
    assert_eq!(tokens, vec!["t1", "t3", "t4"]);
    assert_eq!(ledger.len(), 1);
    ledger.record("carol".to_string(), vec![purchase_of("t5", "carol")]);
    let first = ledger.take_first(1);
    assert_eq!(first.len(), 1);
    assert_eq!(first[0].buyer, "bob");
    assert_eq!(ledger.entries[0].buyer, "carol");
    assert_eq!(ledger.take_first(5).len(), 1);
    assert!(ledger.entries.is_empty());
}

#[test]
fn payments_are_added_up() {
    assert_eq!(total_payments(&vec![]), Some(0));
    assert_eq!(total_payments(&taxed_split().msgs), Some(3));
    let without_coin = vec![Payment { to_address: "x".to_string(), amount: vec![] }];
    assert_eq!(total_payments(&without_coin), None);
    let too_much = vec![
        Payment { to_address: "x".to_string(), amount: vec![coin(u128::MAX)] },
        Payment { to_address: "y".to_string(), amount: vec![coin(1)] },
    ];
    assert_eq!(total_payments(&too_much), None);
}

#[test]
fn quote_gives_tax_and_payment() {
    let engine = on_sale(&["t1"], 1, None);
    let state = engine.query_state().unwrap();
    assert_eq!(quote_purchase(&state, &vec![coin(100)], 3, &taxed_split()), Ok((2, 36)));
    assert_eq!(quote_purchase(&state, &vec![coin(36)], 3, &taxed_split()), Ok((2, 36)));
    assert_eq!(
        quote_purchase(&state, &vec![coin(35)], 3, &taxed_split()),
        Err(ContractError::InsufficientFunds)
    );
    assert_eq!(quote_purchase(&state, &vec![coin(100)], 3, &no_split(10)), Ok((0, 30)));
    assert_eq!(
        quote_purchase(&state, &vec![coin(100)], 0, &no_split(10)),
        Err(ContractError::AllTokensPurchased)
    );
}

#[test]
fn refund_of_an_entry_adds_price_and_tax() {
    let mut first = purchase_of("t1", "alice");
    first.tax_amount = 3;
    let alice = entry("alice", vec![first, purchase_of("t2", "alice")]);
    assert_eq!(process_refund(&alice, &coin(10)), Ok(vec![send("alice", 23)]));
    assert_eq!(process_refund(&alice, &coin(0)), Ok(vec![send("alice", 3)]));
    assert_eq!(process_refund(&alice, &coin(u128::MAX / 2)), Err(ContractError::Overflow));
    let free = entry("bob", vec![purchase_of("t3", "bob")]);
    assert_eq!(process_refund(&free, &coin(0)), Ok(vec![]));
}

#[test]
fn burn_messages_name_the_tokens() {
    assert_eq!(
        get_burn_messages(vec!["t1".to_string(), "t2".to_string()]),
        vec![burn("t1"), burn("t2")]
    );
    assert!(get_burn_messages(vec![]).is_empty());
}

#[test]
fn limit_defaults_to_fifty_and_stops_at_a_hundred() {
    assert_eq!(resolve_limit(None), 50);
    assert_eq!(resolve_limit(Some(0)), 0);
    assert_eq!(resolve_limit(Some(99)), 99);
    assert_eq!(resolve_limit(Some(100)), 100);
    assert_eq!(resolve_limit(Some(101)), 100);
    assert_eq!(resolve_limit(Some(u32::MAX)), 100);
}
