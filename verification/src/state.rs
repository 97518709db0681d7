use crate::coin::{clone_coins, view_seq, Coin, CoinView, Payment, PaymentView};
use vstd::prelude::*;

verus! {

/// A copy of a list of bytes.
pub fn clone_bytes(bytes: &Vec<u8>) -> (r: Vec<u8>)
    ensures
        r@ == bytes@,
{
    let mut r: Vec<u8> = Vec::new();
    let mut i: usize = 0;
    while i < bytes.len()
        invariant
            i <= bytes.len(),
            r@ == bytes@.take(i as int),
        decreases bytes.len() - i,
    {
        r.push(bytes[i]);
        assert(bytes@.take(i as int).push(bytes@[i as int]) =~= bytes@.take(i + 1));
        i += 1;
    }
    assert(bytes@.take(i as int) =~= bytes@);
    r
}

/// The text of an optional string.
pub open spec fn text_of(s: Option<String>) -> Option<Seq<char>> {
    match s {
        Some(t) => Some(t@),
        None => None,
    }
}

/// A copy of an optional string.
pub fn clone_text(s: &Option<String>) -> (r: Option<String>)
    ensures
        text_of(r) == text_of(*s),
{
    match s {
        Some(t) => Some(t.clone()),
        None => None,
    }
}

/// The settings of the engine.
#[derive(Debug, PartialEq, Eq)]
pub struct Config {
    /// The contract whose tokens are sold.
    pub token_address: String,
    /// Whether tokens may be minted once a sale has been conducted.
    pub can_mint_after_sale: bool,
}

pub struct ConfigView {
    pub token_address: Seq<char>,
    pub can_mint_after_sale: bool,
}

impl View for Config {
    type V = ConfigView;

    open spec fn view(&self) -> ConfigView {
        ConfigView {
            token_address: self.token_address@,
            can_mint_after_sale: self.can_mint_after_sale,
        }
    }
}

impl Clone for Config {
    fn clone(&self) -> (r: Self)
        ensures
            r@ == self@,
    {
        Config {
            token_address: self.token_address.clone(),
            can_mint_after_sale: self.can_mint_after_sale,
        }
    }
}

/// Who receives the proceeds of a sale, and the message that goes with them.
#[derive(Debug, PartialEq, Eq)]
pub struct Recipient {
    pub address: String,
    pub msg: Option<Vec<u8>>,
    pub ibc_recovery_address: Option<String>,
}

pub struct RecipientView {
    pub address: Seq<char>,
    pub msg: Option<Seq<u8>>,
    pub ibc_recovery_address: Option<Seq<char>>,
}

impl View for Recipient {
    type V = RecipientView;

    open spec fn view(&self) -> RecipientView {
        RecipientView {
            address: self.address@,
            msg: match self.msg {
                Some(m) => Some(m@),
                None => None,
            },
            ibc_recovery_address: text_of(self.ibc_recovery_address),
        }
    }
}

impl Clone for Recipient {
    fn clone(&self) -> (r: Self)
        ensures
            r@ == self@,
    {
        Recipient {
            address: self.address.clone(),
            msg: match &self.msg {
                Some(m) => Some(clone_bytes(m)),
                None => None,
            },
            ibc_recovery_address: clone_text(&self.ibc_recovery_address),
        }
    }
}

/// The record of the sale that is open or being settled.
#[derive(Debug, PartialEq, Eq)]
pub struct State {
    /// When the sale ends, in nanoseconds.
    pub end_time: u64,
    /// The price of one token.
    pub price: Coin,
    /// The number of tokens that must be sold for the sale to go through.
    pub min_tokens_sold: u128,
    /// The number of tokens that one wallet may purchase.
    pub max_amount_per_wallet: u32,
    /// The number of tokens sold so far.
    pub amount_sold: u128,
    /// The proceeds, net of the split, that wait to be sent to the recipient.
    pub amount_to_send: u128,
    /// The proceeds that were sent to the recipient already.
    pub amount_transferred: u128,
    /// Who receives the proceeds if the sale goes through.
    pub recipient: Recipient,
}

pub struct StateView {
    pub end_time: nat,
    pub price: CoinView,
    pub min_tokens_sold: nat,
    pub max_amount_per_wallet: nat,
    pub amount_sold: nat,
    pub amount_to_send: nat,
    pub amount_transferred: nat,
    pub recipient: RecipientView,
}

impl View for State {
    type V = StateView;

    open spec fn view(&self) -> StateView {
        StateView {
            end_time: self.end_time as nat,
            price: self.price@,
            min_tokens_sold: self.min_tokens_sold as nat,
            max_amount_per_wallet: self.max_amount_per_wallet as nat,
            amount_sold: self.amount_sold as nat,
            amount_to_send: self.amount_to_send as nat,
            amount_transferred: self.amount_transferred as nat,
            recipient: self.recipient@,
        }
    }
}

impl Clone for State {
    fn clone(&self) -> (r: Self)
        ensures
            r@ == self@,
    {
        State {
            end_time: self.end_time,
            price: self.price.clone(),
            min_tokens_sold: self.min_tokens_sold,
            max_amount_per_wallet: self.max_amount_per_wallet,
            amount_sold: self.amount_sold,
            amount_to_send: self.amount_to_send,
            amount_transferred: self.amount_transferred,
            recipient: self.recipient.clone(),
        }
    }
}

/// The view of an optional sale record.
pub open spec fn state_view(s: Option<State>) -> Option<StateView> {
    match s {
        Some(st) => Some(st@),
        None => None,
    }
}

/// The phase of the life of a sale, as the record of the sale shows it.
#[derive(Clone, Copy, Debug, PartialEq, Eq, Structural)]
pub enum SalePhase {
    /// No sale exists. Tokens can be minted and a sale can be opened.
    NoSale,
    /// A sale exists, its end time lies ahead and tokens are available.
    Active,
    /// A sale exists and has ended: its end time has passed or no token is
    /// available. It is refunded where fewer tokens were sold than the
    /// minimum, and settled where not, until nothing is left of it.
    Ended { needs_refund: bool },
}

/// What the split of one token's price came to: the payments it calls for,
/// and what is left of the price for the recipient of the proceeds.
#[derive(Debug, PartialEq, Eq)]
pub struct FundsSplit {
    pub msgs: Vec<Payment>,
    pub remainder: u128,
}

pub struct FundsSplitView {
    pub msgs: Seq<PaymentView>,
    pub remainder: nat,
}

impl View for FundsSplit {
    type V = FundsSplitView;

    open spec fn view(&self) -> FundsSplitView {
        FundsSplitView { msgs: view_seq(self.msgs@), remainder: self.remainder as nat }
    }
}

/// What is stored with a token beyond its owner and its address.
#[derive(Debug, PartialEq, Eq)]
pub struct TokenExtension {
    pub publisher: String,
}

/// A token to mint.
#[derive(Debug, PartialEq, Eq)]
pub struct CrowdfundMintMsg {
    pub token_id: String,
    /// The owner of the token; the engine itself where none is named.
    pub owner: Option<String>,
    pub token_uri: Option<String>,
    pub extension: TokenExtension,
}

pub struct MintView {
    pub token_id: Seq<char>,
    pub owner: Option<Seq<char>>,
    pub token_uri: Option<Seq<char>>,
    pub publisher: Seq<char>,
}

impl View for CrowdfundMintMsg {
    type V = MintView;

    open spec fn view(&self) -> MintView {
        MintView {
            token_id: self.token_id@,
            owner: text_of(self.owner),
            token_uri: text_of(self.token_uri),
            publisher: self.extension.publisher@,
        }
    }
}

/// A command that the engine hands out for others to carry out.
#[derive(Debug, PartialEq, Eq)]
pub enum Command {
    /// Create a token for an owner.
    Mint { token_id: String, owner: String, token_uri: Option<String>, extension: TokenExtension },
    /// Hand a purchased token to its buyer.
    TransferToken { recipient: String, token_id: String },
    /// Destroy a token that was not sold.
    BurnToken { token_id: String },
    /// Pay coins to an address.
    Send { to_address: String, amount: Vec<Coin> },
    /// Forward the proceeds of the sale to their recipient.
    ForwardFunds { to: Recipient, funds: Coin },
}

pub enum CommandView {
    Mint { token_id: Seq<char>, owner: Seq<char>, token_uri: Option<Seq<char>>, publisher: Seq<char> },
    TransferToken { recipient: Seq<char>, token_id: Seq<char> },
    BurnToken { token_id: Seq<char> },
    Send { to_address: Seq<char>, amount: Seq<CoinView> },
    ForwardFunds { to: RecipientView, funds: CoinView },
}

impl View for Command {
    type V = CommandView;

    open spec fn view(&self) -> CommandView {
        match self {
            Command::Mint { token_id, owner, token_uri, extension } => CommandView::Mint {
                token_id: token_id@,
                owner: owner@,
                token_uri: text_of(*token_uri),
                publisher: extension.publisher@,
            },
            Command::TransferToken { recipient, token_id } => CommandView::TransferToken {
                recipient: recipient@,
                token_id: token_id@,
            },
            Command::BurnToken { token_id } => CommandView::BurnToken { token_id: token_id@ },
            Command::Send { to_address, amount } => CommandView::Send {
                to_address: to_address@,
                amount: view_seq(amount@),
            },
            Command::ForwardFunds { to, funds } => CommandView::ForwardFunds {
                to: to@,
                funds: funds@,
            },
        }
    }
}

/// The command that carries out a payment.
pub open spec fn send_command(p: PaymentView) -> CommandView {
    CommandView::Send { to_address: p.to_address, amount: p.amount }
}

/// The command that carries out a payment.
pub fn payment_command(p: &Payment) -> (c: Command)
    ensures
        c@ == send_command(p@),
{
    Command::Send { to_address: p.to_address.clone(), amount: clone_coins(&p.amount) }
}

} // verus!
