use crate::coin::{view_seq, BlockInfo, Coin, MessageInfo};
use crate::error::ContractError;
use crate::ledger::Ledger;
use crate::model::{
    mint_command, mint_step, minted_tokens, phase_of, start_sale_step,
    update_token_contract_step, wf, CrowdfundView, Step, DEFAULT_LIMIT,
    DEFAULT_MAX_AMOUNT_PER_WALLET, MAX_MINT_LIMIT,
};
use crate::outside::{
    expiration_from_milliseconds, get_and_validate_start_time, is_expired, nonpayable,
};
use crate::registry::{token_page, TokenRegistry};
use crate::state::{
    clone_text, state_view, text_of, Command, CommandView, Config, CrowdfundMintMsg, MintView,
    Recipient, SalePhase, State, TokenExtension,
};
use vstd::prelude::*;

verus! {

/// The sale engine: its settings, the sale that is open or being settled,
/// the tokens that are available, and the purchases that were made.
#[derive(Debug, PartialEq, Eq)]
pub struct Crowdfund {
    pub config: Config,
    /// Whether a sale was ever opened.
    pub sale_conducted: bool,
    /// The sale that is open or being settled, if there is one.
    pub state: Option<State>,
    pub available_tokens: TokenRegistry,
    pub purchases: Ledger,
}

impl View for Crowdfund {
    type V = CrowdfundView;

    open spec fn view(&self) -> CrowdfundView {
        CrowdfundView {
            config: self.config@,
            sale_conducted: self.sale_conducted,
            state: state_view(self.state),
            tokens: self.available_tokens@,
            ledger: self.purchases@,
        }
    }
}

/// Whether an operation did what `step` says: it handed out the commands of
/// the step and left the engine as the step does, or it was refused for the
/// reason of the step and left the engine as it was.
pub open spec fn agrees(
    step: Step,
    before: CrowdfundView,
    after: CrowdfundView,
    r: Result<Vec<Command>, ContractError>,
) -> bool {
    match r {
        Ok(cmds) => step == Ok::<(CrowdfundView, Seq<CommandView>), ContractError>(
            (after, view_seq(cmds@)),
        ),
        Err(e) => step == Err::<(CrowdfundView, Seq<CommandView>), ContractError>(e) && after
            == before,
    }
}

impl Crowdfund {
    /// Whether the engine is in a state that its operations can reach.
    pub open spec fn wf(&self) -> bool {
        wf(self@)
    }

    /// An engine that sells the tokens of `token_address`: no sale was
    /// conducted, no token is available and nothing was purchased.
    pub fn instantiate(token_address: String, can_mint_after_sale: bool) -> (r: Crowdfund)
        ensures
            r.wf(),
            r@.config.token_address == token_address@,
            r@.config.can_mint_after_sale == can_mint_after_sale,
            !r@.sale_conducted,
            r@.state is None,
            r@.tokens.len() == 0,
            r@.ledger.len() == 0,
    {
        Crowdfund {
            config: Config { token_address, can_mint_after_sale },
            sale_conducted: false,
            state: None,
            available_tokens: TokenRegistry::new(),
            purchases: Ledger::new(),
        }
    }

    /// The sale that is open or being settled, if there is one.
    pub fn query_state(&self) -> (r: Option<State>)
        ensures
            state_view(r) == self@.state,
    {
        match &self.state {
            Some(st) => Some(st.clone()),
            None => None,
        }
    }

    /// The settings of the engine.
    pub fn query_config(&self) -> (r: Config)
        ensures
            r@ == self@.config,
    {
        self.config.clone()
    }

    /// One page of the available tokens in ascending order: those after
    /// `start_after`, at most `limit` of them, and at most fifty where no
    /// limit is given.
    pub fn query_available_tokens(&self, start_after: Option<String>, limit: Option<u32>) -> (r:
        Vec<String>)
        requires
            self.wf(),
        ensures
            view_seq(r@) == token_page(
                self@.tokens,
                text_of(start_after),
                match limit {
                    Some(l) => l as int,
                    None => DEFAULT_LIMIT as int,
                },
            ),
    {
        let n: u32 = match limit {
            Some(l) => l,
            None => DEFAULT_LIMIT,
        };
        self.available_tokens.page(start_after.as_ref(), n as usize)
    }

    /// Whether the token `id` is available.
    pub fn query_is_token_available(&self, id: &String) -> (r: bool)
        ensures
            r == self@.tokens.contains(id@),
    {
        self.available_tokens.has(id)
    }

    /// The phase of the life of the sale in the block `block`.
    pub fn phase(&self, block: &BlockInfo) -> (r: SalePhase)
        ensures
            r == phase_of(self@, block.time),
    {
        match &self.state {
            None => SalePhase::NoSale,
            Some(state) => if is_expired(state.end_time, block) || self.available_tokens.len()
                == 0 {
                SalePhase::Ended { needs_refund: state.amount_sold < state.min_tokens_sold }
            } else {
                SalePhase::Active
            },
        }
    }

    /// The number of available tokens.
    pub fn number_of_tokens_available(&self) -> (n: usize)
        ensures
            n == self@.tokens.len(),
    {
        self.available_tokens.len()
    }

    /// Mints one token: it becomes available where the engine, whose address
    /// is `crowdfund_contract`, is its owner.
    fn mint(&mut self, crowdfund_contract: &String, mint_msg: &CrowdfundMintMsg) -> (c: Command)
        requires
            old(self).wf(),
            old(self)@.ledger.len() == 0,
        ensures
            final(self).wf(),
            c@ == mint_command(mint_msg@, crowdfund_contract@),
            final(self)@ == (CrowdfundView {
                tokens: minted_tokens(old(self)@.tokens, seq![mint_msg@], crowdfund_contract@),
                ..old(self)@
            }),
    {
        let owner: String = match &mint_msg.owner {
            Some(o) => o.clone(),
            None => crowdfund_contract.clone(),
        };
        proof {
            let one = seq![mint_msg@];
            assert(one.drop_last() =~= Seq::<MintView>::empty());
            assert(one.last() == mint_msg@);
            assert(minted_tokens(self@.tokens, one.drop_last(), crowdfund_contract@)
                == self@.tokens);
        }
        if owner == *crowdfund_contract {
            self.available_tokens.insert(mint_msg.token_id.clone());
        }
        Command::Mint {
            token_id: mint_msg.token_id.clone(),
            owner,
            token_uri: clone_text(&mint_msg.token_uri),
            extension: TokenExtension { publisher: mint_msg.extension.publisher.clone() },
        }
    }

    /// Mints tokens for a future sale. See [`mint_step`].
    pub fn execute_mint(
        &mut self,
        info: &MessageInfo,
        is_owner: bool,
        mint_msgs: Vec<CrowdfundMintMsg>,
        contract_address: &String,
    ) -> (r: Result<Vec<Command>, ContractError>)
        requires
            old(self).wf(),
        ensures
            final(self).wf(),
            agrees(
                mint_step(old(self)@, info@, is_owner, view_seq(mint_msgs@), contract_address@),
                old(self)@,
                final(self)@,
                r,
            ),
    {
        if let Err(e) = nonpayable(info) {
            return Err(e);
        }
        if mint_msgs.len() > MAX_MINT_LIMIT as usize {
            return Err(ContractError::TooManyMintMessages { limit: MAX_MINT_LIMIT });
        }
        if !is_owner {
            return Err(ContractError::Unauthorized);
        }
        if self.state.is_some() {
            return Err(ContractError::SaleStarted);
        }
        if !self.config.can_mint_after_sale && self.sale_conducted {
            return Err(ContractError::CannotMintAfterSaleConducted);
        }
        let ghost before = self@;
        let ghost mints = view_seq(mint_msgs@);
        let ghost engine = contract_address@;
        let mut cmds: Vec<Command> = Vec::new();
        let mut i: usize = 0;
        assert(mints.take(0) =~= Seq::empty());
        while i < mint_msgs.len()
            invariant
                i <= mint_msgs@.len(),
                mints == view_seq(mint_msgs@),
                engine == contract_address@,
                self.wf(),
                self@ == (CrowdfundView {
                    tokens: minted_tokens(before.tokens, mints.take(i as int), engine),
                    ..before
                }),
                before.ledger.len() == 0,
                cmds@.len() == i,
                forall|j: int| 0 <= j < i ==> (#[trigger] cmds@[j])@ == mint_command(mints[j], engine),
            decreases mint_msgs@.len() - i,
        {
            let ghost so_far = self@.tokens;
            let cmd = self.mint(contract_address, &mint_msgs[i]);
            cmds.push(cmd);
            proof {
                let one = seq![mints[i as int]];
                assert(one.drop_last() =~= Seq::<MintView>::empty());
                assert(minted_tokens(so_far, one.drop_last(), engine) == so_far);
                let next = mints.take(i + 1);
                assert(next.drop_last() =~= mints.take(i as int));
                assert(next.last() == mints[i as int]);
            }
            i += 1;
        }
        proof {
            assert(mints.take(i as int) =~= mints);
            assert(view_seq(cmds@) =~= Seq::new(
                mints.len(),
                |j: int| mint_command(mints[j], engine),
            ));
        }
        Ok(cmds)
    }

    /// Points the engine at another token contract. Whether `address` answers
    /// as a token contract is for the caller to find out. See
    /// [`update_token_contract_step`].
    pub fn execute_update_token_contract(
        &mut self,
        info: &MessageInfo,
        is_owner: bool,
        address: String,
        is_token_contract: bool,
    ) -> (r: Result<Vec<Command>, ContractError>)
        requires
            old(self).wf(),
        ensures
            final(self).wf(),
            agrees(
                update_token_contract_step(
                    old(self)@,
                    info@,
                    is_owner,
                    address@,
                    is_token_contract,
                ),
                old(self)@,
                final(self)@,
                r,
            ),
    {
        if let Err(e) = nonpayable(info) {
            return Err(e);
        }
        if !is_owner {
            return Err(ContractError::Unauthorized);
        }
        if self.available_tokens.len() > 0 {
            return Err(ContractError::Unauthorized);
        }
        if !is_token_contract {
            return Err(ContractError::Unauthorized);
        }
        self.config.token_address = address;
        let cmds: Vec<Command> = Vec::new();
        assert(view_seq(cmds@) =~= Seq::<CommandView>::empty());
        Ok(cmds)
    }

    /// Opens a sale. Times are given in milliseconds, and every wallet may
    /// purchase at least one token. See [`start_sale_step`].
    pub fn execute_start_sale(
        &mut self,
        info: &MessageInfo,
        is_owner: bool,
        block: &BlockInfo,
        start_time: Option<u64>,
        end_time: u64,
        price: Coin,
        min_tokens_sold: u128,
        max_amount_per_wallet: Option<u32>,
        recipient: Recipient,
    ) -> (r: Result<Vec<Command>, ContractError>)
        requires
            old(self).wf(),
        ensures
            final(self).wf(),
            agrees(
                start_sale_step(
                    old(self)@,
                    info@,
                    is_owner,
                    *block,
                    start_time,
                    end_time,
                    price@,
                    min_tokens_sold as nat,
                    max_amount_per_wallet,
                    recipient@,
                ),
                old(self)@,
                final(self)@,
                r,
            ),
    {
        if let Err(e) = nonpayable(info) {
            return Err(e);
        }
        if !is_owner {
            return Err(ContractError::Unauthorized);
        }
        let start = match get_and_validate_start_time(block, start_time) {
            Ok(t) => t,
            Err(e) => {
                return Err(e);
            },
        };
        let end = match expiration_from_milliseconds(end_time) {
            Ok(t) => t,
            Err(e) => {
                return Err(e);
            },
        };
        if end <= start {
            return Err(ContractError::StartTimeAfterEndTime);
        }
        if self.state.is_some() {
            return Err(ContractError::SaleStarted);
        }
        let max_amount_per_wallet: u32 = match max_amount_per_wallet {
            Some(m) => if m >= 1 {
                m
            } else {
                1
            },
            None => DEFAULT_MAX_AMOUNT_PER_WALLET,
        };
        self.state = Some(
            State {
                end_time: end,
                price,
                min_tokens_sold,
                max_amount_per_wallet,
                amount_sold: 0,
                amount_to_send: 0,
                amount_transferred: 0,
                recipient,
            },
        );
        self.sale_conducted = true;
        let cmds: Vec<Command> = Vec::new();
        assert(view_seq(cmds@) =~= Seq::<CommandView>::empty());
        Ok(cmds)
    }
}

} // verus!
