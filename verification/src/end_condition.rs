use crate::coin::BlockInfo;
use crate::outside::is_expired;
use vstd::prelude::*;

verus! {

/// What the end conditions of a sale read: its times, its sales, and the
/// optional conditions that its owner has set.
#[derive(Clone, Copy, Debug, PartialEq, Eq)]
pub struct SaleProgress {
    /// When the sale started.
    pub start_time: u64,
    /// When the sale ends.
    pub end_time: u64,
    /// The number of tokens that must be sold for the sale to go through.
    pub min_tokens_sold: u128,
    /// The number of tokens sold so far.
    pub amount_sold: u128,
    /// The number of tokens that were for sale.
    pub total_tokens: u128,
    /// The share of the tokens, in percent, whose sale ends the sale.
    pub target_percentage_sold: Option<u128>,
    /// The time since the start beyond which the sale does not go on.
    pub max_duration: Option<u64>,
    /// Whether the owner has ended the sale.
    pub owner_ended: bool,
}

impl SaleProgress {
    /// Whether the end time of the sale has been reached.
    pub open spec fn is_sale_expired(self, block: BlockInfo) -> bool {
        block.time >= self.end_time
    }

    /// Whether the minimum number of tokens was sold.
    pub open spec fn is_minimum_sold(self) -> bool {
        self.amount_sold >= self.min_tokens_sold
    }

    /// Whether a target share is set and the share of tokens sold, in whole
    /// percent, has reached it. A share that cannot be computed, of no
    /// tokens or of more than fit a hundred times into the range of
    /// amounts, has not reached it.
    pub open spec fn is_target_percentage_sold(self) -> bool {
        match self.target_percentage_sold {
            Some(target) => self.total_tokens > 0 && self.amount_sold * 100 <= u128::MAX
                && self.amount_sold * 100 / (self.total_tokens as int) >= target,
            None => false,
        }
    }

    /// Whether a longest duration is set and more time than that has passed
    /// since the start of the sale.
    pub open spec fn is_max_duration_reached(self, block: BlockInfo) -> bool {
        match self.max_duration {
            Some(max_duration) => block.time - self.start_time > max_duration,
            None => false,
        }
    }

    /// Whether any end condition of the sale holds.
    pub open spec fn ended(self, block: BlockInfo) -> bool {
        self.is_sale_expired(block) || self.is_minimum_sold() || self.is_target_percentage_sold()
            || self.is_max_duration_reached(block) || self.owner_ended
    }
}

/// Whether the sale has met one of its end conditions: its end time was
/// reached, its minimum was sold, its target share was sold, its longest
/// duration has passed, or its owner has ended it. A condition that is not
/// set is not met.
pub fn end_condition_met(state: &SaleProgress, block: &BlockInfo) -> (r: bool)
    ensures
        r == state.ended(*block),
{
    let is_sale_expired = is_expired(state.end_time, block);
    let is_minimum_sold = state.amount_sold >= state.min_tokens_sold;
    let is_target_percentage_sold = match state.target_percentage_sold {
        Some(target_percentage) => match state.amount_sold.checked_mul(100) {
            Some(hundredfold) => state.total_tokens > 0 && hundredfold / state.total_tokens
                >= target_percentage,
            None => false,
        },
        None => false,
    };
    let is_max_duration_reached = match state.max_duration {
        Some(max_duration) => block.time >= state.start_time && block.time - state.start_time
            > max_duration,
        None => false,
    };
    is_sale_expired || is_minimum_sold || is_target_percentage_sold || is_max_duration_reached
        || state.owner_ended
}

} // verus!
