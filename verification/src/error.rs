use vstd::prelude::*;

verus! {

/// Why an operation on the sale was refused.
#[derive(Clone, Copy, Debug, PartialEq, Eq, Structural)]
pub enum ContractError {
    /// The caller is not allowed to perform the operation.
    Unauthorized,
    /// Coins were attached to an operation that accepts none.
    NonPayable,
    /// A sale exists, so none can be opened and nothing can be minted.
    SaleStarted,
    /// No sale is open for purchases or refunds.
    NoOngoingSale,
    /// The end time of the sale has not passed yet.
    SaleNotEnded,
    /// The minimum number of tokens was sold, so nothing is refunded.
    MinSalesExceeded,
    /// The buyer has no recorded purchase.
    NoPurchases,
    /// The requested token is not in the registry.
    TokenNotAvailable,
    /// The buyer already holds as many tokens as one wallet may.
    PurchaseLimitReached,
    /// No token is left to purchase.
    AllTokensPurchased,
    /// The attached coins do not cover the payment.
    InsufficientFunds,
    /// More tokens were handed to one mint call than it accepts.
    TooManyMintMessages { limit: u32 },
    /// Minting is closed once a sale has been conducted.
    CannotMintAfterSaleConducted,
    /// The sale would end no later than it starts.
    StartTimeAfterEndTime,
    /// The sale would start no later than the current block.
    StartTimeInThePast { current_time: u64, current_block: u64 },
    /// A time in milliseconds cannot be expressed in nanoseconds.
    InvalidExpirationTime,
    /// A settlement batch of size zero was requested.
    LimitMustNotBeZero,
    /// An amount left the range of 128-bit unsigned integers.
    Overflow,
}

/// The broad class an error belongs to.
#[derive(Clone, Copy, Debug, PartialEq, Eq, Structural)]
pub enum ErrorKind {
    Authorization,
    LifecycleConflict,
    NotFound,
    LimitExceeded,
    FundsError,
    ValidationError,
}

impl ContractError {
    /// The class of this error.
    pub open spec fn spec_kind(self) -> ErrorKind {
        match self {
            ContractError::Unauthorized => ErrorKind::Authorization,
            ContractError::SaleStarted
            | ContractError::SaleNotEnded
            | ContractError::MinSalesExceeded
            | ContractError::CannotMintAfterSaleConducted => ErrorKind::LifecycleConflict,
            ContractError::NoOngoingSale
            | ContractError::NoPurchases
            | ContractError::TokenNotAvailable
            | ContractError::AllTokensPurchased => ErrorKind::NotFound,
            ContractError::PurchaseLimitReached
            | ContractError::TooManyMintMessages { .. }
            | ContractError::LimitMustNotBeZero => ErrorKind::LimitExceeded,
            ContractError::NonPayable
            | ContractError::InsufficientFunds
            | ContractError::Overflow => ErrorKind::FundsError,
            ContractError::StartTimeAfterEndTime
            | ContractError::StartTimeInThePast { .. }
            | ContractError::InvalidExpirationTime => ErrorKind::ValidationError,
        }
    }

    /// The class of this error.
    #[verifier::when_used_as_spec(spec_kind)]
    pub fn kind(self) -> (k: ErrorKind)
        ensures
            k == self.spec_kind(),
    {
        match self {
            ContractError::Unauthorized => ErrorKind::Authorization,
            ContractError::SaleStarted
            | ContractError::SaleNotEnded
            | ContractError::MinSalesExceeded
            | ContractError::CannotMintAfterSaleConducted => ErrorKind::LifecycleConflict,
            ContractError::NoOngoingSale
            | ContractError::NoPurchases
            | ContractError::TokenNotAvailable
            | ContractError::AllTokensPurchased => ErrorKind::NotFound,
            ContractError::PurchaseLimitReached
            | ContractError::TooManyMintMessages { .. }
            | ContractError::LimitMustNotBeZero => ErrorKind::LimitExceeded,
            ContractError::NonPayable
            | ContractError::InsufficientFunds
            | ContractError::Overflow => ErrorKind::FundsError,
            ContractError::StartTimeAfterEndTime
            | ContractError::StartTimeInThePast { .. }
            | ContractError::InvalidExpirationTime => ErrorKind::ValidationError,
        }
    }
}

} // verus!
