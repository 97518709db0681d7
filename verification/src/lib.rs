//! A sale engine for uniquely identified tokens: a sale of limited time and
//! stock at a fixed price, with a limit on what one wallet may purchase, and
//! its settlement in bounded batches once it has ended. A sale that did not
//! sell its minimum is refunded; one that did forwards its proceeds, delivers
//! the purchased tokens and destroys the rest.
//!
//! [`contract::Crowdfund`] is the engine. [`model`] says what each of its
//! operations comes to, and [`laws`] states what holds of all of them.
//! [`campaign`] keeps the books of donation campaigns.

pub mod campaign;
pub mod coin;
pub mod contract;
pub mod drained;
pub mod end_condition;
pub mod error;
pub mod execute;
pub mod funds;
pub mod handled;
pub mod laws;
pub mod ledger;
pub mod model;
pub mod outside;
pub mod proofs;
pub mod purchase;
pub mod registry;
pub mod settlement;
pub mod state;
pub mod sums;
pub mod text;
pub mod validate;
