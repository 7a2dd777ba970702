//! An escrow-style invoice payment engine.
//!
//! An invoice asks for a fixed total amount, owed by possibly several payers,
//! due by a deadline, payable to one merchant. Funds collected for an invoice
//! are held in escrow until the cumulative payments reach the total; the
//! settling payment triggers a payout of exactly the total to the merchant and
//! returns any excess to its payer. If the due date passes first, the invoice
//! can be expired, after which each payer may reclaim what they paid.
//!
//! The engine itself is a pure state machine: the clock value is an explicit
//! argument of each operation, and the value transfers an operation calls for
//! are returned as instructions for the hosting layer to perform. A verified
//! in-memory token ([`token::Token`]) stands in for the transfer service so
//! that whole scenarios can be run and checked end to end.
//!
//! Each operation of the engine ([`engine::Contract`]) is specified by a
//! transition function on the model state, and the [`laws`] module proves
//! the global guarantees — uniqueness of ids and memos, the payment sum
//! invariant, exact overpayment correction, a single merchant payout, the
//! expiry gate on refunds, and idempotent expiry — over those transitions.

pub mod engine;
pub mod error;
pub mod invoice;
pub mod laws;
pub mod ledger;
pub mod token;
