//! Two coupled ledgers: an equity ledger that records who holds how
//! much of a company's tokenized equity, and a fundraising ledger that
//! runs time-boxed campaigns in which investors buy that equity at a
//! fixed price.
//!
//! A ledger is a plain value. Each operation takes what the host knows
//! (whether the caller is authorized, the time, whether a transfer went
//! through) as arguments and either changes the ledger and returns the
//! event to publish, or refuses with an [`error::Error`] and leaves the
//! ledger as it was. Where an operation needs a transfer of the payment
//! asset or of equity tokens, a function beside it says which transfer
//! to make.
//!
//! Every ledger keeps its books balanced: the balances of the equity
//! ledger add up to the total supply, and the counters of the
//! fundraising ledger agree with its campaigns.

pub mod address;
pub mod campaign;
pub mod equity;
pub mod error;
pub mod events;
pub mod fundraising;
pub mod holdings;
pub mod sums;
