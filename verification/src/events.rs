use vstd::prelude::*;
use crate::address::Address;

verus! {

/// A transfer of some asset that the host carries out on the ledger's
/// behalf: `amount` units of `asset` move from `from` to `to`.
#[derive(Clone, Copy, Debug, PartialEq, Eq)]
pub struct Payment {
    pub asset: Address,
    pub from: Address,
    pub to: Address,
    pub amount: i128,
}

/// Published when the company is set up.
#[derive(Debug, PartialEq, Eq)]
pub struct InitCompanyEvent {
    pub name: String,
    pub symbol: String,
    pub total_supply: i128,
    pub owner: Address,
    pub equity_percent: i128,
}

/// Published when tokens are sold from the owner's allocation.
#[derive(Clone, Copy, Debug, PartialEq, Eq)]
pub struct MintEvent {
    pub to: Address,
    pub amount: i128,
}

/// Published when tokens move between two holders.
#[derive(Clone, Copy, Debug, PartialEq, Eq)]
pub struct TransferEvent {
    pub from: Address,
    pub to: Address,
    pub amount: i128,
}

/// Published when tokens are destroyed.
#[derive(Clone, Copy, Debug, PartialEq, Eq)]
pub struct BurnEvent {
    pub from: Address,
    pub amount: i128,
}

/// Published when the fundraising ledger is set up.
#[derive(Clone, Copy, Debug, PartialEq, Eq)]
pub struct InitEvent {
    pub admin: Address,
}

/// Published when a campaign opens.
#[derive(Clone, Copy, Debug, PartialEq, Eq)]
pub struct CampaignCreatedEvent {
    pub campaign_id: u64,
    pub company: Address,
    pub target_amount: i128,
    pub price_per_token: i128,
    pub deadline: u64,
}

/// Published when an investment is accepted.
#[derive(Clone, Copy, Debug, PartialEq, Eq)]
pub struct InvestedEvent {
    pub campaign_id: u64,
    pub investor: Address,
    pub amount: i128,
    pub tokens_received: i128,
}

/// Published when a company collects what its campaign raised.
#[derive(Clone, Copy, Debug, PartialEq, Eq)]
pub struct WithdrawnEvent {
    pub campaign_id: u64,
    pub company: Address,
    pub amount: i128,
}

/// Published when a campaign is closed without a withdrawal.
#[derive(Clone, Copy, Debug, PartialEq, Eq)]
pub struct CampaignClosedEvent {
    pub campaign_id: u64,
}

} // verus!
