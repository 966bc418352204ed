use vstd::prelude::*;

verus! {

/// Why a ledger operation was refused. A refused operation leaves the
/// ledger exactly as it was.
#[derive(Copy, Clone, Debug, PartialEq, Eq, PartialOrd, Ord, Structural)]
pub enum Error {
    AlreadyInitialized,
    NotInitialized,
    CampaignExists,
    CampaignNotFound,
    CampaignInactive,
    DeadlinePassed,
    DeadlineInvalid,
    InvalidAmount,
    InvestmentTooSmall,
    InvestmentTooLarge,
    Unauthorized,
    CannotWithdraw,
    TransferFailed,
    InsufficientBalance,
}

impl Error {
    /// The number under which a host reports the error.
    pub open spec fn spec_code(self) -> u32 {
        match self {
            Error::AlreadyInitialized => 1,
            Error::NotInitialized => 2,
            Error::CampaignExists => 3,
            Error::CampaignNotFound => 4,
            Error::CampaignInactive => 5,
            Error::DeadlinePassed => 6,
            Error::DeadlineInvalid => 7,
            Error::InvalidAmount => 8,
            Error::InvestmentTooSmall => 9,
            Error::InvestmentTooLarge => 10,
            Error::Unauthorized => 11,
            Error::CannotWithdraw => 12,
            Error::TransferFailed => 13,
            Error::InsufficientBalance => 14,
        }
    }

    /// The number under which a host reports the error.
    pub fn code(self) -> (r: u32)
        ensures
            r == self.spec_code(),
            1 <= r <= 14,
    {
        match self {
            Error::AlreadyInitialized => 1,
            Error::NotInitialized => 2,
            Error::CampaignExists => 3,
            Error::CampaignNotFound => 4,
            Error::CampaignInactive => 5,
            Error::DeadlinePassed => 6,
            Error::DeadlineInvalid => 7,
            Error::InvalidAmount => 8,
            Error::InvestmentTooSmall => 9,
            Error::InvestmentTooLarge => 10,
            Error::Unauthorized => 11,
            Error::CannotWithdraw => 12,
            Error::TransferFailed => 13,
            Error::InsufficientBalance => 14,
        }
    }
}

} // verus!
