use stellark::address::Address;
use stellark::campaign::{position, vec_contains, Campaign, CampaignStats, Investment};
use stellark::error::Error;
use stellark::events::{
    CampaignClosedEvent, CampaignCreatedEvent, InitEvent, InvestedEvent, Payment, WithdrawnEvent,
};
use stellark::fundraising::{FundraisingContract, InvestTransfers};

const T: u64 = 1_700_000_000;

fn account(n: u8) -> Address {
    Address { contract: false, key: [n; 32] }
}

fn contract(n: u8) -> Address {
    Address { contract: true, key: [n; 32] }
}

fn admin() -> Address {
    account(1)
}

fn company() -> Address {
    account(2)
}

fn alice() -> Address {
    account(3)
}

fn bob() -> Address {
    account(4)
}

fn xlm() -> Address {
    contract(10)
}

fn equity_asset() -> Address {
    contract(11)
}

fn this_contract() -> Address {
    contract(12)
}

fn ledger() -> FundraisingContract {
    let mut f = FundraisingContract::new();
    assert_eq!(f.initialize(admin(), xlm(), true), Ok(InitEvent { admin: admin() }));
    f
}

fn ledger_with_campaign(price: i128, min: i128, max: i128) -> FundraisingContract {
    let mut f = ledger();
    f.create_campaign(1, company(), equity_asset(), 1_000_000, price, T + 1000, min, max, true, T)
        .unwrap();
    f
}

#[test]
fn initialize_is_accepted_once() {
    let mut f = FundraisingContract::new();
    assert_eq!(f.initialize(admin(), xlm(), false), Err(Error::Unauthorized));
    assert_eq!(f.initialize(admin(), xlm(), true), Ok(InitEvent { admin: admin() }));
    assert_eq!(f.initialize(bob(), xlm(), true), Err(Error::AlreadyInitialized));
    assert_eq!(f.initialize(bob(), xlm(), false), Err(Error::AlreadyInitialized));
    assert_eq!(
        f.get_stats().unwrap(),
        CampaignStats { total_campaigns: 0, active_campaigns: 0, total_raised: 0 }
    );
}

#[test]
fn nothing_is_accepted_before_initialize() {
    let mut f = FundraisingContract::new();
    assert_eq!(
        f.create_campaign(1, company(), equity_asset(), 100, 1, T + 1, 1, 0, true, T),
        Err(Error::NotInitialized)
    );
    assert_eq!(f.invest(1, alice(), 10, true, T, true, true), Err(Error::NotInitialized));
    assert_eq!(
        f.transfers_for_invest(1, alice(), 10, true, T, this_contract()),
        Err(Error::NotInitialized)
    );
    assert_eq!(f.withdraw_funds(1, true, T, true), Err(Error::NotInitialized));
    assert_eq!(
        f.payment_for_withdrawal(1, true, T, this_contract()),
        Err(Error::NotInitialized)
    );
    assert_eq!(f.close_campaign(1, admin(), true), Err(Error::NotInitialized));
    assert_eq!(f.get_stats(), Err(Error::NotInitialized));
}

#[test]
fn nothing_is_answered_before_initialize() {
    let f = FundraisingContract::new();
    assert_eq!(f.get_stats(), Err(Error::NotInitialized));
    assert_eq!(f.get_campaign(1), Err(Error::NotInitialized));
    assert_eq!(f.get_campaign_progress(1), Err(Error::NotInitialized));
    assert_eq!(f.get_investment(1, alice()), Err(Error::NotInitialized));
    assert_eq!(f.get_investors(1), Err(Error::NotInitialized));
    assert_eq!(f.get_investor_count(1), Err(Error::NotInitialized));
    assert_eq!(f.has_invested(1, alice()), Err(Error::NotInitialized));
    let f = ledger();
    assert_eq!(
        f.get_stats(),
        Ok(CampaignStats { total_campaigns: 0, active_campaigns: 0, total_raised: 0 })
    );
    assert_eq!(f.get_campaign(1), Err(Error::CampaignNotFound));
    assert_eq!(f.get_campaign_progress(1), Err(Error::CampaignNotFound));
    assert_eq!(
        f.get_investment(1, alice()),
        Ok(Investment { investor: alice(), amount_invested: 0, tokens_received: 0, timestamp: 0 })
    );
    assert_eq!(f.get_investors(1), Ok(vec![]));
    assert_eq!(f.get_investor_count(1), Ok(0));
    assert_eq!(f.has_invested(1, alice()), Ok(false));
}

#[test]
fn create_campaign_opens_an_empty_campaign() {
    let mut f = ledger();
    assert_eq!(
        f.create_campaign(7, company(), equity_asset(), 1_000_000, 100, T + 1000, 100, 0, true, T),
        Ok(CampaignCreatedEvent {
            campaign_id: 7,
            company: company(),
            target_amount: 1_000_000,
            price_per_token: 100,
            deadline: T + 1000,
        })
    );
    assert_eq!(
        f.get_campaign(7),
        Ok(Campaign {
            company_addr: company(),
            equity_token_addr: equity_asset(),
            target_amount: 1_000_000,
            price_per_token: 100,
            raised_amount: 0,
            is_active: true,
            deadline: T + 1000,
            min_investment: 100,
            max_investment: 0,
        })
    );
    assert_eq!(f.get_investors(7).unwrap(), vec![]);
    assert_eq!(f.get_investor_count(7).unwrap(), 0);
    assert_eq!(f.get_campaign_progress(7), Ok(0));
    assert_eq!(
        f.get_stats().unwrap(),
        CampaignStats { total_campaigns: 1, active_campaigns: 1, total_raised: 0 }
    );
    assert_eq!(f.get_campaign(8), Err(Error::CampaignNotFound));
}

#[test]
fn create_campaign_refusals() {
    let mut f = ledger();
    let c = company();
    let e = equity_asset();
    assert_eq!(
        f.create_campaign(1, c, e, 100, 10, T + 1, 10, 0, false, T),
        Err(Error::Unauthorized)
    );
    assert_eq!(
        f.create_campaign(1, c, e, 0, 10, T + 1, 10, 0, true, T),
        Err(Error::InvalidAmount)
    );
    assert_eq!(
        f.create_campaign(1, c, e, 100, 0, T + 1, 10, 0, true, T),
        Err(Error::InvalidAmount)
    );
    assert_eq!(
        f.create_campaign(1, c, e, 100, 10, T + 1, 0, 0, true, T),
        Err(Error::InvalidAmount)
    );
    assert_eq!(
        f.create_campaign(1, c, e, 100, -10, T + 1, 10, 0, true, T),
        Err(Error::InvalidAmount)
    );
    assert_eq!(
        f.create_campaign(1, c, e, 100, 10, T, 10, 0, true, T),
        Err(Error::DeadlineInvalid)
    );
    assert_eq!(
        f.create_campaign(1, c, e, 100, 10, T - 1, 10, 0, true, T),
        Err(Error::DeadlineInvalid)
    );
    assert_eq!(
        f.create_campaign(1, c, e, 100, 10, T + 1, 10, 9, true, T),
        Err(Error::InvalidAmount)
    );
    assert_eq!(
        f.create_campaign(1, c, e, 100, 10, T + 1, 10, -1, true, T),
        Err(Error::InvalidAmount)
    );
    assert_eq!(
        f.create_campaign(1, c, e, 0, 10, T, 10, 0, true, T),
        Err(Error::InvalidAmount)
    );
    assert_eq!(f.get_stats().unwrap().total_campaigns, 0);
    assert!(f.create_campaign(1, c, e, 100, 10, T + 1, 10, 10, true, T).is_ok());
    assert_eq!(
        f.create_campaign(1, c, e, 200, 20, T + 2, 20, 0, true, T),
        Err(Error::CampaignExists)
    );
    assert!(f.create_campaign(2, c, e, 200, 20, T + 2, 20, 0, true, T).is_ok());
    assert_eq!(f.get_campaign(1).unwrap().target_amount, 100);
    assert_eq!(
        f.get_stats().unwrap(),
        CampaignStats { total_campaigns: 2, active_campaigns: 2, total_raised: 0 }
    );
}

#[test]
fn a_campaign_runs_from_creation_to_withdrawal() {
    let mut f = ledger();
    assert!(f
        .create_campaign(1, company(), equity_asset(), 1_000_000, 100, T + 1000, 100, 0, true, T)
        .is_ok());

    assert_eq!(
        f.transfers_for_invest(1, alice(), 500, true, T + 10, this_contract()),
        Ok(InvestTransfers {
            payment: Payment { asset: xlm(), from: alice(), to: this_contract(), amount: 500 },
            delivery: Payment {
                asset: equity_asset(),
                from: this_contract(),
                to: alice(),
                amount: 5,
            },
        })
    );
    assert_eq!(
        f.invest(1, alice(), 500, true, T + 10, true, true),
        Ok(InvestedEvent { campaign_id: 1, investor: alice(), amount: 500, tokens_received: 5 })
    );
    assert_eq!(f.get_investment(1, alice()).unwrap().tokens_received, 5);
    assert_eq!(f.get_campaign(1).unwrap().raised_amount, 500);

    assert_eq!(
        f.invest(1, alice(), 500, true, T + 20, true, true),
        Ok(InvestedEvent { campaign_id: 1, investor: alice(), amount: 500, tokens_received: 5 })
    );
    assert_eq!(
        f.get_investment(1, alice()).unwrap(),
        Investment {
            investor: alice(),
            amount_invested: 1000,
            tokens_received: 10,
            timestamp: T + 10,
        }
    );
    assert_eq!(f.get_campaign(1).unwrap().raised_amount, 1000);

    assert_eq!(f.withdraw_funds(1, true, T + 30, true), Err(Error::CannotWithdraw));
    assert_eq!(
        f.payment_for_withdrawal(1, true, T + 1000, this_contract()),
        Err(Error::CannotWithdraw)
    );
    assert!(f.get_campaign(1).unwrap().is_active);

    assert_eq!(
        f.payment_for_withdrawal(1, true, T + 1001, this_contract()),
        Ok(Payment { asset: xlm(), from: this_contract(), to: company(), amount: 1000 })
    );
    assert_eq!(
        f.withdraw_funds(1, true, T + 1001, true),
        Ok(WithdrawnEvent { campaign_id: 1, company: company(), amount: 1000 })
    );
    let c = f.get_campaign(1).unwrap();
    assert!(!c.is_active);
    assert_eq!(c.raised_amount, 1000);
    assert_eq!(
        f.get_stats().unwrap(),
        CampaignStats { total_campaigns: 1, active_campaigns: 0, total_raised: 1000 }
    );
}

#[test]
fn an_amount_that_buys_no_token_is_too_small() {
    let mut f = ledger_with_campaign(100, 100, 0);
    assert_eq!(f.invest(1, alice(), 50, true, T + 1, true, true), Err(Error::InvestmentTooSmall));
    let mut g = ledger_with_campaign(100, 10, 0);
    assert_eq!(g.invest(1, alice(), 50, true, T + 1, true, true), Err(Error::InvestmentTooSmall));
    assert_eq!(
        g.transfers_for_invest(1, alice(), 50, true, T + 1, this_contract()),
        Err(Error::InvestmentTooSmall)
    );
    assert_eq!(g.invest(1, alice(), 99, true, T + 1, true, true), Err(Error::InvestmentTooSmall));
    for l in [&f, &g] {
        assert_eq!(l.get_campaign(1).unwrap().raised_amount, 0);
        assert_eq!(l.get_investors(1).unwrap(), vec![]);
        assert!(!l.has_invested(1, alice()).unwrap());
        assert_eq!(
            l.get_investment(1, alice()).unwrap(),
            Investment { investor: alice(), amount_invested: 0, tokens_received: 0, timestamp: 0 }
        );
        assert_eq!(
            l.get_stats().unwrap(),
            CampaignStats { total_campaigns: 1, active_campaigns: 1, total_raised: 0 }
        );
    }
}

#[test]
fn invest_refusals() {
    let mut f = ledger_with_campaign(10, 100, 1_000);
    assert_eq!(f.invest(1, alice(), 100, false, T + 1, true, true), Err(Error::Unauthorized));
    assert_eq!(f.invest(1, alice(), 0, true, T + 1, true, true), Err(Error::InvalidAmount));
    assert_eq!(f.invest(1, alice(), -100, true, T + 1, true, true), Err(Error::InvalidAmount));
    assert_eq!(f.invest(2, alice(), 100, true, T + 1, true, true), Err(Error::CampaignNotFound));
    assert_eq!(f.invest(1, alice(), 100, true, T + 1001, true, true), Err(Error::DeadlinePassed));
    assert_eq!(f.invest(1, alice(), 99, true, T + 1, true, true), Err(Error::InvestmentTooSmall));
    assert_eq!(f.invest(1, alice(), 1_001, true, T + 1, true, true), Err(Error::InvestmentTooLarge));
    assert_eq!(f.invest(1, alice(), 100, true, T + 1, false, true), Err(Error::TransferFailed));
    assert_eq!(f.invest(1, alice(), 100, true, T + 1, true, false), Err(Error::TransferFailed));
    assert_eq!(f.get_campaign(1).unwrap().raised_amount, 0);
    assert_eq!(f.get_investor_count(1).unwrap(), 0);
    assert_eq!(f.get_stats().unwrap().total_raised, 0);
    assert!(f.invest(1, alice(), 100, true, T + 1000, true, true).is_ok());
    f.close_campaign(1, admin(), true).unwrap();
    assert_eq!(f.invest(1, alice(), 100, true, T + 1, true, true), Err(Error::CampaignInactive));
    assert_eq!(f.get_campaign(1).unwrap().raised_amount, 100);
}

#[test]
fn the_cap_counts_what_the_investor_put_in_before() {
    let mut f = ledger_with_campaign(10, 100, 1_000);
    assert!(f.invest(1, alice(), 600, true, T + 1, true, true).is_ok());
    assert_eq!(f.invest(1, alice(), 401, true, T + 2, true, true), Err(Error::InvestmentTooLarge));
    assert!(f.invest(1, bob(), 1_000, true, T + 2, true, true).is_ok());
    assert!(f.invest(1, alice(), 400, true, T + 3, true, true).is_ok());
    assert_eq!(f.invest(1, alice(), 100, true, T + 4, true, true), Err(Error::InvestmentTooLarge));
    assert_eq!(f.get_investment(1, alice()).unwrap().amount_invested, 1_000);
    assert_eq!(f.get_investment(1, bob()).unwrap().amount_invested, 1_000);
    assert_eq!(f.get_campaign(1).unwrap().raised_amount, 2_000);
}

#[test]
fn tokens_are_rounded_down_at_each_investment() {
    let mut f = ledger_with_campaign(100, 100, 0);
    for (k, amount) in [150, 150, 199, 101].into_iter().enumerate() {
        assert_eq!(
            f.invest(1, alice(), amount, true, T + 1 + k as u64, true, true),
            Ok(InvestedEvent { campaign_id: 1, investor: alice(), amount, tokens_received: 1 })
        );
    }
    assert_eq!(
        f.get_investment(1, alice()).unwrap(),
        Investment {
            investor: alice(),
            amount_invested: 600,
            tokens_received: 4,
            timestamp: T + 1,
        }
    );
    assert_eq!(f.get_campaign(1).unwrap().raised_amount, 600);
    assert_eq!(f.get_stats().unwrap().total_raised, 600);
}

#[test]
fn an_investor_is_listed_once() {
    let mut f = ledger_with_campaign(10, 10, 0);
    assert!(!f.has_invested(1, alice()).unwrap());
    f.invest(1, alice(), 100, true, T + 1, true, true).unwrap();
    f.invest(1, alice(), 200, true, T + 2, true, true).unwrap();
    assert_eq!(f.get_investors(1).unwrap(), vec![alice()]);
    assert_eq!(f.get_investor_count(1).unwrap(), 1);
    f.invest(1, bob(), 50, true, T + 3, true, true).unwrap();
    f.invest(1, alice(), 10, true, T + 4, true, true).unwrap();
    f.invest(1, bob(), 50, true, T + 5, true, true).unwrap();
    assert_eq!(f.get_investors(1).unwrap(), vec![alice(), bob()]);
    assert_eq!(f.get_investor_count(1).unwrap(), 2);
    assert!(f.has_invested(1, alice()).unwrap());
    assert!(f.has_invested(1, bob()).unwrap());
    assert!(!f.has_invested(1, company()).unwrap());
    assert!(!f.has_invested(2, alice()).unwrap());
    assert_eq!(f.get_investors(2).unwrap(), vec![]);
    assert_eq!(f.get_investor_count(2).unwrap(), 0);
    assert_eq!(f.get_investment(1, bob()).unwrap().timestamp, T + 3);
    assert_eq!(
        f.get_investment(2, alice()).unwrap(),
        Investment { investor: alice(), amount_invested: 0, tokens_received: 0, timestamp: 0 }
    );
}

#[test]
fn raised_amounts_only_grow() {
    let mut f = ledger_with_campaign(10, 10, 0);
    f.create_campaign(2, company(), equity_asset(), 500, 5, T + 50, 5, 0, true, T).unwrap();
    let mut last = 0;
    for (k, amount) in [10, 5, 700, 10, 9, 33].into_iter().enumerate() {
        let _ = f.invest(1, alice(), amount, true, T + k as u64, k % 2 == 0, true);
        let _ = f.invest(2, bob(), amount, true, T + k as u64, true, true);
        let now = f.get_campaign(1).unwrap().raised_amount;
        assert!(now >= last);
        last = now;
    }
    assert_eq!(f.get_campaign(1).unwrap().raised_amount, 10 + 700);
    assert_eq!(f.get_campaign(2).unwrap().raised_amount, 10 + 5 + 700 + 10 + 9 + 33);
    assert_eq!(f.get_stats().unwrap().total_raised, 710 + 767);
    f.close_campaign(1, company(), true).unwrap();
    let _ = f.invest(1, alice(), 10, true, T + 7, true, true);
    assert_eq!(f.get_campaign(1).unwrap().raised_amount, 710);
}

#[test]
fn a_closed_campaign_stays_closed() {
    let mut f = ledger_with_campaign(10, 10, 0);
    f.invest(1, alice(), 100, true, T + 1, true, true).unwrap();
    assert_eq!(
        f.close_campaign(1, company(), true),
        Ok(Some(CampaignClosedEvent { campaign_id: 1 }))
    );
    assert!(!f.get_campaign(1).unwrap().is_active);
    assert_eq!(f.get_stats().unwrap().active_campaigns, 0);
    assert_eq!(f.close_campaign(1, admin(), true), Ok(None));
    assert_eq!(f.withdraw_funds(1, true, T + 2000, true), Err(Error::CampaignInactive));
    assert_eq!(f.invest(1, bob(), 100, true, T + 2, true, true), Err(Error::CampaignInactive));
    assert_eq!(
        f.create_campaign(1, company(), equity_asset(), 1, 1, T + 9, 1, 0, true, T),
        Err(Error::CampaignExists)
    );
    assert!(!f.get_campaign(1).unwrap().is_active);
    assert_eq!(f.get_campaign(1).unwrap().raised_amount, 100);
    assert_eq!(
        f.get_stats().unwrap(),
        CampaignStats { total_campaigns: 1, active_campaigns: 0, total_raised: 100 }
    );
}

#[test]
fn close_campaign_is_for_the_admin_and_the_company() {
    let mut f = ledger_with_campaign(10, 10, 0);
    assert_eq!(f.close_campaign(1, alice(), true), Err(Error::Unauthorized));
    assert_eq!(f.close_campaign(1, admin(), false), Err(Error::Unauthorized));
    assert_eq!(f.close_campaign(2, admin(), true), Err(Error::CampaignNotFound));
    assert_eq!(f.close_campaign(2, alice(), true), Err(Error::CampaignNotFound));
    assert!(f.get_campaign(1).unwrap().is_active);
    assert_eq!(
        f.close_campaign(1, admin(), true),
        Ok(Some(CampaignClosedEvent { campaign_id: 1 }))
    );
    assert_eq!(f.close_campaign(1, alice(), true), Err(Error::Unauthorized));
}

#[test]
fn withdrawal_waits_for_the_target_or_the_deadline() {
    let mut f = ledger();
    f.create_campaign(1, company(), equity_asset(), 1_000, 10, T + 100, 10, 0, true, T).unwrap();
    f.invest(1, alice(), 999, true, T + 1, true, true).unwrap();
    assert_eq!(f.withdraw_funds(1, true, T + 1, true), Err(Error::CannotWithdraw));
    assert_eq!(f.withdraw_funds(1, true, T + 100, true), Err(Error::CannotWithdraw));
    assert_eq!(f.withdraw_funds(1, false, T + 101, true), Err(Error::Unauthorized));
    assert_eq!(f.withdraw_funds(1, true, T + 101, false), Err(Error::TransferFailed));
    assert_eq!(f.withdraw_funds(2, true, T + 101, true), Err(Error::CampaignNotFound));
    assert_eq!(f.withdraw_funds(2, false, T + 101, true), Err(Error::CampaignNotFound));
    assert!(f.get_campaign(1).unwrap().is_active);
    f.invest(1, bob(), 10, true, T + 2, true, true).unwrap();
    assert_eq!(
        f.withdraw_funds(1, true, T + 3, true),
        Ok(WithdrawnEvent { campaign_id: 1, company: company(), amount: 1_009 })
    );
    assert_eq!(f.withdraw_funds(1, true, T + 3, true), Err(Error::CampaignInactive));

    f.create_campaign(2, company(), equity_asset(), 1_000, 10, T + 100, 10, 0, true, T).unwrap();
    assert_eq!(f.withdraw_funds(2, true, T + 100, true), Err(Error::CannotWithdraw));
    assert_eq!(
        f.withdraw_funds(2, true, T + 101, true),
        Ok(WithdrawnEvent { campaign_id: 2, company: company(), amount: 0 })
    );
    assert_eq!(
        f.get_stats().unwrap(),
        CampaignStats { total_campaigns: 2, active_campaigns: 0, total_raised: 1_009 }
    );
}

#[test]
fn progress_is_in_whole_percent() {
    let mut f = ledger();
    f.create_campaign(1, company(), equity_asset(), 3_000, 1, T + 100, 1, 0, true, T).unwrap();
    assert_eq!(f.get_campaign_progress(1), Ok(0));
    f.invest(1, alice(), 1_000, true, T + 1, true, true).unwrap();
    assert_eq!(f.get_campaign_progress(1), Ok(33));
    f.invest(1, alice(), 1_999, true, T + 1, true, true).unwrap();
    assert_eq!(f.get_campaign_progress(1), Ok(99));
    f.invest(1, bob(), 4_501, true, T + 1, true, true).unwrap();
    assert_eq!(f.get_campaign_progress(1), Ok(250));
    assert_eq!(f.get_campaign_progress(2), Err(Error::CampaignNotFound));
}

#[test]
fn sums_beyond_the_largest_amount_are_refused() {
    let mut f = ledger();
    f.create_campaign(1, company(), equity_asset(), 1_000, 1, T + 100, 1, 0, true, T).unwrap();
    f.create_campaign(2, company(), equity_asset(), 1_000, 1, T + 100, 1, 0, true, T).unwrap();
    f.invest(1, alice(), i128::MAX - 10, true, T + 1, true, true).unwrap();
    assert_eq!(f.invest(2, bob(), 11, true, T + 1, true, true), Err(Error::InvalidAmount));
    assert_eq!(f.invest(1, alice(), 11, true, T + 1, true, true), Err(Error::InvalidAmount));
    assert!(f.invest(2, bob(), 10, true, T + 1, true, true).is_ok());
    assert_eq!(f.get_stats().unwrap().total_raised, i128::MAX);
    assert_eq!(f.get_campaign_progress(1), Err(Error::InvalidAmount));
    assert_eq!(f.get_campaign_progress(2), Ok(1));
}

#[test]
fn storage_keys_name_the_entry_and_the_campaign() {
    assert_eq!(FundraisingContract::get_campaign_key(42), ("CAMP", 42));
    assert_eq!(FundraisingContract::get_investors_key(42), ("INVS", 42));
    assert_eq!(
        FundraisingContract::get_investment_key(42, &alice()),
        (("INV", 42), alice())
    );
}

#[test]
fn vec_contains_finds_what_is_there() {
    let v = vec![alice(), bob()];
    assert!(vec_contains(&v, &alice()));
    assert!(vec_contains(&v, &bob()));
    assert!(!vec_contains(&v, &company()));
    assert!(!vec_contains(&Vec::new(), &alice()));
}

#[test]
fn position_is_the_first_place() {
    let v = vec![alice(), bob(), alice()];
    assert_eq!(position(&v, &alice()), Some(0));
    assert_eq!(position(&v, &bob()), Some(1));
    assert_eq!(position(&v, &company()), None);
    assert_eq!(position(&Vec::new(), &alice()), None);
}
