use vstd::prelude::*;
use crate::address::Address;
use crate::campaign::{
    active_flags, follows, ids, invested_amounts, lemma_push_record, lemma_raised_amounts_natural,
    lemma_replace_record, position, raised_amounts, record_of, records_wf, tokens_for,
    vec_contains, views, Campaign, CampaignRecord, CampaignStats, Investment, Record,
};
use crate::error::Error;
use crate::events::{
    CampaignClosedEvent, CampaignCreatedEvent, InitEvent, InvestedEvent, Payment, WithdrawnEvent,
};
use crate::sums::{
    all_natural, lemma_slot_of_entry, lemma_slot_of_found, lemma_sum_covers, lemma_sum_flags,
    lemma_sum_take_next, lemma_sum_take_within, slot_of, sum,
};

verus! {

/// What the fundraising ledger is set up with.
#[derive(Clone, Copy, Debug, PartialEq, Eq)]
pub struct Settings {
    /// The account that may close any campaign.
    pub admin: Address,
    /// The asset in which investments are paid.
    pub xlm_token: Address,
}

/// The two transfers that an investment calls for: the investor pays
/// the ledger, and the ledger hands the investor equity tokens.
#[derive(Clone, Copy, Debug, PartialEq, Eq)]
pub struct InvestTransfers {
    pub payment: Payment,
    pub delivery: Payment,
}

/// The share of `target` that `raised` amounts to, in whole percent,
/// rounded down; zero for a target of zero.
pub open spec fn progress(raised: int, target: int) -> int {
    if target == 0 {
        0
    } else {
        raised * 100 / target
    }
}

/// Whether settings, counters and campaign records make up a ledger:
/// the records are well formed, there is none without settings, and
/// the counters are the number of campaigns, the number of active
/// ones, and the sum of what they have raised.
pub open spec fn ledger_valid(settings: Option<Settings>, stats: CampaignStats, rs: Seq<Record>)
    -> bool {
    &&& records_wf(rs)
    &&& settings is None ==> rs.len() == 0
    &&& stats.total_campaigns == rs.len()
    &&& stats.active_campaigns == sum(active_flags(rs))
    &&& stats.total_raised == sum(raised_amounts(rs))
}

/// The ledger of the fundraising campaigns.
#[derive(Clone, Debug)]
pub struct FundraisingContract {
    settings: Option<Settings>,
    stats: CampaignStats,
    records: Vec<CampaignRecord>,
}

impl FundraisingContract {
    /// What the ledger was set up with, once it has been.
    pub closed spec fn settings(&self) -> Option<Settings> {
        self.settings
    }

    /// The counters over all campaigns.
    pub closed spec fn stats(&self) -> CampaignStats {
        self.stats
    }

    /// The campaign records, in the order in which the campaigns were
    /// created.
    pub closed spec fn records(&self) -> Seq<Record> {
        views(self.records@)
    }

    /// The record of campaign `id`, if there is one.
    pub open spec fn record(&self, id: u64) -> Option<Record> {
        record_of(self.records(), id)
    }

    /// The investors of campaign `id`, in the order in which they first
    /// invested; none where there is no such campaign.
    pub open spec fn roster(&self, id: u64) -> Seq<Address> {
        match self.record(id) {
            Some(r) => r.investors,
            None => Seq::empty(),
        }
    }

    /// What `investor` has put into campaign `id`, if anything.
    pub open spec fn investment(&self, id: u64, investor: Address) -> Option<Investment> {
        match self.record(id) {
            Some(r) => r.investment_of(investor),
            None => None,
        }
    }

    /// The place of campaign `id` among the records, if it has one.
    pub open spec fn slot(&self, id: u64) -> Option<int> {
        slot_of(ids(self.records()), id)
    }

    /// What holds of every ledger: the records are well formed, there
    /// is none before the ledger is set up, and the counters are the
    /// number of campaigns, the number of active ones, and the sum of
    /// what they have raised.
    pub open spec fn wf(&self) -> bool {
        ledger_valid(self.settings(), self.stats(), self.records())
    }

    /// Why the creation of a campaign is refused, if it is.
    pub open spec fn create_refusal(
        &self,
        campaign_id: u64,
        target_amount: i128,
        price_per_token: i128,
        deadline: u64,
        min_investment: i128,
        max_investment: i128,
        authorized: bool,
        now: u64,
    ) -> Option<Error> {
        if self.settings() is None {
            Some(Error::NotInitialized)
        } else if !authorized {
            Some(Error::Unauthorized)
        } else if target_amount <= 0 || price_per_token <= 0 || min_investment <= 0 {
            Some(Error::InvalidAmount)
        } else if deadline <= now {
            Some(Error::DeadlineInvalid)
        } else if max_investment != 0 && max_investment < min_investment {
            Some(Error::InvalidAmount)
        } else if self.record(campaign_id) is Some {
            Some(Error::CampaignExists)
        } else {
            None
        }
    }

    /// Why an investment is refused before any transfer is asked for,
    /// if it is.
    pub open spec fn invest_refusal(
        &self,
        campaign_id: u64,
        investor: Address,
        amount: i128,
        authorized: bool,
        now: u64,
    ) -> Option<Error> {
        if self.settings() is None {
            Some(Error::NotInitialized)
        } else if !authorized {
            Some(Error::Unauthorized)
        } else if amount <= 0 {
            Some(Error::InvalidAmount)
        } else {
            match self.record(campaign_id) {
                None => Some(Error::CampaignNotFound),
                Some(r) => if !r.campaign.is_active {
                    Some(Error::CampaignInactive)
                } else if now > r.campaign.deadline {
                    Some(Error::DeadlinePassed)
                } else if amount < r.campaign.min_investment {
                    Some(Error::InvestmentTooSmall)
                } else if r.campaign.max_investment > 0 && r.invested_by(investor) + amount
                    > r.campaign.max_investment {
                    Some(Error::InvestmentTooLarge)
                } else if tokens_for(amount as int, r.campaign.price_per_token as int) <= 0 {
                    Some(Error::InvestmentTooSmall)
                } else if self.stats().total_raised + amount > i128::MAX {
                    Some(Error::InvalidAmount)
                } else {
                    None
                },
            }
        }
    }

    /// Whether the company may collect what the campaign raised: the
    /// target is reached, or the deadline has passed.
    pub open spec fn can_withdraw(c: Campaign, now: u64) -> bool {
        c.raised_amount >= c.target_amount || now > c.deadline
    }

    /// Why a withdrawal is refused before any transfer is asked for, if
    /// it is.
    pub open spec fn withdraw_refusal(&self, campaign_id: u64, authorized: bool, now: u64)
        -> Option<Error> {
        if self.settings() is None {
            Some(Error::NotInitialized)
        } else {
            match self.record(campaign_id) {
                None => Some(Error::CampaignNotFound),
                Some(r) => if !authorized {
                    Some(Error::Unauthorized)
                } else if !r.campaign.is_active {
                    Some(Error::CampaignInactive)
                } else if !Self::can_withdraw(r.campaign, now) {
                    Some(Error::CannotWithdraw)
                } else {
                    None
                },
            }
        }
    }

    /// Why closing a campaign is refused, if it is.
    pub open spec fn close_refusal(&self, campaign_id: u64, caller: Address, authorized: bool)
        -> Option<Error> {
        if self.settings() is None {
            Some(Error::NotInitialized)
        } else if !authorized {
            Some(Error::Unauthorized)
        } else {
            match self.record(campaign_id) {
                None => Some(Error::CampaignNotFound),
                Some(r) => if caller != self.settings().unwrap().admin && caller
                    != r.campaign.company_addr {
                    Some(Error::Unauthorized)
                } else {
                    None
                },
            }
        }
    }

    /// A ledger that has not been set up.
    pub fn new() -> (r: FundraisingContract)
        ensures
            r.wf(),
            r.settings() is None,
            r.records().len() == 0,
            r.stats() == (CampaignStats { total_campaigns: 0, active_campaigns: 0, total_raised: 0 }),
    {
        FundraisingContract {
            settings: None,
            stats: CampaignStats { total_campaigns: 0, active_campaigns: 0, total_raised: 0 },
            records: Vec::new(),
        }
    }

    /// What the ledger was set up with, once it has been.
    pub fn get_settings(&self) -> (r: Option<Settings>)
        ensures
            r == self.settings(),
    {
        self.settings
    }

    /// The campaign records, in the order in which the campaigns were
    /// created.
    pub fn campaign_records(&self) -> (r: &Vec<CampaignRecord>)
        ensures
            views(r@) == self.records(),
    {
        &self.records
    }

    /// The ledger that holds `settings`, `stats` and `records`, where
    /// they make one up.
    pub fn restore(settings: Option<Settings>, stats: CampaignStats, records: Vec<CampaignRecord>)
        -> (r: Option<FundraisingContract>)
        ensures
            match r {
                Some(f) => f.wf() && f.settings() == settings && f.stats() == stats && f.records()
                    == views(records@),
                None => !ledger_valid(settings, stats, views(records@)),
            },
    {
        let ghost rs = views(records@);
        let n = records.len();
        if settings.is_none() && n != 0 {
            return None;
        }
        let mut active: u64 = 0;
        let mut raised: i128 = 0;
        let mut i: usize = 0;
        while i < n
            invariant
                rs == views(records@),
                n == rs.len(),
                i <= n,
                active <= i,
                active == sum(active_flags(rs).take(i as int)),
                raised == sum(raised_amounts(rs).take(i as int)),
                forall|k: int| 0 <= k < i ==> (#[trigger] rs[k]).wf(),
                forall|a: int, b: int| 0 <= a < b < i ==> rs[a].id != rs[b].id,
            decreases n - i,
        {
            let record = &records[i];
            assert(record@ == rs[i as int]);
            if !record.is_valid() {
                return None;
            }
            let mut k: usize = 0;
            while k < i
                invariant
                    rs == views(records@),
                    i < rs.len(),
                    k <= i,
                    forall|a: int| 0 <= a < k ==> rs[a].id != rs[i as int].id,
                decreases i - k,
            {
                assert(records@[k as int]@ == rs[k as int]);
                assert(records@[i as int]@ == rs[i as int]);
                if records[k].id == records[i].id {
                    proof {
                        assert(ids(rs)[k as int] == ids(rs)[i as int]);
                    }
                    return None;
                }
                k += 1;
            }
            proof {
                lemma_sum_take_next(active_flags(rs), i as int);
                lemma_sum_take_next(raised_amounts(rs), i as int);
                if records_wf(rs) {
                    lemma_raised_amounts_natural(rs);
                    lemma_sum_take_within(raised_amounts(rs), i as int + 1);
                }
            }
            if record.campaign.is_active {
                active = active + 1;
            }
            raised = match raised.checked_add(record.campaign.raised_amount) {
                Some(more) => more,
                None => {
                    return None;
                },
            };
            i += 1;
        }
        proof {
            assert(active_flags(rs).take(n as int) =~= active_flags(rs));
            assert(raised_amounts(rs).take(n as int) =~= raised_amounts(rs));
            assert(ids(rs).no_duplicates()) by {
                assert forall|a: int, b: int|
                    0 <= a < ids(rs).len() && 0 <= b < ids(rs).len() && a != b implies ids(rs)[a]
                    != ids(rs)[b] by {
                    if a < b {
                        assert(rs[a].id != rs[b].id);
                    } else {
                        assert(rs[b].id != rs[a].id);
                    }
                }
            }
        }
        if stats.total_campaigns != n as u64 || stats.active_campaigns != active
            || stats.total_raised != raised {
            return None;
        }
        Some(FundraisingContract { settings, stats, records })
    }

    /// The record of campaign `id` as a query finds it: none on a
    /// ledger that has not been set up, none where there is no such
    /// campaign.
    pub open spec fn lookup(&self, id: u64) -> Result<Record, Error> {
        if self.settings() is None {
            Err(Error::NotInitialized)
        } else {
            match self.record(id) {
                Some(rec) => Ok(rec),
                None => Err(Error::CampaignNotFound),
            }
        }
    }

    /// Where the record of campaign `id` stands, as a query finds it.
    fn locate(&self, id: u64) -> (r: Result<usize, Error>)
        requires
            self.wf(),
        ensures
            match self.lookup(id) {
                Ok(rec) => r matches Ok(i) && i < self.records@.len() && self.records@[i as int]@
                    == rec && rec.wf() && self.records()[i as int] == rec,
                Err(e) => r == Err::<usize, Error>(e),
            },
    {
        if self.settings.is_none() {
            return Err(Error::NotInitialized);
        }
        match self.find(id) {
            Some(i) => Ok(i),
            None => Err(Error::CampaignNotFound),
        }
    }

    /// Where the record of campaign `id` stands, if there is one.
    fn find(&self, id: u64) -> (r: Option<usize>)
        requires
            self.wf(),
        ensures
            match r {
                Some(i) => i < self.records@.len() && self.records@[i as int]@
                    == self.records()[i as int] && self.slot(id) == Some(i as int)
                    && self.records()[i as int].id == id && self.records()[i as int].wf()
                    && self.record(id) == Some(self.records()[i as int]),
                None => self.slot(id) is None && self.record(id) is None,
            },
    {
        let mut i: usize = 0;
        while i < self.records.len()
            invariant
                self.wf(),
                i <= self.records@.len(),
                forall|k: int| 0 <= k < i ==> self.records@[k].id != id,
            decreases self.records@.len() - i,
        {
            if self.records[i].id == id {
                proof {
                    lemma_slot_of_entry(ids(self.records()), i as int);
                }
                return Some(i);
            }
            i += 1;
        }
        proof {
            lemma_slot_of_found(ids(self.records()), id);
        }
        None
    }

    /// Sets the ledger up, once. `authorized` says whether `admin` has
    /// authorized it.
    pub fn initialize(&mut self, admin: Address, xlm_token_addr: Address, authorized: bool) -> (r:
        Result<InitEvent, Error>)
        requires
            old(self).wf(),
        ensures
            final(self).wf(),
            follows(old(self).records(), final(self).records()),
            r is Err ==> *final(self) == *old(self),
            final(self).records() == old(self).records(),
            final(self).stats() == old(self).stats(),
            r == if old(self).settings() is Some {
                Err::<InitEvent, Error>(Error::AlreadyInitialized)
            } else if !authorized {
                Err::<InitEvent, Error>(Error::Unauthorized)
            } else {
                Ok::<InitEvent, Error>(InitEvent { admin })
            },
            r is Ok ==> final(self).settings() == Some(
                Settings { admin, xlm_token: xlm_token_addr },
            ) && final(self).stats() == (CampaignStats {
                total_campaigns: 0,
                active_campaigns: 0,
                total_raised: 0,
            }),
    {
        if self.settings.is_some() {
            return Err(Error::AlreadyInitialized);
        }
        if !authorized {
            return Err(Error::Unauthorized);
        }
        self.settings = Some(Settings { admin, xlm_token: xlm_token_addr });
        self.stats = CampaignStats { total_campaigns: 0, active_campaigns: 0, total_raised: 0 };
        Ok(InitEvent { admin })
    }

    /// Opens a campaign under the identifier `campaign_id`, with
    /// nothing raised and nobody invested. `authorized` says whether
    /// `company_addr` has authorized it, `now` is the ledger's clock.
    pub fn create_campaign(
        &mut self,
        campaign_id: u64,
        company_addr: Address,
        equity_token_addr: Address,
        target_amount: i128,
        price_per_token: i128,
        deadline: u64,
        min_investment: i128,
        max_investment: i128,
        authorized: bool,
        now: u64,
    ) -> (r: Result<CampaignCreatedEvent, Error>)
        requires
            old(self).wf(),
        ensures
            final(self).wf(),
            follows(old(self).records(), final(self).records()),
            r is Err ==> *final(self) == *old(self),
            final(self).settings() == old(self).settings(),
            match old(self).create_refusal(
                campaign_id,
                target_amount,
                price_per_token,
                deadline,
                min_investment,
                max_investment,
                authorized,
                now,
            ) {
                Some(e) => r == Err::<CampaignCreatedEvent, Error>(e),
                None => {
                    &&& r == Ok::<CampaignCreatedEvent, Error>(
                        CampaignCreatedEvent {
                            campaign_id,
                            company: company_addr,
                            target_amount,
                            price_per_token,
                            deadline,
                        },
                    )
                    &&& final(self).records() == old(self).records().push(
                        Record {
                            id: campaign_id,
                            campaign: Campaign {
                                company_addr,
                                equity_token_addr,
                                target_amount,
                                price_per_token,
                                raised_amount: 0,
                                is_active: true,
                                deadline,
                                min_investment,
                                max_investment,
                            },
                            investors: Seq::empty(),
                            investments: Seq::empty(),
                        },
                    )
                    &&& final(self).stats() == (CampaignStats {
                        total_campaigns: (old(self).stats().total_campaigns + 1) as u64,
                        active_campaigns: (old(self).stats().active_campaigns + 1) as u64,
                        total_raised: old(self).stats().total_raised,
                    })
                    &&& old(self).stats().total_campaigns < u64::MAX
                    &&& old(self).stats().active_campaigns < u64::MAX
                },
            },
    {
        if self.settings.is_none() {
            return Err(Error::NotInitialized);
        }
        if !authorized {
            return Err(Error::Unauthorized);
        }
        if target_amount <= 0 || price_per_token <= 0 || min_investment <= 0 {
            return Err(Error::InvalidAmount);
        }
        if deadline <= now {
            return Err(Error::DeadlineInvalid);
        }
        if max_investment != 0 && max_investment < min_investment {
            return Err(Error::InvalidAmount);
        }
        if self.find(campaign_id).is_some() {
            return Err(Error::CampaignExists);
        }
        let ghost rs = self.records();
        let record = CampaignRecord {
            id: campaign_id,
            campaign: Campaign {
                company_addr,
                equity_token_addr,
                target_amount,
                price_per_token,
                raised_amount: 0,
                is_active: true,
                deadline,
                min_investment,
                max_investment,
            },
            investors: Vec::new(),
            investments: Vec::new(),
        };
        proof {
            lemma_push_record(rs, record@);
            lemma_slot_of_found(ids(rs), campaign_id);
            lemma_raised_amounts_natural(rs);
            lemma_sum_flags(active_flags(rs));
            assert(record@.investors =~= Seq::empty());
            assert(record@.investments =~= Seq::empty());
            assert(invested_amounts(record@.investments) =~= Seq::empty());
        }
        self.records.push(record);
        let count = self.records.len();
        proof {
            assert(self.records() =~= rs.push(record@));
            assert(count == rs.len() + 1);
        }
        self.stats.total_campaigns = self.stats.total_campaigns + 1;
        self.stats.active_campaigns = self.stats.active_campaigns + 1;
        Ok(
            CampaignCreatedEvent {
                campaign_id,
                company: company_addr,
                target_amount,
                price_per_token,
                deadline,
            },
        )
    }

    /// Screens an investment. Gives the place of the campaign's record
    /// and the tokens that the amount buys.
    fn screen_invest(
        &self,
        campaign_id: u64,
        investor: Address,
        amount: i128,
        authorized: bool,
        now: u64,
    ) -> (r: Result<(usize, i128), Error>)
        requires
            self.wf(),
        ensures
            match self.invest_refusal(campaign_id, investor, amount, authorized, now) {
                Some(e) => r == Err::<(usize, i128), Error>(e),
                None => r is Ok && self.slot(campaign_id) == Some(r.unwrap().0 as int)
                    && r.unwrap().0 < self.records@.len() && self.records@[r.unwrap().0 as int]@
                    == self.records()[r.unwrap().0 as int] && r.unwrap().1 == tokens_for(
                    amount as int,
                    self.record(campaign_id).unwrap().campaign.price_per_token as int,
                ),
            },
    {
        if self.settings.is_none() {
            return Err(Error::NotInitialized);
        }
        if !authorized {
            return Err(Error::Unauthorized);
        }
        if amount <= 0 {
            return Err(Error::InvalidAmount);
        }
        let i = match self.find(campaign_id) {
            None => {
                return Err(Error::CampaignNotFound);
            },
            Some(i) => i,
        };
        let record = &self.records[i];
        let campaign = record.campaign;
        if !campaign.is_active {
            return Err(Error::CampaignInactive);
        }
        if now > campaign.deadline {
            return Err(Error::DeadlinePassed);
        }
        if amount < campaign.min_investment {
            return Err(Error::InvestmentTooSmall);
        }
        if campaign.max_investment > 0 {
            let before = match position(&record.investors, &investor) {
                Some(j) => {
                    proof {
                        lemma_slot_of_entry(record@.investors, j as int);
                    }
                    record.investments[j].amount_invested
                },
                None => 0,
            };
            if amount > campaign.max_investment - before {
                return Err(Error::InvestmentTooLarge);
            }
        }
        let tokens = amount / campaign.price_per_token;
        if tokens <= 0 {
            return Err(Error::InvestmentTooSmall);
        }
        if self.stats.total_raised.checked_add(amount).is_none() {
            return Err(Error::InvalidAmount);
        }
        Ok((i, tokens))
    }

    /// The transfers that an investment of `amount` by `investor` in
    /// campaign `campaign_id` calls for, where `contract_addr` is the
    /// ledger's own account: the payment of `amount` to the ledger, and
    /// the delivery of the tokens it buys out of what the ledger holds
    /// on the campaign's equity ledger. The host makes them, the
    /// payment first, and reports to `invest` whether they went
    /// through.
    pub fn transfers_for_invest(
        &self,
        campaign_id: u64,
        investor: Address,
        amount: i128,
        authorized: bool,
        now: u64,
        contract_addr: Address,
    ) -> (r: Result<InvestTransfers, Error>)
        requires
            self.wf(),
        ensures
            match self.invest_refusal(campaign_id, investor, amount, authorized, now) {
                Some(e) => r == Err::<InvestTransfers, Error>(e),
                None => r == Ok::<InvestTransfers, Error>(
                    InvestTransfers {
                        payment: Payment {
                            asset: self.settings().unwrap().xlm_token,
                            from: investor,
                            to: contract_addr,
                            amount,
                        },
                        delivery: Payment {
                            asset: self.record(campaign_id).unwrap().campaign.equity_token_addr,
                            from: contract_addr,
                            to: investor,
                            amount: tokens_for(
                                amount as int,
                                self.record(campaign_id).unwrap().campaign.price_per_token as int,
                            ) as i128,
                        },
                    },
                ),
            },
    {
        let (i, tokens) = match self.screen_invest(campaign_id, investor, amount, authorized, now) {
            Err(e) => {
                return Err(e);
            },
            Ok(found) => found,
        };
        let xlm_token = match self.settings {
            Some(s) => s.xlm_token,
            None => {
                return Err(Error::NotInitialized);
            },
        };
        Ok(
            InvestTransfers {
                payment: Payment { asset: xlm_token, from: investor, to: contract_addr, amount },
                delivery: Payment {
                    asset: self.records[i].campaign.equity_token_addr,
                    from: contract_addr,
                    to: investor,
                    amount: tokens,
                },
            },
        )
    }

    /// Enters an investment of `amount` by `investor` in campaign
    /// `campaign_id`. `authorized` says whether the investor has
    /// authorized it, `now` is the ledger's clock, `paid` and
    /// `delivered` say whether the two transfers of
    /// `transfers_for_invest` went through. The tokens are those that
    /// this amount alone buys, rounded down.
    pub fn invest(
        &mut self,
        campaign_id: u64,
        investor: Address,
        amount: i128,
        authorized: bool,
        now: u64,
        paid: bool,
        delivered: bool,
    ) -> (r: Result<InvestedEvent, Error>)
        requires
            old(self).wf(),
        ensures
            final(self).wf(),
            follows(old(self).records(), final(self).records()),
            r is Err ==> *final(self) == *old(self),
            final(self).settings() == old(self).settings(),
            match old(self).invest_refusal(campaign_id, investor, amount, authorized, now) {
                Some(e) => r == Err::<InvestedEvent, Error>(e),
                None => if !paid || !delivered {
                    r == Err::<InvestedEvent, Error>(Error::TransferFailed)
                } else {
                    &&& r == Ok::<InvestedEvent, Error>(
                        InvestedEvent {
                            campaign_id,
                            investor,
                            amount,
                            tokens_received: tokens_for(
                                amount as int,
                                old(self).record(campaign_id).unwrap().campaign.price_per_token as int,
                            ) as i128,
                        },
                    )
                    &&& final(self).records() == old(self).records().update(
                        old(self).slot(campaign_id).unwrap(),
                        old(self).record(campaign_id).unwrap().invested(investor, amount, now),
                    )
                    &&& final(self).stats() == (CampaignStats {
                        total_raised: (old(self).stats().total_raised + amount) as i128,
                        ..old(self).stats()
                    })
                    &&& old(self).stats().total_raised + amount <= i128::MAX
                },
            },
    {
        let (i, tokens) = match self.screen_invest(campaign_id, investor, amount, authorized, now) {
            Err(e) => {
                return Err(e);
            },
            Ok(found) => found,
        };
        if !paid || !delivered {
            return Err(Error::TransferFailed);
        }
        let ghost rs = self.records();
        proof {
            assert(rs[i as int].wf());
            lemma_raised_amounts_natural(rs);
            lemma_sum_covers(raised_amounts(rs), i as int);
        }
        let record = &mut self.records[i];
        record.add_investment(investor, amount, tokens, now);
        self.stats.total_raised = self.stats.total_raised + amount;
        proof {
            let after = rs[i as int].invested(investor, amount, now);
            assert(self.records() =~= rs.update(i as int, after));
            lemma_replace_record(rs, i as int, after);
        }
        Ok(InvestedEvent { campaign_id, investor, amount, tokens_received: tokens })
    }

    /// Screens a withdrawal. Gives the place of the campaign's record.
    fn screen_withdraw(&self, campaign_id: u64, authorized: bool, now: u64) -> (r: Result<
        usize,
        Error,
    >)
        requires
            self.wf(),
        ensures
            match self.withdraw_refusal(campaign_id, authorized, now) {
                Some(e) => r == Err::<usize, Error>(e),
                None => r is Ok && self.slot(campaign_id) == Some(r.unwrap() as int) && r.unwrap()
                    < self.records@.len() && self.records@[r.unwrap() as int]@
                    == self.records()[r.unwrap() as int],
            },
    {
        if self.settings.is_none() {
            return Err(Error::NotInitialized);
        }
        let i = match self.find(campaign_id) {
            None => {
                return Err(Error::CampaignNotFound);
            },
            Some(i) => i,
        };
        let campaign = self.records[i].campaign;
        if !authorized {
            return Err(Error::Unauthorized);
        }
        if !campaign.is_active {
            return Err(Error::CampaignInactive);
        }
        if !(campaign.raised_amount >= campaign.target_amount || now > campaign.deadline) {
            return Err(Error::CannotWithdraw);
        }
        Ok(i)
    }

    /// The payment that a withdrawal from campaign `campaign_id` calls
    /// for, where `contract_addr` is the ledger's own account: all that
    /// the campaign raised goes to the company. The host makes it and
    /// reports to `withdraw_funds` whether it went through.
    pub fn payment_for_withdrawal(
        &self,
        campaign_id: u64,
        authorized: bool,
        now: u64,
        contract_addr: Address,
    ) -> (r: Result<Payment, Error>)
        requires
            self.wf(),
        ensures
            match self.withdraw_refusal(campaign_id, authorized, now) {
                Some(e) => r == Err::<Payment, Error>(e),
                None => r == Ok::<Payment, Error>(
                    Payment {
                        asset: self.settings().unwrap().xlm_token,
                        from: contract_addr,
                        to: self.record(campaign_id).unwrap().campaign.company_addr,
                        amount: self.record(campaign_id).unwrap().campaign.raised_amount,
                    },
                ),
            },
    {
        let i = match self.screen_withdraw(campaign_id, authorized, now) {
            Err(e) => {
                return Err(e);
            },
            Ok(i) => i,
        };
        let xlm_token = match self.settings {
            Some(s) => s.xlm_token,
            None => {
                return Err(Error::NotInitialized);
            },
        };
        let campaign = self.records[i].campaign;
        Ok(
            Payment {
                asset: xlm_token,
                from: contract_addr,
                to: campaign.company_addr,
                amount: campaign.raised_amount,
            },
        )
    }

    /// Closes the campaign at place `i`, which is active.
    fn close_at(&mut self, i: usize)
        requires
            old(self).wf(),
            i < old(self).records().len(),
            old(self).records()[i as int].campaign.is_active,
        ensures
            final(self).wf(),
            final(self).settings() == old(self).settings(),
            final(self).records() == old(self).records().update(
                i as int,
                old(self).records()[i as int].closed(),
            ),
            final(self).stats() == (CampaignStats {
                active_campaigns: (old(self).stats().active_campaigns - 1) as u64,
                ..old(self).stats()
            }),
            old(self).stats().active_campaigns >= 1,
    {
        let ghost rs = self.records();
        proof {
            assert(self.records@[i as int]@ == rs[i as int]);
            assert(rs[i as int].wf());
            lemma_raised_amounts_natural(rs);
            assert(all_natural(active_flags(rs)));
            lemma_sum_covers(active_flags(rs), i as int);
        }
        let record = &mut self.records[i];
        record.campaign.is_active = false;
        self.stats.active_campaigns = self.stats.active_campaigns.saturating_sub(1);
        proof {
            let after = rs[i as int].closed();
            assert(self.records() =~= rs.update(i as int, after));
            lemma_replace_record(rs, i as int, after);
        }
    }

    /// Hands what campaign `campaign_id` raised to its company and
    /// closes the campaign, for good. `authorized` says whether the
    /// company has authorized it, `now` is the ledger's clock, `paid`
    /// says whether the payment of `payment_for_withdrawal` went
    /// through.
    pub fn withdraw_funds(&mut self, campaign_id: u64, authorized: bool, now: u64, paid: bool)
        -> (r: Result<WithdrawnEvent, Error>)
        requires
            old(self).wf(),
        ensures
            final(self).wf(),
            follows(old(self).records(), final(self).records()),
            r is Err ==> *final(self) == *old(self),
            final(self).settings() == old(self).settings(),
            match old(self).withdraw_refusal(campaign_id, authorized, now) {
                Some(e) => r == Err::<WithdrawnEvent, Error>(e),
                None => if !paid {
                    r == Err::<WithdrawnEvent, Error>(Error::TransferFailed)
                } else {
                    &&& r == Ok::<WithdrawnEvent, Error>(
                        WithdrawnEvent {
                            campaign_id,
                            company: old(self).record(campaign_id).unwrap().campaign.company_addr,
                            amount: old(self).record(campaign_id).unwrap().campaign.raised_amount,
                        },
                    )
                    &&& final(self).records() == old(self).records().update(
                        old(self).slot(campaign_id).unwrap(),
                        old(self).record(campaign_id).unwrap().closed(),
                    )
                    &&& final(self).stats() == (CampaignStats {
                        active_campaigns: (old(self).stats().active_campaigns - 1) as u64,
                        ..old(self).stats()
                    })
                    &&& old(self).stats().active_campaigns >= 1
                },
            },
    {
        let i = match self.screen_withdraw(campaign_id, authorized, now) {
            Err(e) => {
                return Err(e);
            },
            Ok(i) => i,
        };
        if !paid {
            return Err(Error::TransferFailed);
        }
        let campaign = self.records[i].campaign;
        self.close_at(i);
        Ok(
            WithdrawnEvent {
                campaign_id,
                company: campaign.company_addr,
                amount: campaign.raised_amount,
            },
        )
    }

    /// Closes campaign `campaign_id` without moving any funds. `caller`
    /// must be the admin or the campaign's company; `authorized` says
    /// whether `caller` has authorized it. Closing a closed campaign
    /// changes nothing and gives no event.
    pub fn close_campaign(&mut self, campaign_id: u64, caller: Address, authorized: bool) -> (r:
        Result<Option<CampaignClosedEvent>, Error>)
        requires
            old(self).wf(),
        ensures
            final(self).wf(),
            follows(old(self).records(), final(self).records()),
            r is Err ==> *final(self) == *old(self),
            final(self).settings() == old(self).settings(),
            match old(self).close_refusal(campaign_id, caller, authorized) {
                Some(e) => r == Err::<Option<CampaignClosedEvent>, Error>(e),
                None => if !old(self).record(campaign_id).unwrap().campaign.is_active {
                    r == Ok::<Option<CampaignClosedEvent>, Error>(None) && *final(self) == *old(
                        self,
                    )
                } else {
                    &&& r == Ok::<Option<CampaignClosedEvent>, Error>(
                        Some(CampaignClosedEvent { campaign_id }),
                    )
                    &&& final(self).records() == old(self).records().update(
                        old(self).slot(campaign_id).unwrap(),
                        old(self).record(campaign_id).unwrap().closed(),
                    )
                    &&& final(self).stats() == (CampaignStats {
                        active_campaigns: (old(self).stats().active_campaigns - 1) as u64,
                        ..old(self).stats()
                    })
                    &&& old(self).stats().active_campaigns >= 1
                },
            },
    {
        let admin = match self.settings {
            None => {
                return Err(Error::NotInitialized);
            },
            Some(s) => s.admin,
        };
        if !authorized {
            return Err(Error::Unauthorized);
        }
        let i = match self.find(campaign_id) {
            None => {
                return Err(Error::CampaignNotFound);
            },
            Some(i) => i,
        };
        let campaign = self.records[i].campaign;
        if caller != admin && caller != campaign.company_addr {
            return Err(Error::Unauthorized);
        }
        if !campaign.is_active {
            return Ok(None);
        }
        self.close_at(i);
        Ok(Some(CampaignClosedEvent { campaign_id }))
    }

    /// The terms and state of campaign `campaign_id`.
    /// Refused with `NotInitialized` on a ledger that has not been set
    /// up.
    pub fn get_campaign(&self, campaign_id: u64) -> (r: Result<Campaign, Error>)
        requires
            self.wf(),
        ensures
            r == match self.lookup(campaign_id) {
                Ok(rec) => Ok::<Campaign, Error>(rec.campaign),
                Err(e) => Err::<Campaign, Error>(e),
            },
    {
        match self.locate(campaign_id) {
            Ok(i) => Ok(self.records[i].campaign),
            Err(e) => Err(e),
        }
    }

    /// What `investor` has put into campaign `campaign_id`; a record of
    /// nothing, at time zero, where there is no such investment.
    /// Refused with `NotInitialized` on a ledger that has not been set
    /// up.
    pub fn get_investment(&self, campaign_id: u64, investor: Address) -> (r: Result<
        Investment,
        Error,
    >)
        requires
            self.wf(),
        ensures
            r == match self.settings() {
                None => Err::<Investment, Error>(Error::NotInitialized),
                Some(_) => Ok::<Investment, Error>(
                    match self.investment(campaign_id, investor) {
                        Some(inv) => inv,
                        None => Investment {
                            investor,
                            amount_invested: 0,
                            tokens_received: 0,
                            timestamp: 0,
                        },
                    },
                ),
            },
            r matches Ok(inv) ==> inv.investor == investor,
    {
        if self.settings.is_none() {
            return Err(Error::NotInitialized);
        }
        let nothing = Investment { investor, amount_invested: 0, tokens_received: 0, timestamp: 0 };
        match self.find(campaign_id) {
            Some(i) => {
                let record = &self.records[i];
                match position(&record.investors, &investor) {
                    Some(j) => {
                        proof {
                            lemma_slot_of_entry(record@.investors, j as int);
                        }
                        Ok(record.investments[j])
                    },
                    None => Ok(nothing),
                }
            },
            None => Ok(nothing),
        }
    }

    /// The investors of campaign `campaign_id`, each once, in the order
    /// in which they first invested; none where there is no such
    /// campaign.
    /// Refused with `NotInitialized` on a ledger that has not been set
    /// up.
    pub fn get_investors(&self, campaign_id: u64) -> (r: Result<Vec<Address>, Error>)
        requires
            self.wf(),
        ensures
            match self.settings() {
                None => r == Err::<Vec<Address>, Error>(Error::NotInitialized),
                Some(_) => r matches Ok(v) && v@ == self.roster(campaign_id)
                    && v@.no_duplicates(),
            },
    {
        if self.settings.is_none() {
            return Err(Error::NotInitialized);
        }
        let mut out: Vec<Address> = Vec::new();
        match self.find(campaign_id) {
            Some(i) => {
                let investors = &self.records[i].investors;
                let mut j: usize = 0;
                while j < investors.len()
                    invariant
                        j <= investors@.len(),
                        out@ == investors@.subrange(0, j as int),
                    decreases investors@.len() - j,
                {
                    out.push(investors[j]);
                    assert(out@ =~= investors@.subrange(0, j + 1));
                    j += 1;
                }
                assert(out@ =~= investors@);
            },
            None => {},
        }
        Ok(out)
    }

    /// How many investors campaign `campaign_id` has; `u32::MAX` where
    /// they are more than that.
    /// Refused with `NotInitialized` on a ledger that has not been set
    /// up.
    pub fn get_investor_count(&self, campaign_id: u64) -> (r: Result<u32, Error>)
        requires
            self.wf(),
        ensures
            r == match self.settings() {
                None => Err::<u32, Error>(Error::NotInitialized),
                Some(_) => Ok::<u32, Error>(
                    if self.roster(campaign_id).len() <= u32::MAX {
                        self.roster(campaign_id).len() as u32
                    } else {
                        u32::MAX
                    },
                ),
            },
    {
        if self.settings.is_none() {
            return Err(Error::NotInitialized);
        }
        match self.find(campaign_id) {
            Some(i) => {
                let n = self.records[i].investors.len();
                if n <= u32::MAX as usize {
                    Ok(n as u32)
                } else {
                    Ok(u32::MAX)
                }
            },
            None => Ok(0),
        }
    }

    /// The counters over all campaigns.
    /// Refused with `NotInitialized` on a ledger that has not been set
    /// up.
    pub fn get_stats(&self) -> (r: Result<CampaignStats, Error>)
        ensures
            r == match self.settings() {
                None => Err::<CampaignStats, Error>(Error::NotInitialized),
                Some(_) => Ok::<CampaignStats, Error>(self.stats()),
            },
    {
        if self.settings.is_none() {
            return Err(Error::NotInitialized);
        }
        Ok(self.stats)
    }

    /// Whether `investor` has invested in campaign `campaign_id`.
    /// Refused with `NotInitialized` on a ledger that has not been set
    /// up.
    pub fn has_invested(&self, campaign_id: u64, investor: Address) -> (r: Result<bool, Error>)
        requires
            self.wf(),
        ensures
            r == match self.settings() {
                None => Err::<bool, Error>(Error::NotInitialized),
                Some(_) => Ok::<bool, Error>(self.investment(campaign_id, investor) is Some),
            },
            r matches Ok(found) ==> found == self.roster(campaign_id).contains(investor),
    {
        if self.settings.is_none() {
            return Err(Error::NotInitialized);
        }
        match self.find(campaign_id) {
            Some(i) => {
                let found = vec_contains(&self.records[i].investors, &investor);
                proof {
                    lemma_slot_of_found(self.records()[i as int].investors, investor);
                }
                Ok(found)
            },
            None => {
                assert(!Seq::<Address>::empty().contains(investor));
                Ok(false)
            },
        }
    }

    /// How much of its target campaign `campaign_id` has raised, in
    /// whole percent, rounded down. Refused with `InvalidAmount` where
    /// a hundred times the raised amount is more than an `i128` holds,
    /// and with `NotInitialized` on a ledger that has not been set up.
    pub fn get_campaign_progress(&self, campaign_id: u64) -> (r: Result<i128, Error>)
        requires
            self.wf(),
        ensures
            r == match self.lookup(campaign_id) {
                Err(e) => Err::<i128, Error>(e),
                Ok(rec) => if rec.campaign.raised_amount * 100 > i128::MAX {
                    Err::<i128, Error>(Error::InvalidAmount)
                } else {
                    Ok::<i128, Error>(
                        progress(
                            rec.campaign.raised_amount as int,
                            rec.campaign.target_amount as int,
                        ) as i128,
                    )
                },
            },
            r matches Ok(p) ==> p >= 0,
    {
        let i = match self.locate(campaign_id) {
            Err(e) => {
                return Err(e);
            },
            Ok(i) => i,
        };
        proof {
            lemma_raised_amounts_natural(self.records());
            assert(raised_amounts(self.records())[i as int] >= 0);
        }
        let campaign = self.records[i].campaign;
        if campaign.target_amount == 0 {
            return Ok(0);
        }
        match campaign.raised_amount.checked_mul(100) {
            None => Err(Error::InvalidAmount),
            Some(scaled) => {
                assert(scaled as int / campaign.target_amount as int >= 0) by (nonlinear_arith)
                    requires
                        scaled >= 0,
                        campaign.target_amount > 0,
                ;
                assert(scaled as int / campaign.target_amount as int <= scaled) by (nonlinear_arith)
                    requires
                        scaled >= 0,
                        campaign.target_amount > 0,
                ;
                Ok(scaled / campaign.target_amount)
            },
        }
    }

    /// The key under which a host stores the record of campaign
    /// `campaign_id`.
    pub fn get_campaign_key(campaign_id: u64) -> (r: (&'static str, u64))
        ensures
            r.0@ == "CAMP"@,
            r.1 == campaign_id,
    {
        ("CAMP", campaign_id)
    }

    /// The key under which a host stores what `investor` has put into
    /// campaign `campaign_id`.
    pub fn get_investment_key(campaign_id: u64, investor: &Address) -> (r: (
        (&'static str, u64),
        Address,
    ))
        ensures
            r.0.0@ == "INV"@,
            r.0.1 == campaign_id,
            r.1 == *investor,
    {
        (("INV", campaign_id), *investor)
    }

    /// The key under which a host stores the investors of campaign
    /// `campaign_id`.
    pub fn get_investors_key(campaign_id: u64) -> (r: (&'static str, u64))
        ensures
            r.0@ == "INVS"@,
            r.1 == campaign_id,
    {
        ("INVS", campaign_id)
    }
}

/// Closing is for good: a campaign that is closed takes no investment
/// and gives no withdrawal, whoever asks and whenever.
pub proof fn lemma_closed_campaign_refuses(
    f: FundraisingContract,
    campaign_id: u64,
    investor: Address,
    amount: i128,
    authorized: bool,
    now: u64,
)
    requires
        f.record(campaign_id) matches Some(r) && !r.campaign.is_active,
    ensures
        f.invest_refusal(campaign_id, investor, amount, authorized, now) is Some,
        f.withdraw_refusal(campaign_id, authorized, now) is Some,
        f.settings() is Some && authorized && amount > 0 ==> f.invest_refusal(
            campaign_id,
            investor,
            amount,
            authorized,
            now,
        ) == Some(Error::CampaignInactive),
        f.settings() is Some && authorized ==> f.withdraw_refusal(campaign_id, authorized, now)
            == Some(Error::CampaignInactive),
{
}

/// When a withdrawal is due: from an active campaign, asked for with
/// the company's authorization, it is refused with `CannotWithdraw`
/// exactly while the campaign is below its target and the deadline has
/// not passed, and accepted otherwise.
pub proof fn lemma_withdrawal_eligibility(
    f: FundraisingContract,
    campaign_id: u64,
    now: u64,
)
    requires
        f.settings() is Some,
        f.record(campaign_id) matches Some(r) && r.campaign.is_active,
    ensures
        f.withdraw_refusal(campaign_id, true, now) == if f.record(
            campaign_id,
        ).unwrap().campaign.raised_amount < f.record(campaign_id).unwrap().campaign.target_amount
            && now <= f.record(campaign_id).unwrap().campaign.deadline {
            Some(Error::CannotWithdraw)
        } else {
            None
        },
{
}

} // verus!
