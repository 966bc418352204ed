use vstd::prelude::*;
use crate::address::Address;
use crate::sums::{
    all_flags, all_natural, lemma_slot_of_entry, lemma_slot_of_found, lemma_sum_covers,
    lemma_sum_natural, lemma_sum_push, lemma_sum_take_next, lemma_sum_take_within,
    lemma_sum_update, slot_of, sum,
};

verus! {

/// A time-boxed offer to sell equity tokens at a fixed price.
#[derive(Clone, Copy, Debug, PartialEq, Eq)]
pub struct Campaign {
    /// The company that raises the funds.
    pub company_addr: Address,
    /// The equity ledger whose tokens are sold.
    pub equity_token_addr: Address,
    pub target_amount: i128,
    pub price_per_token: i128,
    pub raised_amount: i128,
    pub is_active: bool,
    /// The last moment, in seconds since the epoch, at which an
    /// investment is accepted.
    pub deadline: u64,
    pub min_investment: i128,
    /// The most that one investor may put in; zero for no limit.
    pub max_investment: i128,
}

/// What one investor has put into one campaign, over all investments.
#[derive(Clone, Copy, Debug, PartialEq, Eq)]
pub struct Investment {
    pub investor: Address,
    pub amount_invested: i128,
    pub tokens_received: i128,
    /// When the investor first invested.
    pub timestamp: u64,
}

/// Counters over all campaigns.
#[derive(Clone, Copy, Debug, PartialEq, Eq)]
pub struct CampaignStats {
    pub total_campaigns: u64,
    pub active_campaigns: u64,
    pub total_raised: i128,
}

/// All that the ledger keeps of one campaign: its terms and state, the
/// investors in the order in which they first invested, and for each
/// of them, at the same place, what they have put in.
#[derive(Clone, Debug, PartialEq, Eq)]
pub struct CampaignRecord {
    pub id: u64,
    pub campaign: Campaign,
    pub investors: Vec<Address>,
    pub investments: Vec<Investment>,
}

/// A campaign record as a mathematical value.
pub struct Record {
    pub id: u64,
    pub campaign: Campaign,
    pub investors: Seq<Address>,
    pub investments: Seq<Investment>,
}

impl View for CampaignRecord {
    type V = Record;

    open spec fn view(&self) -> Record {
        Record {
            id: self.id,
            campaign: self.campaign,
            investors: self.investors@,
            investments: self.investments@,
        }
    }
}

/// The tokens that `amount` buys at `price` each: the quotient, rounded
/// down.
pub open spec fn tokens_for(amount: int, price: int) -> int {
    amount / price
}

/// The amounts that the investments hold, in their order.
pub open spec fn invested_amounts(investments: Seq<Investment>) -> Seq<int> {
    Seq::new(investments.len(), |j: int| investments[j].amount_invested as int)
}

/// The terms that a campaign is accepted with: a positive target, price
/// and minimum, and a maximum that is zero or no less than the minimum.
pub open spec fn terms_valid(
    target_amount: i128,
    price_per_token: i128,
    min_investment: i128,
    max_investment: i128,
) -> bool {
    &&& target_amount > 0
    &&& price_per_token > 0
    &&& min_investment > 0
    &&& max_investment == 0 || max_investment >= min_investment
}

impl Record {
    /// What `investor` has put into the campaign so far.
    pub open spec fn invested_by(self, investor: Address) -> int {
        match slot_of(self.investors, investor) {
            Some(j) => self.investments[j].amount_invested as int,
            None => 0,
        }
    }

    /// The tokens that `investor` has received so far.
    pub open spec fn tokens_of(self, investor: Address) -> int {
        match slot_of(self.investors, investor) {
            Some(j) => self.investments[j].tokens_received as int,
            None => 0,
        }
    }

    /// The investment of `investor`, if there is one.
    pub open spec fn investment_of(self, investor: Address) -> Option<Investment> {
        match slot_of(self.investors, investor) {
            Some(j) => Some(self.investments[j]),
            None => None,
        }
    }

    /// What holds of every record: valid terms, no investor listed
    /// twice, one investment for each investor at the investor's place,
    /// each with tokens received and no more tokens than money, and a
    /// raised amount that is the sum of the investments.
    pub open spec fn wf(self) -> bool {
        &&& terms_valid(
            self.campaign.target_amount,
            self.campaign.price_per_token,
            self.campaign.min_investment,
            self.campaign.max_investment,
        )
        &&& self.investors.no_duplicates()
        &&& self.investors.len() == self.investments.len()
        &&& forall|j: int|
            0 <= j < self.investments.len() ==> {
                &&& (#[trigger] self.investments[j]).investor == self.investors[j]
                &&& 0 < self.investments[j].tokens_received <= self.investments[j].amount_invested
            }
        &&& sum(invested_amounts(self.investments)) == self.campaign.raised_amount
    }

    /// The record after `investor` has put in `amount` more at time
    /// `now`: the raised amount grows by `amount`; a first investment
    /// is entered at the end, with `now` as its time; a later one is
    /// added to the investor's entry, which keeps its time. The tokens
    /// are those that this `amount` alone buys.
    pub open spec fn invested(self, investor: Address, amount: i128, now: u64) -> Record {
        let tokens = tokens_for(amount as int, self.campaign.price_per_token as int);
        let campaign = Campaign {
            raised_amount: (self.campaign.raised_amount + amount) as i128,
            ..self.campaign
        };
        match slot_of(self.investors, investor) {
            Some(j) => Record {
                campaign,
                investments: self.investments.update(
                    j,
                    Investment {
                        amount_invested: (self.investments[j].amount_invested + amount) as i128,
                        tokens_received: (self.investments[j].tokens_received + tokens) as i128,
                        ..self.investments[j]
                    },
                ),
                ..self
            },
            None => Record {
                campaign,
                investors: self.investors.push(investor),
                investments: self.investments.push(
                    Investment {
                        investor,
                        amount_invested: amount,
                        tokens_received: tokens as i128,
                        timestamp: now,
                    },
                ),
                ..self
            },
        }
    }

    /// The record after the campaign has been closed.
    pub open spec fn closed(self) -> Record {
        Record { campaign: Campaign { is_active: false, ..self.campaign }, ..self }
    }
}

/// The records as mathematical values, in their order.
pub open spec fn views(records: Seq<CampaignRecord>) -> Seq<Record> {
    Seq::new(records.len(), |i: int| records[i]@)
}

/// The identifiers of the records, in their order.
pub open spec fn ids(rs: Seq<Record>) -> Seq<u64> {
    Seq::new(rs.len(), |i: int| rs[i].id)
}

/// The raised amounts of the records, in their order.
pub open spec fn raised_amounts(rs: Seq<Record>) -> Seq<int> {
    Seq::new(rs.len(), |i: int| rs[i].campaign.raised_amount as int)
}

/// One for each record of an active campaign, zero for each other.
pub open spec fn active_flags(rs: Seq<Record>) -> Seq<int> {
    Seq::new(
        rs.len(),
        |i: int|
            if rs[i].campaign.is_active {
                1int
            } else {
                0int
            },
    )
}

/// Each record is well formed, and no two have the same identifier.
pub open spec fn records_wf(rs: Seq<Record>) -> bool {
    &&& ids(rs).no_duplicates()
    &&& forall|i: int| 0 <= i < rs.len() ==> (#[trigger] rs[i]).wf()
}

/// The record of campaign `id`, if there is one.
pub open spec fn record_of(rs: Seq<Record>, id: u64) -> Option<Record> {
    match slot_of(ids(rs), id) {
        Some(i) => Some(rs[i]),
        None => None,
    }
}

pub proof fn lemma_invested_amounts_natural(r: Record)
    requires
        r.wf(),
    ensures
        all_natural(invested_amounts(r.investments)),
{
    assert forall|j: int| 0 <= j < r.investments.len() implies invested_amounts(r.investments)[j]
        >= 0 by {
        assert(r.investments[j].amount_invested > 0);
    }
}

pub proof fn lemma_raised_amounts_natural(rs: Seq<Record>)
    requires
        records_wf(rs),
    ensures
        all_natural(raised_amounts(rs)),
        all_flags(active_flags(rs)),
{
    assert forall|i: int| 0 <= i < rs.len() implies raised_amounts(rs)[i] >= 0 by {
        assert(rs[i].wf());
        lemma_invested_amounts_natural(rs[i]);
        lemma_sum_natural(invested_amounts(rs[i].investments));
    }
}

/// Replacing a record by one with the same identifier keeps the
/// identifiers and moves the sums by the difference of the two.
pub proof fn lemma_replace_record(rs: Seq<Record>, i: int, r: Record)
    requires
        0 <= i < rs.len(),
        r.id == rs[i].id,
    ensures
        ids(rs.update(i, r)) == ids(rs),
        sum(raised_amounts(rs.update(i, r))) == sum(raised_amounts(rs))
            - rs[i].campaign.raised_amount + r.campaign.raised_amount,
        sum(active_flags(rs.update(i, r))) == sum(active_flags(rs)) - active_flags(rs)[i]
            + active_flags(rs.update(i, r))[i],
{
    let t = rs.update(i, r);
    assert(ids(t) =~= ids(rs));
    assert(raised_amounts(t) =~= raised_amounts(rs).update(i, r.campaign.raised_amount as int));
    lemma_sum_update(raised_amounts(rs), i, r.campaign.raised_amount as int);
    assert(active_flags(t) =~= active_flags(rs).update(i, active_flags(t)[i]));
    lemma_sum_update(active_flags(rs), i, active_flags(t)[i]);
}

/// Adding a record at the end adds its identifier, its raised amount
/// and its flag.
pub proof fn lemma_push_record(rs: Seq<Record>, r: Record)
    ensures
        ids(rs.push(r)) == ids(rs).push(r.id),
        sum(raised_amounts(rs.push(r))) == sum(raised_amounts(rs)) + r.campaign.raised_amount,
        sum(active_flags(rs.push(r))) == sum(active_flags(rs)) + if r.campaign.is_active {
            1int
        } else {
            0int
        },
{
    let t = rs.push(r);
    assert(ids(t) =~= ids(rs).push(r.id));
    assert(raised_amounts(t) =~= raised_amounts(rs).push(r.campaign.raised_amount as int));
    lemma_sum_push(raised_amounts(rs), r.campaign.raised_amount as int);
    let f = if r.campaign.is_active {
        1int
    } else {
        0int
    };
    assert(active_flags(t) =~= active_flags(rs).push(f));
    lemma_sum_push(active_flags(rs), f);
}

/// Whether campaign records `after` can have come from `before`: the
/// campaigns of `before` are all still there, at their places and on
/// their terms, none has raised less than it had, and none that was
/// closed is active again.
pub open spec fn follows(before: Seq<Record>, after: Seq<Record>) -> bool {
    &&& before.len() <= after.len()
    &&& forall|i: int|
        0 <= i < before.len() ==> {
            &&& (#[trigger] after[i]).id == before[i].id
            &&& after[i].campaign.raised_amount >= before[i].campaign.raised_amount
            &&& !before[i].campaign.is_active ==> !after[i].campaign.is_active
            &&& after[i].campaign.company_addr == before[i].campaign.company_addr
            &&& after[i].campaign.equity_token_addr == before[i].campaign.equity_token_addr
            &&& after[i].campaign.target_amount == before[i].campaign.target_amount
            &&& after[i].campaign.price_per_token == before[i].campaign.price_per_token
            &&& after[i].campaign.deadline == before[i].campaign.deadline
            &&& after[i].campaign.min_investment == before[i].campaign.min_investment
            &&& after[i].campaign.max_investment == before[i].campaign.max_investment
        }
}

/// What one more investment does to a record: it stays well formed;
/// the investor's entry holds the sum of the amounts, and the sum of
/// the tokens that each amount bought by itself; a first investment
/// puts the investor at the end of the list, a later one leaves the
/// list as it is; everybody else's entry stays as it is.
pub proof fn lemma_invested(r: Record, investor: Address, amount: i128, now: u64)
    requires
        r.wf(),
        amount > 0,
        tokens_for(amount as int, r.campaign.price_per_token as int) > 0,
        r.campaign.raised_amount + amount <= i128::MAX,
    ensures
        r.invested(investor, amount, now).wf(),
        r.invested(investor, amount, now).id == r.id,
        r.invested(investor, amount, now).campaign == (Campaign {
            raised_amount: (r.campaign.raised_amount + amount) as i128,
            ..r.campaign
        }),
        r.invested(investor, amount, now).investors == if r.investors.contains(investor) {
            r.investors
        } else {
            r.investors.push(investor)
        },
        r.invested(investor, amount, now).investment_of(investor) == Some(
            Investment {
                investor,
                amount_invested: (r.invested_by(investor) + amount) as i128,
                tokens_received: (r.tokens_of(investor) + tokens_for(
                    amount as int,
                    r.campaign.price_per_token as int,
                )) as i128,
                timestamp: match r.investment_of(investor) {
                    Some(first) => first.timestamp,
                    None => now,
                },
            },
        ),
        r.invested_by(investor) + amount <= i128::MAX,
        r.tokens_of(investor) + tokens_for(amount as int, r.campaign.price_per_token as int)
            <= i128::MAX,
        forall|other: Address|
            other != investor ==> #[trigger] r.invested(investor, amount, now).investment_of(other)
                == r.investment_of(other),
{
    let tokens = tokens_for(amount as int, r.campaign.price_per_token as int);
    let after = r.invested(investor, amount, now);
    lemma_slot_of_found(r.investors, investor);
    lemma_invested_amounts_natural(r);
    assert(tokens <= amount) by (nonlinear_arith)
        requires
            amount > 0,
            r.campaign.price_per_token >= 1,
            tokens == amount as int / r.campaign.price_per_token as int,
    ;
    match slot_of(r.investors, investor) {
        Some(j) => {
            lemma_sum_covers(invested_amounts(r.investments), j);
            let entry = after.investments[j];
            assert(invested_amounts(after.investments) =~= invested_amounts(r.investments).update(
                j,
                entry.amount_invested as int,
            ));
            lemma_sum_update(invested_amounts(r.investments), j, entry.amount_invested as int);
            lemma_slot_of_entry(after.investors, j);
            assert forall|k: int| 0 <= k < after.investments.len() implies {
                &&& (#[trigger] after.investments[k]).investor == after.investors[k]
                &&& 0 < after.investments[k].tokens_received <= after.investments[k].amount_invested
            } by {
                if k != j {
                    assert(after.investments[k] == r.investments[k]);
                }
            }
            assert forall|other: Address| other != investor implies #[trigger] after.investment_of(
                other,
            ) == r.investment_of(other) by {
                lemma_slot_of_found(r.investors, other);
            }
        },
        None => {
            let n = r.investors.len() as int;
            assert(invested_amounts(after.investments) =~= invested_amounts(r.investments).push(
                amount as int,
            ));
            lemma_sum_push(invested_amounts(r.investments), amount as int);
            assert(after.investors.no_duplicates()) by {
                assert forall|a: int, b: int|
                    0 <= a < after.investors.len() && 0 <= b < after.investors.len() && a
                        != b implies after.investors[a] != after.investors[b] by {
                    if a < n && b < n {
                        assert(r.investors[a] != r.investors[b]);
                    }
                }
            }
            lemma_slot_of_entry(after.investors, n);
            assert forall|k: int| 0 <= k < after.investments.len() implies {
                &&& (#[trigger] after.investments[k]).investor == after.investors[k]
                &&& 0 < after.investments[k].tokens_received <= after.investments[k].amount_invested
            } by {
                if k < n {
                    assert(after.investments[k] == r.investments[k]);
                }
            }
            assert forall|other: Address| other != investor implies #[trigger] after.investment_of(
                other,
            ) == r.investment_of(other) by {
                lemma_slot_of_found(r.investors, other);
                lemma_slot_of_found(after.investors, other);
                match slot_of(r.investors, other) {
                    Some(k) => {
                        lemma_slot_of_entry(after.investors, k);
                    },
                    None => {},
                }
            }
        },
    }
}

/// The amounts as numbers, in their order.
pub open spec fn amounts_of(amounts: Seq<i128>) -> Seq<int> {
    Seq::new(amounts.len(), |k: int| amounts[k] as int)
}

/// The tokens that each amount buys by itself at `price` each, in the
/// order of the amounts.
pub open spec fn tokens_of_each(amounts: Seq<i128>, price: int) -> Seq<int> {
    Seq::new(amounts.len(), |k: int| tokens_for(amounts[k] as int, price))
}

impl Record {
    /// The record after `investor` has invested each of `amounts` in
    /// turn, the `k`-th at time `times[k]`.
    pub open spec fn invested_each(self, investor: Address, amounts: Seq<i128>, times: Seq<u64>)
        -> Record
        decreases amounts.len(),
    {
        if amounts.len() == 0 {
            self
        } else {
            self.invested_each(investor, amounts.drop_last(), times.drop_last()).invested(
                investor,
                amounts.last(),
                times.last(),
            )
        }
    }
}

/// Investments add up. After one investor has invested several amounts
/// in a campaign, each of them buying at least one token, the
/// investor's entry holds the sum of the amounts, and as tokens the sum
/// of what each amount bought by itself, rounded down one by one: not
/// what the sum of the amounts would buy. The campaign has raised that
/// much more, the entry keeps the time of the investor's first
/// investment, and the investor is listed once: a first investment
/// puts the investor at the end of the list, later ones leave the list
/// alone.
pub proof fn lemma_investments_accumulate(
    r: Record,
    investor: Address,
    amounts: Seq<i128>,
    times: Seq<u64>,
)
    requires
        r.wf(),
        amounts.len() == times.len(),
        forall|k: int|
            0 <= k < amounts.len() ==> (#[trigger] amounts[k]) > 0 && tokens_for(
                amounts[k] as int,
                r.campaign.price_per_token as int,
            ) > 0,
        r.campaign.raised_amount + sum(amounts_of(amounts)) <= i128::MAX,
    ensures
        r.invested_each(investor, amounts, times).wf(),
        r.invested_each(investor, amounts, times).id == r.id,
        r.invested_each(investor, amounts, times).campaign == (Campaign {
            raised_amount: (r.campaign.raised_amount + sum(amounts_of(amounts))) as i128,
            ..r.campaign
        }),
        r.invested_each(investor, amounts, times).invested_by(investor) == r.invested_by(investor)
            + sum(amounts_of(amounts)),
        r.invested_each(investor, amounts, times).tokens_of(investor) == r.tokens_of(investor)
            + sum(tokens_of_each(amounts, r.campaign.price_per_token as int)),
        amounts.len() > 0 ==> r.invested_each(investor, amounts, times).investment_of(investor)
            == Some(
            Investment {
                investor,
                amount_invested: (r.invested_by(investor) + sum(amounts_of(amounts))) as i128,
                tokens_received: (r.tokens_of(investor) + sum(
                    tokens_of_each(amounts, r.campaign.price_per_token as int),
                )) as i128,
                timestamp: match r.investment_of(investor) {
                    Some(first) => first.timestamp,
                    None => times[0],
                },
            },
        ),
        r.invested_each(investor, amounts, times).investors == if amounts.len() == 0
            || r.investors.contains(investor) {
            r.investors
        } else {
            r.investors.push(investor)
        },
        r.invested_each(investor, amounts, times).investors.no_duplicates(),
        forall|other: Address|
            other != investor ==> #[trigger] r.invested_each(
                investor,
                amounts,
                times,
            ).investment_of(other) == r.investment_of(other),
    decreases amounts.len(),
{
    let price = r.campaign.price_per_token as int;
    if amounts.len() > 0 {
        let head = amounts.drop_last();
        let mid = r.invested_each(investor, head, times.drop_last());
        let last = amounts.last();
        assert(amounts_of(amounts).drop_last() =~= amounts_of(head));
        assert(tokens_of_each(amounts, price).drop_last() =~= tokens_of_each(head, price));
        assert(amounts_of(amounts).last() == last);
        assert(tokens_of_each(amounts, price).last() == tokens_for(last as int, price));
        assert(all_natural(amounts_of(head))) by {
            assert forall|k: int| 0 <= k < head.len() implies amounts_of(head)[k] >= 0 by {
                assert(head[k] == amounts[k]);
            }
        }
        lemma_sum_natural(amounts_of(head));
        assert forall|k: int| 0 <= k < head.len() implies (#[trigger] head[k]) > 0 && tokens_for(
            head[k] as int,
            price,
        ) > 0 by {
            assert(head[k] == amounts[k]);
        }
        lemma_investments_accumulate(r, investor, head, times.drop_last());
        assert(tokens_for(last as int, mid.campaign.price_per_token as int) > 0) by {
            assert(amounts[amounts.len() - 1] == last);
        }
        lemma_invested(mid, investor, last, times.last());
        lemma_slot_of_found(r.investors, investor);
        lemma_slot_of_found(mid.investors, investor);
        let end = mid.invested(investor, last, times.last());
        lemma_slot_of_found(end.investors, investor);
        if head.len() > 0 {
            assert(times.drop_last()[0] == times[0]);
        }
        assert forall|other: Address| other != investor implies #[trigger] end.investment_of(other)
            == r.investment_of(other) by {
            assert(mid.investment_of(other) == r.investment_of(other));
        }
    }
}

/// Campaign records follow from themselves.
pub proof fn lemma_follows_reflexive(rs: Seq<Record>)
    ensures
        follows(rs, rs),
{
}

/// What follows from what follows, follows: over any number of steps,
/// no campaign is lost, raises less, changes its terms or opens again.
pub proof fn lemma_follows_transitive(a: Seq<Record>, b: Seq<Record>, c: Seq<Record>)
    requires
        follows(a, b),
        follows(b, c),
    ensures
        follows(a, c),
{
    assert forall|i: int| 0 <= i < a.len() implies {
        &&& (#[trigger] c[i]).id == a[i].id
        &&& c[i].campaign.raised_amount >= a[i].campaign.raised_amount
        &&& !a[i].campaign.is_active ==> !c[i].campaign.is_active
        &&& c[i].campaign.company_addr == a[i].campaign.company_addr
        &&& c[i].campaign.equity_token_addr == a[i].campaign.equity_token_addr
        &&& c[i].campaign.target_amount == a[i].campaign.target_amount
        &&& c[i].campaign.price_per_token == a[i].campaign.price_per_token
        &&& c[i].campaign.deadline == a[i].campaign.deadline
        &&& c[i].campaign.min_investment == a[i].campaign.min_investment
        &&& c[i].campaign.max_investment == a[i].campaign.max_investment
    } by {
        assert(b[i].id == a[i].id);
    }
}

/// Where records follow from earlier ones, a campaign that was there
/// under some identifier is still there under it, has raised no less,
/// and is not active if it was closed.
pub proof fn lemma_follows_by_id(before: Seq<Record>, after: Seq<Record>, id: u64)
    requires
        follows(before, after),
        records_wf(before),
        records_wf(after),
        record_of(before, id) is Some,
    ensures
        record_of(after, id) is Some,
        record_of(after, id).unwrap().campaign.raised_amount >= record_of(
            before,
            id,
        ).unwrap().campaign.raised_amount,
        !record_of(before, id).unwrap().campaign.is_active ==> !record_of(
            after,
            id,
        ).unwrap().campaign.is_active,
{
    lemma_slot_of_found(ids(before), id);
    let i = slot_of(ids(before), id).unwrap();
    assert(after[i].id == id);
    lemma_slot_of_entry(ids(after), i);
}

/// Whether `vec` holds `addr`.
pub fn vec_contains(vec: &Vec<Address>, addr: &Address) -> (r: bool)
    ensures
        r == vec@.contains(*addr),
{
    position(vec, addr).is_some()
}

/// The first place at which `vec` holds `addr`, if it holds it.
pub fn position(vec: &Vec<Address>, addr: &Address) -> (r: Option<usize>)
    ensures
        match r {
            Some(j) => j < vec@.len() && vec@[j as int] == *addr && forall|k: int|
                0 <= k < j ==> vec@[k] != *addr,
            None => !vec@.contains(*addr),
        },
{
    let mut j: usize = 0;
    while j < vec.len()
        invariant
            j <= vec@.len(),
            forall|k: int| 0 <= k < j ==> vec@[k] != *addr,
        decreases vec@.len() - j,
    {
        if vec[j] == *addr {
            return Some(j);
        }
        j += 1;
    }
    None
}

impl CampaignRecord {
    /// Whether the record is well formed.
    pub fn is_valid(&self) -> (r: bool)
        ensures
            r == self@.wf(),
    {
        let c = &self.campaign;
        if c.target_amount <= 0 || c.price_per_token <= 0 || c.min_investment <= 0 {
            return false;
        }
        if c.max_investment != 0 && c.max_investment < c.min_investment {
            return false;
        }
        let n = self.investors.len();
        if self.investments.len() != n {
            return false;
        }
        let ghost amounts = invested_amounts(self.investments@);
        let mut raised: i128 = 0;
        let mut j: usize = 0;
        while j < n
            invariant
                n == self.investors@.len(),
                n == self.investments@.len(),
                amounts == invested_amounts(self.investments@),
                j <= n,
                raised == sum(amounts.take(j as int)),
                forall|a: int, b: int|
                    0 <= a < b < j ==> self.investors@[a] != self.investors@[b],
                forall|k: int|
                    0 <= k < j ==> {
                        &&& (#[trigger] self.investments@[k]).investor == self.investors@[k]
                        &&& 0 < self.investments@[k].tokens_received
                            <= self.investments@[k].amount_invested
                    },
            decreases n - j,
        {
            let entry = self.investments[j];
            if entry.investor != self.investors[j] || entry.tokens_received <= 0
                || entry.tokens_received > entry.amount_invested {
                return false;
            }
            let mut k: usize = 0;
            while k < j
                invariant
                    j < self.investors@.len(),
                    k <= j,
                    forall|a: int| 0 <= a < k ==> self.investors@[a] != self.investors@[j as int],
                decreases j - k,
            {
                if self.investors[k] == self.investors[j] {
                    return false;
                }
                k += 1;
            }
            proof {
                lemma_sum_take_next(amounts, j as int);
                if self@.wf() {
                    lemma_invested_amounts_natural(self@);
                    lemma_sum_take_within(amounts, j as int + 1);
                }
            }
            raised = match raised.checked_add(entry.amount_invested) {
                Some(more) => more,
                None => {
                    return false;
                },
            };
            j += 1;
        }
        proof {
            assert(amounts.take(n as int) =~= amounts);
        }
        raised == c.raised_amount
    }

    /// Enters an investment of `amount`, which buys `tokens`, made by
    /// `investor` at time `now`.
    pub(crate) fn add_investment(&mut self, investor: Address, amount: i128, tokens: i128, now: u64)
        requires
            old(self)@.wf(),
            amount > 0,
            tokens == tokens_for(amount as int, old(self).campaign.price_per_token as int),
            tokens > 0,
            old(self).campaign.raised_amount + amount <= i128::MAX,
        ensures
            final(self)@ == old(self)@.invested(investor, amount, now),
            final(self)@.wf(),
    {
        let ghost r0 = self@;
        proof {
            lemma_slot_of_found(r0.investors, investor);
            lemma_invested(r0, investor, amount, now);
        }
        self.campaign.raised_amount = self.campaign.raised_amount + amount;
        match position(&self.investors, &investor) {
            Some(j) => {
                let was = self.investments[j];
                proof {
                    lemma_slot_of_entry(r0.investors, j as int);
                }
                self.investments.set(
                    j,
                    Investment {
                        investor: was.investor,
                        amount_invested: was.amount_invested + amount,
                        tokens_received: was.tokens_received + tokens,
                        timestamp: was.timestamp,
                    },
                );
            },
            None => {
                self.investors.push(investor);
                self.investments.push(
                    Investment {
                        investor,
                        amount_invested: amount,
                        tokens_received: tokens,
                        timestamp: now,
                    },
                );
            },
        }
        assert(self@ =~= r0.invested(investor, amount, now));
    }
}

} // verus!
