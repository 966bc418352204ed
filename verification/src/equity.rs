use vstd::prelude::*;
use crate::address::Address;
use crate::error::Error;
use crate::events::{BurnEvent, InitCompanyEvent, MintEvent, Payment, TransferEvent};
use crate::holdings::{
    absent, amount_of, distinct_holders, lemma_amount_of_absent, lemma_amount_of_entry,
    lemma_amount_of_push, lemma_amount_of_update, lemma_entry_above_total,
    lemma_entry_within_total, lemma_pair_within_total, lemma_total_none_positive,
    lemma_total_push, lemma_total_take_next, lemma_total_take_within, lemma_total_update,
    none_negative, none_positive, total, Holding,
};

verus! {

/// What the equity ledger records about the issuing company.
#[derive(Debug, PartialEq, Eq)]
pub struct CompanyInfo {
    pub name: String,
    pub symbol: String,
    pub total_supply: i128,
    pub owner: Address,
    pub equity_percent: i128,
    pub description: String,
    /// Smallest units of the payment asset asked for one token.
    pub token_price: i128,
    pub target_amount: i128,
}

impl Clone for CompanyInfo {
    fn clone(&self) -> (r: CompanyInfo)
        ensures
            r == *self,
    {
        CompanyInfo {
            name: self.name.clone(),
            symbol: self.symbol.clone(),
            total_supply: self.total_supply,
            owner: self.owner,
            equity_percent: self.equity_percent,
            description: self.description.clone(),
            token_price: self.token_price,
            target_amount: self.target_amount,
        }
    }
}

/// The balance of account `a` after `amount` has moved from `from` to
/// `to`, where it was `before`. Moving tokens from an account to itself
/// changes nothing.
pub open spec fn moved(before: int, a: Address, from: Address, to: Address, amount: int) -> int {
    if from == to {
        before
    } else if a == from {
        before - amount
    } else if a == to {
        before + amount
    } else {
        before
    }
}

/// Whether `amount` tokens at `price` each cost more than an `i128` holds.
pub open spec fn price_overflows(amount: int, price: int) -> bool {
    amount * price > i128::MAX || amount * price < i128::MIN
}

/// Whether a company and a list of holdings make up a ledger: no
/// account has two entries, nobody holds anything without a company,
/// the amounts add up to the company's total supply, and amounts of
/// both signs do not coexist.
pub open spec fn book_valid(company: Option<CompanyInfo>, s: Seq<Holding>) -> bool {
    &&& distinct_holders(s)
    &&& company is None ==> s.len() == 0
    &&& company matches Some(c) ==> total(s) == c.total_supply
    &&& none_negative(s) || none_positive(s)
}

/// The ledger of a tokenized equity: who holds how much, and the
/// company that issued it.
#[derive(Clone, Debug)]
pub struct EquityToken {
    company: Option<CompanyInfo>,
    holdings: Vec<Holding>,
}

impl EquityToken {
    /// The company, once it has been set up.
    pub closed spec fn company(&self) -> Option<CompanyInfo> {
        self.company
    }

    /// One entry for each account that has ever held tokens.
    pub closed spec fn holdings(&self) -> Seq<Holding> {
        self.holdings@
    }

    /// What account `a` holds.
    pub open spec fn balance(&self, a: Address) -> int {
        amount_of(self.holdings(), a)
    }

    /// The sum of all balances.
    pub open spec fn total_held(&self) -> int {
        total(self.holdings())
    }

    /// The balances add up to the company's total supply.
    pub open spec fn conserved(&self) -> bool {
        self.company() matches Some(c) ==> self.total_held() == c.total_supply
    }

    /// The company's total supply is not negative.
    pub open spec fn supply_not_negative(&self) -> bool {
        self.company() matches Some(c) ==> c.total_supply >= 0
    }

    /// What holds of every ledger: no account has two entries, nobody
    /// holds anything before the company is set up, the balances add up
    /// to the total supply, and balances of both signs never coexist.
    pub open spec fn wf(&self) -> bool {
        book_valid(self.company(), self.holdings())
    }

    /// Why a transfer of `amount` out of `from` is refused, if it is.
    pub open spec fn transfer_refusal(&self, from: Address, amount: i128, authorized: bool)
        -> Option<Error> {
        if !authorized {
            Some(Error::Unauthorized)
        } else if amount <= 0 {
            Some(Error::InvalidAmount)
        } else if self.balance(from) < amount {
            Some(Error::InsufficientBalance)
        } else {
            None
        }
    }

    /// Why a paid transfer of `amount` out of `from` at `price` each is
    /// refused before any payment is asked for, if it is.
    pub open spec fn sale_refusal(&self, from: Address, amount: i128, price: i128, authorized: bool)
        -> Option<Error> {
        if self.transfer_refusal(from, amount, authorized) is Some {
            self.transfer_refusal(from, amount, authorized)
        } else if price_overflows(amount as int, price as int) {
            Some(Error::InvalidAmount)
        } else {
            None
        }
    }

    /// Why a purchase of `amount` tokens from the owner's allocation is
    /// refused before any payment is asked for, if it is.
    pub open spec fn mint_refusal(&self, amount: i128, authorized: bool) -> Option<Error> {
        if !authorized {
            Some(Error::Unauthorized)
        } else if self.company() is None {
            Some(Error::NotInitialized)
        } else {
            let c = self.company().unwrap();
            self.sale_refusal(c.owner, amount, c.token_price, true)
        }
    }

    /// Why a burn of `amount` out of `from` is refused, if it is.
    pub open spec fn burn_refusal(&self, from: Address, amount: i128, authorized: bool) -> Option<
        Error,
    > {
        if self.company() is None {
            Some(Error::NotInitialized)
        } else {
            self.transfer_refusal(from, amount, authorized)
        }
    }

    /// A ledger on which nothing has happened yet.
    pub fn new() -> (r: EquityToken)
        ensures
            r.wf(),
            r.company() is None,
            r.holdings().len() == 0,
    {
        EquityToken { company: None, holdings: Vec::new() }
    }

    /// Sets the company up and credits its owner with the whole supply.
    /// Refused with `AlreadyInitialized` on a ledger that has a company.
    pub fn init_company(
        &mut self,
        name: String,
        symbol: String,
        total_supply: i128,
        owner_addr: Address,
        equity_percent: i128,
        description: String,
        token_price: i128,
        target_amount: i128,
    ) -> (r: Result<InitCompanyEvent, Error>)
        requires
            old(self).wf(),
        ensures
            final(self).wf(),
            final(self).conserved(),
            old(self).company() is Some ==> r == Err::<InitCompanyEvent, Error>(
                Error::AlreadyInitialized,
            ) && *final(self) == *old(self),
            old(self).company() is None ==> r == Ok::<InitCompanyEvent, Error>(
                InitCompanyEvent { name, symbol, total_supply, owner: owner_addr, equity_percent },
            ) && final(self).company() == Some(
                CompanyInfo {
                    name,
                    symbol,
                    total_supply,
                    owner: owner_addr,
                    equity_percent,
                    description,
                    token_price,
                    target_amount,
                },
            ) && final(self).holdings() == seq![Holding { holder: owner_addr, amount: total_supply }],
            old(self).company() is None ==> forall|a: Address|
                #[trigger] final(self).balance(a) == if a == owner_addr {
                    total_supply as int
                } else {
                    0
                },
    {
        if self.company.is_some() {
            return Err(Error::AlreadyInitialized);
        }
        let event = InitCompanyEvent {
            name: name.clone(),
            symbol: symbol.clone(),
            total_supply,
            owner: owner_addr,
            equity_percent,
        };
        self.company = Some(
            CompanyInfo {
                name,
                symbol,
                total_supply,
                owner: owner_addr,
                equity_percent,
                description,
                token_price,
                target_amount,
            },
        );
        proof {
            let h = Holding { holder: owner_addr, amount: total_supply };
            assert(self.holdings@.push(h) =~= seq![h]);
            lemma_total_push(self.holdings@, h);
            assert forall|a: Address|
                amount_of(self.holdings@.push(h), a) == if a == owner_addr {
                    total_supply as int
                } else {
                    0
                } by {
                lemma_amount_of_push(self.holdings@, h, a);
            }
        }
        self.holdings.push(Holding { holder: owner_addr, amount: total_supply });
        Ok(event)
    }

    /// The payment that `to` owes the owner for `amount` tokens out of
    /// the owner's allocation, in units of `xlm_token`. The host makes
    /// this payment and reports to `mint` whether it went through.
    pub fn payment_for_mint(&self, to: Address, amount: i128, xlm_token: Address, authorized: bool)
        -> (r: Result<Payment, Error>)
        requires
            self.wf(),
        ensures
            match self.mint_refusal(amount, authorized) {
                Some(e) => r == Err::<Payment, Error>(e),
                None => r == Ok::<Payment, Error>(
                    Payment {
                        asset: xlm_token,
                        from: to,
                        to: self.company().unwrap().owner,
                        amount: (amount * self.company().unwrap().token_price) as i128,
                    },
                ),
            },
    {
        if !authorized {
            return Err(Error::Unauthorized);
        }
        match &self.company {
            None => Err(Error::NotInitialized),
            Some(c) => self.payment_for_transfer(c.owner, to, amount, c.token_price, xlm_token, true),
        }
    }

    /// Sells `amount` tokens out of the owner's allocation to `to`, who
    /// must have authorized the purchase. `paid` says whether the
    /// payment of `payment_for_mint` went through. The supply stays as
    /// it is: what the buyer gains the owner gives up.
    pub fn mint(&mut self, to: Address, amount: i128, authorized: bool, paid: bool) -> (r: Result<
        MintEvent,
        Error,
    >)
        requires
            old(self).wf(),
        ensures
            final(self).wf(),
            final(self).conserved(),
            r is Err ==> *final(self) == *old(self),
            match old(self).mint_refusal(amount, authorized) {
                Some(e) => r == Err::<MintEvent, Error>(e),
                None => if !paid {
                    r == Err::<MintEvent, Error>(Error::TransferFailed)
                } else {
                    &&& r == Ok::<MintEvent, Error>(MintEvent { to, amount })
                    &&& final(self).company() == old(self).company()
                    &&& forall|a: Address|
                        #[trigger] final(self).balance(a) == moved(
                            old(self).balance(a),
                            a,
                            old(self).company().unwrap().owner,
                            to,
                            amount as int,
                        )
                },
            },
    {
        if !authorized {
            return Err(Error::Unauthorized);
        }
        let (owner, price) = match &self.company {
            None => {
                return Err(Error::NotInitialized);
            },
            Some(c) => (c.owner, c.token_price),
        };
        match self.transfer_with_payment(owner, to, amount, price, true, paid) {
            Ok(_) => Ok(MintEvent { to, amount }),
            Err(e) => Err(e),
        }
    }

    /// Moves `amount` tokens from `from`, who must have authorized it,
    /// to `to`.
    pub fn transfer(&mut self, from: Address, to: Address, amount: i128, authorized: bool) -> (r:
        Result<TransferEvent, Error>)
        requires
            old(self).wf(),
        ensures
            final(self).wf(),
            final(self).conserved(),
            r is Err ==> *final(self) == *old(self),
            match old(self).transfer_refusal(from, amount, authorized) {
                Some(e) => r == Err::<TransferEvent, Error>(e),
                None => {
                    &&& r == Ok::<TransferEvent, Error>(TransferEvent { from, to, amount })
                    &&& final(self).company() == old(self).company()
                    &&& forall|a: Address|
                        #[trigger] final(self).balance(a) == moved(
                            old(self).balance(a),
                            a,
                            from,
                            to,
                            amount as int,
                        )
                },
            },
    {
        if !authorized {
            return Err(Error::Unauthorized);
        }
        if amount <= 0 {
            return Err(Error::InvalidAmount);
        }
        if self.balance_of(from) < amount {
            return Err(Error::InsufficientBalance);
        }
        self.move_tokens(from, to, amount);
        Ok(TransferEvent { from, to, amount })
    }

    /// The payment that the buyer `to` owes the seller `from` for
    /// `amount` tokens at `price_per_token` each, in units of
    /// `xlm_token`. The host makes this payment and reports to
    /// `transfer_with_payment` whether it went through.
    pub fn payment_for_transfer(
        &self,
        from: Address,
        to: Address,
        amount: i128,
        price_per_token: i128,
        xlm_token: Address,
        authorized: bool,
    ) -> (r: Result<Payment, Error>)
        requires
            self.wf(),
        ensures
            match self.sale_refusal(from, amount, price_per_token, authorized) {
                Some(e) => r == Err::<Payment, Error>(e),
                None => r == Ok::<Payment, Error>(
                    Payment {
                        asset: xlm_token,
                        from: to,
                        to: from,
                        amount: (amount * price_per_token) as i128,
                    },
                ),
            },
    {
        if !authorized {
            return Err(Error::Unauthorized);
        }
        if amount <= 0 {
            return Err(Error::InvalidAmount);
        }
        if self.balance_of(from) < amount {
            return Err(Error::InsufficientBalance);
        }
        match amount.checked_mul(price_per_token) {
            None => Err(Error::InvalidAmount),
            Some(due) => Ok(Payment { asset: xlm_token, from: to, to: from, amount: due }),
        }
    }

    /// Moves `amount` tokens from the seller `from` to the buyer `to`,
    /// who must have authorized the purchase. `paid` says whether the
    /// payment of `payment_for_transfer` went through.
    pub fn transfer_with_payment(
        &mut self,
        from: Address,
        to: Address,
        amount: i128,
        price_per_token: i128,
        authorized: bool,
        paid: bool,
    ) -> (r: Result<TransferEvent, Error>)
        requires
            old(self).wf(),
        ensures
            final(self).wf(),
            final(self).conserved(),
            r is Err ==> *final(self) == *old(self),
            match old(self).sale_refusal(from, amount, price_per_token, authorized) {
                Some(e) => r == Err::<TransferEvent, Error>(e),
                None => if !paid {
                    r == Err::<TransferEvent, Error>(Error::TransferFailed)
                } else {
                    &&& r == Ok::<TransferEvent, Error>(TransferEvent { from, to, amount })
                    &&& final(self).company() == old(self).company()
                    &&& forall|a: Address|
                        #[trigger] final(self).balance(a) == moved(
                            old(self).balance(a),
                            a,
                            from,
                            to,
                            amount as int,
                        )
                },
            },
    {
        if !authorized {
            return Err(Error::Unauthorized);
        }
        if amount <= 0 {
            return Err(Error::InvalidAmount);
        }
        if self.balance_of(from) < amount {
            return Err(Error::InsufficientBalance);
        }
        if amount.checked_mul(price_per_token).is_none() {
            return Err(Error::InvalidAmount);
        }
        if !paid {
            return Err(Error::TransferFailed);
        }
        self.move_tokens(from, to, amount);
        Ok(TransferEvent { from, to, amount })
    }

    /// What `addr` holds; zero for an account that never held anything.
    /// Never negative on a ledger whose supply is not negative.
    pub fn balance_of(&self, addr: Address) -> (r: i128)
        requires
            self.wf(),
        ensures
            r == self.balance(addr),
            self.company() is None ==> r == 0,
            self.supply_not_negative() ==> r >= 0,
    {
        match self.find(addr) {
            Some(i) => {
                proof {
                    lemma_amount_of_entry(self.holdings@, i as int);
                    if none_positive(self.holdings@) {
                        lemma_entry_above_total(self.holdings@, i as int);
                    }
                }
                self.holdings[i].amount
            },
            None => {
                proof {
                    lemma_amount_of_absent(self.holdings@, addr);
                }
                0
            },
        }
    }

    /// Destroys `amount` tokens of `from` and lowers the total supply
    /// by as much. `authorized` says whether `from` has authorized it;
    /// where `from` is the owner, that is the owner's authorization.
    pub fn burn(&mut self, from: Address, amount: i128, authorized: bool) -> (r: Result<
        BurnEvent,
        Error,
    >)
        requires
            old(self).wf(),
        ensures
            final(self).wf(),
            final(self).conserved(),
            r is Err ==> *final(self) == *old(self),
            match old(self).burn_refusal(from, amount, authorized) {
                Some(e) => r == Err::<BurnEvent, Error>(e),
                None => {
                    &&& r == Ok::<BurnEvent, Error>(BurnEvent { from, amount })
                    &&& final(self).company() == Some(
                        CompanyInfo {
                            total_supply: (old(self).company().unwrap().total_supply
                                - amount) as i128,
                            ..old(self).company().unwrap()
                        },
                    )
                    &&& old(self).company().unwrap().total_supply - amount >= 0
                    &&& forall|a: Address|
                        #[trigger] final(self).balance(a) == if a == from {
                            old(self).balance(a) - amount
                        } else {
                            old(self).balance(a)
                        }
                },
            },
    {
        if self.company.is_none() {
            return Err(Error::NotInitialized);
        }
        if !authorized {
            return Err(Error::Unauthorized);
        }
        if amount <= 0 {
            return Err(Error::InvalidAmount);
        }
        let ghost s0 = self.holdings@;
        let found = self.find(from);
        proof {
            if found is None {
                lemma_amount_of_absent(s0, from);
            }
        }
        let i = match found {
            None => {
                return Err(Error::InsufficientBalance);
            },
            Some(i) => i,
        };
        let had = self.holdings[i].amount;
        proof {
            lemma_amount_of_entry(s0, i as int);
        }
        if had < amount {
            return Err(Error::InsufficientBalance);
        }
        let left = Holding { holder: from, amount: had - amount };
        proof {
            assert(!none_positive(s0)) by {
                assert(s0[i as int].amount > 0);
            }
            lemma_entry_within_total(s0, i as int);
            lemma_total_update(s0, i as int, left);
            assert forall|a: Address|
                amount_of(s0.update(i as int, left), a) == if a == from {
                    had - amount
                } else {
                    amount_of(s0, a)
                } by {
                lemma_amount_of_update(s0, i as int, left.amount, a);
            }
        }
        self.holdings.set(i, left);
        let mut company = self.company.take().unwrap();
        company.total_supply = company.total_supply - amount;
        self.company = Some(company);
        Ok(BurnEvent { from, amount })
    }

    /// What the ledger records about the company.
    pub fn get_company_info(&self) -> (r: Result<CompanyInfo, Error>)
        ensures
            match self.company() {
                Some(c) => r == Ok::<CompanyInfo, Error>(c),
                None => r == Err::<CompanyInfo, Error>(Error::NotInitialized),
            },
    {
        match &self.company {
            Some(c) => Ok(c.clone()),
            None => Err(Error::NotInitialized),
        }
    }

    /// The entries of the ledger, one for each account that has ever
    /// held tokens.
    pub fn entries(&self) -> (r: &Vec<Holding>)
        ensures
            r@ == self.holdings(),
    {
        &self.holdings
    }

    /// The ledger that holds `company` and `holdings`, where they make
    /// one up.
    pub fn restore(company: Option<CompanyInfo>, holdings: Vec<Holding>) -> (r: Option<
        EquityToken,
    >)
        ensures
            match r {
                Some(l) => l.wf() && l.company() == company && l.holdings() == holdings@,
                None => !book_valid(company, holdings@),
            },
    {
        let ghost s = holdings@;
        let n = holdings.len();
        let supply = match &company {
            None => {
                if n == 0 {
                    return Some(EquityToken { company, holdings });
                }
                return None;
            },
            Some(c) => c.total_supply,
        };
        let mut sum: i128 = 0;
        let mut negative = false;
        let mut positive = false;
        let mut i: usize = 0;
        while i < n
            invariant
                s == holdings@,
                n == s.len(),
                i <= n,
                sum == total(s.take(i as int)),
                negative == exists|k: int| 0 <= k < i && s[k].amount < 0,
                positive == exists|k: int| 0 <= k < i && s[k].amount > 0,
                !(negative && positive),
                forall|a: int, b: int| 0 <= a < b < i ==> s[a].holder != s[b].holder,
            decreases n - i,
        {
            let entry = holdings[i];
            let mut j: usize = 0;
            while j < i
                invariant
                    s == holdings@,
                    i < s.len(),
                    j <= i,
                    entry == s[i as int],
                    forall|a: int| 0 <= a < j ==> s[a].holder != entry.holder,
                decreases i - j,
            {
                if holdings[j].holder == entry.holder {
                    return None;
                }
                j += 1;
            }
            if entry.amount < 0 {
                negative = true;
            }
            if entry.amount > 0 {
                positive = true;
            }
            if negative && positive {
                proof {
                    let a = choose|k: int| 0 <= k <= i && s[k].amount < 0;
                    let b = choose|k: int| 0 <= k <= i && s[k].amount > 0;
                    assert(s[a].amount < 0 && s[b].amount > 0);
                }
                return None;
            }
            proof {
                lemma_total_take_next(s, i as int);
                lemma_total_take_within(s, i as int + 1);
            }
            sum = match sum.checked_add(entry.amount) {
                Some(more) => more,
                None => {
                    return None;
                },
            };
            i += 1;
        }
        proof {
            assert(s.take(n as int) =~= s);
            if !negative {
                assert(none_negative(s));
            } else {
                assert(none_positive(s));
            }
        }
        if sum != supply {
            return None;
        }
        Some(EquityToken { company, holdings })
    }

    /// Where the entry of `a` stands, if it has one.
    fn find(&self, a: Address) -> (r: Option<usize>)
        ensures
            match r {
                Some(i) => i < self.holdings().len() && self.holdings()[i as int].holder == a,
                None => absent(self.holdings(), a),
            },
    {
        let mut i: usize = 0;
        while i < self.holdings.len()
            invariant
                i <= self.holdings@.len(),
                forall|j: int| 0 <= j < i ==> self.holdings@[j].holder != a,
            decreases self.holdings@.len() - i,
        {
            if self.holdings[i].holder == a {
                return Some(i);
            }
            i += 1;
        }
        None
    }

    /// Takes `amount` out of what `from` holds and adds it to what `to`
    /// holds.
    fn move_tokens(&mut self, from: Address, to: Address, amount: i128)
        requires
            old(self).wf(),
            amount > 0,
            old(self).balance(from) >= amount,
        ensures
            final(self).wf(),
            final(self).company() == old(self).company(),
            forall|a: Address|
                #[trigger] final(self).balance(a) == moved(
                    old(self).balance(a),
                    a,
                    from,
                    to,
                    amount as int,
                ),
    {
        if from == to {
            return ;
        }
        let ghost s0 = self.holdings@;
        let found = self.find(from);
        proof {
            if found is None {
                lemma_amount_of_absent(s0, from);
            }
        }
        let i = found.unwrap();
        let had = self.holdings[i].amount;
        proof {
            lemma_amount_of_entry(s0, i as int);
            assert(!none_positive(s0)) by {
                assert(s0[i as int].amount > 0);
            }
            lemma_total_update(s0, i as int, Holding { holder: from, amount: (had - amount) as i128 });
            assert forall|a: Address|
                amount_of(s0.update(i as int, Holding { holder: from, amount: (had - amount) as i128 }), a)
                    == if a == from {
                    had - amount
                } else {
                    amount_of(s0, a)
                } by {
                lemma_amount_of_update(s0, i as int, (had - amount) as i128, a);
            }
        }
        self.holdings.set(i, Holding { holder: from, amount: had - amount });
        let ghost s1 = self.holdings@;
        match self.find(to) {
            Some(j) => {
                let has = self.holdings[j].amount;
                proof {
                    lemma_amount_of_entry(s1, j as int);
                    if i < j {
                        lemma_pair_within_total(s0, i as int, j as int);
                    } else {
                        lemma_pair_within_total(s0, j as int, i as int);
                    }
                    lemma_total_update(s1, j as int, Holding { holder: to, amount: (has + amount) as i128 });
                    assert forall|a: Address|
                        amount_of(s1.update(j as int, Holding { holder: to, amount: (has + amount) as i128 }), a)
                            == if a == to {
                            has + amount
                        } else {
                            amount_of(s1, a)
                        } by {
                        lemma_amount_of_update(s1, j as int, (has + amount) as i128, a);
                    }
                }
                self.holdings.set(j, Holding { holder: to, amount: has + amount });
            },
            None => {
                proof {
                    lemma_amount_of_absent(s1, to);
                    lemma_total_push(s1, Holding { holder: to, amount });
                    assert forall|a: Address|
                        amount_of(s1.push(Holding { holder: to, amount }), a) == if a == to {
                            amount as int
                        } else {
                            amount_of(s1, a)
                        } by {
                        lemma_amount_of_push(s1, Holding { holder: to, amount }, a);
                    }
                }
                self.holdings.push(Holding { holder: to, amount });
            },
        }
    }
}

/// Nothing is created or lost: on every ledger with a company, the
/// balances add up to the company's total supply.
pub proof fn lemma_conservation(l: EquityToken)
    requires
        l.wf(),
    ensures
        l.company() matches Some(c) ==> l.total_held() == c.total_supply,
{
}

/// The sum of all balances is taken over the entries of the ledger:
/// each entry is the balance of its holder, no holder has two, and an
/// account without an entry holds nothing.
pub proof fn lemma_entries_are_balances(l: EquityToken, a: Address)
    requires
        l.wf(),
    ensures
        forall|i: int|
            0 <= i < l.holdings().len() ==> (#[trigger] l.holdings()[i]).amount == l.balance(
                l.holdings()[i].holder,
            ),
        absent(l.holdings(), a) ==> l.balance(a) == 0,
{
    assert forall|i: int| 0 <= i < l.holdings().len() implies (#[trigger] l.holdings()[i]).amount
        == l.balance(l.holdings()[i].holder) by {
        lemma_amount_of_entry(l.holdings(), i);
    }
    if absent(l.holdings(), a) {
        lemma_amount_of_absent(l.holdings(), a);
    }
}

/// No balance is negative, and none exceeds the total supply, on a
/// ledger whose total supply is not negative.
pub proof fn lemma_no_negative_balance(l: EquityToken, a: Address)
    requires
        l.wf(),
        l.supply_not_negative(),
    ensures
        l.balance(a) >= 0,
        l.company() matches Some(c) ==> l.balance(a) <= c.total_supply,
{
    let s = l.holdings();
    if absent(s, a) {
        lemma_amount_of_absent(s, a);
    } else {
        let i = choose|i: int| 0 <= i < s.len() && s[i].holder == a;
        lemma_amount_of_entry(s, i);
        if none_negative(s) {
            lemma_entry_within_total(s, i);
        } else {
            lemma_entry_above_total(s, i);
            lemma_total_none_positive(s);
        }
    }
}

} // verus!
