use vstd::prelude::*;
use crate::address::Address;

verus! {

/// What one account holds of the equity token.
#[derive(Clone, Copy, Debug, PartialEq, Eq)]
pub struct Holding {
    pub holder: Address,
    pub amount: i128,
}

/// The sum of all amounts in `s`.
pub open spec fn total(s: Seq<Holding>) -> int
    decreases s.len(),
{
    if s.len() == 0 {
        0
    } else {
        total(s.drop_last()) + s.last().amount
    }
}

/// What `a` holds according to `s`: the amount of its entry, zero if it
/// has none.
pub open spec fn amount_of(s: Seq<Holding>, a: Address) -> int
    decreases s.len(),
{
    if s.len() == 0 {
        0
    } else if s.last().holder == a {
        s.last().amount as int
    } else {
        amount_of(s.drop_last(), a)
    }
}

/// No account has two entries.
pub open spec fn distinct_holders(s: Seq<Holding>) -> bool {
    forall|i: int, j: int| 0 <= i < j < s.len() ==> s[i].holder != s[j].holder
}

/// `a` has no entry in `s`.
pub open spec fn absent(s: Seq<Holding>, a: Address) -> bool {
    forall|i: int| 0 <= i < s.len() ==> s[i].holder != a
}

/// Every amount is zero or more.
pub open spec fn none_negative(s: Seq<Holding>) -> bool {
    forall|i: int| 0 <= i < s.len() ==> s[i].amount >= 0
}

/// Every amount is zero or less.
pub open spec fn none_positive(s: Seq<Holding>) -> bool {
    forall|i: int| 0 <= i < s.len() ==> s[i].amount <= 0
}

pub proof fn lemma_amount_of_absent(s: Seq<Holding>, a: Address)
    requires
        absent(s, a),
    ensures
        amount_of(s, a) == 0,
    decreases s.len(),
{
    if s.len() > 0 {
        lemma_amount_of_absent(s.drop_last(), a);
    }
}

pub proof fn lemma_amount_of_entry(s: Seq<Holding>, i: int)
    requires
        distinct_holders(s),
        0 <= i < s.len(),
    ensures
        amount_of(s, s[i].holder) == s[i].amount,
    decreases s.len(),
{
    if i < s.len() - 1 {
        lemma_amount_of_entry(s.drop_last(), i);
    }
}

/// Replacing the amount of one entry changes what its holder has and
/// nothing else.
pub proof fn lemma_amount_of_update(s: Seq<Holding>, i: int, amount: i128, a: Address)
    requires
        distinct_holders(s),
        0 <= i < s.len(),
    ensures
        amount_of(s.update(i, Holding { holder: s[i].holder, amount }), a) == if a
            == s[i].holder {
            amount as int
        } else {
            amount_of(s, a)
        },
    decreases s.len(),
{
    let t = s.update(i, Holding { holder: s[i].holder, amount });
    if i < s.len() - 1 {
        assert(t.drop_last() =~= s.drop_last().update(i, Holding { holder: s[i].holder, amount }));
        lemma_amount_of_update(s.drop_last(), i, amount, a);
    } else {
        assert(t.drop_last() =~= s.drop_last());
    }
}

pub proof fn lemma_total_update(s: Seq<Holding>, i: int, h: Holding)
    requires
        0 <= i < s.len(),
    ensures
        total(s.update(i, h)) == total(s) - s[i].amount + h.amount,
    decreases s.len(),
{
    let t = s.update(i, h);
    if i < s.len() - 1 {
        assert(t.drop_last() =~= s.drop_last().update(i, h));
        lemma_total_update(s.drop_last(), i, h);
    } else {
        assert(t.drop_last() =~= s.drop_last());
    }
}

pub proof fn lemma_total_push(s: Seq<Holding>, h: Holding)
    ensures
        total(s.push(h)) == total(s) + h.amount,
{
    assert(s.push(h).drop_last() =~= s);
}

pub proof fn lemma_amount_of_push(s: Seq<Holding>, h: Holding, a: Address)
    ensures
        amount_of(s.push(h), a) == if a == h.holder {
            h.amount as int
        } else {
            amount_of(s, a)
        },
{
    assert(s.push(h).drop_last() =~= s);
}

/// Where nothing is negative, the total is zero or more.
pub proof fn lemma_total_none_negative(s: Seq<Holding>)
    requires
        none_negative(s),
    ensures
        total(s) >= 0,
    decreases s.len(),
{
    if s.len() > 0 {
        lemma_total_none_negative(s.drop_last());
    }
}

/// Where nothing is positive, the total is zero or less.
pub proof fn lemma_total_none_positive(s: Seq<Holding>)
    requires
        none_positive(s),
    ensures
        total(s) <= 0,
    decreases s.len(),
{
    if s.len() > 0 {
        lemma_total_none_positive(s.drop_last());
    }
}

/// Where nothing is negative, no entry exceeds the total.
pub proof fn lemma_entry_within_total(s: Seq<Holding>, i: int)
    requires
        none_negative(s),
        0 <= i < s.len(),
    ensures
        s[i].amount <= total(s),
    decreases s.len(),
{
    if i < s.len() - 1 {
        lemma_entry_within_total(s.drop_last(), i);
    } else {
        lemma_total_none_negative(s.drop_last());
    }
}

/// Where nothing is positive, no entry is below the total.
pub proof fn lemma_entry_above_total(s: Seq<Holding>, i: int)
    requires
        none_positive(s),
        0 <= i < s.len(),
    ensures
        s[i].amount >= total(s),
    decreases s.len(),
{
    if i < s.len() - 1 {
        lemma_entry_above_total(s.drop_last(), i);
    } else {
        lemma_total_none_positive(s.drop_last());
    }
}

/// Where nothing is negative, two different entries together do not
/// exceed the total.
pub proof fn lemma_pair_within_total(s: Seq<Holding>, i: int, j: int)
    requires
        none_negative(s),
        0 <= i < j < s.len(),
    ensures
        s[i].amount + s[j].amount <= total(s),
    decreases s.len(),
{
    if j < s.len() - 1 {
        lemma_pair_within_total(s.drop_last(), i, j);
    } else {
        lemma_entry_within_total(s.drop_last(), i);
    }
}

/// The total of the first `k + 1` entries is the total of the first
/// `k` and the next amount.
pub proof fn lemma_total_take_next(s: Seq<Holding>, k: int)
    requires
        0 <= k < s.len(),
    ensures
        total(s.take(k + 1)) == total(s.take(k)) + s[k].amount,
{
    assert(s.take(k + 1).drop_last() =~= s.take(k));
}

/// Where all amounts have one sign, the total of the first `k` entries
/// lies between zero and the total of all.
pub proof fn lemma_total_take_within(s: Seq<Holding>, k: int)
    requires
        0 <= k <= s.len(),
    ensures
        none_negative(s) ==> 0 <= total(s.take(k)) <= total(s),
        none_positive(s) ==> 0 >= total(s.take(k)) >= total(s),
    decreases s.len(),
{
    if k == s.len() {
        assert(s.take(k) =~= s);
        if none_negative(s) {
            lemma_total_none_negative(s);
        }
        if none_positive(s) {
            lemma_total_none_positive(s);
        }
    } else {
        assert(s.drop_last().take(k) =~= s.take(k));
        lemma_total_take_within(s.drop_last(), k);
    }
}

} // verus!
