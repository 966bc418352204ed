use vstd::prelude::*;

verus! {

/// The sum of the numbers in `s`.
pub open spec fn sum(s: Seq<int>) -> int
    decreases s.len(),
{
    if s.len() == 0 {
        0
    } else {
        sum(s.drop_last()) + s.last()
    }
}

/// Every number in `s` is zero or more.
pub open spec fn all_natural(s: Seq<int>) -> bool {
    forall|i: int| 0 <= i < s.len() ==> s[i] >= 0
}

/// Every number in `s` is zero or one.
pub open spec fn all_flags(s: Seq<int>) -> bool {
    forall|i: int| 0 <= i < s.len() ==> 0 <= #[trigger] s[i] <= 1
}

pub proof fn lemma_sum_push(s: Seq<int>, v: int)
    ensures
        sum(s.push(v)) == sum(s) + v,
{
    assert(s.push(v).drop_last() =~= s);
}

pub proof fn lemma_sum_update(s: Seq<int>, i: int, v: int)
    requires
        0 <= i < s.len(),
    ensures
        sum(s.update(i, v)) == sum(s) - s[i] + v,
    decreases s.len(),
{
    if i < s.len() - 1 {
        assert(s.update(i, v).drop_last() =~= s.drop_last().update(i, v));
        lemma_sum_update(s.drop_last(), i, v);
    } else {
        assert(s.update(i, v).drop_last() =~= s.drop_last());
    }
}

/// A sum of numbers that are zero or more is zero or more, and no less
/// than any one of them.
pub proof fn lemma_sum_covers(s: Seq<int>, i: int)
    requires
        all_natural(s),
        0 <= i < s.len(),
    ensures
        0 <= s[i] <= sum(s),
    decreases s.len(),
{
    lemma_sum_natural(s.drop_last());
    if i < s.len() - 1 {
        lemma_sum_covers(s.drop_last(), i);
    }
}

pub proof fn lemma_sum_natural(s: Seq<int>)
    requires
        all_natural(s),
    ensures
        sum(s) >= 0,
    decreases s.len(),
{
    if s.len() > 0 {
        lemma_sum_natural(s.drop_last());
    }
}

/// A sum of flags counts at most as many as there are.
pub proof fn lemma_sum_flags(s: Seq<int>)
    requires
        all_flags(s),
    ensures
        0 <= sum(s) <= s.len(),
    decreases s.len(),
{
    if s.len() > 0 {
        lemma_sum_flags(s.drop_last());
    }
}

/// The sum of the first `k + 1` numbers is the sum of the first `k`
/// and the next one.
pub proof fn lemma_sum_take_next(s: Seq<int>, k: int)
    requires
        0 <= k < s.len(),
    ensures
        sum(s.take(k + 1)) == sum(s.take(k)) + s[k],
{
    assert(s.take(k + 1).drop_last() =~= s.take(k));
}

/// Among numbers that are zero or more, the first `k` add up to no
/// more than all of them.
pub proof fn lemma_sum_take_within(s: Seq<int>, k: int)
    requires
        all_natural(s),
        0 <= k <= s.len(),
    ensures
        sum(s.take(k)) <= sum(s),
    decreases s.len(),
{
    if k == s.len() {
        assert(s.take(k) =~= s);
    } else {
        assert(s.drop_last().take(k) =~= s.take(k));
        lemma_sum_take_within(s.drop_last(), k);
    }
}

/// Where `keys` holds `k`, the place at which it stands.
pub open spec fn slot_of<K>(keys: Seq<K>, k: K) -> Option<int> {
    if keys.contains(k) {
        Some(keys.index_of(k))
    } else {
        None
    }
}

/// Among keys that are all different, each is found where it stands.
pub proof fn lemma_slot_of_entry<K>(keys: Seq<K>, i: int)
    requires
        keys.no_duplicates(),
        0 <= i < keys.len(),
    ensures
        slot_of(keys, keys[i]) == Some(i),
{
    assert(keys.contains(keys[i]));
    let j = keys.index_of(keys[i]);
    assert(0 <= j < keys.len() && keys[j] == keys[i]);
}

/// A key that is found stands at the place that is given for it.
pub proof fn lemma_slot_of_found<K>(keys: Seq<K>, k: K)
    ensures
        match slot_of(keys, k) {
            Some(i) => 0 <= i < keys.len() && keys[i] == k,
            None => forall|i: int| 0 <= i < keys.len() ==> keys[i] != k,
        },
{
    if keys.contains(k) {
        let j = keys.index_of(k);
        assert(0 <= j < keys.len() && keys[j] == k);
    }
}

} // verus!
