//! Sums over sequences of integers and the facts about them that the
//! bookkeeping proofs rely on.
use vstd::prelude::*;

verus! {

/// The sum of a sequence of integers.
pub open spec fn sum(s: Seq<int>) -> int
    decreases s.len(),
{
    if s.len() == 0 {
        0
    } else {
        sum(s.drop_last()) + s.last()
    }
}

/// All entries are non-negative.
pub open spec fn all_nonneg(s: Seq<int>) -> bool {
    forall|i: int| 0 <= i < s.len() ==> s[i] >= 0
}

pub proof fn lemma_sum_push(s: Seq<int>, x: int)
    ensures
        sum(s.push(x)) == sum(s) + x,
{
    assert(s.push(x).drop_last() =~= s);
}

pub proof fn lemma_sum_take_step(s: Seq<int>, i: int)
    requires
        0 <= i < s.len(),
    ensures
        sum(s.take(i + 1)) == sum(s.take(i)) + s[i],
{
    assert(s.take(i + 1).drop_last() =~= s.take(i));
}

pub proof fn lemma_sum_take_all(s: Seq<int>)
    ensures
        sum(s.take(s.len() as int)) == sum(s),
{
    assert(s.take(s.len() as int) =~= s);
}

pub proof fn lemma_sum_nonneg(s: Seq<int>)
    requires
        all_nonneg(s),
    ensures
        sum(s) >= 0,
    decreases s.len(),
{
    if s.len() > 0 {
        lemma_sum_nonneg(s.drop_last());
    }
}

/// For non-negative entries, a prefix never sums to more than the whole.
pub proof fn lemma_sum_prefix_le(s: Seq<int>, i: int)
    requires
        all_nonneg(s),
        0 <= i <= s.len(),
    ensures
        0 <= sum(s.take(i)) <= sum(s),
    decreases s.len() - i,
{
    if i == s.len() {
        lemma_sum_take_all(s);
        lemma_sum_nonneg(s);
    } else {
        lemma_sum_prefix_le(s, i + 1);
        lemma_sum_take_step(s, i);
        assert(all_nonneg(s.take(i)));
        lemma_sum_nonneg(s.take(i));
    }
}

/// The sum of a concatenation.
pub proof fn lemma_sum_concat(a: Seq<int>, b: Seq<int>)
    ensures
        sum(a + b) == sum(a) + sum(b),
    decreases b.len(),
{
    if b.len() == 0 {
        assert(a + b =~= a);
    } else {
        lemma_sum_concat(a, b.drop_last());
        assert((a + b).drop_last() =~= a + b.drop_last());
    }
}

/// Changing one entry changes the sum by the difference.
pub proof fn lemma_sum_update(s: Seq<int>, i: int, x: int)
    requires
        0 <= i < s.len(),
    ensures
        sum(s.update(i, x)) == sum(s) - s[i] + x,
    decreases s.len(),
{
    if i == s.len() - 1 {
        assert(s.update(i, x).drop_last() =~= s.drop_last());
    } else {
        lemma_sum_update(s.drop_last(), i, x);
        assert(s.update(i, x).drop_last() =~= s.drop_last().update(i, x));
    }
}

/// Inserting an entry adds it to the sum.
pub proof fn lemma_sum_insert(s: Seq<int>, i: int, x: int)
    requires
        0 <= i <= s.len(),
    ensures
        sum(s.insert(i, x)) == sum(s) + x,
{
    assert(s.insert(i, x) =~= (s.take(i) + seq![x]) + s.skip(i));
    assert(s =~= s.take(i) + s.skip(i));
    lemma_sum_concat(s.take(i) + seq![x], s.skip(i));
    lemma_sum_concat(s.take(i), seq![x]);
    lemma_sum_concat(s.take(i), s.skip(i));
    assert(seq![x] =~= Seq::<int>::empty().push(x));
    lemma_sum_push(Seq::<int>::empty(), x);
}

} // verus!
