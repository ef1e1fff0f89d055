//! Rebalancing the stake of the hub when its validator set changes.
use vstd::prelude::*;
use crate::decimal::{Decimal, DECIMAL_FRACTIONAL, mul_floor, spec_mul_floor};
use crate::rewards::weighted_shares;
use crate::seqsum::sum;
use crate::keys::{
    keys_sorted, lookup, has_key, set_amount, get_amount, key_lt, lemma_key_lt_ne, lemma_lookup_at, drop_zero_amounts,
    pair_total, pair_amounts, lemma_pair_total_push, lemma_lookup_absent, remove_key, lemma_remove_key,
    lemma_sorted_distinct,
};
use crate::msg::{Coin, StakingMsg};
use crate::state::Supply;

verus! {

/// The redelegations needed for a new validator set, and the balances after them.
#[derive(Debug, Clone, PartialEq, Eq)]
pub struct ValsetChange {
    pub messages: Vec<StakingMsg>,
    pub new_balances: Vec<(String, u128)>,
}

/// The stake a validator should get under the new set: `total * weight` rounded
/// down, for the last weight listed for it (0 if it is not listed).
pub open spec fn target_of(valset: Seq<(String, Decimal)>, total: u128, k: Seq<char>) -> int
    decreases valset.len(),
{
    if valset.len() == 0 {
        0
    } else if valset.last().0@ == k {
        spec_mul_floor(total as int, valset.last().1.atomics as int)
    } else {
        target_of(valset.drop_last(), total, k)
    }
}

/// Every target fits in 128 bits.
pub open spec fn targets_fit(valset: Seq<(String, Decimal)>, total: u128) -> bool {
    forall|i: int|
        0 <= i < valset.len() ==> spec_mul_floor(total as int, #[trigger] valset[i].1.atomics as int)
            <= u128::MAX
}

/// The balance of a validator after applying the redelegations in order to the
/// given balances.
pub open spec fn balance_after(b: Seq<(String, u128)>, msgs: Seq<StakingMsg>, k: Seq<char>) -> int
    decreases msgs.len(),
{
    if msgs.len() == 0 {
        lookup(b, k)
    } else {
        let prev = balance_after(b, msgs.drop_last(), k);
        match msgs.last() {
            StakingMsg::Redelegate { src_validator, dst_validator, amount } => {
                if k == src_validator@ {
                    prev - amount.amount
                } else if k == dst_validator@ {
                    prev + amount.amount
                } else {
                    prev
                }
            },
            _ => prev,
        }
    }
}

/// Collects pairs into a sorted list where the last amount of each key wins.
fn collect_balances(pairs: &Vec<(String, u128)>) -> (r: Vec<(String, u128)>)
    ensures
        keys_sorted(r@),
        forall|k: Seq<char>| #[trigger] lookup(r@, k) == lookup(pairs@, k),
        distinct_keys(pairs@) ==> pair_total(r@) == pair_total(pairs@),
{
    let mut r: Vec<(String, u128)> = Vec::new();
    let mut i: usize = 0;
    while i < pairs.len()
        invariant
            i <= pairs.len(),
            keys_sorted(r@),
            forall|k: Seq<char>| #[trigger] lookup(r@, k) == lookup(pairs@.take(i as int), k),
            distinct_keys(pairs@) ==> pair_total(r@) == pair_total(pairs@.take(i as int)),
        decreases pairs.len() - i,
    {
        let ghost before = r@;
        proof {
            if distinct_keys(pairs@) {
                assert(!has_key(pairs@.take(i as int), pairs@[i as int].0@)) by {
                    if has_key(pairs@.take(i as int), pairs@[i as int].0@) {
                        let j = choose|j: int| 0 <= j < pairs@.take(i as int).len() && pairs@.take(i as int)[j].0@ == pairs@[i as int].0@;
                        assert(pairs@[j].0@ == pairs@[i as int].0@);
                    }
                }
                lemma_lookup_absent(pairs@.take(i as int), pairs@[i as int].0@);
            }
            assert(pairs@.take(i + 1) =~= pairs@.take(i as int).push(pairs@[i as int]));
            lemma_pair_total_push(pairs@.take(i as int), pairs@[i as int]);
        }
        set_amount(&mut r, pairs[i].0.clone(), pairs[i].1);
        proof {
            assert(pairs@.take(i + 1).drop_last() =~= pairs@.take(i as int));
            assert forall|k: Seq<char>| #[trigger] lookup(r@, k) == lookup(pairs@.take(i + 1), k) by {
                assert(lookup(r@, k) == if k == pairs@[i as int].0@ {
                    pairs@[i as int].1 as int
                } else {
                    lookup(before, k)
                });
            }
        }
        i = i + 1;
    }
    proof {
        assert(pairs@.take(pairs@.len() as int) =~= pairs@);
    }
    r
}

/// The sorted list of targets of a validator set.
fn collect_targets(valset: &Vec<(String, Decimal)>, total: u128) -> (r: Vec<(String, u128)>)
    requires
        targets_fit(valset@, total),
    ensures
        keys_sorted(r@),
        forall|k: Seq<char>| #[trigger] lookup(r@, k) == target_of(valset@, total, k),
{
    let mut r: Vec<(String, u128)> = Vec::new();
    let mut i: usize = 0;
    while i < valset.len()
        invariant
            i <= valset.len(),
            targets_fit(valset@, total),
            keys_sorted(r@),
            forall|k: Seq<char>| #[trigger] lookup(r@, k) == target_of(valset@.take(i as int), total, k),
        decreases valset.len() - i,
    {
        let ghost before = r@;
        let amount = mul_floor(total, valset[i].1);
        set_amount(&mut r, valset[i].0.clone(), amount);
        proof {
            assert(valset@.take(i + 1).drop_last() =~= valset@.take(i as int));
            assert forall|k: Seq<char>| #[trigger] lookup(r@, k) == target_of(valset@.take(i + 1), total, k) by {
                assert(lookup(r@, k) == if k == valset@[i as int].0@ {
                    amount as int
                } else {
                    lookup(before, k)
                });
            }
        }
        i = i + 1;
    }
    proof {
        assert(valset@.take(valset@.len() as int) =~= valset@);
    }
    r
}


/// No two pairs share a key.
pub open spec fn distinct_keys(s: Seq<(String, u128)>) -> bool {
    forall|i: int, j: int| 0 <= i < s.len() && 0 <= j < s.len() && i != j ==> s[i].0@ != s[j].0@
}

/// A list sorted by key holds each key once.
pub proof fn lemma_sorted_keys_distinct(s: Seq<(String, u128)>)
    requires
        keys_sorted(s),
    ensures
        distinct_keys(s),
{
    assert forall|i: int, j: int| 0 <= i < s.len() && 0 <= j < s.len() && i != j implies s[i].0@
        != s[j].0@ by {
        crate::keys::lemma_sorted_distinct(s, i, j);
    }
}

proof fn lemma_positive_has_key(s: Seq<(String, u128)>, k: Seq<char>)
    requires
        lookup(s, k) != 0,
    ensures
        has_key(s, k),
{
    if !has_key(s, k) {
        crate::keys::lemma_lookup_absent(s, k);
    }
}

/// The pairs of `base` whose amount exceeds the amount of the same key in
/// `other`, each with the difference, in the order of `base`.
fn excess_over(base: &Vec<(String, u128)>, other: &Vec<(String, u128)>) -> (r: Vec<(String, u128)>)
    requires
        keys_sorted(base@),
        keys_sorted(other@),
    ensures
        forall|i: int|
            0 <= i < r@.len() ==> lookup(base@, #[trigger] r@[i].0@) > lookup(other@, r@[i].0@)
                && r@[i].1 == lookup(base@, r@[i].0@) - lookup(other@, r@[i].0@),
        forall|k: Seq<char>|
            #[trigger] lookup(base@, k) > lookup(other@, k) ==> exists|i: int|
                0 <= i < r@.len() && r@[i].0@ == k,
        distinct_keys(r@),
        keys_sorted(r@),
{
    let mut r: Vec<(String, u128)> = Vec::new();
    let mut i: usize = 0;
    while i < base.len()
        invariant
            i <= base.len(),
            keys_sorted(base@),
            keys_sorted(other@),
            forall|a: int|
                0 <= a < r@.len() ==> exists|x: int|
                    0 <= x < i && (#[trigger] r@[a]).0@ == base@[x].0@,
            keys_sorted(r@),
            forall|a: int|
                0 <= a < r@.len() ==> lookup(base@, #[trigger] r@[a].0@) > lookup(other@, r@[a].0@)
                    && r@[a].1 == lookup(base@, r@[a].0@) - lookup(other@, r@[a].0@),
            forall|x: int|
                0 <= x < i && lookup(base@, #[trigger] base@[x].0@) > lookup(other@, base@[x].0@)
                    ==> exists|a: int| 0 <= a < r@.len() && r@[a].0@ == base@[x].0@,
        decreases base.len() - i,
    {
        let key = &base[i].0;
        let amount = base[i].1;
        let other_amount = get_amount(other, key);
        proof {
            lemma_lookup_at(base@, i as int);
        }
        let ghost before = r@;
        if amount > other_amount {
            r.push((key.clone(), amount - other_amount));
        }
        proof {
            assert forall|a: int|
                0 <= a < r@.len() implies exists|x: int|
                    0 <= x < i + 1 && (#[trigger] r@[a]).0@ == base@[x].0@ by {
                if a < before.len() {
                    let x = choose|x: int| 0 <= x < i && before[a].0@ == base@[x].0@;
                    assert(r@[a] == before[a]);
                } else {
                    assert(r@[a].0@ == base@[i as int].0@);
                }
            }
            assert forall|a: int, c: int| 0 <= a < c < r@.len() implies key_lt(r@[a].0@, r@[c].0@) by {
                if c == before.len() {
                    let x = choose|x: int| 0 <= x < i && before[a].0@ == base@[x].0@;
                    assert(r@[a] == before[a]);
                } else {
                    assert(r@[a] == before[a]);
                    assert(r@[c] == before[c]);
                }
            }
            assert forall|x: int|
                0 <= x < i + 1 && lookup(base@, #[trigger] base@[x].0@) > lookup(other@, base@[x].0@)
                    implies exists|a: int| 0 <= a < r@.len() && r@[a].0@ == base@[x].0@ by {
                if x < i {
                    let a = choose|a: int| 0 <= a < before.len() && before[a].0@ == base@[x].0@;
                    assert(r@[a] == before[a]);
                } else {
                    assert(r@[r@.len() - 1].0@ == base@[x].0@);
                }
            }
        }
        i = i + 1;
    }
    proof {
        assert forall|k: Seq<char>|
            #[trigger] lookup(base@, k) > lookup(other@, k) implies exists|i: int|
                0 <= i < r@.len() && r@[i].0@ == k by {
            crate::keys::lemma_lookup_bounds(other@, k);
            lemma_positive_has_key(base@, k);
            let x = choose|x: int| 0 <= x < base@.len() && base@[x].0@ == k;
            assert(lookup(base@, base@[x].0@) > lookup(other@, base@[x].0@));
        }
        assert forall|a: int, c: int|
            0 <= a < r@.len() && 0 <= c < r@.len() && a != c implies r@[a].0@ != r@[c].0@ by {
            lemma_sorted_distinct(r@, a, c);
        }
    }
    r
}


/// Index `i` occurs in `ord`.
pub open spec fn occurs(ord: Seq<usize>, i: int) -> bool {
    exists|p: int| 0 <= p < ord.len() && ord[p] == i
}

/// Every index below `n` occurs in `ord`, and `ord` holds nothing else.
pub open spec fn covers(ord: Seq<usize>, n: int) -> bool {
    &&& forall|p: int| 0 <= p < ord.len() ==> (#[trigger] ord[p]) < n
    &&& forall|i: int| 0 <= i < n ==> #[trigger] occurs(ord, i)
}

/// `list[i]` comes before `list[j]`: its amount is larger, or equal and it
/// stands first.
pub open spec fn ranks_before(list: Seq<(String, u128)>, i: int, j: int) -> bool {
    list[i].1 > list[j].1 || (list[i].1 == list[j].1 && i < j)
}

/// The indices of `list`, ordered from the largest amount to the smallest
/// (the first of equal amounts first).
fn order_by_amount_desc(list: &Vec<(String, u128)>) -> (ord: Vec<usize>)
    ensures
        ord@.len() == list@.len(),
        forall|p: int, q: int| 0 <= p < q < ord@.len() ==> ord@[p] != ord@[q],
        covers(ord@, list@.len() as int),
        forall|p: int, q: int|
            0 <= p < q < ord@.len() ==> ranks_before(list@, ord@[p] as int, ord@[q] as int),
{
    let n = list.len();
    let mut ord: Vec<usize> = Vec::new();
    let mut i: usize = 0;
    while i < n
        invariant
            i <= n,
            n == list@.len(),
            ord@.len() == i,
            forall|p: int| 0 <= p < i ==> ord@[p] == p,
        decreases n - i,
    {
        ord.push(i);
        i = i + 1;
    }
    proof {
        assert forall|i: int| 0 <= i < n implies #[trigger] occurs(ord@, i) by {
            assert(ord@[i] == i);
        }
    }
    let mut a: usize = 0;
    while a < n
        invariant
            a <= n,
            n == list@.len(),
            ord@.len() == n,
            covers(ord@, n as int),
            forall|p: int, q: int| 0 <= p < q < ord@.len() ==> ord@[p] != ord@[q],
            forall|p: int, q: int|
                0 <= p < q < ord@.len() && p < a ==> ranks_before(list@, ord@[p] as int, ord@[q] as int),
        decreases n - a,
    {
        let mut best = a;
        let mut c = a + 1;
        while c < n
            invariant
                a < n,
                a <= best < n,
                a + 1 <= c <= n,
                best < c,
                n == list@.len(),
                ord@.len() == n,
                covers(ord@, n as int),
                forall|p: int, q: int| 0 <= p < q < ord@.len() ==> ord@[p] != ord@[q],
                forall|q: int|
                    a <= q < c && q != best ==> ranks_before(list@, ord@[best as int] as int, ord@[q] as int),
            decreases n - c,
        {
            if list[ord[c]].1 > list[ord[best]].1 || (list[ord[c]].1 == list[ord[best]].1 && ord[c]
                < ord[best]) {
                best = c;
            }
            c = c + 1;
        }
        let ghost before = ord@;
        let x = ord[a];
        let y = ord[best];
        ord.set(a, y);
        ord.set(best, x);
        proof {
            assert forall|i: int| 0 <= i < n implies #[trigger] occurs(ord@, i) by {
                assert(occurs(before, i));
                let p0 = choose|p: int| 0 <= p < before.len() && before[p] == i;
                if p0 == a {
                    assert(ord@[best as int] == i);
                } else if p0 == best {
                    assert(ord@[a as int] == i);
                } else {
                    assert(ord@[p0] == i);
                }
            }
        }
        a = a + 1;
    }
    ord
}


/// The bookkeeping that holds throughout the rebalancing: the current balances
/// are the old ones with the messages so far applied; every validator that gives
/// stake sits at its target plus what it still has to give, every validator that
/// receives sits at its target minus what it still lacks, and all others are untouched.
spec fn rebalance_inv(
    balances: Seq<(String, u128)>,
    from: Seq<(String, u128)>,
    to: Seq<(String, u128)>,
    msgs: Seq<StakingMsg>,
    old_balances: Seq<(String, u128)>,
    b0: Seq<(String, u128)>,
    tg: Seq<(String, u128)>,
    from0: Seq<(String, u128)>,
    to0: Seq<(String, u128)>,
    denom: Seq<char>,
) -> bool {
    &&& keys_sorted(balances)
    &&& keys_sorted(b0)
    &&& keys_sorted(tg)
    &&& pair_total(balances) == pair_total(b0)
    &&& forall|k: Seq<char>| #[trigger] lookup(b0, k) == lookup(old_balances, k)
    &&& distinct_keys(from0)
    &&& distinct_keys(to0)
    &&& forall|i: int, j: int| 0 <= i < from0.len() && 0 <= j < to0.len() ==> from0[i].0@ != to0[j].0@
    &&& forall|i: int|
        0 <= i < from0.len() ==> lookup(b0, #[trigger] from0[i].0@) > lookup(tg, from0[i].0@)
            && from0[i].1 == lookup(b0, from0[i].0@) - lookup(tg, from0[i].0@)
    &&& forall|j: int|
        0 <= j < to0.len() ==> lookup(tg, #[trigger] to0[j].0@) > lookup(b0, to0[j].0@) && to0[j].1
            == lookup(tg, to0[j].0@) - lookup(b0, to0[j].0@)
    &&& from.len() == from0.len()
    &&& to.len() == to0.len()
    &&& forall|i: int|
        0 <= i < from0.len() ==> (#[trigger] from[i]).0@ == from0[i].0@ && from[i].1 <= from0[i].1
            && lookup(balances, from0[i].0@) == lookup(tg, from0[i].0@) + from[i].1
    &&& forall|j: int|
        0 <= j < to0.len() ==> (#[trigger] to[j]).0@ == to0[j].0@ && to[j].1 <= to0[j].1 && lookup(
            balances,
            to0[j].0@,
        ) + to[j].1 == lookup(tg, to0[j].0@)
    &&& forall|k: Seq<char>|
        (forall|i: int| 0 <= i < from0.len() ==> from0[i].0@ != k) && (forall|j: int|
            0 <= j < to0.len() ==> to0[j].0@ != k) ==> #[trigger] lookup(balances, k) == lookup(b0, k)
    &&& forall|k: Seq<char>| #[trigger] lookup(balances, k) == balance_after(old_balances, msgs, k)
    &&& forall|m: int| 0 <= m < msgs.len() ==> redelegation_ok(#[trigger] msgs[m], denom)
}

/// A redelegation of a positive amount in the given denomination between two
/// different validators.
pub open spec fn redelegation_ok(m: StakingMsg, denom: Seq<char>) -> bool {
    match m {
        StakingMsg::Redelegate { src_validator, dst_validator, amount } => {
            &&& amount.amount > 0
            &&& amount.denom@ == denom
            &&& src_validator@ != dst_validator@
        },
        _ => false,
    }
}

/// Moves `amount` from giving validator `f` to receiving validator `t`.
fn redelegate_step(
    balances: &mut Vec<(String, u128)>,
    from: &mut Vec<(String, u128)>,
    to: &mut Vec<(String, u128)>,
    msgs: &mut Vec<StakingMsg>,
    f: usize,
    t: usize,
    amount: u128,
    denom: &String,
    Ghost(old_balances): Ghost<Seq<(String, u128)>>,
    Ghost(b0): Ghost<Seq<(String, u128)>>,
    Ghost(tg): Ghost<Seq<(String, u128)>>,
    Ghost(from0): Ghost<Seq<(String, u128)>>,
    Ghost(to0): Ghost<Seq<(String, u128)>>,
)
    requires
        rebalance_inv(
            old(balances)@,
            old(from)@,
            old(to)@,
            old(msgs)@,
            old_balances,
            b0,
            tg,
            from0,
            to0,
            denom@,
        ),
        f < from0.len(),
        t < to0.len(),
        0 < amount,
        amount <= old(from)@[f as int].1,
        amount <= old(to)@[t as int].1,
    ensures
        rebalance_inv(
            final(balances)@,
            final(from)@,
            final(to)@,
            final(msgs)@,
            old_balances,
            b0,
            tg,
            from0,
            to0,
            denom@,
        ),
        final(from)@[f as int].1 == old(from)@[f as int].1 - amount,
        final(to)@[t as int].1 == old(to)@[t as int].1 - amount,
        forall|i: int| 0 <= i < from0.len() && i != f ==> final(from)@[i] == old(from)@[i],
        forall|j: int| 0 <= j < to0.len() && j != t ==> final(to)@[j] == old(to)@[j],
        final(from)@[f as int].0 == old(from)@[f as int].0,
        final(to)@[t as int].0 == old(to)@[t as int].0,
        final(msgs)@ == old(msgs)@.push(
            StakingMsg::Redelegate {
                src_validator: old(from)@[f as int].0,
                dst_validator: old(to)@[t as int].0,
                amount: Coin { denom: *denom, amount },
            },
        ),
{
    let ghost bal_before = balances@;
    let ghost msgs_before = msgs@;
    let ghost from_before = from@;
    let ghost to_before = to@;
    let src = from[f].0.clone();
    let dst = to[t].0.clone();
    let from_left = from[f].1 - amount;
    let to_left = to[t].1 - amount;
    proof {
        assert(from_before[f as int].0@ == from0[f as int].0@);
        assert(to_before[t as int].0@ == to0[t as int].0@);
        assert(src@ != dst@);
        crate::keys::lemma_lookup_bounds(tg, from0[f as int].0@);
        crate::keys::lemma_lookup_bounds(tg, to0[t as int].0@);
    }
    msgs.push(
        StakingMsg::Redelegate {
            src_validator: src.clone(),
            dst_validator: dst.clone(),
            amount: Coin { denom: denom.clone(), amount },
        },
    );
    from.set(f, (src.clone(), from_left));
    to.set(t, (dst.clone(), to_left));
    let cur_src = get_amount(balances, &src);
    set_amount(balances, src.clone(), cur_src - amount);
    let ghost bal_mid = balances@;
    let cur_dst = get_amount(balances, &dst);
    set_amount(balances, dst.clone(), cur_dst + amount);
    proof {
        assert forall|k: Seq<char>| #[trigger] lookup(balances@, k) == if k == src@ {
            lookup(bal_before, k) - amount
        } else if k == dst@ {
            lookup(bal_before, k) + amount
        } else {
            lookup(bal_before, k)
        } by {
            assert(lookup(bal_mid, k) == if k == src@ {
                cur_src - amount
            } else {
                lookup(bal_before, k)
            });
        }
        assert(msgs@.drop_last() =~= msgs_before);
        assert forall|k: Seq<char>| #[trigger] lookup(balances@, k) == balance_after(old_balances, msgs@, k) by {
            assert(lookup(bal_before, k) == balance_after(old_balances, msgs_before, k));
        }
        assert forall|m: int| 0 <= m < msgs@.len() implies redelegation_ok(#[trigger] msgs@[m], denom@) by {
            if m < msgs_before.len() {
                assert(msgs@[m] == msgs_before[m]);
            }
        }
        assert forall|i: int|
            0 <= i < from0.len() implies (#[trigger] from@[i]).0@ == from0[i].0@ && from@[i].1
                <= from0[i].1 && lookup(balances@, from0[i].0@) == lookup(tg, from0[i].0@) + from@[i].1 by {
            assert(from0[i].0@ != dst@);
            if i != f {
                assert(from0[i].0@ != src@);
                assert(from@[i] == from_before[i]);
            }
        }
        assert forall|j: int|
            0 <= j < to0.len() implies (#[trigger] to@[j]).0@ == to0[j].0@ && to@[j].1 <= to0[j].1
                && lookup(balances@, to0[j].0@) + to@[j].1 == lookup(tg, to0[j].0@) by {
            assert(to0[j].0@ != src@);
            if j != t {
                assert(to0[j].0@ != dst@);
                assert(to@[j] == to_before[j]);
            }
        }
        assert forall|k: Seq<char>|
            (forall|i: int| 0 <= i < from0.len() ==> from0[i].0@ != k) && (forall|j: int|
                0 <= j < to0.len() ==> to0[j].0@ != k) implies #[trigger] lookup(balances@, k)
                == lookup(b0, k) by {
            assert(from0[f as int].0@ != k);
            assert(to0[t as int].0@ != k);
        }
    }
}

/// The outcome of rebalancing the stake `old_bonded` onto the validator set
/// `new_valset` (whose targets are taken of `total`) with the redelegations
/// `msgs`, leaving the stake `new_bonded`:
/// - the new stake is sorted by address, holds no empty entry, and (from a
///   list that names each validator once) keeps the total;
/// - every message is a redelegation of a positive amount of `denom` between
///   two different validators, and the new stake is the old one with them applied;
/// - a validator at its target keeps its stake, one below it rises towards it
///   and one above it sinks towards it, never past it;
/// - either every validator below its target reaches it, or every validator
///   above its target reaches it.
pub open spec fn rebalanced(
    old_bonded: Seq<(String, u128)>,
    new_valset: Seq<(String, Decimal)>,
    total: u128,
    denom: Seq<char>,
    msgs: Seq<StakingMsg>,
    new_bonded: Seq<(String, u128)>,
) -> bool {
    &&& keys_sorted(new_bonded)
    &&& forall|i: int| 0 <= i < new_bonded.len() ==> (#[trigger] new_bonded[i]).1 > 0
    &&& distinct_keys(old_bonded) ==> pair_total(new_bonded) == pair_total(old_bonded)
    &&& forall|i: int| 0 <= i < msgs.len() ==> redelegation_ok(#[trigger] msgs[i], denom)
    &&& forall|k: Seq<char>| #[trigger] lookup(new_bonded, k) == balance_after(old_bonded, msgs, k)
    &&& forall|k: Seq<char>|
        #![trigger lookup(new_bonded, k)]
        {
            let b = lookup(old_bonded, k);
            let t = target_of(new_valset, total, k);
            let o = lookup(new_bonded, k);
            &&& b == t ==> o == b
            &&& b < t ==> b <= o <= t
            &&& b > t ==> t <= o <= b
        }
    &&& (forall|k: Seq<char>|
        lookup(old_bonded, k) < target_of(new_valset, total, k) ==> #[trigger] lookup(new_bonded, k)
            == target_of(new_valset, total, k)) || (forall|k: Seq<char>|
        lookup(old_bonded, k) > target_of(new_valset, total, k) ==> #[trigger] lookup(new_bonded, k)
            == target_of(new_valset, total, k))
}

/// The sum of the weights of a validator set, as decimal atomics.
pub open spec fn weight_sum(validators: Seq<(String, Decimal)>) -> int
    decreases validators.len(),
{
    if validators.len() == 0 {
        0
    } else {
        weight_sum(validators.drop_last()) + validators.last().1.atomics
    }
}

pub proof fn lemma_weight_sum_nonneg(validators: Seq<(String, Decimal)>)
    ensures
        weight_sum(validators) >= 0,
    decreases validators.len(),
{
    if validators.len() > 0 {
        lemma_weight_sum_nonneg(validators.drop_last());
    }
}

pub proof fn lemma_weight_sum_prefix(validators: Seq<(String, Decimal)>, i: int)
    requires
        0 <= i <= validators.len(),
    ensures
        0 <= weight_sum(validators.take(i)) <= weight_sum(validators),
    decreases validators.len() - i,
{
    if i == validators.len() {
        assert(validators.take(i) =~= validators);
        lemma_weight_sum_nonneg(validators);
    } else {
        lemma_weight_sum_prefix(validators, i + 1);
        assert(validators.take(i + 1).drop_last() =~= validators.take(i));
        lemma_weight_sum_nonneg(validators.take(i));
    }
}


/// The stake every validator should get is never negative.
proof fn lemma_target_nonneg(valset: Seq<(String, Decimal)>, total: u128, k: Seq<char>)
    ensures
        target_of(valset, total, k) >= 0,
    decreases valset.len(),
{
    if valset.len() > 0 {
        lemma_target_nonneg(valset.drop_last(), total, k);
        let w = valset.last().1.atomics as int;
        assert(spec_mul_floor(total as int, w) >= 0) by (nonlinear_arith)
            requires
                total >= 0,
                w >= 0,
                spec_mul_floor(total as int, w) == (total * w) / (DECIMAL_FRACTIONAL as int),
        ;
    }
}

/// The shares of a total by weight add up to at most the total times the
/// sum of the weights.
proof fn lemma_shares_total(valset: Seq<(String, Decimal)>, total: u128)
    ensures
        0 <= sum(weighted_shares(valset, total as int)),
        sum(weighted_shares(valset, total as int)) * (DECIMAL_FRACTIONAL as int) <= total * weight_sum(valset),
    decreases valset.len(),
{
    if valset.len() > 0 {
        let ws = weighted_shares(valset, total as int);
        assert(ws.drop_last() =~= weighted_shares(valset.drop_last(), total as int));
        lemma_shares_total(valset.drop_last(), total);
        let w = valset.last().1.atomics as int;
        let d = DECIMAL_FRACTIONAL as int;
        let share = (total * w) / d;
        assert(ws.last() == share);
        assert(share >= 0 && share * d <= total * w) by (nonlinear_arith)
            requires
                total >= 0,
                w >= 0,
                d > 0,
                share == (total * w) / d,
        ;
        assert(total * weight_sum(valset) == total * weight_sum(valset.drop_last()) + total * w)
            by (nonlinear_arith)
            requires
                weight_sum(valset) == weight_sum(valset.drop_last()) + w,
        ;
    }
}

/// A sorted list whose amounts stay at or below the targets holds at most the
/// shares together, and less if some amount falls short of its target.
proof fn lemma_below_targets(valset: Seq<(String, Decimal)>, total: u128, s: Seq<(String, u128)>)
    requires
        keys_sorted(s),
        forall|k: Seq<char>| #[trigger] lookup(s, k) <= target_of(valset, total, k),
    ensures
        pair_total(s) <= sum(weighted_shares(valset, total as int)),
        (exists|k: Seq<char>| #[trigger] lookup(s, k) < target_of(valset, total, k)) ==> pair_total(s) < sum(
            weighted_shares(valset, total as int),
        ),
    decreases valset.len(),
{
    let ws = weighted_shares(valset, total as int);
    if valset.len() == 0 {
        assert forall|k: Seq<char>| #[trigger] lookup(s, k) == 0 by {
            crate::keys::lemma_lookup_bounds(s, k);
        }
        crate::keys::lemma_zero_lookups_total(s);
        if exists|k: Seq<char>| #[trigger] lookup(s, k) < target_of(valset, total, k) {
            let k = choose|k: Seq<char>| #[trigger] lookup(s, k) < target_of(valset, total, k);
            crate::keys::lemma_lookup_bounds(s, k);
        }
    } else {
        let key0 = valset.last().0@;
        let rest = valset.drop_last();
        let s1 = remove_key(s, key0);
        lemma_remove_key(s, key0);
        assert forall|k: Seq<char>| #[trigger] lookup(s1, k) <= target_of(rest, total, k) by {
            lemma_target_nonneg(rest, total, k);
            if k != key0 {
                assert(lookup(s1, k) == lookup(s, k));
            }
        }
        lemma_below_targets(rest, total, s1);
        assert(ws.drop_last() =~= weighted_shares(rest, total as int));
        assert(lookup(s, key0) <= target_of(valset, total, key0));
        if exists|k: Seq<char>| #[trigger] lookup(s, k) < target_of(valset, total, k) {
            let k = choose|k: Seq<char>| #[trigger] lookup(s, k) < target_of(valset, total, k);
            if k != key0 {
                assert(lookup(s1, k) < target_of(rest, total, k));
            }
        }
    }
}

/// Rebalancing a stake that adds up to the total onto a validator set whose
/// weights add up to at most one gives every validator at least its target
/// (`total * weight`, rounded down), and validators outside the set nothing.
pub proof fn law_rebalance_meets_targets(
    old_bonded: Seq<(String, u128)>,
    new_valset: Seq<(String, Decimal)>,
    total: u128,
    denom: Seq<char>,
    msgs: Seq<StakingMsg>,
    new_bonded: Seq<(String, u128)>,
)
    requires
        rebalanced(old_bonded, new_valset, total, denom, msgs, new_bonded),
        distinct_keys(old_bonded),
        pair_total(old_bonded) == total,
        weight_sum(new_valset) <= DECIMAL_FRACTIONAL,
    ensures
        forall|k: Seq<char>| #[trigger] lookup(new_bonded, k) >= target_of(new_valset, total, k),
{
    if !(forall|k: Seq<char>|
        lookup(old_bonded, k) < target_of(new_valset, total, k) ==> #[trigger] lookup(new_bonded, k)
            == target_of(new_valset, total, k)) {
        assert forall|k: Seq<char>| #[trigger] lookup(new_bonded, k) <= target_of(new_valset, total, k) by {
            let b = lookup(old_bonded, k);
            let t = target_of(new_valset, total, k);
            assert(b == t ==> lookup(new_bonded, k) == b);
        }
        lemma_below_targets(new_valset, total, new_bonded);
        lemma_shares_total(new_valset, total);
        let d = DECIMAL_FRACTIONAL as int;
        let sh = sum(weighted_shares(new_valset, total as int));
        assert(sh <= total) by (nonlinear_arith)
            requires
                sh * d <= total * weight_sum(new_valset),
                weight_sum(new_valset) <= d,
                total >= 0,
                d > 0,
        ;
        assert(!exists|k: Seq<char>| #[trigger] lookup(new_bonded, k) < target_of(new_valset, total, k));
    }
    assert forall|k: Seq<char>| #[trigger] lookup(new_bonded, k) >= target_of(new_valset, total, k) by {
        let b = lookup(old_bonded, k);
        let t = target_of(new_valset, total, k);
        assert(b == t ==> lookup(new_bonded, k) == b);
    }
}

/// Re-applying a validator set that every validator already meets makes no
/// redelegation and leaves every balance as it was: no validator is below its
/// target, so nobody receives stake.
pub proof fn law_rebalance_at_targets_is_noop(
    old_bonded: Seq<(String, u128)>,
    new_valset: Seq<(String, Decimal)>,
    total: u128,
    denom: String,
    givers: Seq<(String, u128)>,
    receivers: Seq<(String, u128)>,
    msgs: Seq<StakingMsg>,
    new_bonded: Seq<(String, u128)>,
)
    requires
        forall|k: Seq<char>| #[trigger] lookup(old_bonded, k) >= target_of(new_valset, total, k),
        rebalanced(old_bonded, new_valset, total, denom@, msgs, new_bonded),
        receivers_in_order(receivers, old_bonded, new_valset, total),
        msgs == greedy_redelegations(givers, receivers, denom, receivers.len() as int).1,
    ensures
        msgs.len() == 0,
        forall|k: Seq<char>| #[trigger] lookup(new_bonded, k) == lookup(old_bonded, k),
{
    if receivers.len() > 0 {
        let r = receivers[0];
        assert(target_of(new_valset, total, r.0@) > lookup(old_bonded, r.0@));
        assert(lookup(old_bonded, r.0@) >= target_of(new_valset, total, r.0@));
    }
    assert(msgs.len() == 0);
    assert forall|k: Seq<char>| #[trigger] lookup(new_bonded, k) == lookup(old_bonded, k) by {
        assert(lookup(new_bonded, k) == balance_after(old_bonded, msgs, k));
    }
}

/// Rebalancing onto the same validator set a second time (weights adding up
/// to at most 1, the old stake adding up to the total) is a no-op: the first
/// rebalancing met every target, so the second makes no redelegation and
/// keeps every balance.
pub proof fn law_rebalance_twice_is_noop(
    old_bonded: Seq<(String, u128)>,
    new_valset: Seq<(String, Decimal)>,
    total: u128,
    denom: String,
    first_msgs: Seq<StakingMsg>,
    first_bonded: Seq<(String, u128)>,
    givers: Seq<(String, u128)>,
    receivers: Seq<(String, u128)>,
    msgs: Seq<StakingMsg>,
    new_bonded: Seq<(String, u128)>,
)
    requires
        distinct_keys(old_bonded),
        pair_total(old_bonded) == total,
        weight_sum(new_valset) <= DECIMAL_FRACTIONAL,
        rebalanced(old_bonded, new_valset, total, denom@, first_msgs, first_bonded),
        rebalanced(first_bonded, new_valset, total, denom@, msgs, new_bonded),
        receivers_in_order(receivers, first_bonded, new_valset, total),
        msgs == greedy_redelegations(givers, receivers, denom, receivers.len() as int).1,
    ensures
        msgs.len() == 0,
        forall|k: Seq<char>| #[trigger] lookup(new_bonded, k) == lookup(first_bonded, k),
{
    law_rebalance_meets_targets(old_bonded, new_valset, total, denom@, first_msgs, first_bonded);
    law_rebalance_at_targets_is_noop(
        first_bonded,
        new_valset,
        total,
        denom,
        givers,
        receivers,
        msgs,
        new_bonded,
    );
}

/// The greedy matching of one receiver: it takes from the first `j` givers in
/// turn as much as both have left. Returns what the givers have left, what
/// the receiver still lacks, and the redelegations.
pub open spec fn take_from_givers(
    givers: Seq<(String, u128)>,
    receiver: (String, u128),
    denom: String,
    j: int,
) -> (Seq<(String, u128)>, u128, Seq<StakingMsg>)
    decreases j,
{
    if j <= 0 {
        (givers, receiver.1, Seq::empty())
    } else {
        let prev = take_from_givers(givers, receiver, denom, j - 1);
        let g = prev.0[j - 1];
        let amount = if g.1 < prev.1 {
            g.1
        } else {
            prev.1
        };
        if amount == 0 {
            prev
        } else {
            (
                prev.0.update(j - 1, (g.0, (g.1 - amount) as u128)),
                (prev.1 - amount) as u128,
                prev.2.push(
                    StakingMsg::Redelegate {
                        src_validator: g.0,
                        dst_validator: receiver.0,
                        amount: Coin { denom, amount },
                    },
                ),
            )
        }
    }
}

/// The greedy matching of the first `i` receivers: each in turn takes from
/// all givers in turn. Returns what the givers have left and the redelegations.
pub open spec fn greedy_redelegations(
    givers: Seq<(String, u128)>,
    receivers: Seq<(String, u128)>,
    denom: String,
    i: int,
) -> (Seq<(String, u128)>, Seq<StakingMsg>)
    decreases i,
{
    if i <= 0 {
        (givers, Seq::empty())
    } else {
        let prev = greedy_redelegations(givers, receivers, denom, i - 1);
        let step = take_from_givers(prev.0, receivers[i - 1], denom, givers.len() as int);
        (step.0, prev.1 + step.2)
    }
}

/// `givers` lists, from the largest amount to the smallest (equal amounts by
/// address), every validator whose old stake exceeds its target, once, with
/// the excess.
pub open spec fn givers_in_order(
    givers: Seq<(String, u128)>,
    old_bonded: Seq<(String, u128)>,
    valset: Seq<(String, Decimal)>,
    total: u128,
) -> bool {
    &&& distinct_keys(givers)
    &&& forall|i: int|
        0 <= i < givers.len() ==> lookup(old_bonded, (#[trigger] givers[i]).0@) > target_of(
            valset,
            total,
            givers[i].0@,
        ) && givers[i].1 == lookup(old_bonded, givers[i].0@) - target_of(valset, total, givers[i].0@)
    &&& forall|k: Seq<char>|
        #[trigger] lookup(old_bonded, k) > target_of(valset, total, k) ==> exists|i: int|
            0 <= i < givers.len() && givers[i].0@ == k
    &&& forall|p: int, q: int| 0 <= p < q < givers.len() ==> givers[p].1 >= givers[q].1
    &&& forall|p: int, q: int|
        0 <= p < q < givers.len() && givers[p].1 == givers[q].1 ==> key_lt(givers[p].0@, givers[q].0@)
}

/// `receivers` lists, from the largest amount to the smallest (equal amounts
/// by address), every validator whose old stake is below its target, once,
/// with what it lacks.
pub open spec fn receivers_in_order(
    receivers: Seq<(String, u128)>,
    old_bonded: Seq<(String, u128)>,
    valset: Seq<(String, Decimal)>,
    total: u128,
) -> bool {
    &&& distinct_keys(receivers)
    &&& forall|i: int|
        0 <= i < receivers.len() ==> target_of(valset, total, (#[trigger] receivers[i]).0@) > lookup(
            old_bonded,
            receivers[i].0@,
        ) && receivers[i].1 == target_of(valset, total, receivers[i].0@) - lookup(
            old_bonded,
            receivers[i].0@,
        )
    &&& forall|k: Seq<char>|
        #[trigger] target_of(valset, total, k) > lookup(old_bonded, k) ==> exists|i: int|
            0 <= i < receivers.len() && receivers[i].0@ == k
    &&& forall|p: int, q: int| 0 <= p < q < receivers.len() ==> receivers[p].1 >= receivers[q].1
    &&& forall|p: int, q: int|
        0 <= p < q < receivers.len() && receivers[p].1 == receivers[q].1 ==> key_lt(
            receivers[p].0@,
            receivers[q].0@,
        )
}

/// The addresses and amounts of a list of pairs.
pub open spec fn pair_view(s: Seq<(String, u128)>) -> Seq<(Seq<char>, u128)> {
    s.map_values(|p: (String, u128)| (p.0@, p.1))
}

/// From the largest amount to the smallest, equal amounts by address.
pub open spec fn ranked(v: Seq<(Seq<char>, u128)>) -> bool {
    forall|p: int, q: int|
        #![trigger v[p], v[q]]
        0 <= p < q < v.len() ==> v[p].1 > v[q].1 || (v[p].1 == v[q].1 && key_lt(v[p].0, v[q].0))
}

/// Two ranked lists with the same elements are equal.
proof fn lemma_ranked_unique(v1: Seq<(Seq<char>, u128)>, v2: Seq<(Seq<char>, u128)>)
    requires
        ranked(v1),
        ranked(v2),
        forall|x: (Seq<char>, u128)| v1.contains(x) <==> v2.contains(x),
    ensures
        v1 == v2,
    decreases v1.len(),
{
    if v1.len() == 0 || v2.len() == 0 {
        if v1.len() > 0 {
            assert(v1.contains(v1[0]));
        }
        if v2.len() > 0 {
            assert(v2.contains(v2[0]));
        }
        assert(v1 =~= v2);
    } else {
        let a = v1[0];
        let b = v2[0];
        assert(v1.contains(a));
        assert(v2.contains(b));
        let j = choose|j: int| 0 <= j < v2.len() && v2[j] == a;
        let k = choose|k: int| 0 <= k < v1.len() && v1[k] == b;
        if a != b {
            assert(j > 0 && k > 0);
            if a.1 == b.1 {
                lemma_key_lt_ne(b.0, a.0);
            }
        }
        let r1 = v1.drop_first();
        let r2 = v2.drop_first();
        assert forall|p: int, q: int| 0 <= p < q < r1.len() implies r1[p].1 > r1[q].1 || (r1[p].1
            == r1[q].1 && key_lt(r1[p].0, r1[q].0)) by {
            assert(r1[p] == v1[p + 1] && r1[q] == v1[q + 1]);
        }
        assert forall|p: int, q: int| 0 <= p < q < r2.len() implies r2[p].1 > r2[q].1 || (r2[p].1
            == r2[q].1 && key_lt(r2[p].0, r2[q].0)) by {
            assert(r2[p] == v2[p + 1] && r2[q] == v2[q + 1]);
        }
        assert forall|x: (Seq<char>, u128)| r1.contains(x) implies r2.contains(x) by {
            let i = choose|i: int| 0 <= i < r1.len() && r1[i] == x;
            assert(v1[i + 1] == x);
            if x.1 == a.1 {
                lemma_key_lt_ne(a.0, x.0);
            }
            assert(v2.contains(x));
            let m = choose|m: int| 0 <= m < v2.len() && v2[m] == x;
            assert(m != 0);
            assert(r2[m - 1] == x);
        }
        assert forall|x: (Seq<char>, u128)| r2.contains(x) implies r1.contains(x) by {
            let i = choose|i: int| 0 <= i < r2.len() && r2[i] == x;
            assert(v2[i + 1] == x);
            if x.1 == b.1 {
                lemma_key_lt_ne(b.0, x.0);
            }
            assert(v1.contains(x));
            let m = choose|m: int| 0 <= m < v1.len() && v1[m] == x;
            assert(m != 0);
            assert(r1[m - 1] == x);
        }
        lemma_ranked_unique(r1, r2);
        assert(v1 =~= seq![a] + r1);
        assert(v2 =~= seq![b] + r2);
    }
}

/// The order in which stake is moved is fixed by the inputs: any two lists of
/// givers (or of receivers) that meet `givers_in_order` (`receivers_in_order`)
/// for the same old stake, validator set and total hold the same addresses
/// and amounts in the same order, so the redelegations do not depend on the
/// order in which the inputs were given.
pub proof fn law_redelegation_order_is_fixed(
    old_bonded: Seq<(String, u128)>,
    valset: Seq<(String, Decimal)>,
    total: u128,
    givers: Seq<(String, u128)>,
    other_givers: Seq<(String, u128)>,
    receivers: Seq<(String, u128)>,
    other_receivers: Seq<(String, u128)>,
)
    requires
        givers_in_order(givers, old_bonded, valset, total),
        givers_in_order(other_givers, old_bonded, valset, total),
        receivers_in_order(receivers, old_bonded, valset, total),
        receivers_in_order(other_receivers, old_bonded, valset, total),
    ensures
        pair_view(givers) == pair_view(other_givers),
        pair_view(receivers) == pair_view(other_receivers),
{
    lemma_givers_ranked(givers, old_bonded, valset, total);
    lemma_givers_ranked(other_givers, old_bonded, valset, total);
    lemma_givers_same_content(givers, other_givers, old_bonded, valset, total);
    lemma_givers_same_content(other_givers, givers, old_bonded, valset, total);
    lemma_ranked_unique(pair_view(givers), pair_view(other_givers));
    lemma_receivers_ranked(receivers, old_bonded, valset, total);
    lemma_receivers_ranked(other_receivers, old_bonded, valset, total);
    lemma_receivers_same_content(receivers, other_receivers, old_bonded, valset, total);
    lemma_receivers_same_content(other_receivers, receivers, old_bonded, valset, total);
    lemma_ranked_unique(pair_view(receivers), pair_view(other_receivers));
}

proof fn lemma_givers_ranked(
    givers: Seq<(String, u128)>,
    old_bonded: Seq<(String, u128)>,
    valset: Seq<(String, Decimal)>,
    total: u128,
)
    requires
        givers_in_order(givers, old_bonded, valset, total),
    ensures
        ranked(pair_view(givers)),
{
    let v = pair_view(givers);
    assert forall|p: int, q: int| 0 <= p < q < v.len() implies v[p].1 > v[q].1 || (v[p].1 == v[q].1
        && key_lt(v[p].0, v[q].0)) by {
        assert(v[p] == (givers[p].0@, givers[p].1));
        assert(v[q] == (givers[q].0@, givers[q].1));
        assert(givers[p].1 >= givers[q].1);
    }
}

proof fn lemma_receivers_ranked(
    receivers: Seq<(String, u128)>,
    old_bonded: Seq<(String, u128)>,
    valset: Seq<(String, Decimal)>,
    total: u128,
)
    requires
        receivers_in_order(receivers, old_bonded, valset, total),
    ensures
        ranked(pair_view(receivers)),
{
    let v = pair_view(receivers);
    assert forall|p: int, q: int| 0 <= p < q < v.len() implies v[p].1 > v[q].1 || (v[p].1 == v[q].1
        && key_lt(v[p].0, v[q].0)) by {
        assert(v[p] == (receivers[p].0@, receivers[p].1));
        assert(v[q] == (receivers[q].0@, receivers[q].1));
        assert(receivers[p].1 >= receivers[q].1);
    }
}

proof fn lemma_givers_same_content(
    a: Seq<(String, u128)>,
    b: Seq<(String, u128)>,
    old_bonded: Seq<(String, u128)>,
    valset: Seq<(String, Decimal)>,
    total: u128,
)
    requires
        givers_in_order(a, old_bonded, valset, total),
        givers_in_order(b, old_bonded, valset, total),
    ensures
        forall|x: (Seq<char>, u128)| pair_view(a).contains(x) ==> pair_view(b).contains(x),
{
    assert forall|x: (Seq<char>, u128)| pair_view(a).contains(x) implies pair_view(b).contains(x) by {
        let i = choose|i: int| 0 <= i < pair_view(a).len() && pair_view(a)[i] == x;
        let k = a[i].0@;
        assert(lookup(old_bonded, k) > target_of(valset, total, k));
        let j = choose|j: int| 0 <= j < b.len() && b[j].0@ == k;
        assert(pair_view(b)[j] == (b[j].0@, b[j].1));
    }
}

proof fn lemma_receivers_same_content(
    a: Seq<(String, u128)>,
    b: Seq<(String, u128)>,
    old_bonded: Seq<(String, u128)>,
    valset: Seq<(String, Decimal)>,
    total: u128,
)
    requires
        receivers_in_order(a, old_bonded, valset, total),
        receivers_in_order(b, old_bonded, valset, total),
    ensures
        forall|x: (Seq<char>, u128)| pair_view(a).contains(x) ==> pair_view(b).contains(x),
{
    assert forall|x: (Seq<char>, u128)| pair_view(a).contains(x) implies pair_view(b).contains(x) by {
        let i = choose|i: int| 0 <= i < pair_view(a).len() && pair_view(a)[i] == x;
        let k = a[i].0@;
        assert(target_of(valset, total, k) > lookup(old_bonded, k));
        let j = choose|j: int| 0 <= j < b.len() && b[j].0@ == k;
        assert(pair_view(b)[j] == (b[j].0@, b[j].1));
    }
}

/// Calculates the redelegation messages needed to move from the old balances
/// to the target validator set, and the balances after them.
///
/// Each validator in the new set should end up with `total_bonded * weight`
/// (rounded down). Validators above their target give stake to validators below
/// theirs: those that lack the most are served first, each from the validators
/// with the largest excess first.
pub fn valset_change_redelegation_messages(
    supply: &Supply,
    old_balances: &Vec<(String, u128)>,
    new_valset: &Vec<(String, Decimal)>,
) -> (r: ValsetChange)
    requires
        targets_fit(new_valset@, supply.total_bonded),
    ensures
        rebalanced(
            old_balances@,
            new_valset@,
            supply.total_bonded,
            supply.bond_denom@,
            r.messages@,
            r.new_balances@,
        ),
        exists|givers: Seq<(String, u128)>, receivers: Seq<(String, u128)>|
            {
                &&& givers_in_order(givers, old_balances@, new_valset@, supply.total_bonded)
                &&& receivers_in_order(receivers, old_balances@, new_valset@, supply.total_bonded)
                &&& r.messages@ == greedy_redelegations(
                    givers,
                    receivers,
                    supply.bond_denom,
                    receivers.len() as int,
                ).1
            },
        distinct_keys(old_balances@) && pair_total(old_balances@) == supply.total_bonded && weight_sum(
            new_valset@,
        ) <= DECIMAL_FRACTIONAL ==> forall|k: Seq<char>|
            #[trigger] lookup(r.new_balances@, k) >= target_of(new_valset@, supply.total_bonded, k),
{
    let total = supply.total_bonded;
    let mut balances = collect_balances(old_balances);
    let targets = collect_targets(new_valset, total);
    let mut from = excess_over(&balances, &targets);
    let mut to = excess_over(&targets, &balances);
    let from_ord = order_by_amount_desc(&from);
    let to_ord = order_by_amount_desc(&to);
    let ghost b0 = balances@;
    let ghost from0 = from@;
    let ghost to0 = to@;
    let ghost tg = targets@;
    let ghost gv = Seq::new(from_ord@.len(), |p: int| from0[from_ord@[p] as int]);
    let ghost rv = Seq::new(to_ord@.len(), |p: int| to0[to_ord@[p] as int]);
    let ghost denom = supply.bond_denom;
    let mut msgs: Vec<StakingMsg> = Vec::new();
    proof {
        assert forall|i: int, j: int|
            0 <= i < from0.len() && 0 <= j < to0.len() implies from0[i].0@ != to0[j].0@ by {
            assert(lookup(b0, from0[i].0@) > lookup(tg, from0[i].0@));
            assert(lookup(tg, to0[j].0@) > lookup(b0, to0[j].0@));
        }
    }
    let mut ti: usize = 0;
    proof {
        assert(msgs@.len() == 0);
        assert forall|k: Seq<char>| #[trigger] lookup(balances@, k) == balance_after(old_balances@, msgs@, k) by {}
    }
    while ti < to_ord.len()
        invariant
            ti <= to_ord@.len(),
            covers(to_ord@, to0.len() as int),
            covers(from_ord@, from0.len() as int),
            rebalance_inv(balances@, from@, to@, msgs@, old_balances@, b0, tg, from0, to0, supply.bond_denom@),
            forall|k: Seq<char>| #[trigger] lookup(tg, k) == target_of(new_valset@, total, k),
            forall|k: Seq<char>|
                #[trigger] lookup(b0, k) > lookup(tg, k) ==> exists|i: int|
                    0 <= i < from0.len() && from0[i].0@ == k,
            forall|k: Seq<char>|
                #[trigger] lookup(tg, k) > lookup(b0, k) ==> exists|j: int|
                    0 <= j < to0.len() && to0[j].0@ == k,
            (forall|p: int| 0 <= p < ti ==> to@[#[trigger] to_ord@[p] as int].1 == 0) || (forall|i: int|
                0 <= i < from@.len() ==> (#[trigger] from@[i]).1 == 0),
            from_ord@.len() == from0.len(),
            to_ord@.len() == to0.len(),
            forall|p: int, q: int| 0 <= p < q < from_ord@.len() ==> from_ord@[p] != from_ord@[q],
            forall|p: int, q: int| 0 <= p < q < to_ord@.len() ==> to_ord@[p] != to_ord@[q],
            gv == Seq::new(from_ord@.len(), |p: int| from0[from_ord@[p] as int]),
            rv == Seq::new(to_ord@.len(), |p: int| to0[to_ord@[p] as int]),
            denom == supply.bond_denom,
            greedy_redelegations(gv, rv, denom, ti as int).0.len() == gv.len(),
            msgs@ == greedy_redelegations(gv, rv, denom, ti as int).1,
            forall|p: int|
                #![trigger from_ord@[p]]
                0 <= p < gv.len() ==> from@[from_ord@[p] as int] == greedy_redelegations(
                    gv,
                    rv,
                    denom,
                    ti as int,
                ).0[p],
            forall|p: int| #![trigger to_ord@[p]] ti <= p < rv.len() ==> to@[to_ord@[p] as int] == rv[p],
        decreases to_ord@.len() - ti,
    {
        let t = to_ord[ti];
        let mut fi: usize = 0;
        while fi < from_ord.len()
            invariant
                ti < to_ord@.len(),
                t == to_ord@[ti as int],
                t < to0.len(),
                fi <= from_ord@.len(),
                covers(to_ord@, to0.len() as int),
                covers(from_ord@, from0.len() as int),
                rebalance_inv(balances@, from@, to@, msgs@, old_balances@, b0, tg, from0, to0, supply.bond_denom@),
                forall|k: Seq<char>| #[trigger] lookup(tg, k) == target_of(new_valset@, total, k),
                (forall|p: int| 0 <= p < ti ==> to@[#[trigger] to_ord@[p] as int].1 == 0) || (forall|i: int|
                    0 <= i < from@.len() ==> (#[trigger] from@[i]).1 == 0),
                to@[t as int].1 == 0 || (forall|q: int| 0 <= q < fi ==> from@[#[trigger] from_ord@[q] as int].1 == 0),
                from_ord@.len() == from0.len(),
                to_ord@.len() == to0.len(),
                forall|p: int, q: int| 0 <= p < q < from_ord@.len() ==> from_ord@[p] != from_ord@[q],
                forall|p: int, q: int| 0 <= p < q < to_ord@.len() ==> to_ord@[p] != to_ord@[q],
                gv == Seq::new(from_ord@.len(), |p: int| from0[from_ord@[p] as int]),
                rv == Seq::new(to_ord@.len(), |p: int| to0[to_ord@[p] as int]),
                denom == supply.bond_denom,
                greedy_redelegations(gv, rv, denom, ti as int).0.len() == gv.len(),
                take_from_givers(
                    greedy_redelegations(gv, rv, denom, ti as int).0,
                    rv[ti as int],
                    denom,
                    fi as int,
                ).0.len() == gv.len(),
                msgs@ == greedy_redelegations(gv, rv, denom, ti as int).1 + take_from_givers(
                    greedy_redelegations(gv, rv, denom, ti as int).0,
                    rv[ti as int],
                    denom,
                    fi as int,
                ).2,
                forall|p: int|
                    #![trigger from_ord@[p]]
                    0 <= p < gv.len() ==> from@[from_ord@[p] as int] == take_from_givers(
                        greedy_redelegations(gv, rv, denom, ti as int).0,
                        rv[ti as int],
                        denom,
                        fi as int,
                    ).0[p],
                to@[t as int].0 == rv[ti as int].0,
                to@[t as int].1 == take_from_givers(
                    greedy_redelegations(gv, rv, denom, ti as int).0,
                    rv[ti as int],
                    denom,
                    fi as int,
                ).1,
                forall|p: int| #![trigger to_ord@[p]] ti < p < rv.len() ==> to@[to_ord@[p] as int] == rv[p],
            decreases from_ord@.len() - fi,
        {
            let f = from_ord[fi];
            let amount_from = from[f].1;
            let amount_to = to[t].1;
            let amount = if amount_from < amount_to { amount_from } else { amount_to };
            if amount != 0 {
                redelegate_step(
                    &mut balances,
                    &mut from,
                    &mut to,
                    &mut msgs,
                    f,
                    t,
                    amount,
                    &supply.bond_denom,
                    Ghost(old_balances@),
                    Ghost(b0),
                    Ghost(tg),
                    Ghost(from0),
                    Ghost(to0),
                );
            }
            fi = fi + 1;
        }
        proof {
            if to@[t as int].1 != 0 {
                assert forall|i: int| 0 <= i < from@.len() implies (#[trigger] from@[i]).1 == 0 by {
                    assert(occurs(from_ord@, i));
                    let q = choose|q: int| 0 <= q < from_ord@.len() && from_ord@[q] == i;
                    assert(from@[from_ord@[q] as int].1 == 0);
                }
            }
        }
        ti = ti + 1;
    }
    let new_balances = drop_zero_amounts(&balances);
    proof {
        let all_to_done = forall|j: int| 0 <= j < to0.len() ==> (#[trigger] to@[j]).1 == 0;
        if !(forall|i: int| 0 <= i < from@.len() ==> (#[trigger] from@[i]).1 == 0) {
            assert forall|j: int| 0 <= j < to0.len() implies (#[trigger] to@[j]).1 == 0 by {
                assert(occurs(to_ord@, j));
                let p = choose|p: int| 0 <= p < to_ord@.len() && to_ord@[p] == j;
                assert(to@[to_ord@[p] as int].1 == 0);
            }
        }
        assert forall|k: Seq<char>|
            #![trigger lookup(new_balances@, k)]
            {
                let b = lookup(old_balances@, k);
                let tt = target_of(new_valset@, total, k);
                let o = lookup(new_balances@, k);
                &&& b == tt ==> o == b
                &&& b < tt ==> b <= o <= tt
                &&& b > tt ==> tt <= o <= b
            } by {
            let b = lookup(b0, k);
            let tt = lookup(tg, k);
            if b > tt {
                let i = choose|i: int| 0 <= i < from0.len() && from0[i].0@ == k;
                assert(from@[i].0@ == k);
            } else if b < tt {
                let j = choose|j: int| 0 <= j < to0.len() && to0[j].0@ == k;
                assert(to@[j].0@ == k);
            } else {
                assert forall|i: int| 0 <= i < from0.len() implies from0[i].0@ != k by {
                    assert(lookup(b0, from0[i].0@) > lookup(tg, from0[i].0@));
                }
                assert forall|j: int| 0 <= j < to0.len() implies to0[j].0@ != k by {
                    assert(lookup(tg, to0[j].0@) > lookup(b0, to0[j].0@));
                }
            }
        }
        if forall|i: int| 0 <= i < from@.len() ==> (#[trigger] from@[i]).1 == 0 {
            assert forall|k: Seq<char>|
                lookup(old_balances@, k) > target_of(new_valset@, total, k) implies #[trigger] lookup(
                    new_balances@,
                    k,
                ) == target_of(new_valset@, total, k) by {
                assert(lookup(b0, k) == lookup(old_balances@, k));
                assert(lookup(tg, k) == target_of(new_valset@, total, k));
                let i = choose|i: int| 0 <= i < from0.len() && from0[i].0@ == k;
                assert(from@[i].0@ == k);
            }
        } else {
            assert forall|k: Seq<char>|
                lookup(old_balances@, k) < target_of(new_valset@, total, k) implies #[trigger] lookup(
                    new_balances@,
                    k,
                ) == target_of(new_valset@, total, k) by {
                assert(lookup(b0, k) == lookup(old_balances@, k));
                assert(lookup(tg, k) == target_of(new_valset@, total, k));
                let j = choose|j: int| 0 <= j < to0.len() && to0[j].0@ == k;
                assert(to@[j].0@ == k);
            }
        }
    }
    proof {
        assert forall|i: int, j: int|
            0 <= i < gv.len() && 0 <= j < gv.len() && i != j implies gv[i].0@ != gv[j].0@ by {
            assert(from_ord@[i] != from_ord@[j]);
            assert(from0[from_ord@[i] as int].0@ != from0[from_ord@[j] as int].0@);
        }
        assert forall|i: int| 0 <= i < gv.len() implies lookup(old_balances@, (#[trigger] gv[i]).0@)
            > target_of(new_valset@, total, gv[i].0@) && gv[i].1 == lookup(old_balances@, gv[i].0@)
            - target_of(new_valset@, total, gv[i].0@) by {
            let x = from_ord@[i] as int;
            assert(gv[i] == from0[x]);
            assert(lookup(b0, from0[x].0@) > lookup(tg, from0[x].0@));
        }
        assert forall|k: Seq<char>|
            #[trigger] lookup(old_balances@, k) > target_of(new_valset@, total, k) implies exists|i: int|
                0 <= i < gv.len() && gv[i].0@ == k by {
            assert(lookup(b0, k) == lookup(old_balances@, k));
            assert(lookup(tg, k) == target_of(new_valset@, total, k));
            let x = choose|x: int| 0 <= x < from0.len() && from0[x].0@ == k;
            assert(occurs(from_ord@, x));
            let p = choose|p: int| 0 <= p < from_ord@.len() && from_ord@[p] == x;
            assert(gv[p].0@ == k);
        }
        assert forall|p: int, q: int| 0 <= p < q < gv.len() implies gv[p].1 >= gv[q].1 by {
            assert(ranks_before(from0, from_ord@[p] as int, from_ord@[q] as int));
        }
        assert forall|p: int, q: int|
            0 <= p < q < gv.len() && gv[p].1 == gv[q].1 implies key_lt(gv[p].0@, gv[q].0@) by {
            assert(ranks_before(from0, from_ord@[p] as int, from_ord@[q] as int));
            assert((from_ord@[p] as int) < (from_ord@[q] as int));
            assert(from_ord@[q] < from0.len());
        }
        assert(givers_in_order(gv, old_balances@, new_valset@, total));
        assert forall|i: int, j: int|
            0 <= i < rv.len() && 0 <= j < rv.len() && i != j implies rv[i].0@ != rv[j].0@ by {
            assert(to_ord@[i] != to_ord@[j]);
            assert(to0[to_ord@[i] as int].0@ != to0[to_ord@[j] as int].0@);
        }
        assert forall|i: int| 0 <= i < rv.len() implies target_of(new_valset@, total, (#[trigger] rv[i]).0@)
            > lookup(old_balances@, rv[i].0@) && rv[i].1 == target_of(new_valset@, total, rv[i].0@)
            - lookup(old_balances@, rv[i].0@) by {
            let x = to_ord@[i] as int;
            assert(rv[i] == to0[x]);
            assert(lookup(tg, to0[x].0@) > lookup(b0, to0[x].0@));
        }
        assert forall|k: Seq<char>|
            #[trigger] target_of(new_valset@, total, k) > lookup(old_balances@, k) implies exists|i: int|
                0 <= i < rv.len() && rv[i].0@ == k by {
            assert(lookup(b0, k) == lookup(old_balances@, k));
            assert(lookup(tg, k) == target_of(new_valset@, total, k));
            let x = choose|x: int| 0 <= x < to0.len() && to0[x].0@ == k;
            assert(occurs(to_ord@, x));
            let p = choose|p: int| 0 <= p < to_ord@.len() && to_ord@[p] == x;
            assert(rv[p].0@ == k);
        }
        assert forall|p: int, q: int| 0 <= p < q < rv.len() implies rv[p].1 >= rv[q].1 by {
            assert(ranks_before(to0, to_ord@[p] as int, to_ord@[q] as int));
        }
        assert forall|p: int, q: int|
            0 <= p < q < rv.len() && rv[p].1 == rv[q].1 implies key_lt(rv[p].0@, rv[q].0@) by {
            assert(ranks_before(to0, to_ord@[p] as int, to_ord@[q] as int));
            assert((to_ord@[p] as int) < (to_ord@[q] as int));
            assert(to_ord@[q] < to0.len());
        }
        assert(receivers_in_order(rv, old_balances@, new_valset@, total));
        assert(msgs@ == greedy_redelegations(gv, rv, supply.bond_denom, rv.len() as int).1);
    }
    proof {
        if distinct_keys(old_balances@) && pair_total(old_balances@) == total && weight_sum(new_valset@)
            <= DECIMAL_FRACTIONAL {
            assert(rebalanced(old_balances@, new_valset@, total, supply.bond_denom@, msgs@, new_balances@));
            law_rebalance_meets_targets(
                old_balances@,
                new_valset@,
                total,
                supply.bond_denom@,
                msgs@,
                new_balances@,
            );
        }
    }
    ValsetChange { messages: msgs, new_balances }
}

} // verus!
