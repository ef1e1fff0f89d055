//! Sharing a surplus of native tokens out to the validators by weight, and
//! taking a shortfall back from them, as the hub does once it has collected
//! its staking rewards.
use vstd::prelude::*;
use crate::decimal::{Decimal, mul_floor, spec_mul_floor};
use crate::keys::{keys_sorted, lookup, has_key, set_amount, get_amount, pair_total, lemma_lookup_le_total};
use crate::msg::{Coin, StakingMsg, HubMsg};
use crate::seqsum::{
    sum, all_nonneg, lemma_sum_nonneg, lemma_sum_take_step, lemma_sum_take_all, lemma_sum_prefix_le,
    lemma_sum_update,
};
use crate::state::{Unbonding, unbonding_total, unbonding_amounts};
use crate::valset::targets_fit;

verus! {

/// A list of amounts as integers.
pub open spec fn ints(v: Seq<u128>) -> Seq<int> {
    v.map_values(|x: u128| x as int)
}

/// Each validator's share of `amount` by its weight, rounded down.
pub open spec fn weighted_shares(vs: Seq<(String, Decimal)>, amount: int) -> Seq<int> {
    vs.map_values(|v: (String, Decimal)| spec_mul_floor(amount, v.1.atomics as int))
}

/// An entry of a list of non-negative numbers is at most their sum.
pub proof fn lemma_entry_le_sum(s: Seq<int>, i: int)
    requires
        all_nonneg(s),
        0 <= i < s.len(),
    ensures
        0 <= s[i] <= sum(s),
{
    lemma_sum_update(s, i, 0);
    assert(all_nonneg(s.update(i, 0)));
    lemma_sum_nonneg(s.update(i, 0));
}

/// Splits `amount` over the validators by weight, rounding each share down.
pub fn split_by_weight(vs: &Vec<(String, Decimal)>, amount: u128) -> (r: Vec<u128>)
    requires
        targets_fit(vs@, amount),
    ensures
        ints(r@) == weighted_shares(vs@, amount as int),
{
    let mut r: Vec<u128> = Vec::new();
    let mut i: usize = 0;
    while i < vs.len()
        invariant
            i <= vs.len(),
            targets_fit(vs@, amount),
            ints(r@) == weighted_shares(vs@, amount as int).take(i as int),
        decreases vs.len() - i,
    {
        let share = mul_floor(amount, vs[i].1);
        let ghost before = r@;
        r.push(share);
        proof {
            assert(r@ == before.push(share));
            assert(weighted_shares(vs@, amount as int)[i as int] == share);
            assert(ints(r@) =~= ints(before).push(share as int));
            assert(weighted_shares(vs@, amount as int).take(i + 1) =~= weighted_shares(
                vs@,
                amount as int,
            ).take(i as int).push(share as int));
        }
        i = i + 1;
    }
    proof {
        assert(weighted_shares(vs@, amount as int).take(vs@.len() as int) =~= weighted_shares(
            vs@,
            amount as int,
        ));
    }
    r
}

/// The sum of a list of amounts.
pub fn sum_amounts(v: &Vec<u128>) -> (r: u128)
    requires
        sum(ints(v@)) <= u128::MAX,
    ensures
        r == sum(ints(v@)),
{
    let mut acc: u128 = 0;
    let mut i: usize = 0;
    proof {
        assert(all_nonneg(ints(v@)));
    }
    while i < v.len()
        invariant
            i <= v.len(),
            all_nonneg(ints(v@)),
            sum(ints(v@)) <= u128::MAX,
            acc == sum(ints(v@).take(i as int)),
        decreases v.len() - i,
    {
        proof {
            lemma_sum_take_step(ints(v@), i as int);
            lemma_sum_prefix_le(ints(v@), i + 1);
        }
        acc = acc + v[i];
        i = i + 1;
    }
    proof {
        lemma_sum_take_all(ints(v@));
    }
    acc
}

/// The delegations of a surplus: every validator's weighted share, with what
/// the rounding left over added to the first validator's.
pub open spec fn delegation_amounts(vs: Seq<(String, Decimal)>, surplus: int) -> Seq<int> {
    let s = weighted_shares(vs, surplus);
    s.update(0, s[0] + (surplus - sum(s)))
}

/// A surplus can be shared out: there is a first validator, every share fits
/// in 128 bits, and the shares together do not exceed the surplus.
pub open spec fn delegation_defined(vs: Seq<(String, Decimal)>, surplus: u128) -> bool {
    &&& vs.len() > 0
    &&& targets_fit(vs, surplus)
    &&& sum(weighted_shares(vs, surplus as int)) <= surplus
}

/// The delegations of a surplus add up to exactly the surplus.
pub proof fn lemma_delegation_sum(vs: Seq<(String, Decimal)>, surplus: int)
    requires
        vs.len() > 0,
    ensures
        delegation_amounts(vs, surplus).len() == vs.len(),
        sum(delegation_amounts(vs, surplus)) == surplus,
{
    let s = weighted_shares(vs, surplus);
    lemma_sum_update(s, 0, s[0] + (surplus - sum(s)));
}

/// Shares out a surplus by weight; the first validator also gets what the
/// rounding left over.
pub fn delegation_split(vs: &Vec<(String, Decimal)>, surplus: u128) -> (r: Vec<u128>)
    requires
        delegation_defined(vs@, surplus),
    ensures
        r@.len() == vs@.len(),
        ints(r@) == delegation_amounts(vs@, surplus as int),
{
    let mut pays = split_by_weight(vs, surplus);
    proof {
        assert(all_nonneg(ints(pays@)));
        lemma_entry_le_sum(ints(pays@), 0);
    }
    let total = sum_amounts(&pays);
    let remainder = surplus - total;
    let first = pays[0] + remainder;
    pays.set(0, first);
    proof {
        assert(ints(pays@) =~= delegation_amounts(vs@, surplus as int));
    }
    pays
}

/// One step of spreading a remainder: while some is left, validator `i` takes
/// as much of it on top of its amount as its bonded stake allows.
pub open spec fn spread_step(
    vs: Seq<(String, Decimal)>,
    bonded: Seq<(String, u128)>,
    st: (Seq<int>, int),
    i: int,
) -> (Seq<int>, int) {
    if st.1 == 0 {
        st
    } else {
        let a = st.0[i];
        let b = lookup(bonded, vs[i].0@);
        let taken = if a + st.1 <= b {
            a + st.1
        } else {
            b
        };
        (st.0.update(i, taken), st.1 - (taken - a))
    }
}

/// The amounts and the remainder after the first `n` validators took their part of it.
pub open spec fn spread_upto(
    vs: Seq<(String, Decimal)>,
    bonded: Seq<(String, u128)>,
    pays: Seq<int>,
    rem: int,
    n: int,
) -> (Seq<int>, int)
    decreases n,
{
    if n <= 0 {
        (pays, rem)
    } else {
        spread_step(vs, bonded, spread_upto(vs, bonded, pays, rem, n - 1), n - 1)
    }
}

/// Every validator asked to take part of the remainder holds stake, at least
/// its own amount.
pub open spec fn spread_defined(
    vs: Seq<(String, Decimal)>,
    bonded: Seq<(String, u128)>,
    pays: Seq<int>,
    rem: int,
) -> bool {
    forall|i: int|
        0 <= i < vs.len() && (#[trigger] spread_upto(vs, bonded, pays, rem, i)).1 != 0 ==> has_key(
            bonded,
            vs[i].0@,
        ) && lookup(bonded, vs[i].0@) >= pays[i]
}

/// The undelegations of a shortfall: every validator's weighted share; what
/// the rounding left over is taken from the first validators that have the
/// stake for it, in order.
pub open spec fn undelegation_amounts(
    vs: Seq<(String, Decimal)>,
    missing: int,
    bonded: Seq<(String, u128)>,
) -> Seq<int> {
    let s = weighted_shares(vs, missing);
    spread_upto(vs, bonded, s, missing - sum(s), vs.len() as int).0
}

/// A shortfall can be split: every share fits in 128 bits, the shares do not
/// exceed the shortfall, and the remainder is only asked of validators with
/// enough stake.
pub open spec fn undelegation_defined(
    vs: Seq<(String, Decimal)>,
    missing: u128,
    bonded: Seq<(String, u128)>,
) -> bool {
    let s = weighted_shares(vs, missing as int);
    &&& targets_fit(vs, missing)
    &&& sum(s) <= missing
    &&& spread_defined(vs, bonded, s, missing - sum(s))
}

/// Splits a shortfall over the validators by weight, and spreads what the
/// rounding left over on the first validators that have the stake for it.
pub fn undelegation_split(vs: &Vec<(String, Decimal)>, missing: u128, bonded: &Vec<(String, u128)>) -> (r:
    Vec<u128>)
    requires
        keys_sorted(bonded@),
        undelegation_defined(vs@, missing, bonded@),
    ensures
        r@.len() == vs@.len(),
        ints(r@) == undelegation_amounts(vs@, missing as int, bonded@),
        sum(ints(r@)) <= missing,
{
    let mut pays = split_by_weight(vs, missing);
    let ghost s0 = ints(pays@);
    proof {
        assert(all_nonneg(ints(pays@)));
    }
    let total = sum_amounts(&pays);
    let mut rem = missing - total;
    let ghost rem0 = rem as int;
    let mut i: usize = 0;
    while i < vs.len()
        invariant
            i <= vs.len(),
            pays@.len() == vs@.len(),
            s0 == weighted_shares(vs@, missing as int),
            rem0 == missing - sum(s0),
            keys_sorted(bonded@),
            spread_defined(vs@, bonded@, s0, rem0),
            ints(pays@) == spread_upto(vs@, bonded@, s0, rem0, i as int).0,
            rem == spread_upto(vs@, bonded@, s0, rem0, i as int).1,
            forall|j: int| i <= j < vs@.len() ==> pays@[j] == s0[j],
            sum(ints(pays@)) + rem == missing,
        decreases vs.len() - i,
    {
        if rem != 0 {
            let a = pays[i];
            let b = get_amount(bonded, &vs[i].0);
            proof {
                assert(all_nonneg(ints(pays@)));
                lemma_entry_le_sum(ints(pays@), i as int);
                assert(b >= a);
            }
            let taken = if a + rem <= b {
                a + rem
            } else {
                b
            };
            let ghost before = ints(pays@);
            rem = rem - (taken - a);
            pays.set(i, taken);
            proof {
                assert(ints(pays@) =~= before.update(i as int, taken as int));
                lemma_sum_update(before, i as int, taken as int);
            }
        }
        i = i + 1;
    }
    pays
}

/// The total of the amounts that the first `n` validators of the list assign
/// to validator `k` (a validator listed twice gets both).
pub open spec fn amount_for(vs: Seq<(String, Decimal)>, amounts: Seq<int>, k: Seq<char>, n: int) -> int
    decreases n,
{
    if n <= 0 {
        0
    } else {
        amount_for(vs, amounts, k, n - 1) + if vs[n - 1].0@ == k {
            amounts[n - 1]
        } else {
            0
        }
    }
}

proof fn lemma_amount_for_mono(vs: Seq<(String, Decimal)>, amounts: Seq<int>, k: Seq<char>, i: int, n: int)
    requires
        all_nonneg(amounts),
        0 <= i <= n <= amounts.len(),
    ensures
        0 <= amount_for(vs, amounts, k, i) <= amount_for(vs, amounts, k, n),
    decreases n,
{
    if n > i {
        lemma_amount_for_mono(vs, amounts, k, i, n - 1);
    } else if n > 0 {
        lemma_amount_for_mono(vs, amounts, k, n - 1, n - 1);
    }
}

/// Adds each amount to the stake of its validator.
pub fn credit_validators(bonded: &mut Vec<(String, u128)>, vs: &Vec<(String, Decimal)>, amounts: &Vec<u128>)
    requires
        keys_sorted(old(bonded)@),
        amounts@.len() == vs@.len(),
        pair_total(old(bonded)@) + sum(ints(amounts@)) <= u128::MAX,
    ensures
        keys_sorted(final(bonded)@),
        forall|k: Seq<char>|
            #[trigger] lookup(final(bonded)@, k) == lookup(old(bonded)@, k) + amount_for(
                vs@,
                ints(amounts@),
                k,
                vs@.len() as int,
            ),
        pair_total(final(bonded)@) == pair_total(old(bonded)@) + sum(ints(amounts@)),
{
    let ghost b0 = bonded@;
    let mut i: usize = 0;
    proof {
        assert(all_nonneg(ints(amounts@)));
    }
    while i < vs.len()
        invariant
            i <= vs.len(),
            amounts@.len() == vs@.len(),
            all_nonneg(ints(amounts@)),
            keys_sorted(bonded@),
            pair_total(b0) + sum(ints(amounts@)) <= u128::MAX,
            forall|k: Seq<char>|
                #[trigger] lookup(bonded@, k) == lookup(b0, k) + amount_for(vs@, ints(amounts@), k, i as int),
            pair_total(bonded@) == pair_total(b0) + sum(ints(amounts@).take(i as int)),
        decreases vs.len() - i,
    {
        let cur = get_amount(bonded, &vs[i].0);
        proof {
            lemma_lookup_le_total(bonded@, vs@[i as int].0@);
            lemma_sum_take_step(ints(amounts@), i as int);
            lemma_sum_prefix_le(ints(amounts@), i + 1);
        }
        let ghost before = bonded@;
        set_amount(bonded, vs[i].0.clone(), cur + amounts[i]);
        proof {
            assert forall|k: Seq<char>|
                #[trigger] lookup(bonded@, k) == lookup(b0, k) + amount_for(vs@, ints(amounts@), k, i + 1) by {
                assert(lookup(bonded@, k) == if k == vs@[i as int].0@ {
                    (cur + amounts@[i as int]) as int
                } else {
                    lookup(before, k)
                });
            }
        }
        i = i + 1;
    }
    proof {
        lemma_sum_take_all(ints(amounts@));
    }
}

/// Every validator of the list holds stake, at least as much as the amounts
/// taken from it.
pub open spec fn debit_defined(vs: Seq<(String, Decimal)>, amounts: Seq<int>, bonded: Seq<(String, u128)>) -> bool {
    forall|i: int|
        0 <= i < vs.len() ==> has_key(bonded, (#[trigger] vs[i]).0@) && lookup(bonded, vs[i].0@)
            >= amount_for(vs, amounts, vs[i].0@, vs.len() as int)
}

/// Takes each amount from the stake of its validator.
pub fn debit_validators(bonded: &mut Vec<(String, u128)>, vs: &Vec<(String, Decimal)>, amounts: &Vec<u128>)
    requires
        keys_sorted(old(bonded)@),
        amounts@.len() == vs@.len(),
        debit_defined(vs@, ints(amounts@), old(bonded)@),
    ensures
        keys_sorted(final(bonded)@),
        forall|k: Seq<char>|
            #[trigger] lookup(final(bonded)@, k) == lookup(old(bonded)@, k) - amount_for(
                vs@,
                ints(amounts@),
                k,
                vs@.len() as int,
            ),
        pair_total(final(bonded)@) == pair_total(old(bonded)@) - sum(ints(amounts@)),
{
    let ghost b0 = bonded@;
    let mut i: usize = 0;
    proof {
        assert(all_nonneg(ints(amounts@)));
    }
    while i < vs.len()
        invariant
            i <= vs.len(),
            amounts@.len() == vs@.len(),
            all_nonneg(ints(amounts@)),
            keys_sorted(bonded@),
            debit_defined(vs@, ints(amounts@), b0),
            forall|k: Seq<char>|
                #[trigger] lookup(bonded@, k) == lookup(b0, k) - amount_for(vs@, ints(amounts@), k, i as int),
            pair_total(bonded@) == pair_total(b0) - sum(ints(amounts@).take(i as int)),
        decreases vs.len() - i,
    {
        let cur = get_amount(bonded, &vs[i].0);
        proof {
            let k = vs@[i as int].0@;
            assert(has_key(b0, k) && lookup(b0, k) >= amount_for(vs@, ints(amounts@), k, vs@.len() as int));
            lemma_amount_for_mono(vs@, ints(amounts@), k, i + 1, vs@.len() as int);
            assert(amount_for(vs@, ints(amounts@), k, i + 1) == amount_for(vs@, ints(amounts@), k, i as int)
                + amounts@[i as int]);
            lemma_sum_take_step(ints(amounts@), i as int);
        }
        let ghost before = bonded@;
        set_amount(bonded, vs[i].0.clone(), cur - amounts[i]);
        proof {
            assert forall|k: Seq<char>|
                #[trigger] lookup(bonded@, k) == lookup(b0, k) - amount_for(vs@, ints(amounts@), k, i + 1) by {
                assert(lookup(bonded@, k) == if k == vs@[i as int].0@ {
                    (cur - amounts@[i as int]) as int
                } else {
                    lookup(before, k)
                });
            }
        }
        i = i + 1;
    }
    proof {
        lemma_sum_take_all(ints(amounts@));
    }
}

/// The staking messages for the nonzero amounts of the first `n` validators,
/// in the order of the list: undelegations or delegations of `denom`.
pub open spec fn stake_msgs(
    vs: Seq<(String, Decimal)>,
    amounts: Seq<int>,
    denom: String,
    undelegate: bool,
    n: int,
) -> Seq<HubMsg>
    decreases n,
{
    if n <= 0 {
        Seq::empty()
    } else {
        let prev = stake_msgs(vs, amounts, denom, undelegate, n - 1);
        if amounts[n - 1] == 0 {
            prev
        } else {
            let coin = Coin { denom, amount: amounts[n - 1] as u128 };
            prev.push(
                HubMsg::Staking(
                    if undelegate {
                        StakingMsg::Undelegate { validator: vs[n - 1].0, amount: coin }
                    } else {
                        StakingMsg::Delegate { validator: vs[n - 1].0, amount: coin }
                    },
                ),
            )
        }
    }
}

/// The delegations (or undelegations) of the nonzero amounts, in order.
pub fn staking_messages(
    vs: &Vec<(String, Decimal)>,
    amounts: &Vec<u128>,
    denom: &String,
    undelegate: bool,
) -> (r: Vec<HubMsg>)
    requires
        amounts@.len() == vs@.len(),
    ensures
        r@ == stake_msgs(vs@, ints(amounts@), *denom, undelegate, vs@.len() as int),
{
    let mut r: Vec<HubMsg> = Vec::new();
    let mut i: usize = 0;
    while i < vs.len()
        invariant
            i <= vs.len(),
            amounts@.len() == vs@.len(),
            r@ == stake_msgs(vs@, ints(amounts@), *denom, undelegate, i as int),
        decreases vs.len() - i,
    {
        if amounts[i] != 0 {
            let coin = Coin { denom: denom.clone(), amount: amounts[i] };
            let validator = vs[i].0.clone();
            let m = if undelegate {
                StakingMsg::Undelegate { validator, amount: coin }
            } else {
                StakingMsg::Delegate { validator, amount: coin }
            };
            r.push(HubMsg::Staking(m));
        }
        i = i + 1;
    }
    r
}

/// The unbondings for the nonzero amounts of the first `n` validators, in order.
pub open spec fn unbonding_list(vs: Seq<(String, Decimal)>, amounts: Seq<int>, n: int) -> Seq<Unbonding>
    decreases n,
{
    if n <= 0 {
        Seq::empty()
    } else {
        let prev = unbonding_list(vs, amounts, n - 1);
        if amounts[n - 1] == 0 {
            prev
        } else {
            prev.push(Unbonding { amount: amounts[n - 1] as u128, validator: vs[n - 1].0 })
        }
    }
}

/// The unbondings together hold all of the amounts.
pub proof fn lemma_unbonding_list_total(vs: Seq<(String, Decimal)>, amounts: Seq<int>, n: int)
    requires
        0 <= n <= amounts.len(),
        forall|i: int| 0 <= i < amounts.len() ==> 0 <= #[trigger] amounts[i] <= u128::MAX,
    ensures
        unbonding_total(unbonding_list(vs, amounts, n)) == sum(amounts.take(n)),
    decreases n,
{
    if n > 0 {
        lemma_unbonding_list_total(vs, amounts, n - 1);
        lemma_sum_take_step(amounts, n - 1);
        let prev = unbonding_list(vs, amounts, n - 1);
        if amounts[n - 1] != 0 {
            let u = Unbonding { amount: amounts[n - 1] as u128, validator: vs[n - 1].0 };
            assert(unbonding_amounts(prev.push(u)) =~= unbonding_amounts(prev).push(u.amount as int));
            crate::seqsum::lemma_sum_push(unbonding_amounts(prev), u.amount as int);
        }
    } else {
        assert(amounts.take(n) =~= Seq::<int>::empty());
    }
}

/// The unbondings of the nonzero amounts, in order.
pub fn unbondings_for(vs: &Vec<(String, Decimal)>, amounts: &Vec<u128>) -> (r: Vec<Unbonding>)
    requires
        amounts@.len() == vs@.len(),
    ensures
        r@ == unbonding_list(vs@, ints(amounts@), vs@.len() as int),
{
    let mut r: Vec<Unbonding> = Vec::new();
    let mut i: usize = 0;
    while i < vs.len()
        invariant
            i <= vs.len(),
            amounts@.len() == vs@.len(),
            r@ == unbonding_list(vs@, ints(amounts@), i as int),
        decreases vs.len() - i,
    {
        if amounts[i] != 0 {
            r.push(Unbonding { amount: amounts[i], validator: vs[i].0.clone() });
        }
        i = i + 1;
    }
    r
}

} // verus!
