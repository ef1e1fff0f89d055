//! Detecting that validators were slashed, by comparing the delegations the
//! chain reports with the stake the hub recorded, and scaling the recorded
//! stake and the pending unbondings down accordingly.
use vstd::prelude::*;
use crate::decimal::{Decimal, DECIMAL_FRACTIONAL, mul_floor, spec_mul_floor, spec_ratio, lemma_mul_floor_le};
use crate::keys::{keys_sorted, lookup, get_amount, pair_total, pair_amounts, lemma_pair_total_push};
use crate::seqsum::{sum, all_nonneg, lemma_sum_push, lemma_sum_nonneg};
use crate::state::{
    QueueEntry, Unbonding, queue_wf, queue_view, unbonding_total, unbonding_amounts, queue_total,
    entry_totals, lemma_unbonding_total_nonneg, lemma_queue_total_nonneg,
};

verus! {

/// The smallest relative loss of stake that counts as a slashing (0.001%), in
/// decimal atomics.
pub const SLASHING_THRESHOLD: u128 = 10_000_000_000_000u128;

/// A validator with `stored` tokens recorded and `queried` tokens reported was
/// slashed: the loss reaches the threshold share of the recorded stake.
pub open spec fn is_slashed(stored: int, queried: int) -> bool {
    (if stored >= queried {
        stored - queried
    } else {
        0
    }) >= spec_mul_floor(stored, SLASHING_THRESHOLD as int)
}

/// The factor by which validator `v` was slashed, as decimal atomics: taken
/// from the last delegation reported for it that shows a slashing, if any.
pub open spec fn slash_multiplier(
    queried: Seq<(String, u128)>,
    bonded: Seq<(String, u128)>,
    v: Seq<char>,
) -> Option<int>
    decreases queried.len(),
{
    if queried.len() == 0 {
        None
    } else {
        let d = queried.last();
        let stored = lookup(bonded, d.0@);
        if d.0@ == v && is_slashed(stored, d.1 as int) {
            Some(spec_ratio(d.1 as int, stored))
        } else {
            slash_multiplier(queried.drop_last(), bonded, v)
        }
    }
}

/// Some reported delegation shows a slashing.
pub open spec fn any_slashed(queried: Seq<(String, u128)>, bonded: Seq<(String, u128)>) -> bool {
    exists|i: int|
        0 <= i < queried.len() && is_slashed(lookup(bonded, (#[trigger] queried[i]).0@), queried[i].1 as int)
}

/// Every reported delegation that shows a slashing has recorded stake, and its
/// factor fits in a decimal.
pub open spec fn multipliers_defined(queried: Seq<(String, u128)>, bonded: Seq<(String, u128)>) -> bool {
    forall|i: int|
        0 <= i < queried.len() && is_slashed(lookup(bonded, (#[trigger] queried[i]).0@), queried[i].1 as int)
            ==> lookup(bonded, queried[i].0@) != 0 && spec_ratio(
            queried[i].1 as int,
            lookup(bonded, queried[i].0@),
        ) <= u128::MAX
}

/// An amount scaled by a slashing factor, if there is one (rounded down).
pub open spec fn scaled_amount(amount: int, m: Option<int>) -> int {
    match m {
        Some(r) => spec_mul_floor(amount, r),
        None => amount,
    }
}

/// The recorded stake after the slashings.
pub open spec fn scaled_bonded(bonded: Seq<(String, u128)>, queried: Seq<(String, u128)>) -> Seq<
    (String, u128),
> {
    bonded.map_values(
        |p: (String, u128)|
            (p.0, scaled_amount(p.1 as int, slash_multiplier(queried, bonded, p.0@)) as u128),
    )
}

/// Pending unbondings after the slashings.
pub open spec fn scaled_unbondings(
    us: Seq<Unbonding>,
    queried: Seq<(String, u128)>,
    bonded: Seq<(String, u128)>,
) -> Seq<Unbonding> {
    us.map_values(
        |u: Unbonding|
            Unbonding {
                amount: scaled_amount(u.amount as int, slash_multiplier(queried, bonded, u.validator@))
                    as u128,
                validator: u.validator,
            },
    )
}

/// The unbonding queue after the slashings.
pub open spec fn scaled_queue(
    q: Seq<(u64, Seq<Unbonding>)>,
    queried: Seq<(String, u128)>,
    bonded: Seq<(String, u128)>,
) -> Seq<(u64, Seq<Unbonding>)> {
    q.map_values(|e: (u64, Seq<Unbonding>)| (e.0, scaled_unbondings(e.1, queried, bonded)))
}

/// Every scaled stake fits in 128 bits.
pub open spec fn bonded_scaling_fits(bonded: Seq<(String, u128)>, queried: Seq<(String, u128)>) -> bool {
    forall|i: int|
        0 <= i < bonded.len() ==> scaled_amount(
            (#[trigger] bonded[i]).1 as int,
            slash_multiplier(queried, bonded, bonded[i].0@),
        ) <= u128::MAX
}

/// Every scaled unbonding fits in 128 bits.
pub open spec fn queue_scaling_fits(
    q: Seq<(u64, Seq<Unbonding>)>,
    queried: Seq<(String, u128)>,
    bonded: Seq<(String, u128)>,
) -> bool {
    forall|i: int, j: int|
        0 <= i < q.len() && 0 <= j < q[i].1.len() ==> scaled_amount(
            (#[trigger] q[i].1[j]).amount as int,
            slash_multiplier(queried, bonded, q[i].1[j].validator@),
        ) <= u128::MAX
}

/// The total of the unbondings of a queue taken by value.
pub open spec fn view_total(q: Seq<(u64, Seq<Unbonding>)>) -> int {
    sum(q.map_values(|e: (u64, Seq<Unbonding>)| unbonding_total(e.1)))
}

pub proof fn lemma_view_total(q: Seq<QueueEntry>)
    ensures
        view_total(queue_view(q)) == queue_total(q),
{
    assert(queue_view(q).map_values(|e: (u64, Seq<Unbonding>)| unbonding_total(e.1)) =~= entry_totals(q));
}

/// Whether some reported delegation shows a slashing.
pub fn detect_slashing(queried: &Vec<(String, u128)>, bonded: &Vec<(String, u128)>) -> (r: bool)
    requires
        keys_sorted(bonded@),
    ensures
        r == any_slashed(queried@, bonded@),
{
    let mut i: usize = 0;
    while i < queried.len()
        invariant
            i <= queried.len(),
            keys_sorted(bonded@),
            forall|j: int|
                0 <= j < i ==> !is_slashed(lookup(bonded@, (#[trigger] queried@[j]).0@), queried@[j].1 as int),
        decreases queried.len() - i,
    {
        let stored = get_amount(bonded, &queried[i].0);
        let amount = queried[i].1;
        let loss = if stored >= amount {
            stored - amount
        } else {
            0
        };
        proof {
            lemma_mul_floor_le(stored as int, SLASHING_THRESHOLD as int);
        }
        if loss >= mul_floor(stored, Decimal::new(SLASHING_THRESHOLD)) {
            return true;
        }
        i = i + 1;
    }
    false
}

/// The slashing factor of validator `v`, if it was slashed.
pub fn multiplier_of(queried: &Vec<(String, u128)>, bonded: &Vec<(String, u128)>, v: &String) -> (r:
    Option<Decimal>)
    requires
        keys_sorted(bonded@),
        multipliers_defined(queried@, bonded@),
    ensures
        match slash_multiplier(queried@, bonded@, v@) {
            Some(m) => r matches Some(d) && d.atomics == m,
            None => r is None,
        },
{
    let mut i: usize = queried.len();
    proof {
        assert(queried@.take(i as int) =~= queried@);
    }
    while i > 0
        invariant
            i <= queried.len(),
            keys_sorted(bonded@),
            multipliers_defined(queried@, bonded@),
            slash_multiplier(queried@, bonded@, v@) == slash_multiplier(queried@.take(i as int), bonded@, v@),
        decreases i,
    {
        proof {
            assert(queried@.take(i as int).drop_last() =~= queried@.take(i - 1));
            assert(queried@.take(i as int).last() == queried@[i - 1]);
        }
        i = i - 1;
        if queried[i].0 == *v {
            let stored = get_amount(bonded, &queried[i].0);
            let amount = queried[i].1;
            let loss = if stored >= amount {
                stored - amount
            } else {
                0
            };
            proof {
                lemma_mul_floor_le(stored as int, SLASHING_THRESHOLD as int);
            }
            if loss >= mul_floor(stored, Decimal::new(SLASHING_THRESHOLD)) {
                return Some(Decimal::from_ratio(amount, stored));
            }
        }
    }
    proof {
        assert(queried@.take(0) =~= Seq::<(String, u128)>::empty());
    }
    None
}

/// The recorded stake with every slashed validator's stake scaled by its factor.
pub fn scale_bonded(bonded: &Vec<(String, u128)>, queried: &Vec<(String, u128)>) -> (r: Vec<(String, u128)>)
    requires
        keys_sorted(bonded@),
        multipliers_defined(queried@, bonded@),
        bonded_scaling_fits(bonded@, queried@),
    ensures
        r@ == scaled_bonded(bonded@, queried@),
        keys_sorted(r@),
{
    let mut r: Vec<(String, u128)> = Vec::new();
    let mut i: usize = 0;
    while i < bonded.len()
        invariant
            i <= bonded.len(),
            keys_sorted(bonded@),
            multipliers_defined(queried@, bonded@),
            bonded_scaling_fits(bonded@, queried@),
            r@ == scaled_bonded(bonded@, queried@).take(i as int),
        decreases bonded.len() - i,
    {
        let m = multiplier_of(queried, bonded, &bonded[i].0);
        let amount = match m {
            Some(d) => {
                proof {
                    assert(scaled_amount(bonded@[i as int].1 as int, slash_multiplier(queried@, bonded@, bonded@[i as int].0@)) <= u128::MAX);
                }
                mul_floor(bonded[i].1, d)
            },
            None => bonded[i].1,
        };
        r.push((bonded[i].0.clone(), amount));
        proof {
            assert(r@ =~= scaled_bonded(bonded@, queried@).take(i + 1));
        }
        i = i + 1;
    }
    proof {
        assert(scaled_bonded(bonded@, queried@).take(bonded@.len() as int) =~= scaled_bonded(bonded@, queried@));
        assert forall|a: int, b: int| 0 <= a < b < r@.len() implies crate::keys::key_lt(r@[a].0@, r@[b].0@) by {
            assert(r@[a].0 == bonded@[a].0);
            assert(r@[b].0 == bonded@[b].0);
        }
    }
    r
}

/// A list of unbondings with every slashed validator's amount scaled by its factor.
fn scale_unbondings(us: &Vec<Unbonding>, queried: &Vec<(String, u128)>, bonded: &Vec<(String, u128)>) -> (r: Vec<
    Unbonding,
>)
    requires
        keys_sorted(bonded@),
        multipliers_defined(queried@, bonded@),
        forall|j: int|
            0 <= j < us@.len() ==> scaled_amount(
                (#[trigger] us@[j]).amount as int,
                slash_multiplier(queried@, bonded@, us@[j].validator@),
            ) <= u128::MAX,
    ensures
        r@ == scaled_unbondings(us@, queried@, bonded@),
{
    let mut r: Vec<Unbonding> = Vec::new();
    let mut j: usize = 0;
    while j < us.len()
        invariant
            j <= us.len(),
            keys_sorted(bonded@),
            multipliers_defined(queried@, bonded@),
            forall|k: int|
                0 <= k < us@.len() ==> scaled_amount(
                    (#[trigger] us@[k]).amount as int,
                    slash_multiplier(queried@, bonded@, us@[k].validator@),
                ) <= u128::MAX,
            r@ == scaled_unbondings(us@, queried@, bonded@).take(j as int),
        decreases us.len() - j,
    {
        let m = multiplier_of(queried, bonded, &us[j].validator);
        let amount = match m {
            Some(d) => {
                proof {
                    assert(scaled_amount(us@[j as int].amount as int, slash_multiplier(queried@, bonded@, us@[j as int].validator@)) <= u128::MAX);
                }
                mul_floor(us[j].amount, d)
            },
            None => us[j].amount,
        };
        r.push(Unbonding { amount, validator: us[j].validator.clone() });
        proof {
            assert(r@ =~= scaled_unbondings(us@, queried@, bonded@).take(j + 1));
        }
        j = j + 1;
    }
    proof {
        assert(scaled_unbondings(us@, queried@, bonded@).take(us@.len() as int) =~= scaled_unbondings(us@, queried@, bonded@));
    }
    r
}

/// The unbonding queue with every slashed validator's unbondings scaled by its factor.
pub fn scale_queue(queue: &Vec<QueueEntry>, queried: &Vec<(String, u128)>, bonded: &Vec<(String, u128)>) -> (r:
    Vec<QueueEntry>)
    requires
        keys_sorted(bonded@),
        multipliers_defined(queried@, bonded@),
        queue_scaling_fits(queue_view(queue@), queried@, bonded@),
    ensures
        queue_view(r@) == scaled_queue(queue_view(queue@), queried@, bonded@),
        queue_wf(queue@) ==> queue_wf(r@),
{
    let mut r: Vec<QueueEntry> = Vec::new();
    let mut i: usize = 0;
    while i < queue.len()
        invariant
            i <= queue.len(),
            keys_sorted(bonded@),
            multipliers_defined(queried@, bonded@),
            queue_scaling_fits(queue_view(queue@), queried@, bonded@),
            r@.len() == i,
            forall|a: int| 0 <= a < i ==> (#[trigger] r@[a]).0 == queue@[a].0,
            queue_view(r@) == scaled_queue(queue_view(queue@), queried@, bonded@).take(i as int),
        decreases queue.len() - i,
    {
        proof {
            assert forall|j: int| 0 <= j < queue@[i as int].1@.len() implies scaled_amount(
                (#[trigger] queue@[i as int].1@[j]).amount as int,
                slash_multiplier(queried@, bonded@, queue@[i as int].1@[j].validator@),
            ) <= u128::MAX by {
                assert(queue_view(queue@)[i as int].1[j] == queue@[i as int].1@[j]);
            }
        }
        let us = scale_unbondings(&queue[i].1, queried, bonded);
        let ghost before = r@;
        r.push((queue[i].0, us));
        proof {
            assert(queue_view(r@) =~= scaled_queue(queue_view(queue@), queried@, bonded@).take(i + 1)) by {
                assert(queue_view(r@) =~= queue_view(before).push(crate::state::entry_view(r@[i as int])));
            }
        }
        i = i + 1;
    }
    proof {
        assert(scaled_queue(queue_view(queue@), queried@, bonded@).take(queue@.len() as int) =~= scaled_queue(
            queue_view(queue@),
            queried@,
            bonded@,
        ));
    }
    r
}

/// The total amount of all unbondings in the queue.
pub fn queue_amount(queue: &Vec<QueueEntry>) -> (r: u128)
    requires
        queue_total(queue@) <= u128::MAX,
    ensures
        r == queue_total(queue@),
{
    let mut acc: u128 = 0;
    let mut i: usize = 0;
    proof {
        lemma_queue_total_nonneg(queue@);
    }
    while i < queue.len()
        invariant
            i <= queue.len(),
            all_nonneg(entry_totals(queue@)),
            queue_total(queue@) <= u128::MAX,
            acc == sum(entry_totals(queue@).take(i as int)),
        decreases queue.len() - i,
    {
        proof {
            crate::seqsum::lemma_sum_take_step(entry_totals(queue@), i as int);
            crate::seqsum::lemma_sum_prefix_le(entry_totals(queue@), i + 1);
            crate::rewards::lemma_entry_le_sum(entry_totals(queue@), i as int);
        }
        let t = crate::state::unbonding_sum(&queue[i].1);
        acc = acc + t;
        i = i + 1;
    }
    proof {
        crate::seqsum::lemma_sum_take_all(entry_totals(queue@));
    }
    acc
}

} // verus!
