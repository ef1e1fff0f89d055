//! State of the LSD hub: its configuration and epoch clock, the token supply
//! and the exchange rate derived from it, the queue of pending unbondings and
//! the claims of users who unbonded.
use vstd::prelude::*;
use crate::decimal::{Decimal, DECIMAL_FRACTIONAL, mul_floor, spec_mul_floor, spec_ratio};
use crate::error::{ContractError, OverflowError};
use crate::seqsum::{sum, all_nonneg, lemma_sum_push, lemma_sum_take_step, lemma_sum_take_all, lemma_sum_prefix_le, lemma_sum_nonneg};

verus! {

/// Number of nanoseconds in a second.
pub const NANOS_PER_SECOND: u64 = 1_000_000_000u64;

/// Configuration of the hub.
#[derive(Debug, Clone, PartialEq, Eq)]
pub struct Config {
    /// Owner of the contract, is allowed to set the validator set
    pub owner: String,
    pub token_contract: String,
    /// The address that receives the commission
    pub treasury: String,
    /// The proportion of the staking rewards that goes to the treasury
    pub commission: Decimal,
    /// The frequency in which reinvest can be called
    pub epoch_period: u64,
    /// The staking module's unbonding time, in seconds
    pub unbond_period: u64,
    /// The maximum number of unbonding queue entries per validator at any time
    pub max_concurrent_unbondings: u64,
    /// The next time (in seconds) at which `reinvest` can be called
    pub next_epoch: u64,
    /// The next time (in seconds) at which unbondings can take place in `reinvest`
    pub next_unbond: u64,
    /// The minimum relative difference between stored and queried delegations to consider a validator tombstoned.
    pub tombstone_treshold: Decimal,
    /// The safety margin (in seconds) around unbondings where slashing detection is refused.
    pub slashing_safety_margin: u64,
    /// The discount applied to the underlying value of the staking token in the target value.
    pub liquidity_discount: Decimal,
}

/// The first time of the form `next + k * period` (k >= 1) that lies after `now`,
/// for `now >= next`.
pub open spec fn spec_next_after(next: int, period: int, now: int) -> int {
    next + ((now - next) / period + 1) * period
}

/// The advanced epoch lies strictly after `now`, at most one period after it,
/// and keeps the rhythm of the old epoch.
pub proof fn lemma_next_after(next: int, period: int, now: int)
    requires
        period > 0,
        now >= next,
    ensures
        now < spec_next_after(next, period, now) <= now + period,
        (spec_next_after(next, period, now) - next) % period == 0,
        spec_next_after(next, period, now) > next,
{
    let k = (now - next) / period;
    let r = (now - next) % period;
    assert(k * period + r == now - next && 0 <= r < period && k >= 0) by (nonlinear_arith)
        requires
            k == (now - next) / period,
            r == (now - next) % period,
            period > 0,
            now - next >= 0,
    ;
    assert((k + 1) * period == k * period + period) by (nonlinear_arith);
    assert(((k + 1) * period) % period == 0) by (nonlinear_arith)
        requires
            period > 0,
            k >= 0,
    ;
}

impl Config {
    /// A copy of this configuration.
    pub fn duplicate(&self) -> (r: Config)
        ensures
            r == *self,
    {
        Config {
            owner: self.owner.clone(),
            token_contract: self.token_contract.clone(),
            treasury: self.treasury.clone(),
            commission: self.commission,
            epoch_period: self.epoch_period,
            unbond_period: self.unbond_period,
            max_concurrent_unbondings: self.max_concurrent_unbondings,
            next_epoch: self.next_epoch,
            next_unbond: self.next_unbond,
            tombstone_treshold: self.tombstone_treshold,
            slashing_safety_margin: self.slashing_safety_margin,
            liquidity_discount: self.liquidity_discount,
        }
    }

    /// Progresses to the next reinvest epoch after the given time (seconds) and returns it.
    /// Fails if the epoch has not been reached yet.
    pub fn next_epoch_after(&mut self, now: u64) -> (r: Result<u64, ContractError>)
        requires
            now >= old(self).next_epoch ==> old(self).epoch_period > 0,
            now >= old(self).next_epoch ==> spec_next_after(
                old(self).next_epoch as int,
                old(self).epoch_period as int,
                now as int,
            ) <= u64::MAX,
        ensures
            now < old(self).next_epoch ==> r == Err::<u64, ContractError>(
                ContractError::EpochNotReached { next_epoch: old(self).next_epoch },
            ) && *final(self) == *old(self),
            now >= old(self).next_epoch ==> {
                &&& final(self).next_epoch == spec_next_after(
                    old(self).next_epoch as int,
                    old(self).epoch_period as int,
                    now as int,
                )
                &&& r == Ok::<u64, ContractError>(final(self).next_epoch)
                &&& *final(self) == (Config { next_epoch: final(self).next_epoch, ..*old(self) })
                &&& now < final(self).next_epoch <= now + old(self).epoch_period
                &&& (final(self).next_epoch - old(self).next_epoch) % (old(self).epoch_period as int) == 0
            },
    {
        if now < self.next_epoch {
            Err(ContractError::EpochNotReached { next_epoch: self.next_epoch })
        } else {
            proof {
                lemma_next_after(self.next_epoch as int, self.epoch_period as int, now as int);
            }
            let epochs_until_then = (now - self.next_epoch) / self.epoch_period;
            assert((epochs_until_then + 1) * self.epoch_period <= u64::MAX) by (nonlinear_arith)
                requires
                    self.next_epoch + (epochs_until_then + 1) * self.epoch_period <= u64::MAX,
                    self.next_epoch >= 0,
            ;
            self.next_epoch = self.next_epoch + (epochs_until_then + 1) * self.epoch_period;
            Ok(self.next_epoch)
        }
    }

    /// The length of an unbonding epoch: the unbonding period split into
    /// `max_concurrent_unbondings` parts, rounded up.
    pub fn unbond_epoch(&self) -> (r: u64)
        requires
            self.max_concurrent_unbondings > 0,
        ensures
            r == spec_div_ceil(self.unbond_period as int, self.max_concurrent_unbondings as int),
    {
        div_ceil(self.unbond_period, self.max_concurrent_unbondings)
    }

    /// Progresses to the next unbonding epoch after the given time (seconds) and returns it.
    /// Fails if the epoch has not been reached yet.
    pub fn next_unbond_after(&mut self, now: u64) -> (r: Result<u64, ContractError>)
        requires
            now >= old(self).next_unbond ==> old(self).max_concurrent_unbondings > 0,
            now >= old(self).next_unbond ==> spec_div_ceil(
                old(self).unbond_period as int,
                old(self).max_concurrent_unbondings as int,
            ) > 0,
            now >= old(self).next_unbond ==> spec_next_after(
                old(self).next_unbond as int,
                spec_div_ceil(old(self).unbond_period as int, old(self).max_concurrent_unbondings as int),
                now as int,
            ) <= u64::MAX,
        ensures
            now < old(self).next_unbond ==> r == Err::<u64, ContractError>(
                ContractError::EpochNotReached { next_epoch: old(self).next_unbond },
            ) && *final(self) == *old(self),
            now >= old(self).next_unbond ==> {
                &&& final(self).next_unbond == spec_next_after(
                    old(self).next_unbond as int,
                    spec_div_ceil(old(self).unbond_period as int, old(self).max_concurrent_unbondings as int),
                    now as int,
                )
                &&& r == Ok::<u64, ContractError>(final(self).next_unbond)
                &&& *final(self) == (Config { next_unbond: final(self).next_unbond, ..*old(self) })
                &&& now < final(self).next_unbond <= now + spec_div_ceil(
                    old(self).unbond_period as int,
                    old(self).max_concurrent_unbondings as int,
                )
                &&& (final(self).next_unbond - old(self).next_unbond) % spec_div_ceil(
                    old(self).unbond_period as int,
                    old(self).max_concurrent_unbondings as int,
                ) == 0
            },
    {
        if now < self.next_unbond {
            Err(ContractError::EpochNotReached { next_epoch: self.next_unbond })
        } else {
            let epoch_period = self.unbond_epoch();
            proof {
                lemma_next_after(self.next_unbond as int, epoch_period as int, now as int);
            }
            let epochs_until_then = (now - self.next_unbond) / epoch_period;
            assert((epochs_until_then + 1) * epoch_period <= u64::MAX) by (nonlinear_arith)
                requires
                    self.next_unbond + (epochs_until_then + 1) * epoch_period <= u64::MAX,
                    self.next_unbond >= 0,
            ;
            self.next_unbond = self.next_unbond + (epochs_until_then + 1) * epoch_period;
            Ok(self.next_unbond)
        }
    }
}

/// The quotient `numerator / denominator` rounded up.
pub open spec fn spec_div_ceil(numerator: int, denominator: int) -> int {
    if numerator % denominator > 0 {
        numerator / denominator + 1
    } else {
        numerator / denominator
    }
}

/// Divides `numerator` by `denominator` and rounds up the result.
pub fn div_ceil(numerator: u64, denominator: u64) -> (r: u64)
    requires
        denominator != 0,
    ensures
        r == spec_div_ceil(numerator as int, denominator as int),
        r * denominator >= numerator,
        r == 0 || (r - 1) * denominator < numerator,
{
    let d = numerator / denominator;
    let r = numerator % denominator;
    proof {
        assert(d * denominator + r == numerator && 0 <= r < denominator) by (nonlinear_arith)
            requires
                d == numerator / denominator,
                r == numerator % denominator,
                denominator != 0,
        ;
    }
    if r > 0 {
        assert(d < numerator) by (nonlinear_arith)
            requires
                d * denominator + r == numerator,
                r > 0,
                denominator >= 1,
                d >= 0,
        ;
        let res = d + 1;
        assert(res * denominator >= numerator && (res - 1) * denominator < numerator)
            by (nonlinear_arith)
            requires
                d * denominator + r == numerator,
                0 < r < denominator,
                res == d + 1,
        ;
        res
    } else {
        assert(d * denominator >= numerator && (d == 0 || (d - 1) * denominator < numerator))
            by (nonlinear_arith)
            requires
                d * denominator + r == numerator,
                r == 0,
                denominator >= 1,
                d >= 0,
        ;
        d
    }
}


/// The validators all tokens are bonded to, with their weights.
#[derive(Debug, Clone, PartialEq, Eq)]
pub struct StakeInfo {
    pub validators: Vec<(String, Decimal)>,
}

/// A pending unbonding of `amount` tokens from `validator`.
#[derive(Debug, Clone, PartialEq, Eq)]
pub struct Unbonding {
    /// The amount of tokens we are unbonding
    pub amount: u128,
    /// The validator we are unbonding from
    pub validator: String,
}

impl Unbonding {
    /// A copy of this unbonding.
    pub fn duplicate(&self) -> (r: Unbonding)
        ensures
            r == *self,
    {
        Unbonding { amount: self.amount, validator: self.validator.clone() }
    }
}

/// The amounts of a list of unbondings.
pub open spec fn unbonding_amounts(s: Seq<Unbonding>) -> Seq<int> {
    s.map_values(|u: Unbonding| u.amount as int)
}

/// The total amount of a list of unbondings.
pub open spec fn unbonding_total(s: Seq<Unbonding>) -> int {
    sum(unbonding_amounts(s))
}

/// An entry of the unbonding queue: the time (seconds) at which the unbondings
/// complete, and the unbondings.
pub type QueueEntry = (u64, Vec<Unbonding>);

/// The keys of the queue are strictly ascending (as in the storage map it models).
pub open spec fn queue_wf(q: Seq<QueueEntry>) -> bool {
    forall|i: int, j: int| 0 <= i < j < q.len() ==> q[i].0 < q[j].0
}

/// The total of each entry of the queue.
pub open spec fn entry_totals(q: Seq<QueueEntry>) -> Seq<int> {
    q.map_values(|e: QueueEntry| unbonding_total(e.1@))
}

/// The total amount of all unbondings in the queue.
pub open spec fn queue_total(q: Seq<QueueEntry>) -> int {
    sum(entry_totals(q))
}

/// The entries that complete at or before `now`.
pub open spec fn mature_entries(q: Seq<QueueEntry>, now: u64) -> Seq<QueueEntry> {
    q.filter(|e: QueueEntry| e.0 <= now)
}

/// The entries that complete after `now`.
pub open spec fn pending_entries(q: Seq<QueueEntry>, now: u64) -> Seq<QueueEntry> {
    q.filter(|e: QueueEntry| e.0 > now)
}

pub proof fn lemma_unbonding_total_nonneg(s: Seq<Unbonding>)
    ensures
        all_nonneg(unbonding_amounts(s)),
        unbonding_total(s) >= 0,
{
    lemma_sum_nonneg(unbonding_amounts(s));
}

pub proof fn lemma_queue_total_nonneg(q: Seq<QueueEntry>)
    ensures
        all_nonneg(entry_totals(q)),
        queue_total(q) >= 0,
{
    assert forall|i: int| 0 <= i < entry_totals(q).len() implies entry_totals(q)[i] >= 0 by {
        lemma_unbonding_total_nonneg(q[i].1@);
    }
    lemma_sum_nonneg(entry_totals(q));
}

pub proof fn lemma_queue_total_push(q: Seq<QueueEntry>, e: QueueEntry)
    ensures
        queue_total(q.push(e)) == queue_total(q) + unbonding_total(e.1@),
{
    assert(entry_totals(q.push(e)) =~= entry_totals(q).push(unbonding_total(e.1@)));
    lemma_sum_push(entry_totals(q), unbonding_total(e.1@));
}

pub proof fn lemma_queue_total_concat(a: Seq<QueueEntry>, b: Seq<QueueEntry>)
    ensures
        queue_total(a + b) == queue_total(a) + queue_total(b),
{
    assert(entry_totals(a + b) =~= entry_totals(a) + entry_totals(b));
    crate::seqsum::lemma_sum_concat(entry_totals(a), entry_totals(b));
}

/// Every key of the queue lies below `bound`.
pub open spec fn keys_before(q: Seq<QueueEntry>, bound: int) -> bool {
    forall|i: int| 0 <= i < q.len() ==> q[i].0 < bound
}

/// The queue's total splits into that of its mature and that of its pending entries.
pub proof fn lemma_queue_total_split(q: Seq<QueueEntry>, now: u64)
    ensures
        queue_total(q) == queue_total(mature_entries(q, now)) + queue_total(pending_entries(q, now)),
    decreases q.len(),
{
    if q.len() == 0 {
        reveal_with_fuel(Seq::filter, 1);
        assert(mature_entries(q, now) =~= q);
        assert(pending_entries(q, now) =~= q);
    } else {
        let d = q.drop_last();
        let e = q.last();
        lemma_queue_total_split(d, now);
        assert(q =~= d.push(e));
        d.lemma_filter_push(e, |x: QueueEntry| x.0 <= now);
        d.lemma_filter_push(e, |x: QueueEntry| x.0 > now);
        lemma_queue_total_push(d, e);
        lemma_queue_total_push(mature_entries(d, now), e);
        lemma_queue_total_push(pending_entries(d, now), e);
    }
}

/// The pending entries keep every bound on the keys of the queue.
pub proof fn lemma_pending_keys_before(q: Seq<QueueEntry>, now: u64, bound: int)
    requires
        keys_before(q, bound),
    ensures
        keys_before(pending_entries(q, now), bound),
{
    let pred = |x: QueueEntry| x.0 > now;
    let p = q.filter(pred);
    assert forall|i: int| 0 <= i < p.len() implies p[i].0 < bound by {
        assert(p.contains(p[i]));
        q.lemma_filter_contains_rev(pred, p[i]);
        let k = choose|k: int| 0 <= k < q.len() && q[k] == p[i];
        assert(q[k].0 < bound);
    }
}

/// Two queues with the same view hold the same total.
pub proof fn lemma_queue_total_view(a: Seq<QueueEntry>, b: Seq<QueueEntry>)
    requires
        queue_view(a) == queue_view(b),
    ensures
        queue_total(a) == queue_total(b),
        a.len() == b.len(),
        forall|i: int| 0 <= i < a.len() ==> #[trigger] a[i].0 == b[i].0,
{
    assert(queue_view(a).len() == a.len());
    assert(queue_view(b).len() == b.len());
    assert forall|i: int| 0 <= i < a.len() implies a[i].0 == b[i].0 && a[i].1@ == b[i].1@ by {
        assert(queue_view(a)[i] == queue_view(b)[i]);
    }
    assert(entry_totals(a) =~= entry_totals(b));
}

/// The mature entries of a prefix of the queue never total more than those of the whole queue.
proof fn lemma_mature_prefix_le(q: Seq<QueueEntry>, k: int, now: u64)
    requires
        0 <= k <= q.len(),
    ensures
        queue_total(mature_entries(q.take(k), now)) <= queue_total(mature_entries(q, now)),
{
    let pred = |e: QueueEntry| e.0 <= now;
    assert(q =~= q.take(k) + q.skip(k));
    Seq::filter_distributes_over_add(q.take(k), q.skip(k), pred);
    lemma_queue_total_concat(q.take(k).filter(pred), q.skip(k).filter(pred));
    lemma_queue_total_nonneg(q.skip(k).filter(pred));
}

/// Sums the amounts of a list of unbondings.
pub fn unbonding_sum(v: &Vec<Unbonding>) -> (r: u128)
    requires
        unbonding_total(v@) <= u128::MAX,
    ensures
        r == unbonding_total(v@),
{
    let mut acc: u128 = 0;
    let mut i: usize = 0;
    proof {
        lemma_unbonding_total_nonneg(v@);
    }
    while i < v.len()
        invariant
            i <= v.len(),
            all_nonneg(unbonding_amounts(v@)),
            unbonding_total(v@) <= u128::MAX,
            acc == sum(unbonding_amounts(v@).take(i as int)),
        decreases v.len() - i,
    {
        proof {
            lemma_sum_take_step(unbonding_amounts(v@), i as int);
            lemma_sum_prefix_le(unbonding_amounts(v@), i + 1);
        }
        acc = acc + v[i].amount;
        i = i + 1;
    }
    proof {
        lemma_sum_take_all(unbonding_amounts(v@));
    }
    acc
}

/// Removes all unbonding entries that are mature at `now` (seconds) and returns
/// the number of tokens that have completed unbonding.
pub fn clean_unbonding(queue: &mut Vec<QueueEntry>, now: u64) -> (freed: u128)
    requires
        queue_total(mature_entries(old(queue)@, now)) <= u128::MAX,
    ensures
        final(queue)@ == pending_entries(old(queue)@, now),
        freed == queue_total(mature_entries(old(queue)@, now)),
{
    let ghost orig = queue@;
    let mut rest: Vec<QueueEntry> = Vec::new();
    std::mem::swap(queue, &mut rest);
    let mut freed: u128 = 0;
    let ghost mut k: int = 0;
    proof {
        assert(orig.take(0) =~= Seq::<QueueEntry>::empty());
        assert(orig.skip(0) =~= orig);
        reveal_with_fuel(Seq::filter, 1);
    }
    while rest.len() > 0
        invariant
            0 <= k <= orig.len(),
            rest@ == orig.skip(k),
            queue@ == pending_entries(orig.take(k), now),
            freed == queue_total(mature_entries(orig.take(k), now)),
            queue_total(mature_entries(orig, now)) <= u128::MAX,
        decreases rest.len(),
    {
        let e = rest.remove(0);
        proof {
            assert(e == orig[k]);
            assert(orig.take(k + 1) =~= orig.take(k).push(e));
            orig.take(k).lemma_filter_push(e, |x: QueueEntry| x.0 <= now);
            orig.take(k).lemma_filter_push(e, |x: QueueEntry| x.0 > now);
            lemma_queue_total_push(mature_entries(orig.take(k), now), e);
            lemma_mature_prefix_le(orig, k + 1, now);
            assert(orig.skip(k + 1) =~= orig.skip(k).remove(0));
        }
        if e.0 <= now {
            proof { lemma_queue_total_nonneg(mature_entries(orig.take(k), now)); }
            let s = unbonding_sum(&e.1);
            freed = freed + s;
        } else {
            queue.push(e);
        }
        proof {
            k = k + 1;
        }
    }
    proof {
        assert(orig.take(k) =~= orig);
    }
    freed
}


/// Like `clean_unbonding`, but for read-only queries: counts how many tokens
/// have completed unbonding at `now` (seconds) without removing anything.
pub fn count_unbonding(queue: &Vec<QueueEntry>, now: u64) -> (freed: u128)
    requires
        queue_total(mature_entries(queue@, now)) <= u128::MAX,
    ensures
        freed == queue_total(mature_entries(queue@, now)),
{
    let mut freed: u128 = 0;
    let mut i: usize = 0;
    proof {
        assert(queue@.take(0) =~= Seq::<QueueEntry>::empty());
        reveal_with_fuel(Seq::filter, 1);
    }
    while i < queue.len()
        invariant
            i <= queue.len(),
            freed == queue_total(mature_entries(queue@.take(i as int), now)),
            queue_total(mature_entries(queue@, now)) <= u128::MAX,
        decreases queue.len() - i,
    {
        let e = &queue[i];
        proof {
            assert(queue@.take(i + 1) =~= queue@.take(i as int).push(*e));
            queue@.take(i as int).lemma_filter_push(*e, |x: QueueEntry| x.0 <= now);
            lemma_queue_total_push(mature_entries(queue@.take(i as int), now), *e);
            lemma_mature_prefix_le(queue@, i + 1, now);
        }
        if e.0 <= now {
            proof {
                lemma_queue_total_nonneg(mature_entries(queue@.take(i as int), now));
            }
            let s = unbonding_sum(&e.1);
            freed = freed + s;
        }
        i = i + 1;
    }
    proof {
        assert(queue@.take(queue@.len() as int) =~= queue@);
    }
    freed
}

/// A copy of a list of unbondings.
pub fn duplicate_unbondings(v: &Vec<Unbonding>) -> (r: Vec<Unbonding>)
    ensures
        r@ == v@,
{
    let mut r: Vec<Unbonding> = Vec::new();
    let mut i: usize = 0;
    while i < v.len()
        invariant
            i <= v.len(),
            r@ == v@.take(i as int),
        decreases v.len() - i,
    {
        r.push(v[i].duplicate());
        proof {
            assert(v@.take(i + 1) =~= v@.take(i as int).push(v@[i as int]));
        }
        i = i + 1;
    }
    proof {
        assert(v@.take(v@.len() as int) =~= v@);
    }
    r
}

/// An entry of the queue with its unbondings taken by value.
pub open spec fn entry_view(e: QueueEntry) -> (u64, Seq<Unbonding>) {
    (e.0, e.1@)
}

/// The queue with its unbondings taken by value.
pub open spec fn queue_view(q: Seq<QueueEntry>) -> Seq<(u64, Seq<Unbonding>)> {
    q.map_values(|e: QueueEntry| entry_view(e))
}

/// The entries that complete strictly between `start` and `end`.
pub open spec fn entries_between(q: Seq<QueueEntry>, start: u64, end: u64) -> Seq<QueueEntry> {
    q.filter(|e: QueueEntry| start < e.0 && e.0 < end)
}

/// The unbonding entries that complete strictly between `start` and `end` (seconds),
/// in the order of the queue.
pub fn unbondings_expiring_between(queue: &Vec<QueueEntry>, start: u64, end: u64) -> (r: Vec<
    QueueEntry,
>)
    ensures
        queue_view(r@) == queue_view(entries_between(queue@, start, end)),
{
    let mut r: Vec<QueueEntry> = Vec::new();
    let mut i: usize = 0;
    proof {
        assert(queue@.take(0) =~= Seq::<QueueEntry>::empty());
        reveal_with_fuel(Seq::filter, 1);
    }
    while i < queue.len()
        invariant
            i <= queue.len(),
            queue_view(r@) == queue_view(entries_between(queue@.take(i as int), start, end)),
        decreases queue.len() - i,
    {
        let e = &queue[i];
        proof {
            assert(queue@.take(i + 1) =~= queue@.take(i as int).push(*e));
            queue@.take(i as int).lemma_filter_push(
                *e,
                |x: QueueEntry| start < x.0 && x.0 < end,
            );
        }
        if start < e.0 && e.0 < end {
            let copy = duplicate_unbondings(&e.1);
            let ghost before = r@;
            r.push((e.0, copy));
            proof {
                assert(queue_view(r@) =~= queue_view(before).push(entry_view(*e)));
                assert(queue_view(entries_between(queue@.take(i as int), start, end).push(*e))
                    =~= queue_view(entries_between(queue@.take(i as int), start, end)).push(entry_view(*e)));
            }
        }
        i = i + 1;
    }
    proof {
        assert(queue@.take(queue@.len() as int) =~= queue@);
    }
    r
}

/// How many different unbonding epochs there are.
pub fn unbonding_info_num_epochs(queue: &Vec<QueueEntry>) -> (r: u64)
    ensures
        r == queue@.len(),
{
    queue.len() as u64
}

/// The number of unbonding entries of each epoch.
pub open spec fn entry_lengths(q: Seq<QueueEntry>) -> Seq<int> {
    q.map_values(|e: QueueEntry| e.1@.len() as int)
}

/// How many different unbonding entries there are over all epochs.
pub fn unbonding_info_total_entries(queue: &Vec<QueueEntry>) -> (r: u64)
    requires
        sum(entry_lengths(queue@)) <= u64::MAX,
    ensures
        r == sum(entry_lengths(queue@)),
{
    let mut acc: u64 = 0;
    let mut i: usize = 0;
    proof {
        assert(all_nonneg(entry_lengths(queue@)));
    }
    while i < queue.len()
        invariant
            i <= queue.len(),
            all_nonneg(entry_lengths(queue@)),
            sum(entry_lengths(queue@)) <= u64::MAX,
            acc == sum(entry_lengths(queue@).take(i as int)),
        decreases queue.len() - i,
    {
        proof {
            lemma_sum_take_step(entry_lengths(queue@), i as int);
            lemma_sum_prefix_le(entry_lengths(queue@), i + 1);
        }
        acc = acc + queue[i].1.len() as u64;
        i = i + 1;
    }
    proof {
        lemma_sum_take_all(entry_lengths(queue@));
    }
    acc
}

/// Filtering a queue keeps its keys ascending.
pub proof fn lemma_filter_wf(q: Seq<QueueEntry>, pred: spec_fn(QueueEntry) -> bool)
    requires
        queue_wf(q),
    ensures
        queue_wf(q.filter(pred)),
    decreases q.len(),
{
    reveal(Seq::filter);
    if q.len() > 0 {
        let d = q.drop_last();
        lemma_filter_wf(d, pred);
        let f = d.filter(pred);
        if pred(q.last()) {
            let g = f.push(q.last());
            assert forall|i: int, j: int| 0 <= i < j < g.len() implies g[i].0 < g[j].0 by {
                if j == f.len() {
                    assert(f.contains(f[i]));
                    d.lemma_filter_contains_rev(pred, f[i]);
                    let k = choose|k: int| 0 <= k < d.len() && d[k] == f[i];
                    assert(q[k] == d[k]);
                } else {
                    assert(g[i] == f[i]);
                    assert(g[j] == f[j]);
                }
            }
        }
    }
}

/// The number of entries of a queue whose key is below `key`.
pub open spec fn keys_below(q: Seq<(u64, Seq<Unbonding>)>, key: u64) -> int
    decreases q.len(),
{
    if q.len() == 0 {
        0
    } else {
        keys_below(q.drop_last(), key) + if q.last().0 < key {
            1int
        } else {
            0int
        }
    }
}

/// The queue after storing `value` under `key`: the entry with that key gets
/// the new value, or, if there is none, a new entry goes where the keys stay
/// ascending.
pub open spec fn upsert_view(
    q: Seq<(u64, Seq<Unbonding>)>,
    key: u64,
    value: Seq<Unbonding>,
) -> Seq<(u64, Seq<Unbonding>)> {
    let p = keys_below(q, key);
    if p < q.len() && q[p].0 == key {
        q.update(p, (key, value))
    } else {
        q.insert(p, (key, value))
    }
}

/// Storing under a key above every key of the queue appends the entry.
pub proof fn lemma_upsert_append(q: Seq<QueueEntry>, key: u64, value: Seq<Unbonding>)
    requires
        keys_before(q, key as int),
    ensures
        upsert_view(queue_view(q), key, value) == queue_view(q).push((key, value)),
{
    let v = queue_view(q);
    assert forall|i: int| 0 <= i < v.len() implies v[i].0 < key by {
        assert(v[i] == entry_view(q[i]));
    }
    lemma_keys_below(v, key, v.len() as int);
}

proof fn lemma_keys_below(q: Seq<(u64, Seq<Unbonding>)>, key: u64, p: int)
    requires
        0 <= p <= q.len(),
        forall|i: int| 0 <= i < p ==> q[i].0 < key,
        forall|i: int| p <= i < q.len() ==> q[i].0 >= key,
    ensures
        keys_below(q, key) == p,
    decreases q.len(),
{
    if q.len() > 0 {
        if p == q.len() {
            lemma_keys_below(q.drop_last(), key, p - 1);
        } else {
            lemma_keys_below(q.drop_last(), key, p);
        }
    }
}

/// Stores `value` under `key` in the queue: replaces the entry with that key if
/// there is one, and otherwise inserts it where the keys stay ascending.
pub fn save_unbonding(queue: &mut Vec<QueueEntry>, key: u64, value: Vec<Unbonding>)
    requires
        queue_wf(old(queue)@),
    ensures
        queue_wf(final(queue)@),
        queue_view(final(queue)@) == upsert_view(queue_view(old(queue)@), key, value@),
{
    let ghost q0 = queue@;
    let ghost value_view = value@;
    let mut p: usize = 0;
    while p < queue.len() && queue[p].0 < key
        invariant
            p <= queue.len(),
            forall|i: int| 0 <= i < p ==> queue@[i].0 < key,
        decreases queue.len() - p,
    {
        p = p + 1;
    }
    proof {
        assert forall|i: int| p <= i < q0.len() implies queue_view(q0)[i].0 >= key by {
            if i > p {
                assert(q0[p as int].0 < q0[i].0);
            }
        }
        lemma_keys_below(queue_view(q0), key, p as int);
    }
    if p < queue.len() && queue[p].0 == key {
        queue.set(p, (key, value));
        proof {
            assert(queue_view(queue@) =~= queue_view(q0).update(p as int, (key, value_view)));
        }
    } else {
        proof {
            assert forall|i: int| p <= i < queue@.len() implies queue@[i].0 > key by {
                assert(queue@[p as int].0 > key);
                if i > p {
                    assert(queue@[p as int].0 < queue@[i].0);
                }
            }
        }
        queue.insert(p, (key, value));
        proof {
            assert(queue_view(queue@) =~= queue_view(q0).insert(p as int, (key, value_view)));
        }
    }
}


/// Tracks the supply of tokens in their various states.
/// Locked value = bonded + unbonding - claims + bank balance; promised shares = issued.
#[derive(Debug, Clone, PartialEq, Eq)]
pub struct Supply {
    /// The denomination we can stake (and the only one we accept for payments)
    pub bond_denom: String,
    /// How many derivative tokens this contract has issued
    pub issued: u128,
    /// How many native tokens are bonded to the validators in total
    pub total_bonded: u128,
    /// How many tokens need to be reserved for paying back those who unbonded
    pub claims: u128,
    /// The total amount of tokens that are currently unbonding
    pub total_unbonding: u128,
}

impl Supply {
    /// A fresh supply for the given denomination, with all amounts zero.
    pub open spec fn new_spec(bond_denom: String) -> Supply {
        Supply { bond_denom, issued: 0, total_bonded: 0, claims: 0, total_unbonding: 0 }
    }

    /// A fresh supply for the given denomination, with all amounts zero.
    pub fn new(bond_denom: String) -> (r: Supply)
        ensures
            r == Supply::new_spec(bond_denom),
    {
        Supply { bond_denom, issued: 0, total_bonded: 0, claims: 0, total_unbonding: 0 }
    }

    /// A copy of this supply.
    pub fn duplicate(&self) -> (r: Supply)
        ensures
            r == *self,
    {
        Supply {
            bond_denom: self.bond_denom.clone(),
            issued: self.issued,
            total_bonded: self.total_bonded,
            claims: self.claims,
            total_unbonding: self.total_unbonding,
        }
    }

    /// Removes the amount from claims; fails when claims would drop below zero.
    pub fn claim(&mut self, amount: u128) -> (r: Result<(), OverflowError>)
        ensures
            amount <= old(self).claims ==> r is Ok && *final(self) == (Supply {
                claims: (old(self).claims - amount) as u128,
                ..*old(self)
            }),
            amount > old(self).claims ==> r is Err && *final(self) == *old(self),
    {
        if amount <= self.claims {
            self.claims = self.claims - amount;
            Ok(())
        } else {
            Err(OverflowError)
        }
    }

    /// Removes the mature entries of the unbonding queue and takes the tokens
    /// they freed out of `total_unbonding`.
    pub fn cleanup_unbonding(self, queue: &mut Vec<QueueEntry>, now: u64) -> (r: CleanedSupply)
        requires
            queue_total(mature_entries(old(queue)@, now)) <= self.total_unbonding,
        ensures
            final(queue)@ == pending_entries(old(queue)@, now),
            r@ == (Supply {
                total_unbonding: (self.total_unbonding - queue_total(
                    mature_entries(old(queue)@, now),
                )) as u128,
                ..self
            }),
            self.total_unbonding == queue_total(old(queue)@) ==> r@.total_unbonding == queue_total(
                final(queue)@,
            ),
            forall|b: int| keys_before(old(queue)@, b) ==> #[trigger] keys_before(final(queue)@, b),
            queue_wf(old(queue)@) ==> queue_wf(final(queue)@),
    {
        proof {
            lemma_queue_total_split(old(queue)@, now);
            assert forall|b: int| keys_before(old(queue)@, b) implies #[trigger] keys_before(
                pending_entries(old(queue)@, now),
                b,
            ) by {
                lemma_pending_keys_before(old(queue)@, now, b);
            }
            if queue_wf(old(queue)@) {
                lemma_filter_wf(old(queue)@, |e: QueueEntry| e.0 > now);
            }
        }
        let mut supply = self;
        let freed = clean_unbonding(queue, now);
        supply.total_unbonding = supply.total_unbonding - freed;
        CleanedSupply(supply)
    }
}

/// The native tokens that back all of the liquid staking tokens, given the bank balance.
pub open spec fn spec_assets(s: Supply, balance: u128) -> int {
    s.total_bonded + s.total_unbonding + balance - s.claims
}

/// The assets can be computed without overflow or underflow.
pub open spec fn assets_defined(s: Supply, balance: u128) -> bool {
    &&& s.total_bonded + s.total_unbonding + balance <= u128::MAX
    &&& s.claims <= s.total_bonded + s.total_unbonding + balance
}

/// The exchange rate (native tokens per share) as the atomics of a decimal.
pub open spec fn spec_tokens_per_share(s: Supply, balance: u128) -> int {
    if s.issued == 0 {
        DECIMAL_FRACTIONAL as int
    } else {
        spec_ratio(spec_assets(s, balance), s.issued as int)
    }
}

/// The exchange rate can be computed without overflow.
pub open spec fn tokens_per_share_defined(s: Supply, balance: u128) -> bool {
    s.issued != 0 ==> assets_defined(s, balance) && spec_ratio(
        spec_assets(s, balance),
        s.issued as int,
    ) <= u128::MAX
}

/// The inverse exchange rate (shares per native token) as the atomics of a decimal:
/// 1 while no share was issued (the exchange rate is 1 then) or nothing backs the shares.
pub open spec fn spec_shares_per_token(s: Supply, balance: u128) -> int {
    if s.issued == 0 || spec_assets(s, balance) == 0 {
        DECIMAL_FRACTIONAL as int
    } else {
        spec_ratio(s.issued as int, spec_assets(s, balance))
    }
}

/// The inverse exchange rate can be computed without overflow.
pub open spec fn shares_per_token_defined(s: Supply, balance: u128) -> bool {
    &&& assets_defined(s, balance)
    &&& spec_assets(s, balance) != 0 ==> spec_ratio(s.issued as int, spec_assets(s, balance))
        <= u128::MAX
}

/// A supply whose matured unbonding entries have been cleaned up.
pub struct CleanedSupply(Supply);

impl View for CleanedSupply {
    type V = Supply;

    closed spec fn view(&self) -> Supply {
        self.0
    }
}

impl CleanedSupply {
    /// Loads the supply and removes all expired unbonding entries.
    pub fn load(supply: Supply, queue: &mut Vec<QueueEntry>, now: u64) -> (r: CleanedSupply)
        requires
            queue_total(mature_entries(old(queue)@, now)) <= supply.total_unbonding,
        ensures
            final(queue)@ == pending_entries(old(queue)@, now),
            r@ == (Supply {
                total_unbonding: (supply.total_unbonding - queue_total(
                    mature_entries(old(queue)@, now),
                )) as u128,
                ..supply
            }),
            supply.total_unbonding == queue_total(old(queue)@) ==> r@.total_unbonding == queue_total(
                final(queue)@,
            ),
            forall|b: int| keys_before(old(queue)@, b) ==> #[trigger] keys_before(final(queue)@, b),
            queue_wf(old(queue)@) ==> queue_wf(final(queue)@),
    {
        supply.cleanup_unbonding(queue, now)
    }

    /// Updates the unbonding count but does not change the queue (meant for queries).
    pub fn load_for_query(supply: Supply, queue: &Vec<QueueEntry>, now: u64) -> (r: CleanedSupply)
        requires
            queue_total(mature_entries(queue@, now)) <= supply.total_unbonding,
        ensures
            r@ == (Supply {
                total_unbonding: (supply.total_unbonding - queue_total(
                    mature_entries(queue@, now),
                )) as u128,
                ..supply
            }),
    {
        let mut supply = supply;
        let freed = count_unbonding(queue, now);
        supply.total_unbonding = supply.total_unbonding - freed;
        CleanedSupply(supply)
    }

    /// The cleaned supply.
    pub fn supply(&self) -> (r: &Supply)
        ensures
            *r == self@,
    {
        &self.0
    }

    /// The cleaned supply, by value.
    pub fn into_supply(self) -> (r: Supply)
        ensures
            r == self@,
    {
        self.0
    }

    /// The total amount of native tokens that back all of the liquid staking tokens.
    pub fn assets(&self, balance: u128) -> (r: u128)
        requires
            assets_defined(self@, balance),
        ensures
            r == spec_assets(self@, balance),
    {
        self.0.total_bonded + self.0.total_unbonding + balance - self.0.claims
    }

    /// The ratio of value locked to outstanding shares; 1 while no share was issued.
    pub fn tokens_per_share(&self, balance: u128) -> (r: Decimal)
        requires
            tokens_per_share_defined(self@, balance),
        ensures
            r.atomics == spec_tokens_per_share(self@, balance),
    {
        if self.0.issued == 0 {
            Decimal::one()
        } else {
            Decimal::from_ratio(self.assets(balance), self.0.issued)
        }
    }

    /// The inverse of `tokens_per_share`, computed directly to reduce rounding;
    /// 1 while no share was issued or nothing backs the shares.
    pub fn shares_per_token(&self, balance: u128) -> (r: Decimal)
        requires
            shares_per_token_defined(self@, balance),
        ensures
            r.atomics == spec_shares_per_token(self@, balance),
    {
        let assets = self.assets(balance);
        if self.0.issued == 0 || assets == 0 {
            Decimal::one()
        } else {
            Decimal::from_ratio(self.0.issued, assets)
        }
    }

    /// Removes `amount` shares from the issued tokens and adds the native amount
    /// they are worth to the claims; returns that native amount.
    pub fn unbond(&mut self, amount: u128, balance: u128) -> (native: u128)
        requires
            tokens_per_share_defined(old(self)@, balance),
            spec_mul_floor(amount as int, spec_tokens_per_share(old(self)@, balance)) <= u128::MAX,
            amount <= old(self)@.issued,
            old(self)@.claims + spec_mul_floor(amount as int, spec_tokens_per_share(old(self)@, balance))
                <= u128::MAX,
        ensures
            native == spec_mul_floor(amount as int, spec_tokens_per_share(old(self)@, balance)),
            final(self)@ == (Supply {
                issued: (old(self)@.issued - amount) as u128,
                claims: (old(self)@.claims + native) as u128,
                ..old(self)@
            }),
    {
        let rate = self.tokens_per_share(balance);
        let native = mul_floor(amount, rate);
        self.0.issued = self.0.issued - amount;
        self.0.claims = self.0.claims + native;
        native
    }
}

/// The balance recorded before rewards are withdrawn, for comparison afterwards.
#[derive(Debug, Clone, Copy, PartialEq, Eq)]
pub struct TmpState {
    pub balance: u128,
}

/// A slashing event: claims released strictly between `start` and `end` (seconds)
/// are multiplied by `multiplier`.
#[derive(Debug, Clone, Copy, PartialEq, Eq)]
pub struct Slashing {
    pub start: u64,
    pub end: u64,
    pub multiplier: Decimal,
}

/// A claim on `amount` native tokens that can be paid out from `release_at` (seconds) on.
#[derive(Debug, Clone, Copy, PartialEq, Eq, Structural)]
pub struct Claim {
    pub amount: u128,
    pub release_at: u64,
}

/// Adds a claim to the list of claims of an address.
pub fn create_claim(claims: &mut Vec<Claim>, amount: u128, release_at: u64)
    ensures
        final(claims)@ == old(claims)@.push(Claim { amount, release_at }),
{
    claims.push(Claim { amount, release_at });
}


/// A slashing event reduces claims released strictly inside its window.
pub open spec fn slashing_applies(s: Slashing, release_at: u64) -> bool {
    s.start < release_at && s.end > release_at
}

/// A claim amount after applying, in order, the multipliers of all slashing
/// events whose window contains its release time (each rounded down).
pub open spec fn spec_slashed_amount(amount: int, release_at: u64, slashings: Seq<Slashing>) -> int
    decreases slashings.len(),
{
    if slashings.len() == 0 {
        amount
    } else {
        let prev = spec_slashed_amount(amount, release_at, slashings.drop_last());
        if slashing_applies(slashings.last(), release_at) {
            spec_mul_floor(prev, slashings.last().multiplier.atomics as int)
        } else {
            prev
        }
    }
}

/// Every step of the slashing adjustment fits in 128 bits.
pub open spec fn slashed_amount_defined(amount: int, release_at: u64, slashings: Seq<Slashing>) -> bool
    decreases slashings.len(),
{
    if slashings.len() == 0 {
        true
    } else {
        &&& slashed_amount_defined(amount, release_at, slashings.drop_last())
        &&& slashing_applies(slashings.last(), release_at) ==> spec_mul_floor(
            spec_slashed_amount(amount, release_at, slashings.drop_last()),
            slashings.last().multiplier.atomics as int,
        ) <= u128::MAX
    }
}

proof fn lemma_slashed_defined_take(amount: int, release_at: u64, slashings: Seq<Slashing>, i: int)
    requires
        slashed_amount_defined(amount, release_at, slashings),
        0 <= i <= slashings.len(),
    ensures
        slashed_amount_defined(amount, release_at, slashings.take(i)),
    decreases slashings.len(),
{
    if i == slashings.len() {
        assert(slashings.take(i) =~= slashings);
    } else {
        assert(slashings.take(i) =~= slashings.drop_last().take(i));
        lemma_slashed_defined_take(amount, release_at, slashings.drop_last(), i);
    }
}

proof fn lemma_slashed_nonneg(amount: int, release_at: u64, slashings: Seq<Slashing>)
    requires
        amount >= 0,
    ensures
        spec_slashed_amount(amount, release_at, slashings) >= 0,
    decreases slashings.len(),
{
    if slashings.len() > 0 {
        lemma_slashed_nonneg(amount, release_at, slashings.drop_last());
        let prev = spec_slashed_amount(amount, release_at, slashings.drop_last());
        let m = slashings.last().multiplier.atomics as int;
        assert(spec_mul_floor(prev, m) >= 0) by (nonlinear_arith)
            requires
                prev >= 0,
                m >= 0,
                spec_mul_floor(prev, m) == (prev * m) / (DECIMAL_FRACTIONAL as int),
                DECIMAL_FRACTIONAL > 0,
        ;
    }
}

/// A claim is only cut by the slashings whose window strictly contains its
/// release time: if every slashing started at or after the release, or ended
/// at or before it, the claim keeps its whole amount.
pub proof fn law_slashing_outside_window_keeps_claim(amount: int, release_at: u64, slashings: Seq<Slashing>)
    requires
        forall|i: int|
            0 <= i < slashings.len() ==> #[trigger] slashings[i].start >= release_at || slashings[i].end
                <= release_at,
    ensures
        spec_slashed_amount(amount, release_at, slashings) == amount,
    decreases slashings.len(),
{
    if slashings.len() > 0 {
        let d = slashings.drop_last();
        assert forall|i: int| 0 <= i < d.len() implies #[trigger] d[i].start >= release_at || d[i].end
            <= release_at by {
            assert(d[i] == slashings[i]);
        }
        law_slashing_outside_window_keeps_claim(amount, release_at, d);
        let last = slashings.last();
        assert(last == slashings[slashings.len() - 1]);
    }
}

/// Recording one more slashing cuts a claim released strictly inside its
/// window by its multiplier (rounded down), and leaves any other claim as it was.
pub proof fn law_slashing_cuts_claims_inside_window(
    amount: int,
    release_at: u64,
    slashings: Seq<Slashing>,
    s: Slashing,
)
    ensures
        s.start < release_at < s.end ==> spec_slashed_amount(amount, release_at, slashings.push(s)) == (
        spec_slashed_amount(amount, release_at, slashings) * s.multiplier.atomics) / 1_000_000_000_000_000_000int,
        !(s.start < release_at < s.end) ==> spec_slashed_amount(amount, release_at, slashings.push(s))
            == spec_slashed_amount(amount, release_at, slashings),
{
    assert(slashings.push(s).drop_last() =~= slashings);
}

/// Slashing multipliers of at most one never raise a claim.
pub proof fn law_slashing_never_raises_claim(amount: int, release_at: u64, slashings: Seq<Slashing>)
    requires
        amount >= 0,
        forall|i: int| 0 <= i < slashings.len() ==> (#[trigger] slashings[i]).multiplier.atomics
            <= 1_000_000_000_000_000_000,
    ensures
        0 <= spec_slashed_amount(amount, release_at, slashings) <= amount,
    decreases slashings.len(),
{
    if slashings.len() > 0 {
        let d = slashings.drop_last();
        assert forall|i: int| 0 <= i < d.len() implies (#[trigger] d[i]).multiplier.atomics
            <= 1_000_000_000_000_000_000 by {
            assert(d[i] == slashings[i]);
        }
        law_slashing_never_raises_claim(amount, release_at, d);
        let prev = spec_slashed_amount(amount, release_at, d);
        let m = slashings.last().multiplier.atomics as int;
        assert(slashings[slashings.len() - 1] == slashings.last());
        assert(0 <= (prev * m) / (DECIMAL_FRACTIONAL as int) <= prev) by (nonlinear_arith)
            requires
                0 <= prev,
                0 <= m <= DECIMAL_FRACTIONAL,
                DECIMAL_FRACTIONAL > 0,
        ;
    }
}

/// Adjusts a claim amount for all slashing events whose window contains its release time.
pub fn slashed_claim_amount(amount: u128, release_at: u64, slashings: &Vec<Slashing>) -> (r: u128)
    requires
        slashed_amount_defined(amount as int, release_at, slashings@),
    ensures
        r == spec_slashed_amount(amount as int, release_at, slashings@),
        (forall|i: int|
            0 <= i < slashings@.len() ==> #[trigger] slashings@[i].start >= release_at || slashings@[i].end
                <= release_at) ==> r == amount,
{
    proof {
        if forall|i: int|
            0 <= i < slashings@.len() ==> #[trigger] slashings@[i].start >= release_at || slashings@[i].end
                <= release_at {
            law_slashing_outside_window_keeps_claim(amount as int, release_at, slashings@);
        }
    }
    let mut r = amount;
    let mut i: usize = 0;
    while i < slashings.len()
        invariant
            i <= slashings.len(),
            slashed_amount_defined(amount as int, release_at, slashings@),
            r == spec_slashed_amount(amount as int, release_at, slashings@.take(i as int)),
        decreases slashings.len() - i,
    {
        proof {
            assert(slashings@.take(i + 1).drop_last() =~= slashings@.take(i as int));
            lemma_slashed_defined_take(amount as int, release_at, slashings@, i + 1);
        }
        let s = slashings[i];
        if s.start < release_at && s.end > release_at {
            r = mul_floor(r, s.multiplier);
        }
        i = i + 1;
    }
    proof {
        assert(slashings@.take(slashings@.len() as int) =~= slashings@);
    }
    r
}

/// Paying out mature claims in order: a mature claim (release time reached at
/// `now`, seconds) is paid, at its slashed amount, when it still fits under `cap`
/// together with what was paid before it; all other claims keep waiting.
/// The result is the amount paid and the waiting claims.
pub open spec fn spec_claim_tokens(
    claims: Seq<Claim>,
    now: u64,
    slashings: Seq<Slashing>,
    cap: u128,
) -> (int, Seq<Claim>)
    decreases claims.len(),
{
    if claims.len() == 0 {
        (0, claims)
    } else {
        let prev = spec_claim_tokens(claims.drop_last(), now, slashings, cap);
        let c = claims.last();
        let adjusted = spec_slashed_amount(c.amount as int, c.release_at, slashings);
        if now >= c.release_at && prev.0 + adjusted <= cap {
            (prev.0 + adjusted, prev.1)
        } else {
            (prev.0, prev.1.push(c))
        }
    }
}

/// The amounts of a list of claims.
pub open spec fn claim_amounts(claims: Seq<Claim>) -> Seq<int> {
    claims.map_values(|c: Claim| c.amount as int)
}

/// Mature claims that no slashing window contains are paid out in full: when
/// they all fit under the cap together, the payout is their total and no
/// claim is left waiting.
pub proof fn law_unslashed_mature_claims_paid_in_full(
    claims: Seq<Claim>,
    now: u64,
    slashings: Seq<Slashing>,
    cap: u128,
)
    requires
        forall|i: int| 0 <= i < claims.len() ==> now >= (#[trigger] claims[i]).release_at,
        forall|i: int, j: int|
            0 <= i < claims.len() && 0 <= j < slashings.len() ==> #[trigger] slashings[j].start
                >= #[trigger] claims[i].release_at || slashings[j].end <= claims[i].release_at,
        sum(claim_amounts(claims)) <= cap,
    ensures
        spec_claim_tokens(claims, now, slashings, cap) == (sum(claim_amounts(claims)), Seq::<Claim>::empty()),
    decreases claims.len(),
{
    if claims.len() > 0 {
        let d = claims.drop_last();
        let c = claims.last();
        assert(claim_amounts(claims) =~= claim_amounts(d).push(c.amount as int));
        lemma_sum_push(claim_amounts(d), c.amount as int);
        assert forall|i: int| 0 <= i < d.len() implies now >= (#[trigger] d[i]).release_at by {
            assert(d[i] == claims[i]);
        }
        assert forall|i: int, j: int|
            0 <= i < d.len() && 0 <= j < slashings.len() implies #[trigger] slashings[j].start
                >= #[trigger] d[i].release_at || slashings[j].end <= d[i].release_at by {
            assert(d[i] == claims[i]);
        }
        law_unslashed_mature_claims_paid_in_full(d, now, slashings, cap);
        assert(c == claims[claims.len() - 1]);
        assert forall|j: int| 0 <= j < slashings.len() implies #[trigger] slashings[j].start
            >= c.release_at || slashings[j].end <= c.release_at by {
            assert(claims[claims.len() - 1].release_at == c.release_at);
        }
        law_slashing_outside_window_keeps_claim(c.amount as int, c.release_at, slashings);
    } else {
        assert(claims =~= Seq::<Claim>::empty());
    }
}

/// The slashing adjustment of every mature claim fits in 128 bits.
pub open spec fn claims_adjustable(claims: Seq<Claim>, now: u64, slashings: Seq<Slashing>) -> bool {
    forall|i: int|
        0 <= i < claims.len() && now >= #[trigger] claims[i].release_at ==> slashed_amount_defined(
            claims[i].amount as int,
            claims[i].release_at,
            slashings,
        )
}

proof fn lemma_claim_tokens_bounded(claims: Seq<Claim>, now: u64, slashings: Seq<Slashing>, cap: u128)
    ensures
        0 <= spec_claim_tokens(claims, now, slashings, cap).0 <= cap,
    decreases claims.len(),
{
    if claims.len() > 0 {
        lemma_claim_tokens_bounded(claims.drop_last(), now, slashings, cap);
        lemma_slashed_nonneg(claims.last().amount as int, claims.last().release_at, slashings);
    }
}

/// Pays out the mature claims of one address that fit under `cap`: returns
/// the amount to send and the claims that keep waiting.
pub fn claim_tokens(claims: &Vec<Claim>, now: u64, slashings: &Vec<Slashing>, cap: u128) -> (r: (
    u128,
    Vec<Claim>,
))
    requires
        claims_adjustable(claims@, now, slashings@),
    ensures
        r.0 == spec_claim_tokens(claims@, now, slashings@, cap).0,
        r.1@ == spec_claim_tokens(claims@, now, slashings@, cap).1,
        r.0 <= cap,
{
    let ghost orig = claims@;
    let mut waiting: Vec<Claim> = Vec::new();
    let mut sent: u128 = 0;
    let mut i: usize = 0;
    proof {
        assert(orig.take(0) =~= Seq::<Claim>::empty());
    }
    while i < claims.len()
        invariant
            claims@ == orig,
            i <= claims.len(),
            claims_adjustable(orig, now, slashings@),
            sent == spec_claim_tokens(orig.take(i as int), now, slashings@, cap).0,
            waiting@ == spec_claim_tokens(orig.take(i as int), now, slashings@, cap).1,
            sent <= cap,
        decreases claims.len() - i,
    {
        let c = claims[i];
        proof {
            assert(orig.take(i + 1).drop_last() =~= orig.take(i as int));
            assert(orig.take(i + 1).last() == c);
            lemma_claim_tokens_bounded(orig.take(i as int), now, slashings@, cap);
        }
        if now >= c.release_at {
            let adjusted = slashed_claim_amount(c.amount, c.release_at, slashings);
            if adjusted <= cap - sent {
                sent = sent + adjusted;
            } else {
                waiting.push(c);
            }
        } else {
            waiting.push(c);
        }
        i = i + 1;
    }
    proof {
        assert(orig.take(orig.len() as int) =~= orig);
    }
    (sent, waiting)
}

} // verus!
