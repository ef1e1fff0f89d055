//! The LSD hub's handlers as state transitions: each takes the stored state
//! and what the chain reported (block time, bank balance, delegations), and
//! returns the new state and the messages to send.
use vstd::prelude::*;
use crate::decimal::{Decimal, DECIMAL_FRACTIONAL, mul_floor, spec_mul_floor, spec_ratio};
use crate::error::ContractError;
use crate::msg::{Coin, StakingMsg, HubMsg};
use crate::payment::{must_pay, spec_must_pay, is_payment_error};
use crate::state::{
    Config, Supply, StakeInfo, QueueEntry, Slashing, TmpState, Claim, CleanedSupply,
    queue_total, mature_entries, pending_entries, spec_shares_per_token, shares_per_token_defined,
    spec_tokens_per_share, tokens_per_share_defined, NANOS_PER_SECOND, claim_tokens,
    spec_claim_tokens, claims_adjustable, create_claim, queue_wf, queue_view, upsert_view,
    spec_div_ceil, spec_next_after, save_unbonding, unbonding_sum, unbonding_total, lemma_filter_wf,
    entries_between, unbondings_expiring_between, keys_before, lemma_upsert_append,
    lemma_queue_total_view, lemma_queue_total_push, entry_view,
};
use crate::keys::{keys_sorted, lookup, pair_total, drop_zero_amounts, total_amount};
use crate::rewards::{
    delegation_amounts, delegation_defined, delegation_split, undelegation_amounts,
    undelegation_defined, undelegation_split, debit_defined, credit_validators, debit_validators,
    amount_for, stake_msgs, staking_messages, unbonding_list, unbondings_for, ints,
    lemma_delegation_sum, lemma_unbonding_list_total,
};
use crate::seqsum::sum;
use crate::valset::{
    ValsetChange, rebalanced, targets_fit, valset_change_redelegation_messages, weight_sum,
    lemma_weight_sum_prefix, law_rebalance_meets_targets, target_of, givers_in_order,
    receivers_in_order, greedy_redelegations, lemma_sorted_keys_distinct,
};
use crate::slashing::{
    any_slashed, multipliers_defined, scaled_bonded, scaled_queue, bonded_scaling_fits,
    queue_scaling_fits, view_total, lemma_view_total, detect_slashing, scale_bonded, scale_queue,
    queue_amount,
};

verus! {

/// Everything the hub keeps in storage, except the per-address claims.
#[derive(Debug, PartialEq, Eq)]
pub struct HubState {
    pub config: Config,
    pub supply: Supply,
    pub stake_info: StakeInfo,
    /// How many tokens are bonded to each validator (without those unbonding).
    pub bonded: Vec<(String, u128)>,
    /// Pending unbondings, keyed by the time (seconds) at which they complete.
    pub unbonding: Vec<QueueEntry>,
    pub slashings: Vec<Slashing>,
    /// The balance recorded by the last reinvest, if any.
    pub tmp_state: Option<TmpState>,
}

/// The block time in whole seconds.
pub open spec fn secs(block_nanos: u64) -> u64 {
    (block_nanos / NANOS_PER_SECOND) as u64
}

fn block_seconds(block_nanos: u64) -> (r: u64)
    ensures
        r == secs(block_nanos),
{
    block_nanos / NANOS_PER_SECOND
}

/// The supply after the unbondings that completed by `now` were taken out.
pub open spec fn spec_cleaned(supply: Supply, queue: Seq<QueueEntry>, now: u64) -> Supply {
    Supply {
        total_unbonding: (supply.total_unbonding - queue_total(mature_entries(queue, now))) as u128,
        ..supply
    }
}

/// Cleaning the queue at `now` cannot take more out of `total_unbonding` than it holds.
pub open spec fn cleanable(supply: Supply, queue: Seq<QueueEntry>, now: u64) -> bool {
    queue_total(mature_entries(queue, now)) <= supply.total_unbonding
}

/// `a - b`, or 0 when `b` is larger.
pub open spec fn saturating_sub(a: int, b: int) -> int {
    if a >= b {
        a - b
    } else {
        0
    }
}

/// How many shares a deposit of `paid` tokens is worth, given the balance before it.
pub open spec fn spec_issue(s: Supply, paid: u128, balance: u128) -> int {
    spec_mul_floor(
        paid as int,
        spec_shares_per_token(s, saturating_sub(balance as int, paid as int) as u128),
    )
}

/// A deposit of `paid` tokens can be accounted without overflow.
pub open spec fn bond_defined(s: Supply, paid: u128, balance: u128) -> bool {
    let before = saturating_sub(balance as int, paid as int) as u128;
    &&& shares_per_token_defined(s, before)
    &&& spec_issue(s, paid, balance) <= u128::MAX
    &&& s.issued + spec_issue(s, paid, balance) <= u128::MAX
}

/// The largest of two times.
pub open spec fn max_u64(a: u64, b: u64) -> u64 {
    if a >= b {
        a
    } else {
        b
    }
}

/// When a claim made now can be paid out: one unbonding period after the next
/// unbonding epoch (but no earlier than the next reinvest epoch).
pub open spec fn claim_release(config: Config) -> int {
    max_u64(config.next_unbond, config.next_epoch) + config.unbond_period
}


/// Unbonding `amount` shares can be accounted without overflow.
pub open spec fn unbond_defined(s: Supply, amount: u128, balance: u128) -> bool {
    &&& tokens_per_share_defined(s, balance)
    &&& spec_mul_floor(amount as int, spec_tokens_per_share(s, balance)) <= u128::MAX
    &&& amount <= s.issued
    &&& s.claims + spec_mul_floor(amount as int, spec_tokens_per_share(s, balance)) <= u128::MAX
}

/// The parameters the hub is instantiated with.
#[derive(Debug, Clone, PartialEq, Eq)]
pub struct InstantiateMsg {
    pub treasury: String,
    pub commission: Decimal,
    pub validators: Vec<(String, Decimal)>,
    pub owner: String,
    pub epoch_period: u64,
    pub unbond_period: u64,
    pub max_concurrent_unbondings: u64,
    pub liquidity_discount: Decimal,
    pub tombstone_treshold: Decimal,
    pub slashing_safety_margin: u64,
}

/// The first check that the instantiate parameters fail, if any.
pub open spec fn instantiate_error(msg: InstantiateMsg) -> Option<ContractError> {
    if msg.commission.atomics == 0 || msg.commission.atomics > Decimal::spec_percent(50) {
        Some(ContractError::InvalidCommission)
    } else if weight_sum(msg.validators@) != DECIMAL_FRACTIONAL {
        Some(ContractError::InvalidValidatorWeights)
    } else if msg.liquidity_discount.atomics >= Decimal::spec_percent(50) {
        Some(ContractError::InvalidLiquidityDiscount)
    } else if !(3600 <= msg.epoch_period <= 31_536_000) {
        Some(ContractError::InvalidEpochPeriod)
    } else if !(3600 <= msg.unbond_period <= 31_536_000) {
        Some(ContractError::InvalidUnbondPeriod)
    } else if msg.max_concurrent_unbondings == 0 {
        Some(ContractError::InvalidMaxConcurrentUnbondings)
    } else {
        None
    }
}

/// Instantiating checks its parameters in order and names the first one that
/// is wrong: a commission of zero or above 50%, weights that do not add up to
/// one, a liquidity discount of 50% or more, an epoch period or an unbonding
/// period outside one hour to one year, or no concurrent unbondings. A message
/// is accepted exactly when every parameter is right.
pub proof fn law_instantiate_checks_parameters(msg: InstantiateMsg)
    ensures
        ({
            let commission_ok = 0 < msg.commission.atomics <= 500_000_000_000_000_000;
            let weights_ok = weight_sum(msg.validators@) == 1_000_000_000_000_000_000;
            let discount_ok = msg.liquidity_discount.atomics < 500_000_000_000_000_000;
            let epoch_ok = 3600 <= msg.epoch_period <= 31_536_000;
            let unbond_ok = 3600 <= msg.unbond_period <= 31_536_000;
            let concurrent_ok = msg.max_concurrent_unbondings > 0;
            &&& !commission_ok ==> instantiate_error(msg) == Some(ContractError::InvalidCommission)
            &&& commission_ok && !weights_ok ==> instantiate_error(msg) == Some(
                ContractError::InvalidValidatorWeights,
            )
            &&& commission_ok && weights_ok && !discount_ok ==> instantiate_error(msg) == Some(
                ContractError::InvalidLiquidityDiscount,
            )
            &&& commission_ok && weights_ok && discount_ok && !epoch_ok ==> instantiate_error(msg) == Some(
                ContractError::InvalidEpochPeriod,
            )
            &&& commission_ok && weights_ok && discount_ok && epoch_ok && !unbond_ok ==> instantiate_error(msg)
                == Some(ContractError::InvalidUnbondPeriod)
            &&& commission_ok && weights_ok && discount_ok && epoch_ok && unbond_ok && !concurrent_ok
                ==> instantiate_error(msg) == Some(ContractError::InvalidMaxConcurrentUnbondings)
            &&& instantiate_error(msg) is None <==> (commission_ok && weights_ok && discount_ok && epoch_ok
                && unbond_ok && concurrent_ok)
        }),
{
}

/// What a reply with the given id continues.
#[derive(Debug, Clone, Copy, PartialEq, Eq, Structural)]
pub enum ReplyAction {
    /// The token contract was created.
    TokenCreated,
    /// A withdrawal of rewards other than the last failed; nothing to do.
    IgnoreIntermittent,
    /// The last withdrawal of rewards finished; continue reinvesting.
    ContinueReinvest,
}

/// The action for a reply id: 1 after the token was created, 2 after the last
/// withdrawal of rewards, 3 after any other withdrawal; all others are refused.
pub fn reply_action(id: u64) -> (r: Result<ReplyAction, ContractError>)
    ensures
        id == 1 ==> r == Ok::<ReplyAction, ContractError>(ReplyAction::TokenCreated),
        id == 2 ==> r == Ok::<ReplyAction, ContractError>(ReplyAction::ContinueReinvest),
        id == 3 ==> r == Ok::<ReplyAction, ContractError>(ReplyAction::IgnoreIntermittent),
        !(1 <= id <= 3) ==> r == Err::<ReplyAction, ContractError>(ContractError::InvalidReplyId { id }),
{
    if id == 1 {
        Ok(ReplyAction::TokenCreated)
    } else if id == 3 {
        Ok(ReplyAction::IgnoreIntermittent)
    } else if id == 2 {
        Ok(ReplyAction::ContinueReinvest)
    } else {
        Err(ContractError::InvalidReplyId { id })
    }
}

/// The parameters of the liquid staking token the hub creates.
#[derive(Debug, Clone, PartialEq, Eq)]
pub struct TokenInitInfo {
    pub label: String,
    pub cw20_code_id: u64,
    pub name: String,
    pub symbol: String,
    pub decimals: u8,
    pub initial_balances: Vec<(String, u128)>,
}

/// The creation of the token: the given code with the given parameters,
/// administered and minted (without a cap) by the hub; the reply with
/// `reply_id` records its address.
#[derive(Debug, Clone, PartialEq, Eq)]
pub struct TokenInstantiate {
    pub code_id: u64,
    pub admin: String,
    pub label: String,
    pub name: String,
    pub symbol: String,
    pub decimals: u8,
    pub initial_balances: Vec<(String, u128)>,
    pub minter: String,
    pub reply_id: u64,
}

/// The message that creates the hub's token: the hub (`hub`, its own address)
/// is its admin and its only minter, and the reply after it is the one that
/// records the token (id 1, see `reply_action`).
pub fn token_instantiate(init: TokenInitInfo, hub: String) -> (r: TokenInstantiate)
    ensures
        r.code_id == init.cw20_code_id,
        r.admin@ == hub@,
        r.minter@ == hub@,
        r.label == init.label,
        r.name == init.name,
        r.symbol == init.symbol,
        r.decimals == init.decimals,
        r.initial_balances == init.initial_balances,
        r.reply_id == 1,
{
    TokenInstantiate {
        code_id: init.cw20_code_id,
        admin: hub.clone(),
        label: init.label,
        name: init.name,
        symbol: init.symbol,
        decimals: init.decimals,
        initial_balances: init.initial_balances,
        minter: hub,
        reply_id: 1,
    }
}

/// The sum of the weights of a validator set; panics-free when it fits.
fn sum_weights(validators: &Vec<(String, Decimal)>) -> (r: u128)
    requires
        weight_sum(validators@) <= u128::MAX,
    ensures
        r == weight_sum(validators@),
{
    let mut acc: u128 = 0;
    let mut i: usize = 0;
    while i < validators.len()
        invariant
            i <= validators.len(),
            weight_sum(validators@) <= u128::MAX,
            acc == weight_sum(validators@.take(i as int)),
        decreases validators.len() - i,
    {
        proof {
            assert(validators@.take(i + 1).drop_last() =~= validators@.take(i as int));
            lemma_weight_sum_prefix(validators@, i + 1);
        }
        acc = acc + validators[i].1.atomics;
        i = i + 1;
    }
    proof {
        assert(validators@.take(validators@.len() as int) =~= validators@);
    }
    acc
}

/// Validates the instantiate parameters and sets up the hub's state: a fresh
/// supply of `bond_denom`, no bonded stake, no unbondings and no slashings, and
/// both epochs one epoch period after the block time.
pub fn instantiate(msg: InstantiateMsg, block_nanos: u64, bond_denom: String) -> (r: Result<
    HubState,
    ContractError,
>)
    requires
        0 < msg.commission.atomics <= Decimal::spec_percent(50) ==> weight_sum(msg.validators@)
            <= u128::MAX,
        instantiate_error(msg) is None ==> secs(block_nanos) + msg.epoch_period <= u64::MAX,
    ensures
        instantiate_error(msg) matches Some(e) ==> r == Err::<HubState, ContractError>(e),
        r is Ok ==> {
            &&& 0 < msg.commission.atomics <= 500_000_000_000_000_000
            &&& weight_sum(msg.validators@) == 1_000_000_000_000_000_000
            &&& msg.liquidity_discount.atomics < 500_000_000_000_000_000
            &&& 3600 <= msg.epoch_period <= 31_536_000
            &&& 3600 <= msg.unbond_period <= 31_536_000
            &&& msg.max_concurrent_unbondings > 0
        },
        instantiate_error(msg) is None ==> (r matches Ok(state) && {
            let next = (secs(block_nanos) + msg.epoch_period) as u64;
            &&& state.ledger_wf()
            &&& state.config == (Config {
                owner: msg.owner,
                token_contract: state.config.token_contract,
                treasury: msg.treasury,
                commission: msg.commission,
                epoch_period: msg.epoch_period,
                unbond_period: msg.unbond_period,
                max_concurrent_unbondings: msg.max_concurrent_unbondings,
                next_epoch: next,
                next_unbond: next,
                tombstone_treshold: msg.tombstone_treshold,
                slashing_safety_margin: msg.slashing_safety_margin,
                liquidity_discount: msg.liquidity_discount,
            })
            &&& state.config.token_contract@ == Seq::<char>::empty()
            &&& state.supply == Supply::new_spec(bond_denom)
            &&& state.stake_info.validators == msg.validators
            &&& state.bonded@.len() == 0
            &&& state.unbonding@.len() == 0
            &&& state.slashings@.len() == 0
            &&& state.tmp_state is None
        }),
{
    if msg.commission.atomics == 0 || msg.commission.atomics > Decimal::percent(50).atomics {
        return Err(ContractError::InvalidCommission);
    }
    let total_weight = sum_weights(&msg.validators);
    if total_weight != DECIMAL_FRACTIONAL {
        return Err(ContractError::InvalidValidatorWeights);
    }
    if msg.liquidity_discount.atomics >= Decimal::percent(50).atomics {
        return Err(ContractError::InvalidLiquidityDiscount);
    }
    if !(msg.epoch_period >= 3600 && msg.epoch_period <= 31_536_000) {
        return Err(ContractError::InvalidEpochPeriod);
    }
    if !(msg.unbond_period >= 3600 && msg.unbond_period <= 31_536_000) {
        return Err(ContractError::InvalidUnbondPeriod);
    }
    if msg.max_concurrent_unbondings == 0 {
        return Err(ContractError::InvalidMaxConcurrentUnbondings);
    }
    let next_epoch = block_seconds(block_nanos) + msg.epoch_period;
    let config = Config {
        owner: msg.owner,
        token_contract: String::new(),
        treasury: msg.treasury,
        commission: msg.commission,
        epoch_period: msg.epoch_period,
        unbond_period: msg.unbond_period,
        max_concurrent_unbondings: msg.max_concurrent_unbondings,
        next_epoch,
        next_unbond: next_epoch,
        tombstone_treshold: msg.tombstone_treshold,
        slashing_safety_margin: msg.slashing_safety_margin,
        liquidity_discount: msg.liquidity_discount,
    };
    Ok(HubState {
        config,
        supply: Supply::new(bond_denom),
        stake_info: StakeInfo { validators: msg.validators },
        bonded: Vec::new(),
        unbonding: Vec::new(),
        slashings: Vec::new(),
        tmp_state: None,
    })
}


/// The commission on the rewards that came in since the balance was recorded.
pub open spec fn commission_due(s: HubState, balance: u128) -> int {
    spec_mul_floor(balance - s.tmp_state.unwrap().balance, s.config.commission.atomics as int)
}

/// What can pay the claims once the commission is sent: the rest of the
/// balance and what is still unbonding.
pub open spec fn claim_coverage(s: HubState, now: u64, balance: u128) -> int {
    balance - commission_due(s, balance) + spec_cleaned(s.supply, s.unbonding@, now).total_unbonding
}

/// The message that pays the commission to the treasury, if there is any.
pub open spec fn commission_msgs(s: HubState, fee: int) -> Seq<HubMsg> {
    if fee == 0 {
        Seq::empty()
    } else {
        seq![
            HubMsg::BankSend {
                to_address: s.config.treasury,
                amount: Coin { denom: s.supply.bond_denom, amount: fee as u128 },
            },
        ]
    }
}

/// The unbonding epoch can be advanced past `now` without failing arithmetic.
pub open spec fn unbond_epoch_defined(c: Config, now: u64) -> bool {
    let epoch = spec_div_ceil(c.unbond_period as int, c.max_concurrent_unbondings as int);
    &&& c.max_concurrent_unbondings > 0
    &&& epoch > 0
    &&& spec_next_after(c.next_unbond as int, epoch, now as int) <= u64::MAX
}

/// Reinvesting the rewards at `block_nanos` with the bank balance `balance`
/// runs without failing arithmetic or lookups: the balance did not drop since
/// it was recorded, the commission can be paid out of it, the amounts fit,
/// and stake is only taken from validators that hold it.
pub open spec fn withdraw_defined(s: HubState, block_nanos: u64, balance: u128) -> bool {
    let now = secs(block_nanos);
    let cleaned = spec_cleaned(s.supply, s.unbonding@, now);
    let vs = s.stake_info.validators@;
    let cov = claim_coverage(s, now, balance);
    &&& cleanable(s.supply, s.unbonding@, now)
    &&& balance != 0 && s.tmp_state is Some ==> {
        &&& balance >= s.tmp_state.unwrap().balance
        &&& commission_due(s, balance) <= balance
        &&& cov <= u128::MAX
        &&& cov > s.supply.claims ==> {
            &&& delegation_defined(vs, (cov - s.supply.claims) as u128)
            &&& s.supply.total_bonded + (cov - s.supply.claims) <= u128::MAX
        }
        &&& cov < s.supply.claims && now >= s.config.next_unbond ==> {
            let missing = (s.supply.claims - cov) as u128;
            let amounts = undelegation_amounts(vs, missing as int, s.bonded@);
            &&& unbond_epoch_defined(s.config, now)
            &&& undelegation_defined(vs, missing, s.bonded@)
            &&& debit_defined(vs, amounts, s.bonded@)
            &&& block_nanos + s.config.unbond_period * NANOS_PER_SECOND <= u64::MAX
            &&& cleaned.total_unbonding + sum(amounts) <= u128::MAX
        }
    }
}

/// What reinvesting the rewards does, given a recorded balance and a nonzero
/// bank balance: the commission on the new rewards goes to the treasury; if the
/// rest of the balance and the tokens still unbonding cover more than the
/// claims, the surplus is delegated by weight; if they cover less and the
/// unbonding epoch has come, the shortfall is undelegated by weight and queued
/// to complete one unbonding period from now; otherwise nothing is staked.
/// Validators left without stake are dropped from the bonded list, and
/// unbondings that completed are taken out of the queue and the supply.
pub open spec fn rewards_outcome(
    old: HubState,
    block_nanos: u64,
    balance: u128,
    msgs: Seq<HubMsg>,
    new: HubState,
) -> bool {
    let now = secs(block_nanos);
    let cleaned = spec_cleaned(old.supply, old.unbonding@, now);
    let fee = commission_due(old, balance);
    let cov = claim_coverage(old, now, balance);
    let vs = old.stake_info.validators@;
    let n = vs.len() as int;
    let pending = pending_entries(old.unbonding@, now);
    &&& new.stake_info == old.stake_info
    &&& new.slashings == old.slashings
    &&& new.tmp_state == old.tmp_state
    &&& forall|i: int| 0 <= i < new.bonded@.len() ==> (#[trigger] new.bonded@[i]).1 > 0
    &&& if cov > old.supply.claims {
        let amounts = delegation_amounts(vs, cov - old.supply.claims);
        &&& msgs == commission_msgs(old, fee) + stake_msgs(vs, amounts, old.supply.bond_denom, false, n)
        &&& forall|k: Seq<char>|
            #[trigger] lookup(new.bonded@, k) == lookup(old.bonded@, k) + amount_for(vs, amounts, k, n)
        &&& new.supply == (Supply {
            total_bonded: (old.supply.total_bonded + (cov - old.supply.claims)) as u128,
            ..cleaned
        })
        &&& new.config == old.config
        &&& new.unbonding@ == pending
    } else if cov < old.supply.claims && now >= old.config.next_unbond {
        let amounts = undelegation_amounts(vs, old.supply.claims - cov, old.bonded@);
        &&& msgs == commission_msgs(old, fee) + stake_msgs(vs, amounts, old.supply.bond_denom, true, n)
        &&& forall|k: Seq<char>|
            #[trigger] lookup(new.bonded@, k) == lookup(old.bonded@, k) - amount_for(vs, amounts, k, n)
        &&& new.supply == (Supply {
            total_bonded: (old.supply.total_bonded - sum(amounts)) as u128,
            total_unbonding: (cleaned.total_unbonding + sum(amounts)) as u128,
            ..cleaned
        })
        &&& new.config == (Config {
            next_unbond: spec_next_after(
                old.config.next_unbond as int,
                spec_div_ceil(old.config.unbond_period as int, old.config.max_concurrent_unbondings as int),
                now as int,
            ) as u64,
            ..old.config
        })
        &&& queue_view(new.unbonding@) == upsert_view(
            queue_view(pending),
            (now + old.config.unbond_period) as u64,
            unbonding_list(vs, amounts, n),
        )
    } else {
        &&& msgs == commission_msgs(old, fee)
        &&& forall|k: Seq<char>| #[trigger] lookup(new.bonded@, k) == lookup(old.bonded@, k)
        &&& new.supply == cleaned
        &&& new.config == old.config
        &&& new.unbonding@ == pending
    }
}


/// The validators with a nonzero weight, in order.
pub open spec fn weighted_validators(vs: Seq<(String, Decimal)>) -> Seq<(String, Decimal)> {
    vs.filter(|v: (String, Decimal)| v.1.atomics != 0)
}

/// Withdrawals of the rewards of the given validators, in order; only the last
/// one is marked to continue the reinvestment.
pub open spec fn withdraw_msgs(vs: Seq<(String, Decimal)>) -> Seq<HubMsg> {
    Seq::new(vs.len(), |i: int| HubMsg::WithdrawRewards { validator: vs[i].0, last: i == vs.len() - 1 })
}

/// The state once reinvesting has started at `now` (seconds): the reinvest
/// epoch has moved on and the bank balance is recorded.
pub open spec fn reinvest_start(s: HubState, now: u64, balance: u128) -> HubState {
    HubState {
        config: Config {
            next_epoch: spec_next_after(s.config.next_epoch as int, s.config.epoch_period as int, now as int)
                as u64,
            ..s.config
        },
        tmp_state: Some(TmpState { balance }),
        ..s
    }
}


/// The validators with a nonzero weight, in order.
fn nonzero_weights(vs: &Vec<(String, Decimal)>) -> (r: Vec<(String, Decimal)>)
    ensures
        r@ == weighted_validators(vs@),
{
    let mut r: Vec<(String, Decimal)> = Vec::new();
    let mut i: usize = 0;
    proof {
        assert(vs@.take(0) =~= Seq::<(String, Decimal)>::empty());
        reveal_with_fuel(Seq::filter, 1);
    }
    while i < vs.len()
        invariant
            i <= vs.len(),
            r@ == weighted_validators(vs@.take(i as int)),
        decreases vs.len() - i,
    {
        proof {
            assert(vs@.take(i + 1) =~= vs@.take(i as int).push(vs@[i as int]));
            vs@.take(i as int).lemma_filter_push(vs@[i as int], |v: (String, Decimal)| v.1.atomics != 0);
        }
        if vs[i].1.atomics != 0 {
            r.push((vs[i].0.clone(), vs[i].1));
        }
        i = i + 1;
    }
    proof {
        assert(vs@.take(vs@.len() as int) =~= vs@);
    }
    r
}


/// How much a detected slashing took: of the bonded stake, and of the tokens
/// that were unbonding.
#[derive(Debug, Clone, Copy, PartialEq, Eq, Structural)]
pub struct SlashReport {
    pub bonded_slashed: u128,
    pub unbonded_slashed: u128,
}

/// Checking for slashing at `block_nanos`, with the delegations the chain
/// reports, runs without failing arithmetic: the safety window fits around the
/// block time, every slashed validator has recorded stake, the scaled amounts
/// fit, and the stake and the unbonding tokens only shrink.
pub open spec fn slash_defined(s: HubState, block_nanos: u64, queried: Seq<(String, u128)>) -> bool {
    let now = secs(block_nanos);
    let margin = s.config.slashing_safety_margin;
    let cleaned = spec_cleaned(s.supply, s.unbonding@, now);
    let pending = queue_view(pending_entries(s.unbonding@, now));
    let new_queue = scaled_queue(pending, queried, s.bonded@);
    &&& margin <= now
    &&& now + margin <= u64::MAX
    &&& entries_between(s.unbonding@, (now - margin) as u64, (now + margin) as u64).len() == 0 ==> {
        &&& cleanable(s.supply, s.unbonding@, now)
        &&& multipliers_defined(queried, s.bonded@)
        &&& any_slashed(queried, s.bonded@) ==> {
            &&& bonded_scaling_fits(s.bonded@, queried)
            &&& queue_scaling_fits(pending, queried, s.bonded@)
            &&& pair_total(scaled_bonded(s.bonded@, queried)) <= s.supply.total_bonded
            &&& view_total(new_queue) <= u128::MAX
            &&& cleaned.total_unbonding != 0 ==> {
                &&& view_total(new_queue) <= cleaned.total_unbonding
                &&& cleaned.total_unbonding <= cleaned.claims
                &&& block_nanos + s.config.unbond_period * NANOS_PER_SECOND <= u64::MAX
            }
        }
    }
}


/// The contract address in the encoded reply to the instantiation of a
/// contract, or `None` if the bytes are no such reply.
pub uninterp spec fn instantiate_response_address(data: Seq<u8>) -> Option<Seq<char>>;

/// Calls `cw_utils::parse_instantiate_response_data` and keeps the contract
/// address. Claimed: the result depends on the bytes alone (it is named
/// `instantiate_response_address`); how the bytes are decoded is left to the
/// crate.
#[verifier::external_body]
fn parse_instantiate_address(data: &Vec<u8>) -> (r: Option<String>)
    ensures
        match r {
            Some(a) => instantiate_response_address(data@) == Some(a@),
            None => instantiate_response_address(data@) is None,
        },
{
    match cw_utils::parse_instantiate_response_data(data.as_slice()) {
        Ok(res) => Some(res.contract_address),
        Err(_) => None,
    }
}

/// The configuration as the hub reports it.
#[derive(Debug, Clone, PartialEq, Eq)]
pub struct ConfigResponse {
    pub owner: String,
    pub token_contract: String,
    pub treasury: String,
    pub commission: Decimal,
    pub epoch_period: u64,
    pub unbond_period: u64,
}

/// The part of the configuration the hub reports.
pub fn config_response(config: &Config) -> (r: ConfigResponse)
    ensures
        r == (ConfigResponse {
            owner: config.owner,
            token_contract: config.token_contract,
            treasury: config.treasury,
            commission: config.commission,
            epoch_period: config.epoch_period,
            unbond_period: config.unbond_period,
        }),
{
    ConfigResponse {
        owner: config.owner.clone(),
        token_contract: config.token_contract.clone(),
        treasury: config.treasury.clone(),
        commission: config.commission,
        epoch_period: config.epoch_period,
        unbond_period: config.unbond_period,
    }
}

impl HubState {
    /// The ledger matches the supply: the stake per validator is kept sorted by
    /// address and adds up to `total_bonded`; the unbonding queue is sorted by
    /// completion time, adds up to `total_unbonding`, and completes before one
    /// unbonding period after the next unbonding epoch.
    pub open spec fn ledger_wf(&self) -> bool {
        &&& keys_sorted(self.bonded@)
        &&& pair_total(self.bonded@) == self.supply.total_bonded
        &&& queue_wf(self.unbonding@)
        &&& queue_total(self.unbonding@) == self.supply.total_unbonding
        &&& keys_before(self.unbonding@, self.config.next_unbond + self.config.unbond_period)
    }

    /// Starts reinvesting, at most once per reinvest epoch: moves the epoch on
    /// and records the bank balance. With stake bonded, it asks for the rewards
    /// of every validator with a nonzero weight (the reply to the last one
    /// continues); with nothing bonded yet, it continues at once.
    pub fn reinvest(&mut self, block_nanos: u64, balance: u128) -> (r: Result<Vec<HubMsg>, ContractError>)
        requires
            old(self).ledger_wf(),
            secs(block_nanos) >= old(self).config.next_epoch ==> {
                &&& old(self).config.epoch_period > 0
                &&& spec_next_after(
                    old(self).config.next_epoch as int,
                    old(self).config.epoch_period as int,
                    secs(block_nanos) as int,
                ) <= u64::MAX
                &&& old(self).supply.total_bonded == 0 ==> withdraw_defined(
                    reinvest_start(*old(self), secs(block_nanos), balance),
                    block_nanos,
                    balance,
                )
            },
        ensures
            final(self).ledger_wf(),
            secs(block_nanos) < old(self).config.next_epoch ==> r == Err::<Vec<HubMsg>, ContractError>(
                ContractError::EpochNotReached { next_epoch: old(self).config.next_epoch },
            ) && *final(self) == *old(self),
            secs(block_nanos) >= old(self).config.next_epoch ==> {
                let start = reinvest_start(*old(self), secs(block_nanos), balance);
                &&& old(self).supply.total_bonded != 0 ==> (r matches Ok(m) && m@ == withdraw_msgs(
                    weighted_validators(old(self).stake_info.validators@),
                ) && *final(self) == start)
                &&& old(self).supply.total_bonded == 0 && balance == 0 ==> (r matches Ok(m)
                    && m@.len() == 0 && final(self).unbonding@ == pending_entries(
                    old(self).unbonding@,
                    secs(block_nanos),
                ) && *final(self) == (HubState {
                    unbonding: final(self).unbonding,
                    supply: spec_cleaned(old(self).supply, old(self).unbonding@, secs(block_nanos)),
                    ..start
                }))
                &&& old(self).supply.total_bonded == 0 && balance != 0 ==> (r matches Ok(m)
                    && rewards_outcome(start, block_nanos, balance, m@, *final(self)))
            },
    {
        let now = block_seconds(block_nanos);
        match self.config.next_epoch_after(now) {
            Ok(_) => {},
            Err(e) => {
                return Err(e);
            },
        }
        let validators = nonzero_weights(&self.stake_info.validators);
        self.tmp_state = Some(TmpState { balance });
        if self.supply.total_bonded == 0 {
            return self.after_withdraw_rewards(block_nanos, balance);
        }
        let mut msgs: Vec<HubMsg> = Vec::new();
        let len = validators.len();
        let mut i: usize = 0;
        while i < len
            invariant
                i <= len,
                len == validators@.len(),
                msgs@ == withdraw_msgs(validators@).take(i as int),
            decreases len - i,
        {
            msgs.push(HubMsg::WithdrawRewards { validator: validators[i].0.clone(), last: i == len - 1 });
            proof {
                assert(msgs@ =~= withdraw_msgs(validators@).take(i + 1));
            }
            i = i + 1;
        }
        proof {
            assert(withdraw_msgs(validators@).take(len as int) =~= withdraw_msgs(validators@));
        }
        Ok(msgs)
    }

    /// Compares the delegations the chain reports with the recorded stake. A
    /// validator whose stake dropped by at least the threshold was slashed: its
    /// recorded stake and its pending unbondings are scaled by what is left of
    /// it, and the claims lose what the unbondings lost; a slashing event with
    /// the overall factor of the unbondings is recorded for the claims that
    /// complete within one unbonding period. Refused while an unbonding
    /// completes within the safety margin around the block time.
    pub fn check_slash(&mut self, block_nanos: u64, queried: &Vec<(String, u128)>) -> (r: Result<
        Option<SlashReport>,
        ContractError,
    >)
        requires
            old(self).ledger_wf(),
            slash_defined(*old(self), block_nanos, queried@),
        ensures
            final(self).ledger_wf(),
            ({
                let now = secs(block_nanos);
                let margin = old(self).config.slashing_safety_margin;
                let cleaned = spec_cleaned(old(self).supply, old(self).unbonding@, now);
                let pending = pending_entries(old(self).unbonding@, now);
                let new_bonded = scaled_bonded(old(self).bonded@, queried@);
                let new_queue = scaled_queue(queue_view(pending), queried@, old(self).bonded@);
                let old_tu = cleaned.total_unbonding;
                let new_tu = view_total(new_queue);
                if entries_between(old(self).unbonding@, (now - margin) as u64, (now + margin) as u64).len() != 0 {
                    &&& r == Err::<Option<SlashReport>, ContractError>(ContractError::UnbondingTooClose)
                    &&& *final(self) == *old(self)
                } else if !any_slashed(queried@, old(self).bonded@) {
                    &&& r == Ok::<Option<SlashReport>, ContractError>(None)
                    &&& final(self).unbonding@ == pending
                    &&& *final(self) == (HubState {
                        unbonding: final(self).unbonding,
                        supply: cleaned,
                        ..*old(self)
                    })
                } else {
                    &&& r == Ok::<Option<SlashReport>, ContractError>(
                        Some(
                            SlashReport {
                                bonded_slashed: (old(self).supply.total_bonded - pair_total(new_bonded)) as u128,
                                unbonded_slashed: if old_tu == 0 {
                                    0
                                } else {
                                    (old_tu - new_tu) as u128
                                },
                            },
                        ),
                    )
                    &&& final(self).bonded@ == new_bonded
                    &&& queue_view(final(self).unbonding@) == new_queue
                    &&& final(self).supply == (Supply {
                        total_bonded: pair_total(new_bonded) as u128,
                        total_unbonding: new_tu as u128,
                        claims: if old_tu == 0 {
                            cleaned.claims
                        } else {
                            (cleaned.claims - old_tu + new_tu) as u128
                        },
                        ..cleaned
                    })
                    &&& final(self).slashings@ == if old_tu == 0 {
                        old(self).slashings@
                    } else {
                        old(self).slashings@.push(
                            Slashing {
                                start: now,
                                end: (now + old(self).config.unbond_period) as u64,
                                multiplier: Decimal { atomics: spec_ratio(new_tu, old_tu as int) as u128 },
                            },
                        )
                    }
                    &&& final(self).config == old(self).config
                    &&& final(self).stake_info == old(self).stake_info
                    &&& final(self).tmp_state == old(self).tmp_state
                }
            }),
    {
        let now = block_seconds(block_nanos);
        let margin = self.config.slashing_safety_margin;
        let close = unbondings_expiring_between(&self.unbonding, now - margin, now + margin);
        proof {
            assert(queue_view(close@).len() == close@.len());
            assert(queue_view(entries_between(self.unbonding@, (now - margin) as u64, (now + margin) as u64)).len()
                == entries_between(self.unbonding@, (now - margin) as u64, (now + margin) as u64).len());
        }
        if close.len() > 0 {
            return Err(ContractError::UnbondingTooClose);
        }
        let ghost old_self = *self;
        let cleaned = self.supply.duplicate().cleanup_unbonding(&mut self.unbonding, now);
        proof {
            lemma_filter_wf(old_self.unbonding@, |e: QueueEntry| e.0 > now);
        }
        let mut supply = cleaned.into_supply();
        if !detect_slashing(queried, &self.bonded) {
            self.supply = supply;
            return Ok(None);
        }
        let old_tb = supply.total_bonded;
        let old_tu = supply.total_unbonding;
        let new_bonded = scale_bonded(&self.bonded, queried);
        let ghost pq = self.unbonding@;
        let new_queue = scale_queue(&self.unbonding, queried, &self.bonded);
        proof {
            lemma_view_total(new_queue@);
            let bound = self.config.next_unbond + self.config.unbond_period;
            let sq = scaled_queue(queue_view(pq), queried@, self.bonded@);
            assert(queue_view(new_queue@).len() == new_queue@.len());
            assert(queue_view(pq).len() == pq.len());
            assert(keys_before(pq, bound));
            assert forall|i: int| 0 <= i < new_queue@.len() implies new_queue@[i].0 < bound by {
                assert(pq[i].0 < bound);
                assert(queue_view(new_queue@)[i] == entry_view(new_queue@[i]));
                assert(sq[i].0 == queue_view(pq)[i].0);
                assert(queue_view(pq)[i] == entry_view(pq[i]));
            }
        }
        self.bonded = new_bonded;
        supply.total_bonded = total_amount(&self.bonded);
        self.unbonding = new_queue;
        supply.total_unbonding = queue_amount(&self.unbonding);
        let bonded_slashed = old_tb - supply.total_bonded;
        if old_tu == 0 {
            self.supply = supply;
            return Ok(Some(SlashReport { bonded_slashed, unbonded_slashed: 0 }));
        }
        proof {
            let a: int = supply.total_unbonding as int;
            let b: int = old_tu as int;
            assert((a * (DECIMAL_FRACTIONAL as int)) / b <= DECIMAL_FRACTIONAL as int) by (nonlinear_arith)
                requires
                    0 <= a <= b,
                    b > 0,
            ;
        }
        let multiplier = Decimal::from_ratio(supply.total_unbonding, old_tu);
        supply.claims = (supply.claims - old_tu) + supply.total_unbonding;
        let unbonded_slashed = old_tu - supply.total_unbonding;
        self.supply = supply;
        let end = (block_nanos + self.config.unbond_period * NANOS_PER_SECOND) / NANOS_PER_SECOND;
        proof {
            let up: int = self.config.unbond_period as int;
            let b: int = block_nanos as int;
            let nn: int = NANOS_PER_SECOND as int;
            assert((b + up * nn) / nn == b / nn + up) by (nonlinear_arith)
                requires
                    nn > 0,
            ;
        }
        self.slashings.push(Slashing { start: now, end, multiplier });
        Ok(Some(SlashReport { bonded_slashed, unbonded_slashed }))
    }

    /// Replaces the validator set; only the owner may. With stake bonded, the
    /// stake is first rebalanced onto the new set by redelegations (see
    /// `rebalanced`), which keep the total bonded stake.
    #[verifier::spinoff_prover]
    pub fn set_validators(
        &mut self,
        block_nanos: u64,
        sender: &String,
        new_validators: Vec<(String, Decimal)>,
    ) -> (r: Result<Vec<HubMsg>, ContractError>)
        requires
            old(self).ledger_wf(),
            old(self).config.owner@ == sender@ ==> {
                &&& cleanable(old(self).supply, old(self).unbonding@, secs(block_nanos))
                &&& old(self).supply.total_bonded != 0 ==> targets_fit(
                    new_validators@,
                    old(self).supply.total_bonded,
                )
            },
        ensures
            final(self).ledger_wf(),
            old(self).config.owner@ != sender@ ==> r == Err::<Vec<HubMsg>, ContractError>(
                ContractError::Unauthorized,
            ) && *final(self) == *old(self),
            old(self).config.owner@ == sender@ ==> {
                let cleaned = spec_cleaned(old(self).supply, old(self).unbonding@, secs(block_nanos));
                &&& r matches Ok(m)
                &&& final(self).stake_info == (StakeInfo { validators: new_validators })
                &&& final(self).unbonding@ == pending_entries(old(self).unbonding@, secs(block_nanos))
                &&& final(self).config == old(self).config
                &&& final(self).slashings == old(self).slashings
                &&& final(self).tmp_state == old(self).tmp_state
                &&& old(self).supply.total_bonded == 0 ==> {
                    &&& r->Ok_0@.len() == 0
                    &&& final(self).bonded == old(self).bonded
                    &&& final(self).supply == cleaned
                }
                &&& old(self).supply.total_bonded != 0 ==> exists|redelegations: Seq<StakingMsg>|
                    {
                        &&& r->Ok_0@ == redelegations.map_values(|x: StakingMsg| HubMsg::Staking(x))
                        &&& rebalanced(
                            old(self).bonded@,
                            new_validators@,
                            old(self).supply.total_bonded,
                            old(self).supply.bond_denom@,
                            redelegations,
                            final(self).bonded@,
                        )
                        &&& exists|givers: Seq<(String, u128)>, receivers: Seq<(String, u128)>|
                            {
                                &&& givers_in_order(
                                    givers,
                                    old(self).bonded@,
                                    new_validators@,
                                    old(self).supply.total_bonded,
                                )
                                &&& receivers_in_order(
                                    receivers,
                                    old(self).bonded@,
                                    new_validators@,
                                    old(self).supply.total_bonded,
                                )
                                &&& redelegations == greedy_redelegations(
                                    givers,
                                    receivers,
                                    old(self).supply.bond_denom,
                                    receivers.len() as int,
                                ).1
                            }
                        &&& final(self).supply == cleaned
                    }
                &&& old(self).supply.total_bonded != 0 && weight_sum(new_validators@) <= DECIMAL_FRACTIONAL
                    ==> forall|k: Seq<char>|
                    #[trigger] lookup(final(self).bonded@, k) >= target_of(
                        new_validators@,
                        old(self).supply.total_bonded,
                        k,
                    )
            },
    {
        if self.config.owner != *sender {
            return Err(ContractError::Unauthorized);
        }
        let ghost old_self = *self;
        let now = block_seconds(block_nanos);
        let loaded = CleanedSupply::load(self.supply.duplicate(), &mut self.unbonding, now);
        proof {
            lemma_filter_wf(old_self.unbonding@, |e: QueueEntry| e.0 > now);
        }
        let mut supply = loaded.into_supply();
        let mut msgs: Vec<HubMsg> = Vec::new();
        if supply.total_bonded != 0 {
            let ValsetChange { messages, new_balances } = valset_change_redelegation_messages(
                &supply,
                &self.bonded,
                &new_validators,
            );
            let ghost redelegations = messages@;
            proof {
                lemma_sorted_keys_distinct(old_self.bonded@);
                if weight_sum(new_validators@) <= DECIMAL_FRACTIONAL {
                    law_rebalance_meets_targets(
                        old_self.bonded@,
                        new_validators@,
                        supply.total_bonded,
                        supply.bond_denom@,
                        redelegations,
                        new_balances@,
                    );
                }
            }
            let mut rest = messages;
            let ghost mut k: int = 0;
            proof {
                assert(redelegations.skip(0) =~= redelegations);
            }
            while rest.len() > 0
                invariant
                    0 <= k <= redelegations.len(),
                    rest@ == redelegations.skip(k),
                    msgs@ == redelegations.take(k).map_values(|x: StakingMsg| HubMsg::Staking(x)),
                decreases rest.len(),
            {
                let m = rest.remove(0);
                msgs.push(HubMsg::Staking(m));
                proof {
                    assert(redelegations.skip(k + 1) =~= redelegations.skip(k).remove(0));
                    assert(redelegations.take(k + 1).map_values(|x: StakingMsg| HubMsg::Staking(x))
                        =~= redelegations.take(k).map_values(|x: StakingMsg| HubMsg::Staking(x)).push(
                        HubMsg::Staking(m),
                    ));
                    k = k + 1;
                }
            }
            proof {
                assert(redelegations.take(k) =~= redelegations);
            }
            self.bonded = new_balances;
            supply.total_bonded = total_amount(&self.bonded);
        }
        self.supply = supply;
        self.stake_info = StakeInfo { validators: new_validators };
        Ok(msgs)
    }

    /// Records the token contract from the parsed reply to its creation
    /// (`None` if it could not be parsed) and hands its admin role to `admin`.
    pub fn token_created(&mut self, token: Option<String>, admin: String) -> (r: Result<HubMsg, ContractError>)
        ensures
            old(self).ledger_wf() ==> final(self).ledger_wf(),
            token is None ==> r == Err::<HubMsg, ContractError>(ContractError::ParseReply) && *final(self)
                == *old(self),
            token matches Some(t) ==> r == Ok::<HubMsg, ContractError>(HubMsg::UpdateAdmin { contract: t, admin })
                && *final(self) == (HubState {
                config: Config { token_contract: t, ..old(self).config },
                ..*old(self)
            }),
    {
        match token {
            Some(t) => {
                self.config.token_contract = t.clone();
                Ok(HubMsg::UpdateAdmin { contract: t, admin })
            },
            None => Err(ContractError::ParseReply),
        }
    }

    /// Continues after the token contract was created: reads its address from
    /// the encoded reply `data` (see `token_created`).
    pub fn after_token_creation(&mut self, data: &Vec<u8>, admin: String) -> (r: Result<HubMsg, ContractError>)
        ensures
            old(self).ledger_wf() ==> final(self).ledger_wf(),
            instantiate_response_address(data@) is None ==> r == Err::<HubMsg, ContractError>(
                ContractError::ParseReply,
            ) && *final(self) == *old(self),
            instantiate_response_address(data@) matches Some(a) ==> (r matches Ok(HubMsg::UpdateAdmin { contract, admin: to }) && contract@
                == a && to == admin && *final(self) == (HubState {
                config: Config { token_contract: contract, ..old(self).config },
                ..*old(self)
            })),
    {
        let token = parse_instantiate_address(data);
        self.token_created(token, admin)
    }

    /// Reinvests what came in since the last reinvest recorded the balance:
    /// pays the commission on the rewards, then delegates the surplus over the
    /// claims or undelegates the shortfall (see `rewards_outcome`). With an
    /// empty bank balance it only removes the completed unbondings from the
    /// queue; without a recorded balance it fails and changes nothing.
    pub fn after_withdraw_rewards(&mut self, block_nanos: u64, balance: u128) -> (r: Result<
        Vec<HubMsg>,
        ContractError,
    >)
        requires
            old(self).ledger_wf(),
            withdraw_defined(*old(self), block_nanos, balance),
        ensures
            final(self).ledger_wf(),
            balance != 0 && old(self).tmp_state is None ==> r == Err::<Vec<HubMsg>, ContractError>(
                ContractError::NotFound,
            ) && *final(self) == *old(self),
            balance == 0 ==> (r matches Ok(m) && m@.len() == 0) && final(self).unbonding@
                == pending_entries(old(self).unbonding@, secs(block_nanos)) && *final(self) == (
            HubState {
                unbonding: final(self).unbonding,
                supply: spec_cleaned(old(self).supply, old(self).unbonding@, secs(block_nanos)),
                ..*old(self)
            }),
            balance != 0 && old(self).tmp_state is Some ==> (r matches Ok(m) && rewards_outcome(
                *old(self),
                block_nanos,
                balance,
                m@,
                *final(self),
            )),
    {
        if balance != 0 && self.tmp_state.is_none() {
            return Err(ContractError::NotFound);
        }
        let ghost old_self = *self;
        let now = block_seconds(block_nanos);
        let loaded = CleanedSupply::load(self.supply.duplicate(), &mut self.unbonding, now);
        proof {
            lemma_filter_wf(old_self.unbonding@, |e: QueueEntry| e.0 > now);
        }
        let mut supply = loaded.into_supply();
        if balance == 0 {
            self.supply = supply;
            return Ok(Vec::new());
        }
        let recorded = match self.tmp_state {
            Some(t) => t.balance,
            None => {
                return Err(ContractError::NotFound);
            },
        };
        let mut msgs: Vec<HubMsg> = Vec::new();
        let rewards = balance - recorded;
        let fee = mul_floor(rewards, self.config.commission);
        let mut left = balance;
        if fee != 0 {
            left = left - fee;
            msgs.push(
                HubMsg::BankSend {
                    to_address: self.config.treasury.clone(),
                    amount: Coin { denom: supply.bond_denom.clone(), amount: fee },
                },
            );
        }
        proof {
            assert(msgs@ =~= commission_msgs(old_self, fee as int));
        }
        let coverage = left + supply.total_unbonding;
        let ghost b0 = self.bonded@;
        if coverage > supply.claims {
            let surplus = coverage - supply.claims;
            let pays = delegation_split(&self.stake_info.validators, surplus);
            proof {
                lemma_delegation_sum(old_self.stake_info.validators@, surplus as int);
            }
            credit_validators(&mut self.bonded, &self.stake_info.validators, &pays);
            let mut stake = staking_messages(&self.stake_info.validators, &pays, &supply.bond_denom, false);
            msgs.append(&mut stake);
        } else if coverage < supply.claims {
            let due = self.config.next_unbond_after(now);
            if due.is_ok() {
                let missing = supply.claims - coverage;
                let pays = undelegation_split(&self.stake_info.validators, missing, &self.bonded);
                debit_validators(&mut self.bonded, &self.stake_info.validators, &pays);
                let unbondings = unbondings_for(&self.stake_info.validators, &pays);
                proof {
                    lemma_unbonding_list_total(
                        old_self.stake_info.validators@,
                        ints(pays@),
                        pays@.len() as int,
                    );
                    assert(ints(pays@).take(pays@.len() as int) =~= ints(pays@));
                }
                let unbond_time = (block_nanos + self.config.unbond_period * NANOS_PER_SECOND)
                    / NANOS_PER_SECOND;
                proof {
                    let up: int = self.config.unbond_period as int;
                    let b: int = block_nanos as int;
                    let nn: int = NANOS_PER_SECOND as int;
                    assert((b + up * nn) / nn == b / nn + up) by (nonlinear_arith)
                        requires
                            nn > 0,
                    ;
                }
                let total_unbonded = unbonding_sum(&unbondings);
                let ghost pq = self.unbonding@;
                let ghost entry: QueueEntry = (unbond_time, unbondings);
                proof {
                    assert(keys_before(pq, unbond_time as int));
                    lemma_upsert_append(pq, unbond_time, unbondings@);
                }
                save_unbonding(&mut self.unbonding, unbond_time, unbondings);
                proof {
                    assert(queue_view(pq.push(entry)) =~= queue_view(pq).push(entry_view(entry)));
                    lemma_queue_total_view(self.unbonding@, pq.push(entry));
                    lemma_queue_total_push(pq, entry);
                    let bound = self.config.next_unbond + self.config.unbond_period;
                    assert forall|i: int| 0 <= i < self.unbonding@.len() implies self.unbonding@[i].0
                        < bound by {
                        assert(self.unbonding@[i].0 == pq.push(entry)[i].0);
                        if i < pq.len() {
                            assert(pq.push(entry)[i] == pq[i]);
                        }
                    }
                }
                supply.total_unbonding = supply.total_unbonding + total_unbonded;
                let mut stake = staking_messages(&self.stake_info.validators, &pays, &supply.bond_denom, true);
                msgs.append(&mut stake);
            }
        }
        let new_balances = drop_zero_amounts(&self.bonded);
        self.bonded = new_balances;
        supply.total_bonded = total_amount(&self.bonded);
        self.supply = supply;
        Ok(msgs)
    }

    /// Replaces the liquidity discount; only the owner may, and it must stay below 50%.
    pub fn update_liquidity_discount(&mut self, sender: &String, new_discount: Decimal) -> (r: Result<
        (),
        ContractError,
    >)
        ensures
            old(self).ledger_wf() ==> final(self).ledger_wf(),
            old(self).config.owner@ != sender@ ==> r == Err::<(), ContractError>(
                ContractError::Unauthorized,
            ),
            old(self).config.owner@ == sender@ && new_discount.atomics >= Decimal::spec_percent(50)
                ==> r == Err::<(), ContractError>(ContractError::InvalidLiquidityDiscount),
            old(self).config.owner@ == sender@ && new_discount.atomics < Decimal::spec_percent(50)
                ==> r is Ok,
            r is Err ==> *final(self) == *old(self),
            r is Ok ==> old(self).config.owner@ == sender@ && new_discount.atomics
                < Decimal::spec_percent(50) && *final(self) == (HubState {
                config: Config { liquidity_discount: new_discount, ..old(self).config },
                ..*old(self)
            }),
    {
        if self.config.owner != *sender {
            return Err(ContractError::Unauthorized);
        }
        if new_discount.atomics >= Decimal::percent(50).atomics {
            return Err(ContractError::InvalidLiquidityDiscount);
        }
        self.config.liquidity_discount = new_discount;
        Ok(())
    }

    /// Accepts a deposit of the bond denomination and mints shares for it at the
    /// exchange rate from before the deposit (`balance` already includes it).
    pub fn bond(&mut self, block_nanos: u64, funds: &Vec<Coin>, sender: &String, balance: u128) -> (r:
        Result<HubMsg, ContractError>)
        requires
            old(self).ledger_wf(),
            cleanable(old(self).supply, old(self).unbonding@, secs(block_nanos)),
            spec_must_pay(funds@, old(self).supply.bond_denom@) is Ok ==> bond_defined(
                spec_cleaned(old(self).supply, old(self).unbonding@, secs(block_nanos)),
                funds@[0].amount,
                balance,
            ),
        ensures
            final(self).ledger_wf(),
            spec_must_pay(funds@, old(self).supply.bond_denom@) is Err ==> (r matches Err(
                ContractError::Payment(e),
            ) && is_payment_error(funds@, old(self).supply.bond_denom@, e)) && *final(self) == *old(self),
            spec_must_pay(funds@, old(self).supply.bond_denom@) is Ok ==> {
                let cleaned = spec_cleaned(old(self).supply, old(self).unbonding@, secs(block_nanos));
                let issue = spec_issue(cleaned, funds@[0].amount, balance);
                &&& r == Ok::<HubMsg, ContractError>(
                    HubMsg::Mint {
                        contract: old(self).config.token_contract,
                        recipient: *sender,
                        amount: issue as u128,
                    },
                )
                &&& final(self).unbonding@ == pending_entries(old(self).unbonding@, secs(block_nanos))
                &&& *final(self) == (HubState {
                    supply: Supply { issued: (cleaned.issued + issue) as u128, ..cleaned },
                    unbonding: final(self).unbonding,
                    ..*old(self)
                })
            },
    {
        let paid = match must_pay(funds, &self.supply.bond_denom) {
            Ok(p) => p,
            Err(e) => {
                return Err(ContractError::Payment(e));
            },
        };
        let now = block_seconds(block_nanos);
        let ghost q0 = self.unbonding@;
        let supply = CleanedSupply::load(self.supply.duplicate(), &mut self.unbonding, now);
        proof {
            lemma_filter_wf(q0, |e: QueueEntry| e.0 > now);
        }
        let balance_before = if balance >= paid {
            balance - paid
        } else {
            0
        };
        let rate = supply.shares_per_token(balance_before);
        let issue = mul_floor(paid, rate);
        let mut new_supply = supply.into_supply();
        new_supply.issued = new_supply.issued + issue;
        self.supply = new_supply;
        Ok(HubMsg::Mint { contract: self.config.token_contract.clone(), recipient: sender.clone(), amount: issue })
    }

    /// Burns the liquid staking tokens sent back by the token contract and gives
    /// their sender a claim on the native tokens they are worth, released one
    /// unbonding period after the next unbonding epoch. Only the token contract
    /// may send them.
    pub fn unbond(
        &mut self,
        block_nanos: u64,
        contract_sender: &String,
        amount: u128,
        balance: u128,
        claims: &mut Vec<Claim>,
    ) -> (r: Result<HubMsg, ContractError>)
        requires
            old(self).ledger_wf(),
            old(self).config.token_contract@ == contract_sender@ ==> {
                &&& cleanable(old(self).supply, old(self).unbonding@, secs(block_nanos))
                &&& unbond_defined(
                    spec_cleaned(old(self).supply, old(self).unbonding@, secs(block_nanos)),
                    amount,
                    balance,
                )
                &&& claim_release(old(self).config) * NANOS_PER_SECOND <= u64::MAX
            },
        ensures
            final(self).ledger_wf(),
            old(self).config.token_contract@ != contract_sender@ ==> r == Err::<HubMsg, ContractError>(
                ContractError::InvalidToken,
            ) && *final(self) == *old(self) && final(claims)@ == old(claims)@,
            old(self).config.token_contract@ == contract_sender@ ==> {
                let cleaned = spec_cleaned(old(self).supply, old(self).unbonding@, secs(block_nanos));
                let native = spec_mul_floor(amount as int, spec_tokens_per_share(cleaned, balance));
                &&& r == Ok::<HubMsg, ContractError>(
                    HubMsg::Burn { contract: old(self).config.token_contract, amount },
                )
                &&& final(self).unbonding@ == pending_entries(old(self).unbonding@, secs(block_nanos))
                &&& *final(self) == (HubState {
                    supply: Supply {
                        issued: (cleaned.issued - amount) as u128,
                        claims: (cleaned.claims + native) as u128,
                        ..cleaned
                    },
                    unbonding: final(self).unbonding,
                    ..*old(self)
                })
                &&& final(claims)@ == old(claims)@.push(
                    Claim { amount: native as u128, release_at: claim_release(old(self).config) as u64 },
                )
            },
    {
        if self.config.token_contract != *contract_sender {
            return Err(ContractError::InvalidToken);
        }
        let now = block_seconds(block_nanos);
        let ghost q0 = self.unbonding@;
        let mut supply = CleanedSupply::load(self.supply.duplicate(), &mut self.unbonding, now);
        proof {
            lemma_filter_wf(q0, |e: QueueEntry| e.0 > now);
        }
        let native = supply.unbond(amount, balance);
        self.supply = supply.into_supply();
        let next_unbond = if self.config.next_unbond >= self.config.next_epoch {
            self.config.next_unbond
        } else {
            self.config.next_epoch
        };
        create_claim(claims, native, next_unbond + self.config.unbond_period);
        Ok(HubMsg::Burn { contract: self.config.token_contract.clone(), amount })
    }

    /// Pays out the sender's mature claims (adjusted for slashing) that the bank
    /// balance can cover, and takes them out of the supply's claims.
    pub fn claim(&mut self, block_nanos: u64, sender: &String, claims: &mut Vec<Claim>, balance: u128) -> (r:
        Result<HubMsg, ContractError>)
        requires
            claims_adjustable(old(claims)@, secs(block_nanos), old(self).slashings@),
        ensures
            old(self).ledger_wf() ==> final(self).ledger_wf(),
            r matches Ok(HubMsg::BankSend { amount, .. }) ==> 0 < amount.amount <= balance
                && amount.amount <= old(self).supply.claims,
            ({
                let outcome = spec_claim_tokens(old(claims)@, secs(block_nanos), old(self).slashings@, balance);
                &&& outcome.0 == 0 ==> r == Err::<HubMsg, ContractError>(ContractError::NothingToClaim)
                &&& outcome.0 != 0 && outcome.0 > old(self).supply.claims ==> r == Err::<
                    HubMsg,
                    ContractError,
                >(ContractError::Overflow)
                &&& r is Err ==> *final(self) == *old(self) && final(claims)@ == old(claims)@
                &&& outcome.0 != 0 && outcome.0 <= old(self).supply.claims ==> {
                    &&& r == Ok::<HubMsg, ContractError>(
                        HubMsg::BankSend {
                            to_address: *sender,
                            amount: Coin {
                                denom: old(self).supply.bond_denom,
                                amount: outcome.0 as u128,
                            },
                        },
                    )
                    &&& *final(self) == (HubState {
                        supply: Supply {
                            claims: (old(self).supply.claims - outcome.0) as u128,
                            ..old(self).supply
                        },
                        ..*old(self)
                    })
                    &&& final(claims)@ == outcome.1
                }
            }),
    {
        let now = block_seconds(block_nanos);
        let (to_send, waiting) = claim_tokens(claims, now, &self.slashings, balance);
        if to_send == 0 {
            return Err(ContractError::NothingToClaim);
        }
        match self.supply.claim(to_send) {
            Ok(()) => {},
            Err(_) => {
                return Err(ContractError::Overflow);
            },
        }
        *claims = waiting;
        Ok(
            HubMsg::BankSend {
                to_address: sender.clone(),
                amount: Coin { denom: self.supply.bond_denom.clone(), amount: to_send },
            },
        )
    }

    /// The exchange rate: native tokens per share, counting unbondings that
    /// completed by now as paid out (without changing the state).
    pub fn exchange_rate(&self, block_nanos: u64, balance: u128) -> (r: Decimal)
        requires
            cleanable(self.supply, self.unbonding@, secs(block_nanos)),
            tokens_per_share_defined(spec_cleaned(self.supply, self.unbonding@, secs(block_nanos)), balance),
        ensures
            r.atomics == spec_tokens_per_share(
                spec_cleaned(self.supply, self.unbonding@, secs(block_nanos)),
                balance,
            ),
    {
        let now = block_seconds(block_nanos);
        let supply = CleanedSupply::load_for_query(self.supply.duplicate(), &self.unbonding, now);
        supply.tokens_per_share(balance)
    }

    /// The exchange rate reduced by the liquidity discount.
    pub fn target_value(&self, block_nanos: u64, balance: u128) -> (r: Decimal)
        requires
            cleanable(self.supply, self.unbonding@, secs(block_nanos)),
            tokens_per_share_defined(spec_cleaned(self.supply, self.unbonding@, secs(block_nanos)), balance),
            self.config.liquidity_discount.atomics <= DECIMAL_FRACTIONAL,
            spec_mul_floor(
                spec_tokens_per_share(spec_cleaned(self.supply, self.unbonding@, secs(block_nanos)), balance),
                DECIMAL_FRACTIONAL - self.config.liquidity_discount.atomics,
            ) <= u128::MAX,
        ensures
            r.atomics == spec_mul_floor(
                spec_tokens_per_share(spec_cleaned(self.supply, self.unbonding@, secs(block_nanos)), balance),
                DECIMAL_FRACTIONAL - self.config.liquidity_discount.atomics,
            ),
    {
        let rate = self.exchange_rate(block_nanos, balance);
        let factor = Decimal::one().minus(self.config.liquidity_discount);
        rate.mul_decimal(factor)
    }
}

} // verus!
