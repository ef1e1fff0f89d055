//! Runs the hub against a small model of the chain: a bank balance, the
//! delegations with their staking rewards (80% a year, 5% validator
//! commission), the native unbondings, and the holders' tokens and claims.
use wynd_lsd::decimal::Decimal;
use wynd_lsd::error::ContractError;
use wynd_lsd::hub::{instantiate, HubState, InstantiateMsg};
use wynd_lsd::msg::{Coin, HubMsg, StakingMsg};
use wynd_lsd::state::{unbonding_info_num_epochs, unbonding_info_total_entries, Claim};

const DENOM: &str = "FUN";
const LSD: &str = "lsd";
const HOUR: u64 = 60 * 60;
const DAY: u64 = 24 * HOUR;
const MINUTE: u64 = 60;
const SEC: u64 = 1_000_000_000;
const START: u64 = 1_571_797_419_879_305_533;
const YEAR: u128 = 365 * 24 * 60 * 60;
const UNBONDING_TIME: u64 = 28 * DAY;

fn get(v: &[(String, u128)], k: &str) -> u128 {
    v.iter().find(|(a, _)| a == k).map(|(_, x)| *x).unwrap_or(0)
}

fn add(v: &mut Vec<(String, u128)>, k: &str, x: u128) {
    match v.iter_mut().find(|(a, _)| a == k) {
        Some((_, y)) => *y += x,
        None => v.push((k.to_string(), x)),
    }
}

fn sub(v: &mut Vec<(String, u128)>, k: &str, x: u128) {
    let (_, y) = v.iter_mut().find(|(a, _)| a == k).unwrap();
    *y -= x;
}

struct Chain {
    hub: HubState,
    now: u64,
    /// The hub's bank balance.
    balance: u128,
    /// Delegations per validator.
    stakes: Vec<(String, u128)>,
    /// Stake times seconds since the last withdrawal, per validator.
    accrued: Vec<(String, u128)>,
    /// Native unbondings: completion (seconds), validator, amount.
    unbondings: Vec<(u64, String, u128)>,
    lsd: Vec<(String, u128)>,
    native: Vec<(String, u128)>,
    claims: Vec<(String, Vec<Claim>)>,
    treasury: u128,
}

struct Setup {
    validators: Vec<(&'static str, Decimal)>,
    epoch_period: u64,
    unbond_period: u64,
    liquidity_discount: Decimal,
    balances: Vec<(&'static str, u128)>,
}

impl Setup {
    fn new() -> Setup {
        Setup {
            validators: vec![("testvaloper1", Decimal::percent(100))],
            epoch_period: 23 * HOUR,
            unbond_period: 28 * DAY,
            liquidity_discount: Decimal::percent(4),
            balances: vec![],
        }
    }
    fn validators(mut self, v: Vec<(&'static str, Decimal)>) -> Setup {
        self.validators = v;
        self
    }
    fn periods(mut self, epoch: u64, unbond: u64) -> Setup {
        self.epoch_period = epoch;
        self.unbond_period = unbond;
        self
    }
    fn discount(mut self, d: Decimal) -> Setup {
        self.liquidity_discount = d;
        self
    }
    fn balances(mut self, b: Vec<(&'static str, u128)>) -> Setup {
        self.balances = b;
        self
    }
    fn build(self) -> Chain {
        let msg = InstantiateMsg {
            treasury: "treasury".to_string(),
            commission: Decimal::percent(5),
            validators: self.validators.iter().map(|(v, w)| (v.to_string(), *w)).collect(),
            owner: "owner".to_string(),
            epoch_period: self.epoch_period,
            unbond_period: self.unbond_period,
            max_concurrent_unbondings: 7,
            liquidity_discount: self.liquidity_discount,
            tombstone_treshold: Decimal::percent(3),
            slashing_safety_margin: 10 * MINUTE,
        };
        let mut hub = instantiate(msg, START, DENOM.to_string()).unwrap();
        hub.token_created(Some(LSD.to_string()), "hub-admin".to_string()).unwrap();
        Chain {
            hub,
            now: START,
            balance: 0,
            stakes: vec![],
            accrued: vec![],
            unbondings: vec![],
            lsd: vec![],
            native: self.balances.iter().map(|(a, x)| (a.to_string(), *x)).collect(),
            claims: vec![],
            treasury: 0,
        }
    }
}

impl Chain {
    fn secs(&self) -> u64 {
        self.now / SEC
    }

    fn update_time(&mut self, secs: u64) {
        for (v, s) in self.stakes.clone() {
            add(&mut self.accrued, &v, s * secs as u128);
        }
        self.now += secs * SEC;
        self.process_native_unbonding();
    }

    fn process_native_unbonding(&mut self) {
        let now = self.secs();
        let done: u128 = self.unbondings.iter().filter(|u| u.0 <= now).map(|u| u.2).sum();
        self.unbondings.retain(|u| u.0 > now);
        self.balance += done;
    }

    fn apply(&mut self, msgs: Vec<HubMsg>) {
        for m in msgs {
            match m {
                HubMsg::BankSend { to_address, amount } => {
                    self.balance -= amount.amount;
                    if to_address == "treasury" {
                        self.treasury += amount.amount;
                    } else {
                        add(&mut self.native, &to_address, amount.amount);
                    }
                }
                HubMsg::Staking(StakingMsg::Delegate { validator, amount }) => {
                    self.balance -= amount.amount;
                    add(&mut self.stakes, &validator, amount.amount);
                }
                HubMsg::Staking(StakingMsg::Undelegate { validator, amount }) => {
                    sub(&mut self.stakes, &validator, amount.amount);
                    self.unbondings.push((self.secs() + UNBONDING_TIME, validator, amount.amount));
                }
                HubMsg::Staking(StakingMsg::Redelegate { src_validator, dst_validator, amount }) => {
                    sub(&mut self.stakes, &src_validator, amount.amount);
                    add(&mut self.stakes, &dst_validator, amount.amount);
                }
                HubMsg::Mint { recipient, amount, .. } => add(&mut self.lsd, &recipient, amount),
                HubMsg::Burn { .. } | HubMsg::UpdateAdmin { .. } | HubMsg::WithdrawRewards { .. } => {}
            }
        }
    }

    fn bond(&mut self, user: &str, amount: u128) -> Result<(), ContractError> {
        sub(&mut self.native, user, amount);
        self.balance += amount;
        let funds = vec![Coin { denom: DENOM.to_string(), amount }];
        let msg = self.hub.bond(self.now, &funds, &user.to_string(), self.balance)?;
        self.apply(vec![msg]);
        Ok(())
    }

    fn unbond(&mut self, user: &str, token: &str, amount: u128) -> Result<(), ContractError> {
        let mut claims = self.claims_of(user);
        self.hub.unbond(self.now, &token.to_string(), amount, self.balance, &mut claims)?;
        sub(&mut self.lsd, user, amount);
        self.set_claims(user, claims);
        Ok(())
    }

    fn claim(&mut self, user: &str) -> Result<(), ContractError> {
        let mut claims = self.claims_of(user);
        let msg = self.hub.claim(self.now, &user.to_string(), &mut claims, self.balance)?;
        self.set_claims(user, claims);
        self.apply(vec![msg]);
        Ok(())
    }

    fn claims_of(&self, user: &str) -> Vec<Claim> {
        self.claims.iter().find(|(a, _)| a == user).map(|(_, c)| c.clone()).unwrap_or_default()
    }

    fn set_claims(&mut self, user: &str, claims: Vec<Claim>) {
        self.claims.retain(|(a, _)| a != user);
        self.claims.push((user.to_string(), claims));
    }

    /// Reinvests; the chain pays the rewards of every withdrawal before the last reply.
    fn reinvest(&mut self) -> Result<(), ContractError> {
        let msgs = self.hub.reinvest(self.now, self.balance)?;
        let withdrawn: Vec<String> = msgs
            .iter()
            .filter_map(|m| match m {
                HubMsg::WithdrawRewards { validator, .. } => Some(validator.clone()),
                _ => None,
            })
            .collect();
        if withdrawn.is_empty() {
            self.apply(msgs);
            return Ok(());
        }
        for v in withdrawn {
            let acc = get(&self.accrued, &v);
            self.balance += acc * 80 * 95 / (100 * 100 * YEAR);
            self.accrued.retain(|(a, _)| a != &v);
        }
        let msgs = self.hub.after_withdraw_rewards(self.now, self.balance)?;
        self.apply(msgs);
        Ok(())
    }

    fn set_validators(&mut self, sender: &str, vs: Vec<(&str, Decimal)>) -> Result<(), ContractError> {
        let vs = vs.into_iter().map(|(v, w)| (v.to_string(), w)).collect();
        let msgs = self.hub.set_validators(self.now, &sender.to_string(), vs)?;
        self.apply(msgs);
        Ok(())
    }

    /// The chain slashes a validator by `permille`, its unbondings included.
    fn slash(&mut self, validator: &str, permille: u128) {
        // what is left is rounded down
        let s = get(&self.stakes, validator);
        sub(&mut self.stakes, validator, s - s * (1000 - permille) / 1000);
        for u in self.unbondings.iter_mut().filter(|u| u.1 == validator) {
            u.2 = u.2 * (1000 - permille) / 1000;
        }
    }

    fn check_slash(&mut self) -> Result<(), ContractError> {
        let queried = self.stakes.clone();
        self.hub.check_slash(self.now, &queried)?;
        Ok(())
    }

    fn delegations(&self) -> Vec<(String, u128)> {
        self.stakes.iter().filter(|(_, x)| *x > 0).cloned().collect()
    }

    fn exchange_rate(&self) -> Decimal {
        self.hub.exchange_rate(self.now, self.balance)
    }

    fn target_value(&self) -> Decimal {
        self.hub.target_value(self.now, self.balance)
    }
}

/// `a` and `b` differ by at most `rel` (parts per billion) of the larger one.
fn approx_eq(a: u128, b: u128, ppb: u128) -> bool {
    let (lo, hi) = if a < b { (a, b) } else { (b, a) };
    (hi - lo) * 1_000_000_000 <= hi * ppb
}

fn sorted(mut v: Vec<(String, u128)>) -> Vec<(String, u128)> {
    v.sort();
    v
}

#[test]
fn deposit_proper_init() {
    let chain = Setup::new().periods(DAY, 28 * DAY).balances(vec![("delegator1", 2_000_000)]).build();
    // the token contract's admin is handed to the hub's admin
    let mut hub = chain.hub;
    let msg = hub.token_created(Some("token".to_string()), "hub-admin".to_string()).unwrap();
    assert_eq!(msg, HubMsg::UpdateAdmin { contract: "token".to_string(), admin: "hub-admin".to_string() });
}

#[test]
fn basic_minting_case() {
    let mut suite = Setup::new()
        .periods(DAY, 28 * DAY)
        .balances(vec![("delegator1", 2_000_000), ("delegator2", 2_000_000)])
        .build();
    suite.bond("delegator1", 1_000_000).unwrap();
    suite.bond("delegator2", 1_000_000).unwrap();
    assert_eq!(get(&suite.lsd, "delegator1"), 1_000_000);
    assert_eq!(get(&suite.lsd, "delegator2"), 1_000_000);

    suite.update_time(DAY);
    suite.reinvest().unwrap();
    let delegations = suite.delegations();
    assert_eq!(delegations.len(), 1);
    assert_eq!(delegations[0].1, 2_000_000);
    assert_eq!(suite.hub.supply.total_bonded, 2_000_000);
}

#[test]
fn set_new_valset_more_validators() {
    let mut suite = Setup::new()
        .validators(vec![("testvaloper1", Decimal::percent(50)), ("testvaloper2", Decimal::percent(50))])
        .periods(DAY, 28 * DAY)
        .balances(vec![("delegator1", 1_000_000)])
        .build();
    suite.bond("delegator1", 1_000_000).unwrap();
    suite.update_time(DAY);
    suite.reinvest().unwrap();
    let delegations = sorted(suite.delegations());
    assert_eq!(delegations.len(), 2);
    assert_eq!(delegations[0], ("testvaloper1".to_string(), 500_000));

    let quarter = Decimal::percent(25);
    let new_set =
        vec![("testvaloper1", quarter), ("testvaloper2", quarter), ("testvaloper3", quarter), ("testvaloper4", quarter)];
    suite.set_validators("owner", new_set).unwrap();
    let delegations = sorted(suite.delegations());
    assert_eq!(delegations.len(), 4);
    assert_eq!(delegations[0], ("testvaloper1".to_string(), 250_000));

    suite.update_time(DAY);
    suite.reinvest().unwrap();
    let delegations = sorted(suite.delegations());
    assert_eq!(delegations.len(), 4);
    assert_eq!(delegations[0], ("testvaloper1".to_string(), 250_494));
    let names: Vec<String> = suite.hub.stake_info.validators.iter().map(|(v, _)| v.clone()).collect();
    assert_eq!(names, vec!["testvaloper1", "testvaloper2", "testvaloper3", "testvaloper4"]);
    assert!(suite.hub.stake_info.validators.iter().all(|(_, w)| *w == quarter));
}

#[test]
fn set_new_valset_less_validators() {
    let mut suite = Setup::new()
        .validators(vec![
            ("testvaloper1", Decimal::percent(33)),
            ("testvaloper2", Decimal::percent(33)),
            ("testvaloper3", Decimal::percent(34)),
        ])
        .periods(DAY, 28 * DAY)
        .balances(vec![("delegator1", 1_000_000)])
        .build();
    suite.bond("delegator1", 1_000_000).unwrap();
    suite.update_time(DAY);
    suite.reinvest().unwrap();
    let delegations = sorted(suite.delegations());
    assert_eq!(delegations.len(), 3);
    assert_eq!(delegations[0], ("testvaloper1".to_string(), 330_000));

    let half = Decimal::percent(50);
    suite.set_validators("owner", vec![("testvaloper2", half), ("testvaloper3", half)]).unwrap();
    let delegations = sorted(suite.delegations());
    assert_eq!(delegations.len(), 2);
    assert_eq!(delegations[0], ("testvaloper2".to_string(), 500_000));

    suite.update_time(DAY);
    suite.reinvest().unwrap();
    assert_eq!(
        suite.hub.stake_info.validators,
        vec![("testvaloper2".to_string(), half), ("testvaloper3".to_string(), half)]
    );
    let delegations = sorted(suite.delegations());
    assert_eq!(delegations.len(), 2);
    assert_eq!(delegations[0], ("testvaloper2".to_string(), 500_989));
}

#[test]
fn deposit_reinvest() {
    let mut suite = Setup::new()
        .validators(vec![
            ("testvaloper1", Decimal::percent(50)),
            ("testvaloper2", Decimal::percent(30)),
            ("testvaloper3", Decimal::percent(20)),
        ])
        .periods(DAY, 28 * DAY)
        .balances(vec![("delegator1", 2_000_000), ("delegator2", 2_000_000)])
        .build();
    assert_eq!(suite.exchange_rate(), Decimal::one(), "exchange rate should start at 1:1");
    suite.bond("delegator1", 1_000_000).unwrap();
    assert_eq!(suite.exchange_rate(), Decimal::one(), "exchange rate should stay the same after deposit");

    suite.update_time(DAY);
    suite.reinvest().unwrap();
    suite.update_time(DAY);
    suite.reinvest().unwrap();
    assert!(suite.exchange_rate().atomics > Decimal::one().atomics, "exchange rate should have increased");
    let delegations = suite.delegations();
    assert_eq!(delegations.len(), 3);
    let total: u128 = delegations.iter().map(|(_, x)| x).sum();
    assert!(total > 1_000_000, "should be more because of rewards");

    // the other user gets fewer tokens, since they are worth more now
    suite.bond("delegator2", 1_000_000).unwrap();
    assert!(get(&suite.lsd, "delegator2") < 1_000_000);

    suite.update_time(DAY);
    suite.reinvest().unwrap();
    let delegations = suite.delegations();
    assert_eq!(delegations.len(), 3);
    let total: u128 = delegations.iter().map(|(_, x)| x).sum();
    assert!(total > 2_000_000, "should be more because of rewards");
}

#[test]
fn target_value() {
    let amount = 1_000_000u128;
    let mut suite = Setup::new()
        .discount(Decimal::percent(6))
        .validators(vec![
            ("testvaloper1", Decimal::percent(50)),
            ("testvaloper2", Decimal::percent(30)),
            ("testvaloper3", Decimal::percent(20)),
        ])
        .periods(DAY, 28 * DAY)
        .balances(vec![("delegator1", 2_000_000), ("delegator2", 2_000_000)])
        .build();
    assert_eq!(suite.target_value(), Decimal::percent(94), "100% - discount = 94%");
    suite.bond("delegator1", amount).unwrap();
    assert_eq!(suite.target_value(), Decimal::percent(94), "should stay the same after deposit");
    suite.update_time(DAY);
    suite.reinvest().unwrap();
    assert_eq!(suite.target_value(), Decimal::percent(94), "should still be the same");

    let err = suite.hub.update_liquidity_discount(&"notadmin".to_string(), Decimal::percent(5)).unwrap_err();
    assert_eq!(err, ContractError::Unauthorized);
    let err = suite.hub.update_liquidity_discount(&"owner".to_string(), Decimal::percent(100)).unwrap_err();
    assert_eq!(err, ContractError::InvalidLiquidityDiscount);
    suite.hub.update_liquidity_discount(&"owner".to_string(), Decimal::percent(10)).unwrap();
    assert_eq!(suite.target_value(), Decimal::percent(90), "100% - discount = 90%");

    suite.update_time(DAY);
    suite.reinvest().unwrap();
    let target_value = suite.target_value();
    assert!(target_value.atomics > Decimal::percent(90).atomics, "should have increased because of rewards");

    suite.bond("delegator2", amount).unwrap();
    let target_value2 = suite.target_value();
    assert!(approx_eq(target_value2.atomics, target_value.atomics, 500), "deposits should not affect target value");

    suite.update_time(DAY);
    suite.reinvest().unwrap();
    let target_value3 = suite.target_value();
    assert!(target_value3.atomics > target_value2.atomics, "should have increased because of rewards");

    suite.unbond("delegator1", LSD, amount).unwrap();
    let target_value4 = suite.target_value();
    assert!(approx_eq(target_value4.atomics, target_value3.atomics, 1_000), "unbonding should not affect target value");
    let rate = suite.exchange_rate();
    assert_eq!(rate.atomics * 90 / 100, target_value4.atomics);
}

#[test]
fn commission() {
    let amount = 1_000_000u128;
    let mut suite = Setup::new()
        .validators(vec![
            ("testvaloper1", Decimal::percent(10)),
            ("testvaloper2", Decimal::percent(20)),
            ("testvaloper3", Decimal::percent(70)),
        ])
        .periods(DAY, 28 * DAY)
        .balances(vec![("delegator", 2 * amount)])
        .build();
    suite.bond("delegator", amount).unwrap();
    suite.update_time(DAY);
    suite.reinvest().unwrap();
    // not delegated yet, so it earns no rewards and no commission
    suite.bond("delegator", amount).unwrap();
    assert_eq!(suite.treasury, 0, "should not have gotten commission yet");

    suite.update_time(DAY);
    suite.reinvest().unwrap();
    // 80% * 1_000_000 / 365 * 95% = 2081 rewards; 2081 * 5% = 104 commission
    assert_eq!(suite.treasury, 104);
}

#[test]
fn simple_bond_unbond_claim() {
    let amount = 1_000_000u128;
    let mut suite = Setup::new().balances(vec![("delegator1", 2_000_000), ("delegator2", 2_000_000)]).build();
    suite.bond("delegator1", amount).unwrap();
    suite.bond("delegator2", amount).unwrap();
    let lsd_balance = get(&suite.lsd, "delegator1");
    assert_eq!(lsd_balance, amount);
    let native_before = get(&suite.native, "delegator1");

    suite.unbond("delegator1", LSD, lsd_balance).unwrap();
    assert_eq!(suite.claims_of("delegator1").len(), 1);

    // the next unbonding is one epoch from now, then one unbonding period
    suite.update_time(23 * HOUR + 28 * DAY);
    suite.claim("delegator1").unwrap();
    assert!(approx_eq(get(&suite.native, "delegator1"), native_before + lsd_balance, 1));
}

#[test]
fn bond_unbond() {
    let amount = 1_000_003u128;
    let mut suite = Setup::new()
        .validators(vec![("testvaloper1", Decimal::percent(50)), ("testvaloper2", Decimal::percent(50))])
        .balances(vec![("delegator", amount)])
        .build();
    suite.bond("delegator", amount).unwrap();
    suite.update_time(23 * HOUR);
    suite.reinvest().unwrap();
    suite.update_time(23 * HOUR);
    suite.reinvest().unwrap();
    suite.unbond("delegator", LSD, amount).unwrap();
    suite.update_time(5 * 23 * HOUR);
    suite.reinvest().unwrap();
    suite.update_time(28 * DAY);
    suite.process_native_unbonding();
    suite.claim("delegator").unwrap();
}

#[test]
fn small_delegations() {
    let single_amount = 32u128;
    let delegations = 100u128;
    let total_amount = single_amount * delegations;
    let mut suite = Setup::new()
        .validators(vec![("testvaloper1", Decimal::percent(50)), ("testvaloper2", Decimal::percent(50))])
        .balances(vec![("delegator", total_amount)])
        .build();
    for _ in 0..delegations {
        suite.bond("delegator", single_amount).unwrap();
        suite.update_time(23 * HOUR);
        suite.reinvest().unwrap();
    }
    let lsd_amount = get(&suite.lsd, "delegator");
    suite.unbond("delegator", LSD, lsd_amount).unwrap();
    suite.update_time(23 * HOUR);
    suite.reinvest().unwrap();

    let claims = suite.claims_of("delegator");
    assert_eq!(claims.len(), 1);
    suite.update_time(claims[0].release_at - suite.secs());
    suite.process_native_unbonding();
    suite.claim("delegator").unwrap();
    assert!(get(&suite.native, "delegator") > total_amount);
}

#[test]
fn actual_undelegation_flow() {
    let amount = 1_000_000u128;
    let mut suite = Setup::new().balances(vec![("delegator1", amount), ("delegator2", amount)]).build();
    suite.bond("delegator1", amount).unwrap();
    suite.bond("delegator2", amount).unwrap();
    let lsd_balance = get(&suite.lsd, "delegator1");

    suite.update_time(23 * HOUR);
    suite.reinvest().unwrap();
    suite.unbond("delegator1", LSD, lsd_balance).unwrap();
    assert_eq!(suite.claims_of("delegator1").len(), 1);
    for _ in 0..4 {
        suite.update_time(23 * HOUR);
        suite.reinvest().unwrap();
    }
    suite.update_time(23 * HOUR);
    suite.reinvest().unwrap();
    suite.update_time(28 * DAY);
    suite.process_native_unbonding();
    suite.claim("delegator1").unwrap();
    assert_eq!(get(&suite.native, "delegator1"), amount);

    suite.unbond("delegator2", LSD, lsd_balance).unwrap();
    suite.reinvest().unwrap();
    for _ in 0..4 {
        suite.update_time(23 * HOUR);
        suite.reinvest().unwrap();
    }
    suite.update_time(23 * HOUR);
    suite.reinvest().unwrap();
    suite.update_time(28 * DAY);
    suite.process_native_unbonding();
    suite.claim("delegator2").unwrap();
    assert!(get(&suite.native, "delegator2") > amount);
}

#[test]
fn bond_unbond_simultaneously() {
    let amount = 1_000_000u128;
    let mut suite = Setup::new().balances(vec![("delegator1", amount), ("delegator2", amount)]).build();
    suite.bond("delegator1", amount).unwrap();
    let lsd_balance = get(&suite.lsd, "delegator1");
    suite.update_time(23 * HOUR);
    suite.reinvest().unwrap();

    suite.bond("delegator2", amount).unwrap();
    suite.unbond("delegator1", LSD, lsd_balance).unwrap();
    // the second bond covers the first unbond, so no undelegation is needed
    suite.update_time(5 * 23 * HOUR + 28 * DAY);
    suite.reinvest().unwrap();
    suite.claim("delegator1").unwrap();
    assert_eq!(get(&suite.native, "delegator1"), amount);
}

#[test]
fn unbond_epoch_handling() {
    let amount = 1_000_000u128;
    let amount2 = 100_000u128;
    let mut suite = Setup::new()
        .validators(vec![
            ("testvaloper1", Decimal::percent(55)),
            ("testvaloper2", Decimal::percent(35)),
            ("testvaloper3", Decimal::percent(10)),
        ])
        .periods(23 * HOUR, 28 * DAY)
        .balances(vec![("delegator", amount), ("delegator2", amount2)])
        .build();
    suite.bond("delegator", amount).unwrap();
    suite.bond("delegator2", amount2).unwrap();
    suite.update_time(23 * HOUR);
    suite.reinvest().unwrap();

    // unbond the tokens of delegator 2, taking effect at the next reinvest
    suite.unbond("delegator2", LSD, amount2).unwrap();
    assert_eq!(suite.hub.supply.total_bonded, amount + amount2);
    assert_eq!(
        suite.hub.bonded,
        vec![
            ("testvaloper1".to_string(), 605_000),
            ("testvaloper2".to_string(), 385_000),
            ("testvaloper3".to_string(), 110_000),
        ]
    );
    assert_eq!(suite.hub.supply.claims, amount2);
    assert_eq!(suite.hub.supply.total_unbonding, 0);
    assert_eq!(unbonding_info_num_epochs(&suite.hub.unbonding), 0);
    assert_eq!(unbonding_info_total_entries(&suite.hub.unbonding), 0);

    // the first unbonding happens one epoch later (the first one has no wait)
    suite.update_time(23 * HOUR);
    suite.reinvest().unwrap();
    suite.process_native_unbonding();
    let rewards = 2085u128;
    assert_eq!(suite.hub.supply.total_bonded, amount + rewards);
    let after_first = vec![
        // 550_000 + rewards * 0.55 + dust
        ("testvaloper1".to_string(), 551_146),
        // 350_000 + rewards * 0.35 (+1)
        ("testvaloper2".to_string(), 350_730),
        // 100_000 + rewards * 0.10
        ("testvaloper3".to_string(), 100_209),
    ];
    assert_eq!(suite.hub.bonded, after_first);
    assert_eq!(suite.hub.supply.claims, amount2);
    assert_eq!(suite.hub.supply.total_unbonding, amount2 - rewards);
    assert_eq!(unbonding_info_num_epochs(&suite.hub.unbonding), 1);
    assert_eq!(unbonding_info_total_entries(&suite.hub.unbonding), 3);

    // another unbonding, which does not trigger yet: unbond_period / 7 has not passed
    suite.unbond("delegator", LSD, amount).unwrap();
    suite.update_time(23 * HOUR);
    suite.reinvest().unwrap();
    suite.process_native_unbonding();
    assert_eq!(suite.hub.supply.total_bonded, amount + rewards);
    assert_eq!(suite.hub.bonded, after_first);
    assert_eq!(suite.hub.supply.claims, amount + amount2 + rewards);
    assert_eq!(suite.hub.supply.total_unbonding, amount2 - rewards);
    assert_eq!(unbonding_info_num_epochs(&suite.hub.unbonding), 1);
    assert_eq!(unbonding_info_total_entries(&suite.hub.unbonding), 3);

    // four epochs later the unbonding triggers; the claims stay until paid out
    suite.update_time(4 * 23 * HOUR);
    suite.reinvest().unwrap();
    suite.process_native_unbonding();
    // rewards that accrued between the unbonding and the undelegation stay bonded
    let post_unbond_rewards = 9496u128;
    assert_eq!(suite.hub.supply.total_bonded, post_unbond_rewards);
    assert_eq!(suite.hub.supply.claims, amount + amount2 + rewards);
    assert_eq!(suite.hub.supply.total_unbonding + suite.balance, amount + amount2 + rewards);
    assert_eq!(unbonding_info_num_epochs(&suite.hub.unbonding), 2);
    assert_eq!(unbonding_info_total_entries(&suite.hub.unbonding), 6);
}

#[test]
fn simple_liveness_slash() {
    let amount = 1_000_000u128;
    let mut suite = Setup::new().balances(vec![("delegator", amount)]).build();
    suite.bond("delegator", amount).unwrap();
    let lsd_balance = get(&suite.lsd, "delegator");
    suite.update_time(23 * HOUR);
    suite.reinvest().unwrap();

    // liveness slash of 0.1%
    suite.slash("testvaloper1", 1);
    suite.check_slash().unwrap();
    assert_eq!(suite.hub.supply.total_bonded, amount - amount / 1000);
    assert_eq!(get(&suite.hub.bonded, "testvaloper1"), amount - amount / 1000);
    assert_eq!(suite.exchange_rate(), Decimal::permille(999));

    suite.unbond("delegator", LSD, lsd_balance).unwrap();
    // unbonding is triggered every 28 / 7 = 4 days, so wait 5 epochs
    suite.update_time(5 * 23 * HOUR);
    suite.reinvest().unwrap();
    suite.update_time(28 * DAY);
    suite.process_native_unbonding();
    suite.claim("delegator").unwrap();
    assert_eq!(get(&suite.native, "delegator"), amount - amount / 1000);
}

#[test]
fn pending_claims_slashed() {
    let amount = 1_000_000u128;
    let mut suite = Setup::new().balances(vec![("delegator", amount)]).build();
    suite.bond("delegator", amount).unwrap();
    let lsd_balance = get(&suite.lsd, "delegator");
    suite.update_time(23 * HOUR);
    suite.reinvest().unwrap();
    suite.unbond("delegator", LSD, lsd_balance).unwrap();
    suite.update_time(5 * 23 * HOUR);
    suite.reinvest().unwrap();

    // after the unbonding was triggered there is a pending unbonding
    let unbonding_amount = amount - suite.balance;
    assert_eq!(suite.hub.supply.total_unbonding, unbonding_amount);

    // liveness slash of 0.1%
    suite.slash("testvaloper1", 1);
    suite.update_time(5 * MINUTE);
    suite.check_slash().unwrap();

    let expected_unbonding = unbonding_amount - unbonding_amount / 1000;
    let entry = suite.hub.unbonding[0].1[0].amount;
    assert!(approx_eq(entry, expected_unbonding, 60_000));
    assert!(entry <= expected_unbonding, "should be rounded down, if at all");
    assert_eq!(suite.hub.supply.total_unbonding, entry);
    let bonded_before_slash = amount - unbonding_amount;
    let expected_bonded = bonded_before_slash * 999 / 1000;
    assert!(approx_eq(suite.hub.supply.total_bonded, expected_bonded, 200_000));
    assert!(suite.hub.supply.total_bonded <= expected_bonded, "should be rounded down, if at all");
    assert_eq!(suite.hub.bonded[0], ("testvaloper1".to_string(), suite.hub.supply.total_bonded));
    assert_eq!(suite.hub.supply.claims, suite.hub.supply.total_unbonding + suite.balance);
    assert!(approx_eq(suite.hub.supply.claims, expected_unbonding + suite.balance, 60_000));

    suite.update_time(28 * DAY);
    suite.process_native_unbonding();
    suite.claim("delegator").unwrap();
    let received = get(&suite.native, "delegator");
    assert!(approx_eq(received, amount - amount / 1000, 60_000));
    assert!(received <= amount - amount / 1000, "should be rounded down, if at all");
}

#[test]
fn bond_with_native_unbond_with_wrong_token() {
    let amount = 1_000_003u128;
    let mut suite = Setup::new()
        .validators(vec![("testvaloper1", Decimal::percent(50)), ("testvaloper2", Decimal::percent(50))])
        .balances(vec![("delegator", amount)])
        .build();
    suite.bond("delegator", amount).unwrap();
    suite.update_time(23 * HOUR);
    suite.reinvest().unwrap();
    suite.update_time(23 * HOUR);
    suite.reinvest().unwrap();
    let err = suite.unbond("delegator", "other-token", amount).unwrap_err();
    assert_eq!(err, ContractError::InvalidToken);
}

#[test]
fn bond_claim_without_unbond() {
    let mut suite = Setup::new().balances(vec![("delegator1", 2_000_000), ("delegator2", 2_000_000)]).build();
    suite.bond("delegator1", 1_000_000).unwrap();
    suite.bond("delegator2", 1_000_000).unwrap();
    assert_eq!(get(&suite.lsd, "delegator1"), 1_000_000);
    let err = suite.claim("delegator1").unwrap_err();
    assert_eq!(err, ContractError::NothingToClaim);
}

#[test]
fn timing_check() {
    // exactly at, 1 minute after and 1 minute before the unbonding completes
    for wait_time in [28 * DAY, 28 * DAY + MINUTE, 27 * DAY + 23 * HOUR + 59 * MINUTE] {
        let amount = 1_000_000u128;
        let mut suite = Setup::new().balances(vec![("delegator", amount)]).build();
        suite.bond("delegator", amount).unwrap();
        let lsd_balance = get(&suite.lsd, "delegator");
        suite.update_time(23 * HOUR);
        suite.reinvest().unwrap();
        suite.unbond("delegator", LSD, lsd_balance).unwrap();
        // unbonding is triggered every 4 days, so wait 5 more epochs
        suite.update_time(5 * 23 * HOUR);
        suite.reinvest().unwrap();

        suite.update_time(wait_time);
        suite.slash("testvaloper1", 1);
        assert_eq!(suite.check_slash().unwrap_err(), ContractError::UnbondingTooClose);
    }
}
