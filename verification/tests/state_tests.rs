use wynd_lsd::decimal::{mul_floor, Decimal};
use wynd_lsd::error::ContractError;
use wynd_lsd::migration::{migrate_supply, needs_supply_migration, Expiration, OldSupply, OldUnbonding};
use wynd_lsd::state::{
    claim_tokens, clean_unbonding, div_ceil, save_unbonding, slashed_claim_amount, unbonding_info_num_epochs,
    unbonding_info_total_entries, unbondings_expiring_between, Claim, Config, Slashing, Unbonding,
};

#[test]
fn div_ceil_rounds_up() {
    assert_eq!(div_ceil(5, 2), 3);
    assert_eq!(div_ceil(5, 3), 2);
    assert_eq!(div_ceil(6, 7), 1);
    assert_eq!(div_ceil(6, 3), 2);
    assert_eq!(div_ceil(0, 3), 0);
}

fn config() -> Config {
    Config {
        owner: "owner".to_string(),
        token_contract: "token".to_string(),
        treasury: "treasury".to_string(),
        commission: Decimal::percent(10),
        epoch_period: 100,
        unbond_period: 28,
        max_concurrent_unbondings: 7,
        next_epoch: 1000,
        next_unbond: 1000,
        tombstone_treshold: Decimal::percent(3),
        slashing_safety_margin: 0,
        liquidity_discount: Decimal::percent(4),
    }
}

#[test]
fn epochs_keep_their_rhythm() {
    let mut c = config();
    assert_eq!(c.next_epoch_after(999).unwrap_err(), ContractError::EpochNotReached { next_epoch: 1000 });
    assert_eq!(c.next_epoch_after(1000).unwrap(), 1100);
    // called late: the next epoch stays on the grid
    assert_eq!(c.next_epoch_after(1350).unwrap(), 1400);
    assert_eq!(c.unbond_epoch(), 4);
    assert_eq!(c.next_unbond_after(1001).unwrap(), 1004);
    assert_eq!(c.next_unbond_after(1003).unwrap_err(), ContractError::EpochNotReached { next_epoch: 1004 });
}

#[test]
fn unbonding_queue_is_kept_sorted() {
    let mut q: Vec<(u64, Vec<Unbonding>)> = vec![];
    let u = |a: u128| vec![Unbonding { amount: a, validator: "v".to_string() }];
    save_unbonding(&mut q, 20, u(2));
    save_unbonding(&mut q, 10, u(1));
    save_unbonding(&mut q, 30, u(3));
    save_unbonding(&mut q, 20, u(5));
    assert_eq!(q.iter().map(|e| e.0).collect::<Vec<_>>(), vec![10, 20, 30]);
    assert_eq!(q[1].1[0].amount, 5);
    let freed = clean_unbonding(&mut q, 20);
    assert_eq!(freed, 6);
    assert_eq!(q.len(), 1);
    assert_eq!(q[0].0, 30);
}

#[test]
fn claims_adjusted_for_slashing() {
    let slashings = vec![Slashing { start: 10, end: 50, multiplier: Decimal::percent(90) }];
    assert_eq!(slashed_claim_amount(1000, 20, &slashings), 900);
    // outside the window: untouched
    assert_eq!(slashed_claim_amount(1000, 50, &slashings), 1000);
    let mut claims =
        vec![Claim { amount: 1000, release_at: 20 }, Claim { amount: 500, release_at: 60 }, Claim { amount: 300, release_at: 5 }];
    // at 30, the first (slashed to 900) and the third are mature; only 1000 can be paid
    let (paid, waiting) = claim_tokens(&claims, 30, &slashings, 1000);
    claims = waiting;
    assert_eq!(paid, 900);
    assert_eq!(claims, vec![Claim { amount: 500, release_at: 60 }, Claim { amount: 300, release_at: 5 }]);
}

#[test]
fn decimal_arithmetic() {
    assert_eq!(mul_floor(1001, Decimal::percent(10)), 100);
    assert_eq!(Decimal::from_ratio(1, 3).atomics, 333_333_333_333_333_333);
    assert_eq!(Decimal::percent(50).mul_decimal(Decimal::percent(50)), Decimal::percent(25));
    assert_eq!(Decimal::one().minus(Decimal::percent(4)), Decimal::percent(96));
}

#[test]
fn old_supply_migration() {
    assert_eq!(needs_supply_migration(&"1.0.3".to_string()), Some(true));
    assert_eq!(needs_supply_migration(&"1.1.0".to_string()), Some(false));
    assert_eq!(needs_supply_migration(&"1.1.0-beta".to_string()), Some(true));
    assert_eq!(needs_supply_migration(&"2.0.0".to_string()), Some(false));
    assert_eq!(needs_supply_migration(&"nonsense".to_string()), None);
    let old = OldSupply {
        bond_denom: "ujuno".to_string(),
        issued: 10,
        total_bonded: 8,
        bonded: vec![("v".to_string(), 8)],
        claims: 1,
        unbonding: vec![],
        total_unbonding: 0,
    };
    let (supply, bonded) = migrate_supply(old.clone()).unwrap();
    assert_eq!(supply.issued, 10);
    assert_eq!(supply.total_bonded, 8);
    assert_eq!(bonded, vec![("v".to_string(), 8)]);
    let with_unbonding = OldSupply {
        unbonding: vec![OldUnbonding { amount: 1, expiration: Expiration::Never, validator: "v".to_string() }],
        ..old
    };
    assert_eq!(migrate_supply(with_unbonding).unwrap_err(), ContractError::MigrationFailed);
}

#[test]
fn unbonding_queue_counts() {
    let u = |a: u128| Unbonding { amount: a, validator: "v".to_string() };
    let q: Vec<(u64, Vec<Unbonding>)> = vec![(10, vec![u(1), u(2)]), (20, vec![u(3)]), (30, vec![])];
    assert_eq!(unbonding_info_num_epochs(&q), 3);
    assert_eq!(unbonding_info_total_entries(&q), 3);
    let between = unbondings_expiring_between(&q, 10, 30);
    assert_eq!(between.len(), 1);
    assert_eq!(between[0].0, 20);
}
