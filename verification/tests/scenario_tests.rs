use wynd_lsd::decimal::Decimal;
use wynd_lsd::hub::{instantiate, HubState, InstantiateMsg};
use wynd_lsd::msg::{Coin, HubMsg, StakingMsg};

const DENOM: &str = "FUN";
const HOUR: u64 = 60 * 60;
const DAY: u64 = 24 * HOUR;
/// The block time of the test environment, in nanoseconds.
const NOW: u64 = 1_571_797_419_879_305_533;
const SEC: u64 = 1_000_000_000;

fn hub(validators: Vec<(&str, Decimal)>, epoch_period: u64, unbond_period: u64) -> HubState {
    hub_with_commission(validators, epoch_period, unbond_period, Decimal::percent(5))
}

fn hub_with_commission(
    validators: Vec<(&str, Decimal)>,
    epoch_period: u64,
    unbond_period: u64,
    commission: Decimal,
) -> HubState {
    let msg = InstantiateMsg {
        treasury: "treasury".to_string(),
        commission,
        validators: validators.into_iter().map(|(v, w)| (v.to_string(), w)).collect(),
        owner: "owner".to_string(),
        epoch_period,
        unbond_period,
        max_concurrent_unbondings: 7,
        liquidity_discount: Decimal::percent(4),
        tombstone_treshold: Decimal::percent(3),
        slashing_safety_margin: 10 * 60,
    };
    instantiate(msg, NOW, DENOM.to_string()).unwrap()
}

/// Bonds `amount` whose transfer has already raised the bank balance to `balance`,
/// and gives back how many liquid staking tokens were minted.
fn bond(state: &mut HubState, at: u64, sender: &str, amount: u128, balance: u128) -> u128 {
    let funds = vec![Coin { denom: DENOM.to_string(), amount }];
    match state.bond(at, &funds, &sender.to_string(), balance).unwrap() {
        HubMsg::Mint { amount, .. } => amount,
        other => panic!("expected a mint, got {:?}", other),
    }
}

fn delegate(validator: &str, amount: u128) -> HubMsg {
    HubMsg::Staking(StakingMsg::Delegate {
        validator: validator.to_string(),
        amount: Coin { denom: DENOM.to_string(), amount },
    })
}

#[test]
fn change_valset_dust() {
    let amount = 3_333_333u128;
    let mut state = hub(
        vec![("testvaloper1", Decimal::percent(50)), ("testvaloper2", Decimal::percent(50))],
        23 * HOUR,
        28 * DAY,
    );
    bond(&mut state, NOW, "delegator", amount, amount);

    // first reinvest at the next epoch delegates; the first validator gets the dust
    let mut t = NOW + 23 * HOUR * SEC;
    let msgs = state.reinvest(t, amount).unwrap();
    assert_eq!(msgs, vec![delegate("testvaloper1", 1_666_667), delegate("testvaloper2", 1_666_666)]);
    assert_eq!(state.supply.total_bonded, amount);
    assert_eq!(
        state.bonded,
        vec![("testvaloper1".to_string(), 1_666_667), ("testvaloper2".to_string(), 1_666_666)]
    );

    t += (27 * DAY + HOUR) * SEC;
    state
        .set_validators(
            t,
            &"owner".to_string(),
            vec![
                ("testvaloper2".to_string(), Decimal::percent(50)),
                ("testvaloper3".to_string(), Decimal::percent(50)),
            ],
        )
        .unwrap();

    // the first validator still has some dust left
    assert_eq!(state.supply.total_bonded, amount);
    assert_eq!(
        state.bonded,
        vec![
            ("testvaloper1".to_string(), 1),
            ("testvaloper2".to_string(), 1_666_666),
            ("testvaloper3".to_string(), 1_666_666),
        ]
    );
}

#[test]
fn tiny_weights() {
    let amount = 1_000_000u128;
    let mut state = hub(
        vec![
            ("testvaloper1", Decimal { atomics: 1_000_000_000_000 }),
            ("testvaloper2", Decimal { atomics: 10_000_000_000 }),
            ("testvaloper3", Decimal { atomics: 999_998_990_000_000_000 }),
        ],
        DAY,
        28 * DAY,
    );
    bond(&mut state, NOW, "delegator", amount, amount);

    let msgs = state.reinvest(NOW + DAY * SEC, amount).unwrap();
    // only two because one validator gets no stake; the first gets 2 because of rounding
    assert_eq!(msgs, vec![delegate("testvaloper1", 2), delegate("testvaloper3", 999_998)]);
    assert_eq!(state.supply.total_bonded, amount);
}
