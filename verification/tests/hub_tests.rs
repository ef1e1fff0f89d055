use wynd_lsd::decimal::Decimal;
use wynd_lsd::error::{ContractError, PaymentError};
use wynd_lsd::hub::{
    instantiate, reply_action, token_instantiate, HubState, InstantiateMsg, ReplyAction, TokenInitInfo, TokenInstantiate,
};
use wynd_lsd::msg::{Coin, HubMsg, StakingMsg};
use wynd_lsd::state::{Claim, Unbonding};

const TOKEN: &str = "ufun";
const DAY: u64 = 24 * 60 * 60;
const EPOCH: u64 = 23 * 60 * 60;
/// The block time of the test environment, in nanoseconds.
const NOW: u64 = 1_571_797_419_879_305_533;
const SEC: u64 = 1_000_000_000;

fn msg_with(commission: Decimal, weight: Decimal, discount: Decimal) -> InstantiateMsg {
    InstantiateMsg {
        treasury: "treasury".to_string(),
        commission,
        validators: vec![("val1".to_string(), weight)],
        owner: "owner".to_string(),
        epoch_period: 3600,
        unbond_period: 3600,
        max_concurrent_unbondings: 7,
        liquidity_discount: discount,
        tombstone_treshold: Decimal::percent(3),
        slashing_safety_margin: 10 * 60,
    }
}

fn init(owner: &str) -> HubState {
    let msg = InstantiateMsg {
        treasury: "treasury".to_string(),
        commission: Decimal::percent(10),
        validators: vec![("val1".to_string(), Decimal::percent(100))],
        owner: owner.to_string(),
        epoch_period: EPOCH,
        unbond_period: 28 * DAY,
        max_concurrent_unbondings: 7,
        liquidity_discount: Decimal::percent(4),
        tombstone_treshold: Decimal::percent(3),
        slashing_safety_margin: 10 * 60,
    };
    instantiate(msg, NOW, TOKEN.to_string()).unwrap()
}

/// A deposit of `amount` that has already arrived in the bank balance.
fn do_deposit(state: &mut HubState, sender: &str, amount: u128, balance: u128) {
    let funds = vec![Coin { denom: TOKEN.to_string(), amount }];
    let res = state.bond(NOW, &funds, &sender.to_string(), balance).unwrap();
    assert!(matches!(res, HubMsg::Mint { .. }));
}

#[test]
fn invalid_init() {
    let err = instantiate(
        msg_with(Decimal::percent(100), Decimal::percent(100), Decimal::percent(4)),
        NOW,
        TOKEN.to_string(),
    )
    .unwrap_err();
    assert!(matches!(err, ContractError::InvalidCommission));

    let err = instantiate(
        msg_with(Decimal::percent(10), Decimal::percent(50), Decimal::percent(4)),
        NOW,
        TOKEN.to_string(),
    )
    .unwrap_err();
    assert!(matches!(err, ContractError::InvalidValidatorWeights));

    let err = instantiate(
        msg_with(Decimal::percent(10), Decimal::percent(100), Decimal::percent(100)),
        NOW,
        TOKEN.to_string(),
    )
    .unwrap_err();
    assert!(matches!(err, ContractError::InvalidLiquidityDiscount));
}

#[test]
fn invalid_periods() {
    let mut msg = msg_with(Decimal::percent(10), Decimal::percent(100), Decimal::percent(4));
    msg.epoch_period = 3599;
    assert_eq!(instantiate(msg.clone(), NOW, TOKEN.to_string()).unwrap_err(), ContractError::InvalidEpochPeriod);
    msg.epoch_period = 3600;
    msg.unbond_period = 31_536_001;
    assert_eq!(instantiate(msg.clone(), NOW, TOKEN.to_string()).unwrap_err(), ContractError::InvalidUnbondPeriod);
    msg.unbond_period = 3600;
    msg.max_concurrent_unbondings = 0;
    assert_eq!(
        instantiate(msg, NOW, TOKEN.to_string()).unwrap_err(),
        ContractError::InvalidMaxConcurrentUnbondings
    );
}

#[test]
fn instantiate_sets_epochs() {
    let state = init("owner");
    let now = NOW / SEC;
    assert_eq!(state.config.next_epoch, now + EPOCH);
    assert_eq!(state.config.next_unbond, now + EPOCH);
    assert_eq!(state.config.token_contract, "");
    assert_eq!(state.supply.bond_denom, TOKEN);
    assert_eq!(state.supply.issued, 0);
    assert!(state.bonded.is_empty());
}

#[test]
fn reply_parse_data() {
    // a reply whose data is not an instantiate response
    let mut state = init("owner");
    let data = b"123\n".to_vec();
    assert_eq!(state.after_token_creation(&data, "admin".to_string()).unwrap_err(), ContractError::ParseReply);
    assert_eq!(state.config.token_contract, "");
    // an invalid reply id
    assert_eq!(reply_action(1).unwrap(), ReplyAction::TokenCreated);
    assert_eq!(reply_action(2).unwrap(), ReplyAction::ContinueReinvest);
    assert_eq!(reply_action(3).unwrap(), ReplyAction::IgnoreIntermittent);
    assert_eq!(reply_action(999).unwrap_err(), ContractError::InvalidReplyId { id: 999 });
}

#[test]
fn token_address_is_recorded() {
    let mut state = init("owner");
    // protobuf: field 1, length 5, "token"
    let data = vec![0x0a, 5, b't', b'o', b'k', b'e', b'n'];
    let res = state.after_token_creation(&data, "admin".to_string()).unwrap();
    assert_eq!(res, HubMsg::UpdateAdmin { contract: "token".to_string(), admin: "admin".to_string() });
    assert_eq!(state.config.token_contract, "token");
}

#[test]
fn unbonding_burns_tokens() {
    let mut state = init("addr0000");
    do_deposit(&mut state, "sender", 1700, 1700);
    let mut claims: Vec<Claim> = vec![];
    let res = state.unbond(NOW, &"".to_string(), 100, 1700, &mut claims).unwrap();
    assert_eq!(res, HubMsg::Burn { contract: "".to_string(), amount: 100 });
}

#[test]
fn basic_claim_creation_works() {
    let mut state = init("creator");
    do_deposit(&mut state, "sender", 1700, 1700);
    do_deposit(&mut state, "sender2", 800, 2500);
    let mut claims: Vec<Claim> = vec![];
    state.unbond(NOW, &"".to_string(), 500, 2500, &mut claims).unwrap();
    assert_eq!(1, claims.len());
    state.unbond(NOW, &"".to_string(), 500, 2500, &mut claims).unwrap();
    assert_eq!(2, claims.len());
}

#[test]
fn unbond_from_other_contract_is_refused() {
    let mut state = init("creator");
    do_deposit(&mut state, "sender", 1700, 1700);
    let mut claims: Vec<Claim> = vec![];
    let err = state.unbond(NOW, &"other".to_string(), 100, 1700, &mut claims).unwrap_err();
    assert_eq!(err, ContractError::InvalidToken);
    assert!(claims.is_empty());
}

#[test]
fn epoch_handling() {
    let mut state =
        instantiate(msg_with(Decimal::percent(10), Decimal::percent(100), Decimal::percent(4)), NOW, TOKEN.to_string())
            .unwrap();
    let mut t = NOW + 3600 * SEC;
    state.reinvest(t, 0).unwrap();

    t += 3599 * SEC;
    assert!(matches!(state.reinvest(t, 0).unwrap_err(), ContractError::EpochNotReached { next_epoch: _ }));

    t += SEC;
    state.reinvest(t, 0).unwrap();

    t += (3600 * 5 + 1) * SEC;
    state.reinvest(t, 0).unwrap();

    t += 3599 * SEC;
    state.reinvest(t, 0).unwrap();
}

#[test]
fn bond_mints_at_exchange_rate() {
    let mut state = init("owner");
    let funds = vec![Coin { denom: TOKEN.to_string(), amount: 1000 }];
    let res = state.bond(NOW, &funds, &"alice".to_string(), 1000).unwrap();
    assert_eq!(res, HubMsg::Mint { contract: "".to_string(), recipient: "alice".to_string(), amount: 1000 });
    // the assets doubled by rewards: a second deposit gets half as many shares
    let res = state.bond(NOW, &vec![Coin { denom: TOKEN.to_string(), amount: 1000 }], &"bob".to_string(), 3000).unwrap();
    assert_eq!(res, HubMsg::Mint { contract: "".to_string(), recipient: "bob".to_string(), amount: 500 });
    assert_eq!(state.supply.issued, 1500);
}

#[test]
fn bond_payment_errors() {
    let mut state = init("owner");
    let err = state.bond(NOW, &vec![], &"alice".to_string(), 0).unwrap_err();
    assert_eq!(err, ContractError::Payment(PaymentError::NoFunds));
    let two = vec![Coin { denom: TOKEN.to_string(), amount: 1 }, Coin { denom: "x".to_string(), amount: 1 }];
    let err = state.bond(NOW, &two, &"alice".to_string(), 0).unwrap_err();
    assert_eq!(err, ContractError::Payment(PaymentError::MultipleDenoms));
    let zero = vec![Coin { denom: TOKEN.to_string(), amount: 0 }];
    let err = state.bond(NOW, &zero, &"alice".to_string(), 0).unwrap_err();
    assert_eq!(err, ContractError::Payment(PaymentError::NoFunds));
    let other = vec![Coin { denom: "uother".to_string(), amount: 5 }];
    let err = state.bond(NOW, &other, &"alice".to_string(), 0).unwrap_err();
    assert_eq!(err, ContractError::Payment(PaymentError::MissingDenom(TOKEN.to_string())));
}

#[test]
fn update_liquidity_discount_checks() {
    let mut state = init("owner");
    assert_eq!(
        state.update_liquidity_discount(&"notadmin".to_string(), Decimal::percent(10)).unwrap_err(),
        ContractError::Unauthorized
    );
    assert_eq!(
        state.update_liquidity_discount(&"owner".to_string(), Decimal::percent(50)).unwrap_err(),
        ContractError::InvalidLiquidityDiscount
    );
    state.update_liquidity_discount(&"owner".to_string(), Decimal::percent(10)).unwrap();
    assert_eq!(state.config.liquidity_discount, Decimal::percent(10));
}

#[test]
fn exchange_rate_and_target_value() {
    let mut state = init("owner");
    assert_eq!(state.exchange_rate(NOW, 0), Decimal::one());
    assert_eq!(state.target_value(NOW, 0), Decimal::percent(96));
    do_deposit(&mut state, "alice", 1000, 1000);
    // rewards raise the balance by 10%
    assert_eq!(state.exchange_rate(NOW, 1100), Decimal::percent(110));
    assert_eq!(state.target_value(NOW, 1100).atomics, 1_056_000_000_000_000_000);
}

fn three_validators(owner: &str) -> HubState {
    let msg = InstantiateMsg {
        treasury: "treasury".to_string(),
        commission: Decimal::percent(10),
        validators: vec![
            ("val-a".to_string(), Decimal::percent(50)),
            ("val-b".to_string(), Decimal::percent(30)),
            ("val-c".to_string(), Decimal::percent(20)),
        ],
        owner: owner.to_string(),
        epoch_period: EPOCH,
        unbond_period: 28 * DAY,
        max_concurrent_unbondings: 7,
        liquidity_discount: Decimal::percent(4),
        tombstone_treshold: Decimal::percent(3),
        slashing_safety_margin: 10 * 60,
    };
    instantiate(msg, NOW, TOKEN.to_string()).unwrap()
}

fn delegate(validator: &str, amount: u128) -> HubMsg {
    HubMsg::Staking(StakingMsg::Delegate {
        validator: validator.to_string(),
        amount: Coin { denom: TOKEN.to_string(), amount },
    })
}

#[test]
fn first_reinvest_delegates_by_weight() {
    let mut state = three_validators("owner");
    do_deposit(&mut state, "alice", 1_000_000, 1_000_000);
    let t = NOW + EPOCH * SEC;
    let msgs = state.reinvest(t, 1_000_000).unwrap();
    assert_eq!(
        msgs,
        vec![delegate("val-a", 500_000), delegate("val-b", 300_000), delegate("val-c", 200_000)]
    );
    assert_eq!(state.supply.total_bonded, 1_000_000);
    assert_eq!(
        state.bonded,
        vec![("val-a".to_string(), 500_000), ("val-b".to_string(), 300_000), ("val-c".to_string(), 200_000)]
    );
}

#[test]
fn rewards_pay_commission_and_are_delegated() {
    let mut state = three_validators("owner");
    do_deposit(&mut state, "alice", 1_000_000, 1_000_000);
    let mut t = NOW + EPOCH * SEC;
    state.reinvest(t, 1_000_000).unwrap();

    // everything is delegated; the next reinvest withdraws the rewards first
    t += EPOCH * SEC;
    let msgs = state.reinvest(t, 0).unwrap();
    assert_eq!(
        msgs,
        vec![
            HubMsg::WithdrawRewards { validator: "val-a".to_string(), last: false },
            HubMsg::WithdrawRewards { validator: "val-b".to_string(), last: false },
            HubMsg::WithdrawRewards { validator: "val-c".to_string(), last: true },
        ]
    );
    // 1001 tokens of rewards arrived: 100 commission, 901 delegated (rounding to the first)
    let msgs = state.after_withdraw_rewards(t, 1001).unwrap();
    assert_eq!(
        msgs,
        vec![
            HubMsg::BankSend {
                to_address: "treasury".to_string(),
                amount: Coin { denom: TOKEN.to_string(), amount: 100 },
            },
            delegate("val-a", 451),
            delegate("val-b", 270),
            delegate("val-c", 180),
        ]
    );
    assert_eq!(state.supply.total_bonded, 1_000_901);
}

#[test]
fn reinvest_without_recorded_balance_fails() {
    let mut state = three_validators("owner");
    let before = state.bonded.clone();
    assert_eq!(state.after_withdraw_rewards(NOW, 10).unwrap_err(), ContractError::NotFound);
    assert_eq!(state.bonded, before);
}

#[test]
fn shortfall_is_undelegated_in_unbond_epoch() {
    let mut state = three_validators("owner");
    do_deposit(&mut state, "alice", 1_000_000, 1_000_000);
    let mut t = NOW + EPOCH * SEC;
    state.reinvest(t, 1_000_000).unwrap();

    // alice unbonds 100_000 shares worth 100_000 tokens
    let mut claims: Vec<Claim> = vec![];
    state.unbond(t, &"".to_string(), 100_000, 0, &mut claims).unwrap();
    assert_eq!(state.supply.claims, 100_000);

    // at the next epoch, no rewards: the shortfall of 100_000 is undelegated
    t += EPOCH * SEC;
    state.reinvest(t, 0).unwrap();
    let msgs = state.after_withdraw_rewards(t, 0).unwrap();
    assert!(msgs.is_empty());
    // with a balance the shortfall is covered partly
    state.tmp_state = Some(wynd_lsd::state::TmpState { balance: 1 });
    let msgs = state.after_withdraw_rewards(t, 1).unwrap();
    assert_eq!(msgs.len(), 3);
    assert_eq!(state.supply.total_unbonding, 99_999);
    assert_eq!(state.supply.total_bonded, 1_000_000 - 99_999);
    assert_eq!(state.unbonding.len(), 1);
    assert_eq!(state.unbonding[0].0, t / SEC + 28 * DAY);
    assert!(state.config.next_unbond > t / SEC);
}

#[test]
fn claims_are_paid_when_mature() {
    let mut state = init("owner");
    do_deposit(&mut state, "alice", 1000, 1000);
    let mut claims: Vec<Claim> = vec![];
    state.unbond(NOW, &"".to_string(), 400, 1000, &mut claims).unwrap();
    assert_eq!(claims.len(), 1);
    let release = claims[0].release_at;
    // too early
    let err = state.claim(NOW, &"alice".to_string(), &mut claims, 1000).unwrap_err();
    assert_eq!(err, ContractError::NothingToClaim);
    // once released, it is paid out of the balance
    let res = state.claim(release * SEC, &"alice".to_string(), &mut claims, 1000).unwrap();
    assert_eq!(
        res,
        HubMsg::BankSend { to_address: "alice".to_string(), amount: Coin { denom: TOKEN.to_string(), amount: 400 } }
    );
    assert!(claims.is_empty());
    assert_eq!(state.supply.claims, 0);
}

#[test]
fn set_validators_requires_owner() {
    let mut state = init("owner");
    let new_set = vec![("val2".to_string(), Decimal::percent(100))];
    assert_eq!(
        state.set_validators(NOW, &"other".to_string(), new_set.clone()).unwrap_err(),
        ContractError::Unauthorized
    );
    let msgs = state.set_validators(NOW, &"owner".to_string(), new_set.clone()).unwrap();
    assert!(msgs.is_empty());
    assert_eq!(state.stake_info.validators, new_set);
}

#[test]
fn set_validators_redelegates_stake() {
    let mut state = three_validators("owner");
    do_deposit(&mut state, "alice", 1_000_000, 1_000_000);
    state.reinvest(NOW + EPOCH * SEC, 1_000_000).unwrap();
    let new_set = vec![("val-a".to_string(), Decimal::percent(50)), ("val-d".to_string(), Decimal::percent(50))];
    let msgs = state.set_validators(NOW + EPOCH * SEC, &"owner".to_string(), new_set).unwrap();
    assert_eq!(msgs.len(), 2);
    assert_eq!(state.bonded, vec![("val-a".to_string(), 500_000), ("val-d".to_string(), 500_000)]);
    assert_eq!(state.supply.total_bonded, 1_000_000);
}

#[test]
fn slashing_is_detected_and_applied() {
    let mut state = three_validators("owner");
    do_deposit(&mut state, "alice", 1_000_000, 1_000_000);
    let t = NOW + EPOCH * SEC;
    state.reinvest(t, 1_000_000).unwrap();

    // nothing changed: no slashing
    let queried = vec![
        ("val-a".to_string(), 500_000u128),
        ("val-b".to_string(), 300_000u128),
        ("val-c".to_string(), 200_000u128),
    ];
    assert_eq!(state.check_slash(t, &queried).unwrap(), None);

    // val-a lost 0.2% of its stake
    let queried = vec![
        ("val-a".to_string(), 499_000u128),
        ("val-b".to_string(), 300_000u128),
        ("val-c".to_string(), 200_000u128),
    ];
    let report = state.check_slash(t, &queried).unwrap().unwrap();
    assert_eq!(report.bonded_slashed, 1000);
    assert_eq!(report.unbonded_slashed, 0);
    assert_eq!(state.bonded[0], ("val-a".to_string(), 499_000));
    assert_eq!(state.supply.total_bonded, 999_000);
}

#[test]
fn slashing_check_refused_near_unbonding() {
    let mut state = init("owner");
    let now = NOW / SEC;
    state.unbonding.push((now + 100, vec![]));
    assert_eq!(state.check_slash(NOW, &vec![]).unwrap_err(), ContractError::UnbondingTooClose);
}

#[test]
fn zero_commission_is_refused() {
    let err = instantiate(msg_with(Decimal::zero(), Decimal::percent(100), Decimal::percent(4)), NOW, TOKEN.to_string())
        .unwrap_err();
    assert_eq!(err, ContractError::InvalidCommission);
}

#[test]
fn first_bond_mints_one_share_per_token_despite_stray_balance() {
    let mut state = init("owner");
    // 500 tokens reached the hub before anyone bonded
    let funds = vec![Coin { denom: TOKEN.to_string(), amount: 1000 }];
    let res = state.bond(NOW, &funds, &"alice".to_string(), 1500).unwrap();
    assert_eq!(res, HubMsg::Mint { contract: "".to_string(), recipient: "alice".to_string(), amount: 1000 });
    assert_eq!(state.supply.issued, 1000);
}

#[test]
fn empty_balance_reinvest_keeps_unbonding_total() {
    let mut state = init("owner");
    let now = NOW / SEC;
    state.unbonding.push((now - 1, vec![Unbonding { amount: 5, validator: "val1".to_string() }]));
    state.unbonding.push((now + 10, vec![Unbonding { amount: 7, validator: "val1".to_string() }]));
    state.supply.total_unbonding = 12;
    let msgs = state.after_withdraw_rewards(NOW, 0).unwrap();
    assert!(msgs.is_empty());
    assert_eq!(state.unbonding.len(), 1);
    assert_eq!(state.supply.total_unbonding, 7);
}

#[test]
fn unslashed_check_keeps_unbonding_total() {
    let mut state = init("owner");
    let now = NOW / SEC;
    state.unbonding.push((now - DAY, vec![Unbonding { amount: 5, validator: "val1".to_string() }]));
    state.unbonding.push((now + DAY, vec![Unbonding { amount: 7, validator: "val1".to_string() }]));
    state.supply.total_unbonding = 12;
    assert_eq!(state.check_slash(NOW, &vec![]).unwrap(), None);
    assert_eq!(state.unbonding.len(), 1);
    assert_eq!(state.supply.total_unbonding, 7);
}

#[test]
fn unbonded_set_validators_keeps_unbonding_total() {
    let mut state = init("owner");
    let now = NOW / SEC;
    state.unbonding.push((now - 1, vec![Unbonding { amount: 5, validator: "val1".to_string() }]));
    state.supply.total_unbonding = 5;
    let msgs = state.set_validators(NOW, &"owner".to_string(), vec![("val2".to_string(), Decimal::percent(100))]).unwrap();
    assert!(msgs.is_empty());
    assert!(state.unbonding.is_empty());
    assert_eq!(state.supply.total_unbonding, 0);
}

#[test]
fn contract_proper_init() {
    let state = instantiate(msg_with(Decimal::percent(10), Decimal::percent(100), Decimal::percent(4)), NOW, TOKEN.to_string());
    assert!(state.is_ok());
    let contract_addr = "cosmos2contract".to_string();
    let token = token_instantiate(
        TokenInitInfo {
            label: "label".to_string(),
            cw20_code_id: 0,
            name: "funLSD".to_string(),
            symbol: "fLSD".to_string(),
            decimals: 6,
            initial_balances: vec![],
        },
        contract_addr.clone(),
    );
    assert_eq!(
        token,
        TokenInstantiate {
            code_id: 0,
            admin: contract_addr.clone(),
            label: "label".to_string(),
            name: "funLSD".to_string(),
            symbol: "fLSD".to_string(),
            decimals: 6,
            initial_balances: vec![],
            minter: contract_addr,
            reply_id: 1,
        }
    );
}
