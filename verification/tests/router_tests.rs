use wynd_lsd::decimal::Decimal;
use wynd_lsd::error::PaymentError;
use wynd_lsd::hub::{instantiate as hub_instantiate, HubState, InstantiateMsg as HubInstantiateMsg};
use wynd_lsd::msg::{Coin, HubMsg};
use wynd_lsd::router::{
    bond_payment, execute_bond, instantiate, query_simulate, reply, reply_bond_callback, ConfigResponse,
    InstantiateMsg, RouterConfig, RouterError, RouterMsg, WideAmount,
};

fn cfg() -> RouterConfig {
    instantiate(
        InstantiateMsg { hub: "hub".to_string(), pair: "pair".to_string() },
        Some("lsd".to_string()),
        Some("ujuno".to_string()),
    )
    .unwrap()
}

#[test]
fn instantiate_reads_hub() {
    let c = cfg();
    assert_eq!(
        c,
        RouterConfig {
            hub: "hub".to_string(),
            pair: "pair".to_string(),
            lsd_token: "lsd".to_string(),
            bond_denom: "ujuno".to_string()
        }
    );
    let msg = InstantiateMsg { hub: "hub".to_string(), pair: "pair".to_string() };
    assert_eq!(instantiate(msg.clone(), None, Some("ujuno".to_string())).unwrap_err(), RouterError::NotLsdHub);
    assert_eq!(instantiate(msg, Some("lsd".to_string()), None).unwrap_err(), RouterError::NotLsdHub);
}

#[test]
fn config_response_from_config() {
    let r = ConfigResponse::from(cfg());
    assert_eq!(r.hub, "hub");
    assert_eq!(r.pair, "pair");
    assert_eq!(r.bond_denom, "ujuno");
    assert_eq!(r.lsd_token, "lsd");
}

#[test]
fn bond_payment_checks_denom() {
    let c = cfg();
    assert_eq!(bond_payment(&c, &vec![Coin { denom: "ujuno".to_string(), amount: 7 }]).unwrap(), 7);
    assert_eq!(
        bond_payment(&c, &vec![Coin { denom: "uatom".to_string(), amount: 7 }]).unwrap_err(),
        RouterError::Payment(PaymentError::MissingDenom("ujuno".to_string()))
    );
}

#[test]
fn bond_swaps_then_bonds_rest() {
    let c = cfg();
    let plan = execute_bond(&c, &"user".to_string(), 100, Some(30));
    assert_eq!(
        plan.msgs,
        vec![
            RouterMsg::Swap {
                pair: "pair".to_string(),
                offer_denom: "ujuno".to_string(),
                amount: 30,
                ask_token: "lsd".to_string(),
                max_spread: Decimal::percent(50),
                to: "user".to_string(),
            },
            RouterMsg::Bond { hub: "hub".to_string(), amount: Coin { denom: "ujuno".to_string(), amount: 70 } },
        ]
    );
    assert_eq!(plan.reply_to, Some("user".to_string()));

    let plan = execute_bond(&c, &"user".to_string(), 100, Some(100));
    assert_eq!(plan.msgs.len(), 1);
    assert_eq!(plan.reply_to, None);

    let plan = execute_bond(&c, &"user".to_string(), 100, None);
    assert_eq!(
        plan.msgs,
        vec![RouterMsg::Bond { hub: "hub".to_string(), amount: Coin { denom: "ujuno".to_string(), amount: 100 } }]
    );
}

#[test]
fn reply_ids() {
    assert!(reply(1).is_ok());
    assert_eq!(reply(7).unwrap_err(), RouterError::InvalidReplyId(7));
}

#[test]
fn reply_passes_tokens_on() {
    let c = cfg();
    assert!(reply_bond_callback(&c, "user".to_string(), 0).is_empty());
    assert_eq!(
        reply_bond_callback(&c, "user".to_string(), 55),
        vec![RouterMsg::Transfer { token: "lsd".to_string(), recipient: "user".to_string(), amount: 55 }]
    );
}

#[test]
fn simulate_bond_value() {
    // rate 1.25: 1000 tokens bond to 800 shares
    let rate = Decimal::permille(1250);
    assert_eq!(query_simulate(1000, None, rate), WideAmount { high: 0, low: 800 });
    // 200 swapped for 170 shares, 800 bonded for 640
    assert_eq!(query_simulate(1000, Some((200, 170)), rate), WideAmount { high: 0, low: 810 });
    // rounding down
    assert_eq!(query_simulate(1001, None, Decimal::from_ratio(3, 1)), WideAmount { high: 0, low: 333 });
    // beyond 128 bits: (2^128 - 1) * 10^18 at the smallest exchange rate
    let d: u128 = 1_000_000_000_000_000_000;
    let big = query_simulate(u128::MAX, None, Decimal { atomics: 1 });
    assert_eq!(big, WideAmount { high: d - 1, low: u128::MAX - d + 1 });
    // a carry from the pool's return into the high half
    let carried = query_simulate(u128::MAX, Some((0, d)), Decimal { atomics: 1 });
    assert_eq!(carried, WideAmount { high: d, low: 0 });
}

const NOW: u64 = 1_571_797_419_879_305_533;

fn lsd_hub() -> HubState {
    let msg = HubInstantiateMsg {
        treasury: "treasury".to_string(),
        commission: Decimal::percent(5),
        validators: vec![("val1".to_string(), Decimal::percent(100))],
        owner: "owner".to_string(),
        epoch_period: 23 * 3600,
        unbond_period: 28 * 24 * 3600,
        max_concurrent_unbondings: 7,
        liquidity_discount: Decimal::percent(3),
        tombstone_treshold: Decimal::percent(3),
        slashing_safety_margin: 600,
    };
    let mut hub = hub_instantiate(msg, NOW, "ujuno".to_string()).unwrap();
    hub.token_created(Some("lsd".to_string()), "admin".to_string()).unwrap();
    hub
}

/// Runs a bond of `pay` through the router, with the pool's answers fixed:
/// the trade it predicts (`trade`) and what it returns for it (`returned`).
/// The hub bonds the rest. Returns the tokens the user ends up with and how
/// many the hub minted.
fn run_bond(hub: &mut HubState, hub_balance: &mut u128, pay: u128, trade: Option<u128>, returned: u128) -> (u128, u128) {
    let c = cfg();
    let plan = execute_bond(&c, &"user".to_string(), pay, trade);
    let reply_to = plan.reply_to.clone();
    let mut user = 0u128;
    let mut minted = 0u128;
    for m in plan.msgs {
        match m {
            RouterMsg::Swap { amount, to, .. } => {
                assert_eq!(Some(amount), trade);
                assert_eq!(to, "user");
                user += returned;
            }
            RouterMsg::Bond { amount, .. } => {
                *hub_balance += amount.amount;
                match hub.bond(NOW, &vec![amount], &"router".to_string(), *hub_balance).unwrap() {
                    HubMsg::Mint { amount, .. } => minted = amount,
                    other => panic!("expected a mint, got {:?}", other),
                }
                for t in reply_bond_callback(&c, reply_to.clone().unwrap(), minted) {
                    if let RouterMsg::Transfer { amount, recipient, .. } = t {
                        assert_eq!(recipient, "user");
                        user += amount;
                    }
                }
            }
            RouterMsg::Transfer { .. } => panic!("no transfer before the reply"),
        }
    }
    (user, minted)
}

#[test]
fn bond_with_equal_pool_liquidity() {
    let mut hub = lsd_hub();
    let mut balance = 0u128;
    assert_eq!(hub.exchange_rate(NOW, balance), Decimal::one());

    // the pool's price is well above the target, so it takes the whole bond
    let (trade, returned) = (100_000_000u128, 101_946_000u128);
    let expected = small(query_simulate(100_000_000, Some((trade, returned)), hub.exchange_rate(NOW, balance)));
    let (received, minted) = run_bond(&mut hub, &mut balance, 100_000_000, Some(trade), returned);
    assert_eq!(minted, 0);
    assert_eq!(hub.supply.issued, 0);
    assert_eq!(received, expected);

    // now close to the target: part goes through the pool, the rest is bonded
    let (trade, returned) = (61_000_000u128, 61_290_000u128);
    let expected2 = small(query_simulate(100_000_000, Some((trade, returned)), hub.exchange_rate(NOW, balance)));
    let (received2, minted2) = run_bond(&mut hub, &mut balance, 100_000_000, Some(trade), returned);
    assert_ne!(hub.supply.issued, 0);
    assert_eq!(minted2, 39_000_000);
    assert_eq!(received2, expected2);

    // more liquid staking tokens than native tokens bonded
    assert!(received + received2 > 200_000_000);
}

#[test]
fn bond_with_uneven_pool_liquidity() {
    let mut hub = lsd_hub();
    let mut balance = 0u128;
    assert_eq!(hub.exchange_rate(NOW, balance), Decimal::one());

    // bonding 200_000_000 is not enough to bring the pool to the target: all is traded
    let (trade, returned) = (200_000_000u128, 205_870_000u128);
    let expected = small(query_simulate(200_000_000, Some((trade, returned)), hub.exchange_rate(NOW, balance)));
    let (received, _) = run_bond(&mut hub, &mut balance, 200_000_000, Some(trade), returned);
    assert_eq!(hub.supply.issued, 0);
    assert_eq!(received, expected);

    // the next bond takes the pool to the target, and new tokens are minted
    let (trade, returned) = (20_000_000u128, 20_040_000u128);
    let expected2 = small(query_simulate(50_000_000, Some((trade, returned)), hub.exchange_rate(NOW, balance)));
    let (received2, _) = run_bond(&mut hub, &mut balance, 50_000_000, Some(trade), returned);
    assert_ne!(hub.supply.issued, 0);
    assert_eq!(received2, expected2);
    assert!(received + received2 > 250_000_000);
}

/// The value of an amount that fits in 128 bits.
fn small(v: WideAmount) -> u128 {
    assert_eq!(v.high, 0);
    v.low
}
