//! The bond router: it turns native tokens into liquid staking tokens as
//! cheaply as it can, buying them on the pool while the pool sells below the
//! hub's exchange rate and bonding the rest on the hub.
use vstd::prelude::*;
use crate::decimal::{Decimal, DECIMAL_FRACTIONAL};
use crate::error::PaymentError;
use crate::msg::Coin;
use crate::payment::{must_pay, spec_must_pay, is_payment_error};

verus! {

/// The reply id of the bond on the hub; its reply passes the tokens on.
pub const REPLY_BOND_ID: u64 = 1u64;

/// Parameters of the router.
#[derive(Debug, Clone, PartialEq, Eq)]
pub struct InstantiateMsg {
    /// Address of the lsd-hub contract
    pub hub: String,
    /// Address of the staking swap pool to trade on
    pub pair: String,
}

/// What the router can be asked to do.
#[derive(Debug, Clone, Copy, PartialEq, Eq, Structural)]
pub enum ExecuteMsg {
    /// Turn the attached staking asset into liquid staking tokens.
    Bond {},
}

/// The router's configuration.
#[derive(Debug, Clone, PartialEq, Eq)]
pub struct RouterConfig {
    pub hub: String,
    pub pair: String,
    /// The liquid staking token of the hub
    pub lsd_token: String,
    /// The denomination the hub stakes
    pub bond_denom: String,
}

/// The configuration as the router reports it.
#[derive(Debug, Clone, PartialEq, Eq)]
pub struct ConfigResponse {
    /// Address of the lsd-hub contract
    pub hub: String,
    /// Address of the staking swap pool to trade on
    pub pair: String,
    /// This is the denomination we can stake (and only one we accept for payments)
    pub bond_denom: String,
    /// This is the lsd token the users wishes to receive
    pub lsd_token: String,
}

impl From<RouterConfig> for ConfigResponse {
    fn from(cfg: RouterConfig) -> (r: Self) {
        ConfigResponse {
            hub: cfg.hub,
            pair: cfg.pair,
            bond_denom: cfg.bond_denom,
            lsd_token: cfg.lsd_token,
        }
    }
}

impl vstd::std_specs::convert::FromSpecImpl<RouterConfig> for ConfigResponse {
    open spec fn obeys_from_spec() -> bool {
        true
    }

    open spec fn from_spec(cfg: RouterConfig) -> ConfigResponse {
        ConfigResponse {
            hub: cfg.hub,
            pair: cfg.pair,
            bond_denom: cfg.bond_denom,
            lsd_token: cfg.lsd_token,
        }
    }
}

/// Errors of the router.
#[derive(Debug, Clone, PartialEq, Eq)]
pub enum RouterError {
    Payment(PaymentError),
    /// The hub address does not answer as an lsd hub.
    NotLsdHub,
    /// A reply with an id the router does not know.
    InvalidReplyId(u64),
}

/// Messages the router sends.
#[derive(Debug, Clone, PartialEq, Eq)]
pub enum RouterMsg {
    /// Sell `amount` of `offer_denom` on the pool for `ask_token`, accepting
    /// up to `max_spread`; the pool sends what it buys straight to `to`.
    Swap { pair: String, offer_denom: String, amount: u128, ask_token: String, max_spread: Decimal, to: String },
    /// Bond the attached coin on the hub; the hub mints to the router, whose
    /// reply passes the tokens on.
    Bond { hub: String, amount: Coin },
    /// Transfer liquid staking tokens.
    Transfer { token: String, recipient: String, amount: u128 },
}

/// What a bond leads to: the messages, and who gets the minted tokens when
/// the reply to the bond comes (if there is a bond).
#[derive(Debug, Clone, PartialEq, Eq)]
pub struct BondPlan {
    pub msgs: Vec<RouterMsg>,
    pub reply_to: Option<String>,
}

/// Sets up the configuration from what the hub answered: its token contract
/// and its bond denomination (`None` where the query failed).
pub fn instantiate(msg: InstantiateMsg, hub_token: Option<String>, hub_bond_denom: Option<String>) -> (r:
    Result<RouterConfig, RouterError>)
    ensures
        (hub_token is None || hub_bond_denom is None) ==> r matches Err(RouterError::NotLsdHub),
        hub_token is Some && hub_bond_denom is Some ==> r == Ok::<RouterConfig, RouterError>(
            RouterConfig {
                hub: msg.hub,
                pair: msg.pair,
                lsd_token: hub_token.unwrap(),
                bond_denom: hub_bond_denom.unwrap(),
            },
        ),
{
    let lsd_token = match hub_token {
        Some(t) => t,
        None => {
            return Err(RouterError::NotLsdHub);
        },
    };
    let bond_denom = match hub_bond_denom {
        Some(d) => d,
        None => {
            return Err(RouterError::NotLsdHub);
        },
    };
    Ok(RouterConfig { hub: msg.hub, pair: msg.pair, lsd_token, bond_denom })
}

/// The amount of the bond denomination paid with a bond: exactly one coin of
/// it, with a nonzero amount.
pub fn bond_payment(cfg: &RouterConfig, funds: &Vec<Coin>) -> (r: Result<u128, RouterError>)
    ensures
        spec_must_pay(funds@, cfg.bond_denom@) matches Ok(p) ==> r == Ok::<u128, RouterError>(p),
        spec_must_pay(funds@, cfg.bond_denom@) is Err ==> (r matches Err(RouterError::Payment(e))
            && is_payment_error(funds@, cfg.bond_denom@, e)),
{
    match must_pay(funds, &cfg.bond_denom) {
        Ok(p) => Ok(p),
        Err(e) => Err(RouterError::Payment(e)),
    }
}

/// What is left to bond of `pay` after the trade on the pool.
pub open spec fn bond_rest(pay: u128, trade: Option<u128>) -> int {
    match trade {
        Some(t) => pay - t,
        None => pay as int,
    }
}

/// The messages of a bond of `pay`, given how much of it the pool can take
/// before its price reaches the exchange rate (`trade`): swap that much on
/// the pool, straight to the sender, and bond the rest on the hub.
pub open spec fn bond_msgs(cfg: RouterConfig, sender: String, pay: u128, trade: Option<u128>) -> Seq<RouterMsg> {
    let swap = match trade {
        Some(t) => seq![
            RouterMsg::Swap {
                pair: cfg.pair,
                offer_denom: cfg.bond_denom,
                amount: t,
                ask_token: cfg.lsd_token,
                max_spread: Decimal { atomics: Decimal::spec_percent(50) as u128 },
                to: sender,
            },
        ],
        None => Seq::empty(),
    };
    let rest = bond_rest(pay, trade);
    if rest == 0 {
        swap
    } else {
        swap.push(RouterMsg::Bond { hub: cfg.hub, amount: Coin { denom: cfg.bond_denom, amount: rest as u128 } })
    }
}

/// Plans a bond of `pay` tokens for `sender`: whatever the pool can take
/// (`trade`) is swapped, the rest is bonded on the hub and the sender is
/// remembered for the reply.
pub fn execute_bond(cfg: &RouterConfig, sender: &String, pay: u128, trade: Option<u128>) -> (r: BondPlan)
    requires
        trade matches Some(t) ==> t <= pay,
    ensures
        r.msgs@ == bond_msgs(*cfg, *sender, pay, trade),
        r.reply_to == (if bond_rest(pay, trade) == 0 {
            None
        } else {
            Some(*sender)
        }),
{
    let mut msgs: Vec<RouterMsg> = Vec::new();
    let mut rest = pay;
    match trade {
        Some(to_swap) => {
            msgs.push(
                RouterMsg::Swap {
                    pair: cfg.pair.clone(),
                    offer_denom: cfg.bond_denom.clone(),
                    amount: to_swap,
                    ask_token: cfg.lsd_token.clone(),
                    max_spread: Decimal::percent(50),
                    to: sender.clone(),
                },
            );
            rest = rest - to_swap;
        },
        None => {},
    }
    let mut reply_to: Option<String> = None;
    if rest != 0 {
        msgs.push(RouterMsg::Bond { hub: cfg.hub.clone(), amount: Coin { denom: cfg.bond_denom.clone(), amount: rest } });
        reply_to = Some(sender.clone());
    }
    proof {
        assert(msgs@ =~= bond_msgs(*cfg, *sender, pay, trade));
    }
    BondPlan { msgs, reply_to }
}

/// Accepts only the reply to the bond on the hub.
pub fn reply(id: u64) -> (r: Result<(), RouterError>)
    ensures
        id == REPLY_BOND_ID ==> r is Ok,
        id != REPLY_BOND_ID ==> (r matches Err(RouterError::InvalidReplyId(i)) && i == id),
{
    if id == REPLY_BOND_ID {
        Ok(())
    } else {
        Err(RouterError::InvalidReplyId(id))
    }
}

/// After the bond, passes the `amount` of liquid staking tokens the router
/// holds on to the remembered `recipient` (nothing when it holds none).
pub fn reply_bond_callback(cfg: &RouterConfig, recipient: String, amount: u128) -> (r: Vec<RouterMsg>)
    ensures
        amount == 0 ==> r@.len() == 0,
        amount != 0 ==> r@ == seq![RouterMsg::Transfer { token: cfg.lsd_token, recipient, amount }],
{
    let mut r: Vec<RouterMsg> = Vec::new();
    if amount != 0 {
        r.push(RouterMsg::Transfer { token: cfg.lsd_token.clone(), recipient, amount });
    }
    proof {
        if amount != 0 {
            assert(r@ =~= seq![RouterMsg::Transfer { token: cfg.lsd_token, recipient, amount }]);
        }
    }
    r
}

/// 2^128: the weight of the high half of a 256-bit amount.
pub open spec fn two_pow_128() -> int {
    0x1_0000_0000_0000_0000_0000_0000_0000_0000int
}

/// Calls `cosmwasm_std::Uint256::multiply_ratio` on 128-bit arguments and
/// splits the 256-bit result into its high and low 128 bits. Claimed: for a
/// nonzero denominator the result is `x * numerator / denominator` rounded
/// down (the source multiplies into 512 bits, divides, and panics only on a
/// zero denominator or a quotient above 256 bits, which a product of two
/// 128-bit numbers cannot reach).
#[verifier::external_body]
fn cw_multiply_ratio(x: u128, numerator: u128, denominator: u128) -> (r: (u128, u128))
    requires
        denominator != 0,
    ensures
        r.0 * two_pow_128() + r.1 == (x * numerator) / (denominator as int),
{
    let v = cosmwasm_std::Uint256::new(x).multiply_ratio(
        cosmwasm_std::Uint128::new(numerator),
        cosmwasm_std::Uint128::new(denominator),
    );
    let bytes = v.to_be_bytes();
    let high: [u8; 16] = bytes[..16].try_into().unwrap();
    let low: [u8; 16] = bytes[16..].try_into().unwrap();
    (u128::from_be_bytes(high), u128::from_be_bytes(low))
}

/// An amount of up to 256 bits, as its high and low 128 bits.
#[derive(Debug, Clone, Copy, PartialEq, Eq, Structural)]
pub struct WideAmount {
    pub high: u128,
    pub low: u128,
}

impl WideAmount {
    /// The amount.
    pub open spec fn value(self) -> int {
        self.high * two_pow_128() + self.low
    }
}

/// The liquid staking tokens that bonding `bond` native tokens yields at the
/// exchange rate `rate` (tokens per share, as decimal atomics), rounded down.
pub open spec fn bond_value(bond: int, rate: int) -> int {
    (bond * (DECIMAL_FRACTIONAL as int)) / rate
}

/// How many liquid staking tokens a bond of `bond` native tokens yields: what
/// the pool returns for the trade (`trade`: the amount offered and the amount
/// returned), plus what is left of the bond, bonded at the exchange rate.
pub open spec fn simulated_value(bond: u128, trade: Option<(u128, u128)>, rate: Decimal) -> int {
    match trade {
        Some(t) => bond_value(bond - t.0, rate.atomics as int) + t.1,
        None => bond_value(bond as int, rate.atomics as int),
    }
}

/// Simulates a bond of `bond` native tokens (see `simulated_value`), in 256
/// bits, which hold every value.
pub fn query_simulate(bond: u128, trade: Option<(u128, u128)>, exchange_rate: Decimal) -> (r: WideAmount)
    requires
        exchange_rate.atomics != 0,
        trade matches Some(t) ==> t.0 <= bond,
    ensures
        r.value() == simulated_value(bond, trade, exchange_rate),
{
    let left = match trade {
        Some(t) => bond - t.0,
        None => bond,
    };
    let (high, low) = cw_multiply_ratio(left, DECIMAL_FRACTIONAL, exchange_rate.atomics);
    proof {
        let q = (left * DECIMAL_FRACTIONAL) / (exchange_rate.atomics as int);
        let t = two_pow_128();
        assert(q <= left * DECIMAL_FRACTIONAL) by (nonlinear_arith)
            requires
                q == (left * DECIMAL_FRACTIONAL) / (exchange_rate.atomics as int),
                exchange_rate.atomics >= 1,
                left >= 0,
        ;
        assert(high * t <= left * DECIMAL_FRACTIONAL);
        assert(left * DECIMAL_FRACTIONAL < t * DECIMAL_FRACTIONAL) by (nonlinear_arith)
            requires
                left < t,
                DECIMAL_FRACTIONAL > 0,
        ;
        assert(high < DECIMAL_FRACTIONAL) by (nonlinear_arith)
            requires
                high * t < t * DECIMAL_FRACTIONAL,
                t > 0,
        ;
    }
    match trade {
        Some(t) => {
            if low <= u128::MAX - t.1 {
                WideAmount { high, low: low + t.1 }
            } else {
                WideAmount { high: high + 1, low: low - (u128::MAX - t.1) - 1 }
            }
        },
        None => WideAmount { high, low },
    }
}

/// A simulation values exactly what a bond plans with the same prediction of
/// the pool: the plan swaps the predicted trade, straight to the sender, and
/// bonds the rest on the hub, and the simulation counts what the pool returns
/// for the trade plus the rest valued at the exchange rate.
pub proof fn law_simulation_values_the_bond_plan(
    cfg: RouterConfig,
    sender: String,
    pay: u128,
    trade: u128,
    returned: u128,
    rate: Decimal,
)
    requires
        trade <= pay,
        rate.atomics != 0,
    ensures
        ({
            let msgs = bond_msgs(cfg, sender, pay, Some(trade));
            &&& msgs[0] matches RouterMsg::Swap { amount, to, .. } && amount == trade && to == sender
            &&& trade == pay ==> msgs.len() == 1 && simulated_value(pay, Some((trade, returned)), rate)
                == returned
            &&& trade < pay ==> msgs.len() == 2 && (msgs[1] matches RouterMsg::Bond { amount, .. }
                && amount.amount == pay - trade && simulated_value(pay, Some((trade, returned)), rate)
                == returned + bond_value(amount.amount as int, rate.atomics as int))
        }),
{
    assert(bond_value(0, rate.atomics as int) == 0);
}

} // verus!
