//! The gauge adapter: it offers the validators whose commission is low enough
//! as the options of a gauge, and turns the gauge's selection into a new
//! validator set for the hub.
use vstd::prelude::*;
use crate::decimal::{Decimal, DECIMAL_FRACTIONAL};

verus! {

/// Parameters of the adapter.
#[derive(Debug, Clone, PartialEq, Eq)]
pub struct InstantiateMsg {
    /// Address of the lsd hub whose validators are chosen
    pub hub: String,
    /// The highest commission a validator may charge to be an option
    pub max_commission: Decimal,
}

/// The adapter's configuration.
#[derive(Debug, Clone, PartialEq, Eq)]
pub struct GaugeConfig {
    pub hub: String,
    pub max_commission: Decimal,
}

/// The configuration of the first version, which had no commission cap.
#[derive(Debug, Clone, PartialEq, Eq)]
pub struct OldConfig {
    pub hub: String,
}

/// How the adapter is migrated: set up in place of a placeholder contract,
/// or updated from an older version of itself.
#[derive(Debug, Clone, PartialEq, Eq)]
pub enum MigrateMsg {
    Init(InstantiateMsg),
    Update { max_commission: Option<Decimal> },
}

/// Errors of the adapter.
#[derive(Debug, Clone, Copy, PartialEq, Eq, Structural)]
pub enum GaugeError {
    /// Setting up by migration is only allowed over a placeholder contract.
    NotPlaceholder,
    /// The commission cap must lie above 0 and at most at 1.
    InvalidMaxCommission,
}

/// A call of the hub that sets a new validator set.
#[derive(Debug, Clone, PartialEq, Eq)]
pub struct SetValidatorsCall {
    pub contract_addr: String,
    pub new_validators: Vec<(String, Decimal)>,
}

/// A commission cap lies above 0 and at most at 1.
pub open spec fn valid_max_commission(d: Decimal) -> bool {
    0 < d.atomics <= DECIMAL_FRACTIONAL
}

/// Checks the commission cap and sets up the configuration.
pub fn instantiate(msg: InstantiateMsg) -> (r: Result<GaugeConfig, GaugeError>)
    ensures
        valid_max_commission(msg.max_commission) ==> r == Ok::<GaugeConfig, GaugeError>(
            GaugeConfig { hub: msg.hub, max_commission: msg.max_commission },
        ),
        !valid_max_commission(msg.max_commission) ==> r == Err::<GaugeConfig, GaugeError>(
            GaugeError::InvalidMaxCommission,
        ),
{
    if !(msg.max_commission.atomics > 0 && msg.max_commission.atomics <= DECIMAL_FRACTIONAL) {
        return Err(GaugeError::InvalidMaxCommission);
    }
    Ok(GaugeConfig { hub: msg.hub, max_commission: msg.max_commission })
}

/// The validators whose commission is at most the cap, in order.
pub open spec fn eligible(validators: Seq<(String, Decimal)>, max_commission: Decimal) -> Seq<(String, Decimal)> {
    validators.filter(|v: (String, Decimal)| v.1.atomics <= max_commission.atomics)
}

/// The options of the gauge: the addresses of the validators (given with their
/// commission) whose commission does not exceed the cap, in order.
pub fn all_options(config: &GaugeConfig, validators: &Vec<(String, Decimal)>) -> (r: Vec<String>)
    ensures
        r@ == eligible(validators@, config.max_commission).map_values(|v: (String, Decimal)| v.0),
{
    let mut r: Vec<String> = Vec::new();
    let mut i: usize = 0;
    let ghost pred = |v: (String, Decimal)| v.1.atomics <= config.max_commission.atomics;
    proof {
        assert(validators@.take(0) =~= Seq::<(String, Decimal)>::empty());
        reveal_with_fuel(Seq::filter, 1);
    }
    while i < validators.len()
        invariant
            i <= validators.len(),
            pred == (|v: (String, Decimal)| v.1.atomics <= config.max_commission.atomics),
            r@ == validators@.take(i as int).filter(pred).map_values(|v: (String, Decimal)| v.0),
        decreases validators.len() - i,
    {
        proof {
            assert(validators@.take(i + 1) =~= validators@.take(i as int).push(validators@[i as int]));
            validators@.take(i as int).lemma_filter_push(validators@[i as int], pred);
        }
        let ghost before = r@;
        if validators[i].1.atomics <= config.max_commission.atomics {
            r.push(validators[i].0.clone());
            proof {
                assert(validators@.take(i as int).filter(pred).push(validators@[i as int]).map_values(
                    |v: (String, Decimal)| v.0,
                ) =~= before.push(validators@[i as int].0));
            }
        }
        i = i + 1;
    }
    proof {
        assert(validators@.take(validators@.len() as int) =~= validators@);
    }
    r
}

/// The messages a gauge sends for a selection: one call of the hub that sets
/// the selected validators, with their weights, as its validator set.
pub fn sample_gauge_msgs(config: &GaugeConfig, selected: Vec<(String, Decimal)>) -> (r: Vec<SetValidatorsCall>)
    ensures
        r@ == seq![SetValidatorsCall { contract_addr: config.hub, new_validators: selected }],
{
    let mut r: Vec<SetValidatorsCall> = Vec::new();
    let ghost sel = selected;
    r.push(SetValidatorsCall { contract_addr: config.hub.clone(), new_validators: selected });
    proof {
        assert(r@ =~= seq![SetValidatorsCall { contract_addr: config.hub, new_validators: sel }]);
    }
    r
}

/// Whether a stored contract name is that of a placeholder contract.
pub fn is_placeholder(contract: &String) -> (r: bool)
    ensures
        r == (contract@ == "crates.io:cw-placeholder"@),
{
    let expected: String = "crates.io:cw-placeholder".to_owned();
    *contract == expected
}

/// Migrates the adapter, given the contract name stored before: set up over a
/// placeholder contract (any other contract is refused), or updated in place
/// (its version is checked by the caller). Returns the configuration to store
/// when there is a new one.
pub fn migrate(msg: MigrateMsg, stored_contract: &String) -> (r: Result<Option<GaugeConfig>, GaugeError>)
    requires
        msg matches MigrateMsg::Init(m) ==> (stored_contract@ == "crates.io:cw-placeholder"@
            ==> valid_max_commission(m.max_commission)),
    ensures
        msg matches MigrateMsg::Init(m) ==> {
            &&& stored_contract@ != "crates.io:cw-placeholder"@ ==> r == Err::<Option<GaugeConfig>, GaugeError>(
                GaugeError::NotPlaceholder,
            )
            &&& stored_contract@ == "crates.io:cw-placeholder"@ ==> r == Ok::<
                Option<GaugeConfig>,
                GaugeError,
            >(Some(GaugeConfig { hub: m.hub, max_commission: m.max_commission }))
        },
        msg is Update ==> r matches Ok(None),
{
    match msg {
        MigrateMsg::Init(m) => {
            if !is_placeholder(stored_contract) {
                return Err(GaugeError::NotPlaceholder);
            }
            match instantiate(m) {
                Ok(cfg) => Ok(Some(cfg)),
                Err(e) => Err(e),
            }
        },
        MigrateMsg::Update { max_commission: _ } => Ok(None),
    }
}

} // verus!
