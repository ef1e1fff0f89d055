//! Migrating the hub from versions before 1.1.0, which kept the bonded stake
//! and the unbondings inside the supply.
use vstd::prelude::*;
use crate::error::ContractError;
use crate::state::{Config, Supply};

verus! {

/// When an old unbonding expires.
#[derive(Debug, Clone, Copy, PartialEq, Eq, Structural)]
pub enum Expiration {
    AtHeight(u64),
    /// Nanoseconds since the epoch.
    AtTime(u64),
    Never,
}

/// An unbonding as versions before 1.1.0 kept it.
#[derive(Debug, Clone, PartialEq, Eq)]
pub struct OldUnbonding {
    pub amount: u128,
    pub expiration: Expiration,
    pub validator: String,
}

/// The supply as versions before 1.1.0 kept it.
#[derive(Debug, Clone, PartialEq, Eq)]
pub struct OldSupply {
    pub bond_denom: String,
    pub issued: u128,
    pub total_bonded: u128,
    pub bonded: Vec<(String, u128)>,
    pub claims: u128,
    pub unbonding: Vec<OldUnbonding>,
    pub total_unbonding: u128,
}

/// The order of two versions by the rules of semantic versioning: whether
/// the first comes before the second, or `None` if one of them is no version.
pub uninterp spec fn semver_before(version: Seq<char>, bound: Seq<char>) -> Option<bool>;

/// Calls `semver::Version::parse` on both versions and compares them with
/// `<`. Claimed: the result depends on the two strings alone (it is named
/// `semver_before`); what the order is, is left to the crate.
#[verifier::external_body]
fn version_before(version: &String, bound: &String) -> (r: Option<bool>)
    ensures
        r == semver_before(version@, bound@),
{
    match (semver::Version::parse(version), semver::Version::parse(bound)) {
        (Ok(v), Ok(b)) => Some(v < b),
        _ => None,
    }
}

/// Whether a hub of the stored version still keeps its stake in the supply:
/// its version comes before 1.1.0 (`None` if it is no version).
pub fn needs_supply_migration(version: &String) -> (r: Option<bool>)
    ensures
        r == semver_before(version@, "1.1.0"@),
{
    let bound: String = "1.1.0".to_owned();
    version_before(version, &bound)
}

/// Splits an old supply into the supply and the bonded stake; refused while
/// unbondings are still kept in it.
pub fn migrate_supply(old: OldSupply) -> (r: Result<(Supply, Vec<(String, u128)>), ContractError>)
    ensures
        old.unbonding@.len() != 0 ==> r matches Err(ContractError::MigrationFailed),
        old.unbonding@.len() == 0 ==> (r matches Ok(p) && p.0 == (Supply {
            bond_denom: old.bond_denom,
            issued: old.issued,
            total_bonded: old.total_bonded,
            claims: old.claims,
            total_unbonding: old.total_unbonding,
        }) && p.1 == old.bonded),
{
    if old.unbonding.len() != 0 {
        return Err(ContractError::MigrationFailed);
    }
    let supply = Supply {
        bond_denom: old.bond_denom,
        issued: old.issued,
        total_bonded: old.total_bonded,
        claims: old.claims,
        total_unbonding: old.total_unbonding,
    };
    Ok((supply, old.bonded))
}

/// Hands the hub to a new owner, if one is given.
pub fn migrate_owner(config: &mut Config, new_owner: Option<String>)
    ensures
        new_owner matches Some(o) ==> *final(config) == (Config { owner: o, ..*old(config) }),
        new_owner is None ==> *final(config) == *old(config),
{
    match new_owner {
        Some(o) => {
            config.owner = o;
        },
        None => {},
    }
}

} // verus!
