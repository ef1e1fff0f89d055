//! Messages the contracts emit, as plain values.
use vstd::prelude::*;

verus! {

/// An amount of a native token.
#[derive(Debug, Clone, PartialEq, Eq)]
pub struct Coin {
    pub denom: String,
    pub amount: u128,
}

/// Staking messages sent to the chain.
#[derive(Debug, Clone, PartialEq, Eq)]
pub enum StakingMsg {
    Delegate { validator: String, amount: Coin },
    Undelegate { validator: String, amount: Coin },
    Redelegate { src_validator: String, dst_validator: String, amount: Coin },
}

/// Messages the hub sends.
#[derive(Debug, Clone, PartialEq, Eq)]
pub enum HubMsg {
    /// Mint liquid staking tokens on the token contract.
    Mint { contract: String, recipient: String, amount: u128 },
    /// Burn liquid staking tokens held by the hub on the token contract.
    Burn { contract: String, amount: u128 },
    /// Send native tokens.
    BankSend { to_address: String, amount: Coin },
    Staking(StakingMsg),
    /// Withdraw the staking rewards from a validator; the reply to the last of
    /// these continues the reinvestment.
    WithdrawRewards { validator: String, last: bool },
    /// Make `admin` the admin of `contract`.
    UpdateAdmin { contract: String, admin: String },
}

} // verus!
