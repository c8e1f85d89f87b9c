//! Messages of the voting module whose power is the chain's staked balance.

use vstd::prelude::*;

verus! {

#[derive(Debug)]
pub struct InstantiateMsg {
    /// Address of the chain's staking module; its balance is the amount
    /// staked across the network.
    pub staking_module_address: String,
}

#[derive(Debug)]
pub enum QueryMsg {
    Dao {},
    StakingModule {},
    VotingPowerAtHeight { address: String, height: Option<u64> },
    TotalPowerAtHeight { height: Option<u64> },
    Info {},
}

#[derive(Clone, Copy, Debug, PartialEq, Eq, Structural)]
pub struct MigrateMsg {}

} // verus!
