//! Messages of the voting module whose power is a weighted group's weights.

use vstd::prelude::*;
use crate::genesis::{Member, MemberDiff};

verus! {

#[derive(Debug)]
pub struct InstantiateMsg {
    pub cw4_group_code_id: u64,
    pub initial_members: Vec<Member>,
}

#[derive(Debug)]
pub enum ExecuteMsg {
    /// The group reports changed weights.
    MemberChangedHook { diffs: Vec<MemberDiff> },
}

#[derive(Debug)]
pub enum QueryMsg {
    GroupContract {},
    Dao {},
    VotingPowerAtHeight { address: String, height: Option<u64> },
    TotalPowerAtHeight { height: Option<u64> },
    Info {},
}

#[derive(Clone, Copy, Debug, PartialEq, Eq, Structural)]
pub struct MigrateMsg {}

} // verus!
