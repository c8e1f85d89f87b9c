//! Modular governance: voting-power snapshots, quorum rules, a
//! multiple-choice tally engine with deposit handling, and the orchestrator
//! that deploys and wires voting and proposal modules.

pub mod genesis;
pub mod orchestrator;
pub mod proposal;
pub mod snapshot;
pub mod tally;
pub mod threshold;
pub mod voting_cw20_balance;
pub mod voting_cw4;
pub mod voting_staking_denom_staked;
