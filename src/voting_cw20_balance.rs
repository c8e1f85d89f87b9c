//! Messages of the voting module whose power is a token balance.

use vstd::prelude::*;
use crate::genesis::Cw20Coin;

verus! {

/// An embedded token logo.
#[derive(Debug)]
pub enum EmbeddedLogo {
    Svg(Vec<u8>),
    Png(Vec<u8>),
}

/// A token logo, by link or embedded.
#[derive(Debug)]
pub enum Logo {
    Url(String),
    Embedded(EmbeddedLogo),
}

/// Marketing details of a new token.
#[derive(Debug)]
pub struct InstantiateMarketingInfo {
    pub project: Option<String>,
    pub description: Option<String>,
    pub marketing: Option<String>,
    pub logo: Option<Logo>,
}

/// The token that gives power: an existing one, or one to create.
#[derive(Debug)]
pub enum TokenInfo {
    Existing { address: String },
    New {
        code_id: u64,
        label: String,
        name: String,
        symbol: String,
        decimals: u8,
        initial_balances: Vec<Cw20Coin>,
        marketing: Option<InstantiateMarketingInfo>,
    },
}

#[derive(Debug)]
pub struct InstantiateMsg {
    pub token_info: TokenInfo,
}

#[derive(Debug)]
pub enum QueryMsg {
    TokenContract {},
    VotingPowerAtHeight { address: String, height: Option<u64> },
    TotalPowerAtHeight { height: Option<u64> },
    Info {},
}

} // verus!
