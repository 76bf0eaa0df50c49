//! A prediction-market ledger: events with priced outcomes, investment funds
//! cut into shares, bets placed by a fund's trader, settlement of an event's
//! pool among the funds that backed the winner, and the sale of shares by
//! proposal and acceptance.
//!
//! The ledger holds no money and asks nobody for the time: every operation
//! takes the caller, the value sent along and the current time as a
//! [`MyEnvironment`], and either succeeds and changes the ledger, or fails
//! with an [`Error`] and changes nothing. What each operation decides and
//! leaves behind is stated in [`rules`] over the ledger as a mathematical
//! value, [`MarketState`]; what holds of every ledger that the operations can
//! reach is stated and proved in [`laws`].

pub mod checks;
pub mod events;
pub mod funds;
pub mod invariants;
pub mod laws;
pub mod ledger;
pub mod lemmas;
pub mod model;
pub mod rules;
pub mod settlement;
pub mod types;

pub use crate::events::EventCore;
pub use crate::funds::FundCore;
pub use crate::ledger::{Ledger, PredictionMarket};
pub use crate::model::MarketState;
pub use crate::types::{
    AccountId, Balance, Error, Event, EventId, EventMarket, EventMetadata, FundMetadata,
    FundTrade, InvestmentFund, InvestmentFundId, MarketOutCome, MyEnvironment, OutCome,
    OutComeId, OutComePayload, ProponentTrades, Share, ShareEntry, Supply, Ticket, Timestamp,
    TradeId, CONTROL_PERCENT, DEFAULT_DURATION, MIN_EVENT_DEPOSIT, MIN_FUND_DEPOSIT,
    MIN_FUND_SHARE,
};
