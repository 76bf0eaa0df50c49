//! Identifiers, amounts, limits and the records that the ledger stores.

use vstd::prelude::*;

verus! {

/// The identifier of an outcome.
pub type OutComeId = u64;

/// The identifier of a fund.
pub type InvestmentFundId = u64;

/// The identifier of a proposal.
pub type TradeId = u64;

/// The identifier of an event.
pub type EventId = u64;

/// A number of shares of a fund.
pub type Share = u64;

/// A number of units of an outcome.
pub type Supply = u64;

/// An amount of money.
pub type Balance = u128;

/// A point in time, or a duration, in milliseconds.
pub type Timestamp = u64;

/// The least value that must accompany the creation of an event.
pub const MIN_EVENT_DEPOSIT: Balance = 1_000_000_000_000;

/// The least value that must accompany the creation of a fund.
pub const MIN_FUND_DEPOSIT: Balance = 1_000_000_000_000;

/// The share unit: a fund is cut into a multiple of this many shares.
pub const MIN_FUND_SHARE: Share = 100;

/// How long a proposal stays open when its maker names no duration: 30 days,
/// in milliseconds.
pub const DEFAULT_DURATION: Timestamp = 2592000000;

/// The percentage of a fund's shares that gives control of the fund.
pub const CONTROL_PERCENT: u64 = 51;

/// Every way in which an operation of the ledger can fail.
#[derive(Clone, Copy, Debug, PartialEq, Eq, Structural)]
pub enum Error {
    DepositTooLow,
    EventNotFound,
    NotOwner,
    ResolveDateNotMatch,
    WrongEventOutCome,
    NotDivisibleBy100,
    NotEnoughShare,
    OutOfSupply,
    AtLeastTwoOutcome,
    FundNotFound,
    AtLeast100Share,
    TimeExpired,
    TradeNotAvailable,
    TradeNotFound,
    SomethingWrong,
    NoBodyBetted,
    MoreThanOneSupply,
    NotEnoughBalance,
    TraderNotIdentitied,
}

/// The identity of a principal: 32 bytes, held as two 128-bit halves so that
/// two identities are equal exactly when both halves are.
#[derive(Clone, Copy, Debug, PartialEq, Eq, Structural)]
pub struct AccountId {
    pub hi: u128,
    pub lo: u128,
}

/// What the host reports about the call in progress: who makes it, the value
/// sent along with it, and the time at which it runs. An operation reads these
/// once, here, and nowhere else.
#[derive(Clone, Copy, Debug, PartialEq, Eq, Structural)]
pub struct MyEnvironment {
    pub caller: AccountId,
    pub transferred_value: Balance,
    pub block_timestamp: Timestamp,
}

impl MyEnvironment {
    /// Who makes the call.
    pub fn caller(&self) -> (r: AccountId)
        ensures
            r == self.caller,
    {
        self.caller
    }

    /// The value sent along with the call.
    pub fn transferred_value(&self) -> (r: Balance)
        ensures
            r == self.transferred_value,
    {
        self.transferred_value
    }

    /// The time at which the call runs.
    pub fn block_timestamp(&self) -> (r: Timestamp)
        ensures
            r == self.block_timestamp,
    {
        self.block_timestamp
    }
}

/// A question put to the market by its organizer. Never changes once created.
#[derive(Debug, PartialEq, Eq)]
pub struct Event {
    pub event_id: EventId,
    pub owner: AccountId,
    pub question: String,
    pub metadata: EventMetadata,
}

/// How an event presents itself.
#[derive(Debug, PartialEq, Eq)]
pub struct EventMetadata {
    pub name: Option<String>,
    pub image_url: Option<String>,
    pub description: Option<String>,
}

/// One of the mutually exclusive answers to an event's question, with the
/// price of one unit of its supply and the number of units that exist.
#[derive(Debug, PartialEq, Eq)]
pub struct OutCome {
    pub event_id: EventId,
    pub outcome_id: OutComeId,
    pub description: String,
    pub deposit_per_supply: Balance,
    pub total_supply: Supply,
}

/// What the organizer says of an outcome when creating an event.
#[derive(Debug, PartialEq, Eq)]
pub struct OutComePayload {
    pub description: String,
    pub deposit_per_supply: Balance,
    pub total_supply: Supply,
}

/// The money side of an event: the pooled stake and the state of resolution.
#[derive(Clone, Copy, Debug, PartialEq, Eq, Structural)]
pub struct EventMarket {
    pub event_id: EventId,
    pub pool: Balance,
    pub is_resolved: bool,
    pub resolve_date: Timestamp,
    pub winning_outcome: Option<OutComeId>,
}

/// The units of an outcome that nobody has bought yet.
#[derive(Clone, Copy, Debug, PartialEq, Eq, Structural)]
pub struct MarketOutCome {
    pub event_id: EventId,
    pub outcome_id: OutComeId,
    pub available_supply: Supply,
}

/// A pool of capital cut into shares, with the one principal who may bet it.
#[derive(Debug, PartialEq, Eq)]
pub struct InvestmentFund {
    pub investment_fund_id: InvestmentFundId,
    pub metadata: FundMetadata,
    pub total_share: Share,
    pub total_fund: Balance,
    pub trader: AccountId,
}

/// How a fund presents itself.
#[derive(Debug, PartialEq, Eq)]
pub struct FundMetadata {
    pub name: Option<String>,
    pub image_url: Option<String>,
}

/// An offer by a share owner to sell some shares of a fund at a price.
#[derive(Clone, Copy, Debug, PartialEq, Eq, Structural)]
pub struct FundTrade {
    pub investment_fund_id: InvestmentFundId,
    pub trade_id: TradeId,
    pub proponent: AccountId,
    pub proposed_person: Option<AccountId>,
    pub share: Share,
    pub price: Balance,
    pub close_time: Timestamp,
    pub is_completed: bool,
}

/// The units of one outcome that one fund has bought so far.
#[derive(Clone, Copy, Debug, PartialEq, Eq, Structural)]
pub struct Ticket {
    pub fund_id: InvestmentFundId,
    pub supply: Supply,
}

/// The shares of one fund that one principal holds.
#[derive(Clone, Copy, Debug, PartialEq, Eq, Structural)]
pub struct ShareEntry {
    pub owner: AccountId,
    pub share: Share,
}

/// The proposals that one principal has made, oldest first.
#[derive(Clone, Debug, PartialEq, Eq)]
pub struct ProponentTrades {
    pub proponent: AccountId,
    pub trades: Vec<TradeId>,
}

/// A copy of an optional text.
pub fn clone_text(text: &Option<String>) -> (r: Option<String>)
    ensures
        r == *text,
{
    match text {
        Some(s) => Some(s.clone()),
        None => None,
    }
}

impl Clone for EventMetadata {
    fn clone(&self) -> (r: Self)
        ensures
            r == *self,
    {
        EventMetadata {
            name: clone_text(&self.name),
            image_url: clone_text(&self.image_url),
            description: clone_text(&self.description),
        }
    }
}

impl Clone for Event {
    fn clone(&self) -> (r: Self)
        ensures
            r == *self,
    {
        Event {
            event_id: self.event_id,
            owner: self.owner,
            question: self.question.clone(),
            metadata: self.metadata.clone(),
        }
    }
}

impl Clone for OutCome {
    fn clone(&self) -> (r: Self)
        ensures
            r == *self,
    {
        OutCome {
            event_id: self.event_id,
            outcome_id: self.outcome_id,
            description: self.description.clone(),
            deposit_per_supply: self.deposit_per_supply,
            total_supply: self.total_supply,
        }
    }
}

impl Clone for OutComePayload {
    fn clone(&self) -> (r: Self)
        ensures
            r == *self,
    {
        OutComePayload {
            description: self.description.clone(),
            deposit_per_supply: self.deposit_per_supply,
            total_supply: self.total_supply,
        }
    }
}

impl Clone for FundMetadata {
    fn clone(&self) -> (r: Self)
        ensures
            r == *self,
    {
        FundMetadata { name: clone_text(&self.name), image_url: clone_text(&self.image_url) }
    }
}

impl Clone for InvestmentFund {
    fn clone(&self) -> (r: Self)
        ensures
            r == *self,
    {
        InvestmentFund {
            investment_fund_id: self.investment_fund_id,
            metadata: self.metadata.clone(),
            total_share: self.total_share,
            total_fund: self.total_fund,
            trader: self.trader,
        }
    }
}

} // verus!
