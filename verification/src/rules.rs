//! What each operation decides and what it leaves behind, as functions of the
//! ledger before the call, the call's environment and its arguments.

use crate::model::{
    has_ticket, holds_majority, move_shares, payload_total, record_proposal, record_ticket,
    share_of, supply_of, MarketState,
};
use crate::types::{
    AccountId, Balance, Error, Event, EventId, EventMarket, EventMetadata, FundMetadata,
    FundTrade, InvestmentFund, InvestmentFundId, MarketOutCome, MyEnvironment, OutCome,
    OutComeId, OutComePayload, Share, ShareEntry, Supply, Ticket, Timestamp, TradeId,
    DEFAULT_DURATION, MIN_EVENT_DEPOSIT, MIN_FUND_DEPOSIT, MIN_FUND_SHARE,
};
use vstd::prelude::*;

verus! {

// ---------------------------------------------------------------------------
// Events
// ---------------------------------------------------------------------------

/// The outcomes that a new event brings, numbered from `first`.
pub open spec fn outcomes_of(event_id: EventId, first: OutComeId, bets: Seq<OutComePayload>) -> Seq<
    OutCome,
> {
    Seq::new(
        bets.len(),
        |k: int|
            OutCome {
                event_id,
                outcome_id: (first + k) as OutComeId,
                description: bets[k].description,
                deposit_per_supply: bets[k].deposit_per_supply,
                total_supply: bets[k].total_supply,
            },
    )
}

/// The market side of those outcomes: every unit is still available.
pub open spec fn market_outcomes_of(
    event_id: EventId,
    first: OutComeId,
    bets: Seq<OutComePayload>,
) -> Seq<MarketOutCome> {
    Seq::new(
        bets.len(),
        |k: int|
            MarketOutCome {
                event_id,
                outcome_id: (first + k) as OutComeId,
                available_supply: bets[k].total_supply,
            },
    )
}

/// The identifiers `first`, `first + 1`, ... of `n` new outcomes.
pub open spec fn outcome_ids(first: OutComeId, n: nat) -> Seq<OutComeId> {
    Seq::new(n, |k: int| (first + k) as OutComeId)
}

/// The rows of `n` outcomes in which no fund holds a ticket yet.
pub open spec fn empty_rows(n: nat) -> Seq<Seq<Ticket>> {
    Seq::new(n, |k: int| Seq::<Ticket>::empty())
}

/// Why `create_event` refuses, if it does.
pub open spec fn create_event_error(
    s: MarketState,
    env: MyEnvironment,
    bets: Seq<OutComePayload>,
) -> Option<Error> {
    if env.transferred_value < MIN_EVENT_DEPOSIT {
        Some(Error::DepositTooLow)
    } else if bets.len() < 2 {
        Some(Error::AtLeastTwoOutcome)
    } else if s.next_event_id == u64::MAX || s.next_outcome_id + bets.len() > u64::MAX
        || payload_total(bets, bets.len() as int) > u64::MAX {
        Some(Error::SomethingWrong)
    } else {
        None
    }
}

/// The ledger after `create_event` has succeeded.
pub open spec fn create_event_state(
    s: MarketState,
    env: MyEnvironment,
    question: String,
    resolve_date: Timestamp,
    bets: Seq<OutComePayload>,
    metadata: EventMetadata,
) -> MarketState {
    let event_id = s.next_event_id;
    let first = s.next_outcome_id;
    MarketState {
        events: s.events.push(Event { event_id, owner: env.caller, question, metadata }),
        event_markets: s.event_markets.push(
            EventMarket {
                event_id,
                pool: env.transferred_value,
                is_resolved: false,
                resolve_date,
                winning_outcome: None,
            },
        ),
        outcomes: s.outcomes + outcomes_of(event_id, first, bets),
        market_outcomes: s.market_outcomes + market_outcomes_of(event_id, first, bets),
        event_to_outcomes: s.event_to_outcomes.push(outcome_ids(first, bets.len())),
        outcome_to_funds: s.outcome_to_funds + empty_rows(bets.len()),
        next_event_id: (event_id + 1) as EventId,
        next_outcome_id: (first + bets.len()) as OutComeId,
        ..s
    }
}

/// What one unit of the winning outcome earns: the pool divided by the units
/// bought, rounded down.
pub open spec fn prize_per_supply(s: MarketState, event_id: EventId, winner: OutComeId) -> int {
    s.event_markets[event_id as int].pool as int / s.used_supply(winner)
}

/// The prizes that the tickets of a row earn together.
pub open spec fn prize_total(row: Seq<Ticket>, per_supply: int) -> int
    decreases row.len(),
{
    if row.len() == 0 {
        0
    } else {
        prize_total(row.drop_last(), per_supply) + row.last().supply * per_supply
    }
}

/// Whether every fund's balance can take the prize it is owed.
pub open spec fn settlement_fits(funds: Seq<InvestmentFund>, row: Seq<Ticket>, per_supply: int) -> bool {
    forall|f: int|
        0 <= f < funds.len() ==> (#[trigger] funds[f]).total_fund + supply_of(
            row,
            f as InvestmentFundId,
        ) * per_supply <= u128::MAX
}

/// The funds after each has been paid for the units it holds in a row.
pub open spec fn settled_funds(funds: Seq<InvestmentFund>, row: Seq<Ticket>, per_supply: int) -> Seq<
    InvestmentFund,
> {
    Seq::new(
        funds.len(),
        |f: int|
            InvestmentFund {
                total_fund: (funds[f].total_fund + supply_of(row, f as InvestmentFundId)
                    * per_supply) as Balance,
                ..funds[f]
            },
    )
}

/// Why `resolve_event` refuses, if it does.
pub open spec fn resolve_event_error(
    s: MarketState,
    env: MyEnvironment,
    event_id: EventId,
    winner: OutComeId,
) -> Option<Error> {
    if event_id >= s.next_event_id {
        Some(Error::EventNotFound)
    } else if winner >= s.next_outcome_id {
        Some(Error::WrongEventOutCome)
    } else if env.caller != s.events[event_id as int].owner {
        Some(Error::NotOwner)
    } else if env.block_timestamp < s.event_markets[event_id as int].resolve_date
        || s.event_markets[event_id as int].is_resolved {
        Some(Error::ResolveDateNotMatch)
    } else if s.outcomes[winner as int].event_id != event_id {
        Some(Error::WrongEventOutCome)
    } else if s.used_supply(winner) == 0 {
        Some(Error::NoBodyBetted)
    } else if !settlement_fits(
        s.investment_funds,
        s.outcome_to_funds[winner as int],
        prize_per_supply(s, event_id, winner),
    ) {
        Some(Error::SomethingWrong)
    } else {
        None
    }
}

/// The ledger after `resolve_event` has succeeded: every fund is paid for
/// the units it holds of the winner, the pool keeps what was not paid out,
/// and the market is resolved.
pub open spec fn resolve_event_state(s: MarketState, event_id: EventId, winner: OutComeId) -> MarketState {
    let market = s.event_markets[event_id as int];
    let row = s.outcome_to_funds[winner as int];
    let per_supply = prize_per_supply(s, event_id, winner);
    MarketState {
        investment_funds: settled_funds(s.investment_funds, row, per_supply),
        event_markets: s.event_markets.update(
            event_id as int,
            EventMarket {
                pool: (market.pool - prize_total(row, per_supply)) as Balance,
                is_resolved: true,
                winning_outcome: Some(winner),
                ..market
            },
        ),
        ..s
    }
}

// ---------------------------------------------------------------------------
// Funds
// ---------------------------------------------------------------------------

/// Why `create_fund` refuses, if it does.
pub open spec fn create_fund_error(s: MarketState, env: MyEnvironment, total_share: Share) -> Option<
    Error,
> {
    if total_share < 100 {
        Some(Error::AtLeast100Share)
    } else if total_share % MIN_FUND_SHARE != 0 {
        Some(Error::NotDivisibleBy100)
    } else if env.transferred_value < MIN_FUND_DEPOSIT {
        Some(Error::DepositTooLow)
    } else if s.next_fund_id == u64::MAX {
        Some(Error::SomethingWrong)
    } else {
        None
    }
}

/// The ledger after `create_fund` has succeeded: the caller trades the new
/// fund and holds all its shares.
pub open spec fn create_fund_state(
    s: MarketState,
    env: MyEnvironment,
    total_share: Share,
    metadata: FundMetadata,
) -> MarketState {
    MarketState {
        investment_funds: s.investment_funds.push(
            InvestmentFund {
                investment_fund_id: s.next_fund_id,
                metadata,
                total_share,
                total_fund: env.transferred_value,
                trader: env.caller,
            },
        ),
        fund_to_outcomes: s.fund_to_outcomes.push(Seq::empty()),
        fund_owner_to_shares: s.fund_owner_to_shares.push(
            seq![ShareEntry { owner: env.caller, share: total_share }],
        ),
        fund_to_trades: s.fund_to_trades.push(Seq::empty()),
        next_fund_id: (s.next_fund_id + 1) as InvestmentFundId,
        ..s
    }
}

/// Whether moving `amount` shares of a fund from `from` to `to` would leave
/// the fund without anybody in control: the giver trades the fund, the
/// amount alone is no controlling stake, and after the move neither of the
/// two holds one.
pub open spec fn control_lost(
    s: MarketState,
    fund_id: InvestmentFundId,
    from: AccountId,
    to: AccountId,
    amount: Share,
) -> bool {
    let fund = s.investment_funds[fund_id as int];
    let after = move_shares(s.fund_owner_to_shares[fund_id as int], from, to, amount);
    &&& from == fund.trader
    &&& !holds_majority(amount as int, fund.total_share as int)
    &&& !holds_majority(share_of(after, from) as int, fund.total_share as int)
    &&& !holds_majority(share_of(after, to) as int, fund.total_share as int)
}

/// Who trades a fund after `amount` of its shares went from `from` to `to`:
/// the receiver, where the giver traded the fund and the amount alone is a
/// controlling stake; else whoever traded it before.
pub open spec fn trader_after(
    s: MarketState,
    fund_id: InvestmentFundId,
    from: AccountId,
    to: AccountId,
    amount: Share,
) -> AccountId {
    let fund = s.investment_funds[fund_id as int];
    if from == fund.trader && holds_majority(amount as int, fund.total_share as int) {
        to
    } else {
        fund.trader
    }
}

/// The ledger after `amount` shares of a fund went from `from` to `to`.
pub open spec fn shares_moved(
    s: MarketState,
    fund_id: InvestmentFundId,
    from: AccountId,
    to: AccountId,
    amount: Share,
) -> MarketState {
    MarketState {
        investment_funds: s.investment_funds.update(
            fund_id as int,
            InvestmentFund {
                trader: trader_after(s, fund_id, from, to, amount),
                ..s.investment_funds[fund_id as int]
            },
        ),
        fund_owner_to_shares: s.fund_owner_to_shares.update(
            fund_id as int,
            move_shares(s.fund_owner_to_shares[fund_id as int], from, to, amount),
        ),
        ..s
    }
}

/// Why `transfer_share` refuses, if it does.
pub open spec fn transfer_share_error(
    s: MarketState,
    env: MyEnvironment,
    fund_id: InvestmentFundId,
    recipient: AccountId,
    amount: Share,
) -> Option<Error> {
    if fund_id >= s.next_fund_id {
        Some(Error::FundNotFound)
    } else if amount > share_of(s.fund_owner_to_shares[fund_id as int], env.caller) {
        Some(Error::NotEnoughShare)
    } else if control_lost(s, fund_id, env.caller, recipient, amount) {
        Some(Error::TraderNotIdentitied)
    } else {
        None
    }
}

/// What `units` of an outcome cost.
pub open spec fn bet_cost(s: MarketState, outcome_id: OutComeId, units: Supply) -> int {
    units * s.outcomes[outcome_id as int].deposit_per_supply
}

/// Why `bet` refuses, if it does.
pub open spec fn bet_error(
    s: MarketState,
    env: MyEnvironment,
    outcome_id: OutComeId,
    fund_id: InvestmentFundId,
    units: Supply,
) -> Option<Error> {
    if fund_id >= s.next_fund_id {
        Some(Error::FundNotFound)
    } else if s.investment_funds[fund_id as int].trader != env.caller {
        Some(Error::NotOwner)
    } else if outcome_id >= s.next_outcome_id {
        Some(Error::WrongEventOutCome)
    } else {
        let market = s.event_markets[s.outcomes[outcome_id as int].event_id as int];
        if market.is_resolved || env.block_timestamp >= market.resolve_date {
            Some(Error::ResolveDateNotMatch)
        } else if units > s.market_outcomes[outcome_id as int].available_supply {
            Some(Error::OutOfSupply)
        } else if units == 0 {
            Some(Error::MoreThanOneSupply)
        } else if env.transferred_value < bet_cost(s, outcome_id, units) {
            Some(Error::DepositTooLow)
        } else if s.investment_funds[fund_id as int].total_fund < bet_cost(s, outcome_id, units) {
            Some(Error::NotEnoughBalance)
        } else if market.pool + bet_cost(s, outcome_id, units) > u128::MAX {
            Some(Error::SomethingWrong)
        } else {
            None
        }
    }
}

/// The ledger after `bet` has succeeded: the units leave the outcome's
/// available supply, their cost goes from the fund to the event's pool, and
/// the fund's ticket on the outcome grows by the units.
pub open spec fn bet_state(
    s: MarketState,
    outcome_id: OutComeId,
    fund_id: InvestmentFundId,
    units: Supply,
) -> MarketState {
    let event_id = s.outcomes[outcome_id as int].event_id;
    let market = s.event_markets[event_id as int];
    let fund = s.investment_funds[fund_id as int];
    let offer = s.market_outcomes[outcome_id as int];
    let row = s.outcome_to_funds[outcome_id as int];
    let cost = bet_cost(s, outcome_id, units);
    MarketState {
        market_outcomes: s.market_outcomes.update(
            outcome_id as int,
            MarketOutCome { available_supply: (offer.available_supply - units) as Supply, ..offer },
        ),
        investment_funds: s.investment_funds.update(
            fund_id as int,
            InvestmentFund { total_fund: (fund.total_fund - cost) as Balance, ..fund },
        ),
        event_markets: s.event_markets.update(
            event_id as int,
            EventMarket { pool: (market.pool + cost) as Balance, ..market },
        ),
        outcome_to_funds: s.outcome_to_funds.update(
            outcome_id as int,
            record_ticket(row, fund_id, units),
        ),
        fund_to_outcomes: if has_ticket(row, fund_id) {
            s.fund_to_outcomes
        } else {
            s.fund_to_outcomes.update(
                fund_id as int,
                s.fund_to_outcomes[fund_id as int].push(outcome_id),
            )
        },
        ..s
    }
}

/// How long a proposal stays open.
pub open spec fn proposal_duration(duration: Option<Timestamp>) -> Timestamp {
    match duration {
        Some(d) => d,
        None => DEFAULT_DURATION,
    }
}

/// Why `create_proposal` refuses, if it does.
pub open spec fn create_proposal_error(
    s: MarketState,
    env: MyEnvironment,
    fund_id: InvestmentFundId,
    amount: Share,
    duration: Option<Timestamp>,
) -> Option<Error> {
    if fund_id >= s.next_fund_id {
        Some(Error::FundNotFound)
    } else if share_of(s.fund_owner_to_shares[fund_id as int], env.caller) < amount {
        Some(Error::NotEnoughShare)
    } else if env.block_timestamp + proposal_duration(duration) > u64::MAX || s.next_trade_id
        == u64::MAX {
        Some(Error::SomethingWrong)
    } else {
        None
    }
}

/// The ledger after `create_proposal` has succeeded.
pub open spec fn create_proposal_state(
    s: MarketState,
    env: MyEnvironment,
    fund_id: InvestmentFundId,
    amount: Share,
    price: Balance,
    duration: Option<Timestamp>,
    proposed_person: Option<AccountId>,
) -> MarketState {
    let trade_id = s.next_trade_id;
    MarketState {
        fund_trades: s.fund_trades.push(
            FundTrade {
                investment_fund_id: fund_id,
                trade_id,
                proponent: env.caller,
                proposed_person,
                share: amount,
                price,
                close_time: (env.block_timestamp + proposal_duration(duration)) as Timestamp,
                is_completed: false,
            },
        ),
        fund_to_trades: s.fund_to_trades.update(
            fund_id as int,
            s.fund_to_trades[fund_id as int].push(trade_id),
        ),
        proponent_to_trades: record_proposal(s.proponent_to_trades, env.caller, trade_id),
        next_trade_id: (trade_id + 1) as TradeId,
        ..s
    }
}

/// Why `accept_proposal` refuses, if it does.
pub open spec fn accept_proposal_error(s: MarketState, env: MyEnvironment, trade_id: TradeId) -> Option<
    Error,
> {
    if trade_id >= s.next_trade_id {
        Some(Error::TradeNotFound)
    } else {
        let trade = s.fund_trades[trade_id as int];
        if trade.is_completed {
            Some(Error::TradeNotAvailable)
        } else if env.block_timestamp > trade.close_time {
            Some(Error::TimeExpired)
        } else if trade.proposed_person.is_some() && trade.proposed_person != Some(env.caller) {
            Some(Error::NotOwner)
        } else if env.transferred_value < trade.price {
            Some(Error::DepositTooLow)
        } else if share_of(s.fund_owner_to_shares[trade.investment_fund_id as int], trade.proponent)
            < trade.share {
            Some(Error::NotEnoughShare)
        } else if control_lost(
            s,
            trade.investment_fund_id,
            trade.proponent,
            env.caller,
            trade.share,
        ) {
            Some(Error::TraderNotIdentitied)
        } else {
            None
        }
    }
}

/// The ledger after `accept_proposal` has succeeded: the proposal is
/// completed and its shares went from the proponent to the caller. No fund's
/// balance changes.
pub open spec fn accept_proposal_state(s: MarketState, env: MyEnvironment, trade_id: TradeId) -> MarketState {
    let trade = s.fund_trades[trade_id as int];
    let moved = shares_moved(s, trade.investment_fund_id, trade.proponent, env.caller, trade.share);
    MarketState {
        fund_trades: s.fund_trades.update(
            trade_id as int,
            FundTrade { is_completed: true, ..trade },
        ),
        ..moved
    }
}

// ---------------------------------------------------------------------------
// Sequences of calls
// ---------------------------------------------------------------------------

/// A call of one of the operations that change the ledger, with its
/// arguments.
pub enum Call {
    CreateEvent {
        question: String,
        resolve_date: Timestamp,
        bets: Seq<OutComePayload>,
        metadata: EventMetadata,
    },
    ResolveEvent { event_id: EventId, winner: OutComeId },
    CreateFund { total_share: Share, metadata: FundMetadata },
    TransferShare { fund_id: InvestmentFundId, recipient: AccountId, amount: Share },
    Bet { outcome_id: OutComeId, fund_id: InvestmentFundId, supplies: Supply },
    CreateProposal {
        fund_id: InvestmentFundId,
        amount: Share,
        price: Balance,
        duration: Option<Timestamp>,
        proposed_person: Option<AccountId>,
    },
    AcceptProposal { trade_id: TradeId },
}

/// Why a call is refused, if it is.
pub open spec fn refusal(s: MarketState, env: MyEnvironment, call: Call) -> Option<Error> {
    match call {
        Call::CreateEvent { question, resolve_date, bets, metadata } => create_event_error(
            s,
            env,
            bets,
        ),
        Call::ResolveEvent { event_id, winner } => resolve_event_error(s, env, event_id, winner),
        Call::CreateFund { total_share, metadata } => create_fund_error(s, env, total_share),
        Call::TransferShare { fund_id, recipient, amount } => transfer_share_error(
            s,
            env,
            fund_id,
            recipient,
            amount,
        ),
        Call::Bet { outcome_id, fund_id, supplies } => bet_error(
            s,
            env,
            outcome_id,
            fund_id,
            supplies,
        ),
        Call::CreateProposal {
            fund_id,
            amount,
            price,
            duration,
            proposed_person,
        } => create_proposal_error(s, env, fund_id, amount, duration),
        Call::AcceptProposal { trade_id } => accept_proposal_error(s, env, trade_id),
    }
}

/// The ledger after a call: as the operation leaves it where the call is
/// accepted, and unchanged where it is refused.
pub open spec fn effect(s: MarketState, env: MyEnvironment, call: Call) -> MarketState {
    if refusal(s, env, call) is Some {
        s
    } else {
        match call {
            Call::CreateEvent { question, resolve_date, bets, metadata } => create_event_state(
                s,
                env,
                question,
                resolve_date,
                bets,
                metadata,
            ),
            Call::ResolveEvent { event_id, winner } => resolve_event_state(s, event_id, winner),
            Call::CreateFund { total_share, metadata } => create_fund_state(
                s,
                env,
                total_share,
                metadata,
            ),
            Call::TransferShare { fund_id, recipient, amount } => shares_moved(
                s,
                fund_id,
                env.caller,
                recipient,
                amount,
            ),
            Call::Bet { outcome_id, fund_id, supplies } => bet_state(
                s,
                outcome_id,
                fund_id,
                supplies,
            ),
            Call::CreateProposal {
                fund_id,
                amount,
                price,
                duration,
                proposed_person,
            } => create_proposal_state(s, env, fund_id, amount, price, duration, proposed_person),
            Call::AcceptProposal { trade_id } => accept_proposal_state(s, env, trade_id),
        }
    }
}

/// The ledger after a sequence of calls on the empty ledger, each made in
/// its own environment.
pub open spec fn run(calls: Seq<(MyEnvironment, Call)>) -> MarketState
    decreases calls.len(),
{
    if calls.len() == 0 {
        MarketState::empty()
    } else {
        effect(run(calls.drop_last()), calls.last().0, calls.last().1)
    }
}

} // verus!
