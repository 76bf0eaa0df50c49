//! What holds of the ledger whatever calls are made: conservation of
//! shares, of supply and of money at settlement, the finality of a
//! resolution, and where control of a fund passes.

use crate::invariants::{
    lemma_bet_wf, lemma_create_event_wf, lemma_create_fund_wf, lemma_create_proposal_wf,
    lemma_resolve_event_wf, lemma_shares_moved_wf,
};
use crate::lemmas::lemma_move_shares;
use crate::model::{
    balance_sum, holds_majority, share_of, share_sum, supply_of, ticket_sum, MarketState,
};
use crate::rules::{
    accept_proposal_error, accept_proposal_state, bet_cost, bet_error, bet_state, effect,
    prize_per_supply, prize_total, refusal, resolve_event_error, resolve_event_state, run,
    shares_moved, transfer_share_error, Call,
};
use crate::settlement::{
    lemma_dust, lemma_held_by_all, lemma_prize_total, lemma_settled_balance_sum,
};
use crate::types::{
    AccountId, Error, EventId, FundTrade, InvestmentFundId, MyEnvironment, OutComeId, Share,
    Supply, TradeId,
};
use vstd::prelude::*;

verus! {

/// The empty ledger is well-formed.
pub proof fn law_empty_ledger_is_well_formed()
    ensures
        MarketState::empty().wf(),
{
}

/// Whatever call is made on a well-formed ledger, in whatever environment,
/// the ledger is well-formed after it; a refused call changes nothing.
pub proof fn law_every_call_keeps_the_ledger_well_formed(
    s: MarketState,
    env: MyEnvironment,
    call: Call,
)
    requires
        s.wf(),
    ensures
        effect(s, env, call).wf(),
        refusal(s, env, call) is Some ==> effect(s, env, call) == s,
{
    if refusal(s, env, call) is None {
        match call {
            Call::CreateEvent { question, resolve_date, bets, metadata } => {
                lemma_create_event_wf(s, env, question, resolve_date, bets, metadata);
            },
            Call::ResolveEvent { event_id, winner } => {
                lemma_resolve_event_wf(s, env, event_id, winner);
            },
            Call::CreateFund { total_share, metadata } => {
                lemma_create_fund_wf(s, env, total_share, metadata);
            },
            Call::TransferShare { fund_id, recipient, amount } => {
                lemma_shares_moved_wf(s, fund_id, env.caller, recipient, amount);
            },
            Call::Bet { outcome_id, fund_id, supplies } => {
                lemma_bet_wf(s, env, outcome_id, fund_id, supplies);
            },
            Call::CreateProposal { fund_id, amount, price, duration, proposed_person } => {
                lemma_create_proposal_wf(s, env, fund_id, amount, price, duration, proposed_person);
            },
            Call::AcceptProposal { trade_id } => {
                let trade = s.fund_trades[trade_id as int];
                lemma_shares_moved_wf(
                    s,
                    trade.investment_fund_id,
                    trade.proponent,
                    env.caller,
                    trade.share,
                );
                let t = accept_proposal_state(s, env, trade_id);
                assert(t.tables_aligned());
                assert(t.ids_in_place());
                assert(t.trades_valid());
            },
        }
    }
}

/// After every sequence of calls on the empty ledger the ledger is
/// well-formed. So after every such sequence the shares of all owners of a
/// fund together are the fund's shares, and of every outcome the units
/// still available and the units that funds hold make up the units that
/// exist.
pub proof fn law_conservation_after_every_sequence_of_calls(calls: Seq<(MyEnvironment, Call)>)
    ensures
        run(calls).wf(),
        forall|f: int|
            0 <= f < run(calls).investment_funds.len() ==> share_sum(
                #[trigger] run(calls).fund_owner_to_shares[f],
            ) == run(calls).investment_funds[f].total_share,
        forall|o: int|
            0 <= o < run(calls).outcomes.len()
                ==> run(calls).market_outcomes[o].available_supply + ticket_sum(
                #[trigger] run(calls).outcome_to_funds[o],
            ) == run(calls).outcomes[o].total_supply,
    decreases calls.len(),
{
    if calls.len() > 0 {
        law_conservation_after_every_sequence_of_calls(calls.drop_last());
        law_every_call_keeps_the_ledger_well_formed(
            run(calls.drop_last()),
            calls.last().0,
            calls.last().1,
        );
    }
}

/// Share conservation. In every well-formed ledger the shares of all owners
/// of a fund together are the fund's shares.
pub proof fn law_shares_conserved(s: MarketState, fund_id: InvestmentFundId)
    requires
        s.wf(),
        fund_id < s.next_fund_id,
    ensures
        share_sum(s.fund_owner_to_shares[fund_id as int])
            == s.investment_funds[fund_id as int].total_share,
{
}

/// Share conservation across `transfer_share`. A transfer that is not
/// refused leaves every fund with the shares it had, and the shares of all
/// its owners together are still the fund's shares. The sender holds
/// `amount` less and the recipient `amount` more, unless they are the same
/// principal, who then holds what it held; nobody else's holding changes.
pub proof fn law_transfer_conserves_shares(
    s: MarketState,
    env: MyEnvironment,
    fund_id: InvestmentFundId,
    recipient: AccountId,
    amount: Share,
    any_fund: InvestmentFundId,
)
    requires
        s.wf(),
        transfer_share_error(s, env, fund_id, recipient, amount) is None,
        any_fund < s.next_fund_id,
    ensures
        ({
            let t = shares_moved(s, fund_id, env.caller, recipient, amount);
            let before = s.fund_owner_to_shares[fund_id as int];
            let after = t.fund_owner_to_shares[fund_id as int];
            &&& t.wf()
            &&& t.investment_funds[any_fund as int].total_share
                == s.investment_funds[any_fund as int].total_share
            &&& share_sum(t.fund_owner_to_shares[any_fund as int])
                == t.investment_funds[any_fund as int].total_share
            &&& any_fund != fund_id ==> t.fund_owner_to_shares[any_fund as int]
                == s.fund_owner_to_shares[any_fund as int]
            &&& env.caller != recipient ==> share_of(after, env.caller) == share_of(
                before,
                env.caller,
            ) - amount
            &&& env.caller != recipient ==> share_of(after, recipient) == share_of(
                before,
                recipient,
            ) + amount
            &&& env.caller == recipient ==> share_of(after, recipient) == share_of(
                before,
                recipient,
            )
            &&& forall|other: AccountId|
                other != env.caller && other != recipient ==> share_of(after, other) == share_of(
                    before,
                    other,
                )
        }),
{
    lemma_shares_moved_wf(s, fund_id, env.caller, recipient, amount);
    lemma_move_shares(s.fund_owner_to_shares[fund_id as int], env.caller, recipient, amount);
}

/// Share conservation across `accept_proposal`. An acceptance that is not
/// refused leaves every fund with the shares and the balance it had, and
/// the shares of all its owners together are still the fund's shares.
pub proof fn law_accept_conserves_shares(
    s: MarketState,
    env: MyEnvironment,
    trade_id: TradeId,
    any_fund: InvestmentFundId,
)
    requires
        s.wf(),
        accept_proposal_error(s, env, trade_id) is None,
        any_fund < s.next_fund_id,
    ensures
        ({
            let t = accept_proposal_state(s, env, trade_id);
            &&& t.investment_funds[any_fund as int].total_share
                == s.investment_funds[any_fund as int].total_share
            &&& t.investment_funds[any_fund as int].total_fund
                == s.investment_funds[any_fund as int].total_fund
            &&& share_sum(t.fund_owner_to_shares[any_fund as int])
                == t.investment_funds[any_fund as int].total_share
        }),
{
    let trade = s.fund_trades[trade_id as int];
    lemma_shares_moved_wf(s, trade.investment_fund_id, trade.proponent, env.caller, trade.share);
    lemma_move_shares(
        s.fund_owner_to_shares[trade.investment_fund_id as int],
        trade.proponent,
        env.caller,
        trade.share,
    );
}

/// Supply conservation. In every well-formed ledger the units of an outcome
/// that are still available and the units that funds hold of it make up the
/// units that exist, and no fund holds more than were bought.
pub proof fn law_supply_conserved(s: MarketState, outcome_id: OutComeId, fund_id: InvestmentFundId)
    requires
        s.wf(),
        outcome_id < s.next_outcome_id,
    ensures
        s.market_outcomes[outcome_id as int].available_supply + ticket_sum(
            s.outcome_to_funds[outcome_id as int],
        ) == s.outcomes[outcome_id as int].total_supply,
        supply_of(s.outcome_to_funds[outcome_id as int], fund_id) <= s.used_supply(outcome_id),
{
    crate::lemmas::lemma_supply_of_le_sum(s.outcome_to_funds[outcome_id as int], fund_id);
}

/// Supply conservation across `bet`. A bet that is not refused moves the
/// units from the outcome's available supply to the fund's holding, adding
/// them to what the fund held of the outcome before; the units that exist
/// do not change, and the cost goes from the fund's balance to the event's
/// pool.
pub proof fn law_bet_conserves_supply(
    s: MarketState,
    env: MyEnvironment,
    outcome_id: OutComeId,
    fund_id: InvestmentFundId,
    units: Supply,
)
    requires
        s.wf(),
        bet_error(s, env, outcome_id, fund_id, units) is None,
    ensures
        ({
            let t = bet_state(s, outcome_id, fund_id, units);
            let o = outcome_id as int;
            let e = s.outcomes[o].event_id as int;
            &&& t.wf()
            &&& t.outcomes == s.outcomes
            &&& t.market_outcomes[o].available_supply == s.market_outcomes[o].available_supply
                - units
            &&& ticket_sum(t.outcome_to_funds[o]) == ticket_sum(s.outcome_to_funds[o]) + units
            &&& supply_of(t.outcome_to_funds[o], fund_id) == supply_of(
                s.outcome_to_funds[o],
                fund_id,
            ) + units
            &&& t.market_outcomes[o].available_supply + ticket_sum(t.outcome_to_funds[o])
                == t.outcomes[o].total_supply
            &&& t.investment_funds[fund_id as int].total_fund + t.event_markets[e].pool
                == s.investment_funds[fund_id as int].total_fund + s.event_markets[e].pool
            &&& t.event_markets[e].pool == s.event_markets[e].pool + bet_cost(
                s,
                outcome_id,
                units,
            )
        }),
{
    lemma_bet_wf(s, env, outcome_id, fund_id, units);
    let row = s.outcome_to_funds[outcome_id as int];
    assert(s.market_outcomes[outcome_id as int].available_supply + ticket_sum(row)
        == s.outcomes[outcome_id as int].total_supply);
    crate::lemmas::lemma_record_ticket(row, fund_id, units);
    assert(units * s.outcomes[outcome_id as int].deposit_per_supply >= 0) by (nonlinear_arith)
        requires
            units >= 0,
            s.outcomes[outcome_id as int].deposit_per_supply >= 0,
    ;
}

/// Pool conservation at settlement. A resolution that is not refused takes
/// out of the pool exactly the prizes it pays: the pool before is the pool
/// after and the prizes of all tickets on the winner together. The prizes
/// are the units bought times the prize of one unit, the pool never goes
/// below zero, and what stays in it is the remainder of the division of the
/// pool by the units bought. Every fund's balance grows by the prize of the
/// units it holds of the winner, which is nothing for a fund that holds
/// none; so each ticket's prize goes to the ticket's fund, and each fund is
/// paid for one ticket at most.
pub proof fn law_settlement_conserves_pool(
    s: MarketState,
    env: MyEnvironment,
    event_id: EventId,
    winner: OutComeId,
    fund_id: InvestmentFundId,
)
    requires
        s.wf(),
        resolve_event_error(s, env, event_id, winner) is None,
        fund_id < s.next_fund_id,
    ensures
        ({
            let t = resolve_event_state(s, event_id, winner);
            let row = s.outcome_to_funds[winner as int];
            let per_supply = prize_per_supply(s, event_id, winner);
            let pool_before = s.event_markets[event_id as int].pool;
            let pool_after = t.event_markets[event_id as int].pool;
            &&& t.wf()
            &&& pool_before == pool_after + prize_total(row, per_supply)
            &&& prize_total(row, per_supply) == s.used_supply(winner) * per_supply
            &&& pool_after >= 0
            &&& pool_after == pool_before % (s.used_supply(winner) as u128)
            &&& t.investment_funds[fund_id as int].total_fund
                == s.investment_funds[fund_id as int].total_fund + supply_of(row, fund_id)
                * per_supply
            &&& supply_of(row, fund_id) == 0 ==> t.investment_funds[fund_id as int]
                == s.investment_funds[fund_id as int]
            &&& forall|k: int|
                0 <= k < row.len() ==> t.investment_funds[(#[trigger] row[k]).fund_id as int].total_fund
                    == s.investment_funds[row[k].fund_id as int].total_fund + row[k].supply
                    * per_supply
        }),
{
    let row = s.outcome_to_funds[winner as int];
    let per_supply = prize_per_supply(s, event_id, winner);
    let t = resolve_event_state(s, event_id, winner);
    lemma_resolve_event_wf(s, env, event_id, winner);
    assert forall|k: int| 0 <= k < row.len() implies t.investment_funds[(
    #[trigger] row[k]).fund_id as int].total_fund == s.investment_funds[row[k].fund_id as int].total_fund
        + row[k].supply * per_supply by {
        crate::lemmas::lemma_supply_of_at(row, k);
        let g = row[k].fund_id as int;
        assert(s.outcome_to_funds[winner as int][k].fund_id < s.investment_funds.len());
        assert(s.investment_funds[g].total_fund + supply_of(row, g as InvestmentFundId)
            * per_supply <= u128::MAX);
        assert(row[k].supply * per_supply >= 0) by (nonlinear_arith)
            requires
                row[k].supply >= 0,
                per_supply >= 0,
        ;
    }
    assert(s.market_outcomes[winner as int].available_supply + ticket_sum(row)
        == s.outcomes[winner as int].total_supply);
    lemma_prize_total(row, per_supply);
    lemma_dust(s.event_markets[event_id as int].pool as int, s.used_supply(winner));
    assert(s.investment_funds[fund_id as int].total_fund + supply_of(row, fund_id) * per_supply
        <= u128::MAX);
    assert(supply_of(row, fund_id) * per_supply >= 0) by (nonlinear_arith)
        requires
            supply_of(row, fund_id) >= 0,
            per_supply >= 0,
    ;
}

/// Settlement makes no money and loses none: the balances of all funds and
/// the event's pool together are after a resolution what they were before
/// it.
pub proof fn law_settlement_conserves_money(
    s: MarketState,
    env: MyEnvironment,
    event_id: EventId,
    winner: OutComeId,
)
    requires
        s.wf(),
        resolve_event_error(s, env, event_id, winner) is None,
    ensures
        ({
            let t = resolve_event_state(s, event_id, winner);
            balance_sum(t.investment_funds) + t.event_markets[event_id as int].pool == balance_sum(
                s.investment_funds,
            ) + s.event_markets[event_id as int].pool
        }),
{
    let row = s.outcome_to_funds[winner as int];
    let per_supply = prize_per_supply(s, event_id, winner);
    assert(s.market_outcomes[winner as int].available_supply + ticket_sum(row)
        == s.outcomes[winner as int].total_supply);
    lemma_dust(s.event_markets[event_id as int].pool as int, s.used_supply(winner));
    lemma_prize_total(row, per_supply);
    assert forall|k: int| 0 <= k < row.len() implies (#[trigger] row[k]).fund_id
        < s.investment_funds.len() by {
        assert(s.outcome_to_funds[winner as int][k].fund_id < s.investment_funds.len());
    }
    lemma_held_by_all(row, s.investment_funds.len() as int);
    lemma_settled_balance_sum(s.investment_funds, row, per_supply);
}

/// No betting after resolution. No bet on an outcome of a resolved event
/// succeeds, whoever makes it and whatever it offers; made by the trader of
/// a fund that exists, it fails with `ResolveDateNotMatch`.
pub proof fn law_no_bet_after_resolution(
    s: MarketState,
    env: MyEnvironment,
    outcome_id: OutComeId,
    fund_id: InvestmentFundId,
    units: Supply,
)
    requires
        s.wf(),
        outcome_id < s.next_outcome_id,
        s.event_markets[s.outcomes[outcome_id as int].event_id as int].is_resolved,
    ensures
        bet_error(s, env, outcome_id, fund_id, units) is Some,
        fund_id < s.next_fund_id && s.investment_funds[fund_id as int].trader == env.caller
            ==> bet_error(s, env, outcome_id, fund_id, units) == Some(
            Error::ResolveDateNotMatch,
        ),
{
}

/// Idempotent resolution. Once an event is resolved, no further resolution
/// of it succeeds, whoever asks for it, whenever, and for whichever winner;
/// asked for by the event's owner in favour of an outcome that exists, it
/// fails with `ResolveDateNotMatch`.
pub proof fn law_resolution_is_final(
    s: MarketState,
    env: MyEnvironment,
    event_id: EventId,
    winner: OutComeId,
    again: MyEnvironment,
    other_winner: OutComeId,
)
    requires
        s.wf(),
        resolve_event_error(s, env, event_id, winner) is None,
    ensures
        ({
            let t = resolve_event_state(s, event_id, winner);
            &&& t.event_markets[event_id as int].is_resolved
            &&& t.event_markets[event_id as int].winning_outcome == Some(winner)
            &&& resolve_event_error(t, again, event_id, other_winner) is Some
            &&& again.caller == s.events[event_id as int].owner && other_winner
                < s.next_outcome_id ==> resolve_event_error(t, again, event_id, other_winner)
                == Some(Error::ResolveDateNotMatch)
        }),
{
}

/// Finality of an acceptance. Once a proposal is accepted, no further
/// acceptance of it succeeds: whoever asks for it, whenever and with
/// whatever value, it fails with `TradeNotAvailable`.
pub proof fn law_acceptance_is_final(
    s: MarketState,
    env: MyEnvironment,
    trade_id: TradeId,
    again: MyEnvironment,
)
    requires
        s.wf(),
        accept_proposal_error(s, env, trade_id) is None,
    ensures
        accept_proposal_state(s, env, trade_id).fund_trades[trade_id as int].is_completed,
        accept_proposal_error(accept_proposal_state(s, env, trade_id), again, trade_id) == Some(
            Error::TradeNotAvailable,
        ),
{
}

/// No acceptance after the close time. An open proposal is not accepted
/// after its close time: whoever asks for it and with whatever value, it
/// fails with `TimeExpired`, and the proposal stays open.
pub proof fn law_no_acceptance_after_close_time(
    s: MarketState,
    env: MyEnvironment,
    trade_id: TradeId,
)
    requires
        s.wf(),
        trade_id < s.next_trade_id,
        !s.fund_trades[trade_id as int].is_completed,
        env.block_timestamp > s.fund_trades[trade_id as int].close_time,
    ensures
        refusal(s, env, Call::AcceptProposal { trade_id }) == Some(Error::TimeExpired),
        !effect(s, env, Call::AcceptProposal { trade_id }).fund_trades[trade_id as int].is_completed,
{
}

/// Identifiers are never taken back: whatever call is made, every counter
/// stays where it was or moves on, and every table keeps the rows it had.
pub proof fn law_identifiers_only_grow(s: MarketState, env: MyEnvironment, call: Call)
    requires
        s.wf(),
    ensures
        ({
            let t = effect(s, env, call);
            &&& t.next_event_id >= s.next_event_id
            &&& t.next_outcome_id >= s.next_outcome_id
            &&& t.next_fund_id >= s.next_fund_id
            &&& t.next_trade_id >= s.next_trade_id
        }),
{
}

/// What is fixed at creation stays as it is, whatever call is made: an
/// event, an outcome with its price and the units that exist of it, the
/// shares into which a fund is cut, and who offered what in a proposal, at
/// what price and until when.
pub proof fn law_records_are_fixed_at_creation(
    s: MarketState,
    env: MyEnvironment,
    call: Call,
    event_id: EventId,
    outcome_id: OutComeId,
    fund_id: InvestmentFundId,
    trade_id: TradeId,
)
    requires
        s.wf(),
    ensures
        ({
            let t = effect(s, env, call);
            &&& event_id < s.next_event_id ==> t.events[event_id as int]
                == s.events[event_id as int] && t.event_markets[event_id as int].resolve_date
                == s.event_markets[event_id as int].resolve_date
                && t.event_to_outcomes[event_id as int] == s.event_to_outcomes[event_id as int]
            &&& outcome_id < s.next_outcome_id ==> t.outcomes[outcome_id as int]
                == s.outcomes[outcome_id as int]
            &&& fund_id < s.next_fund_id ==> t.investment_funds[fund_id as int].total_share
                == s.investment_funds[fund_id as int].total_share
                && t.investment_funds[fund_id as int].metadata
                == s.investment_funds[fund_id as int].metadata
            &&& trade_id < s.next_trade_id ==> t.fund_trades[trade_id as int] == (FundTrade {
                is_completed: t.fund_trades[trade_id as int].is_completed,
                ..s.fund_trades[trade_id as int]
            })
            &&& trade_id < s.next_trade_id && s.fund_trades[trade_id as int].is_completed
                ==> t.fund_trades[trade_id as int] == s.fund_trades[trade_id as int]
        }),
{
}

/// A resolved market is closed for good: whatever call is made, the market
/// of a resolved event keeps its pool and its winner, and the available
/// supply of its outcomes and the tickets on them stay as they are.
pub proof fn law_a_resolved_market_does_not_change(
    s: MarketState,
    env: MyEnvironment,
    call: Call,
    outcome_id: OutComeId,
)
    requires
        s.wf(),
        outcome_id < s.next_outcome_id,
        s.event_markets[s.outcomes[outcome_id as int].event_id as int].is_resolved,
    ensures
        ({
            let t = effect(s, env, call);
            let e = s.outcomes[outcome_id as int].event_id as int;
            &&& t.event_markets[e] == s.event_markets[e]
            &&& t.market_outcomes[outcome_id as int] == s.market_outcomes[outcome_id as int]
            &&& t.outcome_to_funds[outcome_id as int] == s.outcome_to_funds[outcome_id as int]
        }),
{
    let e = s.outcomes[outcome_id as int].event_id as int;
    assert(s.outcomes[outcome_id as int].event_id < s.events.len());
    match call {
        Call::Bet { outcome_id: other, fund_id, supplies } => {
            if refusal(s, env, call) is None {
                assert(s.outcomes[other as int].event_id != e);
                assert(other != outcome_id);
            }
        },
        _ => {},
    }
}

/// A holding never shrinks: whatever call is made, a fund holds at least
/// the units of an outcome that it held before, and the units that are
/// still available never grow.
pub proof fn law_holdings_never_shrink(
    s: MarketState,
    env: MyEnvironment,
    call: Call,
    outcome_id: OutComeId,
    fund_id: InvestmentFundId,
)
    requires
        s.wf(),
        outcome_id < s.next_outcome_id,
    ensures
        ({
            let t = effect(s, env, call);
            &&& supply_of(t.outcome_to_funds[outcome_id as int], fund_id) >= supply_of(
                s.outcome_to_funds[outcome_id as int],
                fund_id,
            )
            &&& t.market_outcomes[outcome_id as int].available_supply
                <= s.market_outcomes[outcome_id as int].available_supply
        }),
{
    match call {
        Call::Bet { outcome_id: other, fund_id: buyer, supplies } => {
            if refusal(s, env, call) is None && other == outcome_id {
                let row = s.outcome_to_funds[outcome_id as int];
                assert(s.market_outcomes[outcome_id as int].available_supply + ticket_sum(row)
                    == s.outcomes[outcome_id as int].total_supply);
                crate::lemmas::lemma_record_ticket(row, buyer, supplies);
            }
        },
        _ => {},
    }
}

/// A stake of exactly 51 in 100 is a controlling stake, and a stake of
/// exactly half is not.
pub proof fn law_majority_threshold(share: Share, total: Share)
    requires
        total > 0,
    ensures
        share * 100 == 51 * total ==> holds_majority(share as int, total as int),
        share * 2 == total ==> !holds_majority(share as int, total as int),
        holds_majority(share as int, total as int) <==> share * 100 >= 51 * total,
{
    let sh = share as int;
    let to = total as int;
    assert(sh * 100 / to >= 51 <==> sh * 100 >= 51 * to) by (nonlinear_arith)
        requires
            to > 0,
            sh >= 0,
    ;
}

/// Majority rule, at 51 percent. Where the trader of a fund transfers
/// exactly 51 percent of the fund's shares, and holds them, the transfer is
/// accepted and the recipient trades the fund from then on.
pub proof fn law_transfer_of_51_percent_passes_control(
    s: MarketState,
    env: MyEnvironment,
    fund_id: InvestmentFundId,
    recipient: AccountId,
    amount: Share,
)
    requires
        s.wf(),
        fund_id < s.next_fund_id,
        env.caller == s.investment_funds[fund_id as int].trader,
        amount * 100 == 51 * s.investment_funds[fund_id as int].total_share,
        amount <= share_of(s.fund_owner_to_shares[fund_id as int], env.caller),
    ensures
        transfer_share_error(s, env, fund_id, recipient, amount) is None,
        shares_moved(s, fund_id, env.caller, recipient, amount).investment_funds[fund_id as int].trader
            == recipient,
{
    law_majority_threshold(amount, s.investment_funds[fund_id as int].total_share);
}

/// Majority rule, at 50 percent. Where the trader of a fund transfers
/// exactly half of the fund's shares, and holds them, control does not pass:
/// the transfer is accepted, with the trader unchanged, exactly if after it
/// the sender or the recipient holds a controlling stake, and is refused
/// with `TraderNotIdentitied` if neither does.
pub proof fn law_transfer_of_50_percent_keeps_control(
    s: MarketState,
    env: MyEnvironment,
    fund_id: InvestmentFundId,
    recipient: AccountId,
    amount: Share,
)
    requires
        s.wf(),
        fund_id < s.next_fund_id,
        env.caller == s.investment_funds[fund_id as int].trader,
        amount * 2 == s.investment_funds[fund_id as int].total_share,
        amount <= share_of(s.fund_owner_to_shares[fund_id as int], env.caller),
    ensures
        ({
            let total = s.investment_funds[fund_id as int].total_share as int;
            let t = shares_moved(s, fund_id, env.caller, recipient, amount);
            let after = t.fund_owner_to_shares[fund_id as int];
            let someone_controls = holds_majority(share_of(after, env.caller) as int, total)
                || holds_majority(share_of(after, recipient) as int, total);
            &&& t.investment_funds[fund_id as int].trader == env.caller
            &&& someone_controls ==> transfer_share_error(s, env, fund_id, recipient, amount)
                is None
            &&& !someone_controls ==> transfer_share_error(s, env, fund_id, recipient, amount)
                == Some(Error::TraderNotIdentitied)
        }),
{
    law_majority_threshold(amount, s.investment_funds[fund_id as int].total_share);
}

} // verus!
