//! Each transition of the ledger leads from a well-formed ledger to a
//! well-formed ledger.

use crate::lemmas::{
    lemma_move_shares, lemma_record_ticket, lemma_supply_total_same, lemma_ticket_le_sum,
};
use crate::model::{
    distinct_funds, distinct_owners, distinct_proponents, has_proponent, has_ticket,
    payload_total, record_proposal, record_ticket, share_of, share_sum, supply_total, ticket_sum,
    MarketState,
};
use crate::rules::{
    bet_error, bet_state, create_event_error, create_event_state, create_fund_error,
    create_fund_state, create_proposal_error, create_proposal_state, outcome_ids, outcomes_of,
    resolve_event_error, resolve_event_state, shares_moved,
};
use crate::types::{
    AccountId, Balance, EventId, EventMetadata, FundMetadata, InvestmentFundId, MyEnvironment,
    OutCome, OutComeId, OutComePayload, Share, ShareEntry, Supply, Ticket, Timestamp, TradeId,
};
use vstd::prelude::*;

verus! {

/// Moving shares that the giver holds keeps the ledger well-formed.
pub proof fn lemma_shares_moved_wf(
    s: MarketState,
    fund_id: InvestmentFundId,
    from: AccountId,
    to: AccountId,
    amount: Share,
)
    requires
        s.wf(),
        fund_id < s.next_fund_id,
        amount <= share_of(s.fund_owner_to_shares[fund_id as int], from),
    ensures
        shares_moved(s, fund_id, from, to, amount).wf(),
{
    let t = shares_moved(s, fund_id, from, to, amount);
    lemma_move_shares(s.fund_owner_to_shares[fund_id as int], from, to, amount);
    assert(t.tables_aligned());
    assert(t.ids_in_place());
    assert(t.outcomes_linked());
    assert(t.supply_conserved());
    assert(t.tickets_valid());
    assert(t.fund_outcomes_valid());
    assert(t.funds_valid());
    assert(t.shares_conserved());
    assert(t.trades_valid());
    assert(t.markets_valid());
}

/// Where the tickets of a row come from after `fund` bought `units` more:
/// each is the fund's own, grown or new, or stands where it stood before.
pub proof fn lemma_record_ticket_entries(row: Seq<Ticket>, fund: InvestmentFundId, units: Supply)
    requires
        distinct_funds(row),
        ticket_sum(row) + units <= u64::MAX,
    ensures
        record_ticket(row, fund, units).len() >= row.len(),
        forall|k: int|
            0 <= k < record_ticket(row, fund, units).len() ==> {
                let t = #[trigger] record_ticket(row, fund, units)[k];
                if t.fund_id == fund {
                    t.supply >= units
                } else {
                    k < row.len() && t == row[k]
                }
            },
{
    let after = record_ticket(row, fund, units);
    assert forall|k: int| 0 <= k < after.len() implies {
        let t = #[trigger] after[k];
        if t.fund_id == fund {
            t.supply >= units
        } else {
            k < row.len() && t == row[k]
        }
    } by {
        if k < row.len() {
            lemma_ticket_le_sum(row, k);
        }
    }
}

/// A bet that is not refused keeps the ledger well-formed.
pub proof fn lemma_bet_wf(
    s: MarketState,
    env: MyEnvironment,
    outcome_id: OutComeId,
    fund_id: InvestmentFundId,
    units: Supply,
)
    requires
        s.wf(),
        bet_error(s, env, outcome_id, fund_id, units) is None,
    ensures
        bet_state(s, outcome_id, fund_id, units).wf(),
{
    let t = bet_state(s, outcome_id, fund_id, units);
    let o = outcome_id as int;
    let f = fund_id as int;
    let row = s.outcome_to_funds[o];
    let grown = record_ticket(row, fund_id, units);
    assert(s.market_outcomes[o].available_supply + ticket_sum(row) == s.outcomes[o].total_supply);
    assert(distinct_funds(row));
    lemma_record_ticket(row, fund_id, units);
    lemma_record_ticket_entries(row, fund_id, units);
    assert(t.outcome_to_funds[o] == grown);
    assert(t.tables_aligned());
    assert(t.ids_in_place());
    assert(t.outcomes_linked());
    assert(t.supply_conserved()) by {
        assert forall|p: int| 0 <= p < t.outcomes.len() implies t.market_outcomes[p].available_supply
            + ticket_sum(#[trigger] t.outcome_to_funds[p]) == t.outcomes[p].total_supply by {
            if p != o {
                assert(t.outcome_to_funds[p] == s.outcome_to_funds[p]);
            }
        }
    }
    assert(t.tickets_valid()) by {
        assert forall|p: int| 0 <= p < t.outcome_to_funds.len() implies distinct_funds(
            #[trigger] t.outcome_to_funds[p],
        ) by {
            if p != o {
                assert(t.outcome_to_funds[p] == s.outcome_to_funds[p]);
            }
        }
        assert forall|p: int, k: int|
            0 <= p < t.outcome_to_funds.len() && 0 <= k < t.outcome_to_funds[p].len() implies {
            &&& (#[trigger] t.outcome_to_funds[p][k]).fund_id < t.investment_funds.len()
            &&& t.outcome_to_funds[p][k].supply > 0
        } by {
            if p != o {
                assert(t.outcome_to_funds[p] == s.outcome_to_funds[p]);
                assert(s.outcome_to_funds[p][k].supply > 0);
            } else {
                let ticket = grown[k];
                if ticket.fund_id != fund_id {
                    assert(s.outcome_to_funds[o][k].supply > 0);
                }
            }
        }
    }
    assert(t.fund_outcomes_valid()) by {
        assert forall|g: int, k: int|
            0 <= g < t.fund_to_outcomes.len() && 0 <= k < t.fund_to_outcomes[g].len() implies {
            &&& (#[trigger] t.fund_to_outcomes[g][k]) < t.outcome_to_funds.len()
            &&& has_ticket(
                t.outcome_to_funds[t.fund_to_outcomes[g][k] as int],
                g as InvestmentFundId,
            )
        } by {
            if k < s.fund_to_outcomes[g].len() {
                let p = s.fund_to_outcomes[g][k];
                assert(t.fund_to_outcomes[g][k] == p);
                assert(has_ticket(s.outcome_to_funds[p as int], g as InvestmentFundId));
                if p as int != o {
                    assert(t.outcome_to_funds[p as int] == s.outcome_to_funds[p as int]);
                }
            }
        }
        assert forall|g: int| 0 <= g < t.fund_to_outcomes.len() implies (
        #[trigger] t.fund_to_outcomes[g]).no_duplicates() by {
            assert(s.fund_to_outcomes[g].no_duplicates());
            if g == f && !has_ticket(row, fund_id) {
                let before = s.fund_to_outcomes[f];
                assert forall|i: int| 0 <= i < before.len() implies before[i] != outcome_id by {
                    if before[i] == outcome_id {
                        assert(has_ticket(
                            s.outcome_to_funds[s.fund_to_outcomes[f][i] as int],
                            f as InvestmentFundId,
                        ));
                    }
                }
            }
        }
        assert forall|p: int, k: int|
            0 <= p < t.outcome_to_funds.len() && 0 <= k < t.outcome_to_funds[p].len() implies t.fund_to_outcomes[(
        #[trigger] t.outcome_to_funds[p][k]).fund_id as int].contains(p as OutComeId) by {
            let ticket = t.outcome_to_funds[p][k];
            let g = ticket.fund_id as int;
            if p != o {
                assert(t.outcome_to_funds[p] == s.outcome_to_funds[p]);
                assert(s.fund_to_outcomes[s.outcome_to_funds[p][k].fund_id as int].contains(
                    p as OutComeId,
                ));
                let i = choose|i: int|
                    0 <= i < s.fund_to_outcomes[g].len() && s.fund_to_outcomes[g][i]
                        == p as OutComeId;
                assert(t.fund_to_outcomes[g][i] == p as OutComeId);
            } else if ticket.fund_id != fund_id {
                assert(ticket == row[k]);
                assert(s.fund_to_outcomes[s.outcome_to_funds[o][k].fund_id as int].contains(
                    o as OutComeId,
                ));
                assert(t.fund_to_outcomes[g] == s.fund_to_outcomes[g]);
            } else if has_ticket(row, fund_id) {
                let i = choose|i: int| 0 <= i < row.len() && #[trigger] row[i].fund_id == fund_id;
                assert(s.fund_to_outcomes[s.outcome_to_funds[o][i].fund_id as int].contains(
                    o as OutComeId,
                ));
            } else {
                let last = s.fund_to_outcomes[f].len() as int;
                assert(t.fund_to_outcomes[f][last] == outcome_id);
            }
        }
    }
    assert(t.funds_valid());
    assert(t.shares_conserved());
    assert(t.trades_valid());
    assert(t.markets_valid());
}

/// A resolution that is not refused keeps the ledger well-formed.
pub proof fn lemma_resolve_event_wf(
    s: MarketState,
    env: MyEnvironment,
    event_id: EventId,
    winner: OutComeId,
)
    requires
        s.wf(),
        resolve_event_error(s, env, event_id, winner) is None,
    ensures
        resolve_event_state(s, event_id, winner).wf(),
{
    let t = resolve_event_state(s, event_id, winner);
    assert(t.tables_aligned());
    assert(t.ids_in_place());
    assert(t.outcomes_linked());
    assert(t.supply_conserved());
    assert(t.tickets_valid());
    assert(t.fund_outcomes_valid());
    assert(t.funds_valid());
    assert(t.shares_conserved());
    assert(t.trades_valid());
    assert(t.markets_valid());
}

/// The units of the outcomes that a new event brings are the units that its
/// payloads announce.
pub proof fn lemma_new_outcomes_supply(
    before: Seq<OutCome>,
    event_id: EventId,
    first: OutComeId,
    bets: Seq<OutComePayload>,
    n: int,
)
    requires
        before.len() == first,
        first + bets.len() <= u64::MAX,
        0 <= n <= bets.len(),
    ensures
        supply_total(
            before + outcomes_of(event_id, first, bets),
            outcome_ids(first, bets.len()),
            n,
        ) == payload_total(bets, n),
    decreases n,
{
    if n > 0 {
        lemma_new_outcomes_supply(before, event_id, first, bets, n - 1);
        let all = before + outcomes_of(event_id, first, bets);
        let ids = outcome_ids(first, bets.len());
        assert(ids[n - 1] == first + n - 1);
        assert(all[ids[n - 1] as int] == outcomes_of(event_id, first, bets)[n - 1]);
    }
}

/// The creation of an event that is not refused keeps the ledger
/// well-formed.
pub proof fn lemma_create_event_wf(
    s: MarketState,
    env: MyEnvironment,
    question: String,
    resolve_date: Timestamp,
    bets: Seq<OutComePayload>,
    metadata: EventMetadata,
)
    requires
        s.wf(),
        create_event_error(s, env, bets) is None,
    ensures
        create_event_state(s, env, question, resolve_date, bets, metadata).wf(),
{
    let t = create_event_state(s, env, question, resolve_date, bets, metadata);
    let event_id = s.next_event_id;
    let first = s.next_outcome_id;
    let n = bets.len() as int;
    assert(t.tables_aligned());
    assert(t.ids_in_place()) by {
        assert forall|o: int| 0 <= o < t.outcomes.len() implies (#[trigger] t.outcomes[o]).outcome_id
            == o by {
            if o >= first {
                assert(t.outcomes[o] == outcomes_of(event_id, first, bets)[o - first]);
            } else {
                assert(t.outcomes[o] == s.outcomes[o]);
            }
        }
        assert forall|o: int| 0 <= o < t.market_outcomes.len() implies (
        #[trigger] t.market_outcomes[o]).outcome_id == o by {
            if o < first {
                assert(t.market_outcomes[o] == s.market_outcomes[o]);
            }
        }
    }
    assert(t.outcomes_linked()) by {
        assert forall|o: int| 0 <= o < t.outcomes.len() implies (#[trigger] t.outcomes[o]).event_id
            < t.events.len() by {
            if o < first {
                assert(t.outcomes[o] == s.outcomes[o]);
            }
        }
        assert forall|o: int| 0 <= o < t.outcomes.len() implies (
        #[trigger] t.market_outcomes[o]).event_id == t.outcomes[o].event_id by {
            if o < first {
                assert(t.outcomes[o] == s.outcomes[o]);
                assert(t.market_outcomes[o] == s.market_outcomes[o]);
            }
        }
        assert forall|e: int| 0 <= e < t.events.len() implies (
        #[trigger] t.event_to_outcomes[e]).len() >= 2 by {
            if e < event_id {
                assert(t.event_to_outcomes[e] == s.event_to_outcomes[e]);
            }
        }
        assert forall|e: int, k: int|
            0 <= e < t.events.len() && 0 <= k < t.event_to_outcomes[e].len() implies {
            &&& (#[trigger] t.event_to_outcomes[e][k]) < t.outcomes.len()
            &&& t.outcomes[t.event_to_outcomes[e][k] as int].event_id == e
        } by {
            if e < event_id {
                assert(t.event_to_outcomes[e] == s.event_to_outcomes[e]);
                let o = s.event_to_outcomes[e][k];
                assert(t.outcomes[o as int] == s.outcomes[o as int]);
            } else {
                assert(t.event_to_outcomes[e][k] == first + k);
                assert(t.outcomes[first + k] == outcomes_of(event_id, first, bets)[k]);
            }
        }
        assert forall|e: int| 0 <= e < t.events.len() implies supply_total(
            t.outcomes,
            #[trigger] t.event_to_outcomes[e],
            t.event_to_outcomes[e].len() as int,
        ) <= u64::MAX by {
            if e < event_id {
                let ids = s.event_to_outcomes[e];
                assert(t.event_to_outcomes[e] == ids);
                assert forall|k: int| 0 <= k < ids.len() implies 0 <= #[trigger] ids[k]
                    < s.outcomes.len() && ids[k] < t.outcomes.len()
                    && s.outcomes[ids[k] as int].total_supply
                    == t.outcomes[ids[k] as int].total_supply by {
                    assert(s.event_to_outcomes[e][k] < s.outcomes.len());
                    assert(t.outcomes[ids[k] as int] == s.outcomes[ids[k] as int]);
                }
                lemma_supply_total_same(s.outcomes, t.outcomes, ids, ids.len() as int);
            } else {
                lemma_new_outcomes_supply(s.outcomes, event_id, first, bets, n);
            }
        }
    }
    assert(t.supply_conserved()) by {
        assert forall|o: int| 0 <= o < t.outcomes.len() implies t.market_outcomes[o].available_supply
            + ticket_sum(#[trigger] t.outcome_to_funds[o]) == t.outcomes[o].total_supply by {
            if o < first {
                assert(t.outcomes[o] == s.outcomes[o]);
                assert(t.market_outcomes[o] == s.market_outcomes[o]);
                assert(t.outcome_to_funds[o] == s.outcome_to_funds[o]);
            } else {
                assert(t.outcome_to_funds[o] =~= Seq::<Ticket>::empty());
            }
        }
    }
    assert(t.tickets_valid()) by {
        assert forall|o: int| 0 <= o < t.outcome_to_funds.len() implies distinct_funds(
            #[trigger] t.outcome_to_funds[o],
        ) by {
            if o < first {
                assert(t.outcome_to_funds[o] == s.outcome_to_funds[o]);
            }
        }
        assert forall|o: int, k: int|
            0 <= o < t.outcome_to_funds.len() && 0 <= k < t.outcome_to_funds[o].len() implies {
            &&& (#[trigger] t.outcome_to_funds[o][k]).fund_id < t.investment_funds.len()
            &&& t.outcome_to_funds[o][k].supply > 0
        } by {
            if o < first {
                assert(t.outcome_to_funds[o] == s.outcome_to_funds[o]);
                assert(s.outcome_to_funds[o][k].supply > 0);
            }
        }
    }
    assert(t.fund_outcomes_valid()) by {
        assert forall|g: int, k: int|
            0 <= g < t.fund_to_outcomes.len() && 0 <= k < t.fund_to_outcomes[g].len() implies {
            &&& (#[trigger] t.fund_to_outcomes[g][k]) < t.outcome_to_funds.len()
            &&& has_ticket(
                t.outcome_to_funds[t.fund_to_outcomes[g][k] as int],
                g as InvestmentFundId,
            )
        } by {
            let o = s.fund_to_outcomes[g][k];
            assert(o < s.outcome_to_funds.len());
            assert(t.outcome_to_funds[o as int] == s.outcome_to_funds[o as int]);
        }
        assert forall|o: int, k: int|
            0 <= o < t.outcome_to_funds.len() && 0 <= k < t.outcome_to_funds[o].len() implies t.fund_to_outcomes[(
        #[trigger] t.outcome_to_funds[o][k]).fund_id as int].contains(o as OutComeId) by {
            if o < first {
                assert(t.outcome_to_funds[o] == s.outcome_to_funds[o]);
                assert(s.fund_to_outcomes[s.outcome_to_funds[o][k].fund_id as int].contains(
                    o as OutComeId,
                ));
            }
        }
    }
    assert(t.funds_valid());
    assert(t.shares_conserved());
    assert(t.trades_valid());
    assert(t.markets_valid()) by {
        assert forall|e: int| 0 <= e < t.event_markets.len() implies {
            &&& (#[trigger] t.event_markets[e]).is_resolved
                == t.event_markets[e].winning_outcome.is_some()
            &&& t.event_markets[e].winning_outcome matches Some(w) ==> {
                &&& w < t.outcomes.len()
                &&& t.outcomes[w as int].event_id == e
            }
        } by {
            if e < event_id {
                assert(t.event_markets[e] == s.event_markets[e]);
                if let Some(w) = s.event_markets[e].winning_outcome {
                    assert(t.outcomes[w as int] == s.outcomes[w as int]);
                }
            }
        }
    }
}

/// The creation of a fund that is not refused keeps the ledger well-formed.
pub proof fn lemma_create_fund_wf(
    s: MarketState,
    env: MyEnvironment,
    total_share: Share,
    metadata: FundMetadata,
)
    requires
        s.wf(),
        create_fund_error(s, env, total_share) is None,
    ensures
        create_fund_state(s, env, total_share, metadata).wf(),
{
    let t = create_fund_state(s, env, total_share, metadata);
    let f = s.next_fund_id as int;
    let register = seq![ShareEntry { owner: env.caller, share: total_share }];
    assert(t.tables_aligned());
    assert(t.ids_in_place());
    assert(t.outcomes_linked());
    assert(t.supply_conserved());
    assert(t.tickets_valid());
    assert(t.fund_outcomes_valid()) by {
        assert forall|g: int, k: int|
            0 <= g < t.fund_to_outcomes.len() && 0 <= k < t.fund_to_outcomes[g].len() implies {
            &&& (#[trigger] t.fund_to_outcomes[g][k]) < t.outcome_to_funds.len()
            &&& has_ticket(
                t.outcome_to_funds[t.fund_to_outcomes[g][k] as int],
                g as InvestmentFundId,
            )
        } by {
            assert(g < f);
            assert(t.fund_to_outcomes[g] == s.fund_to_outcomes[g]);
            assert(s.fund_to_outcomes[g][k] < s.outcome_to_funds.len());
        }
        assert forall|g: int| 0 <= g < t.fund_to_outcomes.len() implies (
        #[trigger] t.fund_to_outcomes[g]).no_duplicates() by {
            if g < f {
                assert(t.fund_to_outcomes[g] == s.fund_to_outcomes[g]);
            }
        }
        assert forall|o: int, k: int|
            0 <= o < t.outcome_to_funds.len() && 0 <= k < t.outcome_to_funds[o].len() implies t.fund_to_outcomes[(
        #[trigger] t.outcome_to_funds[o][k]).fund_id as int].contains(o as OutComeId) by {
            let g = s.outcome_to_funds[o][k].fund_id as int;
            assert(g < f);
            assert(s.fund_to_outcomes[g].contains(o as OutComeId));
            assert(t.fund_to_outcomes[g] == s.fund_to_outcomes[g]);
        }
    }
    assert(t.funds_valid());
    assert(t.shares_conserved()) by {
        assert(register.drop_last() =~= Seq::<ShareEntry>::empty());
        assert(share_sum(register.drop_last()) == 0);
        assert(share_sum(register) == total_share);
        assert(distinct_owners(register));
        assert forall|g: int| 0 <= g < t.investment_funds.len() implies share_sum(
            #[trigger] t.fund_owner_to_shares[g],
        ) == t.investment_funds[g].total_share by {
            if g < f {
                assert(t.fund_owner_to_shares[g] == s.fund_owner_to_shares[g]);
            } else {
                assert(t.fund_owner_to_shares[g] == register);
            }
        }
        assert forall|g: int| 0 <= g < t.investment_funds.len() implies distinct_owners(
            #[trigger] t.fund_owner_to_shares[g],
        ) by {
            if g < f {
                assert(t.fund_owner_to_shares[g] == s.fund_owner_to_shares[g]);
            } else {
                assert(t.fund_owner_to_shares[g] == register);
            }
        }
    }
    assert(t.trades_valid()) by {
        assert forall|g: int, k: int|
            0 <= g < t.fund_to_trades.len() && 0 <= k < t.fund_to_trades[g].len() implies {
            &&& (#[trigger] t.fund_to_trades[g][k]) < t.fund_trades.len()
            &&& t.fund_trades[t.fund_to_trades[g][k] as int].investment_fund_id == g
        } by {
            assert(g < f);
            assert(t.fund_to_trades[g] == s.fund_to_trades[g]);
            assert(s.fund_to_trades[g][k] < s.fund_trades.len());
        }
    }
    assert(t.markets_valid());
}

/// Where a principal has its one entry at `i`, recording a proposal changes
/// that entry and nothing else.
pub proof fn lemma_record_proposal_at(
    index: Seq<(AccountId, Seq<TradeId>)>,
    i: int,
    trade: TradeId,
)
    requires
        distinct_proponents(index),
        0 <= i < index.len(),
    ensures
        record_proposal(index, index[i].0, trade) == index.update(
            i,
            (index[i].0, index[i].1.push(trade)),
        ),
{
    let who = index[i].0;
    assert(has_proponent(index, who));
    let target = index.update(i, (who, index[i].1.push(trade)));
    assert forall|k: int| 0 <= k < index.len() implies #[trigger] record_proposal(
        index,
        who,
        trade,
    )[k] == target[k] by {
        if k < i {
            assert(index[k].0 != index[i].0);
        } else if k > i {
            assert(index[i].0 != index[k].0);
        }
    }
    assert(record_proposal(index, who, trade) =~= target);
}

/// The creation of a proposal that is not refused keeps the ledger
/// well-formed.
pub proof fn lemma_create_proposal_wf(
    s: MarketState,
    env: MyEnvironment,
    fund_id: InvestmentFundId,
    amount: Share,
    price: Balance,
    duration: Option<Timestamp>,
    proposed_person: Option<AccountId>,
)
    requires
        s.wf(),
        create_proposal_error(s, env, fund_id, amount, duration) is None,
    ensures
        create_proposal_state(s, env, fund_id, amount, price, duration, proposed_person).wf(),
{
    let t = create_proposal_state(s, env, fund_id, amount, price, duration, proposed_person);
    let id = s.next_trade_id;
    let who = env.caller;
    let before = s.proponent_to_trades;
    let after = t.proponent_to_trades;
    assert(t.tables_aligned());
    assert(t.ids_in_place());
    assert(t.outcomes_linked());
    assert(t.supply_conserved());
    assert(t.tickets_valid());
    assert(t.fund_outcomes_valid());
    assert(t.funds_valid());
    assert(t.shares_conserved());
    assert(t.trades_valid()) by {
        assert forall|x: int| 0 <= x < t.fund_trades.len() implies (
        #[trigger] t.fund_trades[x]).investment_fund_id < t.investment_funds.len() by {
            if x < id {
                assert(t.fund_trades[x] == s.fund_trades[x]);
            }
        }
        assert forall|g: int, k: int|
            0 <= g < t.fund_to_trades.len() && 0 <= k < t.fund_to_trades[g].len() implies {
            &&& (#[trigger] t.fund_to_trades[g][k]) < t.fund_trades.len()
            &&& t.fund_trades[t.fund_to_trades[g][k] as int].investment_fund_id == g
        } by {
            if k < s.fund_to_trades[g].len() {
                let x = s.fund_to_trades[g][k];
                assert(t.fund_to_trades[g][k] == x);
                assert(x < s.fund_trades.len());
                assert(t.fund_trades[x as int] == s.fund_trades[x as int]);
            }
        }
        assert forall|i: int, j: int| 0 <= i < j < after.len() implies (#[trigger] after[i]).0 != (
        #[trigger] after[j]).0 by {
            if j < before.len() {
                assert(before[i].0 != before[j].0);
            } else {
                assert(before[i].0 != who);
            }
        }
        assert forall|p: int, k: int| 0 <= p < after.len() && 0 <= k < after[p].1.len() implies {
            &&& (#[trigger] t.proponent_to_trades[p].1[k]) < t.fund_trades.len()
            &&& t.fund_trades[t.proponent_to_trades[p].1[k] as int].proponent
                == t.proponent_to_trades[p].0
        } by {
            if p < before.len() && k < before[p].1.len() {
                let x = s.proponent_to_trades[p].1[k];
                assert(after[p].1[k] == x);
                assert(x < s.fund_trades.len());
                assert(t.fund_trades[x as int] == s.fund_trades[x as int]);
            }
        }
    }
    assert(t.markets_valid());
}

} // verus!
