//! Events: their creation with their outcomes, their resolution, and the
//! views that report them.

use crate::invariants::{lemma_create_event_wf, lemma_resolve_event_wf};
use crate::ledger::{rows, slot, Ledger, PredictionMarket};
use crate::model::{payload_total, ticket_sum, MarketState};
use crate::rules::{
    create_event_error, create_event_state, empty_rows, market_outcomes_of, outcome_ids,
    outcomes_of,
    prize_per_supply, resolve_event_error, resolve_event_state,
};
use crate::settlement::{lemma_dust, lemma_prize_total, pay_prizes, prizes_fit};
use crate::types::{
    AccountId, Balance, Error, Event, EventId, EventMarket, EventMetadata, InvestmentFund,
    MarketOutCome, MyEnvironment, OutCome, OutComeId, OutComePayload, Supply, Ticket, Timestamp,
    MIN_EVENT_DEPOSIT,
};
use vstd::prelude::*;

verus! {

/// The units that the payloads announce together, where they fit the range
/// of a supply.
pub fn announced_supply(bets: &Vec<OutComePayload>) -> (r: Option<Supply>)
    ensures
        match r {
            Some(total) => total == payload_total(bets@, bets@.len() as int),
            None => payload_total(bets@, bets@.len() as int) > u64::MAX,
        },
{
    let mut total: Supply = 0;
    let mut k: usize = 0;
    while k < bets.len()
        invariant
            k <= bets.len(),
            total == payload_total(bets@, k as int),
        decreases bets.len() - k,
    {
        match total.checked_add(bets[k].total_supply) {
            Some(sum) => {
                total = sum;
            },
            None => {
                proof {
                    lemma_payload_total_monotone(bets@, k as int + 1, bets@.len() as int);
                }
                return None;
            },
        }
        k += 1;
    }
    Some(total)
}

/// More payloads announce no fewer units.
pub proof fn lemma_payload_total_monotone(bets: Seq<OutComePayload>, m: int, n: int)
    requires
        0 <= m <= n,
    ensures
        payload_total(bets, m) <= payload_total(bets, n),
    decreases n,
{
    if m < n {
        lemma_payload_total_monotone(bets, m, n - 1);
    }
}

/// Adds the outcomes that a new event brings to the three tables that hold
/// one row for each outcome, and returns their identifiers.
pub(crate) fn push_outcomes(
    outcomes: &mut Vec<OutCome>,
    market_outcomes: &mut Vec<MarketOutCome>,
    outcome_to_funds: &mut Vec<Vec<Ticket>>,
    event_id: EventId,
    first: OutComeId,
    bets: &Vec<OutComePayload>,
) -> (ids: Vec<OutComeId>)
    requires
        first + bets@.len() <= u64::MAX,
    ensures
        ids@ == outcome_ids(first, bets@.len()),
        final(outcomes)@ == old(outcomes)@ + outcomes_of(event_id, first, bets@),
        final(market_outcomes)@ == old(market_outcomes)@ + market_outcomes_of(
            event_id,
            first,
            bets@,
        ),
        rows(final(outcome_to_funds)@) == rows(old(outcome_to_funds)@) + empty_rows(bets@.len()),
{
    let mut ids: Vec<OutComeId> = Vec::new();
    let mut k: usize = 0;
    while k < bets.len()
        invariant
            k <= bets.len(),
            first + bets@.len() <= u64::MAX,
            ids@ == outcome_ids(first, k as nat),
            outcomes@ == old(outcomes)@ + outcomes_of(event_id, first, bets@).take(k as int),
            market_outcomes@ == old(market_outcomes)@ + market_outcomes_of(
                event_id,
                first,
                bets@,
            ).take(k as int),
            rows(outcome_to_funds@) == rows(old(outcome_to_funds)@) + empty_rows(k as nat),
        decreases bets.len() - k,
    {
        let outcome_id: OutComeId = first + k as u64;
        let outcome = PredictionMarket::new_outcome(event_id, outcome_id, &bets[k]);
        let market_outcome = PredictionMarket::new_market_outcome(
            event_id,
            outcome_id,
            bets[k].total_supply,
        );
        let ghost earlier = outcome_to_funds@;
        ids.push(outcome_id);
        outcomes.push(outcome);
        market_outcomes.push(market_outcome);
        outcome_to_funds.push(Vec::new());
        k += 1;
        proof {
            assert forall|i: int| 0 <= i < earlier.len() implies rows(outcome_to_funds@)[i] == rows(
                earlier,
            )[i] by {
                assert(outcome_to_funds@[i] == earlier[i]);
            }
            assert(ids@ =~= outcome_ids(first, k as nat));
            assert(outcomes@ =~= old(outcomes)@ + outcomes_of(event_id, first, bets@).take(
                k as int,
            ));
            assert(market_outcomes@ =~= old(market_outcomes)@ + market_outcomes_of(
                event_id,
                first,
                bets@,
            ).take(k as int));
            let target = rows(old(outcome_to_funds)@) + empty_rows(k as nat);
            assert(rows(earlier) == rows(old(outcome_to_funds)@) + empty_rows((k - 1) as nat));
            assert(rows(outcome_to_funds@).len() == target.len());
            assert forall|i: int| 0 <= i < target.len() implies rows(outcome_to_funds@)[i]
                == target[i] by {
                if i < earlier.len() {
                    assert(rows(outcome_to_funds@)[i] == rows(earlier)[i]);
                } else {
                    assert(outcome_to_funds@[i]@ =~= Seq::<Ticket>::empty());
                }
            }
            assert(rows(outcome_to_funds@) =~= target);
        }
    }
    proof {
        assert(outcomes_of(event_id, first, bets@).take(k as int) =~= outcomes_of(
            event_id,
            first,
            bets@,
        ));
        assert(market_outcomes_of(event_id, first, bets@).take(k as int) =~= market_outcomes_of(
            event_id,
            first,
            bets@,
        ));
    }
    ids
}

impl PredictionMarket {
    /// The outcome that a payload describes, under a given identifier.
    pub fn new_outcome(event_id: EventId, outcome_id: OutComeId, payload: &OutComePayload) -> (r:
        OutCome)
        ensures
            r == (OutCome {
                event_id,
                outcome_id,
                description: payload.description,
                deposit_per_supply: payload.deposit_per_supply,
                total_supply: payload.total_supply,
            }),
    {
        OutCome {
            event_id,
            outcome_id,
            description: payload.description.clone(),
            deposit_per_supply: payload.deposit_per_supply,
            total_supply: payload.total_supply,
        }
    }

    /// The market side of a new outcome: all of `supply` is available.
    pub fn new_market_outcome(event_id: EventId, outcome_id: OutComeId, supply: Supply) -> (r:
        MarketOutCome)
        ensures
            r == (MarketOutCome { event_id, outcome_id, available_supply: supply }),
    {
        MarketOutCome { event_id, outcome_id, available_supply: supply }
    }

    /// The market of a new event: the deposit is its pool, and it is not
    /// resolved.
    pub fn new_market(event_id: EventId, deposit: Balance, resolve_date: Timestamp) -> (r:
        EventMarket)
        ensures
            r == (EventMarket {
                event_id,
                pool: deposit,
                is_resolved: false,
                resolve_date,
                winning_outcome: None,
            }),
    {
        EventMarket { event_id, pool: deposit, is_resolved: false, resolve_date, winning_outcome: None }
    }

    /// Takes the next event identifier, stores the outcomes that the event
    /// brings, and returns the event with the identifiers of its outcomes.
    /// The event itself, its market and its list of outcomes are left for
    /// the caller to store.
    pub(crate) fn new_event(
        &mut self,
        owner: AccountId,
        question: String,
        bets: &Vec<OutComePayload>,
        metadata: EventMetadata,
    ) -> (r: (Event, Vec<OutComeId>))
        requires
            old(self).next_event_id < u64::MAX,
            old(self).next_outcome_id + bets@.len() <= u64::MAX,
        ensures
            r.0 == (Event { event_id: old(self).next_event_id, owner, question, metadata }),
            r.1@ == outcome_ids(old(self).next_outcome_id, bets@.len()),
            final(self)@ == (MarketState {
                outcomes: old(self)@.outcomes + outcomes_of(
                    old(self).next_event_id,
                    old(self).next_outcome_id,
                    bets@,
                ),
                market_outcomes: old(self)@.market_outcomes + market_outcomes_of(
                    old(self).next_event_id,
                    old(self).next_outcome_id,
                    bets@,
                ),
                outcome_to_funds: old(self)@.outcome_to_funds + empty_rows(bets@.len()),
                next_event_id: (old(self).next_event_id + 1) as EventId,
                next_outcome_id: (old(self).next_outcome_id + bets@.len()) as OutComeId,
                ..old(self)@
            }),
    {
        let event_id = self.next_event_id;
        let first = self.next_outcome_id;
        let ids = push_outcomes(
            &mut self.outcomes,
            &mut self.market_outcomes,
            &mut self.outcome_to_funds,
            event_id,
            first,
            bets,
        );
        self.next_event_id = event_id + 1;
        self.next_outcome_id = first + bets.len() as u64;
        (Event { event_id, owner, question, metadata }, ids)
    }
}

/// The operations on events.
pub trait EventCore: Ledger {
    /// Creates an event with its outcomes and its market, whose pool starts
    /// with the value sent along, and returns the event's identifier.
    fn create_event(
        &mut self,
        env: &MyEnvironment,
        question: String,
        resolve_date: Timestamp,
        bets: Vec<OutComePayload>,
        metadata: EventMetadata,
    ) -> (r: Result<EventId, Error>)
        requires
            old(self).state().wf(),
        ensures
            final(self).state().wf(),
            match r {
                Ok(event_id) => {
                    &&& create_event_error(old(self).state(), *env, bets@) is None
                    &&& event_id == old(self).state().next_event_id
                    &&& final(self).state() == create_event_state(
                        old(self).state(),
                        *env,
                        question,
                        resolve_date,
                        bets@,
                        metadata,
                    )
                },
                Err(e) => {
                    &&& create_event_error(old(self).state(), *env, bets@) == Some(e)
                    &&& final(self).state() == old(self).state()
                },
            },
    ;

    /// Resolves an event in favour of one of its outcomes and pays the funds
    /// that hold units of it. Only the event's owner may do so, and only
    /// from the resolve date on.
    fn resolve_event(&mut self, env: &MyEnvironment, event_id: EventId, winner: OutComeId) -> (r:
        Result<(), Error>)
        requires
            old(self).state().wf(),
        ensures
            final(self).state().wf(),
            match r {
                Ok(()) => {
                    &&& resolve_event_error(old(self).state(), *env, event_id, winner) is None
                    &&& final(self).state() == resolve_event_state(old(self).state(), event_id, winner)
                },
                Err(e) => {
                    &&& resolve_event_error(old(self).state(), *env, event_id, winner) == Some(e)
                    &&& final(self).state() == old(self).state()
                },
            },
    ;

    /// Every event with its market and the units that exist of all its
    /// outcomes together, in the order of creation.
    fn get_events(&self) -> (r: Result<Vec<(Event, EventMarket, Supply)>, Error>)
        requires
            self.state().wf(),
        ensures
            r matches Ok(list) && list@ == self.state().event_listing(),
    ;

    /// An event with its market, the units that exist of all its outcomes
    /// together and, for each outcome, its available supply and the funds
    /// that hold units of it.
    fn get_event_detail(&self, event_id: EventId) -> (r: Result<
        (
            Event,
            EventMarket,
            Supply,
            Vec<(OutCome, MarketOutCome, Vec<(InvestmentFund, Supply)>)>,
        ),
        Error,
    >)
        requires
            self.state().wf(),
        ensures
            match r {
                Ok(detail) => {
                    &&& event_id < self.state().next_event_id
                    &&& detail.0 == self.state().events[event_id as int]
                    &&& detail.1 == self.state().event_markets[event_id as int]
                    &&& detail.2 == self.state().event_supply(event_id)
                    &&& detail.3@.len() == self.state().event_to_outcomes[event_id as int].len()
                    &&& forall|k: int|
                        0 <= k < detail.3@.len() ==> {
                            let outcome_id = self.state().event_to_outcomes[event_id as int][k];
                            &&& (#[trigger] detail.3@[k]).0 == self.state().outcomes[outcome_id as int]
                            &&& detail.3@[k].1 == self.state().market_outcomes[outcome_id as int]
                            &&& detail.3@[k].2@ == self.state().holders_of(outcome_id)
                        }
                },
                Err(e) => e == Error::EventNotFound && event_id >= self.state().next_event_id,
            },
    ;
}

impl EventCore for PredictionMarket {
    fn create_event(
        &mut self,
        env: &MyEnvironment,
        question: String,
        resolve_date: Timestamp,
        bets: Vec<OutComePayload>,
        metadata: EventMetadata,
    ) -> (r: Result<EventId, Error>)
    {
        let creation_deposit = env.transferred_value();
        if creation_deposit < MIN_EVENT_DEPOSIT {
            return Err(Error::DepositTooLow);
        }
        if bets.len() < 2 {
            return Err(Error::AtLeastTwoOutcome);
        }
        if self.next_event_id == u64::MAX || bets.len() as u64 > u64::MAX - self.next_outcome_id {
            return Err(Error::SomethingWrong);
        }
        if announced_supply(&bets).is_none() {
            return Err(Error::SomethingWrong);
        }
        let ghost before = self@;
        let new_event = self.new_event(env.caller(), question, &bets, metadata);
        let event_id = new_event.0.event_id;
        let new_market = Self::new_market(event_id, creation_deposit, resolve_date);
        self.event_to_outcomes.push(new_event.1);
        self.events.push(new_event.0);
        self.event_markets.push(new_market);
        proof {
            let after = create_event_state(before, *env, question, resolve_date, bets@, metadata);
            assert(self@.events =~= after.events);
            assert(self@.event_markets =~= after.event_markets);
            assert(self@.event_to_outcomes =~= after.event_to_outcomes);
            assert(self@.outcome_to_funds =~= after.outcome_to_funds);
            assert(self@.fund_to_outcomes =~= after.fund_to_outcomes);
            assert(self@.fund_owner_to_shares =~= after.fund_owner_to_shares);
            assert(self@.fund_to_trades =~= after.fund_to_trades);
            assert(self@.proponent_to_trades =~= after.proponent_to_trades);
            assert(self@ == after);
            lemma_create_event_wf(before, *env, question, resolve_date, bets@, metadata);
        }
        Ok(event_id)
    }

    fn resolve_event(&mut self, env: &MyEnvironment, event_id: EventId, winner: OutComeId) -> (r:
        Result<(), Error>)
    {
        if event_id >= self.next_event_id {
            return Err(Error::EventNotFound);
        }
        if winner >= self.next_outcome_id {
            return Err(Error::WrongEventOutCome);
        }
        let e = slot(event_id, self.events.len());
        let w = slot(winner, self.outcomes.len());
        if env.caller() != self.events[e].owner {
            return Err(Error::NotOwner);
        }
        let market = self.event_markets[e];
        if env.block_timestamp() < market.resolve_date || market.is_resolved {
            return Err(Error::ResolveDateNotMatch);
        }
        if self.outcomes[w].event_id != event_id {
            return Err(Error::WrongEventOutCome);
        }
        let ghost before = self@;
        let ghost row = before.outcome_to_funds[winner as int];
        proof {
            assert(self.outcome_to_funds@[w as int]@ == row);
            assert(before.market_outcomes[winner as int].available_supply + ticket_sum(row)
                == before.outcomes[winner as int].total_supply);
            assert(crate::model::distinct_funds(row));
            assert forall|k: int| 0 <= k < row.len() implies (#[trigger] row[k]).fund_id
                < self.investment_funds@.len() by {
                assert(before.outcome_to_funds[winner as int][k].fund_id
                    < before.investment_funds.len());
            }
        }
        let used_supply: Supply = self.outcomes[w].total_supply
            - self.market_outcomes[w].available_supply;
        if used_supply == 0 {
            return Err(Error::NoBodyBetted);
        }
        let per_supply: Balance = market.pool / (used_supply as Balance);
        assert(per_supply == prize_per_supply(before, event_id, winner));
        if !prizes_fit(&self.investment_funds, &self.outcome_to_funds[w], per_supply) {
            return Err(Error::SomethingWrong);
        }
        proof {
            lemma_dust(market.pool as int, used_supply as int);
            lemma_prize_total(row, per_supply as int);
        }
        pay_prizes(&mut self.investment_funds, &self.outcome_to_funds[w], per_supply);
        let paid: Balance = (used_supply as Balance) * per_supply;
        self.event_markets[e].pool = market.pool - paid;
        self.event_markets[e].is_resolved = true;
        self.event_markets[e].winning_outcome = Some(winner);
        proof {
            let after = resolve_event_state(before, event_id, winner);
            assert(self@.investment_funds =~= after.investment_funds);
            assert(self@.event_markets =~= after.event_markets);
            assert(self@.event_to_outcomes =~= after.event_to_outcomes);
            assert(self@.outcome_to_funds =~= after.outcome_to_funds);
            assert(self@.fund_to_outcomes =~= after.fund_to_outcomes);
            assert(self@.fund_owner_to_shares =~= after.fund_owner_to_shares);
            assert(self@.fund_to_trades =~= after.fund_to_trades);
            assert(self@.proponent_to_trades =~= after.proponent_to_trades);
            assert(self@ == after);
            lemma_resolve_event_wf(before, *env, event_id, winner);
        }
        Ok(())
    }

    fn get_events(&self) -> (r: Result<Vec<(Event, EventMarket, Supply)>, Error>)
    {
        let mut events: Vec<(Event, EventMarket, Supply)> = Vec::new();
        let mut i: EventId = 0;
        while i < self.next_event_id
            invariant
                self@.wf(),
                i <= self.next_event_id,
                events@.len() == i,
                forall|j: int| 0 <= j < i ==> #[trigger] events@[j] == self@.event_listing()[j],
            decreases self.next_event_id - i,
        {
            match self.get_event_by_id(i) {
                Ok(found) => {
                    events.push(found);
                },
                Err(e) => {
                    return Err(e);
                },
            }
            i += 1;
        }
        assert(events@ =~= self@.event_listing());
        Ok(events)
    }

    fn get_event_detail(&self, event_id: EventId) -> (r: Result<
        (
            Event,
            EventMarket,
            Supply,
            Vec<(OutCome, MarketOutCome, Vec<(InvestmentFund, Supply)>)>,
        ),
        Error,
    >)
    {
        let event = match self.get_event_by_id(event_id) {
            Ok(found) => found,
            Err(e) => {
                return Err(e);
            },
        };
        let ids = &self.event_to_outcomes[slot(event_id, self.event_to_outcomes.len())];
        assert(ids@ == self@.event_to_outcomes[event_id as int]);
        let mut rs: Vec<(OutCome, MarketOutCome, Vec<(InvestmentFund, Supply)>)> = Vec::new();
        let mut k: usize = 0;
        while k < ids.len()
            invariant
                self@.wf(),
                event_id < self@.next_event_id,
                ids@ == self@.event_to_outcomes[event_id as int],
                k <= ids.len(),
                rs@.len() == k,
                forall|j: int|
                    0 <= j < k ==> {
                        &&& (#[trigger] rs@[j]).0 == self@.outcomes[ids@[j] as int]
                        &&& rs@[j].1 == self@.market_outcomes[ids@[j] as int]
                        &&& rs@[j].2@ == self@.holders_of(ids@[j])
                    },
            decreases ids.len() - k,
        {
            let outcome_id = ids[k];
            assert(self@.event_to_outcomes[event_id as int][k as int] < self@.outcomes.len());
            let outcome = match self.get_outcome_by_id(outcome_id) {
                Ok(found) => found,
                Err(e) => {
                    return Err(e);
                },
            };
            let outcome_funds = match self.get_outcome_funds(outcome_id) {
                Ok(found) => found,
                Err(e) => {
                    return Err(e);
                },
            };
            rs.push((outcome.0, outcome.1, outcome_funds));
            k += 1;
        }
        Ok((event.0, event.1, event.2, rs))
    }
}

} // verus!
