//! The ledger's tables, the value they stand for, and the lookups by
//! identifier.

use crate::lemmas::{
    lemma_share_of_absent, lemma_share_of_at, lemma_supply_of_absent, lemma_supply_of_at,
    lemma_supply_total_monotone,
};
use crate::model::{
    has_entry, has_proponent, has_ticket, share_of, supply_of, supply_total, MarketState,
};
use crate::types::{
    AccountId, Error, Event, EventId, EventMarket, FundTrade, InvestmentFund, InvestmentFundId,
    MarketOutCome, OutCome, OutComeId, ProponentTrades, Share, ShareEntry, Supply, Ticket, TradeId,
};
use vstd::prelude::*;

verus! {

/// The ledger: one table per kind of entity, indexed by identifier, the
/// indexes that lead from one entity to those that belong to it, and the
/// counter from which each kind's next identifier is taken.
#[derive(Clone, Debug, PartialEq, Eq)]
pub struct PredictionMarket {
    pub events: Vec<Event>,
    pub event_markets: Vec<EventMarket>,
    pub outcomes: Vec<OutCome>,
    pub market_outcomes: Vec<MarketOutCome>,
    pub investment_funds: Vec<InvestmentFund>,
    pub fund_trades: Vec<FundTrade>,
    pub event_to_outcomes: Vec<Vec<OutComeId>>,
    pub outcome_to_funds: Vec<Vec<Ticket>>,
    pub fund_to_outcomes: Vec<Vec<OutComeId>>,
    pub fund_owner_to_shares: Vec<Vec<ShareEntry>>,
    pub fund_to_trades: Vec<Vec<TradeId>>,
    pub proponent_to_trades: Vec<ProponentTrades>,
    pub next_fund_id: InvestmentFundId,
    pub next_event_id: EventId,
    pub next_outcome_id: OutComeId,
    pub next_trade_id: TradeId,
}

/// The rows of a table of lists, each as a sequence.
pub open spec fn rows<T>(table: Seq<Vec<T>>) -> Seq<Seq<T>> {
    Seq::new(table.len(), |i: int| table[i]@)
}

/// The entries of the index of proponents, each as a pair.
pub open spec fn proponent_rows(table: Seq<ProponentTrades>) -> Seq<(AccountId, Seq<TradeId>)> {
    Seq::new(table.len(), |i: int| (table[i].proponent, table[i].trades@))
}

impl View for PredictionMarket {
    type V = MarketState;

    open spec fn view(&self) -> MarketState {
        MarketState {
            events: self.events@,
            event_markets: self.event_markets@,
            outcomes: self.outcomes@,
            market_outcomes: self.market_outcomes@,
            investment_funds: self.investment_funds@,
            fund_trades: self.fund_trades@,
            event_to_outcomes: rows(self.event_to_outcomes@),
            outcome_to_funds: rows(self.outcome_to_funds@),
            fund_to_outcomes: rows(self.fund_to_outcomes@),
            fund_owner_to_shares: rows(self.fund_owner_to_shares@),
            fund_to_trades: rows(self.fund_to_trades@),
            proponent_to_trades: proponent_rows(self.proponent_to_trades@),
            next_fund_id: self.next_fund_id,
            next_event_id: self.next_event_id,
            next_outcome_id: self.next_outcome_id,
            next_trade_id: self.next_trade_id,
        }
    }
}

/// A store that holds a ledger.
pub trait Ledger {
    /// The ledger that the store holds.
    spec fn state(&self) -> MarketState;
}

impl Ledger for PredictionMarket {
    open spec fn state(&self) -> MarketState {
        self@
    }
}

/// The position in a table of `len` rows at which the entity `id` is stored.
pub(crate) fn slot(id: u64, len: usize) -> (r: usize)
    requires
        id < len,
    ensures
        r == id,
{
    id as usize
}

/// Where the ticket of `fund` stands in a row, if it has one.
pub fn find_ticket(row: &Vec<Ticket>, fund: InvestmentFundId) -> (r: Option<usize>)
    ensures
        match r {
            Some(i) => i < row.len() && row[i as int].fund_id == fund,
            None => !has_ticket(row@, fund),
        },
{
    let mut i: usize = 0;
    while i < row.len()
        invariant
            i <= row.len(),
            forall|k: int| 0 <= k < i ==> (#[trigger] row[k]).fund_id != fund,
        decreases row.len() - i,
    {
        if row[i].fund_id == fund {
            return Some(i);
        }
        i += 1;
    }
    None
}

/// The units that `fund` holds according to a row.
pub(crate) fn ticket_supply(row: &Vec<Ticket>, fund: InvestmentFundId) -> (r: Supply)
    requires
        crate::model::distinct_funds(row@),
    ensures
        r == supply_of(row@, fund),
{
    match find_ticket(row, fund) {
        Some(i) => {
            proof {
                lemma_supply_of_at(row@, i as int);
            }
            row[i].supply
        },
        None => {
            proof {
                lemma_supply_of_absent(row@, fund);
            }
            0
        },
    }
}

/// Where the entry of `owner` stands in a fund's register, if it has one.
pub fn find_share(entries: &Vec<ShareEntry>, owner: AccountId) -> (r: Option<usize>)
    ensures
        match r {
            Some(i) => i < entries.len() && entries[i as int].owner == owner,
            None => !has_entry(entries@, owner),
        },
{
    let mut i: usize = 0;
    while i < entries.len()
        invariant
            i <= entries.len(),
            forall|k: int| 0 <= k < i ==> (#[trigger] entries[k]).owner != owner,
        decreases entries.len() - i,
    {
        if entries[i].owner == owner {
            return Some(i);
        }
        i += 1;
    }
    None
}

/// The shares that `owner` holds according to a fund's register.
pub(crate) fn owner_share(entries: &Vec<ShareEntry>, owner: AccountId) -> (r: Share)
    requires
        crate::model::distinct_owners(entries@),
    ensures
        r == share_of(entries@, owner),
{
    match find_share(entries, owner) {
        Some(i) => {
            proof {
                lemma_share_of_at(entries@, i as int);
            }
            entries[i].share
        },
        None => {
            proof {
                lemma_share_of_absent(entries@, owner);
            }
            0
        },
    }
}

/// Where the entry of `who` stands in the index of proponents, if it has one.
pub fn find_proponent(index: &Vec<ProponentTrades>, who: AccountId) -> (r: Option<usize>)
    ensures
        match r {
            Some(i) => i < index.len() && index[i as int].proponent == who,
            None => !has_proponent(proponent_rows(index@), who),
        },
{
    let mut i: usize = 0;
    while i < index.len()
        invariant
            i <= index.len(),
            forall|k: int| 0 <= k < i ==> (#[trigger] index[k]).proponent != who,
        decreases index.len() - i,
    {
        if index[i].proponent == who {
            return Some(i);
        }
        i += 1;
    }
    proof {
        assert forall|k: int| 0 <= k < proponent_rows(index@).len() implies (
        #[trigger] proponent_rows(index@)[k]).0 != who by {
            assert(index[k].proponent != who);
        }
    }
    None
}

impl PredictionMarket {
    /// The ledger before anything was created.
    pub fn default() -> (r: Self)
        ensures
            r@ == MarketState::empty(),
            r@.wf(),
    {
        let r = PredictionMarket {
            events: Vec::new(),
            event_markets: Vec::new(),
            outcomes: Vec::new(),
            market_outcomes: Vec::new(),
            investment_funds: Vec::new(),
            fund_trades: Vec::new(),
            event_to_outcomes: Vec::new(),
            outcome_to_funds: Vec::new(),
            fund_to_outcomes: Vec::new(),
            fund_owner_to_shares: Vec::new(),
            fund_to_trades: Vec::new(),
            proponent_to_trades: Vec::new(),
            next_fund_id: 0,
            next_event_id: 0,
            next_outcome_id: 0,
            next_trade_id: 0,
        };
        proof {
            assert(r@.event_to_outcomes =~= Seq::empty());
            assert(r@.outcome_to_funds =~= Seq::empty());
            assert(r@.fund_to_outcomes =~= Seq::empty());
            assert(r@.fund_owner_to_shares =~= Seq::empty());
            assert(r@.fund_to_trades =~= Seq::empty());
            assert(r@.proponent_to_trades =~= Seq::empty());
        }
        r
    }

    /// An event with its market and the units that exist of all its outcomes
    /// together; `EventNotFound` where no event has this identifier.
    pub fn get_event_by_id(&self, event_id: EventId) -> (r: Result<
        (Event, EventMarket, Supply),
        Error,
    >)
        requires
            self@.wf(),
        ensures
            match r {
                Ok(found) => {
                    &&& event_id < self@.next_event_id
                    &&& found.0 == self@.events[event_id as int]
                    &&& found.1 == self@.event_markets[event_id as int]
                    &&& found.2 == self@.event_supply(event_id)
                },
                Err(e) => e == Error::EventNotFound && event_id >= self@.next_event_id,
            },
    {
        if event_id >= self.next_event_id {
            return Err(Error::EventNotFound);
        }
        let e: usize = slot(event_id, self.events.len());
        let ids = &self.event_to_outcomes[e];
        assert(ids@ == self@.event_to_outcomes[event_id as int]);
        let mut total: Supply = 0;
        let mut k: usize = 0;
        while k < ids.len()
            invariant
                self@.wf(),
                event_id < self@.next_event_id,
                ids@ == self@.event_to_outcomes[event_id as int],
                k <= ids.len(),
                total == supply_total(self@.outcomes, ids@, k as int),
            decreases ids.len() - k,
        {
            proof {
                lemma_supply_total_monotone(self@.outcomes, ids@, k as int + 1, ids@.len() as int);
                assert(self@.event_to_outcomes[event_id as int][k as int] < self@.outcomes.len());
            }
            total = total + self.outcomes[slot(ids[k], self.outcomes.len())].total_supply;
            k += 1;
        }
        Ok((self.events[e].clone(), self.event_markets[e], total))
    }

    /// An outcome with its available supply; `WrongEventOutCome` where no
    /// outcome has this identifier.
    pub fn get_outcome_by_id(&self, outcome_id: OutComeId) -> (r: Result<
        (OutCome, MarketOutCome),
        Error,
    >)
        requires
            self@.wf(),
        ensures
            match r {
                Ok(found) => {
                    &&& outcome_id < self@.next_outcome_id
                    &&& found.0 == self@.outcomes[outcome_id as int]
                    &&& found.1 == self@.market_outcomes[outcome_id as int]
                },
                Err(e) => e == Error::WrongEventOutCome && outcome_id >= self@.next_outcome_id,
            },
    {
        if outcome_id >= self.next_outcome_id {
            return Err(Error::WrongEventOutCome);
        }
        let o: usize = slot(outcome_id, self.outcomes.len());
        Ok((self.outcomes[o].clone(), self.market_outcomes[o]))
    }

    /// A fund; `FundNotFound` where no fund has this identifier.
    pub fn get_fund_by_id(&self, fund_id: InvestmentFundId) -> (r: Result<InvestmentFund, Error>)
        requires
            self@.wf(),
        ensures
            match r {
                Ok(found) => fund_id < self@.next_fund_id && found
                    == self@.investment_funds[fund_id as int],
                Err(e) => e == Error::FundNotFound && fund_id >= self@.next_fund_id,
            },
    {
        if fund_id >= self.next_fund_id {
            return Err(Error::FundNotFound);
        }
        Ok(self.investment_funds[slot(fund_id, self.investment_funds.len())].clone())
    }

    /// A proposal; `TradeNotFound` where no proposal has this identifier.
    pub fn get_trade_by_id(&self, trade_id: TradeId) -> (r: Result<FundTrade, Error>)
        requires
            self@.wf(),
        ensures
            match r {
                Ok(found) => trade_id < self@.next_trade_id && found
                    == self@.fund_trades[trade_id as int],
                Err(e) => e == Error::TradeNotFound && trade_id >= self@.next_trade_id,
            },
    {
        if trade_id >= self.next_trade_id {
            return Err(Error::TradeNotFound);
        }
        Ok(self.fund_trades[slot(trade_id, self.fund_trades.len())])
    }

    /// The funds that bought into an outcome, each with the units it holds,
    /// in the order of their first purchase; `WrongEventOutCome` where no
    /// outcome has this identifier.
    pub fn get_outcome_funds(&self, outcome_id: OutComeId) -> (r: Result<
        Vec<(InvestmentFund, Supply)>,
        Error,
    >)
        requires
            self@.wf(),
        ensures
            match r {
                Ok(list) => outcome_id < self@.next_outcome_id && list@ == self@.holders_of(
                    outcome_id,
                ),
                Err(e) => e == Error::WrongEventOutCome && outcome_id >= self@.next_outcome_id,
            },
    {
        if outcome_id >= self.next_outcome_id {
            return Err(Error::WrongEventOutCome);
        }
        let row = &self.outcome_to_funds[slot(outcome_id, self.outcome_to_funds.len())];
        assert(row@ == self@.outcome_to_funds[outcome_id as int]);
        let mut list: Vec<(InvestmentFund, Supply)> = Vec::new();
        let mut k: usize = 0;
        while k < row.len()
            invariant
                self@.wf(),
                outcome_id < self@.next_outcome_id,
                row@ == self@.outcome_to_funds[outcome_id as int],
                k <= row.len(),
                list@.len() == k,
                forall|j: int|
                    0 <= j < k ==> {
                        &&& (#[trigger] list@[j]).0
                            == self@.investment_funds[row@[j].fund_id as int]
                        &&& list@[j].1 == row@[j].supply
                    },
            decreases row.len() - k,
        {
            let ticket = row[k];
            assert(self@.outcome_to_funds[outcome_id as int][k as int].fund_id
                < self@.investment_funds.len());
            list.push(
                (
                    self.investment_funds[slot(ticket.fund_id, self.investment_funds.len())].clone(),
                    ticket.supply,
                ),
            );
            k += 1;
        }
        assert(list@ =~= self@.holders_of(outcome_id));
        Ok(list)
    }

    /// The outcomes that a fund bought into, each with the units the fund
    /// holds of it, in the order of their first purchase; `FundNotFound`
    /// where no fund has this identifier.
    pub fn get_fund_outcomes(&self, fund_id: InvestmentFundId) -> (r: Result<
        Vec<(OutCome, Supply)>,
        Error,
    >)
        requires
            self@.wf(),
        ensures
            match r {
                Ok(list) => fund_id < self@.next_fund_id && list@ == self@.holdings_of(fund_id),
                Err(e) => e == Error::FundNotFound && fund_id >= self@.next_fund_id,
            },
    {
        if fund_id >= self.next_fund_id {
            return Err(Error::FundNotFound);
        }
        let ids = &self.fund_to_outcomes[slot(fund_id, self.fund_to_outcomes.len())];
        assert(ids@ == self@.fund_to_outcomes[fund_id as int]);
        let mut list: Vec<(OutCome, Supply)> = Vec::new();
        let mut k: usize = 0;
        while k < ids.len()
            invariant
                self@.wf(),
                fund_id < self@.next_fund_id,
                ids@ == self@.fund_to_outcomes[fund_id as int],
                k <= ids.len(),
                list@.len() == k,
                forall|j: int|
                    0 <= j < k ==> {
                        &&& (#[trigger] list@[j]).0 == self@.outcomes[ids@[j] as int]
                        &&& list@[j].1 == supply_of(self@.outcome_to_funds[ids@[j] as int], fund_id)
                    },
            decreases ids.len() - k,
        {
            let oid = ids[k];
            assert(self@.fund_to_outcomes[fund_id as int][k as int] < self@.outcome_to_funds.len());
            let row = &self.outcome_to_funds[slot(oid, self.outcome_to_funds.len())];
            assert(row@ == self@.outcome_to_funds[oid as int]);
            let held = ticket_supply(row, fund_id);
            list.push((self.outcomes[slot(oid, self.outcomes.len())].clone(), held));
            k += 1;
        }
        assert(list@ =~= self@.holdings_of(fund_id));
        Ok(list)
    }

    /// The outcomes of an event, each with its available supply, in the
    /// order in which the organizer gave them; `EventNotFound` where no event
    /// has this identifier.
    pub fn get_event_outcomes(&self, event_id: EventId) -> (r: Result<
        Vec<(OutCome, MarketOutCome)>,
        Error,
    >)
        requires
            self@.wf(),
        ensures
            match r {
                Ok(list) => event_id < self@.next_event_id && list@ == self@.offers_of(event_id),
                Err(e) => e == Error::EventNotFound && event_id >= self@.next_event_id,
            },
    {
        if event_id >= self.next_event_id {
            return Err(Error::EventNotFound);
        }
        let ids = &self.event_to_outcomes[slot(event_id, self.event_to_outcomes.len())];
        assert(ids@ == self@.event_to_outcomes[event_id as int]);
        let mut list: Vec<(OutCome, MarketOutCome)> = Vec::new();
        let mut k: usize = 0;
        while k < ids.len()
            invariant
                self@.wf(),
                event_id < self@.next_event_id,
                ids@ == self@.event_to_outcomes[event_id as int],
                k <= ids.len(),
                list@.len() == k,
                forall|j: int|
                    0 <= j < k ==> {
                        &&& (#[trigger] list@[j]).0 == self@.outcomes[ids@[j] as int]
                        &&& list@[j].1 == self@.market_outcomes[ids@[j] as int]
                    },
            decreases ids.len() - k,
        {
            let oid = ids[k];
            assert(self@.event_to_outcomes[event_id as int][k as int] < self@.outcomes.len());
            let o = slot(oid, self.outcomes.len());
            list.push((self.outcomes[o].clone(), self.market_outcomes[o]));
            k += 1;
        }
        assert(list@ =~= self@.offers_of(event_id));
        Ok(list)
    }
}

} // verus!
