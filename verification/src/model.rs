//! The ledger as a mathematical value: sequences of records indexed by
//! identifier, the sums that the conservation rules speak of, and the
//! conditions that every reachable ledger meets.

use crate::types::{
    AccountId, Event, EventId, EventMarket, FundTrade, InvestmentFund, InvestmentFundId,
    MarketOutCome, OutCome, OutComeId, OutComePayload, Share, ShareEntry, Supply, Ticket, TradeId,
    CONTROL_PERCENT, MIN_FUND_SHARE,
};
use vstd::prelude::*;

verus! {

/// The whole ledger. Each table is indexed by the identifier of the entity it
/// describes; an identifier is the position at which the entity was added.
pub struct MarketState {
    pub events: Seq<Event>,
    pub event_markets: Seq<EventMarket>,
    pub outcomes: Seq<OutCome>,
    pub market_outcomes: Seq<MarketOutCome>,
    pub investment_funds: Seq<InvestmentFund>,
    pub fund_trades: Seq<FundTrade>,
    /// For each event, its outcomes.
    pub event_to_outcomes: Seq<Seq<OutComeId>>,
    /// For each outcome, the funds that bought into it, each with its units.
    pub outcome_to_funds: Seq<Seq<Ticket>>,
    /// For each fund, the outcomes it bought into.
    pub fund_to_outcomes: Seq<Seq<OutComeId>>,
    /// For each fund, who holds its shares.
    pub fund_owner_to_shares: Seq<Seq<ShareEntry>>,
    /// For each fund, the proposals made on it.
    pub fund_to_trades: Seq<Seq<TradeId>>,
    /// For each principal who made a proposal, those proposals.
    pub proponent_to_trades: Seq<(AccountId, Seq<TradeId>)>,
    pub next_fund_id: InvestmentFundId,
    pub next_event_id: EventId,
    pub next_outcome_id: OutComeId,
    pub next_trade_id: TradeId,
}

/// Whether `share` out of `total` shares is a controlling stake: at least
/// `CONTROL_PERCENT` percent, the percentage rounded down.
pub open spec fn holds_majority(share: int, total: int) -> bool {
    share * 100 / total >= CONTROL_PERCENT as int
}

/// The units that all the tickets of a row record together.
pub open spec fn ticket_sum(row: Seq<Ticket>) -> nat
    decreases row.len(),
{
    if row.len() == 0 {
        0
    } else {
        ticket_sum(row.drop_last()) + row.last().supply as nat
    }
}

/// The units that the tickets of `fund` in a row record.
pub open spec fn supply_of(row: Seq<Ticket>, fund: InvestmentFundId) -> nat
    decreases row.len(),
{
    if row.len() == 0 {
        0
    } else {
        supply_of(row.drop_last(), fund) + if row.last().fund_id == fund {
            row.last().supply as nat
        } else {
            0
        }
    }
}

/// Whether a row holds a ticket of `fund`.
pub open spec fn has_ticket(row: Seq<Ticket>, fund: InvestmentFundId) -> bool {
    exists|k: int| 0 <= k < row.len() && #[trigger] row[k].fund_id == fund
}

/// Whether no two tickets of a row are of the same fund.
pub open spec fn distinct_funds(row: Seq<Ticket>) -> bool {
    forall|i: int, j: int|
        0 <= i < j < row.len() ==> (#[trigger] row[i]).fund_id != (#[trigger] row[j]).fund_id
}

/// A row after `fund` bought `units` more: its ticket grows by that much, or
/// a new ticket is added at the end if it had none.
pub open spec fn record_ticket(row: Seq<Ticket>, fund: InvestmentFundId, units: Supply) -> Seq<
    Ticket,
> {
    if has_ticket(row, fund) {
        Seq::new(
            row.len(),
            |k: int|
                if row[k].fund_id == fund {
                    Ticket { fund_id: fund, supply: (row[k].supply + units) as Supply }
                } else {
                    row[k]
                },
        )
    } else {
        row.push(Ticket { fund_id: fund, supply: units })
    }
}

/// The shares that all the entries of a fund's register record together.
pub open spec fn share_sum(entries: Seq<ShareEntry>) -> nat
    decreases entries.len(),
{
    if entries.len() == 0 {
        0
    } else {
        share_sum(entries.drop_last()) + entries.last().share as nat
    }
}

/// The shares that `owner` holds according to a fund's register: none where
/// the register does not name the owner.
pub open spec fn share_of(entries: Seq<ShareEntry>, owner: AccountId) -> nat
    decreases entries.len(),
{
    if entries.len() == 0 {
        0
    } else {
        share_of(entries.drop_last(), owner) + if entries.last().owner == owner {
            entries.last().share as nat
        } else {
            0
        }
    }
}

/// Whether a register holds an entry of `owner`.
pub open spec fn has_entry(entries: Seq<ShareEntry>, owner: AccountId) -> bool {
    exists|k: int| 0 <= k < entries.len() && #[trigger] entries[k].owner == owner
}

/// Whether no two entries of a register are of the same owner.
pub open spec fn distinct_owners(entries: Seq<ShareEntry>) -> bool {
    forall|i: int, j: int|
        0 <= i < j < entries.len() ==> (#[trigger] entries[i]).owner != (
        #[trigger] entries[j]).owner
}

/// A register after `owner` gave up `amount` shares.
pub open spec fn debit_shares(entries: Seq<ShareEntry>, owner: AccountId, amount: Share) -> Seq<
    ShareEntry,
> {
    Seq::new(
        entries.len(),
        |k: int|
            if entries[k].owner == owner {
                ShareEntry { owner, share: (entries[k].share - amount) as Share }
            } else {
                entries[k]
            },
    )
}

/// A register after `owner` received `amount` shares: the owner's entry
/// grows, or a new entry is added at the end if there was none.
pub open spec fn credit_shares(entries: Seq<ShareEntry>, owner: AccountId, amount: Share) -> Seq<
    ShareEntry,
> {
    if has_entry(entries, owner) {
        Seq::new(
            entries.len(),
            |k: int|
                if entries[k].owner == owner {
                    ShareEntry { owner, share: (entries[k].share + amount) as Share }
                } else {
                    entries[k]
                },
        )
    } else {
        entries.push(ShareEntry { owner, share: amount })
    }
}

/// A register after `amount` shares went from `from` to `to`.
pub open spec fn move_shares(
    entries: Seq<ShareEntry>,
    from: AccountId,
    to: AccountId,
    amount: Share,
) -> Seq<ShareEntry> {
    credit_shares(debit_shares(entries, from, amount), to, amount)
}

/// The balances of all funds together.
pub open spec fn balance_sum(funds: Seq<InvestmentFund>) -> int
    decreases funds.len(),
{
    if funds.len() == 0 {
        0
    } else {
        balance_sum(funds.drop_last()) + funds.last().total_fund
    }
}

/// The units that the funds `0` to `n - 1` hold according to a row,
/// together.
pub open spec fn held_by_first(row: Seq<Ticket>, n: int) -> nat
    decreases n,
{
    if n <= 0 {
        0
    } else {
        held_by_first(row, n - 1) + supply_of(row, (n - 1) as InvestmentFundId)
    }
}

/// The units that exist of the first `n` outcomes of a list, together.
pub open spec fn supply_total(outcomes: Seq<OutCome>, ids: Seq<OutComeId>, n: int) -> nat
    decreases n,
{
    if n <= 0 {
        0
    } else {
        supply_total(outcomes, ids, n - 1) + outcomes[ids[n - 1] as int].total_supply as nat
    }
}

/// The units that the first `n` payloads announce, together.
pub open spec fn payload_total(bets: Seq<OutComePayload>, n: int) -> nat
    decreases n,
{
    if n <= 0 {
        0
    } else {
        payload_total(bets, n - 1) + bets[n - 1].total_supply as nat
    }
}

/// Whether the index holds an entry of `who`.
pub open spec fn has_proponent(index: Seq<(AccountId, Seq<TradeId>)>, who: AccountId) -> bool {
    exists|k: int| 0 <= k < index.len() && (#[trigger] index[k]).0 == who
}

/// Whether no two entries of the index are of the same principal.
pub open spec fn distinct_proponents(index: Seq<(AccountId, Seq<TradeId>)>) -> bool {
    forall|i: int, j: int|
        0 <= i < j < index.len() ==> (#[trigger] index[i]).0 != (#[trigger] index[j]).0
}

/// The proposals that `who` has made, oldest first; none where the index does
/// not name the principal.
pub open spec fn trades_of(index: Seq<(AccountId, Seq<TradeId>)>, who: AccountId) -> Seq<TradeId>
    decreases index.len(),
{
    if index.len() == 0 {
        Seq::empty()
    } else if index.last().0 == who {
        index.last().1
    } else {
        trades_of(index.drop_last(), who)
    }
}

/// The index after `who` made the proposal `trade`.
pub open spec fn record_proposal(
    index: Seq<(AccountId, Seq<TradeId>)>,
    who: AccountId,
    trade: TradeId,
) -> Seq<(AccountId, Seq<TradeId>)> {
    if has_proponent(index, who) {
        Seq::new(
            index.len(),
            |k: int|
                if index[k].0 == who {
                    (who, index[k].1.push(trade))
                } else {
                    index[k]
                },
        )
    } else {
        index.push((who, seq![trade]))
    }
}

impl MarketState {
    /// The ledger before anything was created.
    pub open spec fn empty() -> MarketState {
        MarketState {
            events: Seq::empty(),
            event_markets: Seq::empty(),
            outcomes: Seq::empty(),
            market_outcomes: Seq::empty(),
            investment_funds: Seq::empty(),
            fund_trades: Seq::empty(),
            event_to_outcomes: Seq::empty(),
            outcome_to_funds: Seq::empty(),
            fund_to_outcomes: Seq::empty(),
            fund_owner_to_shares: Seq::empty(),
            fund_to_trades: Seq::empty(),
            proponent_to_trades: Seq::empty(),
            next_fund_id: 0,
            next_event_id: 0,
            next_outcome_id: 0,
            next_trade_id: 0,
        }
    }

    /// Every table has one row for each identifier handed out so far.
    pub open spec fn tables_aligned(self) -> bool {
        &&& self.events.len() == self.next_event_id
        &&& self.event_markets.len() == self.next_event_id
        &&& self.event_to_outcomes.len() == self.next_event_id
        &&& self.outcomes.len() == self.next_outcome_id
        &&& self.market_outcomes.len() == self.next_outcome_id
        &&& self.outcome_to_funds.len() == self.next_outcome_id
        &&& self.investment_funds.len() == self.next_fund_id
        &&& self.fund_to_outcomes.len() == self.next_fund_id
        &&& self.fund_owner_to_shares.len() == self.next_fund_id
        &&& self.fund_to_trades.len() == self.next_fund_id
        &&& self.fund_trades.len() == self.next_trade_id
    }

    /// Every record carries the identifier under which it is stored.
    pub open spec fn ids_in_place(self) -> bool {
        &&& forall|e: int|
            0 <= e < self.events.len() ==> (#[trigger] self.events[e]).event_id == e
        &&& forall|e: int|
            0 <= e < self.event_markets.len() ==> (#[trigger] self.event_markets[e]).event_id
                == e
        &&& forall|o: int|
            0 <= o < self.outcomes.len() ==> (#[trigger] self.outcomes[o]).outcome_id == o
        &&& forall|o: int|
            0 <= o < self.market_outcomes.len() ==> (
            #[trigger] self.market_outcomes[o]).outcome_id == o
        &&& forall|f: int|
            0 <= f < self.investment_funds.len() ==> (
            #[trigger] self.investment_funds[f]).investment_fund_id == f
        &&& forall|t: int|
            0 <= t < self.fund_trades.len() ==> (#[trigger] self.fund_trades[t]).trade_id == t
    }

    /// Every outcome belongs to an event that exists, and every event lists
    /// at least two outcomes, all its own, whose units together fit the
    /// range of a supply.
    pub open spec fn outcomes_linked(self) -> bool {
        &&& forall|o: int|
            0 <= o < self.outcomes.len() ==> (#[trigger] self.outcomes[o]).event_id
                < self.events.len()
        &&& forall|o: int|
            0 <= o < self.outcomes.len() ==> (#[trigger] self.market_outcomes[o]).event_id
                == self.outcomes[o].event_id
        &&& forall|e: int|
            0 <= e < self.events.len() ==> (#[trigger] self.event_to_outcomes[e]).len() >= 2
        &&& forall|e: int, k: int|
            0 <= e < self.events.len() && 0 <= k < self.event_to_outcomes[e].len() ==> {
                &&& (#[trigger] self.event_to_outcomes[e][k]) < self.outcomes.len()
                &&& self.outcomes[self.event_to_outcomes[e][k] as int].event_id == e
            }
        &&& forall|e: int|
            0 <= e < self.events.len() ==> supply_total(
                self.outcomes,
                #[trigger] self.event_to_outcomes[e],
                self.event_to_outcomes[e].len() as int,
            ) <= u64::MAX
    }

    /// Of every outcome, the units still available and the units that funds
    /// have bought make up the units that exist.
    pub open spec fn supply_conserved(self) -> bool {
        forall|o: int|
            0 <= o < self.outcomes.len() ==> self.market_outcomes[o].available_supply
                + ticket_sum(#[trigger] self.outcome_to_funds[o])
                == self.outcomes[o].total_supply
    }

    /// Every ticket names a fund that exists and records at least one unit,
    /// and no outcome has two tickets of one fund.
    pub open spec fn tickets_valid(self) -> bool {
        &&& forall|o: int|
            0 <= o < self.outcome_to_funds.len() ==> distinct_funds(
                #[trigger] self.outcome_to_funds[o],
            )
        &&& forall|o: int, k: int|
            0 <= o < self.outcome_to_funds.len() && 0 <= k < self.outcome_to_funds[o].len() ==> {
                &&& (#[trigger] self.outcome_to_funds[o][k]).fund_id
                    < self.investment_funds.len()
                &&& self.outcome_to_funds[o][k].supply > 0
            }
    }

    /// A fund lists exactly the outcomes in which it holds a ticket, each
    /// once.
    pub open spec fn fund_outcomes_valid(self) -> bool {
        &&& forall|f: int, k: int|
            0 <= f < self.fund_to_outcomes.len() && 0 <= k < self.fund_to_outcomes[f].len() ==> {
                &&& (#[trigger] self.fund_to_outcomes[f][k]) < self.outcome_to_funds.len()
                &&& has_ticket(
                    self.outcome_to_funds[self.fund_to_outcomes[f][k] as int],
                    f as InvestmentFundId,
                )
            }
        &&& forall|f: int|
            0 <= f < self.fund_to_outcomes.len() ==> (
            #[trigger] self.fund_to_outcomes[f]).no_duplicates()
        &&& forall|o: int, k: int|
            0 <= o < self.outcome_to_funds.len() && 0 <= k < self.outcome_to_funds[o].len()
                ==> self.fund_to_outcomes[(#[trigger] self.outcome_to_funds[o][k]).fund_id as int].contains(
            o as OutComeId)
    }

    /// A fund is cut into a positive multiple of the share unit.
    pub open spec fn funds_valid(self) -> bool {
        forall|f: int|
            0 <= f < self.investment_funds.len() ==> {
                &&& (#[trigger] self.investment_funds[f]).total_share >= MIN_FUND_SHARE
                &&& self.investment_funds[f].total_share % MIN_FUND_SHARE == 0
            }
    }

    /// Of every fund, the shares of all owners together are the fund's
    /// shares, and the register names no owner twice.
    pub open spec fn shares_conserved(self) -> bool {
        &&& forall|f: int|
            0 <= f < self.investment_funds.len() ==> share_sum(
                #[trigger] self.fund_owner_to_shares[f],
            ) == self.investment_funds[f].total_share
        &&& forall|f: int|
            0 <= f < self.investment_funds.len() ==> distinct_owners(
                #[trigger] self.fund_owner_to_shares[f],
            )
    }

    /// Every proposal is on a fund that exists; a fund lists proposals made
    /// on it, and a principal's entry lists proposals that the principal
    /// made.
    pub open spec fn trades_valid(self) -> bool {
        &&& forall|t: int|
            0 <= t < self.fund_trades.len() ==> (#[trigger] self.fund_trades[t]).investment_fund_id
                < self.investment_funds.len()
        &&& forall|f: int, k: int|
            0 <= f < self.fund_to_trades.len() && 0 <= k < self.fund_to_trades[f].len() ==> {
                &&& (#[trigger] self.fund_to_trades[f][k]) < self.fund_trades.len()
                &&& self.fund_trades[self.fund_to_trades[f][k] as int].investment_fund_id == f
            }
        &&& distinct_proponents(self.proponent_to_trades)
        &&& forall|p: int, k: int|
            0 <= p < self.proponent_to_trades.len() && 0 <= k
                < self.proponent_to_trades[p].1.len() ==> {
                &&& (#[trigger] self.proponent_to_trades[p].1[k]) < self.fund_trades.len()
                &&& self.fund_trades[self.proponent_to_trades[p].1[k] as int].proponent
                    == self.proponent_to_trades[p].0
            }
    }

    /// A market has a winner exactly when it is resolved, and the winner is
    /// an outcome of its event.
    pub open spec fn markets_valid(self) -> bool {
        forall|e: int|
            0 <= e < self.event_markets.len() ==> {
                &&& (#[trigger] self.event_markets[e]).is_resolved
                    == self.event_markets[e].winning_outcome.is_some()
                &&& self.event_markets[e].winning_outcome matches Some(w) ==> {
                    &&& w < self.outcomes.len()
                    &&& self.outcomes[w as int].event_id == e
                }
            }
    }

    /// What holds of every ledger that the operations can reach.
    pub open spec fn wf(self) -> bool {
        &&& self.tables_aligned()
        &&& self.ids_in_place()
        &&& self.outcomes_linked()
        &&& self.supply_conserved()
        &&& self.tickets_valid()
        &&& self.fund_outcomes_valid()
        &&& self.funds_valid()
        &&& self.shares_conserved()
        &&& self.trades_valid()
        &&& self.markets_valid()
    }

    /// The units that exist of all the outcomes of an event, together.
    pub open spec fn event_supply(self, event_id: EventId) -> nat {
        supply_total(
            self.outcomes,
            self.event_to_outcomes[event_id as int],
            self.event_to_outcomes[event_id as int].len() as int,
        )
    }

    /// The funds that bought into an outcome, each with the units it holds,
    /// in the order of their first purchase.
    pub open spec fn holders_of(self, outcome_id: OutComeId) -> Seq<(InvestmentFund, Supply)> {
        let row = self.outcome_to_funds[outcome_id as int];
        Seq::new(row.len(), |k: int| (self.investment_funds[row[k].fund_id as int], row[k].supply))
    }

    /// The outcomes that a fund bought into, each with the units the fund
    /// holds of it, in the order of their first purchase.
    pub open spec fn holdings_of(self, fund_id: InvestmentFundId) -> Seq<(OutCome, Supply)> {
        let ids = self.fund_to_outcomes[fund_id as int];
        Seq::new(
            ids.len(),
            |k: int|
                (
                    self.outcomes[ids[k] as int],
                    supply_of(self.outcome_to_funds[ids[k] as int], fund_id) as Supply,
                ),
        )
    }

    /// The outcomes of an event, each with its available supply, in the
    /// order in which the organizer gave them.
    pub open spec fn offers_of(self, event_id: EventId) -> Seq<(OutCome, MarketOutCome)> {
        let ids = self.event_to_outcomes[event_id as int];
        Seq::new(
            ids.len(),
            |k: int| (self.outcomes[ids[k] as int], self.market_outcomes[ids[k] as int]),
        )
    }

    /// Every event with its market and the units that exist of all its
    /// outcomes together, in the order of creation.
    pub open spec fn event_listing(self) -> Seq<(Event, EventMarket, Supply)> {
        Seq::new(
            self.events.len(),
            |e: int|
                (self.events[e], self.event_markets[e], self.event_supply(e as EventId) as Supply),
        )
    }

    /// The first `n` funds, each with its holdings. Where an owner is named,
    /// only the funds of which that owner holds a share, each with that
    /// share.
    pub open spec fn fund_listing(self, owner: Option<AccountId>, n: int) -> Seq<
        (InvestmentFund, Seq<(OutCome, Supply)>, Option<Share>),
    >
        decreases n,
    {
        if n <= 0 {
            Seq::empty()
        } else {
            let earlier = self.fund_listing(owner, n - 1);
            let fund = self.investment_funds[n - 1];
            let holdings = self.holdings_of((n - 1) as InvestmentFundId);
            match owner {
                Some(who) => {
                    let held = share_of(self.fund_owner_to_shares[n - 1], who);
                    if held != 0 {
                        earlier.push((fund, holdings, Some(held as Share)))
                    } else {
                        earlier
                    }
                },
                None => earlier.push((fund, holdings, None)),
            }
        }
    }

    /// The proposals with the given identifiers, each with its fund.
    pub open spec fn proposals(self, ids: Seq<TradeId>) -> Seq<(InvestmentFund, FundTrade)> {
        Seq::new(
            ids.len(),
            |k: int|
                (
                    self.investment_funds[self.fund_trades[ids[k] as int].investment_fund_id as int],
                    self.fund_trades[ids[k] as int],
                ),
        )
    }

    /// The identifiers of the proposals that a principal made, or of all
    /// proposals where none is named, oldest first.
    pub open spec fn proposal_ids(self, proponent: Option<AccountId>) -> Seq<TradeId> {
        match proponent {
            Some(who) => trades_of(self.proponent_to_trades, who),
            None => Seq::new(self.fund_trades.len(), |t: int| t as TradeId),
        }
    }

    /// The proposals made on a fund, oldest first.
    pub open spec fn fund_proposals(self, fund_id: InvestmentFundId) -> Seq<FundTrade> {
        let ids = self.fund_to_trades[fund_id as int];
        Seq::new(ids.len(), |k: int| self.fund_trades[ids[k] as int])
    }

    /// The units of an outcome that funds have bought.
    pub open spec fn used_supply(self, outcome_id: OutComeId) -> int {
        self.outcomes[outcome_id as int].total_supply
            - self.market_outcomes[outcome_id as int].available_supply
    }
}

} // verus!
