//! Deciding whether a ledger is well-formed: for a ledger that was put
//! together from stored tables rather than reached through the operations.

use crate::ledger::{find_ticket, proponent_rows, slot, PredictionMarket};
use crate::lemmas::lemma_supply_total_monotone;
use crate::model::{
    distinct_funds, distinct_owners, distinct_proponents, has_ticket, share_sum, supply_total,
    ticket_sum,
};
use crate::types::{OutCome, OutComeId, ProponentTrades, Share, ShareEntry, Supply, Ticket, MIN_FUND_SHARE};
use vstd::prelude::*;

verus! {

/// Whether no two tickets of a row are of the same fund.
pub fn funds_are_distinct(row: &Vec<Ticket>) -> (r: bool)
    ensures
        r == distinct_funds(row@),
{
    let mut j: usize = 0;
    while j < row.len()
        invariant
            j <= row.len(),
            forall|a: int, b: int|
                0 <= a < b < j ==> (#[trigger] row@[a]).fund_id != (#[trigger] row@[b]).fund_id,
        decreases row.len() - j,
    {
        let mut i: usize = 0;
        while i < j
            invariant
                i <= j < row.len(),
                forall|a: int| 0 <= a < i ==> (#[trigger] row@[a]).fund_id != row@[j as int].fund_id,
            decreases j - i,
        {
            if row[i].fund_id == row[j].fund_id {
                assert(row@[i as int].fund_id == row@[j as int].fund_id);
                return false;
            }
            i += 1;
        }
        j += 1;
    }
    true
}

/// Whether no two entries of a register are of the same owner.
pub fn owners_are_distinct(entries: &Vec<ShareEntry>) -> (r: bool)
    ensures
        r == distinct_owners(entries@),
{
    let mut j: usize = 0;
    while j < entries.len()
        invariant
            j <= entries.len(),
            forall|a: int, b: int|
                0 <= a < b < j ==> (#[trigger] entries@[a]).owner != (#[trigger] entries@[b]).owner,
        decreases entries.len() - j,
    {
        let mut i: usize = 0;
        while i < j
            invariant
                i <= j < entries.len(),
                forall|a: int|
                    0 <= a < i ==> (#[trigger] entries@[a]).owner != entries@[j as int].owner,
            decreases j - i,
        {
            if entries[i].owner == entries[j].owner {
                assert(entries@[i as int].owner == entries@[j as int].owner);
                return false;
            }
            i += 1;
        }
        j += 1;
    }
    true
}

/// Whether no two entries of the index of proponents are of the same
/// principal.
pub fn proponents_are_distinct(index: &Vec<ProponentTrades>) -> (r: bool)
    ensures
        r == distinct_proponents(proponent_rows(index@)),
{
    let ghost view = proponent_rows(index@);
    let mut j: usize = 0;
    while j < index.len()
        invariant
            j <= index.len(),
            view == proponent_rows(index@),
            forall|a: int, b: int|
                0 <= a < b < j ==> (#[trigger] view[a]).0 != (#[trigger] view[b]).0,
        decreases index.len() - j,
    {
        let mut i: usize = 0;
        while i < j
            invariant
                i <= j < index.len(),
                view == proponent_rows(index@),
                forall|a: int| 0 <= a < i ==> (#[trigger] view[a]).0 != view[j as int].0,
            decreases j - i,
        {
            if index[i].proponent == index[j].proponent {
                assert(view[i as int].0 == view[j as int].0);
                return false;
            }
            i += 1;
        }
        j += 1;
    }
    true
}

/// Whether a list of identifiers names none twice.
pub fn ids_are_distinct(ids: &Vec<u64>) -> (r: bool)
    ensures
        r == ids@.no_duplicates(),
{
    let mut j: usize = 0;
    while j < ids.len()
        invariant
            j <= ids.len(),
            forall|a: int, b: int| 0 <= a < b < j ==> ids@[a] != ids@[b],
        decreases ids.len() - j,
    {
        let mut i: usize = 0;
        while i < j
            invariant
                i <= j < ids.len(),
                forall|a: int| 0 <= a < i ==> ids@[a] != ids@[j as int],
            decreases j - i,
        {
            if ids[i] == ids[j] {
                assert(ids@[i as int] == ids@[j as int] && i != j);
                return false;
            }
            i += 1;
        }
        j += 1;
    }
    assert forall|a: int, b: int| 0 <= a < ids@.len() && 0 <= b < ids@.len() && a != b implies ids@[a]
        != ids@[b] by {
        if a < b {
            assert(ids@[a] != ids@[b]);
        } else {
            assert(ids@[b] != ids@[a]);
        }
    }
    true
}

/// Whether a list of identifiers names `id`.
pub fn names_id(ids: &Vec<u64>, id: u64) -> (r: bool)
    ensures
        r == ids@.contains(id),
{
    let mut i: usize = 0;
    while i < ids.len()
        invariant
            i <= ids.len(),
            forall|a: int| 0 <= a < i ==> ids@[a] != id,
        decreases ids.len() - i,
    {
        if ids[i] == id {
            return true;
        }
        i += 1;
    }
    false
}

/// The units that all the tickets of a row record together, where they fit
/// the range of a supply.
pub fn sum_of_tickets(row: &Vec<Ticket>) -> (r: Option<Supply>)
    ensures
        match r {
            Some(total) => total == ticket_sum(row@),
            None => ticket_sum(row@) > u64::MAX,
        },
{
    let mut total: Supply = 0;
    let mut k: usize = 0;
    while k < row.len()
        invariant
            k <= row.len(),
            total == ticket_sum(row@.take(k as int)),
        decreases row.len() - k,
    {
        proof {
            assert(row@.take(k as int + 1).drop_last() =~= row@.take(k as int));
        }
        match total.checked_add(row[k].supply) {
            Some(sum) => {
                total = sum;
            },
            None => {
                proof {
                    lemma_ticket_sum_prefix(row@, k as int + 1);
                }
                return None;
            },
        }
        k += 1;
    }
    proof {
        assert(row@.take(k as int) =~= row@);
    }
    Some(total)
}

/// The tickets at the front of a row record no more units than the whole row.
pub proof fn lemma_ticket_sum_prefix(row: Seq<Ticket>, n: int)
    requires
        0 <= n <= row.len(),
    ensures
        ticket_sum(row.take(n)) <= ticket_sum(row),
    decreases row.len() - n,
{
    if n < row.len() {
        lemma_ticket_sum_prefix(row, n + 1);
        assert(row.take(n + 1).drop_last() =~= row.take(n));
    } else {
        assert(row.take(n) =~= row);
    }
}

/// The shares that all the entries of a register record together, where
/// they fit the range of a share.
pub fn sum_of_shares(entries: &Vec<ShareEntry>) -> (r: Option<Share>)
    ensures
        match r {
            Some(total) => total == share_sum(entries@),
            None => share_sum(entries@) > u64::MAX,
        },
{
    let mut total: Share = 0;
    let mut k: usize = 0;
    while k < entries.len()
        invariant
            k <= entries.len(),
            total == share_sum(entries@.take(k as int)),
        decreases entries.len() - k,
    {
        proof {
            assert(entries@.take(k as int + 1).drop_last() =~= entries@.take(k as int));
        }
        match total.checked_add(entries[k].share) {
            Some(sum) => {
                total = sum;
            },
            None => {
                proof {
                    lemma_share_sum_prefix(entries@, k as int + 1);
                }
                return None;
            },
        }
        k += 1;
    }
    proof {
        assert(entries@.take(k as int) =~= entries@);
    }
    Some(total)
}

/// The entries at the front of a register record no more shares than the whole
/// register.
pub proof fn lemma_share_sum_prefix(entries: Seq<ShareEntry>, n: int)
    requires
        0 <= n <= entries.len(),
    ensures
        share_sum(entries.take(n)) <= share_sum(entries),
    decreases entries.len() - n,
{
    if n < entries.len() {
        lemma_share_sum_prefix(entries, n + 1);
        assert(entries.take(n + 1).drop_last() =~= entries.take(n));
    } else {
        assert(entries.take(n) =~= entries);
    }
}

/// The units that exist of the listed outcomes together, where every
/// listed outcome exists and the units fit the range of a supply.
pub(crate) fn sum_of_supplies(outcomes: &Vec<OutCome>, ids: &Vec<OutComeId>) -> (r: Option<Supply>)
    requires
        forall|k: int| 0 <= k < ids@.len() ==> #[trigger] ids@[k] < outcomes@.len(),
    ensures
        match r {
            Some(total) => total == supply_total(outcomes@, ids@, ids@.len() as int),
            None => supply_total(outcomes@, ids@, ids@.len() as int) > u64::MAX,
        },
{
    let mut total: Supply = 0;
    let mut k: usize = 0;
    while k < ids.len()
        invariant
            k <= ids.len(),
            forall|j: int| 0 <= j < ids@.len() ==> #[trigger] ids@[j] < outcomes@.len(),
            total == supply_total(outcomes@, ids@, k as int),
        decreases ids.len() - k,
    {
        let o = crate::ledger::slot(ids[k], outcomes.len());
        match total.checked_add(outcomes[o].total_supply) {
            Some(sum) => {
                total = sum;
            },
            None => {
                proof {
                    lemma_supply_total_monotone(outcomes@, ids@, k as int + 1, ids@.len() as int);
                }
                return None;
            },
        }
        k += 1;
    }
    Some(total)
}

impl PredictionMarket {
    /// Whether every table has one row for each identifier handed out so
    /// far.
    pub fn tables_are_aligned(&self) -> (r: bool)
        ensures
            r == self@.tables_aligned(),
    {
        self.events.len() as u64 == self.next_event_id && self.event_markets.len() as u64
            == self.next_event_id && self.event_to_outcomes.len() as u64 == self.next_event_id
            && self.outcomes.len() as u64 == self.next_outcome_id
            && self.market_outcomes.len() as u64 == self.next_outcome_id
            && self.outcome_to_funds.len() as u64 == self.next_outcome_id
            && self.investment_funds.len() as u64 == self.next_fund_id
            && self.fund_to_outcomes.len() as u64 == self.next_fund_id
            && self.fund_owner_to_shares.len() as u64 == self.next_fund_id
            && self.fund_to_trades.len() as u64 == self.next_fund_id && self.fund_trades.len() as u64
            == self.next_trade_id
    }

    /// Whether every record carries the identifier under which it is
    /// stored.
    pub(crate) fn ids_are_in_place(&self) -> (r: bool)
        requires
            self@.tables_aligned(),
        ensures
            r == self@.ids_in_place(),
    {
        let mut e: usize = 0;
        while e < self.events.len()
            invariant
                self@.tables_aligned(),
                e <= self.events.len(),
                forall|i: int| 0 <= i < e ==> (#[trigger] self@.events[i]).event_id == i,
                forall|i: int| 0 <= i < e ==> (#[trigger] self@.event_markets[i]).event_id == i,
            decreases self.events.len() - e,
        {
            if self.events[e].event_id != e as u64 || self.event_markets[e].event_id != e as u64 {
                assert(self@.events[e as int].event_id != e || self@.event_markets[e as int].event_id
                    != e);
                return false;
            }
            e += 1;
        }
        let mut o: usize = 0;
        while o < self.outcomes.len()
            invariant
                self@.tables_aligned(),
                o <= self.outcomes.len(),
                forall|i: int| 0 <= i < o ==> (#[trigger] self@.outcomes[i]).outcome_id == i,
                forall|i: int| 0 <= i < o ==> (#[trigger] self@.market_outcomes[i]).outcome_id == i,
            decreases self.outcomes.len() - o,
        {
            if self.outcomes[o].outcome_id != o as u64 || self.market_outcomes[o].outcome_id
                != o as u64 {
                assert(self@.outcomes[o as int].outcome_id != o
                    || self@.market_outcomes[o as int].outcome_id != o);
                return false;
            }
            o += 1;
        }
        let mut f: usize = 0;
        while f < self.investment_funds.len()
            invariant
                f <= self.investment_funds.len(),
                forall|i: int|
                    0 <= i < f ==> (#[trigger] self@.investment_funds[i]).investment_fund_id == i,
            decreases self.investment_funds.len() - f,
        {
            if self.investment_funds[f].investment_fund_id != f as u64 {
                assert(self@.investment_funds[f as int].investment_fund_id != f);
                return false;
            }
            f += 1;
        }
        let mut t: usize = 0;
        while t < self.fund_trades.len()
            invariant
                t <= self.fund_trades.len(),
                forall|i: int| 0 <= i < t ==> (#[trigger] self@.fund_trades[i]).trade_id == i,
            decreases self.fund_trades.len() - t,
        {
            if self.fund_trades[t].trade_id != t as u64 {
                assert(self@.fund_trades[t as int].trade_id != t);
                return false;
            }
            t += 1;
        }
        true
    }

    /// Whether every outcome belongs to an event that exists, and every
    /// event lists at least two outcomes, all its own, whose units together
    /// fit the range of a supply.
    pub(crate) fn outcomes_are_linked(&self) -> (r: bool)
        requires
            self@.tables_aligned(),
        ensures
            r == self@.outcomes_linked(),
    {
        let mut o: usize = 0;
        while o < self.outcomes.len()
            invariant
                self@.tables_aligned(),
                o <= self.outcomes.len(),
                forall|i: int|
                    0 <= i < o ==> (#[trigger] self@.outcomes[i]).event_id < self@.events.len(),
                forall|i: int|
                    0 <= i < o ==> (#[trigger] self@.market_outcomes[i]).event_id
                        == self@.outcomes[i].event_id,
            decreases self.outcomes.len() - o,
        {
            if self.outcomes[o].event_id >= self.next_event_id {
                assert(self@.outcomes[o as int].event_id >= self@.events.len());
                return false;
            }
            if self.market_outcomes[o].event_id != self.outcomes[o].event_id {
                assert(self@.market_outcomes[o as int].event_id != self@.outcomes[o as int].event_id);
                return false;
            }
            o += 1;
        }
        let mut e: usize = 0;
        while e < self.events.len()
            invariant
                self@.tables_aligned(),
                e <= self.events.len(),
                forall|i: int| 0 <= i < e ==> (#[trigger] self@.event_to_outcomes[i]).len() >= 2,
                forall|i: int, k: int|
                    0 <= i < e && 0 <= k < self@.event_to_outcomes[i].len() ==> {
                        &&& (#[trigger] self@.event_to_outcomes[i][k]) < self@.outcomes.len()
                        &&& self@.outcomes[self@.event_to_outcomes[i][k] as int].event_id == i
                    },
                forall|i: int|
                    0 <= i < e ==> supply_total(
                        self@.outcomes,
                        #[trigger] self@.event_to_outcomes[i],
                        self@.event_to_outcomes[i].len() as int,
                    ) <= u64::MAX,
            decreases self.events.len() - e,
        {
            let ids = &self.event_to_outcomes[e];
            assert(ids@ == self@.event_to_outcomes[e as int]);
            if ids.len() < 2 {
                assert(self@.event_to_outcomes[e as int].len() < 2);
                return false;
            }
            let mut k: usize = 0;
            while k < ids.len()
                invariant
                    self@.tables_aligned(),
                    e < self.events.len(),
                    ids@ == self@.event_to_outcomes[e as int],
                    k <= ids.len(),
                    forall|j: int|
                        0 <= j < k ==> {
                            &&& (#[trigger] ids@[j]) < self@.outcomes.len()
                            &&& self@.outcomes[ids@[j] as int].event_id == e
                        },
                decreases ids.len() - k,
            {
                if ids[k] >= self.next_outcome_id {
                    assert(self@.event_to_outcomes[e as int][k as int] >= self@.outcomes.len());
                    return false;
                }
                if self.outcomes[slot(ids[k], self.outcomes.len())].event_id != e as u64 {
                    assert(self@.outcomes[self@.event_to_outcomes[e as int][k as int] as int].event_id
                        != e);
                    return false;
                }
                k += 1;
            }
            if sum_of_supplies(&self.outcomes, ids).is_none() {
                assert(supply_total(
                    self@.outcomes,
                    self@.event_to_outcomes[e as int],
                    self@.event_to_outcomes[e as int].len() as int,
                ) > u64::MAX);
                return false;
            }
            e += 1;
        }
        true
    }

    /// Whether, of every outcome, the units still available and the units
    /// that funds have bought make up the units that exist.
    pub(crate) fn supply_is_conserved(&self) -> (r: bool)
        requires
            self@.tables_aligned(),
        ensures
            r == self@.supply_conserved(),
    {
        let mut o: usize = 0;
        while o < self.outcomes.len()
            invariant
                self@.tables_aligned(),
                o <= self.outcomes.len(),
                forall|i: int|
                    0 <= i < o ==> self@.market_outcomes[i].available_supply + ticket_sum(
                        #[trigger] self@.outcome_to_funds[i],
                    ) == self@.outcomes[i].total_supply,
            decreases self.outcomes.len() - o,
        {
            assert(self.outcome_to_funds@[o as int]@ == self@.outcome_to_funds[o as int]);
            let balanced = match sum_of_tickets(&self.outcome_to_funds[o]) {
                Some(bought) => match bought.checked_add(self.market_outcomes[o].available_supply) {
                    Some(all) => all == self.outcomes[o].total_supply,
                    None => false,
                },
                None => false,
            };
            if !balanced {
                assert(self@.market_outcomes[o as int].available_supply + ticket_sum(
                    self@.outcome_to_funds[o as int],
                ) != self@.outcomes[o as int].total_supply);
                return false;
            }
            o += 1;
        }
        true
    }

    /// Whether every ticket names a fund that exists and records at least
    /// one unit, and no outcome has two tickets of one fund.
    pub(crate) fn tickets_are_valid(&self) -> (r: bool)
        requires
            self@.tables_aligned(),
        ensures
            r == self@.tickets_valid(),
    {
        let mut o: usize = 0;
        while o < self.outcome_to_funds.len()
            invariant
                self@.tables_aligned(),
                o <= self.outcome_to_funds.len(),
                forall|i: int|
                    0 <= i < o ==> distinct_funds(#[trigger] self@.outcome_to_funds[i]),
                forall|i: int, k: int|
                    0 <= i < o && 0 <= k < self@.outcome_to_funds[i].len() ==> {
                        &&& (#[trigger] self@.outcome_to_funds[i][k]).fund_id
                            < self@.investment_funds.len()
                        &&& self@.outcome_to_funds[i][k].supply > 0
                    },
            decreases self.outcome_to_funds.len() - o,
        {
            let row = &self.outcome_to_funds[o];
            assert(row@ == self@.outcome_to_funds[o as int]);
            if !funds_are_distinct(row) {
                assert(!distinct_funds(self@.outcome_to_funds[o as int]));
                return false;
            }
            let mut k: usize = 0;
            while k < row.len()
                invariant
                    self@.tables_aligned(),
                    o < self.outcome_to_funds.len(),
                    row@ == self@.outcome_to_funds[o as int],
                    k <= row.len(),
                    forall|j: int|
                        0 <= j < k ==> {
                            &&& (#[trigger] row@[j]).fund_id < self@.investment_funds.len()
                            &&& row@[j].supply > 0
                        },
                decreases row.len() - k,
            {
                if row[k].fund_id >= self.next_fund_id || row[k].supply == 0 {
                    assert(self@.outcome_to_funds[o as int][k as int].fund_id
                        >= self@.investment_funds.len()
                        || self@.outcome_to_funds[o as int][k as int].supply == 0);
                    return false;
                }
                k += 1;
            }
            o += 1;
        }
        true
    }

    /// Whether a fund lists exactly the outcomes in which it holds a ticket,
    /// each once.
    pub(crate) fn fund_outcomes_are_valid(&self) -> (r: bool)
        requires
            self@.tables_aligned(),
            self@.tickets_valid(),
        ensures
            r == self@.fund_outcomes_valid(),
    {
        let mut f: usize = 0;
        while f < self.fund_to_outcomes.len()
            invariant
                self@.tables_aligned(),
                f <= self.fund_to_outcomes.len(),
                forall|i: int, k: int|
                    0 <= i < f && 0 <= k < self@.fund_to_outcomes[i].len() ==> {
                        &&& (#[trigger] self@.fund_to_outcomes[i][k]) < self@.outcome_to_funds.len()
                        &&& has_ticket(
                            self@.outcome_to_funds[self@.fund_to_outcomes[i][k] as int],
                            i as u64,
                        )
                    },
                forall|i: int|
                    0 <= i < f ==> (#[trigger] self@.fund_to_outcomes[i]).no_duplicates(),
            decreases self.fund_to_outcomes.len() - f,
        {
            let ids = &self.fund_to_outcomes[f];
            assert(ids@ == self@.fund_to_outcomes[f as int]);
            if !ids_are_distinct(ids) {
                assert(!self@.fund_to_outcomes[f as int].no_duplicates());
                return false;
            }
            let mut k: usize = 0;
            while k < ids.len()
                invariant
                    self@.tables_aligned(),
                    f < self.fund_to_outcomes.len(),
                    ids@ == self@.fund_to_outcomes[f as int],
                    k <= ids.len(),
                    forall|j: int|
                        0 <= j < k ==> {
                            &&& (#[trigger] ids@[j]) < self@.outcome_to_funds.len()
                            &&& has_ticket(self@.outcome_to_funds[ids@[j] as int], f as u64)
                        },
                decreases ids.len() - k,
            {
                if ids[k] >= self.next_outcome_id {
                    assert(self@.fund_to_outcomes[f as int][k as int]
                        >= self@.outcome_to_funds.len());
                    return false;
                }
                let o = slot(ids[k], self.outcome_to_funds.len());
                assert(self.outcome_to_funds@[o as int]@ == self@.outcome_to_funds[o as int]);
                if find_ticket(&self.outcome_to_funds[o], f as u64).is_none() {
                    assert(!has_ticket(
                        self@.outcome_to_funds[self@.fund_to_outcomes[f as int][k as int] as int],
                        f as u64,
                    ));
                    return false;
                }
                k += 1;
            }
            f += 1;
        }
        let mut o: usize = 0;
        while o < self.outcome_to_funds.len()
            invariant
                self@.tables_aligned(),
                self@.tickets_valid(),
                o <= self.outcome_to_funds.len(),
                forall|i: int, k: int|
                    0 <= i < o && 0 <= k < self@.outcome_to_funds[i].len()
                        ==> self@.fund_to_outcomes[(
                    #[trigger] self@.outcome_to_funds[i][k]).fund_id as int].contains(i as u64),
            decreases self.outcome_to_funds.len() - o,
        {
            let row = &self.outcome_to_funds[o];
            assert(row@ == self@.outcome_to_funds[o as int]);
            let mut k: usize = 0;
            while k < row.len()
                invariant
                    self@.tables_aligned(),
                    self@.tickets_valid(),
                    o < self.outcome_to_funds.len(),
                    row@ == self@.outcome_to_funds[o as int],
                    k <= row.len(),
                    forall|j: int|
                        0 <= j < k ==> self@.fund_to_outcomes[(#[trigger] row@[j]).fund_id as int].contains(
                        o as u64),
                decreases row.len() - k,
            {
                assert(self@.outcome_to_funds[o as int][k as int].fund_id
                    < self@.investment_funds.len());
                let g = slot(row[k].fund_id, self.fund_to_outcomes.len());
                assert(self.fund_to_outcomes@[g as int]@ == self@.fund_to_outcomes[g as int]);
                if !names_id(&self.fund_to_outcomes[g], o as u64) {
                    assert(!self@.fund_to_outcomes[self@.outcome_to_funds[o as int][k as int].fund_id as int].contains(
                    o as u64));
                    return false;
                }
                k += 1;
            }
            o += 1;
        }
        true
    }

    /// Whether every fund is cut into a positive multiple of the share unit.
    pub fn funds_are_valid(&self) -> (r: bool)
        ensures
            r == self@.funds_valid(),
    {
        let mut f: usize = 0;
        while f < self.investment_funds.len()
            invariant
                f <= self.investment_funds.len(),
                forall|i: int|
                    0 <= i < f ==> {
                        &&& (#[trigger] self@.investment_funds[i]).total_share >= MIN_FUND_SHARE
                        &&& self@.investment_funds[i].total_share % MIN_FUND_SHARE == 0
                    },
            decreases self.investment_funds.len() - f,
        {
            let total = self.investment_funds[f].total_share;
            if total < MIN_FUND_SHARE || total % MIN_FUND_SHARE != 0 {
                assert(self@.investment_funds[f as int].total_share < MIN_FUND_SHARE
                    || self@.investment_funds[f as int].total_share % MIN_FUND_SHARE != 0);
                return false;
            }
            f += 1;
        }
        true
    }

    /// Whether, of every fund, the shares of all owners together are the
    /// fund's shares, and the register names no owner twice.
    pub(crate) fn shares_are_conserved(&self) -> (r: bool)
        requires
            self@.tables_aligned(),
        ensures
            r == self@.shares_conserved(),
    {
        let mut f: usize = 0;
        while f < self.investment_funds.len()
            invariant
                self@.tables_aligned(),
                f <= self.investment_funds.len(),
                forall|i: int|
                    0 <= i < f ==> share_sum(#[trigger] self@.fund_owner_to_shares[i])
                        == self@.investment_funds[i].total_share,
                forall|i: int|
                    0 <= i < f ==> distinct_owners(#[trigger] self@.fund_owner_to_shares[i]),
            decreases self.investment_funds.len() - f,
        {
            let entries = &self.fund_owner_to_shares[f];
            assert(entries@ == self@.fund_owner_to_shares[f as int]);
            let balanced = match sum_of_shares(entries) {
                Some(total) => total == self.investment_funds[f].total_share,
                None => false,
            };
            if !balanced {
                assert(share_sum(self@.fund_owner_to_shares[f as int])
                    != self@.investment_funds[f as int].total_share);
                return false;
            }
            if !owners_are_distinct(entries) {
                assert(!distinct_owners(self@.fund_owner_to_shares[f as int]));
                return false;
            }
            f += 1;
        }
        true
    }

    /// Whether every proposal is on a fund that exists, every fund lists
    /// proposals made on it, and every principal's entry lists proposals
    /// that the principal made.
    pub(crate) fn trades_are_valid(&self) -> (r: bool)
        requires
            self@.tables_aligned(),
        ensures
            r == self@.trades_valid(),
    {
        let mut t: usize = 0;
        while t < self.fund_trades.len()
            invariant
                self@.tables_aligned(),
                t <= self.fund_trades.len(),
                forall|i: int|
                    0 <= i < t ==> (#[trigger] self@.fund_trades[i]).investment_fund_id
                        < self@.investment_funds.len(),
            decreases self.fund_trades.len() - t,
        {
            if self.fund_trades[t].investment_fund_id >= self.next_fund_id {
                assert(self@.fund_trades[t as int].investment_fund_id
                    >= self@.investment_funds.len());
                return false;
            }
            t += 1;
        }
        let mut f: usize = 0;
        while f < self.fund_to_trades.len()
            invariant
                self@.tables_aligned(),
                f <= self.fund_to_trades.len(),
                forall|i: int, k: int|
                    0 <= i < f && 0 <= k < self@.fund_to_trades[i].len() ==> {
                        &&& (#[trigger] self@.fund_to_trades[i][k]) < self@.fund_trades.len()
                        &&& self@.fund_trades[self@.fund_to_trades[i][k] as int].investment_fund_id
                            == i
                    },
            decreases self.fund_to_trades.len() - f,
        {
            let ids = &self.fund_to_trades[f];
            assert(ids@ == self@.fund_to_trades[f as int]);
            let mut k: usize = 0;
            while k < ids.len()
                invariant
                    self@.tables_aligned(),
                    f < self.fund_to_trades.len(),
                    ids@ == self@.fund_to_trades[f as int],
                    k <= ids.len(),
                    forall|j: int|
                        0 <= j < k ==> {
                            &&& (#[trigger] ids@[j]) < self@.fund_trades.len()
                            &&& self@.fund_trades[ids@[j] as int].investment_fund_id == f
                        },
                decreases ids.len() - k,
            {
                if ids[k] >= self.next_trade_id {
                    assert(self@.fund_to_trades[f as int][k as int] >= self@.fund_trades.len());
                    return false;
                }
                if self.fund_trades[slot(ids[k], self.fund_trades.len())].investment_fund_id
                    != f as u64 {
                    assert(self@.fund_trades[self@.fund_to_trades[f as int][k as int] as int].investment_fund_id
                        != f);
                    return false;
                }
                k += 1;
            }
            f += 1;
        }
        if !proponents_are_distinct(&self.proponent_to_trades) {
            return false;
        }
        let mut p: usize = 0;
        while p < self.proponent_to_trades.len()
            invariant
                self@.tables_aligned(),
                p <= self.proponent_to_trades.len(),
                forall|i: int, k: int|
                    0 <= i < p && 0 <= k < self@.proponent_to_trades[i].1.len() ==> {
                        &&& (#[trigger] self@.proponent_to_trades[i].1[k]) < self@.fund_trades.len()
                        &&& self@.fund_trades[self@.proponent_to_trades[i].1[k] as int].proponent
                            == self@.proponent_to_trades[i].0
                    },
            decreases self.proponent_to_trades.len() - p,
        {
            let entry = &self.proponent_to_trades[p];
            assert(entry.trades@ == self@.proponent_to_trades[p as int].1);
            assert(entry.proponent == self@.proponent_to_trades[p as int].0);
            let mut k: usize = 0;
            while k < entry.trades.len()
                invariant
                    self@.tables_aligned(),
                    p < self.proponent_to_trades.len(),
                    entry.trades@ == self@.proponent_to_trades[p as int].1,
                    entry.proponent == self@.proponent_to_trades[p as int].0,
                    k <= entry.trades.len(),
                    forall|j: int|
                        0 <= j < k ==> {
                            &&& (#[trigger] entry.trades@[j]) < self@.fund_trades.len()
                            &&& self@.fund_trades[entry.trades@[j] as int].proponent
                                == entry.proponent
                        },
                decreases entry.trades.len() - k,
            {
                if entry.trades[k] >= self.next_trade_id {
                    assert(self@.proponent_to_trades[p as int].1[k as int]
                        >= self@.fund_trades.len());
                    return false;
                }
                if self.fund_trades[slot(entry.trades[k], self.fund_trades.len())].proponent
                    != entry.proponent {
                    assert(self@.fund_trades[self@.proponent_to_trades[p as int].1[k as int] as int].proponent
                        != self@.proponent_to_trades[p as int].0);
                    return false;
                }
                k += 1;
            }
            p += 1;
        }
        true
    }

    /// Whether every market has a winner exactly when it is resolved, and
    /// the winner is an outcome of its event.
    pub(crate) fn markets_are_valid(&self) -> (r: bool)
        requires
            self@.tables_aligned(),
        ensures
            r == self@.markets_valid(),
    {
        let mut e: usize = 0;
        while e < self.event_markets.len()
            invariant
                self@.tables_aligned(),
                e <= self.event_markets.len(),
                forall|i: int|
                    0 <= i < e ==> {
                        &&& (#[trigger] self@.event_markets[i]).is_resolved
                            == self@.event_markets[i].winning_outcome.is_some()
                        &&& self@.event_markets[i].winning_outcome matches Some(w) ==> {
                            &&& w < self@.outcomes.len()
                            &&& self@.outcomes[w as int].event_id == i
                        }
                    },
            decreases self.event_markets.len() - e,
        {
            let market = self.event_markets[e];
            let sound = match market.winning_outcome {
                Some(w) => market.is_resolved && w < self.next_outcome_id && self.outcomes[slot(
                    w,
                    self.outcomes.len(),
                )].event_id == e as u64,
                None => !market.is_resolved,
            };
            if !sound {
                assert(!({
                    &&& self@.event_markets[e as int].is_resolved
                        == self@.event_markets[e as int].winning_outcome.is_some()
                    &&& self@.event_markets[e as int].winning_outcome matches Some(w) ==> {
                        &&& w < self@.outcomes.len()
                        &&& self@.outcomes[w as int].event_id == e
                    }
                }));
                return false;
            }
            e += 1;
        }
        true
    }

    /// Whether the ledger is well-formed, so that the operations may be
    /// called on it.
    pub fn is_well_formed(&self) -> (r: bool)
        ensures
            r == self@.wf(),
    {
        self.tables_are_aligned() && self.ids_are_in_place() && self.outcomes_are_linked()
            && self.supply_is_conserved() && self.tickets_are_valid()
            && self.fund_outcomes_are_valid() && self.funds_are_valid()
            && self.shares_are_conserved() && self.trades_are_valid() && self.markets_are_valid()
    }
}

} // verus!
