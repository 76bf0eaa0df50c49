//! Funds: their creation, the movement of their shares, the bets that their
//! traders place, and the sale of shares by proposal and acceptance.

use crate::invariants::{
    lemma_bet_wf, lemma_create_fund_wf, lemma_create_proposal_wf, lemma_record_proposal_at,
    lemma_shares_moved_wf,
};
use crate::ledger::{
    find_proponent, find_share, find_ticket, owner_share, slot, Ledger, PredictionMarket,
};
use crate::lemmas::{
    lemma_trades_of_absent, lemma_trades_of_at,
    lemma_credit_at, lemma_debit_absent, lemma_debit_at, lemma_move_shares,
    lemma_record_ticket_at, lemma_share_of_absent, lemma_share_of_at, lemma_share_of_le_sum,
    lemma_ticket_le_sum, lemma_two_owners_le_sum,
};
use crate::model::{
    credit_shares, debit_shares, distinct_funds, distinct_owners, holds_majority, move_shares,
    share_of, share_sum, ticket_sum,
};
use crate::rules::{
    accept_proposal_error, accept_proposal_state, bet_error, bet_state, control_lost,
    create_fund_error, create_fund_state, create_proposal_error, create_proposal_state,
    shares_moved, transfer_share_error,
};
use crate::types::{
    AccountId, Balance, Error, FundMetadata, FundTrade, InvestmentFund, InvestmentFundId,
    MyEnvironment, OutCome, OutComeId, ProponentTrades, Share, ShareEntry, Supply, Ticket,
    Timestamp,
    TradeId, CONTROL_PERCENT, DEFAULT_DURATION, MIN_FUND_DEPOSIT, MIN_FUND_SHARE,
};
use vstd::prelude::*;

verus! {

/// A list of funds with their holdings, the holdings as sequences.
pub open spec fn listing_view(
    list: Seq<(InvestmentFund, Vec<(OutCome, Supply)>, Option<Share>)>,
) -> Seq<(InvestmentFund, Seq<(OutCome, Supply)>, Option<Share>)> {
    Seq::new(list.len(), |k: int| (list[k].0, list[k].1@, list[k].2))
}

/// Whether `share` out of `total` shares is a controlling stake.
pub(crate) fn has_control(share: Share, total: Share) -> (r: bool)
    requires
        total > 0,
    ensures
        r == holds_majority(share as int, total as int),
{
    (share as u128) * 100 / (total as u128) >= CONTROL_PERCENT as u128
}

/// Moves `amount` shares from one owner's entry to another's, adding an
/// entry for the receiver where there is none, and returns what the receiver
/// then holds.
pub(crate) fn move_entries(entries: &mut Vec<ShareEntry>, from: AccountId, to: AccountId, amount: Share) -> (held:
    Share)
    requires
        distinct_owners(old(entries)@),
        amount <= share_of(old(entries)@, from),
        share_sum(old(entries)@) <= u64::MAX,
    ensures
        final(entries)@ == move_shares(old(entries)@, from, to, amount),
        held == share_of(final(entries)@, to),
{
    let ghost before = entries@;
    match find_share(entries, from) {
        Some(i) => {
            proof {
                lemma_share_of_at(before, i as int);
                lemma_debit_at(before, i as int, amount);
            }
            let left: Share = entries[i].share - amount;
            entries[i].share = left;
            assert(entries@ =~= debit_shares(before, from, amount));
        },
        None => {
            proof {
                lemma_debit_absent(before, from, amount);
            }
        },
    }
    let ghost debited = entries@;
    proof {
        crate::lemmas::lemma_debit(before, from, amount);
        crate::lemmas::lemma_credit(debited, to, amount);
    }
    match find_share(entries, to) {
        Some(j) => {
            proof {
                lemma_share_of_at(debited, j as int);
                lemma_share_of_le_sum(debited, to);
                lemma_credit_at(debited, j as int, amount);
            }
            let held: Share = entries[j].share + amount;
            entries[j].share = held;
            assert(entries@ =~= credit_shares(debited, to, amount));
            held
        },
        None => {
            proof {
                lemma_share_of_absent(debited, to);
            }
            entries.push(ShareEntry { owner: to, share: amount });
            amount
        },
    }
}

impl PredictionMarket {
    /// A new fund under a given identifier.
    pub fn new_fund(
        investment_fund_id: InvestmentFundId,
        trader: AccountId,
        total_share: Share,
        total_fund: Balance,
        metadata: FundMetadata,
    ) -> (r: InvestmentFund)
        ensures
            r == (InvestmentFund { investment_fund_id, metadata, total_share, total_fund, trader }),
    {
        InvestmentFund { investment_fund_id, trader, total_fund, total_share, metadata }
    }

    /// A new, open proposal under a given identifier.
    pub fn new_trade(
        trade_id: TradeId,
        fund_id: InvestmentFundId,
        proponent: AccountId,
        proposed_person: Option<AccountId>,
        share: Share,
        price: Balance,
        close_time: Timestamp,
    ) -> (r: FundTrade)
        ensures
            r == (FundTrade {
                investment_fund_id: fund_id,
                trade_id,
                proponent,
                proposed_person,
                share,
                price,
                close_time,
                is_completed: false,
            }),
    {
        FundTrade {
            investment_fund_id: fund_id,
            trade_id,
            proponent,
            proposed_person,
            share,
            price,
            close_time,
            is_completed: false,
        }
    }

    /// Moves `amount` shares of a fund from `from` to `to` under the rule of
    /// control, and returns what the receiver then holds. Refuses, and
    /// changes nothing, where the giver holds less (`NotEnoughShare`) or the
    /// fund would be left without anybody in control
    /// (`TraderNotIdentitied`).
    pub(crate) fn move_between(
        &mut self,
        fund_id: InvestmentFundId,
        from: AccountId,
        to: AccountId,
        amount: Share,
    ) -> (r: Result<Share, Error>)
        requires
            old(self)@.wf(),
            fund_id < old(self)@.next_fund_id,
        ensures
            final(self)@.wf(),
            match r {
                Ok(held) => {
                    &&& amount <= share_of(old(self)@.fund_owner_to_shares[fund_id as int], from)
                    &&& !control_lost(old(self)@, fund_id, from, to, amount)
                    &&& final(self)@ == shares_moved(old(self)@, fund_id, from, to, amount)
                    &&& held == share_of(final(self)@.fund_owner_to_shares[fund_id as int], to)
                },
                Err(e) => {
                    &&& final(self)@ == old(self)@
                    &&& if amount > share_of(
                        old(self)@.fund_owner_to_shares[fund_id as int],
                        from,
                    ) {
                        e == Error::NotEnoughShare
                    } else {
                        e == Error::TraderNotIdentitied && control_lost(
                            old(self)@,
                            fund_id,
                            from,
                            to,
                            amount,
                        )
                    }
                },
            },
    {
        let f = slot(fund_id, self.investment_funds.len());
        let ghost before = self@;
        let ghost entries = before.fund_owner_to_shares[fund_id as int];
        assert(self.fund_owner_to_shares@[f as int]@ == entries);
        assert(distinct_owners(entries));
        assert(share_sum(entries) == before.investment_funds[fund_id as int].total_share);
        let held_from = owner_share(&self.fund_owner_to_shares[f], from);
        if amount > held_from {
            return Err(Error::NotEnoughShare);
        }
        let held_to = owner_share(&self.fund_owner_to_shares[f], to);
        let total = self.investment_funds[f].total_share;
        let trader = self.investment_funds[f].trader;
        proof {
            lemma_move_shares(entries, from, to, amount);
            if from != to {
                lemma_two_owners_le_sum(entries, from, to);
            }
        }
        let mut next_trader = trader;
        if from == trader {
            if has_control(amount, total) {
                next_trader = to;
            } else {
                let from_after: Share = if from == to {
                    held_from
                } else {
                    held_from - amount
                };
                let to_after: Share = if from == to {
                    held_to
                } else {
                    held_to + amount
                };
                if !has_control(from_after, total) && !has_control(to_after, total) {
                    return Err(Error::TraderNotIdentitied);
                }
            }
        }
        let held = move_entries(&mut self.fund_owner_to_shares[f], from, to, amount);
        self.investment_funds[f].trader = next_trader;
        proof {
            let after = shares_moved(before, fund_id, from, to, amount);
            assert(self@.investment_funds =~= after.investment_funds);
            assert(self@.fund_owner_to_shares =~= after.fund_owner_to_shares);
            assert(self@.event_to_outcomes =~= after.event_to_outcomes);
            assert(self@.outcome_to_funds =~= after.outcome_to_funds);
            assert(self@.fund_to_outcomes =~= after.fund_to_outcomes);
            assert(self@.fund_to_trades =~= after.fund_to_trades);
            assert(self@.proponent_to_trades =~= after.proponent_to_trades);
            assert(self@ == after);
            lemma_shares_moved_wf(before, fund_id, from, to, amount);
        }
        Ok(held)
    }
}

/// The operations on funds.
pub trait FundCore: Ledger {
    /// Creates a fund of `total_share` shares whose balance is the value
    /// sent along; the caller trades it and holds all its shares. Returns
    /// the fund's identifier.
    fn create_fund(&mut self, env: &MyEnvironment, total_share: Share, metadata: FundMetadata) -> (r:
        Result<InvestmentFundId, Error>)
        requires
            old(self).state().wf(),
        ensures
            final(self).state().wf(),
            match r {
                Ok(fund_id) => {
                    &&& create_fund_error(old(self).state(), *env, total_share) is None
                    &&& fund_id == old(self).state().next_fund_id
                    &&& final(self).state() == create_fund_state(old(self).state(), *env, total_share, metadata)
                },
                Err(e) => {
                    &&& create_fund_error(old(self).state(), *env, total_share) == Some(e)
                    &&& final(self).state() == old(self).state()
                },
            },
    ;

    /// Offers `amount` of the caller's shares of a fund for `price`, to
    /// `proposed_person` or to anybody, for `duration` or the default
    /// duration from now. Returns the proposal's identifier.
    fn create_proposal(
        &mut self,
        env: &MyEnvironment,
        fund_id: InvestmentFundId,
        amount: Share,
        price: Balance,
        duration: Option<Timestamp>,
        proposed_person: Option<AccountId>,
    ) -> (r: Result<TradeId, Error>)
        requires
            old(self).state().wf(),
        ensures
            final(self).state().wf(),
            match r {
                Ok(trade_id) => {
                    &&& create_proposal_error(old(self).state(), *env, fund_id, amount, duration) is None
                    &&& trade_id == old(self).state().next_trade_id
                    &&& final(self).state() == create_proposal_state(
                        old(self).state(),
                        *env,
                        fund_id,
                        amount,
                        price,
                        duration,
                        proposed_person,
                    )
                },
                Err(e) => {
                    &&& create_proposal_error(old(self).state(), *env, fund_id, amount, duration) == Some(
                        e,
                    )
                    &&& final(self).state() == old(self).state()
                },
            },
    ;

    /// Gives `amount` of the caller's shares of a fund to `recipient`, and
    /// returns the recipient with the shares it then holds.
    fn transfer_share(
        &mut self,
        env: &MyEnvironment,
        fund_id: InvestmentFundId,
        recipient: AccountId,
        amount: Share,
    ) -> (r: Result<(AccountId, Share), Error>)
        requires
            old(self).state().wf(),
        ensures
            final(self).state().wf(),
            match r {
                Ok(given) => {
                    &&& transfer_share_error(old(self).state(), *env, fund_id, recipient, amount) is None
                    &&& final(self).state() == shares_moved(
                        old(self).state(),
                        fund_id,
                        env.caller,
                        recipient,
                        amount,
                    )
                    &&& given.0 == recipient
                    &&& given.1 == share_of(
                        final(self).state().fund_owner_to_shares[fund_id as int],
                        recipient,
                    )
                },
                Err(e) => {
                    &&& transfer_share_error(old(self).state(), *env, fund_id, recipient, amount) == Some(
                        e,
                    )
                    &&& final(self).state() == old(self).state()
                },
            },
    ;

    /// Buys `supplies` units of an outcome for a fund, with the fund's
    /// money. Only the fund's trader may do so, and only before the event's
    /// resolve date.
    fn bet(
        &mut self,
        env: &MyEnvironment,
        outcome_id: OutComeId,
        fund_id: InvestmentFundId,
        supplies: Supply,
    ) -> (r: Result<(), Error>)
        requires
            old(self).state().wf(),
        ensures
            final(self).state().wf(),
            match r {
                Ok(()) => {
                    &&& bet_error(old(self).state(), *env, outcome_id, fund_id, supplies) is None
                    &&& final(self).state() == bet_state(old(self).state(), outcome_id, fund_id, supplies)
                },
                Err(e) => {
                    &&& bet_error(old(self).state(), *env, outcome_id, fund_id, supplies) == Some(e)
                    &&& final(self).state() == old(self).state()
                },
            },
    ;

    /// Accepts an open proposal: its shares go from the proponent to the
    /// caller.
    fn accept_proposal(&mut self, env: &MyEnvironment, trade_id: TradeId) -> (r: Result<(), Error>)
        requires
            old(self).state().wf(),
        ensures
            final(self).state().wf(),
            match r {
                Ok(()) => {
                    &&& accept_proposal_error(old(self).state(), *env, trade_id) is None
                    &&& final(self).state() == accept_proposal_state(old(self).state(), *env, trade_id)
                },
                Err(e) => {
                    &&& accept_proposal_error(old(self).state(), *env, trade_id) == Some(e)
                    &&& final(self).state() == old(self).state()
                },
            },
    ;

    /// Every fund with its holdings, in the order of creation. Where an
    /// owner is named, only the funds of which that owner holds a share, each
    /// with that share.
    fn get_funds(&self, owner: Option<AccountId>) -> (r: Result<
        Vec<(InvestmentFund, Vec<(OutCome, Supply)>, Option<Share>)>,
        Error,
    >)
        requires
            self.state().wf(),
        ensures
            r matches Ok(list) && listing_view(list@) == self.state().fund_listing(
                owner,
                self.state().next_fund_id as int,
            ),
    ;

    /// The shares of a fund that an owner holds.
    fn get_owner_share(&self, fund_id: InvestmentFundId, owner: AccountId) -> (r: Result<
        Share,
        Error,
    >)
        requires
            self.state().wf(),
        ensures
            match r {
                Ok(held) => fund_id < self.state().next_fund_id && held == share_of(
                    self.state().fund_owner_to_shares[fund_id as int],
                    owner,
                ),
                Err(e) => e == Error::FundNotFound && fund_id >= self.state().next_fund_id,
            },
    ;

    /// The proposals that a principal made, or all proposals where none is
    /// named, oldest first, each with its fund.
    fn get_proposals(&self, proponent: Option<AccountId>) -> (r: Result<
        Vec<(InvestmentFund, FundTrade)>,
        Error,
    >)
        requires
            self.state().wf(),
        ensures
            r matches Ok(list) && list@ == self.state().proposals(self.state().proposal_ids(proponent)),
    ;

    /// A fund with the proposals made on it, oldest first.
    fn get_fund_proposals(&self, fund_id: InvestmentFundId) -> (r: Result<
        (InvestmentFund, Vec<FundTrade>),
        Error,
    >)
        requires
            self.state().wf(),
        ensures
            match r {
                Ok(found) => {
                    &&& fund_id < self.state().next_fund_id
                    &&& found.0 == self.state().investment_funds[fund_id as int]
                    &&& found.1@ == self.state().fund_proposals(fund_id)
                },
                Err(e) => e == Error::FundNotFound && fund_id >= self.state().next_fund_id,
            },
    ;
}

impl FundCore for PredictionMarket {
    fn create_fund(&mut self, env: &MyEnvironment, total_share: Share, metadata: FundMetadata) -> (r:
        Result<InvestmentFundId, Error>)
    {
        let trader = env.caller();
        let total_fund = env.transferred_value();
        if total_share < 100 {
            return Err(Error::AtLeast100Share);
        }
        if total_share % MIN_FUND_SHARE != 0 {
            return Err(Error::NotDivisibleBy100);
        }
        if total_fund < MIN_FUND_DEPOSIT {
            return Err(Error::DepositTooLow);
        }
        if self.next_fund_id == u64::MAX {
            return Err(Error::SomethingWrong);
        }
        let ghost before = self@;
        let fund_id = self.next_fund_id;
        let new_fund = Self::new_fund(fund_id, trader, total_share, total_fund, metadata);
        let mut register: Vec<ShareEntry> = Vec::new();
        register.push(ShareEntry { owner: trader, share: total_share });
        self.next_fund_id = fund_id + 1;
        self.investment_funds.push(new_fund);
        self.fund_owner_to_shares.push(register);
        self.fund_to_outcomes.push(Vec::new());
        self.fund_to_trades.push(Vec::new());
        proof {
            let after = create_fund_state(before, *env, total_share, metadata);
            assert(self@.investment_funds =~= after.investment_funds);
            assert(self@.fund_owner_to_shares =~~= after.fund_owner_to_shares);
            assert(self@.fund_to_outcomes =~~= after.fund_to_outcomes);
            assert(self@.fund_to_trades =~~= after.fund_to_trades);
            assert(self@.event_to_outcomes =~= after.event_to_outcomes);
            assert(self@.outcome_to_funds =~= after.outcome_to_funds);
            assert(self@.proponent_to_trades =~= after.proponent_to_trades);
            assert(self@ == after);
            lemma_create_fund_wf(before, *env, total_share, metadata);
        }
        Ok(fund_id)
    }

    fn create_proposal(
        &mut self,
        env: &MyEnvironment,
        fund_id: InvestmentFundId,
        amount: Share,
        price: Balance,
        duration: Option<Timestamp>,
        proposed_person: Option<AccountId>,
    ) -> (r: Result<TradeId, Error>)
    {
        let caller = env.caller();
        if fund_id >= self.next_fund_id {
            return Err(Error::FundNotFound);
        }
        let f = slot(fund_id, self.investment_funds.len());
        let ghost before = self@;
        assert(self.fund_owner_to_shares@[f as int]@ == before.fund_owner_to_shares[fund_id as int]);
        assert(distinct_owners(before.fund_owner_to_shares[fund_id as int]));
        let caller_share = owner_share(&self.fund_owner_to_shares[f], caller);
        if caller_share < amount {
            return Err(Error::NotEnoughShare);
        }
        let open_for: Timestamp = match duration {
            Some(d) => d,
            None => DEFAULT_DURATION,
        };
        let close_time: Timestamp = match env.block_timestamp().checked_add(open_for) {
            Some(t) => t,
            None => {
                return Err(Error::SomethingWrong);
            },
        };
        if self.next_trade_id == u64::MAX {
            return Err(Error::SomethingWrong);
        }
        let trade_id = self.next_trade_id;
        let new_trade = Self::new_trade(
            trade_id,
            fund_id,
            caller,
            proposed_person,
            amount,
            price,
            close_time,
        );
        self.next_trade_id = trade_id + 1;
        self.fund_trades.push(new_trade);
        self.fund_to_trades[f].push(trade_id);
        match find_proponent(&self.proponent_to_trades, caller) {
            Some(i) => {
                proof {
                    lemma_record_proposal_at(before.proponent_to_trades, i as int, trade_id);
                }
                self.proponent_to_trades[i].trades.push(trade_id);
            },
            None => {
                let mut made: Vec<TradeId> = Vec::new();
                made.push(trade_id);
                self.proponent_to_trades.push(ProponentTrades { proponent: caller, trades: made });
            },
        }
        proof {
            let after = create_proposal_state(
                before,
                *env,
                fund_id,
                amount,
                price,
                duration,
                proposed_person,
            );
            assert(self@.fund_trades =~= after.fund_trades);
            assert(self@.fund_to_trades =~~= after.fund_to_trades);
            assert(self@.proponent_to_trades =~~= after.proponent_to_trades);
            assert(self@.event_to_outcomes =~= after.event_to_outcomes);
            assert(self@.outcome_to_funds =~= after.outcome_to_funds);
            assert(self@.fund_to_outcomes =~= after.fund_to_outcomes);
            assert(self@.fund_owner_to_shares =~= after.fund_owner_to_shares);
            assert(self@ == after);
            lemma_create_proposal_wf(before, *env, fund_id, amount, price, duration, proposed_person);
        }
        Ok(trade_id)
    }

    fn transfer_share(
        &mut self,
        env: &MyEnvironment,
        fund_id: InvestmentFundId,
        recipient: AccountId,
        amount: Share,
    ) -> (r: Result<(AccountId, Share), Error>)
    {
        if fund_id >= self.next_fund_id {
            return Err(Error::FundNotFound);
        }
        match self.move_between(fund_id, env.caller(), recipient, amount) {
            Ok(held) => Ok((recipient, held)),
            Err(e) => Err(e),
        }
    }

    fn bet(
        &mut self,
        env: &MyEnvironment,
        outcome_id: OutComeId,
        fund_id: InvestmentFundId,
        supplies: Supply,
    ) -> (r: Result<(), Error>)
    {
        if fund_id >= self.next_fund_id {
            return Err(Error::FundNotFound);
        }
        let f = slot(fund_id, self.investment_funds.len());
        if self.investment_funds[f].trader != env.caller() {
            return Err(Error::NotOwner);
        }
        if outcome_id >= self.next_outcome_id {
            return Err(Error::WrongEventOutCome);
        }
        let o = slot(outcome_id, self.outcomes.len());
        let event_id = self.outcomes[o].event_id;
        let e = slot(event_id, self.event_markets.len());
        let market = self.event_markets[e];
        if market.is_resolved || env.block_timestamp() >= market.resolve_date {
            return Err(Error::ResolveDateNotMatch);
        }
        let available = self.market_outcomes[o].available_supply;
        if supplies > available {
            return Err(Error::OutOfSupply);
        }
        if supplies == 0 {
            return Err(Error::MoreThanOneSupply);
        }
        let price = self.outcomes[o].deposit_per_supply;
        let cost: Balance = match (supplies as u128).checked_mul(price) {
            Some(c) => c,
            None => {
                return Err(Error::DepositTooLow);
            },
        };
        if env.transferred_value() < cost {
            return Err(Error::DepositTooLow);
        }
        let balance = self.investment_funds[f].total_fund;
        if balance < cost {
            return Err(Error::NotEnoughBalance);
        }
        let pool: Balance = match market.pool.checked_add(cost) {
            Some(p) => p,
            None => {
                return Err(Error::SomethingWrong);
            },
        };
        let ghost before = self@;
        let ghost row = before.outcome_to_funds[outcome_id as int];
        proof {
            assert(self.outcome_to_funds@[o as int]@ == row);
            assert(before.market_outcomes[outcome_id as int].available_supply + ticket_sum(row)
                == before.outcomes[outcome_id as int].total_supply);
            assert(distinct_funds(row));
        }
        self.market_outcomes[o].available_supply = available - supplies;
        self.investment_funds[f].total_fund = balance - cost;
        self.event_markets[e].pool = pool;
        match find_ticket(&self.outcome_to_funds[o], fund_id) {
            Some(i) => {
                proof {
                    lemma_ticket_le_sum(row, i as int);
                    lemma_record_ticket_at(row, i as int, supplies);
                }
                let held: Supply = self.outcome_to_funds[o][i].supply + supplies;
                self.outcome_to_funds[o][i].supply = held;
                assert(self.outcome_to_funds@[o as int]@ =~= crate::model::record_ticket(
                    row,
                    fund_id,
                    supplies,
                ));
            },
            None => {
                self.outcome_to_funds[o].push(Ticket { fund_id, supply: supplies });
                self.fund_to_outcomes[f].push(outcome_id);
            },
        }
        proof {
            let after = bet_state(before, outcome_id, fund_id, supplies);
            assert(self@.market_outcomes =~= after.market_outcomes);
            assert(self@.investment_funds =~= after.investment_funds);
            assert(self@.event_markets =~= after.event_markets);
            assert(self@.outcome_to_funds =~= after.outcome_to_funds);
            assert(self@.fund_to_outcomes =~= after.fund_to_outcomes);
            assert(self@.event_to_outcomes =~= after.event_to_outcomes);
            assert(self@.fund_owner_to_shares =~= after.fund_owner_to_shares);
            assert(self@.fund_to_trades =~= after.fund_to_trades);
            assert(self@.proponent_to_trades =~= after.proponent_to_trades);
            assert(self@ == after);
            lemma_bet_wf(before, *env, outcome_id, fund_id, supplies);
        }
        Ok(())
    }

    fn accept_proposal(&mut self, env: &MyEnvironment, trade_id: TradeId) -> (r: Result<(), Error>)
    {
        if trade_id >= self.next_trade_id {
            return Err(Error::TradeNotFound);
        }
        let t = slot(trade_id, self.fund_trades.len());
        let trade = self.fund_trades[t];
        let caller = env.caller();
        if trade.is_completed {
            return Err(Error::TradeNotAvailable);
        }
        if env.block_timestamp() > trade.close_time {
            return Err(Error::TimeExpired);
        }
        match trade.proposed_person {
            Some(person) => {
                if caller != person {
                    return Err(Error::NotOwner);
                }
            },
            None => {},
        }
        if env.transferred_value() < trade.price {
            return Err(Error::DepositTooLow);
        }
        let ghost before = self@;
        match self.move_between(trade.investment_fund_id, trade.proponent, caller, trade.share) {
            Ok(_) => {},
            Err(e) => {
                return Err(e);
            },
        }
        let ghost moved = self@;
        self.fund_trades[t].is_completed = true;
        proof {
            let after = accept_proposal_state(before, *env, trade_id);
            assert(self@.fund_trades =~= after.fund_trades);
            assert(self@ == after);
            assert(after.tables_aligned());
            assert(after.ids_in_place());
            assert(after.trades_valid());
        }
        Ok(())
    }

    fn get_funds(&self, owner: Option<AccountId>) -> (r: Result<
        Vec<(InvestmentFund, Vec<(OutCome, Supply)>, Option<Share>)>,
        Error,
    >)
    {
        let mut rs: Vec<(InvestmentFund, Vec<(OutCome, Supply)>, Option<Share>)> = Vec::new();
        let mut i: InvestmentFundId = 0;
        proof {
            assert(listing_view(rs@) =~= self@.fund_listing(owner, 0));
        }
        while i < self.next_fund_id
            invariant
                self@.wf(),
                i <= self.next_fund_id,
                listing_view(rs@) == self@.fund_listing(owner, i as int),
            decreases self.next_fund_id - i,
        {
            let fund = match self.get_fund_by_id(i) {
                Ok(found) => found,
                Err(e) => {
                    return Err(e);
                },
            };
            let fund_outcomes = match self.get_fund_outcomes(i) {
                Ok(found) => found,
                Err(e) => {
                    return Err(e);
                },
            };
            let ghost earlier = rs@;
            let f = slot(i, self.fund_owner_to_shares.len());
            assert(self.fund_owner_to_shares@[f as int]@ == self@.fund_owner_to_shares[i as int]);
            assert(distinct_owners(self@.fund_owner_to_shares[i as int]));
            match owner {
                Some(who) => {
                    let held = owner_share(&self.fund_owner_to_shares[f], who);
                    if held != 0 {
                        rs.push((fund, fund_outcomes, Some(held)));
                        assert(listing_view(rs@) =~= listing_view(earlier).push(
                            (fund, fund_outcomes@, Some(held)),
                        ));
                    }
                },
                None => {
                    rs.push((fund, fund_outcomes, None));
                    assert(listing_view(rs@) =~= listing_view(earlier).push(
                        (fund, fund_outcomes@, None::<Share>),
                    ));
                },
            }
            i += 1;
        }
        Ok(rs)
    }

    fn get_owner_share(&self, fund_id: InvestmentFundId, owner: AccountId) -> (r: Result<
        Share,
        Error,
    >)
    {
        if fund_id >= self.next_fund_id {
            return Err(Error::FundNotFound);
        }
        let f = slot(fund_id, self.fund_owner_to_shares.len());
        assert(self.fund_owner_to_shares@[f as int]@ == self@.fund_owner_to_shares[fund_id as int]);
        assert(distinct_owners(self@.fund_owner_to_shares[fund_id as int]));
        Ok(owner_share(&self.fund_owner_to_shares[f], owner))
    }

    fn get_proposals(&self, proponent: Option<AccountId>) -> (r: Result<
        Vec<(InvestmentFund, FundTrade)>,
        Error,
    >)
    {
        let mut rs: Vec<(InvestmentFund, FundTrade)> = Vec::new();
        match proponent {
            Some(who) => {
                match find_proponent(&self.proponent_to_trades, who) {
                    Some(i) => {
                        let ids = &self.proponent_to_trades[i].trades;
                        proof {
                            lemma_trades_of_at(self@.proponent_to_trades, i as int);
                            assert(ids@ == self@.proposal_ids(proponent));
                        }
                        let mut k: usize = 0;
                        while k < ids.len()
                            invariant
                                self@.wf(),
                                i < self.proponent_to_trades@.len(),
                                ids@ == self@.proponent_to_trades[i as int].1,
                                k <= ids.len(),
                                rs@.len() == k,
                                forall|j: int|
                                    0 <= j < k ==> #[trigger] rs@[j] == self@.proposals(ids@)[j],
                            decreases ids.len() - k,
                        {
                            assert(self@.proponent_to_trades[i as int].1[k as int]
                                < self@.fund_trades.len());
                            let trade = self.fund_trades[slot(ids[k], self.fund_trades.len())];
                            let fund = self.investment_funds[slot(
                                trade.investment_fund_id,
                                self.investment_funds.len(),
                            )].clone();
                            rs.push((fund, trade));
                            k += 1;
                        }
                        assert(rs@ =~= self@.proposals(ids@));
                    },
                    None => {
                        proof {
                            lemma_trades_of_absent(self@.proponent_to_trades, who);
                            assert(rs@ =~= self@.proposals(self@.proposal_ids(proponent)));
                        }
                    },
                }
            },
            None => {
                let mut t: TradeId = 0;
                while t < self.next_trade_id
                    invariant
                        self@.wf(),
                        t <= self.next_trade_id,
                        rs@.len() == t,
                        forall|j: int|
                            0 <= j < t ==> #[trigger] rs@[j] == self@.proposals(
                                self@.proposal_ids(None),
                            )[j],
                    decreases self.next_trade_id - t,
                {
                    let trade = self.fund_trades[slot(t, self.fund_trades.len())];
                    let fund = self.investment_funds[slot(
                        trade.investment_fund_id,
                        self.investment_funds.len(),
                    )].clone();
                    rs.push((fund, trade));
                    t += 1;
                }
                assert(rs@ =~= self@.proposals(self@.proposal_ids(None)));
            },
        }
        Ok(rs)
    }

    fn get_fund_proposals(&self, fund_id: InvestmentFundId) -> (r: Result<
        (InvestmentFund, Vec<FundTrade>),
        Error,
    >)
    {
        let fund = match self.get_fund_by_id(fund_id) {
            Ok(found) => found,
            Err(e) => {
                return Err(e);
            },
        };
        let ids = &self.fund_to_trades[slot(fund_id, self.fund_to_trades.len())];
        assert(ids@ == self@.fund_to_trades[fund_id as int]);
        let mut trades: Vec<FundTrade> = Vec::new();
        let mut k: usize = 0;
        while k < ids.len()
            invariant
                self@.wf(),
                fund_id < self@.next_fund_id,
                ids@ == self@.fund_to_trades[fund_id as int],
                k <= ids.len(),
                trades@.len() == k,
                forall|j: int| 0 <= j < k ==> #[trigger] trades@[j] == self@.fund_proposals(fund_id)[j],
            decreases ids.len() - k,
        {
            assert(self@.fund_to_trades[fund_id as int][k as int] < self@.fund_trades.len());
            match self.get_trade_by_id(ids[k]) {
                Ok(trade) => {
                    trades.push(trade);
                },
                Err(e) => {
                    return Err(e);
                },
            }
            k += 1;
        }
        assert(trades@ =~= self@.fund_proposals(fund_id));
        Ok((fund, trades))
    }
}

} // verus!
