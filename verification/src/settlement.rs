//! Settlement: paying the funds that hold units of the winning outcome.

use crate::ledger::slot;
use crate::lemmas::{lemma_supply_of_absent, lemma_supply_of_at};
use crate::lemmas::lemma_supply_of_push;
use crate::model::{balance_sum, distinct_funds, has_ticket, held_by_first, supply_of, ticket_sum};
use crate::rules::{prize_total, settled_funds, settlement_fits};
use crate::types::{Balance, InvestmentFund, InvestmentFundId, Ticket};
use vstd::prelude::*;

verus! {

/// The prizes of a row are the units it records times the prize of one unit.
pub proof fn lemma_prize_total(row: Seq<Ticket>, per_supply: int)
    ensures
        prize_total(row, per_supply) == ticket_sum(row) * per_supply,
    decreases row.len(),
{
    if row.len() > 0 {
        lemma_prize_total(row.drop_last(), per_supply);
        let front = ticket_sum(row.drop_last()) as int;
        let last = row.last().supply as int;
        assert((front + last) * per_supply == front * per_supply + last * per_supply)
            by (nonlinear_arith);
    } else {
        assert(0 * per_supply == 0);
    }
}

/// Dividing a pool among the units bought never pays out more than the pool,
/// and what stays behind is the remainder of the division.
pub proof fn lemma_dust(pool: int, used: int)
    requires
        pool >= 0,
        used > 0,
    ensures
        0 <= used * (pool / used) <= pool,
        pool - used * (pool / used) == pool % used,
        0 <= pool / used,
{
    assert(0 <= used * (pool / used) <= pool && pool - used * (pool / used) == pool % used && 0
        <= pool / used) by (nonlinear_arith)
        requires
            pool >= 0,
            used > 0,
    ;
}

/// One more ticket adds its units to what the first `n` funds hold, if it
/// is a ticket of one of them.
pub proof fn lemma_held_by_first_push(row: Seq<Ticket>, t: Ticket, n: int)
    requires
        0 <= n <= u64::MAX,
    ensures
        held_by_first(row.push(t), n) == held_by_first(row, n) + if t.fund_id < n {
            t.supply as nat
        } else {
            0
        },
    decreases n,
{
    if n > 0 {
        lemma_held_by_first_push(row, t, n - 1);
        lemma_supply_of_push(row, t, (n - 1) as InvestmentFundId);
    }
}

/// Where every ticket of a row is of one of the first `n` funds, those funds
/// hold all the units that the row records.
pub proof fn lemma_held_by_all(row: Seq<Ticket>, n: int)
    requires
        0 <= n <= u64::MAX,
        forall|k: int| 0 <= k < row.len() ==> (#[trigger] row[k]).fund_id < n,
    ensures
        held_by_first(row, n) == ticket_sum(row),
    decreases row.len(),
{
    if row.len() == 0 {
        lemma_held_by_none(row, n);
    } else {
        let front = row.drop_last();
        assert forall|k: int| 0 <= k < front.len() implies (#[trigger] front[k]).fund_id < n by {
            assert(row[k].fund_id < n);
        }
        lemma_held_by_all(front, n);
        assert(row[row.len() - 1].fund_id < n);
        lemma_held_by_first_push(front, row.last(), n);
        assert(front.push(row.last()) =~= row);
    }
}

/// Nobody holds a unit according to a row without tickets.
pub proof fn lemma_held_by_none(row: Seq<Ticket>, n: int)
    requires
        row.len() == 0,
    ensures
        held_by_first(row, n) == 0,
    decreases n,
{
    if n > 0 {
        lemma_held_by_none(row, n - 1);
    }
}

/// Settlement adds to the balances of all funds together the prize of the
/// units that they hold.
pub proof fn lemma_settled_balance_sum(funds: Seq<InvestmentFund>, row: Seq<Ticket>, per_supply: int)
    requires
        funds.len() <= u64::MAX,
        per_supply >= 0,
        settlement_fits(funds, row, per_supply),
    ensures
        balance_sum(settled_funds(funds, row, per_supply)) == balance_sum(funds) + held_by_first(
            row,
            funds.len() as int,
        ) * per_supply,
    decreases funds.len(),
{
    let n = funds.len() as int;
    if n > 0 {
        let front = funds.drop_last();
        assert forall|f: int| 0 <= f < front.len() implies (#[trigger] front[f]).total_fund
            + supply_of(row, f as InvestmentFundId) * per_supply <= u128::MAX by {
            assert(funds[f].total_fund + supply_of(row, f as InvestmentFundId) * per_supply
                <= u128::MAX);
        }
        lemma_settled_balance_sum(front, row, per_supply);
        assert(settled_funds(funds, row, per_supply).drop_last() =~= settled_funds(
            front,
            row,
            per_supply,
        ));
        let held = supply_of(row, (n - 1) as InvestmentFundId) as int;
        let earlier = held_by_first(row, n - 1) as int;
        assert(funds[n - 1].total_fund + held * per_supply <= u128::MAX);
        assert(held * per_supply >= 0) by (nonlinear_arith)
            requires
                held >= 0,
                per_supply >= 0,
        ;
        assert((earlier + held) * per_supply == earlier * per_supply + held * per_supply)
            by (nonlinear_arith);
    } else {
        assert(0 * per_supply == 0);
    }
}

/// Whether every fund's balance can take the prize it is owed.
pub(crate) fn prizes_fit(funds: &Vec<InvestmentFund>, row: &Vec<Ticket>, per_supply: Balance) -> (r: bool)
    requires
        distinct_funds(row@),
        forall|k: int| 0 <= k < row@.len() ==> (#[trigger] row@[k]).fund_id < funds@.len(),
    ensures
        r == settlement_fits(funds@, row@, per_supply as int),
{
    let count = funds.len();
    let mut k: usize = 0;
    while k < row.len()
        invariant
            k <= row.len(),
            count == funds@.len(),
            distinct_funds(row@),
            forall|j: int| 0 <= j < row@.len() ==> (#[trigger] row@[j]).fund_id < funds@.len(),
            forall|j: int|
                0 <= j < k ==> funds@[(#[trigger] row@[j]).fund_id as int].total_fund
                    + row@[j].supply * per_supply <= u128::MAX,
        decreases row.len() - k,
    {
        let ticket = row[k];
        let f = slot(ticket.fund_id, funds.len());
        proof {
            lemma_supply_of_at(row@, k as int);
        }
        let fits = match (ticket.supply as u128).checked_mul(per_supply) {
            Some(prize) => funds[f].total_fund.checked_add(prize).is_some(),
            None => false,
        };
        if !fits {
            assert(funds@[f as int].total_fund + supply_of(row@, f as InvestmentFundId)
                * per_supply > u128::MAX);
            return false;
        }
        k += 1;
    }
    proof {
        assert forall|f: int| 0 <= f < funds@.len() implies (#[trigger] funds@[f]).total_fund
            + supply_of(row@, f as InvestmentFundId) * per_supply <= u128::MAX by {
            if has_ticket(row@, f as InvestmentFundId) {
                let j = choose|j: int|
                    0 <= j < row@.len() && #[trigger] row@[j].fund_id == f as InvestmentFundId;
                lemma_supply_of_at(row@, j);
                assert(funds@[row@[j].fund_id as int].total_fund + row@[j].supply * per_supply
                    <= u128::MAX);
            } else {
                lemma_supply_of_absent(row@, f as InvestmentFundId);
            }
        }
    }
    true
}

/// Pays every fund for the units it holds in a row, at `per_supply` a unit.
pub(crate) fn pay_prizes(funds: &mut Vec<InvestmentFund>, row: &Vec<Ticket>, per_supply: Balance)
    requires
        distinct_funds(row@),
        forall|k: int| 0 <= k < row@.len() ==> (#[trigger] row@[k]).fund_id < old(funds)@.len(),
        settlement_fits(old(funds)@, row@, per_supply as int),
    ensures
        final(funds)@ == settled_funds(old(funds)@, row@, per_supply as int),
{
    let ghost before = funds@;
    let ghost target = settled_funds(before, row@, per_supply as int);
    let mut k: usize = 0;
    while k < row.len()
        invariant
            k <= row.len(),
            distinct_funds(row@),
            before == old(funds)@,
            target == settled_funds(before, row@, per_supply as int),
            funds@.len() == before.len(),
            forall|j: int| 0 <= j < row@.len() ==> (#[trigger] row@[j]).fund_id < before.len(),
            settlement_fits(before, row@, per_supply as int),
            forall|f: int|
                0 <= f < before.len() ==> #[trigger] funds@[f] == if has_ticket(
                    row@.take(k as int),
                    f as InvestmentFundId,
                ) {
                    target[f]
                } else {
                    before[f]
                },
        decreases row.len() - k,
    {
        let ticket = row[k];
        let f = slot(ticket.fund_id, funds.len());
        let ghost seen = row@.take(k as int);
        proof {
            lemma_supply_of_at(row@, k as int);
            assert(!has_ticket(seen, ticket.fund_id)) by {
                if has_ticket(seen, ticket.fund_id) {
                    let j = choose|j: int|
                        0 <= j < seen.len() && #[trigger] seen[j].fund_id == ticket.fund_id;
                    assert(row@[j].fund_id != row@[k as int].fund_id);
                }
            }
            assert(funds@[f as int] == before[f as int]);
            assert(before[f as int].total_fund + supply_of(row@, f as InvestmentFundId)
                * per_supply <= u128::MAX);
            assert(ticket.supply * per_supply >= 0) by (nonlinear_arith)
                requires
                    ticket.supply >= 0,
                    per_supply >= 0,
            ;
        }
        let prize: Balance = (ticket.supply as u128) * per_supply;
        let balance = funds[f].total_fund;
        funds[f].total_fund = balance + prize;
        k += 1;
        proof {
            let now_seen = row@.take(k as int);
            assert(now_seen[k as int - 1].fund_id == ticket.fund_id);
            assert forall|g: int| 0 <= g < before.len() implies #[trigger] funds@[g] == if has_ticket(
                now_seen,
                g as InvestmentFundId,
            ) {
                target[g]
            } else {
                before[g]
            } by {
                if g == f as int {
                    assert(has_ticket(now_seen, g as InvestmentFundId));
                } else {
                    if has_ticket(seen, g as InvestmentFundId) {
                        let j = choose|j: int|
                            0 <= j < seen.len() && #[trigger] seen[j].fund_id
                                == g as InvestmentFundId;
                        assert(now_seen[j].fund_id == g as InvestmentFundId);
                    }
                    if has_ticket(now_seen, g as InvestmentFundId) {
                        let j = choose|j: int|
                            0 <= j < now_seen.len() && #[trigger] now_seen[j].fund_id
                                == g as InvestmentFundId;
                        assert(seen[j].fund_id == g as InvestmentFundId);
                    }
                }
            }
        }
    }
    proof {
        assert(row@.take(k as int) =~= row@);
        assert forall|f: int| 0 <= f < before.len() implies funds@[f] == target[f] by {
            if !has_ticket(row@, f as InvestmentFundId) {
                lemma_supply_of_absent(row@, f as InvestmentFundId);
            }
        }
        assert(funds@ =~= target);
    }
}

} // verus!
