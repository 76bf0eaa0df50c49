//! Facts about the sums and registers of the model, used by the proofs of
//! the operations.

use crate::model::{
    credit_shares, debit_shares, distinct_funds, distinct_owners, distinct_proponents, has_entry,
    has_proponent, has_ticket, move_shares, record_ticket, share_of, share_sum, supply_of,
    supply_total, ticket_sum, trades_of,
};
use crate::types::{
    AccountId, InvestmentFundId, OutCome, OutComeId, Share, ShareEntry, Supply, Ticket, TradeId,
};
use vstd::prelude::*;

verus! {

/// A ticket added at the end adds its units to the units of the row.
pub proof fn lemma_ticket_sum_push(row: Seq<Ticket>, t: Ticket)
    ensures
        ticket_sum(row.push(t)) == ticket_sum(row) + t.supply,
{
    assert(row.push(t).drop_last() =~= row);
}

/// A ticket put in the place of another changes the units of the row by the
/// difference of the two.
pub proof fn lemma_ticket_sum_update(row: Seq<Ticket>, i: int, t: Ticket)
    requires
        0 <= i < row.len(),
    ensures
        ticket_sum(row.update(i, t)) == ticket_sum(row) - row[i].supply + t.supply,
    decreases row.len(),
{
    if i == row.len() - 1 {
        assert(row.update(i, t).drop_last() =~= row.drop_last());
    } else {
        lemma_ticket_sum_update(row.drop_last(), i, t);
        assert(row.update(i, t).drop_last() =~= row.drop_last().update(i, t));
    }
}

/// A ticket added at the end adds its units to the holding of its fund, and to
/// no other fund's.
pub proof fn lemma_supply_of_push(row: Seq<Ticket>, t: Ticket, fund: InvestmentFundId)
    ensures
        supply_of(row.push(t), fund) == supply_of(row, fund) + if t.fund_id == fund {
            t.supply as nat
        } else {
            0
        },
{
    assert(row.push(t).drop_last() =~= row);
}

/// A fund without a ticket in a row holds no unit of it.
pub proof fn lemma_supply_of_absent(row: Seq<Ticket>, fund: InvestmentFundId)
    requires
        !has_ticket(row, fund),
    ensures
        supply_of(row, fund) == 0,
    decreases row.len(),
{
    if row.len() > 0 {
        assert(row[row.len() - 1].fund_id != fund);
        assert forall|k: int| 0 <= k < row.drop_last().len() implies #[trigger] row.drop_last()[k].fund_id
            != fund by {
            assert(row[k].fund_id != fund);
        }
        lemma_supply_of_absent(row.drop_last(), fund);
    }
}

/// Where the funds of a row are distinct, a fund holds what its one ticket
/// records.
pub proof fn lemma_supply_of_at(row: Seq<Ticket>, i: int)
    requires
        distinct_funds(row),
        0 <= i < row.len(),
    ensures
        supply_of(row, row[i].fund_id) == row[i].supply,
    decreases row.len(),
{
    let fund = row[i].fund_id;
    let front = row.drop_last();
    if i == row.len() - 1 {
        assert forall|k: int| 0 <= k < front.len() implies #[trigger] front[k].fund_id != fund by {
            assert(row[k].fund_id != row[i].fund_id);
        }
        lemma_supply_of_absent(front, fund);
    } else {
        assert(row[i].fund_id != row[row.len() - 1].fund_id);
        assert forall|a: int, b: int| 0 <= a < b < front.len() implies (#[trigger] front[a]).fund_id != (
        #[trigger] front[b]).fund_id by {
            assert(row[a].fund_id != row[b].fund_id);
        }
        lemma_supply_of_at(front, i);
    }
}

/// A fund holds no more units than the row records.
pub proof fn lemma_supply_of_le_sum(row: Seq<Ticket>, fund: InvestmentFundId)
    ensures
        supply_of(row, fund) <= ticket_sum(row),
    decreases row.len(),
{
    if row.len() > 0 {
        lemma_supply_of_le_sum(row.drop_last(), fund);
    }
}

/// A ticket records no more units than its row.
pub proof fn lemma_ticket_le_sum(row: Seq<Ticket>, i: int)
    requires
        0 <= i < row.len(),
    ensures
        row[i].supply <= ticket_sum(row),
    decreases row.len(),
{
    if i < row.len() - 1 {
        lemma_ticket_le_sum(row.drop_last(), i);
    }
}

/// A ticket put in the place of another of the same fund changes the holding
/// of that fund by the difference of the two, and no other fund's.
pub proof fn lemma_supply_of_update(row: Seq<Ticket>, i: int, t: Ticket, fund: InvestmentFundId)
    requires
        0 <= i < row.len(),
        t.fund_id == row[i].fund_id,
    ensures
        supply_of(row.update(i, t), fund) == supply_of(row, fund) + if t.fund_id == fund {
            t.supply - row[i].supply
        } else {
            0
        },
    decreases row.len(),
{
    if i == row.len() - 1 {
        assert(row.update(i, t).drop_last() =~= row.drop_last());
    } else {
        lemma_supply_of_update(row.drop_last(), i, t, fund);
        assert(row.update(i, t).drop_last() =~= row.drop_last().update(i, t));
    }
}

/// Where a fund has its one ticket at `i`, recording more units changes that
/// ticket and nothing else.
pub proof fn lemma_record_ticket_at(row: Seq<Ticket>, i: int, units: Supply)
    requires
        distinct_funds(row),
        0 <= i < row.len(),
    ensures
        record_ticket(row, row[i].fund_id, units) == row.update(
            i,
            Ticket { fund_id: row[i].fund_id, supply: (row[i].supply + units) as Supply },
        ),
{
    let fund = row[i].fund_id;
    assert(has_ticket(row, fund));
    let target = row.update(i, Ticket { fund_id: fund, supply: (row[i].supply + units) as Supply });
    assert forall|k: int| 0 <= k < row.len() implies #[trigger] record_ticket(row, fund, units)[k]
        == target[k] by {
        if k != i {
            if k < i {
                assert(row[k].fund_id != row[i].fund_id);
            } else {
                assert(row[i].fund_id != row[k].fund_id);
            }
        }
    }
    assert(record_ticket(row, fund, units) =~= target);
}

/// What recording `units` more for `fund` does to a row whose funds are
/// distinct: they stay distinct, the fund's units and the row's units grow by
/// `units`, and no other fund's units change.
pub proof fn lemma_record_ticket(row: Seq<Ticket>, fund: InvestmentFundId, units: Supply)
    requires
        distinct_funds(row),
        ticket_sum(row) + units <= u64::MAX,
    ensures
        distinct_funds(record_ticket(row, fund, units)),
        has_ticket(record_ticket(row, fund, units), fund),
        ticket_sum(record_ticket(row, fund, units)) == ticket_sum(row) + units,
        supply_of(record_ticket(row, fund, units), fund) == supply_of(row, fund) + units,
        forall|g: InvestmentFundId|
            g != fund ==> supply_of(record_ticket(row, fund, units), g) == supply_of(row, g),
        forall|g: InvestmentFundId|
            g != fund ==> has_ticket(record_ticket(row, fund, units), g) == has_ticket(row, g),
{
    let after = record_ticket(row, fund, units);
    if has_ticket(row, fund) {
        let i = choose|k: int| 0 <= k < row.len() && #[trigger] row[k].fund_id == fund;
        let t = Ticket { fund_id: fund, supply: (row[i].supply + units) as Supply };
        lemma_record_ticket_at(row, i, units);
        lemma_ticket_le_sum(row, i);
        lemma_ticket_sum_update(row, i, t);
        lemma_supply_of_update(row, i, t, fund);
        assert(after[i].fund_id == fund);
        assert forall|g: InvestmentFundId| g != fund implies supply_of(after, g) == supply_of(
            row,
            g,
        ) by {
            lemma_supply_of_update(row, i, t, g);
        }
        assert forall|g: InvestmentFundId| g != fund implies has_ticket(after, g) == has_ticket(
            row,
            g,
        ) by {
            if has_ticket(row, g) {
                let k = choose|k: int| 0 <= k < row.len() && #[trigger] row[k].fund_id == g;
                assert(after[k].fund_id == g);
            }
            if has_ticket(after, g) {
                let k = choose|k: int| 0 <= k < after.len() && #[trigger] after[k].fund_id == g;
                assert(row[k].fund_id == g);
            }
        }
        assert forall|a: int, b: int| 0 <= a < b < after.len() implies (#[trigger] after[a]).fund_id != (
        #[trigger] after[b]).fund_id by {
            assert(row[a].fund_id != row[b].fund_id);
        }
    } else {
        let t = Ticket { fund_id: fund, supply: units };
        lemma_ticket_sum_push(row, t);
        lemma_supply_of_push(row, t, fund);
        assert(after[row.len() as int].fund_id == fund);
        assert forall|g: InvestmentFundId| g != fund implies supply_of(after, g) == supply_of(
            row,
            g,
        ) by {
            lemma_supply_of_push(row, t, g);
        }
        assert forall|g: InvestmentFundId| g != fund implies has_ticket(after, g) == has_ticket(
            row,
            g,
        ) by {
            if has_ticket(row, g) {
                let k = choose|k: int| 0 <= k < row.len() && #[trigger] row[k].fund_id == g;
                assert(after[k].fund_id == g);
            }
            if has_ticket(after, g) {
                let k = choose|k: int| 0 <= k < after.len() && #[trigger] after[k].fund_id == g;
                assert(row[k].fund_id == g);
            }
        }
        assert forall|a: int, b: int| 0 <= a < b < after.len() implies (#[trigger] after[a]).fund_id != (
        #[trigger] after[b]).fund_id by {
            if b < row.len() {
                assert(row[a].fund_id != row[b].fund_id);
            } else {
                assert(row[a].fund_id != fund);
            }
        }
    }
}

/// An entry added at the end adds its shares to the shares of the register.
pub proof fn lemma_share_sum_push(entries: Seq<ShareEntry>, e: ShareEntry)
    ensures
        share_sum(entries.push(e)) == share_sum(entries) + e.share,
{
    assert(entries.push(e).drop_last() =~= entries);
}

/// An entry put in the place of another changes the shares of the register by
/// the difference of the two.
pub proof fn lemma_share_sum_update(entries: Seq<ShareEntry>, i: int, e: ShareEntry)
    requires
        0 <= i < entries.len(),
    ensures
        share_sum(entries.update(i, e)) == share_sum(entries) - entries[i].share + e.share,
    decreases entries.len(),
{
    if i == entries.len() - 1 {
        assert(entries.update(i, e).drop_last() =~= entries.drop_last());
    } else {
        lemma_share_sum_update(entries.drop_last(), i, e);
        assert(entries.update(i, e).drop_last() =~= entries.drop_last().update(i, e));
    }
}

/// An entry added at the end adds its shares to the holding of its owner, and
/// to nobody else's.
pub proof fn lemma_share_of_push(entries: Seq<ShareEntry>, e: ShareEntry, owner: AccountId)
    ensures
        share_of(entries.push(e), owner) == share_of(entries, owner) + if e.owner == owner {
            e.share as nat
        } else {
            0
        },
{
    assert(entries.push(e).drop_last() =~= entries);
}

/// An owner without an entry in a register holds no share.
pub proof fn lemma_share_of_absent(entries: Seq<ShareEntry>, owner: AccountId)
    requires
        !has_entry(entries, owner),
    ensures
        share_of(entries, owner) == 0,
    decreases entries.len(),
{
    if entries.len() > 0 {
        assert(entries[entries.len() - 1].owner != owner);
        assert forall|k: int| 0 <= k < entries.drop_last().len() implies #[trigger] entries.drop_last()[k].owner
            != owner by {
            assert(entries[k].owner != owner);
        }
        lemma_share_of_absent(entries.drop_last(), owner);
    }
}

/// Where the owners of a register are distinct, an owner holds what its one
/// entry records.
pub proof fn lemma_share_of_at(entries: Seq<ShareEntry>, i: int)
    requires
        distinct_owners(entries),
        0 <= i < entries.len(),
    ensures
        share_of(entries, entries[i].owner) == entries[i].share,
    decreases entries.len(),
{
    let owner = entries[i].owner;
    let front = entries.drop_last();
    if i == entries.len() - 1 {
        assert forall|k: int| 0 <= k < front.len() implies #[trigger] front[k].owner != owner by {
            assert(entries[k].owner != entries[i].owner);
        }
        lemma_share_of_absent(front, owner);
    } else {
        assert(entries[i].owner != entries[entries.len() - 1].owner);
        assert forall|a: int, b: int| 0 <= a < b < front.len() implies (#[trigger] front[a]).owner != (
        #[trigger] front[b]).owner by {
            assert(entries[a].owner != entries[b].owner);
        }
        lemma_share_of_at(front, i);
    }
}

/// An owner holds no more shares than the register records.
pub proof fn lemma_share_of_le_sum(entries: Seq<ShareEntry>, owner: AccountId)
    ensures
        share_of(entries, owner) <= share_sum(entries),
    decreases entries.len(),
{
    if entries.len() > 0 {
        lemma_share_of_le_sum(entries.drop_last(), owner);
    }
}

/// Two different owners hold no more than all the shares between them.
pub proof fn lemma_two_owners_le_sum(entries: Seq<ShareEntry>, a: AccountId, b: AccountId)
    requires
        a != b,
    ensures
        share_of(entries, a) + share_of(entries, b) <= share_sum(entries),
    decreases entries.len(),
{
    if entries.len() > 0 {
        lemma_two_owners_le_sum(entries.drop_last(), a, b);
    }
}

/// An entry put in the place of another of the same owner changes the holding
/// of that owner by the difference of the two, and nobody else's.
pub proof fn lemma_share_of_update(
    entries: Seq<ShareEntry>,
    i: int,
    e: ShareEntry,
    owner: AccountId,
)
    requires
        0 <= i < entries.len(),
        e.owner == entries[i].owner,
    ensures
        share_of(entries.update(i, e), owner) == share_of(entries, owner) + if e.owner == owner {
            e.share - entries[i].share
        } else {
            0
        },
    decreases entries.len(),
{
    if i == entries.len() - 1 {
        assert(entries.update(i, e).drop_last() =~= entries.drop_last());
    } else {
        lemma_share_of_update(entries.drop_last(), i, e, owner);
        assert(entries.update(i, e).drop_last() =~= entries.drop_last().update(i, e));
    }
}

/// Where an owner has its one entry at `i`, a debit changes that entry and
/// nothing else.
pub proof fn lemma_debit_at(entries: Seq<ShareEntry>, i: int, amount: Share)
    requires
        distinct_owners(entries),
        0 <= i < entries.len(),
    ensures
        debit_shares(entries, entries[i].owner, amount) == entries.update(
            i,
            ShareEntry { owner: entries[i].owner, share: (entries[i].share - amount) as Share },
        ),
{
    let owner = entries[i].owner;
    let target = entries.update(
        i,
        ShareEntry { owner, share: (entries[i].share - amount) as Share },
    );
    assert forall|k: int| 0 <= k < entries.len() implies #[trigger] debit_shares(
        entries,
        owner,
        amount,
    )[k] == target[k] by {
        if k < i {
            assert(entries[k].owner != entries[i].owner);
        } else if k > i {
            assert(entries[i].owner != entries[k].owner);
        }
    }
    assert(debit_shares(entries, owner, amount) =~= target);
}

/// Where an owner has no entry, a debit changes nothing.
pub proof fn lemma_debit_absent(entries: Seq<ShareEntry>, owner: AccountId, amount: Share)
    requires
        !has_entry(entries, owner),
    ensures
        debit_shares(entries, owner, amount) == entries,
{
    assert forall|k: int| 0 <= k < entries.len() implies #[trigger] debit_shares(
        entries,
        owner,
        amount,
    )[k] == entries[k] by {
        assert(entries[k].owner != owner);
    }
    assert(debit_shares(entries, owner, amount) =~= entries);
}

/// Where an owner has its one entry at `i`, a credit changes that entry and
/// nothing else.
pub proof fn lemma_credit_at(entries: Seq<ShareEntry>, i: int, amount: Share)
    requires
        distinct_owners(entries),
        0 <= i < entries.len(),
    ensures
        credit_shares(entries, entries[i].owner, amount) == entries.update(
            i,
            ShareEntry { owner: entries[i].owner, share: (entries[i].share + amount) as Share },
        ),
{
    let owner = entries[i].owner;
    assert(has_entry(entries, owner));
    let target = entries.update(
        i,
        ShareEntry { owner, share: (entries[i].share + amount) as Share },
    );
    assert forall|k: int| 0 <= k < entries.len() implies #[trigger] credit_shares(
        entries,
        owner,
        amount,
    )[k] == target[k] by {
        if k < i {
            assert(entries[k].owner != entries[i].owner);
        } else if k > i {
            assert(entries[i].owner != entries[k].owner);
        }
    }
    assert(credit_shares(entries, owner, amount) =~= target);
}

/// What a debit does to a register whose owners are distinct, where the owner
/// holds at least `amount`.
pub proof fn lemma_debit(entries: Seq<ShareEntry>, owner: AccountId, amount: Share)
    requires
        distinct_owners(entries),
        amount <= share_of(entries, owner),
    ensures
        distinct_owners(debit_shares(entries, owner, amount)),
        share_sum(debit_shares(entries, owner, amount)) == share_sum(entries) - amount,
        share_of(debit_shares(entries, owner, amount), owner) == share_of(entries, owner) - amount,
        forall|other: AccountId|
            other != owner ==> share_of(debit_shares(entries, owner, amount), other) == share_of(
                entries,
                other,
            ),
        forall|other: AccountId|
            has_entry(debit_shares(entries, owner, amount), other) == has_entry(entries, other),
{
    let after = debit_shares(entries, owner, amount);
    assert forall|other: AccountId| has_entry(after, other) == has_entry(entries, other) by {
        if has_entry(entries, other) {
            let k = choose|k: int| 0 <= k < entries.len() && #[trigger] entries[k].owner == other;
            assert(after[k].owner == other);
        }
        if has_entry(after, other) {
            let k = choose|k: int| 0 <= k < after.len() && #[trigger] after[k].owner == other;
            assert(entries[k].owner == other);
        }
    }
    assert forall|a: int, b: int| 0 <= a < b < after.len() implies (#[trigger] after[a]).owner != (
    #[trigger] after[b]).owner by {
        assert(entries[a].owner != entries[b].owner);
    }
    if has_entry(entries, owner) {
        let i = choose|k: int| 0 <= k < entries.len() && #[trigger] entries[k].owner == owner;
        let e = ShareEntry { owner, share: (entries[i].share - amount) as Share };
        lemma_debit_at(entries, i, amount);
        lemma_share_of_at(entries, i);
        lemma_share_sum_update(entries, i, e);
        lemma_share_of_update(entries, i, e, owner);
        assert forall|other: AccountId| other != owner implies share_of(after, other) == share_of(
            entries,
            other,
        ) by {
            lemma_share_of_update(entries, i, e, other);
        }
    } else {
        lemma_share_of_absent(entries, owner);
        lemma_debit_absent(entries, owner, amount);
    }
}

/// What a credit does to a register whose owners are distinct, where the
/// shares still fit after it.
pub proof fn lemma_credit(entries: Seq<ShareEntry>, owner: AccountId, amount: Share)
    requires
        distinct_owners(entries),
        share_sum(entries) + amount <= u64::MAX,
    ensures
        distinct_owners(credit_shares(entries, owner, amount)),
        share_sum(credit_shares(entries, owner, amount)) == share_sum(entries) + amount,
        share_of(credit_shares(entries, owner, amount), owner) == share_of(entries, owner) + amount,
        forall|other: AccountId|
            other != owner ==> share_of(credit_shares(entries, owner, amount), other) == share_of(
                entries,
                other,
            ),
{
    let after = credit_shares(entries, owner, amount);
    if has_entry(entries, owner) {
        let i = choose|k: int| 0 <= k < entries.len() && #[trigger] entries[k].owner == owner;
        let e = ShareEntry { owner, share: (entries[i].share + amount) as Share };
        lemma_credit_at(entries, i, amount);
        lemma_share_of_at(entries, i);
        lemma_share_of_le_sum(entries, owner);
        lemma_share_sum_update(entries, i, e);
        lemma_share_of_update(entries, i, e, owner);
        assert forall|other: AccountId| other != owner implies share_of(after, other) == share_of(
            entries,
            other,
        ) by {
            lemma_share_of_update(entries, i, e, other);
        }
        assert forall|a: int, b: int| 0 <= a < b < after.len() implies (#[trigger] after[a]).owner != (
        #[trigger] after[b]).owner by {
            assert(entries[a].owner != entries[b].owner);
        }
    } else {
        let e = ShareEntry { owner, share: amount };
        lemma_share_sum_push(entries, e);
        lemma_share_of_push(entries, e, owner);
        lemma_share_of_absent(entries, owner);
        assert forall|other: AccountId| other != owner implies share_of(after, other) == share_of(
            entries,
            other,
        ) by {
            lemma_share_of_push(entries, e, other);
        }
        assert forall|a: int, b: int| 0 <= a < b < after.len() implies (#[trigger] after[a]).owner != (
        #[trigger] after[b]).owner by {
            if b < entries.len() {
                assert(entries[a].owner != entries[b].owner);
            } else {
                assert(entries[a].owner != owner);
            }
        }
    }
}

/// What moving `amount` shares from one owner to another does to a register
/// whose owners are distinct, where the giver holds at least `amount`: the
/// owners stay distinct, no share is made or lost, and only the two owners'
/// holdings change. Giving to oneself changes no holding.
pub proof fn lemma_move_shares(
    entries: Seq<ShareEntry>,
    from: AccountId,
    to: AccountId,
    amount: Share,
)
    requires
        distinct_owners(entries),
        amount <= share_of(entries, from),
        share_sum(entries) <= u64::MAX,
    ensures
        distinct_owners(move_shares(entries, from, to, amount)),
        share_sum(move_shares(entries, from, to, amount)) == share_sum(entries),
        from != to ==> share_of(move_shares(entries, from, to, amount), from) == share_of(
            entries,
            from,
        ) - amount,
        from != to ==> share_of(move_shares(entries, from, to, amount), to) == share_of(
            entries,
            to,
        ) + amount,
        from == to ==> share_of(move_shares(entries, from, to, amount), to) == share_of(
            entries,
            to,
        ),
        forall|other: AccountId|
            other != from && other != to ==> share_of(
                move_shares(entries, from, to, amount),
                other,
            ) == share_of(entries, other),
{
    lemma_debit(entries, from, amount);
    lemma_credit(debit_shares(entries, from, amount), to, amount);
}

/// A principal without an entry in the index has made no proposal.
pub proof fn lemma_trades_of_absent(index: Seq<(AccountId, Seq<TradeId>)>, who: AccountId)
    requires
        !has_proponent(index, who),
    ensures
        trades_of(index, who) == Seq::<TradeId>::empty(),
    decreases index.len(),
{
    if index.len() > 0 {
        assert(index[index.len() - 1].0 != who);
        assert forall|k: int| 0 <= k < index.drop_last().len() implies (
        #[trigger] index.drop_last()[k]).0 != who by {
            assert(index[k].0 != who);
        }
        lemma_trades_of_absent(index.drop_last(), who);
    }
}

/// Where the principals of the index are distinct, a principal has made the
/// proposals that its one entry lists.
pub proof fn lemma_trades_of_at(index: Seq<(AccountId, Seq<TradeId>)>, i: int)
    requires
        distinct_proponents(index),
        0 <= i < index.len(),
    ensures
        trades_of(index, index[i].0) == index[i].1,
    decreases index.len(),
{
    if i < index.len() - 1 {
        let front = index.drop_last();
        assert(index[i].0 != index[index.len() - 1].0);
        assert forall|a: int, b: int| 0 <= a < b < front.len() implies (#[trigger] front[a]).0 != (
        #[trigger] front[b]).0 by {
            assert(index[a].0 != index[b].0);
        }
        lemma_trades_of_at(front, i);
    }
}

/// The units of the listed outcomes together depend only on the units of each
/// listed outcome.
pub proof fn lemma_supply_total_same(
    before: Seq<OutCome>,
    after: Seq<OutCome>,
    ids: Seq<OutComeId>,
    n: int,
)
    requires
        0 <= n <= ids.len(),
        forall|k: int|
            0 <= k < n ==> 0 <= #[trigger] ids[k] < before.len() && ids[k] < after.len()
                && before[ids[k] as int].total_supply == after[ids[k] as int].total_supply,
    ensures
        supply_total(before, ids, n) == supply_total(after, ids, n),
    decreases n,
{
    if n > 0 {
        lemma_supply_total_same(before, after, ids, n - 1);
        assert(before[ids[n - 1] as int].total_supply == after[ids[n - 1] as int].total_supply);
    }
}

/// More outcomes have no fewer units together.
pub proof fn lemma_supply_total_monotone(outcomes: Seq<OutCome>, ids: Seq<OutComeId>, m: int, n: int)
    requires
        0 <= m <= n,
    ensures
        supply_total(outcomes, ids, m) <= supply_total(outcomes, ids, n),
    decreases n,
{
    if m < n {
        lemma_supply_total_monotone(outcomes, ids, m, n - 1);
    }
}

} // verus!
