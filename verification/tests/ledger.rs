use prediction_market::events::EventCore;
use prediction_market::funds::FundCore;
use prediction_market::ledger::PredictionMarket;
use prediction_market::types::{
    AccountId, Balance, Error, EventMetadata, FundMetadata, MyEnvironment, OutComePayload, Share,
    Timestamp, DEFAULT_DURATION, MIN_EVENT_DEPOSIT, MIN_FUND_DEPOSIT,
};

const RESOLVE_DATE: Timestamp = 1_000;

fn account(n: u128) -> AccountId {
    AccountId { hi: 0, lo: n }
}

fn organizer() -> AccountId {
    account(1)
}

fn alice() -> AccountId {
    account(2)
}

fn bob() -> AccountId {
    account(3)
}

fn carol() -> AccountId {
    account(4)
}

fn env(caller: AccountId, value: Balance, now: Timestamp) -> MyEnvironment {
    MyEnvironment { caller, transferred_value: value, block_timestamp: now }
}

fn payload(description: &str, price: Balance, total_supply: u64) -> OutComePayload {
    OutComePayload {
        description: description.to_string(),
        deposit_per_supply: price,
        total_supply,
    }
}

fn no_event_metadata() -> EventMetadata {
    EventMetadata { name: None, image_url: None, description: None }
}

fn no_fund_metadata() -> FundMetadata {
    FundMetadata { name: None, image_url: None }
}

/// An event with outcomes A (id 0) and B (id 1), 100 units each at 10 a unit.
fn market_with_event(deposit: Balance) -> PredictionMarket {
    let mut market = PredictionMarket::default();
    let id = market
        .create_event(
            &env(organizer(), deposit, 0),
            "Who wins?".to_string(),
            RESOLVE_DATE,
            vec![payload("A", 10, 100), payload("B", 10, 100)],
            no_event_metadata(),
        )
        .unwrap();
    assert_eq!(id, 0);
    market
}

fn add_fund(market: &mut PredictionMarket, trader: AccountId, total_share: Share, deposit: Balance) -> u64 {
    market.create_fund(&env(trader, deposit, 0), total_share, no_fund_metadata()).unwrap()
}

fn shares_of_all(market: &PredictionMarket, fund_id: u64) -> u64 {
    market.fund_owner_to_shares[fund_id as usize].iter().map(|e| e.share).sum()
}

fn tickets_of_all(market: &PredictionMarket, outcome_id: u64) -> u64 {
    market.outcome_to_funds[outcome_id as usize].iter().map(|t| t.supply).sum()
}

#[test]
fn a_new_ledger_is_empty() {
    let market = PredictionMarket::default();
    assert_eq!(market.next_event_id, 0);
    assert_eq!(market.next_fund_id, 0);
    assert_eq!(market.next_outcome_id, 0);
    assert_eq!(market.next_trade_id, 0);
    assert_eq!(market.get_events().unwrap().len(), 0);
    assert_eq!(market.get_funds(None).unwrap().len(), 0);
    assert_eq!(market.get_proposals(None).unwrap().len(), 0);
}

#[test]
fn create_event_stores_event_market_and_outcomes() {
    let market = market_with_event(MIN_EVENT_DEPOSIT + 7);
    assert_eq!(market.next_event_id, 1);
    assert_eq!(market.next_outcome_id, 2);
    let (event, event_market, total) = market.get_event_by_id(0).unwrap();
    assert_eq!(event.event_id, 0);
    assert_eq!(event.owner, organizer());
    assert_eq!(event.question, "Who wins?");
    assert_eq!(event_market.event_id, 0);
    assert_eq!(event_market.pool, MIN_EVENT_DEPOSIT + 7);
    assert!(!event_market.is_resolved);
    assert_eq!(event_market.resolve_date, RESOLVE_DATE);
    assert_eq!(event_market.winning_outcome, None);
    assert_eq!(total, 200);
    let (outcome, offer) = market.get_outcome_by_id(1).unwrap();
    assert_eq!(outcome.event_id, 0);
    assert_eq!(outcome.outcome_id, 1);
    assert_eq!(outcome.description, "B");
    assert_eq!(outcome.deposit_per_supply, 10);
    assert_eq!(outcome.total_supply, 100);
    assert_eq!(offer.available_supply, 100);
    assert_eq!(market.event_to_outcomes[0], vec![0, 1]);
}

#[test]
fn create_event_numbers_outcomes_in_sequence() {
    let mut market = market_with_event(MIN_EVENT_DEPOSIT);
    let id = market
        .create_event(
            &env(alice(), MIN_EVENT_DEPOSIT, 0),
            "Second".to_string(),
            RESOLVE_DATE,
            vec![payload("X", 1, 5), payload("Y", 2, 6), payload("Z", 3, 7)],
            no_event_metadata(),
        )
        .unwrap();
    assert_eq!(id, 1);
    assert_eq!(market.event_to_outcomes[1], vec![2, 3, 4]);
    assert_eq!(market.get_event_by_id(1).unwrap().2, 18);
    assert_eq!(market.get_outcome_by_id(4).unwrap().0.event_id, 1);
    let listed = market.get_events().unwrap();
    assert_eq!(listed.len(), 2);
    assert_eq!(listed[0].2, 200);
    assert_eq!(listed[1].0.question, "Second");
}

#[test]
fn create_event_refuses_a_low_deposit() {
    let mut market = PredictionMarket::default();
    let r = market.create_event(
        &env(organizer(), MIN_EVENT_DEPOSIT - 1, 0),
        "Q".to_string(),
        RESOLVE_DATE,
        vec![payload("A", 10, 100), payload("B", 10, 100)],
        no_event_metadata(),
    );
    assert_eq!(r, Err(Error::DepositTooLow));
    assert_eq!(market, PredictionMarket::default());
}

#[test]
fn create_event_refuses_fewer_than_two_outcomes() {
    let mut market = PredictionMarket::default();
    let r = market.create_event(
        &env(organizer(), MIN_EVENT_DEPOSIT, 0),
        "Q".to_string(),
        RESOLVE_DATE,
        vec![payload("A", 10, 100)],
        no_event_metadata(),
    );
    assert_eq!(r, Err(Error::AtLeastTwoOutcome));
    assert_eq!(market, PredictionMarket::default());
}

#[test]
fn create_event_checks_the_deposit_before_the_outcomes() {
    let mut market = PredictionMarket::default();
    let r = market.create_event(
        &env(organizer(), 0, 0),
        "Q".to_string(),
        RESOLVE_DATE,
        vec![],
        no_event_metadata(),
    );
    assert_eq!(r, Err(Error::DepositTooLow));
}

#[test]
fn create_event_refuses_supplies_that_do_not_fit_together() {
    let mut market = PredictionMarket::default();
    let r = market.create_event(
        &env(organizer(), MIN_EVENT_DEPOSIT, 0),
        "Q".to_string(),
        RESOLVE_DATE,
        vec![payload("A", 10, u64::MAX), payload("B", 10, 1)],
        no_event_metadata(),
    );
    assert_eq!(r, Err(Error::SomethingWrong));
    assert_eq!(market, PredictionMarket::default());
}

#[test]
fn create_fund_makes_the_creator_trader_and_sole_owner() {
    let mut market = PredictionMarket::default();
    let id = add_fund(&mut market, alice(), 300, MIN_FUND_DEPOSIT + 5);
    assert_eq!(id, 0);
    let fund = market.get_fund_by_id(0).unwrap();
    assert_eq!(fund.investment_fund_id, 0);
    assert_eq!(fund.trader, alice());
    assert_eq!(fund.total_share, 300);
    assert_eq!(fund.total_fund, MIN_FUND_DEPOSIT + 5);
    assert_eq!(market.get_owner_share(0, alice()), Ok(300));
    assert_eq!(market.get_owner_share(0, bob()), Ok(0));
    assert_eq!(shares_of_all(&market, 0), 300);
    assert_eq!(add_fund(&mut market, bob(), 100, MIN_FUND_DEPOSIT), 1);
}

#[test]
fn create_fund_refuses_fewer_than_100_shares() {
    let mut market = PredictionMarket::default();
    let r = market.create_fund(&env(alice(), MIN_FUND_DEPOSIT, 0), 99, no_fund_metadata());
    assert_eq!(r, Err(Error::AtLeast100Share));
    assert_eq!(market, PredictionMarket::default());
}

#[test]
fn create_fund_refuses_shares_that_are_no_multiple_of_100() {
    let mut market = PredictionMarket::default();
    let r = market.create_fund(&env(alice(), MIN_FUND_DEPOSIT, 0), 150, no_fund_metadata());
    assert_eq!(r, Err(Error::NotDivisibleBy100));
    assert_eq!(market, PredictionMarket::default());
}

#[test]
fn create_fund_refuses_a_low_deposit() {
    let mut market = PredictionMarket::default();
    let r = market.create_fund(&env(alice(), MIN_FUND_DEPOSIT - 1, 0), 100, no_fund_metadata());
    assert_eq!(r, Err(Error::DepositTooLow));
    assert_eq!(market, PredictionMarket::default());
}

#[test]
fn create_fund_checks_the_shares_before_the_deposit() {
    let mut market = PredictionMarket::default();
    let r = market.create_fund(&env(alice(), 0, 0), 50, no_fund_metadata());
    assert_eq!(r, Err(Error::AtLeast100Share));
    let r = market.create_fund(&env(alice(), 0, 0), 250, no_fund_metadata());
    assert_eq!(r, Err(Error::NotDivisibleBy100));
}

#[test]
fn bet_moves_units_and_money() {
    let mut market = market_with_event(MIN_EVENT_DEPOSIT);
    add_fund(&mut market, alice(), 100, MIN_FUND_DEPOSIT);
    assert_eq!(market.bet(&env(alice(), 500, 10), 0, 0, 50), Ok(()));
    assert_eq!(market.get_outcome_by_id(0).unwrap().1.available_supply, 50);
    assert_eq!(market.get_outcome_by_id(1).unwrap().1.available_supply, 100);
    assert_eq!(market.get_fund_by_id(0).unwrap().total_fund, MIN_FUND_DEPOSIT - 500);
    assert_eq!(market.get_event_by_id(0).unwrap().1.pool, MIN_EVENT_DEPOSIT + 500);
    let holders = market.get_outcome_funds(0).unwrap();
    assert_eq!(holders.len(), 1);
    assert_eq!(holders[0].0.investment_fund_id, 0);
    assert_eq!(holders[0].1, 50);
    let holdings = market.get_fund_outcomes(0).unwrap();
    assert_eq!(holdings.len(), 1);
    assert_eq!(holdings[0].0.outcome_id, 0);
    assert_eq!(holdings[0].1, 50);
}

#[test]
fn bet_costs_the_units_times_the_price_whatever_value_is_sent() {
    let mut market = market_with_event(MIN_EVENT_DEPOSIT);
    add_fund(&mut market, alice(), 100, MIN_FUND_DEPOSIT);
    assert_eq!(market.bet(&env(alice(), 9_999, 10), 1, 0, 7), Ok(()));
    assert_eq!(market.get_fund_by_id(0).unwrap().total_fund, MIN_FUND_DEPOSIT - 70);
    assert_eq!(market.get_event_by_id(0).unwrap().1.pool, MIN_EVENT_DEPOSIT + 70);
}

#[test]
fn a_second_bet_on_the_same_outcome_adds_to_the_first() {
    let mut market = market_with_event(MIN_EVENT_DEPOSIT);
    add_fund(&mut market, alice(), 100, MIN_FUND_DEPOSIT);
    add_fund(&mut market, bob(), 100, MIN_FUND_DEPOSIT);
    assert_eq!(market.bet(&env(alice(), 300, 10), 0, 0, 30), Ok(()));
    assert_eq!(market.bet(&env(bob(), 100, 11), 0, 1, 10), Ok(()));
    assert_eq!(market.bet(&env(alice(), 200, 12), 0, 0, 20), Ok(()));
    let holders = market.get_outcome_funds(0).unwrap();
    assert_eq!(holders.len(), 2);
    assert_eq!((holders[0].0.investment_fund_id, holders[0].1), (0, 50));
    assert_eq!((holders[1].0.investment_fund_id, holders[1].1), (1, 10));
    assert_eq!(market.fund_to_outcomes[0], vec![0]);
    assert_eq!(market.get_outcome_by_id(0).unwrap().1.available_supply, 40);
}

#[test]
fn supply_is_conserved_by_bets() {
    let mut market = market_with_event(MIN_EVENT_DEPOSIT);
    add_fund(&mut market, alice(), 100, MIN_FUND_DEPOSIT);
    add_fund(&mut market, bob(), 100, MIN_FUND_DEPOSIT);
    let bets: [(AccountId, u64, u64, u64); 5] =
        [(alice(), 0, 0, 30), (bob(), 0, 1, 25), (alice(), 1, 0, 100), (alice(), 0, 0, 45), (bob(), 1, 1, 1)];
    for (who, outcome, fund, units) in bets {
        let _ = market.bet(&env(who, 10_000, 10), outcome, fund, units);
        for o in 0..2u64 {
            let (outcome, offer) = market.get_outcome_by_id(o).unwrap();
            assert_eq!(offer.available_supply + tickets_of_all(&market, o), outcome.total_supply);
        }
    }
    assert_eq!(market.get_outcome_by_id(0).unwrap().1.available_supply, 0);
    assert_eq!(market.get_outcome_by_id(1).unwrap().1.available_supply, 0);
}

#[test]
fn bet_refuses_an_unknown_fund() {
    let mut market = market_with_event(MIN_EVENT_DEPOSIT);
    let before = market.clone();
    assert_eq!(market.bet(&env(alice(), 500, 10), 0, 0, 50), Err(Error::FundNotFound));
    assert_eq!(market, before);
}

#[test]
fn bet_refuses_a_caller_who_is_not_the_trader() {
    let mut market = market_with_event(MIN_EVENT_DEPOSIT);
    add_fund(&mut market, alice(), 100, MIN_FUND_DEPOSIT);
    let before = market.clone();
    assert_eq!(market.bet(&env(bob(), 500, 10), 0, 0, 50), Err(Error::NotOwner));
    assert_eq!(market, before);
}

#[test]
fn bet_refuses_an_unknown_outcome() {
    let mut market = market_with_event(MIN_EVENT_DEPOSIT);
    add_fund(&mut market, alice(), 100, MIN_FUND_DEPOSIT);
    let before = market.clone();
    assert_eq!(market.bet(&env(alice(), 500, 10), 2, 0, 50), Err(Error::WrongEventOutCome));
    assert_eq!(market, before);
}

#[test]
fn bet_is_open_only_before_the_resolve_date() {
    let mut market = market_with_event(MIN_EVENT_DEPOSIT);
    add_fund(&mut market, alice(), 100, MIN_FUND_DEPOSIT);
    let before = market.clone();
    assert_eq!(
        market.bet(&env(alice(), 500, RESOLVE_DATE), 0, 0, 50),
        Err(Error::ResolveDateNotMatch)
    );
    assert_eq!(
        market.bet(&env(alice(), 500, RESOLVE_DATE + 1), 0, 0, 50),
        Err(Error::ResolveDateNotMatch)
    );
    assert_eq!(market, before);
    assert_eq!(market.bet(&env(alice(), 500, RESOLVE_DATE - 1), 0, 0, 50), Ok(()));
}

#[test]
fn bet_refuses_more_units_than_are_available() {
    let mut market = market_with_event(MIN_EVENT_DEPOSIT);
    add_fund(&mut market, alice(), 100, MIN_FUND_DEPOSIT);
    assert_eq!(market.bet(&env(alice(), 600, 10), 0, 0, 60), Ok(()));
    let before = market.clone();
    assert_eq!(market.bet(&env(alice(), 10_000, 10), 0, 0, 41), Err(Error::OutOfSupply));
    assert_eq!(market, before);
    assert_eq!(market.bet(&env(alice(), 10_000, 10), 0, 0, 40), Ok(()));
}

#[test]
fn bet_refuses_no_units() {
    let mut market = market_with_event(MIN_EVENT_DEPOSIT);
    add_fund(&mut market, alice(), 100, MIN_FUND_DEPOSIT);
    let before = market.clone();
    assert_eq!(market.bet(&env(alice(), 500, 10), 0, 0, 0), Err(Error::MoreThanOneSupply));
    assert_eq!(market, before);
}

#[test]
fn bet_refuses_a_value_below_the_cost() {
    let mut market = market_with_event(MIN_EVENT_DEPOSIT);
    add_fund(&mut market, alice(), 100, MIN_FUND_DEPOSIT);
    let before = market.clone();
    assert_eq!(market.bet(&env(alice(), 499, 10), 0, 0, 50), Err(Error::DepositTooLow));
    assert_eq!(market, before);
    assert_eq!(market.bet(&env(alice(), 500, 10), 0, 0, 50), Ok(()));
}

#[test]
fn bet_refuses_a_cost_that_no_value_can_cover() {
    let mut market = PredictionMarket::default();
    market
        .create_event(
            &env(organizer(), MIN_EVENT_DEPOSIT, 0),
            "Q".to_string(),
            RESOLVE_DATE,
            vec![payload("A", u128::MAX, 100), payload("B", 10, 100)],
            no_event_metadata(),
        )
        .unwrap();
    add_fund(&mut market, alice(), 100, MIN_FUND_DEPOSIT);
    assert_eq!(market.bet(&env(alice(), u128::MAX, 10), 0, 0, 2), Err(Error::DepositTooLow));
}

#[test]
fn bet_refuses_a_cost_above_the_funds_balance() {
    let mut market = PredictionMarket::default();
    market
        .create_event(
            &env(organizer(), MIN_EVENT_DEPOSIT, 0),
            "Q".to_string(),
            RESOLVE_DATE,
            vec![payload("A", MIN_FUND_DEPOSIT, 100), payload("B", 10, 100)],
            no_event_metadata(),
        )
        .unwrap();
    add_fund(&mut market, alice(), 100, MIN_FUND_DEPOSIT);
    let before = market.clone();
    assert_eq!(
        market.bet(&env(alice(), 2 * MIN_FUND_DEPOSIT, 10), 0, 0, 2),
        Err(Error::NotEnoughBalance)
    );
    assert_eq!(market, before);
    assert_eq!(market.bet(&env(alice(), MIN_FUND_DEPOSIT, 10), 0, 0, 1), Ok(()));
    assert_eq!(market.get_fund_by_id(0).unwrap().total_fund, 0);
}

#[test]
fn bet_refuses_a_pool_that_would_overflow() {
    let mut market = PredictionMarket::default();
    market
        .create_event(
            &env(organizer(), u128::MAX - 5, 0),
            "Q".to_string(),
            RESOLVE_DATE,
            vec![payload("A", 3, 100), payload("B", 10, 100)],
            no_event_metadata(),
        )
        .unwrap();
    add_fund(&mut market, alice(), 100, MIN_FUND_DEPOSIT);
    let before = market.clone();
    assert_eq!(market.bet(&env(alice(), 6, 10), 0, 0, 2), Err(Error::SomethingWrong));
    assert_eq!(market, before);
    assert_eq!(market.bet(&env(alice(), 3, 10), 0, 0, 1), Ok(()));
    assert_eq!(market.get_event_by_id(0).unwrap().1.pool, u128::MAX - 2);
}

#[test]
fn settlement_pays_the_winners_and_keeps_the_dust() {
    let mut market = market_with_event(MIN_EVENT_DEPOSIT);
    add_fund(&mut market, alice(), 100, MIN_FUND_DEPOSIT);
    add_fund(&mut market, bob(), 100, MIN_FUND_DEPOSIT);
    add_fund(&mut market, carol(), 100, MIN_FUND_DEPOSIT);
    assert_eq!(market.bet(&env(alice(), 20, 10), 0, 0, 2), Ok(()));
    assert_eq!(market.bet(&env(bob(), 50, 10), 0, 1, 5), Ok(()));
    assert_eq!(market.bet(&env(carol(), 90, 10), 1, 2, 9), Ok(()));
    let pool = MIN_EVENT_DEPOSIT + 160;
    assert_eq!(market.get_event_by_id(0).unwrap().1.pool, pool);
    assert_eq!(market.resolve_event(&env(organizer(), 0, RESOLVE_DATE), 0, 0), Ok(()));
    let per_supply = pool / 7;
    assert_eq!(per_supply, 142_857_142_880);
    let after = market.get_event_by_id(0).unwrap().1;
    assert!(after.is_resolved);
    assert_eq!(after.winning_outcome, Some(0));
    assert_eq!(after.pool, pool - 7 * per_supply);
    assert_eq!(after.pool, pool % 7);
    assert_eq!(after.pool, 0);
    assert_eq!(market.get_fund_by_id(0).unwrap().total_fund, MIN_FUND_DEPOSIT - 20 + 2 * per_supply);
    assert_eq!(market.get_fund_by_id(1).unwrap().total_fund, MIN_FUND_DEPOSIT - 50 + 5 * per_supply);
    assert_eq!(market.get_fund_by_id(2).unwrap().total_fund, MIN_FUND_DEPOSIT - 90);
}

#[test]
fn settlement_leaves_the_remainder_in_the_pool() {
    let mut market = market_with_event(MIN_EVENT_DEPOSIT + 1);
    add_fund(&mut market, alice(), 100, MIN_FUND_DEPOSIT);
    assert_eq!(market.bet(&env(alice(), 30, 10), 1, 0, 3), Ok(()));
    let pool = MIN_EVENT_DEPOSIT + 31;
    assert_eq!(market.resolve_event(&env(organizer(), 0, RESOLVE_DATE + 5), 0, 1), Ok(()));
    let per_supply = pool / 3;
    assert_eq!(per_supply, 333_333_333_343);
    let paid = 3 * per_supply;
    let after = market.get_event_by_id(0).unwrap().1;
    assert_eq!(after.pool, 2);
    assert_eq!(pool, after.pool + paid);
    assert_eq!(market.get_fund_by_id(0).unwrap().total_fund, MIN_FUND_DEPOSIT - 30 + paid);
}

#[test]
fn settlement_pays_a_fund_that_bet_twice_once_for_all_its_units() {
    let mut market = market_with_event(MIN_EVENT_DEPOSIT);
    add_fund(&mut market, alice(), 100, MIN_FUND_DEPOSIT);
    assert_eq!(market.bet(&env(alice(), 10, 10), 0, 0, 1), Ok(()));
    assert_eq!(market.bet(&env(alice(), 10, 10), 0, 0, 1), Ok(()));
    let pool = MIN_EVENT_DEPOSIT + 20;
    assert_eq!(market.resolve_event(&env(organizer(), 0, RESOLVE_DATE), 0, 0), Ok(()));
    assert_eq!(market.get_event_by_id(0).unwrap().1.pool, 0);
    assert_eq!(market.get_fund_by_id(0).unwrap().total_fund, MIN_FUND_DEPOSIT - 20 + pool);
}

#[test]
fn two_funds_bet_on_opposite_outcomes_and_the_winner_takes_the_pool() {
    let mut market = market_with_event(MIN_EVENT_DEPOSIT);
    let f1 = add_fund(&mut market, alice(), 100, MIN_FUND_DEPOSIT);
    let f2 = add_fund(&mut market, bob(), 100, MIN_FUND_DEPOSIT);
    assert_eq!(market.bet(&env(alice(), 500, 10), 0, f1, 50), Ok(()));
    assert_eq!(market.bet(&env(bob(), 500, 10), 1, f2, 50), Ok(()));
    assert_eq!(market.get_fund_by_id(f1).unwrap().total_fund, MIN_FUND_DEPOSIT - 500);
    assert_eq!(market.get_fund_by_id(f2).unwrap().total_fund, MIN_FUND_DEPOSIT - 500);
    let pool = market.get_event_by_id(0).unwrap().1.pool;
    assert_eq!(pool, MIN_EVENT_DEPOSIT + 1_000);
    assert_eq!(market.resolve_event(&env(organizer(), 0, RESOLVE_DATE), 0, 0), Ok(()));
    let used_supply = 50;
    let distributed = (pool / used_supply) * used_supply;
    assert_eq!(distributed, pool);
    assert_eq!(market.get_fund_by_id(f1).unwrap().total_fund, MIN_FUND_DEPOSIT - 500 + distributed);
    assert_eq!(market.get_fund_by_id(f2).unwrap().total_fund, MIN_FUND_DEPOSIT - 500);
    assert_eq!(market.get_event_by_id(0).unwrap().1.pool, pool - distributed);
    assert_eq!(market.get_event_by_id(0).unwrap().1.winning_outcome, Some(0));
}

#[test]
fn resolve_event_refuses_an_unknown_event() {
    let mut market = market_with_event(MIN_EVENT_DEPOSIT);
    let before = market.clone();
    assert_eq!(
        market.resolve_event(&env(organizer(), 0, RESOLVE_DATE), 1, 0),
        Err(Error::EventNotFound)
    );
    assert_eq!(market, before);
}

#[test]
fn resolve_event_refuses_an_unknown_winner() {
    let mut market = market_with_event(MIN_EVENT_DEPOSIT);
    assert_eq!(
        market.resolve_event(&env(organizer(), 0, RESOLVE_DATE), 0, 2),
        Err(Error::WrongEventOutCome)
    );
}

#[test]
fn resolve_event_refuses_anybody_but_the_owner() {
    let mut market = market_with_event(MIN_EVENT_DEPOSIT);
    add_fund(&mut market, alice(), 100, MIN_FUND_DEPOSIT);
    assert_eq!(market.bet(&env(alice(), 500, 10), 0, 0, 50), Ok(()));
    let before = market.clone();
    assert_eq!(market.resolve_event(&env(alice(), 0, RESOLVE_DATE), 0, 0), Err(Error::NotOwner));
    assert_eq!(market, before);
}

#[test]
fn resolve_event_refuses_before_the_resolve_date() {
    let mut market = market_with_event(MIN_EVENT_DEPOSIT);
    add_fund(&mut market, alice(), 100, MIN_FUND_DEPOSIT);
    assert_eq!(market.bet(&env(alice(), 500, 10), 0, 0, 50), Ok(()));
    let before = market.clone();
    assert_eq!(
        market.resolve_event(&env(organizer(), 0, RESOLVE_DATE - 1), 0, 0),
        Err(Error::ResolveDateNotMatch)
    );
    assert_eq!(market, before);
}

#[test]
fn resolve_event_refuses_the_outcome_of_another_event() {
    let mut market = market_with_event(MIN_EVENT_DEPOSIT);
    market
        .create_event(
            &env(organizer(), MIN_EVENT_DEPOSIT, 0),
            "Other".to_string(),
            RESOLVE_DATE,
            vec![payload("X", 1, 5), payload("Y", 2, 6)],
            no_event_metadata(),
        )
        .unwrap();
    assert_eq!(
        market.resolve_event(&env(organizer(), 0, RESOLVE_DATE), 0, 2),
        Err(Error::WrongEventOutCome)
    );
}

#[test]
fn resolve_event_refuses_a_winner_nobody_bet_on() {
    let mut market = market_with_event(MIN_EVENT_DEPOSIT);
    add_fund(&mut market, alice(), 100, MIN_FUND_DEPOSIT);
    assert_eq!(market.bet(&env(alice(), 500, 10), 0, 0, 50), Ok(()));
    let before = market.clone();
    assert_eq!(
        market.resolve_event(&env(organizer(), 0, RESOLVE_DATE), 0, 1),
        Err(Error::NoBodyBetted)
    );
    assert_eq!(market, before);
}

#[test]
fn resolve_event_refuses_a_prize_that_a_balance_cannot_take() {
    let mut market = PredictionMarket::default();
    market
        .create_event(
            &env(organizer(), u128::MAX - 10, 0),
            "Q".to_string(),
            RESOLVE_DATE,
            vec![payload("A", 1, 100), payload("B", 10, 100)],
            no_event_metadata(),
        )
        .unwrap();
    add_fund(&mut market, alice(), 100, MIN_FUND_DEPOSIT);
    assert_eq!(market.bet(&env(alice(), 1, 10), 0, 0, 1), Ok(()));
    let before = market.clone();
    assert_eq!(
        market.resolve_event(&env(organizer(), 0, RESOLVE_DATE), 0, 0),
        Err(Error::SomethingWrong)
    );
    assert_eq!(market, before);
}

#[test]
fn no_bet_is_taken_after_resolution() {
    let mut market = market_with_event(MIN_EVENT_DEPOSIT);
    add_fund(&mut market, alice(), 100, MIN_FUND_DEPOSIT);
    assert_eq!(market.bet(&env(alice(), 500, 10), 0, 0, 50), Ok(()));
    assert_eq!(market.resolve_event(&env(organizer(), 0, RESOLVE_DATE), 0, 0), Ok(()));
    let before = market.clone();
    for now in [0, 10, RESOLVE_DATE - 1, RESOLVE_DATE, RESOLVE_DATE + 1] {
        for outcome in [0, 1] {
            assert_eq!(
                market.bet(&env(alice(), 500, now), outcome, 0, 1),
                Err(Error::ResolveDateNotMatch)
            );
        }
    }
    assert_eq!(market, before);
}

#[test]
fn a_second_resolution_is_refused() {
    let mut market = market_with_event(MIN_EVENT_DEPOSIT);
    add_fund(&mut market, alice(), 100, MIN_FUND_DEPOSIT);
    add_fund(&mut market, bob(), 100, MIN_FUND_DEPOSIT);
    assert_eq!(market.bet(&env(alice(), 500, 10), 0, 0, 50), Ok(()));
    assert_eq!(market.bet(&env(bob(), 500, 10), 1, 1, 50), Ok(()));
    assert_eq!(market.resolve_event(&env(organizer(), 0, RESOLVE_DATE), 0, 0), Ok(()));
    let before = market.clone();
    assert_eq!(
        market.resolve_event(&env(organizer(), 0, RESOLVE_DATE), 0, 0),
        Err(Error::ResolveDateNotMatch)
    );
    assert_eq!(
        market.resolve_event(&env(organizer(), 0, RESOLVE_DATE + 99), 0, 1),
        Err(Error::ResolveDateNotMatch)
    );
    assert_eq!(market, before);
}

#[test]
fn transfer_share_moves_shares_and_reports_the_recipients_holding() {
    let mut market = PredictionMarket::default();
    add_fund(&mut market, alice(), 100, MIN_FUND_DEPOSIT);
    assert_eq!(market.transfer_share(&env(alice(), 0, 0), 0, bob(), 30), Ok((bob(), 30)));
    assert_eq!(market.get_owner_share(0, alice()), Ok(70));
    assert_eq!(market.get_owner_share(0, bob()), Ok(30));
    assert_eq!(market.get_fund_by_id(0).unwrap().trader, alice());
    assert_eq!(market.transfer_share(&env(bob(), 0, 0), 0, carol(), 10), Ok((carol(), 10)));
    assert_eq!(market.transfer_share(&env(bob(), 0, 0), 0, alice(), 5), Ok((alice(), 75)));
    assert_eq!(market.get_owner_share(0, bob()), Ok(15));
    assert_eq!(shares_of_all(&market, 0), 100);
    assert_eq!(market.get_fund_by_id(0).unwrap().total_share, 100);
    assert_eq!(market.get_fund_by_id(0).unwrap().total_fund, MIN_FUND_DEPOSIT);
}

#[test]
fn shares_are_conserved_by_transfers() {
    let mut market = PredictionMarket::default();
    add_fund(&mut market, alice(), 1_000, MIN_FUND_DEPOSIT);
    let moves: [(AccountId, AccountId, u64); 8] = [
        (alice(), bob(), 200),
        (bob(), carol(), 150),
        (carol(), alice(), 500),
        (alice(), alice(), 300),
        (bob(), bob(), 50),
        (alice(), carol(), 510),
        (carol(), bob(), 660),
        (bob(), alice(), 0),
    ];
    for (from, to, amount) in moves {
        let _ = market.transfer_share(&env(from, 0, 0), 0, to, amount);
        assert_eq!(shares_of_all(&market, 0), 1_000);
        let held = market.get_owner_share(0, alice()).unwrap()
            + market.get_owner_share(0, bob()).unwrap()
            + market.get_owner_share(0, carol()).unwrap();
        assert_eq!(held, 1_000);
    }
}

#[test]
fn a_transfer_to_oneself_changes_no_holding() {
    let mut market = PredictionMarket::default();
    add_fund(&mut market, alice(), 100, MIN_FUND_DEPOSIT);
    assert_eq!(market.transfer_share(&env(alice(), 0, 0), 0, alice(), 40), Ok((alice(), 100)));
    assert_eq!(market.get_owner_share(0, alice()), Ok(100));
    assert_eq!(shares_of_all(&market, 0), 100);
    assert_eq!(market.get_fund_by_id(0).unwrap().trader, alice());
}

#[test]
fn transfer_share_refuses_an_unknown_fund() {
    let mut market = PredictionMarket::default();
    assert_eq!(
        market.transfer_share(&env(alice(), 0, 0), 0, bob(), 0),
        Err(Error::FundNotFound)
    );
}

#[test]
fn transfer_share_refuses_more_than_the_sender_holds() {
    let mut market = PredictionMarket::default();
    add_fund(&mut market, alice(), 100, MIN_FUND_DEPOSIT);
    let before = market.clone();
    assert_eq!(
        market.transfer_share(&env(alice(), 0, 0), 0, bob(), 101),
        Err(Error::NotEnoughShare)
    );
    assert_eq!(
        market.transfer_share(&env(bob(), 0, 0), 0, alice(), 1),
        Err(Error::NotEnoughShare)
    );
    assert_eq!(market, before);
}

#[test]
fn a_transfer_of_51_percent_passes_control() {
    let mut market = PredictionMarket::default();
    add_fund(&mut market, alice(), 100, MIN_FUND_DEPOSIT);
    assert_eq!(market.transfer_share(&env(alice(), 0, 0), 0, bob(), 51), Ok((bob(), 51)));
    assert_eq!(market.get_fund_by_id(0).unwrap().trader, bob());
    assert_eq!(market.get_owner_share(0, alice()), Ok(49));
}

#[test]
fn a_transfer_of_50_percent_is_refused_where_nobody_would_control() {
    let mut market = PredictionMarket::default();
    add_fund(&mut market, alice(), 100, MIN_FUND_DEPOSIT);
    let before = market.clone();
    assert_eq!(
        market.transfer_share(&env(alice(), 0, 0), 0, bob(), 50),
        Err(Error::TraderNotIdentitied)
    );
    assert_eq!(market, before);
}

#[test]
fn a_transfer_of_50_percent_is_accepted_where_the_recipient_then_controls() {
    let mut market = PredictionMarket::default();
    add_fund(&mut market, alice(), 100, MIN_FUND_DEPOSIT);
    assert_eq!(market.transfer_share(&env(alice(), 0, 0), 0, bob(), 1), Ok((bob(), 1)));
    assert_eq!(market.transfer_share(&env(alice(), 0, 0), 0, bob(), 50), Ok((bob(), 51)));
    assert_eq!(market.get_fund_by_id(0).unwrap().trader, alice());
    assert_eq!(market.get_owner_share(0, alice()), Ok(49));
}

#[test]
fn a_small_transfer_is_accepted_where_the_sender_keeps_control() {
    let mut market = PredictionMarket::default();
    add_fund(&mut market, alice(), 100, MIN_FUND_DEPOSIT);
    assert_eq!(market.transfer_share(&env(alice(), 0, 0), 0, bob(), 49), Ok((bob(), 49)));
    assert_eq!(market.get_fund_by_id(0).unwrap().trader, alice());
    assert_eq!(
        market.transfer_share(&env(alice(), 0, 0), 0, carol(), 1),
        Err(Error::TraderNotIdentitied)
    );
    assert_eq!(market.transfer_share(&env(alice(), 0, 0), 0, bob(), 2), Ok((bob(), 51)));
    assert_eq!(market.get_fund_by_id(0).unwrap().trader, alice());
}

#[test]
fn the_control_rule_binds_only_the_trader() {
    let mut market = PredictionMarket::default();
    add_fund(&mut market, alice(), 100, MIN_FUND_DEPOSIT);
    assert_eq!(market.transfer_share(&env(alice(), 0, 0), 0, bob(), 49), Ok((bob(), 49)));
    assert_eq!(market.transfer_share(&env(bob(), 0, 0), 0, carol(), 25), Ok((carol(), 25)));
    assert_eq!(market.get_fund_by_id(0).unwrap().trader, alice());
}

#[test]
fn the_threshold_is_taken_on_the_percentage_rounded_down() {
    let mut market = PredictionMarket::default();
    add_fund(&mut market, alice(), 1_000, MIN_FUND_DEPOSIT);
    assert_eq!(
        market.transfer_share(&env(alice(), 0, 0), 0, bob(), 509),
        Err(Error::TraderNotIdentitied)
    );
    assert_eq!(market.transfer_share(&env(alice(), 0, 0), 0, bob(), 510), Ok((bob(), 510)));
    assert_eq!(market.get_fund_by_id(0).unwrap().trader, bob());
}

#[test]
fn create_proposal_registers_an_open_offer() {
    let mut market = PredictionMarket::default();
    add_fund(&mut market, alice(), 100, MIN_FUND_DEPOSIT);
    let id = market.create_proposal(&env(alice(), 0, 500), 0, 40, 77, None, None);
    assert_eq!(id, Ok(0));
    let trade = market.get_trade_by_id(0).unwrap();
    assert_eq!(trade.investment_fund_id, 0);
    assert_eq!(trade.trade_id, 0);
    assert_eq!(trade.proponent, alice());
    assert_eq!(trade.proposed_person, None);
    assert_eq!(trade.share, 40);
    assert_eq!(trade.price, 77);
    assert_eq!(trade.close_time, 500 + DEFAULT_DURATION);
    assert_eq!(trade.close_time, 2_592_000_500);
    assert!(!trade.is_completed);
    let id = market.create_proposal(&env(alice(), 0, 600), 0, 10, 5, Some(1_000), Some(bob()));
    assert_eq!(id, Ok(1));
    let trade = market.get_trade_by_id(1).unwrap();
    assert_eq!(trade.close_time, 1_600);
    assert_eq!(trade.proposed_person, Some(bob()));
    assert_eq!(market.get_owner_share(0, alice()), Ok(100));
}

#[test]
fn create_proposal_refuses_an_unknown_fund() {
    let mut market = PredictionMarket::default();
    assert_eq!(
        market.create_proposal(&env(alice(), 0, 0), 0, 0, 0, None, None),
        Err(Error::FundNotFound)
    );
}

#[test]
fn create_proposal_refuses_more_than_the_caller_holds() {
    let mut market = PredictionMarket::default();
    add_fund(&mut market, alice(), 100, MIN_FUND_DEPOSIT);
    let before = market.clone();
    assert_eq!(
        market.create_proposal(&env(alice(), 0, 0), 0, 101, 5, None, None),
        Err(Error::NotEnoughShare)
    );
    assert_eq!(
        market.create_proposal(&env(bob(), 0, 0), 0, 1, 5, None, None),
        Err(Error::NotEnoughShare)
    );
    assert_eq!(market, before);
}

#[test]
fn create_proposal_refuses_a_close_time_that_does_not_fit() {
    let mut market = PredictionMarket::default();
    add_fund(&mut market, alice(), 100, MIN_FUND_DEPOSIT);
    let before = market.clone();
    assert_eq!(
        market.create_proposal(&env(alice(), 0, u64::MAX), 0, 10, 5, Some(1), None),
        Err(Error::SomethingWrong)
    );
    assert_eq!(market, before);
    assert_eq!(
        market.create_proposal(&env(alice(), 0, u64::MAX), 0, 10, 5, Some(0), None),
        Ok(0)
    );
}

#[test]
fn accept_proposal_moves_the_shares_and_completes_the_trade() {
    let mut market = PredictionMarket::default();
    add_fund(&mut market, alice(), 100, MIN_FUND_DEPOSIT);
    market.create_proposal(&env(alice(), 0, 500), 0, 40, 77, Some(100), None).unwrap();
    assert_eq!(market.accept_proposal(&env(bob(), 77, 600), 0), Ok(()));
    assert!(market.get_trade_by_id(0).unwrap().is_completed);
    assert_eq!(market.get_owner_share(0, alice()), Ok(60));
    assert_eq!(market.get_owner_share(0, bob()), Ok(40));
    assert_eq!(shares_of_all(&market, 0), 100);
    let fund = market.get_fund_by_id(0).unwrap();
    assert_eq!(fund.trader, alice());
    assert_eq!(fund.total_fund, MIN_FUND_DEPOSIT);
    assert_eq!(fund.total_share, 100);
}

#[test]
fn accept_proposal_passes_control_with_a_majority() {
    let mut market = PredictionMarket::default();
    add_fund(&mut market, alice(), 100, MIN_FUND_DEPOSIT);
    market.create_proposal(&env(alice(), 0, 0), 0, 51, 1, None, Some(bob())).unwrap();
    assert_eq!(market.accept_proposal(&env(bob(), 1, 0), 0), Ok(()));
    assert_eq!(market.get_fund_by_id(0).unwrap().trader, bob());
    assert_eq!(market.get_owner_share(0, bob()), Ok(51));
}

#[test]
fn accept_proposal_refuses_an_unknown_trade() {
    let mut market = PredictionMarket::default();
    assert_eq!(market.accept_proposal(&env(bob(), 1, 0), 0), Err(Error::TradeNotFound));
}

#[test]
fn accept_proposal_refuses_a_completed_trade() {
    let mut market = PredictionMarket::default();
    add_fund(&mut market, alice(), 100, MIN_FUND_DEPOSIT);
    market.create_proposal(&env(alice(), 0, 0), 0, 10, 1, None, None).unwrap();
    assert_eq!(market.accept_proposal(&env(bob(), 1, 0), 0), Ok(()));
    let before = market.clone();
    assert_eq!(market.accept_proposal(&env(bob(), 1, 0), 0), Err(Error::TradeNotAvailable));
    assert_eq!(market.accept_proposal(&env(carol(), 1, 0), 0), Err(Error::TradeNotAvailable));
    assert_eq!(market, before);
}

#[test]
fn accept_proposal_after_close_time_is_refused_and_the_trade_stays_open() {
    let mut market = PredictionMarket::default();
    add_fund(&mut market, alice(), 100, MIN_FUND_DEPOSIT);
    market.create_proposal(&env(alice(), 0, 500), 0, 40, 77, Some(100), None).unwrap();
    let before = market.clone();
    assert_eq!(market.accept_proposal(&env(bob(), 77, 601), 0), Err(Error::TimeExpired));
    assert!(!market.get_trade_by_id(0).unwrap().is_completed);
    assert_eq!(market.get_owner_share(0, alice()), Ok(100));
    assert_eq!(market.get_owner_share(0, bob()), Ok(0));
    assert_eq!(market, before);
    assert_eq!(market.accept_proposal(&env(bob(), 77, 600), 0), Ok(()));
}

#[test]
fn accept_proposal_refuses_anybody_but_the_named_person() {
    let mut market = PredictionMarket::default();
    add_fund(&mut market, alice(), 100, MIN_FUND_DEPOSIT);
    market.create_proposal(&env(alice(), 0, 0), 0, 10, 1, None, Some(bob())).unwrap();
    let before = market.clone();
    assert_eq!(market.accept_proposal(&env(carol(), 1, 0), 0), Err(Error::NotOwner));
    assert_eq!(market, before);
    assert_eq!(market.accept_proposal(&env(bob(), 1, 0), 0), Ok(()));
}

#[test]
fn accept_proposal_refuses_a_value_below_the_price() {
    let mut market = PredictionMarket::default();
    add_fund(&mut market, alice(), 100, MIN_FUND_DEPOSIT);
    market.create_proposal(&env(alice(), 0, 0), 0, 10, 100, None, None).unwrap();
    let before = market.clone();
    assert_eq!(market.accept_proposal(&env(bob(), 99, 0), 0), Err(Error::DepositTooLow));
    assert_eq!(market, before);
    assert_eq!(market.accept_proposal(&env(bob(), 100, 0), 0), Ok(()));
}

#[test]
fn accept_proposal_checks_again_that_the_proponent_holds_the_shares() {
    let mut market = PredictionMarket::default();
    add_fund(&mut market, alice(), 100, MIN_FUND_DEPOSIT);
    market.create_proposal(&env(alice(), 0, 0), 0, 40, 1, None, None).unwrap();
    assert_eq!(market.transfer_share(&env(alice(), 0, 0), 0, carol(), 61), Ok((carol(), 61)));
    let before = market.clone();
    assert_eq!(market.accept_proposal(&env(bob(), 1, 0), 0), Err(Error::NotEnoughShare));
    assert_eq!(market, before);
    assert!(!market.get_trade_by_id(0).unwrap().is_completed);
}

#[test]
fn accept_proposal_refuses_where_nobody_would_control() {
    let mut market = PredictionMarket::default();
    add_fund(&mut market, alice(), 100, MIN_FUND_DEPOSIT);
    market.create_proposal(&env(alice(), 0, 0), 0, 50, 1, None, None).unwrap();
    let before = market.clone();
    assert_eq!(market.accept_proposal(&env(bob(), 1, 0), 0), Err(Error::TraderNotIdentitied));
    assert_eq!(market, before);
    assert!(!market.get_trade_by_id(0).unwrap().is_completed);
}

#[test]
fn get_event_detail_lists_outcomes_with_their_holders() {
    let mut market = market_with_event(MIN_EVENT_DEPOSIT);
    add_fund(&mut market, alice(), 100, MIN_FUND_DEPOSIT);
    add_fund(&mut market, bob(), 100, MIN_FUND_DEPOSIT);
    assert_eq!(market.bet(&env(bob(), 100, 10), 1, 1, 10), Ok(()));
    assert_eq!(market.bet(&env(alice(), 300, 10), 1, 0, 30), Ok(()));
    let (event, event_market, total, outcomes) = market.get_event_detail(0).unwrap();
    assert_eq!(event.event_id, 0);
    assert_eq!(event_market.pool, MIN_EVENT_DEPOSIT + 400);
    assert_eq!(total, 200);
    assert_eq!(outcomes.len(), 2);
    assert_eq!(outcomes[0].0.description, "A");
    assert_eq!(outcomes[0].1.available_supply, 100);
    assert_eq!(outcomes[0].2.len(), 0);
    assert_eq!(outcomes[1].0.description, "B");
    assert_eq!(outcomes[1].1.available_supply, 60);
    assert_eq!(outcomes[1].2.len(), 2);
    assert_eq!((outcomes[1].2[0].0.investment_fund_id, outcomes[1].2[0].1), (1, 10));
    assert_eq!((outcomes[1].2[1].0.investment_fund_id, outcomes[1].2[1].1), (0, 30));
    assert_eq!(market.get_event_outcomes(0).unwrap().len(), 2);
}

#[test]
fn lookups_of_unknown_identifiers_fail() {
    let market = market_with_event(MIN_EVENT_DEPOSIT);
    assert_eq!(market.get_event_detail(1).err(), Some(Error::EventNotFound));
    assert_eq!(market.get_event_by_id(1).err(), Some(Error::EventNotFound));
    assert_eq!(market.get_event_outcomes(1).err(), Some(Error::EventNotFound));
    assert_eq!(market.get_outcome_by_id(2).err(), Some(Error::WrongEventOutCome));
    assert_eq!(market.get_outcome_funds(2).err(), Some(Error::WrongEventOutCome));
    assert_eq!(market.get_fund_by_id(0).err(), Some(Error::FundNotFound));
    assert_eq!(market.get_fund_outcomes(0).err(), Some(Error::FundNotFound));
    assert_eq!(market.get_owner_share(0, alice()), Err(Error::FundNotFound));
    assert_eq!(market.get_fund_proposals(0).err(), Some(Error::FundNotFound));
    assert_eq!(market.get_trade_by_id(0).err(), Some(Error::TradeNotFound));
}

#[test]
fn get_funds_lists_all_funds_or_those_of_an_owner() {
    let mut market = market_with_event(MIN_EVENT_DEPOSIT);
    add_fund(&mut market, alice(), 100, MIN_FUND_DEPOSIT);
    add_fund(&mut market, bob(), 200, MIN_FUND_DEPOSIT);
    add_fund(&mut market, alice(), 300, MIN_FUND_DEPOSIT);
    assert_eq!(market.bet(&env(alice(), 300, 10), 1, 2, 30), Ok(()));
    assert_eq!(market.transfer_share(&env(bob(), 0, 0), 1, alice(), 20), Ok((alice(), 20)));
    assert_eq!(market.transfer_share(&env(alice(), 0, 0), 2, carol(), 300), Ok((carol(), 300)));
    let all = market.get_funds(None).unwrap();
    assert_eq!(all.len(), 3);
    assert_eq!(all[0].2, None);
    assert_eq!(all[2].0.investment_fund_id, 2);
    assert_eq!(all[2].1.len(), 1);
    assert_eq!((all[2].1[0].0.outcome_id, all[2].1[0].1), (1, 30));
    let hers = market.get_funds(Some(alice())).unwrap();
    assert_eq!(hers.len(), 2);
    assert_eq!((hers[0].0.investment_fund_id, hers[0].2), (0, Some(100)));
    assert_eq!((hers[1].0.investment_fund_id, hers[1].2), (1, Some(20)));
    let carols = market.get_funds(Some(carol())).unwrap();
    assert_eq!(carols.len(), 1);
    assert_eq!((carols[0].0.investment_fund_id, carols[0].2), (2, Some(300)));
    assert_eq!(market.get_funds(Some(organizer())).unwrap().len(), 0);
}

#[test]
fn get_proposals_lists_each_trade_with_its_fund() {
    let mut market = PredictionMarket::default();
    add_fund(&mut market, alice(), 100, MIN_FUND_DEPOSIT);
    add_fund(&mut market, bob(), 200, MIN_FUND_DEPOSIT);
    market.create_proposal(&env(bob(), 0, 0), 1, 10, 1, None, None).unwrap();
    market.create_proposal(&env(alice(), 0, 0), 0, 20, 2, None, None).unwrap();
    market.create_proposal(&env(bob(), 0, 0), 1, 30, 3, None, None).unwrap();
    let all = market.get_proposals(None).unwrap();
    assert_eq!(all.len(), 3);
    assert_eq!((all[0].0.investment_fund_id, all[0].1.trade_id), (1, 0));
    assert_eq!((all[1].0.investment_fund_id, all[1].1.trade_id), (0, 1));
    assert_eq!((all[2].0.investment_fund_id, all[2].1.trade_id), (1, 2));
    let bobs = market.get_proposals(Some(bob())).unwrap();
    assert_eq!(bobs.len(), 2);
    assert_eq!((bobs[0].0.investment_fund_id, bobs[0].1.trade_id, bobs[0].1.share), (1, 0, 10));
    assert_eq!((bobs[1].0.investment_fund_id, bobs[1].1.trade_id, bobs[1].1.share), (1, 2, 30));
    assert_eq!(market.get_proposals(Some(carol())).unwrap().len(), 0);
    let (fund, trades) = market.get_fund_proposals(1).unwrap();
    assert_eq!(fund.investment_fund_id, 1);
    assert_eq!(trades.len(), 2);
    assert_eq!((trades[0].trade_id, trades[1].trade_id), (0, 2));
    assert_eq!(market.get_fund_proposals(0).unwrap().1.len(), 1);
}

#[test]
fn the_environment_reports_what_it_was_given() {
    let e = env(alice(), 12, 34);
    assert_eq!(e.caller(), alice());
    assert_eq!(e.transferred_value(), 12);
    assert_eq!(e.block_timestamp(), 34);
}

#[test]
fn accounts_are_equal_when_both_halves_are() {
    assert_eq!(AccountId { hi: 1, lo: 2 }, AccountId { hi: 1, lo: 2 });
    assert_ne!(AccountId { hi: 1, lo: 2 }, AccountId { hi: 2, lo: 1 });
    assert_ne!(AccountId { hi: 0, lo: 2 }, AccountId { hi: 1, lo: 2 });
}

#[test]
fn the_ledger_is_well_formed_after_every_operation() {
    let mut market = PredictionMarket::default();
    assert!(market.is_well_formed());
    market = market_with_event(MIN_EVENT_DEPOSIT);
    assert!(market.is_well_formed());
    add_fund(&mut market, alice(), 100, MIN_FUND_DEPOSIT);
    add_fund(&mut market, bob(), 200, MIN_FUND_DEPOSIT);
    assert!(market.is_well_formed());
    assert_eq!(market.bet(&env(alice(), 500, 10), 0, 0, 50), Ok(()));
    assert_eq!(market.bet(&env(bob(), 500, 10), 0, 1, 50), Ok(()));
    assert_eq!(market.bet(&env(bob(), 500, 10), 1, 1, 5), Ok(()));
    assert_eq!(market.bet(&env(alice(), 500, 10), 1, 0, 5), Ok(()));
    assert_eq!(market.bet(&env(alice(), 500, 10), 1, 0, 5), Ok(()));
    assert!(market.is_well_formed());
    assert_eq!(market.transfer_share(&env(alice(), 0, 0), 0, bob(), 30), Ok((bob(), 30)));
    assert_eq!(market.transfer_share(&env(bob(), 0, 0), 0, carol(), 30), Ok((carol(), 30)));
    assert!(market.is_well_formed());
    assert_eq!(market.create_proposal(&env(alice(), 0, 0), 0, 10, 1, None, None), Ok(0));
    assert_eq!(market.create_proposal(&env(bob(), 0, 0), 1, 10, 1, None, None), Ok(1));
    assert_eq!(market.create_proposal(&env(alice(), 0, 0), 0, 5, 1, None, Some(bob())), Ok(2));
    assert!(market.is_well_formed());
    assert_eq!(market.accept_proposal(&env(bob(), 1, 0), 2), Ok(()));
    assert!(market.is_well_formed());
    assert_eq!(market.resolve_event(&env(organizer(), 0, RESOLVE_DATE), 0, 1), Ok(()));
    assert!(market.is_well_formed());
}

#[test]
fn a_ledger_that_breaks_a_rule_is_not_well_formed() {
    let mut sound = market_with_event(MIN_EVENT_DEPOSIT);
    add_fund(&mut sound, alice(), 100, MIN_FUND_DEPOSIT);
    assert_eq!(sound.bet(&env(alice(), 500, 10), 0, 0, 50), Ok(()));
    assert_eq!(sound.create_proposal(&env(alice(), 0, 0), 0, 10, 1, None, None), Ok(0));
    assert!(sound.is_well_formed());

    let mut broken = sound.clone();
    broken.next_fund_id = 5;
    assert!(!broken.is_well_formed());

    let mut broken = sound.clone();
    broken.outcomes[1].outcome_id = 0;
    assert!(!broken.is_well_formed());

    let mut broken = sound.clone();
    broken.outcomes[1].event_id = 3;
    assert!(!broken.is_well_formed());

    let mut broken = sound.clone();
    broken.event_to_outcomes[0].pop();
    assert!(!broken.is_well_formed());

    let mut broken = sound.clone();
    broken.market_outcomes[0].available_supply = 51;
    assert!(!broken.is_well_formed());

    let mut broken = sound.clone();
    broken.outcome_to_funds[0][0].fund_id = 1;
    assert!(!broken.is_well_formed());

    let mut broken = sound.clone();
    broken.fund_to_outcomes[0].push(1);
    assert!(!broken.is_well_formed());

    let mut broken = sound.clone();
    broken.fund_to_outcomes[0].clear();
    assert!(!broken.is_well_formed());

    let mut broken = sound.clone();
    broken.investment_funds[0].total_share = 150;
    assert!(!broken.is_well_formed());

    let mut broken = sound.clone();
    broken.fund_owner_to_shares[0][0].share = 99;
    assert!(!broken.is_well_formed());

    let mut broken = sound.clone();
    broken.fund_owner_to_shares[0][0].share = 50;
    broken.fund_owner_to_shares[0].push(prediction_market::types::ShareEntry { owner: alice(), share: 50 });
    assert!(!broken.is_well_formed());

    let mut broken = sound.clone();
    broken.fund_trades[0].investment_fund_id = 1;
    assert!(!broken.is_well_formed());

    let mut broken = sound.clone();
    broken.proponent_to_trades[0].proponent = bob();
    assert!(!broken.is_well_formed());

    let mut broken = sound.clone();
    broken.event_markets[0].is_resolved = true;
    assert!(!broken.is_well_formed());

    let mut broken = sound.clone();
    broken.event_markets[0].is_resolved = true;
    broken.event_markets[0].winning_outcome = Some(2);
    assert!(!broken.is_well_formed());
}

#[test]
fn settlement_makes_no_money_and_loses_none() {
    let mut market = market_with_event(MIN_EVENT_DEPOSIT + 11);
    add_fund(&mut market, alice(), 100, MIN_FUND_DEPOSIT);
    add_fund(&mut market, bob(), 100, MIN_FUND_DEPOSIT + 3);
    add_fund(&mut market, carol(), 100, MIN_FUND_DEPOSIT + 5);
    assert_eq!(market.bet(&env(alice(), 30, 10), 0, 0, 3), Ok(()));
    assert_eq!(market.bet(&env(bob(), 40, 10), 0, 1, 4), Ok(()));
    assert_eq!(market.bet(&env(carol(), 60, 10), 1, 2, 6), Ok(()));
    assert_eq!(market.bet(&env(alice(), 10, 10), 0, 0, 1), Ok(()));
    let balances = |m: &PredictionMarket| -> u128 { m.investment_funds.iter().map(|f| f.total_fund).sum() };
    let before = balances(&market) + market.event_markets[0].pool;
    assert_eq!(before, 3 * MIN_FUND_DEPOSIT + 8 + MIN_EVENT_DEPOSIT + 11);
    assert_eq!(market.resolve_event(&env(organizer(), 0, RESOLVE_DATE), 0, 0), Ok(()));
    let after = balances(&market) + market.event_markets[0].pool;
    assert_eq!(after, before);
    let pool = MIN_EVENT_DEPOSIT + 11 + 140;
    assert_eq!(market.event_markets[0].pool, pool % 8);
    assert_eq!(market.investment_funds[0].total_fund, MIN_FUND_DEPOSIT - 40 + 4 * (pool / 8));
    assert_eq!(market.investment_funds[1].total_fund, MIN_FUND_DEPOSIT + 3 - 40 + 4 * (pool / 8));
    assert_eq!(market.investment_funds[2].total_fund, MIN_FUND_DEPOSIT + 5 - 60);
}
