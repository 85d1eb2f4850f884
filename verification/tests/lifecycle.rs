use prediction_market::pallet::Pallet;
use prediction_market::types::{
    Config, DbWeight, Error, Event, LedgerCall, MarketStatus, Origin, Receipt, Weight,
};
use std::collections::HashMap;

const ALICE: [u8; 32] = [1u8; 32];
const BOB: [u8; 32] = [2u8; 32];
const CAROL: [u8; 32] = [3u8; 32];
const ORACLE: [u8; 32] = [9u8; 32];

fn config() -> Config {
    Config {
        creator_bond: 100,
        market_creator_clear_storage_time: 50,
        max_outcomes: 8,
        min_market_period: 10,
        pallet_id: *b"predmrkt",
        scan_weight: Weight { ref_time: 10, proof_size: 1 },
        db_weight: DbWeight { read: 25, write: 100 },
    }
}

/// A ledger for the tests: it carries out what a receipt asks for.
struct Ledger {
    free: HashMap<[u8; 32], u128>,
    reserved: HashMap<[u8; 32], u128>,
}

impl Ledger {
    fn with(accounts: &[([u8; 32], u128)]) -> Ledger {
        let mut free = HashMap::new();
        for (who, value) in accounts {
            free.insert(*who, *value);
        }
        Ledger { free, reserved: HashMap::new() }
    }

    fn free(&self, who: &[u8; 32]) -> u128 {
        *self.free.get(who).unwrap_or(&0)
    }

    fn reserved(&self, who: &[u8; 32]) -> u128 {
        *self.reserved.get(who).unwrap_or(&0)
    }

    fn carry_out(&mut self, receipt: &Receipt) {
        for call in &receipt.ledger {
            match *call {
                LedgerCall::Reserve { who, value } => {
                    *self.free.entry(who).or_insert(0) -= value;
                    *self.reserved.entry(who).or_insert(0) += value;
                }
                LedgerCall::Unreserve { who, value } => {
                    *self.reserved.entry(who).or_insert(0) -= value;
                    *self.free.entry(who).or_insert(0) += value;
                }
                LedgerCall::RepatriateReserved { slashed, beneficiary, value } => {
                    *self.reserved.entry(slashed).or_insert(0) -= value;
                    *self.free.entry(beneficiary).or_insert(0) += value;
                }
                LedgerCall::Transfer { source, dest, value } => {
                    *self.free.entry(source).or_insert(0) -= value;
                    *self.free.entry(dest).or_insert(0) += value;
                }
            }
        }
    }
}

fn buy(
    pallet: &mut Pallet,
    ledger: &mut Ledger,
    who: [u8; 32],
    market_id: u128,
    index: u8,
    price: u128,
) -> Result<Receipt, Error> {
    let free = ledger.free(&who);
    let receipt = pallet.buy_outcome(Origin::Signed(who), market_id, index, price, free, true)?;
    ledger.carry_out(&receipt);
    Ok(receipt)
}

fn staked(pallet: &Pallet, market_id: u128) -> u128 {
    pallet.outcomes(market_id).unwrap().iter().map(|outcome| outcome.price).sum()
}

#[test]
fn create_assigns_the_first_id_and_reserves_the_bond() {
    let mut pallet = Pallet::new(config());
    let mut ledger = Ledger::with(&[(ALICE, 1000)]);
    let receipt = pallet.create_market(Origin::Signed(ALICE), 2, 100, ORACLE, 1, true).unwrap();
    assert_eq!(receipt.ledger, vec![LedgerCall::Reserve { who: ALICE, value: 100 }]);
    assert_eq!(receipt.event, Some(Event::MarketCreated { market_id: 1, creator: ALICE }));
    ledger.carry_out(&receipt);
    assert_eq!(ledger.free(&ALICE), 900);
    assert_eq!(ledger.reserved(&ALICE), 100);
    assert_eq!(pallet.market_counter(), 2);
    let market = pallet.get_market(&1).unwrap().1;
    assert_eq!(market.creator, ALICE);
    assert_eq!(market.bond, 100);
    assert_eq!(market.data, [0u8; 32]);
    assert_eq!(market.end, 100);
    assert_eq!(market.oracle, ORACLE);
    assert_eq!(market.oracle_outcome_report, None);
    assert_eq!(market.status, MarketStatus::Active);
    let outcomes = pallet.outcomes(1).unwrap();
    assert_eq!(outcomes.len(), 2);
    for (i, outcome) in outcomes.iter().enumerate() {
        assert_eq!(outcome.owner, ALICE);
        assert_eq!(outcome.price, 0);
        assert_eq!(outcome.data, [i as u8; 32]);
    }
    assert_eq!(pallet.market_ids_per_close_block(100), vec![1]);
    assert_eq!(pallet.get_market(&2), Err(Error::MarketNotFound));
    assert_eq!(pallet.outcomes(2), None);
}

#[test]
fn market_ids_rise_by_one_and_are_never_given_twice() {
    let mut pallet = Pallet::new(config());
    let mut seen = Vec::new();
    for round in 0..5u64 {
        let receipt = pallet
            .create_market(Origin::Signed(ALICE), 2, 100 + round, ORACLE, 1, true)
            .unwrap();
        match receipt.event {
            Some(Event::MarketCreated { market_id, .. }) => seen.push(market_id),
            other => panic!("unexpected event {:?}", other),
        }
    }
    assert_eq!(seen, vec![1, 2, 3, 4, 5]);
    // a market that is destroyed does not give its id back
    pallet.destroy_market(Origin::Root, 5).unwrap();
    let receipt = pallet.create_market(Origin::Signed(BOB), 1, 200, ORACLE, 1, true).unwrap();
    assert_eq!(receipt.event, Some(Event::MarketCreated { market_id: 6, creator: BOB }));
    assert_eq!(pallet.market_counter(), 7);
}

#[test]
fn buying_refunds_the_holder_and_charges_the_buyer() {
    let mut pallet = Pallet::new(config());
    let mut ledger = Ledger::with(&[(ALICE, 1000), (BOB, 1000), (CAROL, 1000)]);
    let created = pallet.create_market(Origin::Signed(CAROL), 2, 100, ORACLE, 1, true).unwrap();
    ledger.carry_out(&created);
    let escrow = pallet.market_account(1);

    let first = buy(&mut pallet, &mut ledger, ALICE, 1, 0, 10).unwrap();
    assert_eq!(
        first.ledger,
        vec![LedgerCall::Transfer { source: ALICE, dest: escrow, value: 10 }]
    );
    assert_eq!(
        first.event,
        Some(Event::OutcomeBought { market_id: 1, outcome_index: 0, buyer: ALICE })
    );
    assert_eq!(ledger.free(&ALICE), 990);
    assert_eq!(ledger.free(&escrow), 10);
    assert_eq!(staked(&pallet, 1), 10);

    let second = buy(&mut pallet, &mut ledger, BOB, 1, 0, 15).unwrap();
    assert_eq!(
        second.ledger,
        vec![
            LedgerCall::Transfer { source: escrow, dest: ALICE, value: 10 },
            LedgerCall::Transfer { source: BOB, dest: escrow, value: 15 },
        ]
    );
    assert_eq!(ledger.free(&ALICE), 1000);
    assert_eq!(ledger.free(&BOB), 985);
    assert_eq!(ledger.free(&escrow), 15);
    let outcomes = pallet.outcomes(1).unwrap();
    assert_eq!(outcomes[0].owner, BOB);
    assert_eq!(outcomes[0].price, 15);
    assert_eq!(outcomes[0].data, [0u8; 32]);
    assert_eq!(outcomes[1].owner, CAROL);
    assert_eq!(outcomes[1].price, 0);
    assert_eq!(staked(&pallet, 1), ledger.free(&escrow));

    let before = pallet.outcomes(1).unwrap();
    assert_eq!(buy(&mut pallet, &mut ledger, ALICE, 1, 0, 12), Err(Error::PriceTooLow));
    assert_eq!(buy(&mut pallet, &mut ledger, ALICE, 1, 0, 15), Err(Error::PriceTooLow));
    assert_eq!(pallet.outcomes(1).unwrap(), before);
    assert_eq!(pallet.get_market(&1).unwrap().1.status, MarketStatus::Active);
    assert_eq!(ledger.free(&ALICE), 1000);
    assert_eq!(ledger.free(&BOB), 985);
    assert_eq!(ledger.free(&escrow), 15);
}

#[test]
fn escrow_holds_the_stakes_through_a_run_of_purchases() {
    let mut pallet = Pallet::new(config());
    let mut ledger = Ledger::with(&[(ALICE, 10_000), (BOB, 10_000), (CAROL, 10_000)]);
    let created = pallet.create_market(Origin::Signed(CAROL), 3, 100, ORACLE, 1, true).unwrap();
    ledger.carry_out(&created);
    let escrow = pallet.market_account(1);
    let bids: [([u8; 32], u8, u128); 6] =
        [(ALICE, 0, 5), (BOB, 1, 7), (ALICE, 1, 9), (BOB, 0, 6), (ALICE, 2, 1), (BOB, 2, 100)];
    let mut last = [0u128; 3];
    for (who, index, price) in bids {
        buy(&mut pallet, &mut ledger, who, 1, index, price).unwrap();
        let outcomes = pallet.outcomes(1).unwrap();
        assert!(outcomes[index as usize].price > last[index as usize]);
        last[index as usize] = outcomes[index as usize].price;
        assert_eq!(staked(&pallet, 1), ledger.free(&escrow));
    }
    assert_eq!(last, [6, 9, 100]);
    assert_eq!(ledger.free(&escrow), 115);
    assert_eq!(ledger.free(&ALICE) + ledger.free(&BOB) + ledger.free(&escrow), 20_000);
}

#[test]
fn the_clock_closes_a_market_and_the_oracle_reports() {
    let mut pallet = Pallet::new(config());
    pallet.create_market(Origin::Signed(ALICE), 2, 100, ORACLE, 1, true).unwrap();
    assert_eq!(pallet.on_initialize(99).1, vec![]);
    assert_eq!(pallet.get_market(&1).unwrap().1.status, MarketStatus::Active);
    assert_eq!(pallet.on_initialize(100).1, vec![Event::MarketClosed { market_id: 1 }]);
    assert_eq!(pallet.get_market(&1).unwrap().1.status, MarketStatus::Closed);
    assert_eq!(pallet.market_ids_per_close_block(100), Vec::<u128>::new());

    let reported = pallet.report_as_oracle(Origin::Signed(ORACLE), 1, 0).unwrap();
    assert_eq!(reported.ledger, vec![]);
    assert_eq!(
        reported.event,
        Some(Event::MarketReported { market_id: 1, oracle_report_outcome: 0 })
    );
    let market = pallet.get_market(&1).unwrap().1;
    assert_eq!(market.status, MarketStatus::Reported);
    assert_eq!(market.oracle_outcome_report, Some(0));

    assert_eq!(
        pallet.report_as_oracle(Origin::Signed(BOB), 1, 1),
        Err(Error::OutcomeAlreadyReported)
    );
    assert_eq!(
        pallet.report_as_oracle(Origin::Signed(ORACLE), 1, 1),
        Err(Error::OutcomeAlreadyReported)
    );
    assert_eq!(pallet.get_market(&1).unwrap().1, market);
}

#[test]
fn reaching_a_tick_twice_closes_nothing_the_second_time() {
    let mut pallet = Pallet::new(config());
    pallet.create_market(Origin::Signed(ALICE), 2, 100, ORACLE, 1, true).unwrap();
    pallet.create_market(Origin::Signed(BOB), 2, 100, ORACLE, 1, true).unwrap();
    pallet.create_market(Origin::Signed(BOB), 2, 101, ORACLE, 1, true).unwrap();
    assert_eq!(
        pallet.on_initialize(100).1,
        vec![Event::MarketClosed { market_id: 1 }, Event::MarketClosed { market_id: 2 }]
    );
    let first = pallet.get_market(&1).unwrap().1;
    let second = pallet.get_market(&2).unwrap().1;
    let third = pallet.get_market(&3).unwrap().1;
    assert_eq!(third.status, MarketStatus::Active);
    assert_eq!(pallet.on_initialize(100).1, vec![]);
    assert_eq!(pallet.get_market(&1).unwrap().1, first);
    assert_eq!(pallet.get_market(&2).unwrap().1, second);
    assert_eq!(pallet.get_market(&3).unwrap().1, third);
    assert_eq!(pallet.market_ids_per_close_block(101), vec![3]);
}

#[test]
fn a_reached_tick_stays_reached_through_other_calls() {
    let mut pallet = Pallet::new(config());
    pallet.create_market(Origin::Signed(ALICE), 2, 100, ORACLE, 1, true).unwrap();
    pallet.create_market(Origin::Signed(BOB), 2, 120, ORACLE, 1, true).unwrap();
    assert_eq!(pallet.on_initialize(100).1, vec![Event::MarketClosed { market_id: 1 }]);
    // calls of every kind, none of which opens a market that ends at the tick 100
    pallet.buy_outcome(Origin::Signed(CAROL), 2, 0, 5, 1000, true).unwrap();
    pallet.create_market(Origin::Signed(CAROL), 2, 130, ORACLE, 100, true).unwrap();
    pallet.report_as_oracle(Origin::Signed(ORACLE), 1, 0).unwrap();
    pallet.redeem(Origin::Signed(CAROL), 1, 0).unwrap();
    pallet.clear_storage(Origin::Signed(ALICE), 1, 100).unwrap();
    pallet.destroy_market(Origin::Root, 3).unwrap();
    assert_eq!(pallet.on_initialize(101).1, vec![]);
    let market = pallet.get_market(&2).unwrap().1;
    let outcomes = pallet.outcomes(2).unwrap();
    assert_eq!(pallet.market_ids_per_close_block(100), Vec::<u128>::new());
    assert_eq!(
        pallet.on_initialize(100),
        (Weight { ref_time: 125, proof_size: 0 }, vec![])
    );
    assert_eq!(pallet.get_market(&2).unwrap().1, market);
    assert_eq!(pallet.outcomes(2).unwrap(), outcomes);
    assert_eq!(pallet.market_ids_per_close_block(120), vec![2]);
    assert_eq!(pallet.market_ids_per_close_block(130), vec![3]);
    assert_eq!(pallet.market_counter(), 4);
}

#[test]
fn a_market_that_is_opened_for_a_reached_tick_waits_there() {
    let mut no_period = config();
    no_period.min_market_period = 0;
    let mut pallet = Pallet::new(no_period);
    pallet.create_market(Origin::Signed(ALICE), 2, 100, ORACLE, 1, true).unwrap();
    assert_eq!(pallet.on_initialize(100).1, vec![Event::MarketClosed { market_id: 1 }]);
    pallet.create_market(Origin::Signed(BOB), 2, 100, ORACLE, 100, true).unwrap();
    assert_eq!(pallet.market_ids_per_close_block(100), vec![2]);
    assert_eq!(pallet.on_initialize(100).1, vec![Event::MarketClosed { market_id: 2 }]);
    assert_eq!(pallet.on_initialize(100).1, vec![]);
}

#[test]
fn redemption_pays_the_escrow_to_the_winner() {
    let mut pallet = Pallet::new(config());
    let mut ledger = Ledger::with(&[(ALICE, 1000), (BOB, 1000), (CAROL, 1000)]);
    let created = pallet.create_market(Origin::Signed(CAROL), 2, 100, ORACLE, 1, true).unwrap();
    ledger.carry_out(&created);
    let escrow = pallet.market_account(1);
    buy(&mut pallet, &mut ledger, ALICE, 1, 0, 10).unwrap();
    buy(&mut pallet, &mut ledger, BOB, 1, 1, 30).unwrap();
    assert_eq!(pallet.redeem(Origin::Signed(ALICE), 1, 40), Err(Error::OutcomeNotReportedYet));
    pallet.on_initialize(100);
    assert_eq!(pallet.redeem(Origin::Signed(ALICE), 1, 40), Err(Error::OutcomeNotReportedYet));
    pallet.report_as_oracle(Origin::Signed(ORACLE), 1, 1).unwrap();

    // anybody may ask for the redemption; the winner is whoever holds the reported outcome
    let redeemed = pallet.redeem(Origin::Signed(CAROL), 1, ledger.free(&escrow)).unwrap();
    assert_eq!(
        redeemed.ledger,
        vec![LedgerCall::Transfer { source: escrow, dest: BOB, value: 40 }]
    );
    assert_eq!(
        redeemed.event,
        Some(Event::MarketRedeemed { market_id: 1, winner_outcome: 1, winner: BOB })
    );
    ledger.carry_out(&redeemed);
    assert_eq!(ledger.free(&escrow), 0);
    assert_eq!(ledger.free(&BOB), 1010);
    assert_eq!(ledger.free(&ALICE), 990);
    let market = pallet.get_market(&1).unwrap().1;
    assert_eq!(market.status, MarketStatus::Redeemed);
    assert_eq!(market.oracle_outcome_report, Some(1));
}

#[test]
fn a_redeemed_market_is_not_redeemed_again() {
    let mut pallet = Pallet::new(config());
    let mut ledger = Ledger::with(&[(ALICE, 1000), (BOB, 1000), (CAROL, 1000)]);
    let created = pallet.create_market(Origin::Signed(CAROL), 2, 100, ORACLE, 1, true).unwrap();
    ledger.carry_out(&created);
    let escrow = pallet.market_account(1);
    buy(&mut pallet, &mut ledger, ALICE, 1, 0, 10).unwrap();
    pallet.on_initialize(100);
    pallet.report_as_oracle(Origin::Signed(ORACLE), 1, 0).unwrap();
    let redeemed = pallet.redeem(Origin::Signed(ALICE), 1, ledger.free(&escrow)).unwrap();
    ledger.carry_out(&redeemed);
    assert_eq!(ledger.free(&ALICE), 1000);
    let market = pallet.get_market(&1).unwrap().1;
    let outcomes = pallet.outcomes(1).unwrap();
    assert_eq!(market.status, MarketStatus::Redeemed);
    // whoever asks, and whatever the escrow account holds by then
    for who in [ALICE, BOB, CAROL, ORACLE] {
        for balance in [0u128, 10, 500] {
            assert_eq!(
                pallet.redeem(Origin::Signed(who), 1, balance),
                Err(Error::InvalidMarketStatus)
            );
        }
    }
    assert_eq!(pallet.get_market(&1).unwrap().1, market);
    assert_eq!(pallet.outcomes(1).unwrap(), outcomes);
    assert_eq!(pallet.market_counter(), 2);
    assert_eq!(ledger.free(&escrow), 0);
    assert_eq!(ledger.free(&ALICE), 1000);
    // the market can still be cleared away
    pallet.clear_storage(Origin::Signed(CAROL), 1, 100).unwrap();
    assert_eq!(pallet.redeem(Origin::Signed(ALICE), 1, 0), Err(Error::MarketNotFound));
}

#[test]
fn a_market_is_redeemed_from_no_status_but_reported() {
    let mut pallet = Pallet::new(config());
    pallet.create_market(Origin::Signed(CAROL), 2, 100, ORACLE, 1, true).unwrap();
    // active
    assert_eq!(pallet.redeem(Origin::Signed(ALICE), 1, 0), Err(Error::OutcomeNotReportedYet));
    pallet.on_initialize(100);
    // closed
    assert_eq!(pallet.redeem(Origin::Signed(ALICE), 1, 0), Err(Error::OutcomeNotReportedYet));
    assert_eq!(pallet.get_market(&1).unwrap().1.status, MarketStatus::Closed);
    pallet.report_as_oracle(Origin::Signed(ORACLE), 1, 1).unwrap();
    // reported
    let redeemed = pallet.redeem(Origin::Signed(ALICE), 1, 0).unwrap();
    assert_eq!(
        redeemed.event,
        Some(Event::MarketRedeemed { market_id: 1, winner_outcome: 1, winner: CAROL })
    );
    // redeemed
    assert_eq!(pallet.redeem(Origin::Signed(ALICE), 1, 0), Err(Error::InvalidMarketStatus));
    assert_eq!(pallet.get_market(&1).unwrap().1.status, MarketStatus::Redeemed);
}

#[test]
fn a_report_of_an_outcome_that_is_not_there_is_taken_and_fails_at_redemption() {
    let mut pallet = Pallet::new(config());
    pallet.create_market(Origin::Signed(ALICE), 2, 100, ORACLE, 1, true).unwrap();
    pallet.on_initialize(100);
    pallet.report_as_oracle(Origin::Signed(ORACLE), 1, 2).unwrap();
    let market = pallet.get_market(&1).unwrap().1;
    assert_eq!(market.status, MarketStatus::Reported);
    assert_eq!(market.oracle_outcome_report, Some(2));
    assert_eq!(pallet.redeem(Origin::Signed(ALICE), 1, 0), Err(Error::InvalidOutcomeIndex));
    assert_eq!(pallet.get_market(&1).unwrap().1, market);
}

fn redeemed_market() -> Pallet {
    let mut pallet = Pallet::new(config());
    pallet.create_market(Origin::Signed(ALICE), 2, 100, ORACLE, 1, true).unwrap();
    pallet.on_initialize(100);
    pallet.report_as_oracle(Origin::Signed(ORACLE), 1, 0).unwrap();
    pallet.redeem(Origin::Signed(BOB), 1, 0).unwrap();
    pallet
}

#[test]
fn within_the_grace_window_only_the_creator_clears() {
    let mut pallet = redeemed_market();
    assert_eq!(
        pallet.clear_storage(Origin::Signed(BOB), 1, 120),
        Err(Error::OnlyMarketCreatorAllowedYet)
    );
    // the last tick of the window
    assert_eq!(
        pallet.clear_storage(Origin::Signed(BOB), 1, 150),
        Err(Error::OnlyMarketCreatorAllowedYet)
    );
    assert_eq!(pallet.get_market(&1).unwrap().1.status, MarketStatus::Redeemed);
    assert_eq!(pallet.outcomes(1).unwrap().len(), 2);
}

#[test]
fn the_creator_clears_at_any_time_and_gets_the_bond_back() {
    for now in [100u64, 120, 150, 151, 10_000] {
        let mut pallet = redeemed_market();
        let mut ledger = Ledger::with(&[(ALICE, 900)]);
        ledger.reserved.insert(ALICE, 100);
        let receipt = pallet.clear_storage(Origin::Signed(ALICE), 1, now).unwrap();
        assert_eq!(receipt.ledger, vec![LedgerCall::Unreserve { who: ALICE, value: 100 }]);
        assert_eq!(receipt.event, None);
        ledger.carry_out(&receipt);
        assert_eq!(ledger.free(&ALICE), 1000);
        assert_eq!(ledger.reserved(&ALICE), 0);
        assert_eq!(pallet.get_market(&1), Err(Error::MarketNotFound));
        assert_eq!(pallet.outcomes(1), None);
        assert_eq!(pallet.market_counter(), 2);
    }
}

#[test]
fn after_the_grace_window_anyone_clears_and_takes_the_bond() {
    let mut pallet = redeemed_market();
    let mut ledger = Ledger::with(&[(ALICE, 900), (BOB, 5)]);
    ledger.reserved.insert(ALICE, 100);
    let receipt = pallet.clear_storage(Origin::Signed(BOB), 1, 151).unwrap();
    assert_eq!(
        receipt.ledger,
        vec![LedgerCall::RepatriateReserved { slashed: ALICE, beneficiary: BOB, value: 100 }]
    );
    ledger.carry_out(&receipt);
    assert_eq!(ledger.reserved(&ALICE), 0);
    assert_eq!(ledger.free(&ALICE), 900);
    assert_eq!(ledger.free(&BOB), 105);
    assert_eq!(pallet.get_market(&1), Err(Error::MarketNotFound));
    assert_eq!(pallet.outcomes(1), None);
    assert_eq!(
        pallet.clear_storage(Origin::Signed(BOB), 1, 152),
        Err(Error::MarketNotFound)
    );
}

#[test]
fn a_refused_creation_leaves_nothing_behind() {
    let mut pallet = Pallet::new(config());
    assert_eq!(
        pallet.create_market(Origin::Signed(ALICE), 0, 100, ORACLE, 1, true),
        Err(Error::OutcomeAmountTooLow)
    );
    assert_eq!(
        pallet.create_market(Origin::Signed(ALICE), 2, 10, ORACLE, 1, true),
        Err(Error::BelowMinMarketPeriod)
    );
    // an end that lies behind the clock is as close as an end can be
    assert_eq!(
        pallet.create_market(Origin::Signed(ALICE), 2, 3, ORACLE, 50, true),
        Err(Error::BelowMinMarketPeriod)
    );
    assert_eq!(pallet.market_counter(), 1);
    assert_eq!(pallet.get_market(&1), Err(Error::MarketNotFound));
    assert_eq!(pallet.outcomes(1), None);
    assert_eq!(pallet.market_ids_per_close_block(100), Vec::<u128>::new());
    assert_eq!(pallet.market_ids_per_close_block(10), Vec::<u128>::new());
    assert_eq!(pallet.market_ids_per_close_block(3), Vec::<u128>::new());
    assert_eq!(pallet.on_initialize(100).1, vec![]);
    // the shortest period that is long enough
    let receipt = pallet.create_market(Origin::Signed(ALICE), 2, 11, ORACLE, 1, true).unwrap();
    assert_eq!(receipt.event, Some(Event::MarketCreated { market_id: 1, creator: ALICE }));
}
