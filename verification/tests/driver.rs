use prediction_market::account::same_account;
use prediction_market::pallet::Pallet;
use prediction_market::pricing::{highest_outcome, sum_prices};
use prediction_market::types::{Config, DbWeight, Error, Event, Origin, Outcome, Weight};

const ALICE: [u8; 32] = [1u8; 32];
const BOB: [u8; 32] = [2u8; 32];
const ORACLE: [u8; 32] = [9u8; 32];

fn config() -> Config {
    Config {
        creator_bond: 100,
        market_creator_clear_storage_time: 50,
        max_outcomes: 8,
        min_market_period: 10,
        pallet_id: *b"predmrkt",
        scan_weight: Weight { ref_time: 10, proof_size: 1 },
        db_weight: DbWeight { read: 25, write: 100 },
    }
}

fn outcome(price: u128) -> Outcome {
    Outcome { owner: ALICE, data: [0u8; 32], price }
}

fn three_markets() -> Pallet {
    let mut pallet = Pallet::new(config());
    pallet.create_market(Origin::Signed(ALICE), 3, 100, ORACLE, 1, true).unwrap();
    pallet.create_market(Origin::Signed(ALICE), 2, 100, ORACLE, 1, true).unwrap();
    pallet.create_market(Origin::Signed(ALICE), 1, 200, ORACLE, 1, true).unwrap();
    pallet.buy_outcome(Origin::Signed(BOB), 1, 1, 5, 1000, true).unwrap();
    pallet.buy_outcome(Origin::Signed(BOB), 1, 2, 5, 1000, true).unwrap();
    pallet
}

#[test]
fn the_escrow_account_is_derived_from_the_pallet_id_and_the_market_id() {
    let pallet = Pallet::new(config());
    let mut expected = [0u8; 32];
    expected[..4].copy_from_slice(b"modl");
    expected[4..12].copy_from_slice(b"predmrkt");
    expected[12] = 1;
    assert_eq!(pallet.market_account(1), expected);
    let id: u128 = 0x0102_0304_0506_0708_090a_0b0c_0d0e_0f10;
    expected[12..28].copy_from_slice(&id.to_le_bytes());
    assert_eq!(pallet.market_account(id), expected);
    assert_eq!(&pallet.market_account(id)[28..], &[0u8; 4]);
    assert_ne!(pallet.market_account(1), pallet.market_account(2));
    assert_ne!(pallet.market_account(1), pallet.market_account(1 << 120));
    let mut other = config();
    other.pallet_id = *b"othermkt";
    assert_ne!(Pallet::new(other).market_account(1), pallet.market_account(1));
}

#[test]
fn accounts_are_compared_byte_by_byte() {
    assert!(same_account(&ALICE, &ALICE));
    assert!(!same_account(&ALICE, &BOB));
    let mut nearly = ALICE;
    nearly[31] = 0;
    assert!(!same_account(&ALICE, &nearly));
    nearly[31] = 1;
    assert!(same_account(&ALICE, &nearly));
}

#[test]
fn the_look_ahead_names_the_markets_of_the_next_tick() {
    let pallet = three_markets();
    assert_eq!(
        pallet.on_finalize_impl(99),
        Some(Event::MarketsToCloseNextBlock { market_ids: vec![1, 2] })
    );
    assert_eq!(
        pallet.on_finalize(199),
        Some(Event::MarketsToCloseNextBlock { market_ids: vec![3] })
    );
    assert_eq!(pallet.on_finalize_impl(100), None);
    assert_eq!(pallet.on_finalize_impl(98), None);
    assert_eq!(pallet.on_finalize(0), None);
    // the look ahead changes nothing
    assert_eq!(pallet.market_ids_per_close_block(100), vec![1, 2]);
    assert_eq!(
        pallet.on_finalize_impl(99),
        Some(Event::MarketsToCloseNextBlock { market_ids: vec![1, 2] })
    );
}

#[test]
fn the_look_ahead_from_the_last_tick_looks_at_the_last_tick() {
    let mut pallet = Pallet::new(config());
    pallet.create_market(Origin::Signed(ALICE), 1, u64::MAX, ORACLE, 1, true).unwrap();
    assert_eq!(
        pallet.on_finalize_impl(u64::MAX),
        Some(Event::MarketsToCloseNextBlock { market_ids: vec![1] })
    );
    assert_eq!(
        pallet.on_finalize_impl(u64::MAX - 1),
        Some(Event::MarketsToCloseNextBlock { market_ids: vec![1] })
    );
}

#[test]
fn the_scan_names_the_first_of_the_highest_outcomes() {
    let pallet = three_markets();
    let (weight, events) = pallet.emit_highest_outcomes(10);
    assert_eq!(weight, Weight { ref_time: 30, proof_size: 3 });
    assert_eq!(
        events,
        vec![
            Event::HighestOutcome { market_id: 1, highest_outcome: Some(1) },
            Event::HighestOutcome { market_id: 2, highest_outcome: Some(0) },
            Event::HighestOutcome { market_id: 3, highest_outcome: Some(0) },
        ]
    );
}

#[test]
fn the_scan_stops_at_its_budget() {
    let pallet = three_markets();
    let (weight, events) = pallet.emit_highest_outcomes(2);
    assert_eq!(weight, Weight { ref_time: 20, proof_size: 2 });
    assert_eq!(
        events,
        vec![
            Event::HighestOutcome { market_id: 1, highest_outcome: Some(1) },
            Event::HighestOutcome { market_id: 2, highest_outcome: Some(0) },
        ]
    );
    let (weight, events) = pallet.emit_highest_outcomes(0);
    assert_eq!(weight, Weight { ref_time: 0, proof_size: 0 });
    assert_eq!(events, vec![]);
    let (weight, events) = pallet.emit_highest_outcomes(3);
    assert_eq!(weight, Weight { ref_time: 30, proof_size: 3 });
    assert_eq!(events.len(), 3);
}

#[test]
fn the_scan_passes_over_markets_that_are_gone() {
    let mut pallet = three_markets();
    pallet.destroy_market(Origin::Root, 2).unwrap();
    let (weight, events) = pallet.emit_highest_outcomes(2);
    assert_eq!(weight, Weight { ref_time: 20, proof_size: 2 });
    assert_eq!(
        events,
        vec![
            Event::HighestOutcome { market_id: 1, highest_outcome: Some(1) },
            Event::HighestOutcome { market_id: 3, highest_outcome: Some(0) },
        ]
    );
}

#[test]
fn the_weight_of_a_long_scan_stops_at_the_largest_weight() {
    let mut heavy = config();
    heavy.scan_weight = Weight { ref_time: u64::MAX - 1, proof_size: 3 };
    let mut pallet = Pallet::new(heavy);
    pallet.create_market(Origin::Signed(ALICE), 1, 100, ORACLE, 1, true).unwrap();
    pallet.create_market(Origin::Signed(ALICE), 1, 100, ORACLE, 1, true).unwrap();
    let (weight, events) = pallet.emit_highest_outcomes(5);
    assert_eq!(weight, Weight { ref_time: u64::MAX, proof_size: 6 });
    assert_eq!(events.len(), 2);
}

#[test]
fn idle_time_pays_for_as_many_scans_as_fit() {
    let pallet = three_markets();
    // ten scans fit, three markets are there
    let (left, events) = pallet.on_idle(7, Weight { ref_time: 100, proof_size: 10 });
    assert_eq!(left, Weight { ref_time: 70, proof_size: 7 });
    assert_eq!(events.len(), 3);
    // two scans fit by time, a hundred by size
    let (left, events) = pallet.on_idle(7, Weight { ref_time: 25, proof_size: 100 });
    assert_eq!(left, Weight { ref_time: 5, proof_size: 98 });
    assert_eq!(
        events,
        vec![
            Event::HighestOutcome { market_id: 1, highest_outcome: Some(1) },
            Event::HighestOutcome { market_id: 2, highest_outcome: Some(0) },
        ]
    );
    // the size decides
    let (left, events) = pallet.on_idle(7, Weight { ref_time: 1000, proof_size: 1 });
    assert_eq!(left, Weight { ref_time: 990, proof_size: 0 });
    assert_eq!(events.len(), 1);
    // not one scan fits
    let (left, events) = pallet.on_idle(7, Weight { ref_time: 9, proof_size: 100 });
    assert_eq!(left, Weight { ref_time: 9, proof_size: 100 });
    assert_eq!(events, vec![]);
}

#[test]
fn a_scan_that_costs_nothing_in_one_part_is_limited_by_the_other() {
    let mut free_of_size = config();
    free_of_size.scan_weight = Weight { ref_time: 10, proof_size: 0 };
    let mut pallet = Pallet::new(free_of_size);
    for _ in 0..3 {
        pallet.create_market(Origin::Signed(ALICE), 1, 100, ORACLE, 1, true).unwrap();
    }
    let (left, events) = pallet.on_idle(1, Weight { ref_time: 25, proof_size: 0 });
    assert_eq!(left, Weight { ref_time: 5, proof_size: 0 });
    assert_eq!(events.len(), 2);
}

#[test]
fn a_scan_that_costs_nothing_at_all_is_not_run() {
    let mut free = config();
    free.scan_weight = Weight { ref_time: 0, proof_size: 0 };
    let mut pallet = Pallet::new(free);
    pallet.create_market(Origin::Signed(ALICE), 1, 100, ORACLE, 1, true).unwrap();
    let (left, events) = pallet.on_idle(1, Weight { ref_time: 25, proof_size: 4 });
    assert_eq!(left, Weight { ref_time: 25, proof_size: 4 });
    assert_eq!(events, vec![]);
}

#[test]
fn the_highest_outcome_is_the_first_with_the_highest_price() {
    assert_eq!(highest_outcome(&vec![]), None);
    assert_eq!(highest_outcome(&vec![outcome(0)]), Some(0));
    assert_eq!(highest_outcome(&vec![outcome(0), outcome(0)]), Some(0));
    assert_eq!(highest_outcome(&vec![outcome(5), outcome(7), outcome(7)]), Some(1));
    assert_eq!(highest_outcome(&vec![outcome(7), outcome(5), outcome(7)]), Some(0));
    assert_eq!(highest_outcome(&vec![outcome(1), outcome(2), outcome(3)]), Some(2));
    let mut long: Vec<Outcome> = (0..256).map(|_| outcome(1)).collect();
    long[255] = outcome(2);
    assert_eq!(highest_outcome(&long), Some(255));
}

#[test]
fn a_share_is_the_whole_quotient_of_price_and_total() {
    assert_eq!(outcome(10).p(3), 3);
    assert_eq!(outcome(10).p(10), 1);
    assert_eq!(outcome(10).p(11), 0);
    assert_eq!(outcome(10).p(0), 0);
    assert_eq!(outcome(0).p(0), 0);
    assert_eq!(outcome(u128::MAX).p(1), u128::MAX);
}

#[test]
fn the_share_of_an_outcome_in_its_list() {
    let list = vec![outcome(10), outcome(30)];
    assert_eq!(sum_prices(&list), 40);
    assert_eq!(Pallet::g(&list, 0), Ok(0));
    assert_eq!(Pallet::g(&list, 1), Ok(0));
    assert_eq!(Pallet::g(&list, 2), Err(Error::Invalid));
    assert_eq!(Pallet::g(&vec![outcome(10)], 0), Ok(1));
    assert_eq!(Pallet::g(&vec![outcome(10), outcome(0)], 0), Ok(1));
    assert_eq!(Pallet::g(&vec![outcome(10), outcome(0)], 1), Ok(0));
    // nothing staked: the share is zero
    assert_eq!(Pallet::g(&vec![outcome(0), outcome(0)], 1), Ok(0));
    assert_eq!(Pallet::g(&vec![], 0), Err(Error::Invalid));
    assert_eq!(sum_prices(&vec![]), 0);
    assert_eq!(sum_prices(&vec![outcome(u128::MAX - 1), outcome(1)]), u128::MAX);
}

#[test]
fn reaching_a_tick_costs_a_read_for_each_id_and_a_write_for_each_closing() {
    let mut pallet = three_markets();
    // nothing waits at this tick: the bucket is read and deleted
    assert_eq!(pallet.on_initialize(50), (Weight { ref_time: 125, proof_size: 0 }, vec![]));
    pallet.destroy_market(Origin::Root, 1).unwrap();
    // two ids, of which one market is left
    assert_eq!(
        pallet.on_initialize(100),
        (Weight { ref_time: 275, proof_size: 0 }, vec![Event::MarketClosed { market_id: 2 }])
    );
    assert_eq!(
        pallet.on_initialize(200),
        (Weight { ref_time: 250, proof_size: 0 }, vec![Event::MarketClosed { market_id: 3 }])
    );
    assert_eq!(pallet.on_initialize(200), (Weight { ref_time: 125, proof_size: 0 }, vec![]));
}

#[test]
fn the_cost_of_reaching_a_tick_stops_at_the_largest_weight() {
    let mut dear = config();
    dear.db_weight = DbWeight { read: u64::MAX / 2, write: 7 };
    let mut pallet = Pallet::new(dear);
    pallet.create_market(Origin::Signed(ALICE), 1, 100, ORACLE, 1, true).unwrap();
    pallet.create_market(Origin::Signed(ALICE), 1, 100, ORACLE, 1, true).unwrap();
    let (weight, events) = pallet.on_initialize(100);
    assert_eq!(weight, Weight { ref_time: u64::MAX, proof_size: 0 });
    assert_eq!(events.len(), 2);
    let (weight, _) = pallet.on_initialize(7);
    assert_eq!(weight, Weight { ref_time: u64::MAX / 2 + 7, proof_size: 0 });
}

#[test]
fn looking_up_a_market_costs_one_read() {
    let pallet = three_markets();
    let (weight, market) = pallet.get_market(&3).unwrap();
    assert_eq!(weight, Weight { ref_time: 25, proof_size: 0 });
    assert_eq!(market.end, 200);
    assert_eq!(pallet.get_market(&4), Err(Error::MarketNotFound));
}
