use crate::account::{escrow_account, market_account_for, same_account};
use crate::bounded::{
    bucket_clone, bucket_ids, bucket_into_inner, bucket_new, bucket_try_push, Bucket,
};
use crate::history::Step;
use crate::model::{
    bond_release, buy_outcome_refusal, clear_storage_refusal, closed_event, closing_at,
    closing_weight, create_market_refusal, destroy_market_refusal, idle_scan, lemma_market_created,
    lemma_market_redeemed, lemma_market_removed, lemma_market_reported, lemma_outcome_bought,
    lemma_tick_reached, market_created, market_redeemed, market_removed, market_reported,
    markets_closed, outcome_bought, purchase_ledger, redeem_refusal, report_as_oracle_refusal,
    reported_outcome, scan_events, scanned, tick_reached, winning_outcome,
};
use crate::pricing::{highest_outcome, share_of, sum_prices, total_price};
use crate::state::{fresh_outcomes, State};
use crate::types::{
    ensure_root, ensure_signed, AccountId, Balance, BlockNumber, Config, DefaultMarketCounter,
    Error, Event, LedgerCall, Market, MarketId, MarketStatus, Origin, Outcome, Receipt, Weight,
};
use crate::weight::{
    checked_div_per_component, lemma_one_more_read, lemma_one_more_write,
    lemma_weight_times_next, reads, saturating_add, saturating_sub, weight_of_accesses,
    weight_of_reads, weight_times, writes,
};
use std::collections::BTreeMap;
use vstd::prelude::*;

verus! {

broadcast use vstd::std_specs::btree::group_btree_axioms;

/// The market engine: the constants it was set up with, the next market id, the market records,
/// the outcome lists, the ids of the markets from the smallest to the largest, and the close
/// schedule.
///
/// A call that succeeds changes the engine and hands back a receipt. The collateral itself is
/// kept by a ledger outside: the caller carries out what the receipt asks of the ledger, and
/// where the ledger refuses, the caller goes back to the engine as it was before the call (a
/// clone of it will do).
#[derive(Clone)]
pub struct Pallet {
    config: Config,
    market_counter: MarketId,
    markets: BTreeMap<MarketId, Market>,
    outcomes: BTreeMap<MarketId, Vec<Outcome>>,
    order: Vec<MarketId>,
    market_ids_per_close_block: BTreeMap<BlockNumber, Bucket>,
}

impl View for Pallet {
    type V = State;

    closed spec fn view(&self) -> State {
        State {
            config: self.config,
            market_counter: self.market_counter,
            markets: self.markets@,
            outcomes: self.outcomes@.map_values(|list: Vec<Outcome>| list@),
            order: self.order@,
            schedule: self.market_ids_per_close_block@.map_values(
                |bucket: Bucket| bucket_ids(bucket),
            ),
        }
    }
}

impl Pallet {
    /// Whether the engine is in a state that an engine can reach.
    pub open spec fn wf(&self) -> bool {
        self@.inv()
    }

    /// An engine in which nothing has happened yet. Its first market gets the id 1.
    pub fn new(config: Config) -> (pallet: Pallet)
        ensures
            pallet.wf(),
            pallet@ == State::initial(config),
    {
        let pallet = Pallet {
            config,
            market_counter: DefaultMarketCounter(),
            markets: BTreeMap::new(),
            outcomes: BTreeMap::new(),
            order: Vec::new(),
            market_ids_per_close_block: BTreeMap::new(),
        };
        proof {
            assert(pallet@.outcomes =~= Map::empty());
            assert(pallet@.schedule =~= Map::empty());
            assert(pallet@.markets.dom() =~= pallet@.outcomes.dom());
        }
        pallet
    }

    /// An engine without markets that gives its first market the id `first`. There is no such
    /// engine for the id 0.
    pub fn starting_at(config: Config, first: MarketId) -> (pallet: Option<Pallet>)
        ensures
            match pallet {
                Some(pallet) => first >= 1 && pallet.wf() && pallet@ == State::starting_at(
                    config,
                    first,
                ),
                None => first == 0,
            },
    {
        if first == 0 {
            return None;
        }
        let pallet = Pallet {
            config,
            market_counter: first,
            markets: BTreeMap::new(),
            outcomes: BTreeMap::new(),
            order: Vec::new(),
            market_ids_per_close_block: BTreeMap::new(),
        };
        proof {
            assert(pallet@.outcomes =~= Map::empty());
            assert(pallet@.schedule =~= Map::empty());
            assert(pallet@.markets.dom() =~= pallet@.outcomes.dom());
        }
        Some(pallet)
    }

    /// Opens a market for `origin`, with `outcome_amount` outcomes, to close at `end`, and to
    /// be reported on by `oracle`. `now` is the current tick, and `can_reserve` the ledger's
    /// answer to whether the creator can reserve the bond.
    pub fn create_market(
        &mut self,
        origin: Origin,
        outcome_amount: u8,
        end: BlockNumber,
        oracle: AccountId,
        now: BlockNumber,
        can_reserve: bool,
    ) -> (result: Result<Receipt, Error>)
        requires
            old(self).wf(),
        ensures
            final(self).wf(),
            final(self)@.follows(old(self)@),
            ({
                let step = Step::CreateMarket {
                    origin,
                    outcome_amount,
                    end,
                    oracle,
                    now,
                    can_reserve,
                };
                &&& final(self)@ == step.after(old(self)@)
                &&& result is Ok ==> result->Ok_0.ledger@ == step.ledger_calls(old(self)@)
            }),
            match result {
                Ok(receipt) => {
                    &&& create_market_refusal(
                        old(self)@,
                        origin,
                        outcome_amount,
                        end,
                        now,
                        can_reserve,
                    ) is None
                    &&& final(self)@ == market_created(
                        old(self)@,
                        origin->Signed_0,
                        outcome_amount,
                        end,
                        oracle,
                    )
                    &&& receipt.ledger@ == seq![
                        LedgerCall::Reserve {
                            who: origin->Signed_0,
                            value: old(self)@.config.creator_bond,
                        },
                    ]
                    &&& receipt.event == Some(
                        Event::MarketCreated {
                            market_id: old(self)@.market_counter,
                            creator: origin->Signed_0,
                        },
                    )
                },
                Err(error) => {
                    &&& create_market_refusal(
                        old(self)@,
                        origin,
                        outcome_amount,
                        end,
                        now,
                        can_reserve,
                    ) == Some(error)
                    &&& final(self)@ == old(self)@
                },
            },
    {
        let who = match ensure_signed(origin) {
            Ok(who) => who,
            Err(error) => { return Err(error); },
        };
        if !can_reserve {
            return Err(Error::InsufficientCreatorBalance);
        }
        if outcome_amount == 0 {
            return Err(Error::OutcomeAmountTooLow);
        }
        if end.saturating_sub(now) < self.config.min_market_period {
            return Err(Error::BelowMinMarketPeriod);
        }
        let market_id = self.market_counter;
        let new_counter = match market_id.checked_add(1) {
            Some(next) => next,
            None => { return Err(Error::MarketCounterStorageOverflow); },
        };
        if outcome_amount as u32 > self.config.max_outcomes {
            return Err(Error::OutcomesStorageOverflow);
        }
        let mut outcomes: Vec<Outcome> = Vec::new();
        let mut i: u8 = 0;
        while i < outcome_amount
            invariant
                0 <= i <= outcome_amount,
                outcomes@ == fresh_outcomes(who, i),
            decreases outcome_amount - i,
        {
            outcomes.push(Outcome { owner: who, data: [i;32], price: 0 });
            i += 1;
            assert(outcomes@ =~= fresh_outcomes(who, i));
        }
        let market = Market {
            creator: who,
            bond: self.config.creator_bond,
            data: [0u8;32],
            end,
            oracle,
            oracle_outcome_report: None,
            status: MarketStatus::Active,
        };
        let ghost before = self@;
        let mut bucket = match self.market_ids_per_close_block.remove(&end) {
            Some(bucket) => bucket,
            None => bucket_new(),
        };
        assert(bucket_ids(bucket) == before.due_at(end));
        let pushed = bucket_try_push(&mut bucket, market_id);
        self.market_ids_per_close_block.insert(end, bucket);
        if pushed.is_err() {
            assert(self@.schedule =~= before.schedule);
            return Err(Error::MarketIdsPerCloseBlockStorageOverflow);
        }
        self.outcomes.insert(market_id, outcomes);
        self.markets.insert(market_id, market);
        self.order.push(market_id);
        self.market_counter = new_counter;
        let mut ledger: Vec<LedgerCall> = Vec::new();
        ledger.push(LedgerCall::Reserve { who, value: self.config.creator_bond });
        proof {
            let after = market_created(before, who, outcome_amount, end, oracle);
            lemma_market_created(before, origin, outcome_amount, end, oracle, now, can_reserve);
            assert(self@.schedule =~= after.schedule);
            assert(self@.outcomes =~= after.outcomes);
            assert(self@.markets =~= after.markets);
            assert(after.markets.dom() =~= after.outcomes.dom());
            assert(ledger@ =~= seq![
                LedgerCall::Reserve { who, value: before.config.creator_bond },
            ]);
        }
        Ok(Receipt { ledger, event: Some(Event::MarketCreated { market_id, creator: who }) })
    }

    /// Deletes the record and the outcomes of a market.
    fn forget(&mut self, market_id: MarketId)
        requires
            old(self).wf(),
            old(self)@.markets.contains_key(market_id),
        ensures
            final(self).wf(),
            final(self)@ == market_removed(old(self)@, market_id),
    {
        let ghost before = self@;
        let mut at: usize = 0;
        while at < self.order.len() && self.order[at] != market_id
            invariant
                *self == *old(self),
                at <= self.order.len(),
                forall|i: int| 0 <= i < at ==> self.order[i] != market_id,
            decreases self.order.len() - at,
        {
            at += 1;
        }
        proof {
            let found = before.order.index_of(market_id);
            assert(before.order.contains(market_id));
            assert(0 <= found < before.order.len() && before.order[found] == market_id);
            assert(at == found);
        }
        self.order.remove(at);
        self.markets.remove(&market_id);
        self.outcomes.remove(&market_id);
        proof {
            lemma_market_removed(before, market_id);
            assert(self@.outcomes =~= market_removed(before, market_id).outcomes);
        }
    }

    /// Deletes a market and its outcomes on the word of the privileged operator. The bond is
    /// not touched.
    pub fn destroy_market(&mut self, origin: Origin, market_id: MarketId) -> (result: Result<
        Receipt,
        Error,
    >)
        requires
            old(self).wf(),
        ensures
            final(self).wf(),
            final(self)@.follows(old(self)@),
            ({
                let step = Step::DestroyMarket { origin, market_id };
                &&& final(self)@ == step.after(old(self)@)
                &&& result is Ok ==> result->Ok_0.ledger@ == step.ledger_calls(old(self)@)
            }),
            match result {
                Ok(receipt) => {
                    &&& destroy_market_refusal(old(self)@, origin, market_id) is None
                    &&& final(self)@ == market_removed(old(self)@, market_id)
                    &&& receipt.ledger@ == Seq::<LedgerCall>::empty()
                    &&& receipt.event == Some(Event::MarketDestroyed { market_id })
                },
                Err(error) => {
                    &&& destroy_market_refusal(old(self)@, origin, market_id) == Some(error)
                    &&& final(self)@ == old(self)@
                },
            },
    {
        if let Err(error) = ensure_root(origin) {
            return Err(error);
        }
        if !self.markets.contains_key(&market_id) {
            return Err(Error::MarketNotFound);
        }
        self.forget(market_id);
        Ok(Receipt { ledger: Vec::new(), event: Some(Event::MarketDestroyed { market_id }) })
    }

    /// Buys the outcome `outcome_index` of a market for `price`, on behalf of `origin`.
    /// `buyer_free` is the buyer's free balance, and `can_withdraw` the ledger's answer to
    /// whether the buyer may withdraw `price` from it.
    pub fn buy_outcome(
        &mut self,
        origin: Origin,
        market_id: MarketId,
        outcome_index: u8,
        price: Balance,
        buyer_free: Balance,
        can_withdraw: bool,
    ) -> (result: Result<Receipt, Error>)
        requires
            old(self).wf(),
        ensures
            final(self).wf(),
            final(self)@.follows(old(self)@),
            ({
                let step = Step::BuyOutcome {
                    origin,
                    market_id,
                    outcome_index,
                    price,
                    buyer_free,
                    can_withdraw,
                };
                &&& final(self)@ == step.after(old(self)@)
                &&& result is Ok ==> result->Ok_0.ledger@ == step.ledger_calls(old(self)@)
            }),
            match result {
                Ok(receipt) => {
                    &&& buy_outcome_refusal(
                        old(self)@,
                        origin,
                        market_id,
                        outcome_index,
                        price,
                        buyer_free,
                        can_withdraw,
                    ) is None
                    &&& final(self)@ == outcome_bought(
                        old(self)@,
                        origin->Signed_0,
                        market_id,
                        outcome_index,
                        price,
                    )
                    &&& receipt.ledger@ == purchase_ledger(
                        old(self)@,
                        origin->Signed_0,
                        market_id,
                        outcome_index,
                        price,
                    )
                    &&& receipt.event == Some(
                        Event::OutcomeBought { market_id, outcome_index, buyer: origin->Signed_0 },
                    )
                },
                Err(error) => {
                    &&& buy_outcome_refusal(
                        old(self)@,
                        origin,
                        market_id,
                        outcome_index,
                        price,
                        buyer_free,
                        can_withdraw,
                    ) == Some(error)
                    &&& final(self)@ == old(self)@
                },
            },
    {
        let who = match ensure_signed(origin) {
            Ok(who) => who,
            Err(error) => { return Err(error); },
        };
        if buyer_free < price || !can_withdraw {
            return Err(Error::InsufficientBuyerBalance);
        }
        let market = match self.markets.get(&market_id) {
            Some(market) => *market,
            None => { return Err(Error::MarketNotFound); },
        };
        if market.status != MarketStatus::Active {
            return Err(Error::MarketNotActive);
        }
        let ghost before = self@;
        assert(before.outcomes.contains_key(market_id));
        let mut outcomes = match self.outcomes.remove(&market_id) {
            Some(outcomes) => outcomes,
            None => { return Err(Error::MarketNotFound); },
        };
        let index = outcome_index as usize;
        if index >= outcomes.len() {
            self.outcomes.insert(market_id, outcomes);
            assert(self@.outcomes =~= before.outcomes);
            return Err(Error::InvalidOutcomeIndex);
        }
        let held = outcomes[index];
        if !(held.price < price) {
            self.outcomes.insert(market_id, outcomes);
            assert(self@.outcomes =~= before.outcomes);
            return Err(Error::PriceTooLow);
        }
        let escrow = market_account_for(self.config.pallet_id, market_id);
        let mut ledger: Vec<LedgerCall> = Vec::new();
        if held.price != 0 {
            ledger.push(
                LedgerCall::Transfer { source: escrow, dest: held.owner, value: held.price },
            );
        }
        ledger.push(LedgerCall::Transfer { source: who, dest: escrow, value: price });
        outcomes.set(index, Outcome { owner: who, data: held.data, price });
        self.outcomes.insert(market_id, outcomes);
        proof {
            let after = outcome_bought(before, who, market_id, outcome_index, price);
            lemma_outcome_bought(
                before,
                origin,
                market_id,
                outcome_index,
                price,
                buyer_free,
                can_withdraw,
            );
            assert(self@.outcomes =~= after.outcomes);
            assert(ledger@ =~= purchase_ledger(before, who, market_id, outcome_index, price));
        }
        Ok(
            Receipt {
                ledger,
                event: Some(Event::OutcomeBought { market_id, outcome_index, buyer: who }),
            },
        )
    }

    /// Records that the oracle names `outcome_index` as the result of a closed market. The
    /// index is recorded as it is, whether or not the market has such an outcome.
    pub fn report_as_oracle(
        &mut self,
        origin: Origin,
        market_id: MarketId,
        outcome_index: u8,
    ) -> (result: Result<Receipt, Error>)
        requires
            old(self).wf(),
        ensures
            final(self).wf(),
            final(self)@.follows(old(self)@),
            ({
                let step = Step::ReportAsOracle { origin, market_id, outcome_index };
                &&& final(self)@ == step.after(old(self)@)
                &&& result is Ok ==> result->Ok_0.ledger@ == step.ledger_calls(old(self)@)
            }),
            match result {
                Ok(receipt) => {
                    &&& report_as_oracle_refusal(old(self)@, origin, market_id) is None
                    &&& final(self)@ == market_reported(old(self)@, market_id, outcome_index)
                    &&& receipt.ledger@ == Seq::<LedgerCall>::empty()
                    &&& receipt.event == Some(
                        Event::MarketReported { market_id, oracle_report_outcome: outcome_index },
                    )
                },
                Err(error) => {
                    &&& report_as_oracle_refusal(old(self)@, origin, market_id) == Some(error)
                    &&& final(self)@ == old(self)@
                },
            },
    {
        let who = match ensure_signed(origin) {
            Ok(who) => who,
            Err(error) => { return Err(error); },
        };
        let mut market = match self.markets.get(&market_id) {
            Some(market) => *market,
            None => { return Err(Error::MarketNotFound); },
        };
        if market.oracle_outcome_report.is_some() {
            return Err(Error::OutcomeAlreadyReported);
        }
        if market.status != MarketStatus::Closed {
            return Err(Error::InvalidMarketStatus);
        }
        if !same_account(&market.oracle, &who) {
            return Err(Error::CallerNotOracle);
        }
        let ghost before = self@;
        market.oracle_outcome_report = Some(outcome_index);
        market.status = MarketStatus::Reported;
        self.markets.insert(market_id, market);
        proof {
            lemma_market_reported(before, origin, market_id, outcome_index);
            assert(self@.markets =~= market_reported(before, market_id, outcome_index).markets);
        }
        Ok(
            Receipt {
                ledger: Vec::new(),
                event: Some(
                    Event::MarketReported { market_id, oracle_report_outcome: outcome_index },
                ),
            },
        )
    }

    /// Pays out a reported market: all that its escrow account holds, `escrow_balance`, goes
    /// to whoever holds the outcome that the oracle named. Any signed origin may ask for this,
    /// once: a market that has been redeemed is not redeemed again.
    pub fn redeem(
        &mut self,
        origin: Origin,
        market_id: MarketId,
        escrow_balance: Balance,
    ) -> (result: Result<Receipt, Error>)
        requires
            old(self).wf(),
        ensures
            final(self).wf(),
            final(self)@.follows(old(self)@),
            ({
                let step = Step::Redeem { origin, market_id, escrow_balance };
                &&& final(self)@ == step.after(old(self)@)
                &&& result is Ok ==> result->Ok_0.ledger@ == step.ledger_calls(old(self)@)
            }),
            match result {
                Ok(receipt) => {
                    &&& redeem_refusal(old(self)@, origin, market_id) is None
                    &&& final(self)@ == market_redeemed(old(self)@, market_id)
                    &&& receipt.ledger@ == seq![
                        LedgerCall::Transfer {
                            source: escrow_account(old(self)@.config.pallet_id, market_id),
                            dest: winning_outcome(old(self)@, market_id).owner,
                            value: escrow_balance,
                        },
                    ]
                    &&& receipt.event == Some(
                        Event::MarketRedeemed {
                            market_id,
                            winner_outcome: reported_outcome(old(self)@, market_id),
                            winner: winning_outcome(old(self)@, market_id).owner,
                        },
                    )
                },
                Err(error) => {
                    &&& redeem_refusal(old(self)@, origin, market_id) == Some(error)
                    &&& final(self)@ == old(self)@
                },
            },
    {
        if let Err(error) = ensure_signed(origin) {
            return Err(error);
        }
        let mut market = match self.markets.get(&market_id) {
            Some(market) => *market,
            None => { return Err(Error::MarketNotFound); },
        };
        let reported_index = match market.oracle_outcome_report {
            Some(index) => index,
            None => { return Err(Error::OutcomeNotReportedYet); },
        };
        if market.status != MarketStatus::Reported {
            return Err(Error::InvalidMarketStatus);
        }
        let ghost before = self@;
        assert(before.outcomes.contains_key(market_id));
        let winner = match self.outcomes.get(&market_id) {
            Some(outcomes) => {
                if reported_index as usize >= outcomes.len() {
                    return Err(Error::InvalidOutcomeIndex);
                }
                outcomes[reported_index as usize].owner
            },
            None => { return Err(Error::InvalidOutcomeIndex); },
        };
        let escrow = market_account_for(self.config.pallet_id, market_id);
        let mut ledger: Vec<LedgerCall> = Vec::new();
        ledger.push(LedgerCall::Transfer { source: escrow, dest: winner, value: escrow_balance });
        market.status = MarketStatus::Redeemed;
        self.markets.insert(market_id, market);
        proof {
            lemma_market_redeemed(before, origin, market_id);
            assert(self@.markets =~= market_redeemed(before, market_id).markets);
            assert(ledger@ =~= seq![
                LedgerCall::Transfer { source: escrow, dest: winner, value: escrow_balance },
            ]);
        }
        Ok(
            Receipt {
                ledger,
                event: Some(
                    Event::MarketRedeemed { market_id, winner_outcome: reported_index, winner },
                ),
            },
        )
    }

    /// Deletes a redeemed market and its outcomes and lets go of the bond. `now` is the
    /// current tick: until the grace window after the market's end has passed, only the
    /// creator may do this.
    pub fn clear_storage(
        &mut self,
        origin: Origin,
        market_id: MarketId,
        now: BlockNumber,
    ) -> (result: Result<Receipt, Error>)
        requires
            old(self).wf(),
        ensures
            final(self).wf(),
            final(self)@.follows(old(self)@),
            ({
                let step = Step::ClearStorage { origin, market_id, now };
                &&& final(self)@ == step.after(old(self)@)
                &&& result is Ok ==> result->Ok_0.ledger@ == step.ledger_calls(old(self)@)
            }),
            match result {
                Ok(receipt) => {
                    &&& clear_storage_refusal(old(self)@, origin, market_id, now) is None
                    &&& final(self)@ == market_removed(old(self)@, market_id)
                    &&& receipt.ledger@ == seq![
                        bond_release(old(self)@, origin->Signed_0, market_id),
                    ]
                    &&& receipt.event is None
                },
                Err(error) => {
                    &&& clear_storage_refusal(old(self)@, origin, market_id, now) == Some(error)
                    &&& final(self)@ == old(self)@
                },
            },
    {
        let who = match ensure_signed(origin) {
            Ok(who) => who,
            Err(error) => { return Err(error); },
        };
        let market = match self.markets.get(&market_id) {
            Some(market) => *market,
            None => { return Err(Error::MarketNotFound); },
        };
        if market.status != MarketStatus::Redeemed {
            return Err(Error::InvalidMarketStatus);
        }
        let by_creator = same_account(&market.creator, &who);
        if now.saturating_sub(market.end) <= self.config.market_creator_clear_storage_time {
            if !by_creator {
                return Err(Error::OnlyMarketCreatorAllowedYet);
            }
        }
        let mut ledger: Vec<LedgerCall> = Vec::new();
        if !by_creator {
            ledger.push(
                LedgerCall::RepatriateReserved {
                    slashed: market.creator,
                    beneficiary: who,
                    value: market.bond,
                },
            );
        } else {
            ledger.push(LedgerCall::Unreserve { who: market.creator, value: market.bond });
        }
        assert(ledger@ =~= seq![bond_release(self@, who, market_id)]);
        self.forget(market_id);
        Ok(Receipt { ledger, event: None })
    }

    /// The record of a market, and what it cost to look it up: one read of the store.
    pub fn get_market(&self, market_id: &MarketId) -> (result: Result<(Weight, Market), Error>)
        ensures
            match result {
                Ok((weight, market)) => {
                    &&& self@.markets.contains_key(*market_id)
                    &&& market == self@.markets[*market_id]
                    &&& weight == weight_of_reads(self@.config.db_weight, 1)
                },
                Err(error) => !self@.markets.contains_key(*market_id) && error
                    == Error::MarketNotFound,
            },
    {
        let weight = reads(self.config.db_weight, 1);
        match self.markets.get(market_id) {
            Some(market) => Ok((weight, *market)),
            None => Err(Error::MarketNotFound),
        }
    }

    /// The constants that the engine was set up with.
    pub fn config(&self) -> (config: Config)
        ensures
            config == self@.config,
    {
        self.config
    }

    /// The id that the next market will get.
    pub fn market_counter(&self) -> (next: MarketId)
        ensures
            next == self@.market_counter,
    {
        self.market_counter
    }

    /// The escrow account of a market.
    pub fn market_account(&self, market_id: MarketId) -> (account: AccountId)
        ensures
            account == escrow_account(self@.config.pallet_id, market_id),
    {
        market_account_for(self.config.pallet_id, market_id)
    }

    /// The ids of the markets that are to close at `tick`, in the order in which they were
    /// scheduled.
    pub fn market_ids_per_close_block(&self, tick: BlockNumber) -> (ids: Vec<MarketId>)
        ensures
            ids@ == self@.due_at(tick),
    {
        match self.market_ids_per_close_block.get(&tick) {
            Some(bucket) => bucket_into_inner(bucket_clone(bucket)),
            None => Vec::new(),
        }
    }

    /// The outcomes of a market, where there is such a market.
    pub fn outcomes(&self, market_id: MarketId) -> (list: Option<Vec<Outcome>>)
        ensures
            match list {
                Some(list) => self@.outcomes.contains_key(market_id) && list@
                    == self@.outcomes[market_id],
                None => !self@.outcomes.contains_key(market_id),
            },
    {
        match self.outcomes.get(&market_id) {
            Some(list) => Some(list.clone()),
            None => None,
        }
    }

    /// The clock has reached the tick `n`: the markets that wait in the bucket of `n` are
    /// closed, each with an announcement, and the bucket is deleted. Comes back with what this
    /// cost in reads and writes of the store, and with the announcements.
    ///
    /// A market that is found in a bucket is always an active one: the engine lets no other
    /// wait there.
    pub fn on_initialize(&mut self, n: BlockNumber) -> (result: (Weight, Vec<Event>))
        requires
            old(self).wf(),
        ensures
            final(self).wf(),
            final(self)@.follows(old(self)@),
            final(self)@ == (Step::TickReached { tick: n }).after(old(self)@),
            final(self)@ == tick_reached(old(self)@, n),
            result.0 == closing_weight(old(self)@, n),
            result.1@ == closing_at(old(self)@, n).map_values(|id: MarketId| closed_event(id)),
    {
        let ghost before = self@;
        let db = self.config.db_weight;
        let mut total_weight = Weight { ref_time: 0, proof_size: 0 };
        assert(total_weight == weight_of_accesses(db, 0, 0));
        proof {
            lemma_one_more_read(db, 0, 0);
        }
        total_weight = saturating_add(total_weight, reads(db, 1));
        let ids = match self.market_ids_per_close_block.remove(&n) {
            Some(bucket) => bucket_into_inner(bucket),
            None => Vec::new(),
        };
        assert(ids@ == before.due_at(n));
        assert(self@.schedule =~= before.schedule.remove(n));
        assert(self@.markets =~= markets_closed(before.markets, ids@.take(0)));
        let ghost here = |id: MarketId| before.markets.contains_key(id);
        let ghost announce = |id: MarketId| closed_event(id);
        let mut events: Vec<Event> = Vec::new();
        assert(ids@.take(0).filter(here) =~= Seq::<MarketId>::empty()) by {
            reveal(Seq::filter);
        }
        assert(ids@.take(0).filter(here).map_values(announce) =~= events@);
        let mut at: usize = 0;
        while at < ids.len()
            invariant
                at <= ids.len(),
                db == before.config.db_weight,
                here == |id: MarketId| before.markets.contains_key(id),
                announce == |id: MarketId| closed_event(id),
                self@ == (State {
                    markets: markets_closed(before.markets, ids@.take(at as int)),
                    schedule: before.schedule.remove(n),
                    ..before
                }),
                events@ == ids@.take(at as int).filter(here).map_values(announce),
                total_weight == weight_of_accesses(
                    db,
                    1 + at as nat,
                    ids@.take(at as int).filter(here).len(),
                ),
            decreases ids.len() - at,
        {
            let market_id = ids[at];
            let ghost seen = ids@.take(at as int);
            let ghost next = ids@.take(at + 1);
            let ghost closed = seen.filter(here).len();
            proof {
                reveal(Seq::filter);
                assert(next.drop_last() =~= seen);
                assert(next.last() == market_id);
                assert forall|id: MarketId| next.contains(id) <==> seen.contains(id) || id
                    == market_id by {
                    if seen.contains(id) {
                        let i = choose|i: int| 0 <= i < seen.len() && seen[i] == id;
                        assert(next[i] == id);
                    }
                    if id == market_id {
                        assert(next[at as int] == id);
                    }
                    if next.contains(id) {
                        let i = choose|i: int| 0 <= i < next.len() && next[i] == id;
                        if i < at {
                            assert(seen[i] == id);
                        }
                    }
                }
                lemma_one_more_read(db, 1 + at as nat, closed);
            }
            total_weight = saturating_add(total_weight, reads(db, 1));
            let found = match self.markets.get(&market_id) {
                Some(market) => Some(*market),
                None => None,
            };
            match found {
                Some(mut market) => {
                    market.status = MarketStatus::Closed;
                    proof {
                        lemma_one_more_write(db, 2 + at as nat, closed);
                    }
                    total_weight = saturating_add(total_weight, writes(db, 1));
                    self.markets.insert(market_id, market);
                    events.push(Event::MarketClosed { market_id });
                    assert(next.filter(here) =~= seen.filter(here).push(market_id));
                    assert(events@ =~= next.filter(here).map_values(announce));
                },
                None => {
                    assert(next.filter(here) =~= seen.filter(here));
                    assert(events@ =~= next.filter(here).map_values(announce));
                },
            }
            assert(self@.markets =~= markets_closed(before.markets, next));
            at += 1;
        }
        proof {
            assert(ids@.take(at as int) =~= ids@);
            lemma_tick_reached(before, n);
            lemma_one_more_write(db, 1 + at as nat, ids@.filter(here).len());
        }
        total_weight = saturating_add(total_weight, writes(db, 1));
        (total_weight, events)
    }

    /// A look ahead from the tick `n`: the markets that are to close at the tick after it, as
    /// one announcement; nothing where there are none.
    pub fn on_finalize_impl(&self, n: BlockNumber) -> (event: Option<Event>)
        ensures
            match event {
                Some(Event::MarketsToCloseNextBlock { market_ids }) => market_ids@.len() > 0
                    && market_ids@ == self@.due_at(next_tick(n)),
                Some(_) => false,
                None => self@.due_at(next_tick(n)).len() == 0,
            },
    {
        let next_block = n.saturating_add(1);
        let market_ids = self.market_ids_per_close_block(next_block);
        if market_ids.len() == 0 {
            return None;
        }
        Some(Event::MarketsToCloseNextBlock { market_ids })
    }

    /// The tick `n` is over: the look ahead of `on_finalize_impl`.
    pub fn on_finalize(&self, n: BlockNumber) -> (event: Option<Event>)
        ensures
            match event {
                Some(Event::MarketsToCloseNextBlock { market_ids }) => market_ids@.len() > 0
                    && market_ids@ == self@.due_at(next_tick(n)),
                Some(_) => false,
                None => self@.due_at(next_tick(n)).len() == 0,
            },
    {
        self.on_finalize_impl(n)
    }

    /// Looks at up to `count` markets, in scan order, and announces the highest outcome of
    /// each. Comes back with the weight that this took: that of one scan for each market.
    pub fn emit_highest_outcomes(&self, count: usize) -> (result: (Weight, Vec<Event>))
        requires
            self.wf(),
        ensures
            result.0 == weight_times(self@.config.scan_weight, scanned(self@, count as nat)),
            result.1@ == scan_events(self@, scanned(self@, count as nat)),
    {
        let mut total_weight = Weight { ref_time: 0, proof_size: 0 };
        let mut events: Vec<Event> = Vec::new();
        let mut at: usize = 0;
        assert(events@ =~= scan_events(self@, 0));
        while at < self.order.len() && at < count
            invariant
                self.wf(),
                at <= self.order.len(),
                at <= count,
                total_weight == weight_times(self@.config.scan_weight, at as nat),
                events@ == scan_events(self@, at as nat),
            decreases self.order.len() - at,
        {
            let market_id = self.order[at];
            assert(self@.markets.contains_key(self@.order[at as int]));
            assert(self@.outcomes.contains_key(market_id));
            let highest_outcome = match self.outcomes.get(&market_id) {
                Some(outcomes) => highest_outcome(outcomes),
                None => None,
            };
            events.push(Event::HighestOutcome { market_id, highest_outcome });
            proof {
                lemma_weight_times_next(self@.config.scan_weight, at as nat);
            }
            total_weight = saturating_add(total_weight, self.config.scan_weight);
            at += 1;
            assert(events@ =~= scan_events(self@, at as nat));
        }
        (total_weight, events)
    }

    /// A tick has weight to spare: as many markets are scanned as `remaining_weight` pays
    /// for. Comes back with the weight that is then left, and with the announcements.
    pub fn on_idle(&self, _n: BlockNumber, remaining_weight: Weight) -> (result: (
        Weight,
        Vec<Event>,
    ))
        requires
            self.wf(),
        ensures
            result.0 == idle_scan(self@, remaining_weight).0,
            result.1@ == idle_scan(self@, remaining_weight).1,
    {
        match checked_div_per_component(remaining_weight, self.config.scan_weight) {
            Some(count) => {
                let within_reach: usize = if count > usize::MAX as u64 {
                    usize::MAX
                } else {
                    count as usize
                };
                assert(scanned(self@, within_reach as nat) == scanned(self@, count as nat)) by {
                    assert(self@.order.len() == self.order.len());
                }
                let (consumed_weight, events) = self.emit_highest_outcomes(within_reach);
                (saturating_sub(remaining_weight, consumed_weight), events)
            },
            None => {
                let events: Vec<Event> = Vec::new();
                assert(events@ =~= idle_scan(self@, remaining_weight).1);
                (remaining_weight, events)
            },
        }
    }

    /// The share of all that is staked on a list of outcomes that the outcome at `i` holds:
    /// how many times the total goes into its price, and zero where nothing is staked.
    pub fn g(o: &Vec<Outcome>, i: u8) -> (result: Result<Balance, Error>)
        requires
            total_price(o@) <= u128::MAX,
        ensures
            match result {
                Ok(share) => i < o.len() && share == share_of(
                    o[i as int].price,
                    total_price(o@) as Balance,
                ),
                Err(error) => i >= o.len() && error == Error::Invalid,
            },
    {
        let t = sum_prices(o);
        if i as usize >= o.len() {
            return Err(Error::Invalid);
        }
        Ok(o[i as usize].p(t))
    }
}

/// The tick after `n`; the last tick of all has none after it and stands for its own.
pub open spec fn next_tick(n: BlockNumber) -> BlockNumber {
    if n == u64::MAX {
        n
    } else {
        (n + 1) as BlockNumber
    }
}

} // verus!
