use crate::account::escrow_account;
use crate::pricing::highest_outcome_of;
use crate::state::{fresh_market, fresh_outcomes, State};
use crate::types::{
    AccountId, Balance, BlockNumber, Error, Event, LedgerCall, Market, MarketId, MarketStatus,
    Origin, Outcome, Weight,
};
use crate::weight::{units_within, weight_left, weight_of_accesses, weight_times};
use vstd::prelude::*;

verus! {

/// How many ticks lie between `from` and a later `to`; none where `to` is not later.
pub open spec fn ticks_between(from: BlockNumber, to: BlockNumber) -> nat {
    if to >= from {
        (to - from) as nat
    } else {
        0
    }
}

/// Why `create_market` refuses a call, if it does.
pub open spec fn create_market_refusal(
    s: State,
    origin: Origin,
    outcome_amount: u8,
    end: BlockNumber,
    now: BlockNumber,
    can_reserve: bool,
) -> Option<Error> {
    if !(origin is Signed) {
        Some(Error::BadOrigin)
    } else if !can_reserve {
        Some(Error::InsufficientCreatorBalance)
    } else if outcome_amount == 0 {
        Some(Error::OutcomeAmountTooLow)
    } else if ticks_between(now, end) < s.config.min_market_period {
        Some(Error::BelowMinMarketPeriod)
    } else if s.market_counter == u128::MAX {
        Some(Error::MarketCounterStorageOverflow)
    } else if outcome_amount > s.config.max_outcomes {
        Some(Error::OutcomesStorageOverflow)
    } else if s.due_at(end).len() >= 64 {
        Some(Error::MarketIdsPerCloseBlockStorageOverflow)
    } else {
        None
    }
}

/// The state after `creator` has opened a market in `s`.
pub open spec fn market_created(
    s: State,
    creator: AccountId,
    outcome_amount: u8,
    end: BlockNumber,
    oracle: AccountId,
) -> State {
    State {
        config: s.config,
        market_counter: (s.market_counter + 1) as MarketId,
        markets: s.markets.insert(s.market_counter, fresh_market(s.config, creator, end, oracle)),
        outcomes: s.outcomes.insert(s.market_counter, fresh_outcomes(creator, outcome_amount)),
        order: s.order.push(s.market_counter),
        schedule: s.schedule.insert(end, s.due_at(end).push(s.market_counter)),
    }
}

/// Opening a market leads from a reachable state to a reachable state.
pub proof fn lemma_market_created(
    s: State,
    origin: Origin,
    outcome_amount: u8,
    end: BlockNumber,
    oracle: AccountId,
    now: BlockNumber,
    can_reserve: bool,
)
    requires
        s.inv(),
        create_market_refusal(s, origin, outcome_amount, end, now, can_reserve) is None,
    ensures
        market_created(s, origin->Signed_0, outcome_amount, end, oracle).inv(),
        market_created(s, origin->Signed_0, outcome_amount, end, oracle).follows(s),
{
    let after = market_created(s, origin->Signed_0, outcome_amount, end, oracle);
    let new_id = s.market_counter;
    assert(after.markets.dom() =~= after.outcomes.dom());
    assert(after.schedule[end] == s.due_at(end).push(new_id));
    assert forall|i: int, j: int| 0 <= i < j < after.order.len() implies #[trigger] after.order[i]
        < #[trigger] after.order[j] by {
        assert(s.markets.contains_key(s.order[i]));
    }
    assert forall|id: MarketId| #[trigger]
        after.markets.contains_key(id) implies after.order.contains(id) by {
        if id == new_id {
            assert(after.order[s.order.len() as int] == new_id);
        } else {
            let i = choose|i: int| 0 <= i < s.order.len() && s.order[i] == id;
            assert(after.order[i] == id);
        }
    }
    assert forall|id: MarketId| #[trigger] after.markets.contains_key(id) implies {
        after.markets[id].status is Active ==> after.due_at(after.markets[id].end).contains(id)
    } by {
        if id == new_id {
            assert(after.due_at(end)[s.due_at(end).len() as int] == new_id);
        } else if s.markets[id].status is Active {
            let tick = s.markets[id].end;
            let i = choose|i: int| 0 <= i < s.due_at(tick).len() && s.due_at(tick)[i] == id;
            assert(after.due_at(tick)[i] == id);
        }
    }
    assert forall|tick: BlockNumber| #[trigger] after.schedule.contains_key(tick) implies
        after.schedule[tick].len() <= 64 && after.schedule[tick].no_duplicates() by {
        if tick == end {
            assert forall|i: int, j: int|
                0 <= i < after.schedule[end].len() && 0 <= j < after.schedule[end].len() && i
                    != j implies after.schedule[end][i] != after.schedule[end][j] by {
                if i < s.due_at(end).len() {
                    assert(s.schedule[end][i] < s.market_counter);
                }
                if j < s.due_at(end).len() {
                    assert(s.schedule[end][j] < s.market_counter);
                }
            }
        }
    }
    assert forall|tick: BlockNumber, i: int|
        after.schedule.contains_key(tick) && 0 <= i < after.schedule[tick].len() implies {
            let id = #[trigger] after.schedule[tick][i];
            &&& id < after.market_counter
            &&& (after.markets.contains_key(id) ==> after.markets[id].status is Active
                && after.markets[id].end == tick)
        } by {
        if tick == end && i < s.due_at(end).len() {
            assert(after.schedule[tick][i] == s.schedule[tick][i]);
        } else if tick != end {
            assert(after.schedule[tick][i] == s.schedule[tick][i]);
        }
    }
}

/// Why `buy_outcome` refuses a call, if it does.
pub open spec fn buy_outcome_refusal(
    s: State,
    origin: Origin,
    market_id: MarketId,
    outcome_index: u8,
    price: Balance,
    buyer_free: Balance,
    can_withdraw: bool,
) -> Option<Error> {
    if !(origin is Signed) {
        Some(Error::BadOrigin)
    } else if buyer_free < price || !can_withdraw {
        Some(Error::InsufficientBuyerBalance)
    } else if !s.markets.contains_key(market_id) {
        Some(Error::MarketNotFound)
    } else if !(s.markets[market_id].status is Active) {
        Some(Error::MarketNotActive)
    } else if outcome_index >= s.outcomes[market_id].len() {
        Some(Error::InvalidOutcomeIndex)
    } else if !(s.outcomes[market_id][outcome_index as int].price < price) {
        Some(Error::PriceTooLow)
    } else {
        None
    }
}

/// The state after `buyer` has bought an outcome in `s` for `price`: the outcome is the buyer's
/// and has this price.
pub open spec fn outcome_bought(
    s: State,
    buyer: AccountId,
    market_id: MarketId,
    outcome_index: u8,
    price: Balance,
) -> State {
    let held = s.outcomes[market_id][outcome_index as int];
    State {
        outcomes: s.outcomes.insert(
            market_id,
            s.outcomes[market_id].update(
                outcome_index as int,
                Outcome { owner: buyer, data: held.data, price },
            ),
        ),
        ..s
    }
}

/// The collateral that a purchase moves: where the outcome had a price, that price goes from
/// the escrow account back to its holder; then the new price goes from the buyer to the escrow
/// account.
pub open spec fn purchase_ledger(
    s: State,
    buyer: AccountId,
    market_id: MarketId,
    outcome_index: u8,
    price: Balance,
) -> Seq<LedgerCall> {
    let held = s.outcomes[market_id][outcome_index as int];
    let escrow = escrow_account(s.config.pallet_id, market_id);
    let payment = LedgerCall::Transfer { source: buyer, dest: escrow, value: price };
    if held.price != 0 {
        seq![LedgerCall::Transfer { source: escrow, dest: held.owner, value: held.price }, payment]
    } else {
        seq![payment]
    }
}

/// A purchase leads from a reachable state to a reachable state.
pub proof fn lemma_outcome_bought(
    s: State,
    origin: Origin,
    market_id: MarketId,
    outcome_index: u8,
    price: Balance,
    buyer_free: Balance,
    can_withdraw: bool,
)
    requires
        s.inv(),
        buy_outcome_refusal(s, origin, market_id, outcome_index, price, buyer_free, can_withdraw)
            is None,
    ensures
        outcome_bought(s, origin->Signed_0, market_id, outcome_index, price).inv(),
        outcome_bought(s, origin->Signed_0, market_id, outcome_index, price).follows(s),
{
    let after = outcome_bought(s, origin->Signed_0, market_id, outcome_index, price);
    assert(after.markets.dom() =~= after.outcomes.dom());
}

/// Why `report_as_oracle` refuses a call, if it does.
pub open spec fn report_as_oracle_refusal(s: State, origin: Origin, market_id: MarketId) -> Option<
    Error,
> {
    if !(origin is Signed) {
        Some(Error::BadOrigin)
    } else if !s.markets.contains_key(market_id) {
        Some(Error::MarketNotFound)
    } else if s.markets[market_id].oracle_outcome_report is Some {
        Some(Error::OutcomeAlreadyReported)
    } else if !(s.markets[market_id].status is Closed) {
        Some(Error::InvalidMarketStatus)
    } else if s.markets[market_id].oracle != origin->Signed_0 {
        Some(Error::CallerNotOracle)
    } else {
        None
    }
}

/// The state after the oracle has named `outcome_index` for a market of `s`.
pub open spec fn market_reported(s: State, market_id: MarketId, outcome_index: u8) -> State {
    State {
        markets: s.markets.insert(
            market_id,
            Market {
                oracle_outcome_report: Some(outcome_index),
                status: MarketStatus::Reported,
                ..s.markets[market_id]
            },
        ),
        ..s
    }
}

/// A report leads from a reachable state to a reachable state.
pub proof fn lemma_market_reported(
    s: State,
    origin: Origin,
    market_id: MarketId,
    outcome_index: u8,
)
    requires
        s.inv(),
        report_as_oracle_refusal(s, origin, market_id) is None,
    ensures
        market_reported(s, market_id, outcome_index).inv(),
        market_reported(s, market_id, outcome_index).follows(s),
{
    let after = market_reported(s, market_id, outcome_index);
    assert(after.markets.dom() =~= after.outcomes.dom());
    assert forall|id: MarketId| #[trigger] after.markets.contains_key(id) implies {
        after.markets[id].status is Active ==> after.due_at(after.markets[id].end).contains(id)
    } by {
        assert(s.markets.contains_key(id));
    }
}

/// Why `redeem` refuses a call, if it does.
pub open spec fn redeem_refusal(s: State, origin: Origin, market_id: MarketId) -> Option<Error> {
    if !(origin is Signed) {
        Some(Error::BadOrigin)
    } else if !s.markets.contains_key(market_id) {
        Some(Error::MarketNotFound)
    } else if s.markets[market_id].oracle_outcome_report is None {
        Some(Error::OutcomeNotReportedYet)
    } else if !(s.markets[market_id].status is Reported) {
        Some(Error::InvalidMarketStatus)
    } else if reported_outcome(s, market_id) >= s.outcomes[market_id].len() {
        Some(Error::InvalidOutcomeIndex)
    } else {
        None
    }
}

/// The index that the oracle named for a market of `s`.
pub open spec fn reported_outcome(s: State, market_id: MarketId) -> u8 {
    s.markets[market_id].oracle_outcome_report->Some_0
}

/// The outcome that the oracle named for a market of `s`.
pub open spec fn winning_outcome(s: State, market_id: MarketId) -> Outcome {
    s.outcomes[market_id][reported_outcome(s, market_id) as int]
}

/// The state after a market of `s` has been redeemed.
pub open spec fn market_redeemed(s: State, market_id: MarketId) -> State {
    State {
        markets: s.markets.insert(
            market_id,
            Market { status: MarketStatus::Redeemed, ..s.markets[market_id] },
        ),
        ..s
    }
}

/// A redemption leads from a reachable state to a reachable state.
pub proof fn lemma_market_redeemed(s: State, origin: Origin, market_id: MarketId)
    requires
        s.inv(),
        redeem_refusal(s, origin, market_id) is None,
    ensures
        market_redeemed(s, market_id).inv(),
        market_redeemed(s, market_id).follows(s),
{
    let after = market_redeemed(s, market_id);
    assert(after.markets.dom() =~= after.outcomes.dom());
    assert forall|id: MarketId| #[trigger] after.markets.contains_key(id) implies {
        after.markets[id].status is Active ==> after.due_at(after.markets[id].end).contains(id)
    } by {
        assert(s.markets.contains_key(id));
    }
}

/// Why `clear_storage` refuses a call, if it does.
pub open spec fn clear_storage_refusal(
    s: State,
    origin: Origin,
    market_id: MarketId,
    now: BlockNumber,
) -> Option<Error> {
    if !(origin is Signed) {
        Some(Error::BadOrigin)
    } else if !s.markets.contains_key(market_id) {
        Some(Error::MarketNotFound)
    } else if !(s.markets[market_id].status is Redeemed) {
        Some(Error::InvalidMarketStatus)
    } else if ticks_between(s.markets[market_id].end, now)
        <= s.config.market_creator_clear_storage_time && s.markets[market_id].creator
        != origin->Signed_0 {
        Some(Error::OnlyMarketCreatorAllowedYet)
    } else {
        None
    }
}

/// How the bond of a market leaves the creator's reserve when `caller` clears the market away:
/// back to the creator's free balance where the creator does it, else to the caller.
pub open spec fn bond_release(s: State, caller: AccountId, market_id: MarketId) -> LedgerCall {
    let market = s.markets[market_id];
    if caller != market.creator {
        LedgerCall::RepatriateReserved {
            slashed: market.creator,
            beneficiary: caller,
            value: market.bond,
        }
    } else {
        LedgerCall::Unreserve { who: market.creator, value: market.bond }
    }
}

/// The state after the record and the outcomes of a market of `s` have been deleted.
pub open spec fn market_removed(s: State, market_id: MarketId) -> State {
    State {
        markets: s.markets.remove(market_id),
        outcomes: s.outcomes.remove(market_id),
        order: s.order.remove(s.order.index_of(market_id)),
        ..s
    }
}

/// Deleting a market leads from a reachable state to a reachable state.
pub proof fn lemma_market_removed(s: State, market_id: MarketId)
    requires
        s.inv(),
        s.markets.contains_key(market_id),
    ensures
        market_removed(s, market_id).inv(),
        market_removed(s, market_id).follows(s),
{
    let after = market_removed(s, market_id);
    let gone = s.order.index_of(market_id);
    assert(s.order.contains(market_id));
    assert(0 <= gone < s.order.len() && s.order[gone] == market_id);
    assert(after.markets.dom() =~= after.outcomes.dom());
    assert forall|i: int| 0 <= i < after.order.len() implies after.markets.contains_key(
        #[trigger] after.order[i],
    ) by {
        if i < gone {
            assert(after.order[i] == s.order[i]);
        } else {
            assert(after.order[i] == s.order[i + 1]);
        }
    }
    assert forall|i: int, j: int| 0 <= i < j < after.order.len() implies #[trigger] after.order[i]
        < #[trigger] after.order[j] by {
        let from_i = if i < gone { i } else { i + 1 };
        let from_j = if j < gone { j } else { j + 1 };
        assert(after.order[i] == s.order[from_i]);
        assert(after.order[j] == s.order[from_j]);
    }
    assert forall|id: MarketId| #[trigger] after.markets.contains_key(id) implies {
        &&& after.order.contains(id)
        &&& (after.markets[id].status is Active ==> after.due_at(after.markets[id].end).contains(
            id,
        ))
    } by {
        assert(s.markets.contains_key(id));
        let i = choose|i: int| 0 <= i < s.order.len() && s.order[i] == id;
        if i < gone {
            assert(after.order[i] == id);
        } else {
            assert(after.order[i - 1] == id);
        }
    }
}

/// Why `destroy_market` refuses a call, if it does.
pub open spec fn destroy_market_refusal(s: State, origin: Origin, market_id: MarketId) -> Option<
    Error,
> {
    if !(origin is Root) {
        Some(Error::BadOrigin)
    } else if !s.markets.contains_key(market_id) {
        Some(Error::MarketNotFound)
    } else {
        None
    }
}

/// The markets that close when the clock reaches `tick`: the ids in the bucket of the tick
/// whose market is still there, in the order of the bucket.
pub open spec fn closing_at(s: State, tick: BlockNumber) -> Seq<MarketId> {
    s.due_at(tick).filter(|id: MarketId| s.markets.contains_key(id))
}

/// The announcement that a market has closed.
pub open spec fn closed_event(market_id: MarketId) -> Event {
    Event::MarketClosed { market_id }
}

/// The records `markets`, with every market closed whose id is among `ids`.
pub open spec fn markets_closed(markets: Map<MarketId, Market>, ids: Seq<MarketId>) -> Map<
    MarketId,
    Market,
> {
    Map::new(
        |id: MarketId| markets.contains_key(id),
        |id: MarketId|
            if ids.contains(id) {
                Market { status: MarketStatus::Closed, ..markets[id] }
            } else {
                markets[id]
            },
    )
}

/// The state after the clock has reached `tick` in `s`: the bucket of the tick is gone, and
/// the markets that waited in it are closed.
pub open spec fn tick_reached(s: State, tick: BlockNumber) -> State {
    State {
        markets: markets_closed(s.markets, s.due_at(tick)),
        schedule: s.schedule.remove(tick),
        ..s
    }
}

/// What reaching `tick` costs in `s`: one read for the bucket and one for each id in it, one
/// write for each market that closes and one for the bucket.
pub open spec fn closing_weight(s: State, tick: BlockNumber) -> Weight {
    weight_of_accesses(
        s.config.db_weight,
        1 + s.due_at(tick).len(),
        1 + closing_at(s, tick).len(),
    )
}

/// Reaching a tick leads from a reachable state to a reachable state.
pub proof fn lemma_tick_reached(s: State, tick: BlockNumber)
    requires
        s.inv(),
    ensures
        tick_reached(s, tick).inv(),
        tick_reached(s, tick).follows(s),
{
    let after = tick_reached(s, tick);
    assert(after.markets.dom() =~= s.markets.dom());
    assert forall|id: MarketId| #[trigger] after.markets.contains_key(id) implies {
        &&& after.order.contains(id)
        &&& (after.markets[id].oracle_outcome_report is Some <==> after.markets[id].status.rank()
            >= 2)
        &&& (after.markets[id].status is Active ==> after.due_at(after.markets[id].end).contains(
            id,
        ))
    } by {
        assert(s.markets.contains_key(id));
        if s.due_at(tick).contains(id) {
            let i = choose|i: int| 0 <= i < s.due_at(tick).len() && s.due_at(tick)[i] == id;
            assert(s.schedule[tick][i] == id);
        } else if s.markets[id].status is Active {
            assert(s.markets[id].end != tick);
        }
    }
    assert forall|id: MarketId| #[trigger]
        after.markets.contains_key(id) && s.markets.contains_key(id) implies {
        s.markets[id].status.rank() <= after.markets[id].status.rank()
    } by {
        if s.due_at(tick).contains(id) {
            let i = choose|i: int| 0 <= i < s.due_at(tick).len() && s.due_at(tick)[i] == id;
            assert(s.schedule[tick][i] == id);
        }
    }
    assert forall|at: BlockNumber, i: int|
        after.schedule.contains_key(at) && 0 <= i < after.schedule[at].len() implies {
            let id = #[trigger] after.schedule[at][i];
            &&& id < after.market_counter
            &&& (after.markets.contains_key(id) ==> after.markets[id].status is Active
                && after.markets[id].end == at)
        } by {
        let id = s.schedule[at][i];
        if s.markets.contains_key(id) && s.due_at(tick).contains(id) {
            let k = choose|k: int| 0 <= k < s.due_at(tick).len() && s.due_at(tick)[k] == id;
            assert(s.schedule[tick][k] == id);
        }
    }
}

/// What a scan of `count` markets announces: for each of the first `count` markets in scan
/// order, its highest outcome.
pub open spec fn scan_events(s: State, count: nat) -> Seq<Event> {
    Seq::new(
        count,
        |i: int|
            Event::HighestOutcome {
                market_id: s.order[i],
                highest_outcome: highest_outcome_of(s.outcomes[s.order[i]]),
            },
    )
}

/// How many markets a scan with a budget of `count` markets looks at: all of them, or `count`
/// where there are more.
pub open spec fn scanned(s: State, count: nat) -> nat {
    if count < s.order.len() {
        count
    } else {
        s.order.len()
    }
}

/// What is left of the weight `remaining` after the idle scan of `s`, and what the scan
/// announces: as many markets are looked at as the weight of one scan goes into `remaining`.
pub open spec fn idle_scan(s: State, remaining: Weight) -> (Weight, Seq<Event>) {
    match units_within(remaining, s.config.scan_weight) {
        Some(count) => (
            weight_left(remaining, weight_times(s.config.scan_weight, scanned(s, count as nat))),
            scan_events(s, scanned(s, count as nat)),
        ),
        None => (remaining, Seq::empty()),
    }
}

} // verus!
