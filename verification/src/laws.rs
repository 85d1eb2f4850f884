use crate::account::{escrow_account, lemma_escrow_accounts_differ};
use crate::history::{after_all, lemma_a_step_keeps_the_engine_sound, state_before, Step};
use crate::ledger::Balances;
use crate::model::{
    bond_release, buy_outcome_refusal, clear_storage_refusal, closing_at, create_market_refusal,
    market_created, market_redeemed, outcome_bought, purchase_ledger, redeem_refusal,
    report_as_oracle_refusal, tick_reached, winning_outcome,
};
use crate::pricing::total_price;
use crate::state::{fresh_outcomes, State};
use crate::types::{
    AccountId, Balance, BlockNumber, Error, LedgerCall, MarketId, Origin, Outcome,
};
use vstd::prelude::*;

verus! {

/// A state may come after itself.
pub proof fn lemma_follows_itself(s: State)
    ensures
        s.follows(s),
{
}

/// What may come after a later state may come after an earlier one: `follows` holds over any
/// run of calls, however long.
pub proof fn lemma_follows_chains(first: State, second: State, third: State)
    requires
        first.inv(),
        second.follows(first),
        third.follows(second),
    ensures
        third.follows(first),
{
    assert forall|id: MarketId| #[trigger]
        third.markets.contains_key(id) && first.markets.contains_key(id) implies {
        let was = first.markets[id];
        let is = third.markets[id];
        &&& is.creator == was.creator
        &&& is.bond == was.bond
        &&& is.data == was.data
        &&& is.end == was.end
        &&& is.oracle == was.oracle
        &&& was.status.rank() <= is.status.rank()
        &&& (was.oracle_outcome_report is Some ==> is.oracle_outcome_report
            == was.oracle_outcome_report)
        &&& third.outcomes[id].len() == first.outcomes[id].len()
        &&& forall|i: int|
            0 <= i < first.outcomes[id].len() ==> first.outcomes[id][i].price <= (
            #[trigger] third.outcomes[id][i]).price
    } by {
        assert(second.markets.contains_key(id));
        assert forall|i: int| 0 <= i < first.outcomes[id].len() implies first.outcomes[id][i].price
            <= (#[trigger] third.outcomes[id][i]).price by {
            assert(first.outcomes[id][i].price <= second.outcomes[id][i].price);
        }
    }
}

/// Of two markets, the one that was opened later has the larger id, whatever was called between
/// the two: ids rise strictly, and none is given twice.
pub proof fn lemma_market_ids_rise(
    first: State,
    first_origin: Origin,
    first_outcomes: u8,
    first_end: BlockNumber,
    first_oracle: AccountId,
    first_now: BlockNumber,
    first_can_reserve: bool,
    second: State,
    second_origin: Origin,
    second_outcomes: u8,
    second_end: BlockNumber,
    second_now: BlockNumber,
    second_can_reserve: bool,
)
    requires
        first.inv(),
        create_market_refusal(
            first,
            first_origin,
            first_outcomes,
            first_end,
            first_now,
            first_can_reserve,
        ) is None,
        second.follows(
            market_created(first, first_origin->Signed_0, first_outcomes, first_end, first_oracle),
        ),
        create_market_refusal(
            second,
            second_origin,
            second_outcomes,
            second_end,
            second_now,
            second_can_reserve,
        ) is None,
    ensures
        first.market_counter < second.market_counter,
{
}

/// Of two purchases of one outcome, the later one pays more, whatever was called between the
/// two: the prices that an outcome has had rise strictly.
pub proof fn lemma_later_purchase_pays_more(
    first: State,
    first_origin: Origin,
    market_id: MarketId,
    outcome_index: u8,
    first_price: Balance,
    first_free: Balance,
    first_can_withdraw: bool,
    second: State,
    second_origin: Origin,
    second_price: Balance,
    second_free: Balance,
    second_can_withdraw: bool,
)
    requires
        first.inv(),
        buy_outcome_refusal(
            first,
            first_origin,
            market_id,
            outcome_index,
            first_price,
            first_free,
            first_can_withdraw,
        ) is None,
        second.follows(
            outcome_bought(first, first_origin->Signed_0, market_id, outcome_index, first_price),
        ),
        buy_outcome_refusal(
            second,
            second_origin,
            market_id,
            outcome_index,
            second_price,
            second_free,
            second_can_withdraw,
        ) is None,
    ensures
        first_price < second_price,
{
    let bought = outcome_bought(
        first,
        first_origin->Signed_0,
        market_id,
        outcome_index,
        first_price,
    );
    assert(bought.markets.contains_key(market_id));
    assert(bought.outcomes[market_id][outcome_index as int].price == first_price);
    assert(second.outcomes[market_id][outcome_index as int].price >= first_price);
}

/// The bond that leaves the reserve when a market is cleared away is the bond that its creator
/// reserved when the market was opened, and it leaves the reserve of that creator, whatever was
/// called in between.
pub proof fn lemma_the_bond_released_is_the_bond_reserved(
    opened_in: State,
    origin: Origin,
    outcome_amount: u8,
    end: BlockNumber,
    oracle: AccountId,
    opened_at: BlockNumber,
    can_reserve: bool,
    cleared_in: State,
    caller: Origin,
    cleared_at: BlockNumber,
)
    requires
        opened_in.inv(),
        create_market_refusal(opened_in, origin, outcome_amount, end, opened_at, can_reserve)
            is None,
        cleared_in.follows(
            market_created(opened_in, origin->Signed_0, outcome_amount, end, oracle),
        ),
        clear_storage_refusal(cleared_in, caller, opened_in.market_counter, cleared_at) is None,
    ensures
        match bond_release(cleared_in, caller->Signed_0, opened_in.market_counter) {
            LedgerCall::Unreserve { who, value } => who == origin->Signed_0 && caller->Signed_0
                == who && value == opened_in.config.creator_bond,
            LedgerCall::RepatriateReserved { slashed, beneficiary, value } => slashed
                == origin->Signed_0 && beneficiary == caller->Signed_0 && beneficiary != slashed
                && value == opened_in.config.creator_bond,
            _ => false,
        },
{
    let opened = market_created(opened_in, origin->Signed_0, outcome_amount, end, oracle);
    assert(opened.markets.contains_key(opened_in.market_counter));
}

/// A purchase sets the price of the outcome to what was paid, which is more than the price
/// before; it leaves every other outcome of the market as it was, and every other market.
pub proof fn lemma_purchase_raises_the_price(
    s: State,
    origin: Origin,
    market_id: MarketId,
    outcome_index: u8,
    price: Balance,
    buyer_free: Balance,
    can_withdraw: bool,
)
    requires
        s.inv(),
        buy_outcome_refusal(s, origin, market_id, outcome_index, price, buyer_free, can_withdraw)
            is None,
    ensures
        ({
            let after = outcome_bought(s, origin->Signed_0, market_id, outcome_index, price);
            &&& after.outcomes[market_id][outcome_index as int].price == price
            &&& s.outcomes[market_id][outcome_index as int].price < price
            &&& after.outcomes[market_id][outcome_index as int].owner == origin->Signed_0
            &&& forall|i: int|
                0 <= i < s.outcomes[market_id].len() && i != outcome_index
                    ==> #[trigger] after.outcomes[market_id][i] == s.outcomes[market_id][i]
            &&& forall|other: MarketId|
                other != market_id && s.markets.contains_key(other)
                    ==> #[trigger] after.outcomes[other] == s.outcomes[other]
            &&& after.markets == s.markets
        }),
{
}

/// Putting another outcome in the place of one changes the total by the difference of the two
/// prices.
pub proof fn lemma_total_price_update(list: Seq<Outcome>, index: int, outcome: Outcome)
    requires
        0 <= index < list.len(),
    ensures
        total_price(list.update(index, outcome)) == total_price(list) - list[index].price
            + outcome.price,
        list[index].price <= total_price(list),
    decreases list.len(),
{
    let updated = list.update(index, outcome);
    if index == list.len() - 1 {
        assert(updated.drop_last() =~= list.drop_last());
    } else {
        lemma_total_price_update(list.drop_last(), index, outcome);
        assert(updated.drop_last() =~= list.drop_last().update(index, outcome));
    }
}

/// While the escrow account of a market holds exactly what is staked on its outcomes, it does
/// so after a purchase too, once the ledger has carried out what the purchase asks for; and
/// the ledger finds in the escrow account what it is asked to pay back, and in the account of
/// a buyer who has the price what it is asked to pay in. This is stated of purchases in which
/// neither the buyer nor the holder who is paid back is the escrow account itself.
pub proof fn lemma_escrow_holds_the_stakes(
    s: State,
    origin: Origin,
    market_id: MarketId,
    outcome_index: u8,
    price: Balance,
    buyer_free: Balance,
    can_withdraw: bool,
    book: Balances,
)
    requires
        s.inv(),
        buy_outcome_refusal(s, origin, market_id, outcome_index, price, buyer_free, can_withdraw)
            is None,
        book.free_of(escrow_account(s.config.pallet_id, market_id)) == total_price(
            s.outcomes[market_id],
        ),
        origin->Signed_0 != escrow_account(s.config.pallet_id, market_id),
        s.outcomes[market_id][outcome_index as int].price != 0
            ==> s.outcomes[market_id][outcome_index as int].owner != escrow_account(
            s.config.pallet_id,
            market_id,
        ),
    ensures
        book.free_of(origin->Signed_0) >= price ==> book.covers_all(
            purchase_ledger(s, origin->Signed_0, market_id, outcome_index, price),
        ),
        book.after_all(
            purchase_ledger(s, origin->Signed_0, market_id, outcome_index, price),
        ).free_of(escrow_account(s.config.pallet_id, market_id)) == total_price(
            outcome_bought(
                s,
                origin->Signed_0,
                market_id,
                outcome_index,
                price,
            ).outcomes[market_id],
        ),
{
    let buyer = origin->Signed_0;
    let escrow = escrow_account(s.config.pallet_id, market_id);
    let held = s.outcomes[market_id][outcome_index as int];
    let calls = purchase_ledger(s, buyer, market_id, outcome_index, price);
    lemma_total_price_update(
        s.outcomes[market_id],
        outcome_index as int,
        Outcome { owner: buyer, data: held.data, price },
    );
    if held.price != 0 {
        let refund = calls[0];
        let payment = calls[1];
        assert(calls.drop_first() =~= seq![payment]);
        assert(calls.drop_first().drop_first() =~= Seq::<LedgerCall>::empty());
        let refunded = book.after(refund);
        assert(book.covers(refund));
        assert(calls.drop_first()[0] == payment);
        if book.free_of(buyer) >= price {
            assert(refunded.free_of(buyer) >= price);
            assert(refunded.covers(payment));
            assert(refunded.after(payment).covers_all(calls.drop_first().drop_first()));
            assert(refunded.covers_all(calls.drop_first()));
        }
        assert(refunded.after(payment).after_all(calls.drop_first().drop_first())
            == refunded.after(payment));
        assert(refunded.after_all(calls.drop_first()) == refunded.after(payment));
        assert(book.after_all(calls) == refunded.after(payment));
        assert(refunded.free_of(escrow) == total_price(s.outcomes[market_id]) - held.price);
        assert(refunded.after(payment).free_of(escrow) == refunded.free_of(escrow) + price);
    } else {
        let payment = calls[0];
        assert(calls.drop_first() =~= Seq::<LedgerCall>::empty());
        if book.free_of(buyer) >= price {
            assert(book.covers(payment));
            assert(book.after(payment).covers_all(calls.drop_first()));
        }
        assert(book.after(payment).after_all(calls.drop_first()) == book.after(payment));
        assert(book.after_all(calls) == book.after(payment));
        assert(book.after(payment).free_of(escrow) == book.free_of(escrow) + price);
    }
}

/// A purchase in one market leaves the escrow account of every other market as it was, and
/// the outcomes of that market too. This is stated of purchases in which neither the buyer nor
/// the holder who is paid back is the escrow account of the other market.
pub proof fn lemma_purchase_leaves_other_escrows_alone(
    s: State,
    origin: Origin,
    market_id: MarketId,
    outcome_index: u8,
    price: Balance,
    buyer_free: Balance,
    can_withdraw: bool,
    book: Balances,
    other: MarketId,
)
    requires
        s.inv(),
        buy_outcome_refusal(s, origin, market_id, outcome_index, price, buyer_free, can_withdraw)
            is None,
        other != market_id,
        origin->Signed_0 != escrow_account(s.config.pallet_id, other),
        s.outcomes[market_id][outcome_index as int].price != 0
            ==> s.outcomes[market_id][outcome_index as int].owner != escrow_account(
            s.config.pallet_id,
            other,
        ),
    ensures
        book.after_all(
            purchase_ledger(s, origin->Signed_0, market_id, outcome_index, price),
        ).free_of(escrow_account(s.config.pallet_id, other)) == book.free_of(
            escrow_account(s.config.pallet_id, other),
        ),
        outcome_bought(s, origin->Signed_0, market_id, outcome_index, price).outcomes.remove(
            market_id,
        ) == s.outcomes.remove(market_id),
{
    let buyer = origin->Signed_0;
    let held = s.outcomes[market_id][outcome_index as int];
    let calls = purchase_ledger(s, buyer, market_id, outcome_index, price);
    lemma_escrow_accounts_differ(s.config.pallet_id, market_id, other);
    if held.price != 0 {
        let refund = calls[0];
        let payment = calls[1];
        assert(calls.drop_first() =~= seq![payment]);
        assert(calls.drop_first().drop_first() =~= Seq::<LedgerCall>::empty());
        let refunded = book.after(refund);
        assert(calls.drop_first()[0] == payment);
        assert(refunded.after(payment).after_all(calls.drop_first().drop_first())
            == refunded.after(payment));
        assert(refunded.after_all(calls.drop_first()) == refunded.after(payment));
        assert(book.after_all(calls) == refunded.after(payment));
    } else {
        let payment = calls[0];
        assert(calls.drop_first() =~= Seq::<LedgerCall>::empty());
        assert(book.after(payment).after_all(calls.drop_first()) == book.after(payment));
        assert(book.after_all(calls) == book.after(payment));
    }
    assert(outcome_bought(s, buyer, market_id, outcome_index, price).outcomes.remove(market_id)
        =~= s.outcomes.remove(market_id));
}

/// A market that waits in a bucket is active, waits in the bucket of its end tick and in no
/// other, and is named there once.
pub proof fn lemma_a_market_waits_in_one_place(
    s: State,
    market_id: MarketId,
    tick: BlockNumber,
    at: int,
    other_tick: BlockNumber,
    other_at: int,
)
    requires
        s.inv(),
        s.markets.contains_key(market_id),
        0 <= at < s.due_at(tick).len(),
        s.due_at(tick)[at] == market_id,
        0 <= other_at < s.due_at(other_tick).len(),
        s.due_at(other_tick)[other_at] == market_id,
    ensures
        s.markets[market_id].status is Active,
        tick == s.markets[market_id].end,
        other_tick == tick,
        other_at == at,
{
    assert(s.schedule[tick][at] == market_id);
    assert(s.schedule[other_tick][other_at] == market_id);
}

/// A report is taken only of a market that is closed, from its oracle, and where none was
/// taken before.
pub proof fn lemma_report_needs_a_closed_market(s: State, origin: Origin, market_id: MarketId)
    requires
        report_as_oracle_refusal(s, origin, market_id) is None,
    ensures
        s.markets.contains_key(market_id),
        s.markets[market_id].status is Closed,
        s.markets[market_id].oracle_outcome_report is None,
        s.markets[market_id].oracle == origin->Signed_0,
{
}

/// A market is redeemed only from the status `Reported`: not before the oracle has reported,
/// and not a second time.
pub proof fn lemma_redeem_needs_a_reported_market(s: State, origin: Origin, market_id: MarketId)
    requires
        s.inv(),
        redeem_refusal(s, origin, market_id) is None,
    ensures
        s.markets.contains_key(market_id),
        s.markets[market_id].status is Reported,
{
}

/// A market that has been redeemed is refused when it is to be redeemed again, whoever asks.
pub proof fn lemma_a_market_is_redeemed_once(
    s: State,
    origin: Origin,
    market_id: MarketId,
    again: Origin,
)
    requires
        s.inv(),
        redeem_refusal(s, origin, market_id) is None,
        again is Signed,
    ensures
        redeem_refusal(market_redeemed(s, market_id), again, market_id) == Some(
            Error::InvalidMarketStatus,
        ),
{
}

/// Where the ledger is told what the escrow account of a market holds, a redemption leaves the
/// escrow account empty and adds all that it held to what the winner may spend. This is stated
/// of markets whose winner is not the escrow account itself.
pub proof fn lemma_redemption_empties_the_escrow(
    s: State,
    origin: Origin,
    market_id: MarketId,
    book: Balances,
)
    requires
        s.inv(),
        redeem_refusal(s, origin, market_id) is None,
        book.free_of(escrow_account(s.config.pallet_id, market_id)) <= u128::MAX,
        winning_outcome(s, market_id).owner != escrow_account(s.config.pallet_id, market_id),
    ensures
        ({
            let escrow = escrow_account(s.config.pallet_id, market_id);
            let winner = winning_outcome(s, market_id).owner;
            let step = Step::Redeem {
                origin,
                market_id,
                escrow_balance: book.free_of(escrow) as Balance,
            };
            let paid = book.after_all(step.ledger_calls(s));
            &&& book.covers_all(step.ledger_calls(s))
            &&& paid.free_of(escrow) == 0
            &&& paid.free_of(winner) == book.free_of(winner) + book.free_of(escrow)
        }),
{
    let escrow = escrow_account(s.config.pallet_id, market_id);
    let winner = winning_outcome(s, market_id).owner;
    let call = LedgerCall::Transfer {
        source: escrow,
        dest: winner,
        value: book.free_of(escrow) as Balance,
    };
    let step = Step::Redeem { origin, market_id, escrow_balance: book.free_of(escrow) as Balance };
    assert(step.ledger_calls(s) =~= seq![call]);
    lemma_one_call(book, call);
    assert(seq![call].drop_first() =~= Seq::<LedgerCall>::empty());
    assert(book.covers(call));
    assert(book.after(call).covers_all(seq![call].drop_first()));
}

/// A market is cleared away only when it has been redeemed.
pub proof fn lemma_clear_needs_a_redeemed_market(
    s: State,
    origin: Origin,
    market_id: MarketId,
    now: BlockNumber,
)
    requires
        clear_storage_refusal(s, origin, market_id, now) is None,
    ensures
        s.markets.contains_key(market_id),
        s.markets[market_id].status is Redeemed,
{
}

/// Reaching a tick a second time, with nothing scheduled at it in between, closes nothing and
/// changes nothing.
pub proof fn lemma_tick_reached_twice(s: State, tick: BlockNumber)
    requires
        s.inv(),
    ensures
        closing_at(tick_reached(s, tick), tick) == Seq::<MarketId>::empty(),
        tick_reached(tick_reached(s, tick), tick) == tick_reached(s, tick),
{
    let once = tick_reached(s, tick);
    let twice = tick_reached(once, tick);
    assert(once.due_at(tick) =~= Seq::<MarketId>::empty());
    assert(closing_at(once, tick) =~= Seq::<MarketId>::empty()) by {
        reveal(Seq::filter);
    }
    assert(twice.markets =~= once.markets);
    assert(twice.schedule =~= once.schedule);
}

/// Where no bucket stands for a tick, reaching the tick closes nothing and changes nothing.
pub proof fn lemma_an_absent_bucket_closes_nothing(s: State, tick: BlockNumber)
    requires
        !s.schedule.contains_key(tick),
    ensures
        closing_at(s, tick) == Seq::<MarketId>::empty(),
        tick_reached(s, tick) == s,
{
    let after = tick_reached(s, tick);
    assert(s.due_at(tick) =~= Seq::<MarketId>::empty());
    assert(closing_at(s, tick) =~= Seq::<MarketId>::empty()) by {
        reveal(Seq::filter);
    }
    assert(after.markets =~= s.markets);
    assert(after.schedule =~= s.schedule);
}

/// Whether the step at `index` of a run from `start` opens a market that ends at `tick`.
pub open spec fn schedules_at(
    start: State,
    steps: Seq<Step>,
    index: int,
    tick: BlockNumber,
) -> bool {
    &&& steps[index].opens_a_market(state_before(start, steps, index))
    &&& steps[index]->CreateMarket_end == tick
}

/// A bucket that is not there comes into being only when a market is opened that ends at its
/// tick: through every run of steps of which none does that, the bucket stays away.
pub proof fn lemma_a_bucket_stays_away(start: State, steps: Seq<Step>, tick: BlockNumber)
    requires
        !start.schedule.contains_key(tick),
        forall|k: int| 0 <= k < steps.len() ==> !#[trigger] schedules_at(start, steps, k, tick),
    ensures
        !after_all(start, steps).schedule.contains_key(tick),
    decreases steps.len(),
{
    if steps.len() > 0 {
        let rest = steps.drop_last();
        let last_at = steps.len() - 1;
        assert forall|k: int| 0 <= k < rest.len() implies !#[trigger] schedules_at(
            start,
            rest,
            k,
            tick,
        ) by {
            assert(rest.take(k) =~= steps.take(k));
            assert(rest[k] == steps[k]);
            assert(!schedules_at(start, steps, k, tick));
        }
        lemma_a_bucket_stays_away(start, rest, tick);
        assert(steps.take(last_at) =~= rest);
        assert(!schedules_at(start, steps, last_at, tick));
    }
}

/// Once the clock has reached a tick, reaching it again closes nothing and changes nothing,
/// whatever was called in between, as long as no market was opened in between that ends at
/// that tick.
pub proof fn lemma_a_reached_tick_stays_reached(s: State, tick: BlockNumber, steps: Seq<Step>)
    requires
        forall|k: int|
            0 <= k < steps.len() ==> !#[trigger] schedules_at(
                tick_reached(s, tick),
                steps,
                k,
                tick,
            ),
    ensures
        !after_all(tick_reached(s, tick), steps).schedule.contains_key(tick),
        closing_at(after_all(tick_reached(s, tick), steps), tick) == Seq::<MarketId>::empty(),
        tick_reached(after_all(tick_reached(s, tick), steps), tick) == after_all(
            tick_reached(s, tick),
            steps,
        ),
{
    lemma_a_bucket_stays_away(tick_reached(s, tick), steps, tick);
    lemma_an_absent_bucket_closes_nothing(after_all(tick_reached(s, tick), steps), tick);
}

/// Every run of steps leads from a reachable state to a reachable state that may come after
/// it.
pub proof fn lemma_a_run_keeps_the_engine_sound(s: State, steps: Seq<Step>)
    requires
        s.inv(),
    ensures
        after_all(s, steps).inv(),
        after_all(s, steps).follows(s),
    decreases steps.len(),
{
    if steps.len() > 0 {
        let earlier = after_all(s, steps.drop_last());
        lemma_a_run_keeps_the_engine_sound(s, steps.drop_last());
        lemma_a_step_keeps_the_engine_sound(earlier, steps.last());
        lemma_follows_chains(s, earlier, steps.last().after(earlier));
    }
}

/// In a run of steps, the state in which a later step is taken may come after the state in
/// which an earlier step was taken, and after the state that the earlier step led to.
pub proof fn lemma_later_states_follow(s: State, steps: Seq<Step>, earlier: int, later: int)
    requires
        s.inv(),
        0 <= earlier <= later <= steps.len(),
    ensures
        state_before(s, steps, earlier).inv(),
        state_before(s, steps, later).inv(),
        state_before(s, steps, later).follows(state_before(s, steps, earlier)),
        earlier < later ==> state_before(s, steps, later).follows(
            steps[earlier].after(state_before(s, steps, earlier)),
        ),
    decreases later - earlier,
{
    lemma_a_run_keeps_the_engine_sound(s, steps.take(earlier));
    lemma_a_run_keeps_the_engine_sound(s, steps.take(later));
    if earlier < later {
        let before_last = state_before(s, steps, later - 1);
        lemma_later_states_follow(s, steps, earlier, later - 1);
        assert(steps.take(later).drop_last() =~= steps.take(later - 1));
        assert(steps.take(later).last() == steps[later - 1]);
        assert(state_before(s, steps, later) == steps[later - 1].after(before_last));
        lemma_a_step_keeps_the_engine_sound(before_last, steps[later - 1]);
        lemma_follows_chains(
            state_before(s, steps, earlier),
            before_last,
            state_before(s, steps, later),
        );
        if earlier < later - 1 {
            let after_earlier = steps[earlier].after(state_before(s, steps, earlier));
            lemma_a_step_keeps_the_engine_sound(state_before(s, steps, earlier), steps[earlier]);
            lemma_follows_chains(after_earlier, before_last, state_before(s, steps, later));
        }
    }
}

/// In every run of steps, a market that is opened later gets a larger id than every market that
/// was opened before it: the ids rise strictly, and none is given twice.
pub proof fn lemma_market_ids_rise_in_every_run(
    s: State,
    steps: Seq<Step>,
    earlier: int,
    later: int,
)
    requires
        s.inv(),
        0 <= earlier < later < steps.len(),
        steps[earlier].opens_a_market(state_before(s, steps, earlier)),
        steps[later].opens_a_market(state_before(s, steps, later)),
    ensures
        state_before(s, steps, earlier).market_counter < state_before(
            s,
            steps,
            later,
        ).market_counter,
{
    lemma_later_states_follow(s, steps, earlier, later);
}

/// In every run of steps, of two purchases of one outcome the later one pays more.
pub proof fn lemma_prices_rise_in_every_run(
    s: State,
    steps: Seq<Step>,
    earlier: int,
    later: int,
)
    requires
        s.inv(),
        0 <= earlier < later < steps.len(),
        steps[earlier] is BuyOutcome,
        steps[later] is BuyOutcome,
        steps[earlier]->BuyOutcome_market_id == steps[later]->BuyOutcome_market_id,
        steps[earlier]->BuyOutcome_outcome_index == steps[later]->BuyOutcome_outcome_index,
        steps[earlier].refusal(state_before(s, steps, earlier)) is None,
        steps[later].refusal(state_before(s, steps, later)) is None,
    ensures
        steps[earlier]->BuyOutcome_price < steps[later]->BuyOutcome_price,
{
    lemma_later_states_follow(s, steps, earlier, later);
    let first = state_before(s, steps, earlier);
    let second = state_before(s, steps, later);
    lemma_later_purchase_pays_more(
        first,
        steps[earlier]->BuyOutcome_origin,
        steps[earlier]->BuyOutcome_market_id,
        steps[earlier]->BuyOutcome_outcome_index,
        steps[earlier]->BuyOutcome_price,
        steps[earlier]->BuyOutcome_buyer_free,
        steps[earlier]->BuyOutcome_can_withdraw,
        second,
        steps[later]->BuyOutcome_origin,
        steps[later]->BuyOutcome_price,
        steps[later]->BuyOutcome_buyer_free,
        steps[later]->BuyOutcome_can_withdraw,
    );
}

/// In every run of steps, a market never goes back in status, and keeps the report that it
/// has.
pub proof fn lemma_status_never_goes_back(
    s: State,
    steps: Seq<Step>,
    earlier: int,
    later: int,
    market_id: MarketId,
)
    requires
        s.inv(),
        0 <= earlier <= later <= steps.len(),
        state_before(s, steps, earlier).markets.contains_key(market_id),
        state_before(s, steps, later).markets.contains_key(market_id),
    ensures
        state_before(s, steps, earlier).markets[market_id].status.rank() <= state_before(
            s,
            steps,
            later,
        ).markets[market_id].status.rank(),
        state_before(s, steps, earlier).markets[market_id].oracle_outcome_report is Some
            ==> state_before(s, steps, later).markets[market_id].oracle_outcome_report
            == state_before(s, steps, earlier).markets[market_id].oracle_outcome_report,
{
    lemma_later_states_follow(s, steps, earlier, later);
}

/// In every run of steps, a market that has been deleted does not come back.
pub proof fn lemma_a_deleted_market_stays_deleted(
    s: State,
    steps: Seq<Step>,
    earlier: int,
    later: int,
    market_id: MarketId,
)
    requires
        s.inv(),
        0 <= earlier <= later <= steps.len(),
        market_id < state_before(s, steps, earlier).market_counter,
        !state_before(s, steps, earlier).markets.contains_key(market_id),
    ensures
        !state_before(s, steps, later).markets.contains_key(market_id),
{
    lemma_later_states_follow(s, steps, earlier, later);
}

/// Whether the escrow account of a market holds in `book` exactly what is staked on the
/// outcomes of the market in `s`.
pub open spec fn backed(s: State, book: Balances, market_id: MarketId) -> bool {
    book.free_of(escrow_account(s.config.pallet_id, market_id)) == total_price(
        s.outcomes[market_id],
    )
}

/// Whether `account` has no part in the markets of `s`: it has opened none and holds no
/// outcome.
pub open spec fn has_no_part(s: State, account: AccountId) -> bool {
    &&& forall|id: MarketId| #[trigger]
        s.markets.contains_key(id) ==> s.markets[id].creator != account
    &&& forall|id: MarketId, i: int|
        s.markets.contains_key(id) && 0 <= i < s.outcomes[id].len() ==> (
        #[trigger] s.outcomes[id][i]).owner != account
}

/// Nothing is staked on a market that has just been opened: an escrow account that holds
/// nothing backs it.
pub proof fn lemma_nothing_is_staked_on_a_new_market(creator: AccountId, count: u8)
    ensures
        total_price(fresh_outcomes(creator, count)) == 0,
    decreases count,
{
    if count > 0 {
        lemma_nothing_is_staked_on_a_new_market(creator, (count - 1) as u8);
        assert(fresh_outcomes(creator, count).drop_last() =~= fresh_outcomes(
            creator,
            (count - 1) as u8,
        ));
    }
}

/// The free balance of an account changes only through a call that gives to it or takes from
/// it.
pub proof fn lemma_only_the_parties_are_touched(
    book: Balances,
    call: LedgerCall,
    account: AccountId,
)
    requires
        match call {
            LedgerCall::Reserve { who, value } => who != account,
            LedgerCall::Unreserve { who, value } => who != account,
            LedgerCall::RepatriateReserved { slashed, beneficiary, value } => beneficiary
                != account,
            LedgerCall::Transfer { source, dest, value } => source != account && dest != account,
        },
    ensures
        book.after(call).free_of(account) == book.free_of(account),
{
}

/// A run of one call is that call.
pub proof fn lemma_one_call(book: Balances, call: LedgerCall)
    ensures
        book.after_all(seq![call]) == book.after(call),
{
    let calls = seq![call];
    assert(calls.drop_first() =~= Seq::<LedgerCall>::empty());
    assert(book.after(call).after_all(calls.drop_first()) == book.after(call));
}

/// While the escrow account of a market holds exactly what is staked on its outcomes, it does
/// so after every step that leaves the market active or closed, once the ledger has carried
/// out what the step asks for; and the escrow account still has no part in the markets. This
/// is stated of steps that the escrow account does not sign, in states in which it has no part
/// in the markets.
pub proof fn lemma_escrow_holds_the_stakes_through_every_step(
    s: State,
    step: Step,
    book: Balances,
    market_id: MarketId,
)
    requires
        s.inv(),
        s.markets.contains_key(market_id),
        step.after(s).markets.contains_key(market_id),
        step.after(s).markets[market_id].status is Active
            || step.after(s).markets[market_id].status is Closed,
        backed(s, book, market_id),
        has_no_part(s, escrow_account(s.config.pallet_id, market_id)),
        step.signer() != Some(escrow_account(s.config.pallet_id, market_id)),
    ensures
        backed(step.after(s), book.after_all(step.ledger_calls(s)), market_id),
        has_no_part(step.after(s), escrow_account(s.config.pallet_id, market_id)),
{
    let escrow = escrow_account(s.config.pallet_id, market_id);
    let after = step.after(s);
    let calls = step.ledger_calls(s);
    if step.refusal(s) is None {
        match step {
            Step::CreateMarket { origin, outcome_amount, end, oracle, now, can_reserve } => {
                let call = LedgerCall::Reserve {
                    who: origin->Signed_0,
                    value: s.config.creator_bond,
                };
                assert(calls =~= seq![call]);
                lemma_one_call(book, call);
                lemma_only_the_parties_are_touched(book, call, escrow);
            },
            Step::DestroyMarket { origin, market_id: gone } => {},
            Step::BuyOutcome {
                origin,
                market_id: bought,
                outcome_index,
                price,
                buyer_free,
                can_withdraw,
            } => {
                assert(s.markets.contains_key(bought));
                let held = s.outcomes[bought][outcome_index as int];
                assert(held.owner != escrow);
                if bought == market_id {
                    lemma_escrow_holds_the_stakes(
                        s,
                        origin,
                        market_id,
                        outcome_index,
                        price,
                        buyer_free,
                        can_withdraw,
                        book,
                    );
                } else {
                    lemma_purchase_leaves_other_escrows_alone(
                        s,
                        origin,
                        bought,
                        outcome_index,
                        price,
                        buyer_free,
                        can_withdraw,
                        book,
                        market_id,
                    );
                }
                assert forall|id: MarketId, i: int|
                    after.markets.contains_key(id) && 0 <= i < after.outcomes[id].len() implies (
                #[trigger] after.outcomes[id][i]).owner != escrow by {
                    if id == bought && i == outcome_index {
                    } else {
                        assert(after.outcomes[id][i] == s.outcomes[id][i]);
                    }
                }
            },
            Step::ReportAsOracle { origin, market_id: reported, outcome_index } => {},
            Step::Redeem { origin, market_id: redeemed, escrow_balance } => {
                let call = LedgerCall::Transfer {
                    source: escrow_account(s.config.pallet_id, redeemed),
                    dest: winning_outcome(s, redeemed).owner,
                    value: escrow_balance,
                };
                assert(calls =~= seq![call]);
                lemma_one_call(book, call);
                lemma_escrow_accounts_differ(s.config.pallet_id, market_id, redeemed);
                let index = s.markets[redeemed].oracle_outcome_report->Some_0 as int;
                assert(s.outcomes[redeemed][index].owner != escrow);
                lemma_only_the_parties_are_touched(book, call, escrow);
            },
            Step::ClearStorage { origin, market_id: cleared, now } => {
                let call = bond_release(s, origin->Signed_0, cleared);
                assert(calls =~= seq![call]);
                lemma_one_call(book, call);
                assert(s.markets[cleared].creator != escrow);
                lemma_only_the_parties_are_touched(book, call, escrow);
            },
            Step::TickReached { tick } => {},
        }
    }
}

/// The balances after the ledger has carried out, step by step, what a run of steps from `s`
/// asks for.
pub open spec fn book_after_all(s: State, steps: Seq<Step>, book: Balances) -> Balances
    decreases steps.len(),
{
    if steps.len() == 0 {
        book
    } else {
        book_after_all(s, steps.drop_last(), book).after_all(
            steps.last().ledger_calls(after_all(s, steps.drop_last())),
        )
    }
}

/// The escrow account of a market that is active or closed holds exactly what is staked on the
/// outcomes of the market, at every point of every run of steps: where it does so at the start
/// of a run, it does so at the end, once the ledger has carried out what the steps ask for.
/// This is stated of runs in which the escrow account signs no step, from states in which it
/// has no part in the markets.
pub proof fn lemma_escrow_holds_the_stakes_through_every_run(
    s: State,
    steps: Seq<Step>,
    book: Balances,
    market_id: MarketId,
)
    requires
        s.inv(),
        s.markets.contains_key(market_id),
        after_all(s, steps).markets.contains_key(market_id),
        after_all(s, steps).markets[market_id].status is Active
            || after_all(s, steps).markets[market_id].status is Closed,
        backed(s, book, market_id),
        has_no_part(s, escrow_account(s.config.pallet_id, market_id)),
        forall|k: int|
            0 <= k < steps.len() ==> (#[trigger] steps[k]).signer() != Some(
                escrow_account(s.config.pallet_id, market_id),
            ),
    ensures
        backed(after_all(s, steps), book_after_all(s, steps, book), market_id),
        has_no_part(after_all(s, steps), escrow_account(s.config.pallet_id, market_id)),
    decreases steps.len(),
{
    if steps.len() > 0 {
        let before_last = after_all(s, steps.drop_last());
        let last = steps.last();
        lemma_a_run_keeps_the_engine_sound(s, steps.drop_last());
        lemma_a_step_keeps_the_engine_sound(before_last, last);
        assert(after_all(s, steps) == last.after(before_last));
        // the market was there before the last step, and was active or closed
        assert(before_last.markets.contains_key(market_id));
        assert(before_last.markets[market_id].status.rank() <= after_all(
            s,
            steps,
        ).markets[market_id].status.rank());
        assert forall|k: int| 0 <= k < steps.drop_last().len() implies (
        #[trigger] steps.drop_last()[k]).signer() != Some(
            escrow_account(s.config.pallet_id, market_id),
        ) by {
            assert(steps.drop_last()[k] == steps[k]);
        }
        lemma_escrow_holds_the_stakes_through_every_run(s, steps.drop_last(), book, market_id);
        lemma_escrow_holds_the_stakes_through_every_step(
            before_last,
            last,
            book_after_all(s, steps.drop_last(), book),
            market_id,
        );
    }
}

} // verus!
