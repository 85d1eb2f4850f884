use crate::account::escrow_account;
use crate::model::{
    bond_release, buy_outcome_refusal, clear_storage_refusal, create_market_refusal,
    destroy_market_refusal, lemma_market_created, lemma_market_redeemed, lemma_market_removed,
    lemma_market_reported, lemma_outcome_bought, lemma_tick_reached, market_created,
    market_redeemed, market_removed, market_reported, outcome_bought, purchase_ledger,
    redeem_refusal, report_as_oracle_refusal, tick_reached, winning_outcome,
};
use crate::state::State;
use crate::types::{AccountId, Balance, BlockNumber, Error, LedgerCall, MarketId, Origin};
use vstd::prelude::*;

verus! {

/// One step in the life of an engine: a call, with what the world outside answered when it was
/// made, or the clock reaching a tick.
pub enum Step {
    CreateMarket {
        origin: Origin,
        outcome_amount: u8,
        end: BlockNumber,
        oracle: AccountId,
        now: BlockNumber,
        can_reserve: bool,
    },
    DestroyMarket { origin: Origin, market_id: MarketId },
    BuyOutcome {
        origin: Origin,
        market_id: MarketId,
        outcome_index: u8,
        price: Balance,
        buyer_free: Balance,
        can_withdraw: bool,
    },
    ReportAsOracle { origin: Origin, market_id: MarketId, outcome_index: u8 },
    Redeem { origin: Origin, market_id: MarketId, escrow_balance: Balance },
    ClearStorage { origin: Origin, market_id: MarketId, now: BlockNumber },
    TickReached { tick: BlockNumber },
}

impl Step {
    /// Why the engine refuses the step in the state `s`, if it does. The clock is never
    /// refused.
    pub open spec fn refusal(self, s: State) -> Option<Error> {
        match self {
            Step::CreateMarket { origin, outcome_amount, end, oracle, now, can_reserve } => {
                create_market_refusal(s, origin, outcome_amount, end, now, can_reserve)
            },
            Step::DestroyMarket { origin, market_id } => destroy_market_refusal(
                s,
                origin,
                market_id,
            ),
            Step::BuyOutcome {
                origin,
                market_id,
                outcome_index,
                price,
                buyer_free,
                can_withdraw,
            } => buy_outcome_refusal(
                s,
                origin,
                market_id,
                outcome_index,
                price,
                buyer_free,
                can_withdraw,
            ),
            Step::ReportAsOracle { origin, market_id, outcome_index } => report_as_oracle_refusal(
                s,
                origin,
                market_id,
            ),
            Step::Redeem { origin, market_id, escrow_balance } => redeem_refusal(
                s,
                origin,
                market_id,
            ),
            Step::ClearStorage { origin, market_id, now } => clear_storage_refusal(
                s,
                origin,
                market_id,
                now,
            ),
            Step::TickReached { tick } => None,
        }
    }

    /// The state that the step leads to from `s`: `s` itself where the step is refused.
    pub open spec fn after(self, s: State) -> State {
        if self.refusal(s) is Some {
            s
        } else {
            match self {
                Step::CreateMarket { origin, outcome_amount, end, oracle, now, can_reserve } => {
                    market_created(s, origin->Signed_0, outcome_amount, end, oracle)
                },
                Step::DestroyMarket { origin, market_id } => market_removed(s, market_id),
                Step::BuyOutcome {
                    origin,
                    market_id,
                    outcome_index,
                    price,
                    buyer_free,
                    can_withdraw,
                } => outcome_bought(s, origin->Signed_0, market_id, outcome_index, price),
                Step::ReportAsOracle { origin, market_id, outcome_index } => market_reported(
                    s,
                    market_id,
                    outcome_index,
                ),
                Step::Redeem { origin, market_id, escrow_balance } => market_redeemed(
                    s,
                    market_id,
                ),
                Step::ClearStorage { origin, market_id, now } => market_removed(s, market_id),
                Step::TickReached { tick } => tick_reached(s, tick),
            }
        }
    }

    /// What the step asks of the ledger in the state `s`: nothing where the step is refused.
    pub open spec fn ledger_calls(self, s: State) -> Seq<LedgerCall> {
        if self.refusal(s) is Some {
            Seq::empty()
        } else {
            match self {
                Step::CreateMarket { origin, outcome_amount, end, oracle, now, can_reserve } => {
                    seq![
                        LedgerCall::Reserve { who: origin->Signed_0, value: s.config.creator_bond },
                    ]
                },
                Step::BuyOutcome {
                    origin,
                    market_id,
                    outcome_index,
                    price,
                    buyer_free,
                    can_withdraw,
                } => purchase_ledger(s, origin->Signed_0, market_id, outcome_index, price),
                Step::Redeem { origin, market_id, escrow_balance } => seq![
                    LedgerCall::Transfer {
                        source: escrow_account(s.config.pallet_id, market_id),
                        dest: winning_outcome(s, market_id).owner,
                        value: escrow_balance,
                    },
                ],
                Step::ClearStorage { origin, market_id, now } => seq![
                    bond_release(s, origin->Signed_0, market_id),
                ],
                _ => Seq::empty(),
            }
        }
    }

    /// The account that signed the step, where one did.
    pub open spec fn signer(self) -> Option<AccountId> {
        match self {
            Step::CreateMarket { origin: Origin::Signed(who), .. } => Some(who),
            Step::DestroyMarket { origin: Origin::Signed(who), .. } => Some(who),
            Step::BuyOutcome { origin: Origin::Signed(who), .. } => Some(who),
            Step::ReportAsOracle { origin: Origin::Signed(who), .. } => Some(who),
            Step::Redeem { origin: Origin::Signed(who), .. } => Some(who),
            Step::ClearStorage { origin: Origin::Signed(who), .. } => Some(who),
            _ => None,
        }
    }

    /// Whether the step opens a market in the state `s`.
    pub open spec fn opens_a_market(self, s: State) -> bool {
        self is CreateMarket && self.refusal(s) is None
    }
}

/// The state that a run of steps leads to from `s`.
pub open spec fn after_all(s: State, steps: Seq<Step>) -> State
    decreases steps.len(),
{
    if steps.len() == 0 {
        s
    } else {
        steps.last().after(after_all(s, steps.drop_last()))
    }
}

/// The state in which the step at `index` of a run from `s` is taken.
pub open spec fn state_before(s: State, steps: Seq<Step>, index: int) -> State {
    after_all(s, steps.take(index))
}

/// Every step leads from a reachable state to a reachable state that may come after it.
pub proof fn lemma_a_step_keeps_the_engine_sound(s: State, step: Step)
    requires
        s.inv(),
    ensures
        step.after(s).inv(),
        step.after(s).follows(s),
{
    if step.refusal(s) is None {
        match step {
            Step::CreateMarket { origin, outcome_amount, end, oracle, now, can_reserve } => {
                lemma_market_created(s, origin, outcome_amount, end, oracle, now, can_reserve);
            },
            Step::DestroyMarket { origin, market_id } => {
                lemma_market_removed(s, market_id);
            },
            Step::BuyOutcome {
                origin,
                market_id,
                outcome_index,
                price,
                buyer_free,
                can_withdraw,
            } => {
                lemma_outcome_bought(
                    s,
                    origin,
                    market_id,
                    outcome_index,
                    price,
                    buyer_free,
                    can_withdraw,
                );
            },
            Step::ReportAsOracle { origin, market_id, outcome_index } => {
                lemma_market_reported(s, origin, market_id, outcome_index);
            },
            Step::Redeem { origin, market_id, escrow_balance } => {
                lemma_market_redeemed(s, origin, market_id);
            },
            Step::ClearStorage { origin, market_id, now } => {
                lemma_market_removed(s, market_id);
            },
            Step::TickReached { tick } => {
                lemma_tick_reached(s, tick);
            },
        }
    }
}

} // verus!
