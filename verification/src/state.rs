use crate::types::{AccountId, BlockNumber, Config, Market, MarketId, MarketStatus, Outcome};
use vstd::prelude::*;

verus! {

/// What an engine holds, as mathematics: the constants, the next market id, the market records,
/// the outcome lists, the ids of the markets in the order in which a scan meets them, and for
/// each tick the ids of the markets that are to close at it.
pub struct State {
    pub config: Config,
    pub market_counter: MarketId,
    pub markets: Map<MarketId, Market>,
    pub outcomes: Map<MarketId, Seq<Outcome>>,
    pub order: Seq<MarketId>,
    pub schedule: Map<BlockNumber, Seq<MarketId>>,
}

/// An array of 32 bytes, all of them `byte`.
pub open spec fn filled(byte: u8) -> [u8; 32] {
    vstd::array::spec_array_fill_for_copy_type::<u8, 32>(byte)
}

/// The record of a market that has just been opened.
pub open spec fn fresh_market(
    config: Config,
    creator: AccountId,
    end: BlockNumber,
    oracle: AccountId,
) -> Market {
    Market {
        creator,
        bond: config.creator_bond,
        data: filled(0),
        end,
        oracle,
        oracle_outcome_report: None,
        status: MarketStatus::Active,
    }
}

/// The outcome list of a market that has just been opened: `count` outcomes at price zero, all
/// held by the creator, the outcome at index `i` marked with the byte `i`.
pub open spec fn fresh_outcomes(creator: AccountId, count: u8) -> Seq<Outcome> {
    Seq::new(count as nat, |i: int| Outcome { owner: creator, data: filled(i as u8), price: 0 })
}

impl State {
    /// The state of an engine in which nothing has happened yet.
    pub open spec fn initial(config: Config) -> State {
        State::starting_at(config, 1)
    }

    /// The state of an engine without markets that will give its first market the id `first`.
    pub open spec fn starting_at(config: Config, first: MarketId) -> State {
        State {
            config,
            market_counter: first,
            markets: Map::empty(),
            outcomes: Map::empty(),
            order: Seq::empty(),
            schedule: Map::empty(),
        }
    }

    /// The ids that are to close at `tick`, in the order in which they were scheduled.
    pub open spec fn due_at(self, tick: BlockNumber) -> Seq<MarketId> {
        if self.schedule.contains_key(tick) {
            self.schedule[tick]
        } else {
            Seq::empty()
        }
    }

    /// Whether `self` may come after `earlier` in the life of an engine.
    ///
    /// The constants stay and the counter does not fall. A market that is new has an id that
    /// the counter had not passed. A market that was there and still is has kept its creator,
    /// bond, end and oracle, has not gone back in status, has kept a report that it had, and
    /// has as many outcomes as before, none of them cheaper.
    pub open spec fn follows(self, earlier: State) -> bool {
        &&& self.config == earlier.config
        &&& earlier.market_counter <= self.market_counter
        &&& forall|id: MarketId| #[trigger]
            self.markets.contains_key(id) && !earlier.markets.contains_key(id) ==> id
                >= earlier.market_counter
        &&& forall|id: MarketId| #[trigger]
            self.markets.contains_key(id) && earlier.markets.contains_key(id) ==> {
                let was = earlier.markets[id];
                let is = self.markets[id];
                &&& is.creator == was.creator
                &&& is.bond == was.bond
                &&& is.data == was.data
                &&& is.end == was.end
                &&& is.oracle == was.oracle
                &&& was.status.rank() <= is.status.rank()
                &&& (was.oracle_outcome_report is Some ==> is.oracle_outcome_report
                    == was.oracle_outcome_report)
                &&& self.outcomes[id].len() == earlier.outcomes[id].len()
                &&& forall|i: int|
                    0 <= i < earlier.outcomes[id].len() ==> earlier.outcomes[id][i].price <= (
                    #[trigger] self.outcomes[id][i]).price
            }
    }

    /// What holds of every state that an engine reaches.
    ///
    /// Every market has a record and an outcome list, under an id that the counter has passed.
    /// The scan order holds the ids of the markets, and no others, from the smallest to the
    /// largest. An outcome list is never empty and never longer than the constants allow, and
    /// an index of one byte names each of its entries. A report is on record exactly from the
    /// status `Reported` on. An active market waits in the bucket of its end tick. A bucket
    /// holds at most 64 ids, none twice, all of them passed by the counter, and a market that
    /// is found in a bucket is active and ends at that tick.
    pub open spec fn inv(self) -> bool {
        &&& self.market_counter >= 1
        &&& self.markets.dom() == self.outcomes.dom()
        &&& forall|i: int, j: int|
            0 <= i < j < self.order.len() ==> #[trigger] self.order[i] < #[trigger] self.order[j]
        &&& forall|i: int|
            0 <= i < self.order.len() ==> self.markets.contains_key(#[trigger] self.order[i])
        &&& forall|id: MarketId| #[trigger]
            self.markets.contains_key(id) ==> self.order.contains(id)
        &&& forall|id: MarketId| #[trigger]
            self.markets.contains_key(id) ==> {
                &&& 1 <= id < self.market_counter
                &&& 1 <= self.outcomes[id].len() <= 255
                &&& self.outcomes[id].len() <= self.config.max_outcomes
                &&& (self.markets[id].oracle_outcome_report is Some
                    <==> self.markets[id].status.rank() >= 2)
                &&& (self.markets[id].status is Active ==> self.due_at(
                    self.markets[id].end,
                ).contains(id))
            }
        &&& forall|tick: BlockNumber| #[trigger]
            self.schedule.contains_key(tick) ==> self.schedule[tick].len() <= 64
                && self.schedule[tick].no_duplicates()
        &&& forall|tick: BlockNumber, i: int|
            self.schedule.contains_key(tick) && 0 <= i < self.schedule[tick].len() ==> {
                let id = #[trigger] self.schedule[tick][i];
                &&& id < self.market_counter
                &&& (self.markets.contains_key(id) ==> self.markets[id].status is Active
                    && self.markets[id].end == tick)
            }
    }
}

} // verus!
