use vstd::prelude::*;

verus! {

/// Identifier of a market: assigned from a counter that starts at 1 and only grows, so that no
/// identifier is ever handed out twice.
pub type MarketId = u128;

/// An amount of collateral.
pub type Balance = u128;

/// A tick of the logical clock.
pub type BlockNumber = u64;

/// An account, by its 32 bytes.
pub type AccountId = [u8; 32];

/// Where a market stands in its life. The order of the variants is the order of time.
#[derive(Clone, Copy, Debug, PartialEq, Eq, Structural)]
pub enum MarketStatus {
    Active,
    Closed,
    Reported,
    Redeemed,
}

impl MarketStatus {
    /// The position of a status in the life of a market.
    pub open spec fn rank(self) -> nat {
        match self {
            MarketStatus::Active => 0,
            MarketStatus::Closed => 1,
            MarketStatus::Reported => 2,
            MarketStatus::Redeemed => 3,
        }
    }
}

/// The record of one market.
#[derive(Clone, Copy, Debug, PartialEq, Eq)]
pub struct Market {
    /// Who opened the market and reserved its bond.
    pub creator: AccountId,
    /// The collateral that the creator reserved when the market was opened.
    pub bond: Balance,
    pub data: [u8; 32],
    /// The tick at which the market closes.
    pub end: BlockNumber,
    /// The only account whose report is taken.
    pub oracle: AccountId,
    /// The outcome that the oracle named, once it has.
    pub oracle_outcome_report: Option<u8>,
    pub status: MarketStatus,
}

/// One outcome of a market: who holds it, and for what stake.
#[derive(Clone, Copy, Debug, PartialEq, Eq)]
pub struct Outcome {
    /// Whoever paid the current price.
    pub owner: AccountId,
    pub data: [u8; 32],
    /// The collateral that is staked on this outcome; zero until somebody buys it.
    pub price: Balance,
}

/// Who stands behind a call.
#[derive(Clone, Copy, Debug, PartialEq, Eq)]
pub enum Origin {
    /// The privileged operator.
    Root,
    /// An account that signed the call.
    Signed(AccountId),
    /// No account at all.
    Nobody,
}

/// Why a call was refused. A refused call leaves the state as it was.
#[derive(Clone, Copy, Debug, PartialEq, Eq, Structural)]
pub enum Error {
    OutcomesStorageOverflow,
    MarketCounterStorageOverflow,
    MarketIdsPerCloseBlockStorageOverflow,
    InvalidOutcomeIndex,
    MarketNotFound,
    PriceTooLow,
    OutcomeAmountTooLow,
    InsufficientBuyerBalance,
    BelowMinMarketPeriod,
    MarketNotActive,
    CallerNotOracle,
    OutcomeAlreadyReported,
    OutcomeNotReportedYet,
    InvalidMarketStatus,
    InsufficientCreatorBalance,
    OnlyMarketCreatorAllowedYet,
    Invalid,
    /// The call did not come from the kind of origin that it asks for.
    BadOrigin,
}

/// What the engine tells the world.
#[derive(Clone, Debug, PartialEq, Eq)]
pub enum Event {
    MarketCreated { market_id: MarketId, creator: AccountId },
    MarketDestroyed { market_id: MarketId },
    OutcomeBought { market_id: MarketId, outcome_index: u8, buyer: AccountId },
    MarketsToCloseNextBlock { market_ids: Vec<MarketId> },
    MarketClosed { market_id: MarketId },
    MarketReported { market_id: MarketId, oracle_report_outcome: u8 },
    MarketRedeemed { market_id: MarketId, winner_outcome: u8, winner: AccountId },
    HighestOutcome { market_id: MarketId, highest_outcome: Option<u8> },
}

/// One movement of collateral that a successful call asks of the balance ledger.
#[derive(Clone, Copy, Debug, PartialEq, Eq)]
pub enum LedgerCall {
    /// Move `value` from the free balance of `who` to its reserved balance.
    Reserve { who: AccountId, value: Balance },
    /// Move `value` from the reserved balance of `who` back to its free balance.
    Unreserve { who: AccountId, value: Balance },
    /// Move `value` from the reserved balance of `slashed` to the free balance of `beneficiary`.
    RepatriateReserved { slashed: AccountId, beneficiary: AccountId, value: Balance },
    /// Move `value` from the free balance of `source` to the free balance of `dest`.
    Transfer { source: AccountId, dest: AccountId, value: Balance },
}

/// What a successful call hands back: the movements of collateral to carry out, in this order,
/// and then the event to announce.
#[derive(Clone, Debug, PartialEq, Eq)]
pub struct Receipt {
    pub ledger: Vec<LedgerCall>,
    pub event: Option<Event>,
}

/// An amount of work, in computing time and in proof size.
#[derive(Clone, Copy, Debug, PartialEq, Eq, Structural)]
pub struct Weight {
    pub ref_time: u64,
    pub proof_size: u64,
}

/// What one read and one write of the store cost, in computing time.
#[derive(Clone, Copy, Debug, PartialEq, Eq, Structural)]
pub struct DbWeight {
    pub read: u64,
    pub write: u64,
}

/// The constants that an engine is set up with.
#[derive(Clone, Copy, Debug, PartialEq, Eq)]
pub struct Config {
    /// The collateral that a creator reserves to open a market.
    pub creator_bond: Balance,
    /// For how many ticks after its end only the creator may clear a market away.
    pub market_creator_clear_storage_time: BlockNumber,
    /// How many outcomes a market may have.
    pub max_outcomes: u32,
    /// How many ticks must lie between the creation of a market and its end.
    pub min_market_period: BlockNumber,
    /// The eight bytes from which the escrow accounts of the markets are derived.
    pub pallet_id: [u8; 8],
    /// The work that the idle scan spends on one market.
    pub scan_weight: Weight,
    /// The work that a read and a write of the store take.
    pub db_weight: DbWeight,
}

impl Config {
    /// A market period of zero or more outcomes than an index can name are mistakes of set-up.
    pub open spec fn sound(self) -> bool {
        self.max_outcomes <= 255 && self.min_market_period != 0
    }

    /// Whether the constants make sense together.
    pub fn integrity_test(&self) -> (sound: bool)
        ensures
            sound == self.sound(),
    {
        self.max_outcomes <= 255 && self.min_market_period != 0
    }
}

/// The account that signed a call; a call that no account signed is refused.
pub fn ensure_signed(origin: Origin) -> (signer: Result<AccountId, Error>)
    ensures
        match signer {
            Ok(who) => origin == Origin::Signed(who),
            Err(error) => !(origin is Signed) && error == Error::BadOrigin,
        },
{
    match origin {
        Origin::Signed(who) => Ok(who),
        _ => Err(Error::BadOrigin),
    }
}

/// Whether a call comes from the privileged operator; a call from anyone else is refused.
pub fn ensure_root(origin: Origin) -> (root: Result<(), Error>)
    ensures
        match root {
            Ok(_) => origin is Root,
            Err(error) => !(origin is Root) && error == Error::BadOrigin,
        },
{
    match origin {
        Origin::Root => Ok(()),
        _ => Err(Error::BadOrigin),
    }
}

/// The identifier that the first market gets.
#[allow(non_snake_case)]
pub fn DefaultMarketCounter() -> (first: MarketId)
    ensures
        first == 1,
{
    1u128
}

} // verus!
