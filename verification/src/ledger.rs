use crate::types::{AccountId, LedgerCall};
use vstd::prelude::*;

verus! {

/// The balances that a ledger keeps, as mathematics: for each account what it may spend, and
/// what it has set aside. An account that is not on record holds nothing.
pub struct Balances {
    pub free: Map<AccountId, nat>,
    pub reserved: Map<AccountId, nat>,
}

/// What `book` holds for `who`.
pub open spec fn held_in(book: Map<AccountId, nat>, who: AccountId) -> nat {
    if book.contains_key(who) {
        book[who]
    } else {
        0
    }
}

/// `book` with `value` taken from what `who` holds.
pub open spec fn taken_from(book: Map<AccountId, nat>, who: AccountId, value: nat) -> Map<
    AccountId,
    nat,
> {
    book.insert(who, (held_in(book, who) - value) as nat)
}

/// `book` with `value` added to what `who` holds.
pub open spec fn given_to(book: Map<AccountId, nat>, who: AccountId, value: nat) -> Map<
    AccountId,
    nat,
> {
    book.insert(who, held_in(book, who) + value)
}

impl Balances {
    /// What `who` may spend.
    pub open spec fn free_of(self, who: AccountId) -> nat {
        held_in(self.free, who)
    }

    /// What `who` has set aside.
    pub open spec fn reserved_of(self, who: AccountId) -> nat {
        held_in(self.reserved, who)
    }

    /// Whether the account that `call` takes from holds what `call` moves.
    pub open spec fn covers(self, call: LedgerCall) -> bool {
        match call {
            LedgerCall::Reserve { who, value } => self.free_of(who) >= value,
            LedgerCall::Unreserve { who, value } => self.reserved_of(who) >= value,
            LedgerCall::RepatriateReserved { slashed, beneficiary, value } => self.reserved_of(
                slashed,
            ) >= value,
            LedgerCall::Transfer { source, dest, value } => self.free_of(source) >= value,
        }
    }

    /// The balances after `call` has been carried out.
    pub open spec fn after(self, call: LedgerCall) -> Balances {
        match call {
            LedgerCall::Reserve { who, value } => Balances {
                free: taken_from(self.free, who, value as nat),
                reserved: given_to(self.reserved, who, value as nat),
            },
            LedgerCall::Unreserve { who, value } => Balances {
                free: given_to(self.free, who, value as nat),
                reserved: taken_from(self.reserved, who, value as nat),
            },
            LedgerCall::RepatriateReserved { slashed, beneficiary, value } => Balances {
                free: given_to(self.free, beneficiary, value as nat),
                reserved: taken_from(self.reserved, slashed, value as nat),
            },
            LedgerCall::Transfer { source, dest, value } => Balances {
                free: given_to(taken_from(self.free, source, value as nat), dest, value as nat),
                reserved: self.reserved,
            },
        }
    }

    /// The balances after `calls` have been carried out, one after the other.
    pub open spec fn after_all(self, calls: Seq<LedgerCall>) -> Balances
        decreases calls.len(),
    {
        if calls.len() == 0 {
            self
        } else {
            self.after(calls[0]).after_all(calls.drop_first())
        }
    }

    /// Whether each of `calls`, in its turn, finds what it moves.
    pub open spec fn covers_all(self, calls: Seq<LedgerCall>) -> bool
        decreases calls.len(),
    {
        if calls.len() == 0 {
            true
        } else {
            self.covers(calls[0]) && self.after(calls[0]).covers_all(calls.drop_first())
        }
    }
}

} // verus!
