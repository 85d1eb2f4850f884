use crate::types::{AccountId, MarketId};
use frame_support::sp_runtime::traits::AccountIdConversion;
use frame_support::PalletId;
use vstd::bytes::{lemma_auto_spec_u128_to_from_le_bytes, spec_u128_to_le_bytes};
use vstd::prelude::*;

verus! {

/// The bytes of the escrow account of a market: the four letters `modl`, the eight bytes of the
/// pallet id, the market id as sixteen bytes with the lowest first, and four zero bytes.
pub open spec fn market_account_bytes(pallet_id: Seq<u8>, market_id: MarketId) -> Seq<u8> {
    seq![0x6du8, 0x6fu8, 0x64u8, 0x6cu8] + pallet_id + spec_u128_to_le_bytes(market_id)
        + seq![0u8, 0u8, 0u8, 0u8]
}

/// The account that has the first 32 of `bytes` as its bytes.
pub open spec fn account_of_bytes(bytes: Seq<u8>) -> AccountId {
    with_first_bytes(bytes, 32)
}

/// An array of zeros in which the first `count` places hold the first `count` of `bytes`.
pub open spec fn with_first_bytes(bytes: Seq<u8>, count: nat) -> AccountId
    decreases count,
{
    if count == 0 {
        vstd::array::spec_array_fill_for_copy_type::<u8, 32>(0)
    } else {
        vstd::array::spec_array_update(
            with_first_bytes(bytes, (count - 1) as nat),
            count - 1,
            bytes[count - 1],
        )
    }
}

/// The escrow account of a market: the account that holds what is staked on its outcomes.
pub open spec fn escrow_account(pallet_id: [u8; 8], market_id: MarketId) -> AccountId {
    account_of_bytes(market_account_bytes(pallet_id@, market_id))
}

/// `AccountIdConversion::into_sub_account_truncating` on a `PalletId`, with the market id as the
/// sub-account seed and 32 bytes as the account: the type tag of a pallet id, the pallet id and
/// the seed are encoded one after the other, and the account is read from the first 32 bytes of
/// that, with zeros where the encoding has ended.
#[verifier::external_body]
pub(crate) fn sub_account(pallet_id: [u8; 8], market_id: MarketId) -> (account: AccountId)
    ensures
        account@ == market_account_bytes(pallet_id@, market_id),
{
    PalletId(pallet_id).into_sub_account_truncating(market_id)
}

/// The escrow account of the market `market_id` under the pallet id `pallet_id`.
pub fn market_account_for(pallet_id: [u8; 8], market_id: MarketId) -> (account: AccountId)
    ensures
        account == escrow_account(pallet_id, market_id),
        account@ == market_account_bytes(pallet_id@, market_id),
{
    let account = sub_account(pallet_id, market_id);
    proof {
        lemma_auto_spec_u128_to_from_le_bytes();
        lemma_account_of_bytes(market_account_bytes(pallet_id@, market_id));
        assert(account =~= escrow_account(pallet_id, market_id));
    }
    account
}

/// Whether two accounts are the same account.
pub fn same_account(a: &AccountId, b: &AccountId) -> (same: bool)
    ensures
        same == (*a == *b),
{
    let mut k: usize = 0;
    while k < 32
        invariant
            0 <= k <= 32,
            forall|j: int| 0 <= j < k ==> a[j] == b[j],
        decreases 32 - k,
    {
        if a[k] != b[k] {
            return false;
        }
        k += 1;
    }
    assert(*a =~= *b);
    true
}

proof fn lemma_with_first_bytes(bytes: Seq<u8>, count: nat)
    requires
        count <= 32,
        count <= bytes.len(),
    ensures
        forall|k: int| 0 <= k < count ==> with_first_bytes(bytes, count)@[k] == bytes[k],
    decreases count,
{
    if count > 0 {
        lemma_with_first_bytes(bytes, (count - 1) as nat);
    }
}

/// An account made of 32 bytes has those bytes.
pub proof fn lemma_account_of_bytes(bytes: Seq<u8>)
    requires
        bytes.len() == 32,
    ensures
        account_of_bytes(bytes)@ == bytes,
{
    lemma_with_first_bytes(bytes, 32);
    assert(account_of_bytes(bytes)@ =~= bytes);
}

/// Two markets of one engine never share an escrow account.
pub proof fn lemma_escrow_accounts_differ(pallet_id: [u8; 8], a: MarketId, b: MarketId)
    requires
        a != b,
    ensures
        escrow_account(pallet_id, a) != escrow_account(pallet_id, b),
{
    lemma_auto_spec_u128_to_from_le_bytes();
    lemma_account_of_bytes(market_account_bytes(pallet_id@, a));
    lemma_account_of_bytes(market_account_bytes(pallet_id@, b));
    lemma_market_accounts_differ(pallet_id@, a, b);
}

/// The bytes of the escrow accounts of two markets differ.
pub proof fn lemma_market_accounts_differ(pallet_id: Seq<u8>, a: MarketId, b: MarketId)
    requires
        pallet_id.len() == 8,
        a != b,
    ensures
        market_account_bytes(pallet_id, a) != market_account_bytes(pallet_id, b),
{
    lemma_auto_spec_u128_to_from_le_bytes();
    let x = market_account_bytes(pallet_id, a);
    let y = market_account_bytes(pallet_id, b);
    if x == y {
        assert(x.subrange(12, 28) =~= spec_u128_to_le_bytes(a));
        assert(y.subrange(12, 28) =~= spec_u128_to_le_bytes(b));
    }
}

} // verus!
