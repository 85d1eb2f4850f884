use frame_support::traits::ConstU32;
use frame_support::BoundedVec;
use vstd::prelude::*;

verus! {

/// `bounded_collections::ConstU32`: a number as a type. Nothing is said of it.
#[verifier::external_type_specification]
#[verifier::external_body]
pub struct ExConstU32<const T: u32>(ConstU32<T>);

/// `bounded_collections::BoundedVec`: a vector that takes no more items than its second
/// parameter says. What one holds is seen only through `bucket_ids`.
#[verifier::external_type_specification]
#[verifier::external_body]
#[verifier::reject_recursive_types(T)]
#[verifier::reject_recursive_types(S)]
pub struct ExBoundedVec<T, S>(BoundedVec<T, S>);

/// The bound of a close bucket: 64 market ids.
pub type CacheSize = ConstU32<64>;

/// A close bucket: the ids of the markets that are to close at one tick.
pub type Bucket = BoundedVec<u128, CacheSize>;

/// The market ids that a close bucket holds, in the order in which they were pushed.
pub uninterp spec fn bucket_ids(bucket: Bucket) -> Seq<u128>;

/// `BoundedVec::new`: a bucket with no ids.
#[verifier::external_body]
pub(crate) fn bucket_new() -> (bucket: Bucket)
    ensures
        bucket_ids(bucket) == Seq::<u128>::empty(),
{
    BoundedVec::new()
}

/// `BoundedVec::try_push`: appends `id` while fewer than 64 ids are held; otherwise hands `id`
/// back and leaves the bucket as it was.
#[verifier::external_body]
pub(crate) fn bucket_try_push(bucket: &mut Bucket, id: u128) -> (pushed: Result<(), u128>)
    ensures
        match pushed {
            Ok(_) => bucket_ids(*old(bucket)).len() < 64 && bucket_ids(*final(bucket))
                == bucket_ids(*old(bucket)).push(id),
            Err(back) => bucket_ids(*old(bucket)).len() >= 64 && back == id && bucket_ids(
                *final(bucket),
            ) == bucket_ids(*old(bucket)),
        },
{
    bucket.try_push(id)
}

/// `Clone::clone` of a `BoundedVec`: a bucket of its own with the same ids in the same order.
#[verifier::external_body]
pub(crate) fn bucket_clone(bucket: &Bucket) -> (copy: Bucket)
    ensures
        bucket_ids(copy) == bucket_ids(*bucket),
{
    bucket.clone()
}

/// `BoundedVec::into_inner`: the ids of the bucket as a plain vector, in the same order.
#[verifier::external_body]
pub(crate) fn bucket_into_inner(bucket: Bucket) -> (ids: Vec<u128>)
    ensures
        ids@ == bucket_ids(bucket),
{
    bucket.into_inner()
}

} // verus!
