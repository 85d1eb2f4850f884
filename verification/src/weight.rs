use crate::types::{DbWeight, Weight};
use vstd::prelude::*;

verus! {

/// A count that stops at the largest `u64`.
pub open spec fn capped(amount: int) -> u64 {
    if amount > u64::MAX {
        u64::MAX
    } else if amount < 0 {
        0
    } else {
        amount as u64
    }
}

/// How many times `unit` fits into `budget`: the smaller of the two quotients, part by part. A
/// part of `unit` that is zero sets no limit; where both are zero there is no answer.
pub open spec fn units_within(budget: Weight, unit: Weight) -> Option<u64> {
    if unit.ref_time == 0 && unit.proof_size == 0 {
        None
    } else {
        let by_time = if unit.ref_time == 0 {
            u64::MAX
        } else {
            budget.ref_time / unit.ref_time
        };
        let by_size = if unit.proof_size == 0 {
            u64::MAX
        } else {
            budget.proof_size / unit.proof_size
        };
        Some(
            if by_time < by_size {
                by_time
            } else {
                by_size
            },
        )
    }
}

/// The sum of two weights, part by part, each part stopping at the largest `u64`.
pub open spec fn weight_sum(a: Weight, b: Weight) -> Weight {
    Weight {
        ref_time: capped(a.ref_time + b.ref_time),
        proof_size: capped(a.proof_size + b.proof_size),
    }
}

/// What is left of `a` after `b` is taken from it, part by part, each part stopping at zero.
pub open spec fn weight_left(a: Weight, b: Weight) -> Weight {
    Weight {
        ref_time: capped(a.ref_time - b.ref_time),
        proof_size: capped(a.proof_size - b.proof_size),
    }
}

/// `count` times `unit`, part by part, each part stopping at the largest `u64`.
pub open spec fn weight_times(unit: Weight, count: nat) -> Weight {
    Weight {
        ref_time: capped(unit.ref_time * count),
        proof_size: capped(unit.proof_size * count),
    }
}

/// What `count` reads of the store cost: computing time only, stopping at the largest `u64`.
pub open spec fn weight_of_reads(db: DbWeight, count: nat) -> Weight {
    Weight { ref_time: capped(db.read * count), proof_size: 0 }
}

/// What `count` writes to the store cost: computing time only, stopping at the largest `u64`.
pub open spec fn weight_of_writes(db: DbWeight, count: nat) -> Weight {
    Weight { ref_time: capped(db.write * count), proof_size: 0 }
}

/// What `reads` reads and `writes` writes cost together.
pub open spec fn weight_of_accesses(db: DbWeight, reads: nat, writes: nat) -> Weight {
    Weight { ref_time: capped(db.read * reads + db.write * writes), proof_size: 0 }
}

/// `RuntimeDbWeight::reads`: the cost of one read times `count`, with `u64::saturating_mul`, as
/// computing time; no proof size.
#[verifier::external_body]
pub(crate) fn reads(db: DbWeight, count: u64) -> (weight: Weight)
    ensures
        weight == weight_of_reads(db, count as nat),
{
    let weight = frame_support::weights::RuntimeDbWeight { read: db.read, write: db.write }.reads(
        count,
    );
    Weight { ref_time: weight.ref_time(), proof_size: weight.proof_size() }
}

/// `RuntimeDbWeight::writes`: the cost of one write times `count`, with `u64::saturating_mul`,
/// as computing time; no proof size.
#[verifier::external_body]
pub(crate) fn writes(db: DbWeight, count: u64) -> (weight: Weight)
    ensures
        weight == weight_of_writes(db, count as nat),
{
    let weight = frame_support::weights::RuntimeDbWeight { read: db.read, write: db.write }.writes(
        count,
    );
    Weight { ref_time: weight.ref_time(), proof_size: weight.proof_size() }
}

/// `Weight::checked_div_per_component`: each part of `budget` is divided by the same part of
/// `unit`, and the smaller quotient comes back; a part of `unit` that is zero counts as the
/// largest `u64`, and `None` comes back where both parts of `unit` are zero.
#[verifier::external_body]
pub(crate) fn checked_div_per_component(budget: Weight, unit: Weight) -> (count: Option<u64>)
    ensures
        count == units_within(budget, unit),
{
    frame_support::weights::Weight::from_parts(
        budget.ref_time,
        budget.proof_size,
    ).checked_div_per_component(
        &frame_support::weights::Weight::from_parts(unit.ref_time, unit.proof_size),
    )
}

/// `Weight::saturating_add`: the parts are added with `u64::saturating_add`.
#[verifier::external_body]
pub(crate) fn saturating_add(a: Weight, b: Weight) -> (sum: Weight)
    ensures
        sum == weight_sum(a, b),
{
    let sum = frame_support::weights::Weight::from_parts(a.ref_time, a.proof_size).saturating_add(
        frame_support::weights::Weight::from_parts(b.ref_time, b.proof_size),
    );
    Weight { ref_time: sum.ref_time(), proof_size: sum.proof_size() }
}

/// `Weight::saturating_sub`: the parts are subtracted with `u64::saturating_sub`.
#[verifier::external_body]
pub(crate) fn saturating_sub(a: Weight, b: Weight) -> (left: Weight)
    ensures
        left == weight_left(a, b),
{
    let left = frame_support::weights::Weight::from_parts(a.ref_time, a.proof_size).saturating_sub(
        frame_support::weights::Weight::from_parts(b.ref_time, b.proof_size),
    );
    Weight { ref_time: left.ref_time(), proof_size: left.proof_size() }
}

/// One more read adds the cost of a read to the cost of the accesses so far.
pub proof fn lemma_one_more_read(db: DbWeight, reads: nat, writes: nat)
    ensures
        weight_sum(weight_of_accesses(db, reads, writes), weight_of_reads(db, 1))
            == weight_of_accesses(db, reads + 1, writes),
{
    assert(db.read * (reads + 1) == db.read * reads + db.read) by (nonlinear_arith);
    assert(db.read * reads >= 0) by (nonlinear_arith);
    assert(db.write * writes >= 0) by (nonlinear_arith);
    assert(db.read * 1 == db.read) by (nonlinear_arith);
}

/// One more write adds the cost of a write to the cost of the accesses so far.
pub proof fn lemma_one_more_write(db: DbWeight, reads: nat, writes: nat)
    ensures
        weight_sum(weight_of_accesses(db, reads, writes), weight_of_writes(db, 1))
            == weight_of_accesses(db, reads, writes + 1),
{
    assert(db.write * (writes + 1) == db.write * writes + db.write) by (nonlinear_arith);
    assert(db.read * reads >= 0) by (nonlinear_arith);
    assert(db.write * writes >= 0) by (nonlinear_arith);
    assert(db.write * 1 == db.write) by (nonlinear_arith);
}

/// Adding `unit` once more to `count` times `unit` gives `count + 1` times `unit`.
pub proof fn lemma_weight_times_next(unit: Weight, count: nat)
    ensures
        weight_sum(weight_times(unit, count), unit) == weight_times(unit, count + 1),
{
    assert(unit.ref_time * (count + 1) == unit.ref_time * count + unit.ref_time)
        by (nonlinear_arith);
    assert(unit.proof_size * (count + 1) == unit.proof_size * count + unit.proof_size)
        by (nonlinear_arith);
    assert(unit.ref_time * count >= 0) by (nonlinear_arith);
    assert(unit.proof_size * count >= 0) by (nonlinear_arith);
}

} // verus!
