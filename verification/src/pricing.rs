use crate::types::{Balance, Outcome};
use vstd::prelude::*;

verus! {

/// All that is staked on the outcomes of a list.
pub open spec fn total_price(list: Seq<Outcome>) -> nat
    decreases list.len(),
{
    if list.len() == 0 {
        0
    } else {
        total_price(list.drop_last()) + list.last().price as nat
    }
}

/// Whether the outcome at `index` has the highest price of the list and is the first to have it.
pub open spec fn is_highest(list: Seq<Outcome>, index: int) -> bool {
    &&& 0 <= index < list.len()
    &&& forall|j: int| 0 <= j < list.len() ==> (#[trigger] list[j]).price <= list[index].price
    &&& forall|j: int| 0 <= j < index ==> (#[trigger] list[j]).price < list[index].price
}

/// The index of the first outcome with the highest price; none where the list is empty.
pub open spec fn highest_outcome_of(list: Seq<Outcome>) -> Option<u8> {
    if list.len() == 0 {
        None
    } else {
        Some((choose|index: int| is_highest(list, index)) as u8)
    }
}

/// A list has at most one highest outcome.
pub proof fn lemma_highest_is_unique(list: Seq<Outcome>, a: int, b: int)
    requires
        is_highest(list, a),
        is_highest(list, b),
    ensures
        a == b,
{
    if a < b {
        assert(list[a].price < list[b].price);
    } else if b < a {
        assert(list[b].price < list[a].price);
    }
}

/// The share of a total that a price is: the whole quotient, and zero where the total is zero.
pub open spec fn share_of(price: Balance, total: Balance) -> Balance {
    if total == 0 {
        0
    } else {
        price / total
    }
}

impl Outcome {
    /// How many times `t` goes into the price of this outcome; zero where `t` is zero.
    pub fn p(&self, t: Balance) -> (share: Balance)
        ensures
            share == share_of(self.price, t),
    {
        match self.price.checked_div(t) {
            Some(share) => share,
            None => 0,
        }
    }
}

/// The index of the first outcome with the highest price; none where the list is empty.
pub fn highest_outcome(list: &Vec<Outcome>) -> (highest: Option<u8>)
    requires
        list.len() <= 256,
    ensures
        highest == highest_outcome_of(list@),
        highest is Some ==> is_highest(list@, highest->Some_0 as int),
{
    if list.len() == 0 {
        return None;
    }
    let mut best: usize = 0;
    let mut at: usize = 1;
    while at < list.len()
        invariant
            1 <= at <= list.len(),
            list.len() <= 256,
            is_highest(list@.take(at as int), best as int),
        decreases list.len() - at,
    {
        if list[at].price > list[best].price {
            best = at;
        }
        at += 1;
        assert(is_highest(list@.take(at as int), best as int)) by {
            assert forall|j: int| 0 <= j < at implies (#[trigger] list@.take(at as int)[j]).price
                <= list@.take(at as int)[best as int].price by {
                if j < at - 1 {
                    assert(list@.take(at - 1)[j] == list[j]);
                }
            }
            assert forall|j: int| 0 <= j < best implies (#[trigger] list@.take(at as int)[j]).price
                < list@.take(at as int)[best as int].price by {
                assert(list@.take(at - 1)[j] == list[j]);
            }
        }
    }
    proof {
        assert(list@.take(at as int) =~= list@);
        let chosen = choose|index: int| is_highest(list@, index);
        lemma_highest_is_unique(list@, chosen, best as int);
    }
    Some(best as u8)
}

/// The total of the first `count + 1` outcomes is that of the first `count` and one price more.
pub proof fn lemma_total_price_take(list: Seq<Outcome>, count: int)
    requires
        0 <= count < list.len(),
    ensures
        total_price(list.take(count + 1)) == total_price(list.take(count)) + list[count].price,
{
    assert(list.take(count + 1).drop_last() =~= list.take(count));
}

/// A total never falls when more outcomes are counted.
pub proof fn lemma_total_price_grows(list: Seq<Outcome>, count: int)
    requires
        0 <= count <= list.len(),
    ensures
        total_price(list.take(count)) <= total_price(list),
    decreases list.len() - count,
{
    if count < list.len() {
        lemma_total_price_take(list, count);
        lemma_total_price_grows(list, count + 1);
    } else {
        assert(list.take(count) =~= list);
    }
}

/// All that is staked on the outcomes of a list.
pub fn sum_prices(list: &Vec<Outcome>) -> (total: Balance)
    requires
        total_price(list@) <= u128::MAX,
    ensures
        total == total_price(list@),
{
    let mut total: Balance = 0;
    let mut at: usize = 0;
    while at < list.len()
        invariant
            at <= list.len(),
            total == total_price(list@.take(at as int)),
            total_price(list@) <= u128::MAX,
        decreases list.len() - at,
    {
        proof {
            lemma_total_price_take(list@, at as int);
            lemma_total_price_grows(list@, at + 1);
        }
        total = total + list[at].price;
        at += 1;
    }
    assert(list@.take(at as int) =~= list@);
    total
}

} // verus!
