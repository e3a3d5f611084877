use vstd::prelude::*;

verus! {

/// One price level of the ladder: a price and the size still on offer.
#[derive(Debug, Clone, Copy, PartialEq, Eq, PartialOrd, Ord, Structural)]
pub struct Order {
    pub price: u32,
    pub size: u32,
}

/// Prices never fall from the front of the ladder to its back.
pub open spec fn price_sorted(s: Seq<Order>) -> bool {
    forall|i: int, j: int| 0 <= i <= j < s.len() ==> s[i].price <= s[j].price
}

/// In a ladder with sorted prices no level is cheaper than the first: the
/// front is the best ask.
pub proof fn lemma_front_is_best_ask(s: Seq<Order>, i: int)
    requires
        price_sorted(s),
        0 <= i < s.len(),
    ensures
        s[0].price <= s[i].price,
{
}

/// No level of the ladder is empty.
pub open spec fn no_empty_level(s: Seq<Order>) -> bool {
    forall|i: int| 0 <= i < s.len() ==> s[i].size > 0
}

/// The sum of the sizes of all levels.
pub open spec fn total_size(s: Seq<Order>) -> nat
    decreases s.len(),
{
    if s.len() == 0 {
        0
    } else {
        s[0].size as nat + total_size(s.subrange(1, s.len() as int))
    }
}

} // verus!
