use vstd::prelude::*;
use crate::order::Order;
use crate::order::price_sorted;

verus! {

/// A level that the backward scan passes over: it has the new level's price
/// and a larger size.
pub open spec fn outsizes(level: Order, o: Order) -> bool {
    level.price == o.price && level.size > o.size
}

/// A level that the forward scan through a run of cheaper levels passes over:
/// it is cheaper than the new level, or has its price and a larger size.
pub open spec fn precedes(level: Order, o: Order) -> bool {
    level.price < o.price || outsizes(level, o)
}

/// Scanning backward over the first `n` levels: the number of levels that
/// stay in front of `o`, which is the whole prefix up to the nearest level from
/// the back that does not outsize `o`.
pub open spec fn back_scan(s: Seq<Order>, o: Order, n: int) -> int
    decreases n,
{
    if n <= 0 {
        0
    } else if outsizes(s[n - 1], o) {
        back_scan(s, o, n - 1)
    } else {
        n
    }
}

/// Scanning forward from index `i` through levels of `o`'s own price: the first
/// index whose level does not outsize `o`, or the length if there is none.
pub open spec fn run_scan(s: Seq<Order>, o: Order, i: int) -> int
    decreases s.len() - i,
{
    if i >= s.len() {
        s.len() as int
    } else if outsizes(s[i], o) {
        run_scan(s, o, i + 1)
    } else {
        i
    }
}

/// Scanning forward from index `i`: the first index whose level does not
/// precede `o`, or the length if there is none.
pub open spec fn forward_scan(s: Seq<Order>, o: Order, i: int) -> int
    decreases s.len() - i,
{
    if i >= s.len() {
        s.len() as int
    } else if precedes(s[i], o) {
        forward_scan(s, o, i + 1)
    } else {
        i
    }
}

/// `o` belongs behind the last level: it is dearer, or has the same price and
/// is at least as large.
pub open spec fn goes_last(s: Seq<Order>, o: Order) -> bool {
    s.len() > 0 && (o.price > s.last().price || (o.price == s.last().price && o.size
        >= s.last().size))
}

/// `o` belongs before the first level: it is cheaper, or has the same price and
/// is strictly smaller.
pub open spec fn goes_first(s: Seq<Order>, o: Order) -> bool {
    s.len() > 0 && (o.price < s[0].price || (o.price == s[0].price && o.size < s[0].size))
}

/// The index at which the ladder `s` takes the new level `o`.
///
/// The back of the ladder is tried first: a level that is dearer than the last
/// one, or as dear and at least as large, is appended; one as dear and smaller
/// moves backward past the levels that outsize it. Only then the front is
/// tried: a level cheaper than the first, or as cheap and strictly smaller,
/// goes to the front; one as cheap as the first moves forward from index 1 past
/// the levels that outsize it; any other moves forward from index 1 past the
/// levels that precede it.
pub open spec fn insert_index(s: Seq<Order>, o: Order) -> int {
    if s.len() == 0 {
        0
    } else if goes_last(s, o) {
        s.len() as int
    } else if o.price == s.last().price {
        back_scan(s, o, s.len() as int)
    } else if goes_first(s, o) {
        0
    } else if o.price == s[0].price {
        run_scan(s, o, 1)
    } else {
        forward_scan(s, o, 1)
    }
}

/// The ladder `s` after it has taken the new level `o`.
pub open spec fn with_order(s: Seq<Order>, o: Order) -> Seq<Order> {
    s.insert(insert_index(s, o), o)
}

/// The ladder that grows from an empty one by taking `orders` one after the
/// other.
pub open spec fn with_orders(orders: Seq<Order>) -> Seq<Order>
    decreases orders.len(),
{
    if orders.len() == 0 {
        Seq::empty()
    } else {
        with_order(with_orders(orders.drop_last()), orders.last())
    }
}

/// The backward scan stays within the prefix it was given, every level from
/// its result to the end of that prefix outsizes `o`, and the level just
/// before its result does not.
pub proof fn lemma_back_scan(s: Seq<Order>, o: Order, n: int)
    requires
        0 <= n <= s.len(),
    ensures
        0 <= back_scan(s, o, n) <= n,
        forall|j: int| back_scan(s, o, n) <= j < n ==> outsizes(#[trigger] s[j], o),
        back_scan(s, o, n) > 0 ==> !outsizes(s[back_scan(s, o, n) - 1], o),
    decreases n,
{
    if n > 0 && outsizes(s[n - 1], o) {
        lemma_back_scan(s, o, n - 1);
    }
}

/// The scan through a run starts no earlier than `i`, ends no later than the
/// length, passes only levels that outsize `o`, and stops at one that does
/// not.
pub proof fn lemma_run_scan(s: Seq<Order>, o: Order, i: int)
    requires
        0 <= i <= s.len(),
    ensures
        i <= run_scan(s, o, i) <= s.len(),
        forall|j: int| i <= j < run_scan(s, o, i) ==> outsizes(#[trigger] s[j], o),
        run_scan(s, o, i) < s.len() ==> !outsizes(s[run_scan(s, o, i)], o),
    decreases s.len() - i,
{
    if i < s.len() && outsizes(s[i], o) {
        lemma_run_scan(s, o, i + 1);
    }
}

/// The forward scan starts no earlier than `i`, ends no later than the length,
/// passes only levels that precede `o`, and stops at one that does not.
pub proof fn lemma_forward_scan(s: Seq<Order>, o: Order, i: int)
    requires
        0 <= i <= s.len(),
    ensures
        i <= forward_scan(s, o, i) <= s.len(),
        forall|j: int| i <= j < forward_scan(s, o, i) ==> precedes(#[trigger] s[j], o),
        forward_scan(s, o, i) < s.len() ==> !precedes(s[forward_scan(s, o, i)], o),
    decreases s.len() - i,
{
    if i < s.len() && precedes(s[i], o) {
        lemma_forward_scan(s, o, i + 1);
    }
}

/// The new level lands within the ladder or at its end.
pub proof fn lemma_insert_index_in_range(s: Seq<Order>, o: Order)
    ensures
        0 <= insert_index(s, o) <= s.len(),
{
    if s.len() > 0 {
        lemma_back_scan(s, o, s.len() as int);
        lemma_run_scan(s, o, 1);
        lemma_forward_scan(s, o, 1);
    }
}

/// In a ladder with sorted prices the new level lands between levels that are
/// no dearer in front of it and levels that are no cheaper behind it.
pub proof fn lemma_insert_index_splits_prices(s: Seq<Order>, o: Order)
    requires
        price_sorted(s),
    ensures
        0 <= insert_index(s, o) <= s.len(),
        forall|j: int| 0 <= j < insert_index(s, o) ==> (#[trigger] s[j]).price <= o.price,
        forall|j: int| insert_index(s, o) <= j < s.len() ==> o.price <= (#[trigger] s[j]).price,
{
    if s.len() > 0 {
        lemma_back_scan(s, o, s.len() as int);
        lemma_run_scan(s, o, 1);
        lemma_forward_scan(s, o, 1);
        let k = insert_index(s, o);
        if goes_last(s, o) {
        } else if o.price == s.last().price {
            assert(outsizes(s[s.len() - 1], o));
        } else if goes_first(s, o) {
        } else {
            assert(s[0].price <= o.price);
            assert forall|j: int| k <= j < s.len() implies o.price <= (#[trigger] s[j]).price by {
                assert(s[k].price <= s[j].price);
            }
        }
    }
}

/// Where the new level stands among the levels of its own price, in a ladder
/// with sorted prices.
///
/// If it has the price of the last level, every level behind it outsizes it,
/// and the level just in front of it does not. Otherwise, if it becomes the
/// first level, it is cheaper than the old first level or strictly smaller; if
/// it does not, the old first level is not dearer, and not larger where it has
/// the same price, every level of its price between the first level and the
/// new one outsizes it, and the level just behind it does not.
pub proof fn lemma_insert_index_tie_break(s: Seq<Order>, o: Order)
    requires
        price_sorted(s),
        s.len() > 0,
    ensures
        o.price == s.last().price ==> {
            &&& forall|j: int| insert_index(s, o) <= j < s.len() ==> outsizes(#[trigger] s[j], o)
            &&& insert_index(s, o) > 0 ==> !outsizes(s[insert_index(s, o) - 1], o)
        },
        o.price != s.last().price && insert_index(s, o) == 0 ==> o.price < s[0].price || o.size
            < s[0].size,
        o.price != s.last().price && insert_index(s, o) > 0 ==> {
            &&& s[0].price <= o.price
            &&& s[0].price == o.price ==> s[0].size <= o.size
            &&& forall|j: int|
                1 <= j < insert_index(s, o) && (#[trigger] s[j]).price == o.price ==> s[j].size
                    > o.size
            &&& insert_index(s, o) < s.len() ==> !outsizes(s[insert_index(s, o)], o)
        },
{
    lemma_back_scan(s, o, s.len() as int);
    lemma_run_scan(s, o, 1);
    lemma_forward_scan(s, o, 1);
}

/// Taking a new level keeps the prices of a ladder sorted.
pub proof fn lemma_with_order_keeps_prices_sorted(s: Seq<Order>, o: Order)
    requires
        price_sorted(s),
    ensures
        price_sorted(with_order(s, o)),
{
    lemma_insert_index_splits_prices(s, o);
    let k = insert_index(s, o);
    let t = with_order(s, o);
    assert forall|i: int, j: int| 0 <= i <= j < t.len() implies t[i].price <= t[j].price by {
        if i < k {
            assert(t[i] == s[i]);
        } else if i > k {
            assert(t[i] == s[i - 1]);
        }
        if j < k {
            assert(t[j] == s[j]);
        } else if j > k {
            assert(t[j] == s[j - 1]);
        }
    }
}

/// Whatever levels an empty ladder takes, and in whatever order, its prices
/// never fall from front to back.
pub proof fn lemma_with_orders_prices_sorted(orders: Seq<Order>)
    ensures
        price_sorted(with_orders(orders)),
        with_orders(orders).len() == orders.len(),
    decreases orders.len(),
{
    if orders.len() > 0 {
        lemma_with_orders_prices_sorted(orders.drop_last());
        lemma_insert_index_splits_prices(with_orders(orders.drop_last()), orders.last());
        lemma_with_order_keeps_prices_sorted(with_orders(orders.drop_last()), orders.last());
    }
}

} // verus!
