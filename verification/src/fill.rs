use vstd::prelude::*;
use crate::order::Order;
use crate::order::price_sorted;
use crate::order::no_empty_level;
use crate::order::total_size;

verus! {

/// The ladder without its first level.
pub open spec fn behind_front(s: Seq<Order>) -> Seq<Order> {
    s.subrange(1, s.len() as int)
}

/// The front level after `taken` shares have left it.
pub open spec fn reduced_front(s: Seq<Order>, taken: nat) -> Order {
    Order { price: s[0].price, size: (s[0].size - taken) as u32 }
}

/// What a market buy of `shares` pays on the ladder `s`: each level, from the
/// front, gives what it has until the buy is filled, at its own price.
pub open spec fn fill_cost(s: Seq<Order>, shares: nat) -> nat
    decreases s.len(),
{
    if s.len() == 0 || shares == 0 {
        0
    } else if s[0].size <= shares {
        s[0].size as nat * s[0].price as nat + fill_cost(
            behind_front(s),
            (shares - s[0].size) as nat,
        )
    } else {
        shares * s[0].price as nat
    }
}

/// What a market buy of `shares` leaves of the ladder `s`: the levels it
/// drained are gone, the level it stopped in keeps the rest of its size, and
/// the levels behind are as they were.
pub open spec fn fill_rest(s: Seq<Order>, shares: nat) -> Seq<Order>
    decreases s.len(),
{
    if s.len() == 0 || shares == 0 {
        s
    } else if s[0].size <= shares {
        fill_rest(behind_front(s), (shares - s[0].size) as nat)
    } else {
        s.update(0, reduced_front(s, shares))
    }
}

/// How many shares a market buy of `shares` gets on the ladder `s`: all it
/// asked for, or all there is.
pub open spec fn filled(s: Seq<Order>, shares: nat) -> nat {
    if shares <= total_size(s) {
        shares
    } else {
        total_size(s)
    }
}

/// A market buy takes out of the ladder exactly the shares it gets: the sizes
/// left and the shares filled add up to the sizes before.
pub proof fn lemma_fill_conserves_size(s: Seq<Order>, shares: nat)
    ensures
        total_size(fill_rest(s, shares)) + filled(s, shares) == total_size(s),
        total_size(fill_rest(s, shares)) <= total_size(s),
    decreases s.len(),
{
    if s.len() == 0 || shares == 0 {
    } else if s[0].size <= shares {
        lemma_fill_conserves_size(behind_front(s), (shares - s[0].size) as nat);
    } else {
        let t = s.update(0, reduced_front(s, shares));
        assert(behind_front(t) =~= behind_front(s));
    }
}

/// The sizes of the first `i` levels, added up.
pub open spec fn size_before(s: Seq<Order>, i: int) -> nat {
    total_size(s.subrange(0, i))
}

/// How many shares a market buy of `shares` takes from the level at index `i`:
/// nothing if the levels in front fill the buy, else what the buy still
/// lacks, but no more than the level has.
pub open spec fn taken_at(s: Seq<Order>, shares: nat, i: int) -> nat {
    if shares <= size_before(s, i) {
        0
    } else if shares - size_before(s, i) >= s[i].size {
        s[i].size as nat
    } else {
        (shares - size_before(s, i)) as nat
    }
}

/// What a market buy of `shares` pays to the levels from index `i` on: to each
/// its price for every share taken from it.
pub open spec fn paid_from(s: Seq<Order>, shares: nat, i: int) -> nat
    decreases s.len() - i,
{
    if i >= s.len() {
        0
    } else {
        taken_at(s, shares, i) * s[i].price as nat + paid_from(s, shares, i + 1)
    }
}

/// One more level adds its size to the sizes before it.
proof fn lemma_total_size_push(s: Seq<Order>, o: Order)
    ensures
        total_size(s.push(o)) == total_size(s) + o.size,
    decreases s.len(),
{
    let t = s.push(o);
    if s.len() == 0 {
        assert(behind_front(t) =~= s);
    } else {
        lemma_total_size_push(behind_front(s), o);
        assert(behind_front(t) =~= behind_front(s).push(o));
    }
}

/// The sizes before an index never shrink as the index moves back.
proof fn lemma_size_before_step(s: Seq<Order>, i: int)
    requires
        0 <= i < s.len(),
    ensures
        size_before(s, i + 1) == size_before(s, i) + s[i].size,
        size_before(s, 0) == 0,
{
    assert(s.subrange(0, i + 1) =~= s.subrange(0, i).push(s[i]));
    lemma_total_size_push(s.subrange(0, i), s[i]);
}

/// Behind the first level, the sizes before an index are those of the rest of
/// the ladder, and the first level's size.
proof fn lemma_size_before_shift(s: Seq<Order>, i: int)
    requires
        0 <= i < s.len(),
    ensures
        size_before(s, i + 1) == s[0].size + size_before(behind_front(s), i),
{
    assert(behind_front(s.subrange(0, i + 1)) =~= behind_front(s).subrange(0, i));
}

/// Levels behind those that fill the buy are paid nothing.
proof fn lemma_paid_from_filled(s: Seq<Order>, shares: nat, i: int)
    requires
        0 <= i <= s.len(),
        shares <= size_before(s, i),
    ensures
        paid_from(s, shares, i) == 0,
    decreases s.len() - i,
{
    if i < s.len() {
        lemma_size_before_step(s, i);
        lemma_paid_from_filled(s, shares, i + 1);
    }
}

/// Once the first level is drained, the levels behind it are paid what they
/// are paid by a buy of the remaining shares on the rest of the ladder.
proof fn lemma_paid_from_shift(s: Seq<Order>, shares: nat, i: int)
    requires
        0 <= i < s.len(),
        s[0].size <= shares,
    ensures
        paid_from(s, shares, i + 1) == paid_from(
            behind_front(s),
            (shares - s[0].size) as nat,
            i,
        ),
    decreases s.len() - i,
{
    if i + 1 < s.len() {
        lemma_size_before_shift(s, i);
        lemma_paid_from_shift(s, shares, i + 1);
    }
}

/// What a market buy pays is the sum, over the levels, of the shares it takes
/// from each at that level's price.
pub proof fn lemma_fill_cost_sums_fills(s: Seq<Order>, shares: nat)
    ensures
        fill_cost(s, shares) == paid_from(s, shares, 0),
    decreases s.len(),
{
    if s.len() > 0 {
        lemma_size_before_step(s, 0);
        if shares == 0 {
            lemma_paid_from_filled(s, shares, 0);
        } else if s[0].size <= shares {
            lemma_fill_cost_sums_fills(behind_front(s), (shares - s[0].size) as nat);
            lemma_paid_from_shift(s, shares, 0);
        } else {
            lemma_paid_from_filled(s, shares, 1);
        }
    }
}

/// How many shares a market buy of `shares` takes from the levels from index
/// `i` on.
pub open spec fn taken_from(s: Seq<Order>, shares: nat, i: int) -> nat
    decreases s.len() - i,
{
    if i >= s.len() {
        0
    } else {
        taken_at(s, shares, i) + taken_from(s, shares, i + 1)
    }
}

/// Once the first level is drained, a level behind it gives what it gives to
/// a buy of the remaining shares on the rest of the ladder.
proof fn lemma_taken_at_shift(s: Seq<Order>, shares: nat, i: int)
    requires
        0 <= i < s.len() - 1,
        s[0].size <= shares,
    ensures
        taken_at(s, shares, i + 1) == taken_at(behind_front(s), (shares - s[0].size) as nat, i),
{
    lemma_size_before_shift(s, i);
}

/// Levels behind those that fill the buy give nothing.
proof fn lemma_taken_from_filled(s: Seq<Order>, shares: nat, i: int)
    requires
        0 <= i <= s.len(),
        shares <= size_before(s, i),
    ensures
        taken_from(s, shares, i) == 0,
    decreases s.len() - i,
{
    if i < s.len() {
        lemma_size_before_step(s, i);
        lemma_taken_from_filled(s, shares, i + 1);
    }
}

/// Once the first level is drained, the levels behind it give what they give
/// to a buy of the remaining shares on the rest of the ladder.
proof fn lemma_taken_from_shift(s: Seq<Order>, shares: nat, i: int)
    requires
        0 <= i < s.len(),
        s[0].size <= shares,
    ensures
        taken_from(s, shares, i + 1) == taken_from(
            behind_front(s),
            (shares - s[0].size) as nat,
            i,
        ),
    decreases s.len() - i,
{
    if i + 1 < s.len() {
        lemma_taken_at_shift(s, shares, i);
        lemma_taken_from_shift(s, shares, i + 1);
    }
}

/// The shares that a market buy takes from the single levels add up to the
/// shares it gets: all it asked for, or all there is.
pub proof fn lemma_fills_add_up(s: Seq<Order>, shares: nat)
    ensures
        taken_from(s, shares, 0) == filled(s, shares),
    decreases s.len(),
{
    if s.len() > 0 {
        lemma_size_before_step(s, 0);
        if shares == 0 {
            lemma_taken_from_filled(s, shares, 0);
        } else if s[0].size <= shares {
            lemma_fills_add_up(behind_front(s), (shares - s[0].size) as nat);
            lemma_taken_from_shift(s, shares, 0);
        } else {
            lemma_taken_from_filled(s, shares, 1);
        }
    }
}

/// A market buy only touches the front of the ladder. What it leaves are the
/// last levels of the ladder, as many as were not drained; the first of them
/// has lost the shares the buy took from it, and the others are as they were.
/// Every level in front of them gave all it had.
pub proof fn lemma_fill_rest_is_tail(s: Seq<Order>, shares: nat)
    ensures
        fill_rest(s, shares).len() <= s.len(),
        forall|j: int|
            1 <= j < fill_rest(s, shares).len() ==> #[trigger] fill_rest(s, shares)[j] == s[s.len()
                - fill_rest(s, shares).len() + j],
        fill_rest(s, shares).len() > 0 ==> {
            let k = s.len() - fill_rest(s, shares).len();
            &&& fill_rest(s, shares)[0].price == s[k].price
            &&& fill_rest(s, shares)[0].size == s[k].size - taken_at(s, shares, k)
        },
        forall|j: int|
            0 <= j < s.len() - fill_rest(s, shares).len() ==> #[trigger] taken_at(s, shares, j)
                == s[j].size,
    decreases s.len(),
{
    if s.len() > 0 {
        lemma_size_before_step(s, 0);
        if shares > 0 && s[0].size <= shares {
            let b = behind_front(s);
            let left = (shares - s[0].size) as nat;
            let r = fill_rest(s, shares);
            let k = s.len() - r.len();
            lemma_fill_rest_is_tail(b, left);
            assert forall|j: int| 1 <= j < r.len() implies #[trigger] r[j] == s[k + j] by {
                assert(r[j] == b[b.len() - r.len() + j]);
            }
            if r.len() > 0 {
                lemma_taken_at_shift(s, shares, k - 1);
            }
            assert forall|j: int| 0 <= j < k implies #[trigger] taken_at(s, shares, j)
                == s[j].size by {
                if j > 0 {
                    lemma_taken_at_shift(s, shares, j - 1);
                    assert(taken_at(b, left, j - 1) == b[j - 1].size);
                }
            }
        }
    }
}

/// A market buy never pays more than the dearest price for each share it
/// asked for.
pub proof fn lemma_fill_cost_bound(s: Seq<Order>, shares: nat)
    ensures
        fill_cost(s, shares) <= shares * u32::MAX,
    decreases s.len(),
{
    if s.len() == 0 || shares == 0 {
    } else if s[0].size <= shares {
        let size = s[0].size as nat;
        let price = s[0].price as nat;
        let more = (shares - size) as nat;
        lemma_fill_cost_bound(behind_front(s), more);
        assert(size * price + more * u32::MAX <= shares * u32::MAX) by (nonlinear_arith)
            requires
                price <= u32::MAX,
                shares == size + more,
        ;
    } else {
        let price = s[0].price as nat;
        assert(shares * price <= shares * u32::MAX) by (nonlinear_arith)
            requires
                price <= u32::MAX,
        ;
    }
}

/// A market buy for more shares than the ladder holds leaves the ladder empty,
/// and so does one for exactly as many, if that is at least one share and no
/// level is empty. A buy that follows costs nothing and finds the ladder still
/// empty.
pub proof fn lemma_fill_drains(s: Seq<Order>, shares: nat, again: nat)
    requires
        shares > total_size(s) || (shares > 0 && shares == total_size(s) && no_empty_level(s)),
    ensures
        fill_rest(s, shares).len() == 0,
        fill_cost(fill_rest(s, shares), again) == 0,
        fill_rest(fill_rest(s, shares), again).len() == 0,
    decreases s.len(),
{
    if s.len() > 0 {
        let b = behind_front(s);
        assert(total_size(s) == s[0].size + total_size(b));
        assert forall|i: int| 0 <= i < b.len() && no_empty_level(s) implies b[i].size > 0 by {
            assert(s[i + 1].size > 0);
        }
        if b.len() > 0 {
            assert(total_size(b) == b[0].size + total_size(behind_front(b)));
            lemma_fill_drains(b, (shares - s[0].size) as nat, again);
        }
    }
}

/// A market buy keeps the prices sorted and makes no level empty.
pub proof fn lemma_fill_rest_keeps_order(s: Seq<Order>, shares: nat)
    ensures
        price_sorted(s) ==> price_sorted(fill_rest(s, shares)),
        no_empty_level(s) ==> no_empty_level(fill_rest(s, shares)),
    decreases s.len(),
{
    if s.len() == 0 || shares == 0 {
    } else if s[0].size <= shares {
        let b = behind_front(s);
        lemma_fill_rest_keeps_order(b, (shares - s[0].size) as nat);
        if price_sorted(s) {
            assert forall|i: int, j: int| 0 <= i <= j < b.len() implies b[i].price
                <= b[j].price by {
                assert(s[i + 1].price <= s[j + 1].price);
            }
        }
        if no_empty_level(s) {
            assert forall|i: int| 0 <= i < b.len() implies b[i].size > 0 by {
                assert(s[i + 1].size > 0);
            }
        }
    } else {
        let t = s.update(0, reduced_front(s, shares));
        if price_sorted(s) {
            assert forall|i: int, j: int| 0 <= i <= j < t.len() implies t[i].price
                <= t[j].price by {
                assert(s[i].price <= s[j].price);
            }
        }
    }
}

} // verus!
