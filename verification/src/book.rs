use vstd::prelude::*;
use crate::order::Order;
use crate::action::Action;
use crate::order::price_sorted;
use crate::order::no_empty_level;
use crate::order::total_size;
use crate::placement::back_scan;
use crate::placement::run_scan;
use crate::placement::forward_scan;
use crate::placement::insert_index;
use crate::placement::with_order;
use crate::placement::lemma_with_order_keeps_prices_sorted;
use crate::placement::lemma_insert_index_in_range;
use crate::fill::behind_front;
use crate::fill::fill_cost;
use crate::fill::fill_rest;
use crate::fill::filled;
use crate::fill::lemma_fill_conserves_size;
use crate::fill::lemma_fill_cost_bound;
use crate::fill::lemma_fill_rest_keeps_order;

verus! {

/// The ladder `s` without the level at `pos`, or without its last level where
/// `pos` is beyond it; an empty ladder as it is.
pub open spec fn without_level(s: Seq<Order>, pos: int) -> Seq<Order> {
    if s.len() == 0 {
        s
    } else if pos < s.len() {
        s.remove(pos)
    } else {
        s.drop_last()
    }
}

/// The ladder `s` after the instruction `action`.
pub open spec fn after(s: Seq<Order>, action: Action) -> Seq<Order> {
    match action {
        Action::Add { price, size } => with_order(s, (Order { price, size })),
        Action::Remove { pos } => without_level(s, pos as int),
        Action::Buy { shares } => fill_rest(s, shares as nat),
    }
}

/// What the instruction `action` pays on the ladder `s`: a buy its cost, any
/// other instruction nothing.
pub open spec fn paid(s: Seq<Order>, action: Action) -> Option<nat> {
    match action {
        Action::Buy { shares } => Some(fill_cost(s, shares as nat)),
        _ => None,
    }
}

/// Whatever the instruction, it leaves the prices of a ladder sorted, and it
/// leaves no empty level where there was none, unless it adds one.
pub proof fn lemma_after_keeps_order(s: Seq<Order>, action: Action)
    ensures
        price_sorted(s) ==> price_sorted(after(s, action)),
        no_empty_level(s) && !(action matches Action::Add { size, .. } && size == 0)
            ==> no_empty_level(after(s, action)),
{
    match action {
        Action::Add { price, size } => {
            let o = Order { price, size };
            if price_sorted(s) {
                lemma_with_order_keeps_prices_sorted(s, o);
            }
            if no_empty_level(s) && size > 0 {
                let k = insert_index(s, o);
                lemma_insert_index_in_range(s, o);
                assert forall|i: int| 0 <= i < with_order(s, o).len() implies with_order(
                    s,
                    o,
                )[i].size > 0 by {
                    if i < k {
                        assert(with_order(s, o)[i] == s[i]);
                    } else if i > k {
                        assert(with_order(s, o)[i] == s[i - 1]);
                    }
                }
            }
        },
        Action::Remove { pos } => {
            let t = without_level(s, pos as int);
            let at = if pos < s.len() {
                pos as int
            } else {
                s.len() - 1
            };
            if s.len() > 0 {
                assert(t =~= s.remove(at));
                assert forall|i: int, j: int|
                    price_sorted(s) && 0 <= i <= j < t.len() implies t[i].price
                    <= t[j].price by {
                    let a = if i < at {
                        i
                    } else {
                        i + 1
                    };
                    let b = if j < at {
                        j
                    } else {
                        j + 1
                    };
                    assert(t[i] == s[a] && t[j] == s[b]);
                }
                assert forall|i: int| no_empty_level(s) && 0 <= i < t.len() implies t[i].size
                    > 0 by {
                    let a = if i < at {
                        i
                    } else {
                        i + 1
                    };
                    assert(t[i] == s[a]);
                }
            }
        },
        Action::Buy { shares } => {
            lemma_fill_rest_keeps_order(s, shares as nat);
        },
    }
}

/// One side of an order book: a ladder of price levels, the best ask at the
/// front.
pub struct Orderbook {
    orders: Vec<Order>,
}

impl View for Orderbook {
    type V = Seq<Order>;

    closed spec fn view(&self) -> Seq<Order> {
        self.orders@
    }
}

impl Orderbook {
    /// The ladder's invariant: prices never fall from front to back.
    pub open spec fn wf(&self) -> bool {
        price_sorted(self@)
    }

    /// An empty ladder.
    pub fn new() -> (book: Orderbook)
        ensures
            book@ == Seq::<Order>::empty(),
            book.wf(),
    {
        Orderbook { orders: Vec::new() }
    }

    /// The number of levels.
    pub fn len(&self) -> (n: usize)
        ensures
            n == self@.len(),
    {
        self.orders.len()
    }

    /// The level at `index`, counted from the best ask, if there is one.
    pub fn level(&self, index: usize) -> (found: Option<Order>)
        ensures
            found == if index < self@.len() {
                Some(self@[index as int])
            } else {
                None
            },
    {
        if index < self.orders.len() {
            Some(self.orders[index])
        } else {
            None
        }
    }

    /// The levels, from the best ask on.
    pub fn levels(&self) -> (all: Vec<Order>)
        ensures
            all@ == self@,
    {
        let mut all: Vec<Order> = Vec::new();
        let mut i: usize = 0;
        while i < self.orders.len()
            invariant
                i <= self.orders@.len(),
                all@ == self@.subrange(0, i as int),
            decreases self.orders@.len() - i,
        {
            all.push(self.orders[i]);
            proof {
                assert(all@ =~= self@.subrange(0, i + 1));
            }
            i += 1;
        }
        proof {
            assert(self@.subrange(0, self@.len() as int) =~= self@);
        }
        all
    }

    /// Where the backward scan over the whole ladder leaves the new level.
    fn scan_back(&self, o: Order) -> (k: usize)
        ensures
            k == back_scan(self@, o, self@.len() as int),
            k <= self@.len(),
    {
        let mut n: usize = self.orders.len();
        while n > 0 && self.orders[n - 1].price == o.price && self.orders[n - 1].size > o.size
            invariant
                n <= self.orders@.len(),
                back_scan(self@, o, self@.len() as int) == back_scan(self@, o, n as int),
            decreases n,
        {
            n -= 1;
        }
        n
    }

    /// Where the forward scan from index 1 leaves the new level; `run` tells
    /// whether it only passes levels of the new level's own price.
    fn scan_forward(&self, o: Order, run: bool) -> (k: usize)
        requires
            self@.len() > 0,
        ensures
            k == if run {
                run_scan(self@, o, 1)
            } else {
                forward_scan(self@, o, 1)
            },
            1 <= k <= self@.len(),
    {
        let mut i: usize = 1;
        while i < self.orders.len() && ((!run && self.orders[i].price < o.price) || (
        self.orders[i].price == o.price && self.orders[i].size > o.size))
            invariant
                1 <= i <= self.orders@.len(),
                run ==> run_scan(self@, o, 1) == run_scan(self@, o, i as int),
                !run ==> forward_scan(self@, o, 1) == forward_scan(self@, o, i as int),
            decreases self.orders@.len() - i,
        {
            i += 1;
        }
        i
    }

    /// Where the ladder takes the new level.
    fn place(&self, o: Order) -> (k: usize)
        ensures
            k == insert_index(self@, o),
            k <= self@.len(),
    {
        let n = self.orders.len();
        if n == 0 {
            return 0;
        }
        let last = self.orders[n - 1];
        if o.price > last.price || (o.price == last.price && o.size >= last.size) {
            return n;
        }
        if o.price == last.price {
            return self.scan_back(o);
        }
        let first = self.orders[0];
        if o.price < first.price || (o.price == first.price && o.size < first.size) {
            return 0;
        }
        self.scan_forward(o, o.price == first.price)
    }

    /// Takes a new level of `size` shares at `price`, at the index that
    /// `insert_index` gives it; the levels that were there keep their order.
    pub fn add(&mut self, price: u32, size: u32)
        requires
            old(self).wf(),
        ensures
            final(self)@ == with_order(old(self)@, (Order { price, size })),
            final(self)@.len() == old(self)@.len() + 1,
            final(self).wf(),
            no_empty_level(old(self)@) && size > 0 ==> no_empty_level(final(self)@),
    {
        let o = Order { price, size };
        let k = self.place(o);
        proof {
            lemma_with_order_keeps_prices_sorted(self@, o);
        }
        self.orders.insert(k, o);
    }

    /// Removes the level at `pos`, or the last level where `pos` is beyond it.
    /// An empty ladder stays as it is.
    pub fn remove(&mut self, pos: usize)
        requires
            old(self).wf(),
        ensures
            final(self)@ == without_level(old(self)@, pos as int),
            old(self)@.len() > 0 && pos >= old(self)@.len() ==> final(self)@ == old(
                self,
            )@.drop_last(),
            final(self).wf(),
            no_empty_level(old(self)@) ==> no_empty_level(final(self)@),
    {
        let n = self.orders.len();
        if n > 0 {
            let at = if pos < n {
                pos
            } else {
                n - 1
            };
            assert(old(self)@.remove(n - 1) =~= old(self)@.drop_last());
            self.orders.remove(at);
        }
    }

    /// A market buy of `shares`: walks the ladder from the best ask, takes from
    /// each level what it has until the buy is filled or the ladder is empty,
    /// drops the levels it drained, and returns what was paid.
    pub fn buy(&mut self, shares: u32) -> (cost: u64)
        requires
            old(self).wf(),
        ensures
            cost == fill_cost(old(self)@, shares as nat),
            final(self)@ == fill_rest(old(self)@, shares as nat),
            total_size(final(self)@) + filled(old(self)@, shares as nat) == total_size(
                old(self)@,
            ),
            final(self).wf(),
            no_empty_level(old(self)@) ==> no_empty_level(final(self)@),
    {
        let mut left: u32 = shares;
        let mut cost: u64 = 0;
        proof {
            lemma_fill_conserves_size(self@, shares as nat);
            lemma_fill_rest_keeps_order(self@, shares as nat);
            lemma_fill_cost_bound(self@, shares as nat);
        }
        let ghost before = self@;
        let mut drained: usize = 0;
        assert(before.subrange(0, before.len() as int) =~= before);
        while left > 0 && drained < self.orders.len() && self.orders[drained].size <= left
            invariant
                self@ == before,
                drained <= before.len(),
                left <= shares,
                cost + fill_cost(before.subrange(drained as int, before.len() as int), left as nat)
                    == fill_cost(before, shares as nat),
                fill_rest(before.subrange(drained as int, before.len() as int), left as nat)
                    == fill_rest(before, shares as nat),
                fill_cost(before, shares as nat) <= shares * u32::MAX,
            decreases before.len() - drained,
        {
            let level = self.orders[drained];
            proof {
                let s = before.subrange(drained as int, before.len() as int);
                assert(s[0] == level);
                assert(behind_front(s) =~= before.subrange(drained + 1, before.len() as int));
                assert(level.size as nat * level.price as nat <= u32::MAX * u32::MAX)
                    by (nonlinear_arith)
                    requires
                        level.size <= u32::MAX,
                        level.price <= u32::MAX,
                ;
                assert(shares * u32::MAX <= u32::MAX * u32::MAX) by (nonlinear_arith)
                    requires
                        shares <= u32::MAX,
                ;
            }
            cost = cost + (level.size as u64) * (level.price as u64);
            left = left - level.size;
            drained = drained + 1;
        }
        if drained > 0 {
            self.drop_front(drained);
        }
        if left > 0 && self.orders.len() > 0 {
            let level = self.orders[0];
            proof {
                assert(shares * u32::MAX <= u32::MAX * u32::MAX) by (nonlinear_arith)
                    requires
                        shares <= u32::MAX,
                ;
                assert(left as nat * level.price as nat <= u32::MAX * u32::MAX)
                    by (nonlinear_arith)
                    requires
                        left <= u32::MAX,
                        level.price <= u32::MAX,
                ;
            }
            cost = cost + (left as u64) * (level.price as u64);
            self.orders.set(0, Order { price: level.price, size: level.size - left });
        }
        cost
    }

    /// Carries out one instruction, and returns what it paid if it was a buy.
    pub fn apply(&mut self, action: Action) -> (cost: Option<u64>)
        requires
            old(self).wf(),
        ensures
            final(self)@ == after(old(self)@, action),
            cost == match paid(old(self)@, action) {
                Some(c) => Some(c as u64),
                None => None,
            },
            paid(old(self)@, action) is Some ==> paid(old(self)@, action)->0 <= u64::MAX,
            final(self).wf(),
            no_empty_level(old(self)@) && !(action matches Action::Add { size, .. } && size == 0)
                ==> no_empty_level(final(self)@),
    {
        match action {
            Action::Add { price, size } => {
                self.add(price, size);
                None
            },
            Action::Remove { pos } => {
                self.remove(pos);
                None
            },
            Action::Buy { shares } => {
                let cost = self.buy(shares);
                Some(cost)
            },
        }
    }

    /// Drops the first `count` levels.
    fn drop_front(&mut self, count: usize)
        requires
            count <= old(self)@.len(),
        ensures
            final(self)@ == old(self)@.subrange(count as int, old(self)@.len() as int),
    {
        let mut kept: Vec<Order> = Vec::new();
        let mut i: usize = count;
        while i < self.orders.len()
            invariant
                self@ == old(self)@,
                count <= i <= self.orders@.len(),
                kept@ == self@.subrange(count as int, i as int),
            decreases self.orders@.len() - i,
        {
            kept.push(self.orders[i]);
            proof {
                assert(kept@ =~= self@.subrange(count as int, i + 1));
            }
            i += 1;
        }
        self.orders = kept;
    }
}

} // verus!
