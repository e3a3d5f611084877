use orderbook::book::Orderbook;
use orderbook::order::Order;

fn ladder(levels: &[(u32, u32)]) -> Orderbook {
    let mut book = Orderbook::new();
    for &(price, size) in levels {
        book.add(price, size);
    }
    book
}

fn pairs(book: &Orderbook) -> Vec<(u32, u32)> {
    book.levels().iter().map(|o| (o.price, o.size)).collect()
}

#[test]
fn new_book_is_empty() {
    let book = Orderbook::new();
    assert_eq!(book.len(), 0);
    assert_eq!(book.level(0), None);
    assert!(book.levels().is_empty());
}

#[test]
fn first_level_stands_alone() {
    let book = ladder(&[(10, 5)]);
    assert_eq!(pairs(&book), vec![(10, 5)]);
    assert_eq!(book.level(0), Some(Order { price: 10, size: 5 }));
    assert_eq!(book.level(1), None);
}

#[test]
fn three_inserts_end_sorted() {
    let book = ladder(&[(10, 5), (10, 3), (9, 2)]);
    assert_eq!(pairs(&book), vec![(9, 2), (10, 3), (10, 5)]);
}

#[test]
fn dearer_level_is_appended() {
    let book = ladder(&[(5, 1), (7, 2), (9, 1)]);
    assert_eq!(pairs(&book), vec![(5, 1), (7, 2), (9, 1)]);
}

#[test]
fn equal_level_at_the_back_is_appended() {
    let book = ladder(&[(7, 4), (7, 4), (7, 6)]);
    assert_eq!(pairs(&book), vec![(7, 4), (7, 4), (7, 6)]);
}

#[test]
fn smaller_level_moves_back_past_larger_ones() {
    let book = ladder(&[(5, 1), (7, 2), (7, 9), (7, 5)]);
    assert_eq!(pairs(&book), vec![(5, 1), (7, 2), (7, 5), (7, 9)]);
}

#[test]
fn smallest_level_of_the_only_price_goes_to_the_front() {
    let book = ladder(&[(7, 4), (7, 9), (7, 1)]);
    assert_eq!(pairs(&book), vec![(7, 1), (7, 4), (7, 9)]);
}

#[test]
fn single_level_with_larger_size_takes_smaller_one_in_front() {
    let book = ladder(&[(10, 5), (10, 3)]);
    assert_eq!(pairs(&book), vec![(10, 3), (10, 5)]);
}

#[test]
fn cheaper_level_goes_to_the_front() {
    let book = ladder(&[(7, 4), (9, 1), (3, 8)]);
    assert_eq!(pairs(&book), vec![(3, 8), (7, 4), (9, 1)]);
}

#[test]
fn smaller_level_at_the_first_price_goes_to_the_front() {
    let book = ladder(&[(7, 4), (9, 1), (7, 2)]);
    assert_eq!(pairs(&book), vec![(7, 2), (7, 4), (9, 1)]);
}

#[test]
fn equal_level_at_the_first_price_goes_behind_the_first() {
    let book = ladder(&[(7, 4), (9, 1), (7, 4)]);
    assert_eq!(pairs(&book), vec![(7, 4), (7, 4), (9, 1)]);
}

#[test]
fn level_at_the_first_price_passes_larger_ones() {
    let book = ladder(&[(10, 3), (10, 5), (11, 1), (10, 4)]);
    assert_eq!(pairs(&book), vec![(10, 3), (10, 5), (10, 4), (11, 1)]);
}

#[test]
fn level_at_the_first_price_stops_at_a_smaller_one() {
    let book = ladder(&[(10, 3), (10, 5), (11, 1), (10, 6)]);
    assert_eq!(pairs(&book), vec![(10, 3), (10, 6), (10, 5), (11, 1)]);
}

#[test]
fn level_between_the_ends_passes_cheaper_ones() {
    let book = ladder(&[(5, 1), (7, 2), (7, 9), (9, 1), (8, 1)]);
    assert_eq!(pairs(&book), vec![(5, 1), (7, 2), (7, 9), (8, 1), (9, 1)]);
}

#[test]
fn level_between_the_ends_stops_at_a_smaller_one_of_its_price() {
    let book = ladder(&[(5, 1), (7, 2), (7, 9), (9, 1), (7, 5)]);
    assert_eq!(pairs(&book), vec![(5, 1), (7, 5), (7, 2), (7, 9), (9, 1)]);
}

#[test]
fn level_between_the_ends_passes_larger_ones_of_its_price() {
    let book = ladder(&[(5, 1), (7, 6), (7, 9), (9, 1), (7, 5)]);
    assert_eq!(pairs(&book), vec![(5, 1), (7, 6), (7, 9), (7, 5), (9, 1)]);
}

#[test]
fn prices_stay_sorted_after_many_inserts() {
    let input = [
        (10, 5), (3, 1), (10, 3), (7, 7), (3, 9), (12, 1), (7, 2), (10, 4), (1, 1), (12, 0),
        (7, 7), (3, 1), (11, 6), (10, 5), (1, 2),
    ];
    let book = ladder(&input);
    let got = pairs(&book);
    assert_eq!(got.len(), input.len());
    for w in got.windows(2) {
        assert!(w[0].0 <= w[1].0);
    }
    let mut a = got.clone();
    let mut b = input.to_vec();
    a.sort();
    b.sort();
    assert_eq!(a, b);
}

#[test]
fn remove_takes_the_level_at_the_index() {
    let mut book = ladder(&[(1, 1), (2, 2), (3, 3)]);
    book.remove(1);
    assert_eq!(pairs(&book), vec![(1, 1), (3, 3)]);
    book.remove(0);
    assert_eq!(pairs(&book), vec![(3, 3)]);
}

#[test]
fn remove_beyond_the_end_takes_the_last_level() {
    let mut book = ladder(&[(1, 1), (2, 2), (3, 3)]);
    book.remove(3);
    assert_eq!(pairs(&book), vec![(1, 1), (2, 2)]);
    book.remove(usize::MAX);
    assert_eq!(pairs(&book), vec![(1, 1)]);
    book.remove(7);
    assert!(pairs(&book).is_empty());
}

#[test]
fn remove_leaves_an_empty_ladder_as_it_is() {
    let mut book = Orderbook::new();
    book.remove(0);
    assert_eq!(book.len(), 0);
    book.remove(5);
    assert_eq!(book.len(), 0);
}

#[test]
fn buy_walks_from_the_best_ask() {
    let mut book = ladder(&[(10, 5), (10, 3), (9, 2)]);
    assert_eq!(pairs(&book), vec![(9, 2), (10, 3), (10, 5)]);
    assert_eq!(book.buy(4), 38);
    assert_eq!(pairs(&book), vec![(10, 1), (10, 5)]);
}

#[test]
fn buy_on_an_empty_ladder_costs_nothing() {
    let mut book = Orderbook::new();
    assert_eq!(book.buy(100), 0);
    assert_eq!(book.len(), 0);
}

#[test]
fn buy_of_nothing_changes_nothing() {
    let mut book = ladder(&[(9, 2), (10, 3)]);
    assert_eq!(book.buy(0), 0);
    assert_eq!(pairs(&book), vec![(9, 2), (10, 3)]);
}

#[test]
fn buy_that_drains_a_level_exactly_drops_it() {
    let mut book = ladder(&[(9, 2), (10, 3)]);
    assert_eq!(book.buy(2), 18);
    assert_eq!(pairs(&book), vec![(10, 3)]);
    assert_eq!(book.buy(3), 30);
    assert!(pairs(&book).is_empty());
}

#[test]
fn buy_beyond_the_ladder_takes_what_there_is() {
    let mut book = ladder(&[(9, 2), (10, 3), (12, 1)]);
    assert_eq!(book.buy(1000), 18 + 30 + 12);
    assert_eq!(book.len(), 0);
}

#[test]
fn drained_ladder_stays_empty() {
    let mut book = ladder(&[(4, 10), (6, 10), (8, 10)]);
    assert_eq!(book.buy(15), 40 + 30);
    assert_eq!(book.buy(1_000_000), 30 + 80);
    assert_eq!(book.len(), 0);
    assert_eq!(book.buy(1_000_000), 0);
    assert_eq!(book.len(), 0);
}

#[test]
fn buy_takes_out_the_shares_it_fills() {
    let mut book = ladder(&[(4, 10), (6, 10), (8, 10)]);
    let before: u64 = pairs(&book).iter().map(|p| p.1 as u64).sum();
    book.buy(17);
    let left: u64 = pairs(&book).iter().map(|p| p.1 as u64).sum();
    assert_eq!(before - left, 17);
    book.buy(100);
    let rest: u64 = pairs(&book).iter().map(|p| p.1 as u64).sum();
    assert_eq!(left - rest, 13);
}

#[test]
fn buy_drops_empty_levels_at_the_front() {
    let mut book = ladder(&[(4, 0), (6, 3)]);
    assert_eq!(book.buy(1), 6);
    assert_eq!(pairs(&book), vec![(6, 2)]);
}

#[test]
fn buy_cost_does_not_overflow() {
    let mut book = ladder(&[(u32::MAX, u32::MAX), (u32::MAX, u32::MAX)]);
    assert_eq!(book.buy(u32::MAX), 18446744065119617025);
    assert_eq!(pairs(&book), vec![(u32::MAX, u32::MAX)]);
}
