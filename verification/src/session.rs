use vstd::prelude::*;
use crate::order::Order;
use crate::action::ParseError;
use crate::action::decode;
use crate::action::decode_chars;
use crate::book::Orderbook;
use crate::book::after;
use crate::book::lemma_after_keeps_order;
use crate::order::price_sorted;
use crate::fill::fill_cost;
use crate::text::first_at;
use crate::text::lemma_first_at_bounds;
use crate::text::chars_of;
use crate::text::find;
use crate::text::piece;

verus! {

/// The ladder `book` after the line `line`: an empty line leaves it as it is,
/// any other line must hold an instruction, also one of white space alone.
pub open spec fn after_line(book: Seq<Order>, line: Seq<char>) -> Result<Seq<Order>, ParseError> {
    if line.len() == 0 {
        Ok(book)
    } else {
        match decode(line) {
            Ok(action) => Ok(after(book, action)),
            Err(e) => Err(e),
        }
    }
}

/// The ladder `book` after the lines of `s` from index `i` on, taken in order;
/// the first line that holds no instruction ends the replay with its error.
/// Lines are parted by line feeds.
pub open spec fn replay(s: Seq<char>, i: int, book: Seq<Order>) -> Result<Seq<Order>, ParseError>
    decreases s.len() - i,
    via replay_decreases
{
    let end = first_at(s, i, '\n');
    match after_line(book, s.subrange(i, end)) {
        Err(e) => Err(e),
        Ok(next) => if 0 <= i <= end < s.len() {
            replay(s, end + 1, next)
        } else {
            Ok(next)
        },
    }
}

#[via_fn]
proof fn replay_decreases(s: Seq<char>, i: int, book: Seq<Order>) {
    if 0 <= i <= s.len() {
        lemma_first_at_bounds(s, i, '\n');
    }
}

/// A replay that starts on a ladder with sorted prices ends on one.
pub proof fn lemma_replay_keeps_prices_sorted(s: Seq<char>, i: int, book: Seq<Order>)
    requires
        price_sorted(book),
        0 <= i <= s.len(),
    ensures
        replay(s, i, book) is Ok ==> price_sorted(replay(s, i, book)->Ok_0),
    decreases s.len() - i,
{
    let end = first_at(s, i, '\n');
    let line = s.subrange(i, end);
    lemma_first_at_bounds(s, i, '\n');
    match after_line(book, line) {
        Err(_) => {},
        Ok(next) => {
            if line.len() > 0 {
                lemma_after_keeps_order(book, decode(line)->Ok_0);
            }
            if end < s.len() {
                lemma_replay_keeps_prices_sorted(s, end + 1, next);
            }
        },
    }
}

/// What a market buy of `closing` shares pays once the instructions of
/// `input` have been carried out on an empty ladder.
pub open spec fn closing_cost(input: Seq<char>, closing: nat) -> Result<nat, ParseError> {
    match replay(input, 0, Seq::empty()) {
        Ok(book) => Ok(fill_cost(book, closing)),
        Err(e) => Err(e),
    }
}

/// Carries out the instructions of `input`, one per line, on an empty ladder,
/// then buys `closing` shares at the market and returns what that buy paid.
/// Empty lines are passed over; the first line that holds no instruction ends
/// the run with its error.
pub fn run(input: &str, closing: u32) -> (r: Result<u64, ParseError>)
    ensures
        match r {
            Ok(cost) => closing_cost(input@, closing as nat) == Ok::<nat, ParseError>(cost as nat),
            Err(e) => closing_cost(input@, closing as nat) == Err::<nat, ParseError>(e),
        },
{
    let text = chars_of(input);
    let mut book = Orderbook::new();
    let mut i: usize = 0;
    loop
        invariant_except_break
            replay(input@, 0, Seq::empty()) == replay(input@, i as int, book@),
        invariant
            text@ == input@,
            i <= text@.len(),
            book.wf(),
        ensures
            replay(input@, 0, Seq::empty()) == Ok::<Seq<Order>, ParseError>(book@),
            book.wf(),
        decreases text@.len() - i,
    {
        let end = find(&text, i, '\n');
        if end > i {
            let line = piece(&text, i, end);
            match decode_chars(&line) {
                Ok(action) => {
                    book.apply(action);
                },
                Err(e) => {
                    return Err(e);
                },
            }
        } else {
            assert(text@.subrange(i as int, end as int).len() == 0);
        }
        if end >= text.len() {
            break ;
        }
        i = end + 1;
    }
    Ok(book.buy(closing))
}

} // verus!
