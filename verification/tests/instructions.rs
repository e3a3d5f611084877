use orderbook::action::Action;
use orderbook::action::ParseError;
use orderbook::book::Orderbook;
use orderbook::session::run;
use orderbook::text::chars_of;
use orderbook::text::space;

#[test]
fn add_line_is_read() {
    assert_eq!(Action::from_str("+ 10 5"), Ok(Action::Add { price: 10, size: 5 }));
}

#[test]
fn remove_line_is_read() {
    assert_eq!(Action::from_str("- 3"), Ok(Action::Remove { pos: 3 }));
}

#[test]
fn buy_line_is_read() {
    assert_eq!(Action::from_str("= 7"), Ok(Action::Buy { shares: 7 }));
}

#[test]
fn white_space_at_the_ends_is_dropped() {
    assert_eq!(Action::from_str("  = 7 \t\r"), Ok(Action::Buy { shares: 7 }));
    assert_eq!(Action::from_str("\u{a0}- 2\u{3000}"), Ok(Action::Remove { pos: 2 }));
}

#[test]
fn plus_sign_and_zeros_in_front_of_a_number_are_read() {
    assert_eq!(Action::from_str("= +7"), Ok(Action::Buy { shares: 7 }));
    assert_eq!(Action::from_str("= 0004"), Ok(Action::Buy { shares: 4 }));
    assert_eq!(
        Action::from_str("+ 00000000000000000000012 +0"),
        Ok(Action::Add { price: 12, size: 0 })
    );
}

#[test]
fn tokens_behind_the_last_number_are_not_read() {
    assert_eq!(Action::from_str("+ 1 2 3"), Ok(Action::Add { price: 1, size: 2 }));
    assert_eq!(Action::from_str("= 9 x"), Ok(Action::Buy { shares: 9 }));
}

#[test]
fn largest_numbers_are_read() {
    assert_eq!(Action::from_str("= 4294967295"), Ok(Action::Buy { shares: u32::MAX }));
    assert_eq!(
        Action::from_str(&format!("- {}", usize::MAX)),
        Ok(Action::Remove { pos: usize::MAX })
    );
}

#[test]
fn too_large_numbers_are_refused() {
    assert_eq!(Action::from_str("= 4294967296"), Err(ParseError::InvalidNumber));
    assert_eq!(Action::from_str("+ 1 99999999999999999999"), Err(ParseError::InvalidNumber));
    assert_eq!(
        Action::from_str("- 340282366920938463463374607431768211456"),
        Err(ParseError::InvalidNumber)
    );
}

#[test]
fn unknown_operations_are_refused() {
    assert_eq!(Action::from_str(""), Err(ParseError::UnknownOperation));
    assert_eq!(Action::from_str("   "), Err(ParseError::UnknownOperation));
    assert_eq!(Action::from_str("x 1"), Err(ParseError::UnknownOperation));
    assert_eq!(Action::from_str("++ 1 2"), Err(ParseError::UnknownOperation));
    assert_eq!(Action::from_str("+1 2"), Err(ParseError::UnknownOperation));
    assert_eq!(Action::from_str("buy 3"), Err(ParseError::UnknownOperation));
}

#[test]
fn missing_numbers_are_refused() {
    assert_eq!(Action::from_str("+"), Err(ParseError::MissingOperand));
    assert_eq!(Action::from_str("+ 5"), Err(ParseError::MissingOperand));
    assert_eq!(Action::from_str("-"), Err(ParseError::MissingOperand));
    assert_eq!(Action::from_str("="), Err(ParseError::MissingOperand));
}

#[test]
fn tokens_that_are_no_numbers_are_refused() {
    assert_eq!(Action::from_str("+ 5 x"), Err(ParseError::InvalidNumber));
    assert_eq!(Action::from_str("+ x 5"), Err(ParseError::InvalidNumber));
    assert_eq!(Action::from_str("= -1"), Err(ParseError::InvalidNumber));
    assert_eq!(Action::from_str("= +"), Err(ParseError::InvalidNumber));
    assert_eq!(Action::from_str("= 1_000"), Err(ParseError::InvalidNumber));
    assert_eq!(Action::from_str("=  5"), Err(ParseError::InvalidNumber));
    assert_eq!(Action::from_str("+\t5 3"), Err(ParseError::UnknownOperation));
    assert_eq!(Action::from_str("= \u{661}"), Err(ParseError::InvalidNumber));
}

#[test]
fn numbers_read_as_the_standard_parser_reads_them() {
    let tokens = [
        "0", "7", "+7", "007", "4294967295", "4294967296", "+", "-", "-0", "1a", "+-1", "0x10",
    ];
    for token in tokens {
        let line = format!("= {}", token);
        let expected = token.parse::<u32>().ok().map(|shares| Action::Buy { shares });
        assert_eq!(Action::from_str(&line).ok(), expected, "{}", token);
    }
}

#[test]
fn characters_come_in_order() {
    assert_eq!(chars_of("a\u{e9}\u{3000}z"), vec!['a', '\u{e9}', '\u{3000}', 'z']);
    assert!(chars_of("").is_empty());
}

#[test]
fn apply_dispatches_each_instruction() {
    let mut book = Orderbook::new();
    assert_eq!(book.apply(Action::Add { price: 10, size: 5 }), None);
    assert_eq!(book.apply(Action::Add { price: 9, size: 2 }), None);
    assert_eq!(book.len(), 2);
    assert_eq!(book.apply(Action::Buy { shares: 3 }), Some(28));
    assert_eq!(book.apply(Action::Remove { pos: 9 }), None);
    assert_eq!(book.len(), 0);
}

#[test]
fn stream_of_two_levels_and_a_buy() {
    let input = "+ 10 5\n+ 9 2\n= 3\n";
    let mut book = Orderbook::new();
    let mut last_buy = None;
    for line in input.split('\n') {
        if line.is_empty() {
            continue;
        }
        if let Some(cost) = book.apply(Action::from_str(line).unwrap()) {
            last_buy = Some(cost);
        }
    }
    assert_eq!(last_buy, Some(28));
    assert_eq!(run("+ 10 5\n+ 9 2\n", 3), Ok(28));
    assert_eq!(run(input, 1000), Ok(40));
    assert_eq!(run(input, 0), Ok(0));
}

#[test]
fn run_on_an_empty_stream_costs_nothing() {
    assert_eq!(run("", 1000), Ok(0));
    assert_eq!(run("\n\n", 1000), Ok(0));
}

#[test]
fn run_passes_over_empty_lines() {
    assert_eq!(run("+ 10 5\n\n+ 9 2", 1000), Ok(68));
    assert_eq!(run("\n+ 10 5\r\n+ 9 2\r\n", 1000), Ok(68));
}

#[test]
fn run_removes_and_buys_in_order() {
    assert_eq!(run("+ 10 5\n+ 9 2\n- 0\n= 1\n+ 3 3\n", 1000), Ok(9 + 40));
    assert_eq!(run("+ 10 5\n- 9\n", 5), Ok(0));
    assert_eq!(run("- 0\n+ 4 4\n", 5), Ok(16));
}

#[test]
fn run_stops_at_the_first_bad_line() {
    assert_eq!(run("+ 10 5\nbogus\n", 1), Err(ParseError::UnknownOperation));
    assert_eq!(run("+ 10 5\n \n", 1), Err(ParseError::UnknownOperation));
    assert_eq!(run("+ 10\n= x\n", 1), Err(ParseError::MissingOperand));
    assert_eq!(run("= x\n+ 10\n", 1), Err(ParseError::InvalidNumber));
}

#[test]
fn white_space_is_what_unicode_says() {
    for code in 0..=0x10ffff_u32 {
        if let Some(c) = char::from_u32(code) {
            assert_eq!(space(c), c.is_whitespace(), "U+{:04X}", code);
        }
    }
    assert!(space(' '));
    assert!(space('\u{2028}'));
    assert!(!space('\u{200b}'));
    assert!(!space('0'));
}
