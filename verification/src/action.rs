use vstd::prelude::*;
use crate::text::first_at;
use crate::text::trimmed;
use crate::text::decimal_up_to;
use crate::text::chars_of;
use crate::text::trim;
use crate::text::find;
use crate::text::number;

verus! {

/// One instruction for the order book.
#[derive(Debug, Clone, Copy, PartialEq, Eq, Structural)]
pub enum Action {
    /// Add a level of `size` shares at `price`.
    Add { price: u32, size: u32 },
    /// Remove the level at index `pos`.
    Remove { pos: usize },
    /// Buy `shares` at the market.
    Buy { shares: u32 },
}

/// Why a line is no instruction.
#[derive(Debug, Clone, Copy, PartialEq, Eq, Structural)]
pub enum ParseError {
    /// The first token is none of `+`, `-` and `=`.
    UnknownOperation,
    /// The line ends where a number is due.
    MissingOperand,
    /// A token that should be a number is not one, or is too large.
    InvalidNumber,
}

/// Where the token ends that begins behind the blank at `blank`.
pub open spec fn operand_end(t: Seq<char>, blank: int) -> int {
    first_at(t, blank + 1, ' ')
}

/// The number whose token begins behind the blank at `blank`. The number is
/// missing if `t` ends at `blank`, and invalid if the token is no decimal
/// number or exceeds `max`.
pub open spec fn operand(t: Seq<char>, blank: int, max: nat) -> Result<nat, ParseError> {
    if blank >= t.len() {
        Err(ParseError::MissingOperand)
    } else {
        match decimal_up_to(t.subrange(blank + 1, operand_end(t, blank)), max) {
            Some(n) => Ok(n),
            None => Err(ParseError::InvalidNumber),
        }
    }
}

/// The instruction that the trimmed line `t` holds. Its tokens are parted by
/// single blanks; the first is the operation, the following are its numbers,
/// and what follows the last number is not read.
pub open spec fn decode_trimmed(t: Seq<char>) -> Result<Action, ParseError> {
    let op = first_at(t, 0, ' ');
    if op != 1 {
        Err(ParseError::UnknownOperation)
    } else if t[0] == '+' {
        match operand(t, op, u32::MAX as nat) {
            Err(e) => Err(e),
            Ok(price) => match operand(t, operand_end(t, op), u32::MAX as nat) {
                Err(e) => Err(e),
                Ok(size) => Ok(Action::Add { price: price as u32, size: size as u32 }),
            },
        }
    } else if t[0] == '-' {
        match operand(t, op, usize::MAX as nat) {
            Err(e) => Err(e),
            Ok(pos) => Ok(Action::Remove { pos: pos as usize }),
        }
    } else if t[0] == '=' {
        match operand(t, op, u32::MAX as nat) {
            Err(e) => Err(e),
            Ok(shares) => Ok(Action::Buy { shares: shares as u32 }),
        }
    } else {
        Err(ParseError::UnknownOperation)
    }
}

/// The instruction that a line holds, white space at its ends aside.
pub open spec fn decode(line: Seq<char>) -> Result<Action, ParseError> {
    decode_trimmed(trimmed(line))
}

/// Reads the number whose token begins behind the blank at `blank`, and tells
/// where that token ends.
fn read_operand(t: &Vec<char>, blank: usize, max: u64) -> (r: Result<(u64, usize), ParseError>)
    requires
        blank <= t@.len(),
    ensures
        match r {
            Ok((n, end)) => {
                &&& operand(t@, blank as int, max as nat) == Ok::<nat, ParseError>(n as nat)
                &&& end == operand_end(t@, blank as int)
                &&& end <= t@.len()
            },
            Err(e) => operand(t@, blank as int, max as nat) == Err::<nat, ParseError>(e),
        },
{
    if blank >= t.len() {
        return Err(ParseError::MissingOperand);
    }
    let end = find(t, blank + 1, ' ');
    match number(t, blank + 1, end, max) {
        Some(n) => Ok((n, end)),
        None => Err(ParseError::InvalidNumber),
    }
}

/// Reads an instruction from the characters of a line.
pub fn decode_chars(line: &Vec<char>) -> (r: Result<Action, ParseError>)
    ensures
        r == decode(line@),
{
    let t = trim(line);
    let op = find(&t, 0, ' ');
    if op != 1 {
        return Err(ParseError::UnknownOperation);
    }
    let c = t[0];
    if c == '+' {
        match read_operand(&t, op, 0xffff_ffff) {
            Err(e) => Err(e),
            Ok((price, end)) => match read_operand(&t, end, 0xffff_ffff) {
                Err(e) => Err(e),
                Ok((size, _)) => Ok(Action::Add { price: price as u32, size: size as u32 }),
            },
        }
    } else if c == '-' {
        match read_operand(&t, op, usize::MAX as u64) {
            Err(e) => Err(e),
            Ok((pos, _)) => Ok(Action::Remove { pos: pos as usize }),
        }
    } else if c == '=' {
        match read_operand(&t, op, 0xffff_ffff) {
            Err(e) => Err(e),
            Ok((shares, _)) => Ok(Action::Buy { shares: shares as u32 }),
        }
    } else {
        Err(ParseError::UnknownOperation)
    }
}

impl Action {
    /// Reads an instruction from a line: `+ price size`, `- position` or
    /// `= shares`, with single blanks between the tokens.
    pub fn from_str(string: &str) -> (r: Result<Action, ParseError>)
        ensures
            r == decode(string@),
    {
        let line = chars_of(string);
        decode_chars(&line)
    }
}

} // verus!
