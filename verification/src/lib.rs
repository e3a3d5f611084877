//! A single-sided order book: an ascending ladder of price levels, the rule
//! that places a new level, removal by position, and market buys that walk
//! the ladder from its best ask.

pub mod order;
pub mod placement;
pub mod fill;
pub mod book;
pub mod session;
pub mod text;
pub mod action;
