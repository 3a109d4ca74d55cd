//! A small inventory model: products with a name, a price and a stock level,
//! the capabilities they offer (rendering, serialising with validation, stock
//! keeping), two helpers on text, and a generic filter over slices.
//!
//! Every function carries a contract over a mathematical model of its data.
//! All of them are proved but one: the debug-quoting of a string is left to
//! the standard formatter, and `product::debug_quoted` names what it gives.
pub mod decimal;
pub mod filter;
pub mod price;
pub mod product;
pub mod text;
